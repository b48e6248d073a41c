//! Core pipeline abstraction shared by every data-plane layer.
//!
//! A connection is modeled as a sequence of *interception points*. At each
//! point a layer parses one protocol artifact (a TLS ClientHello, an HTTP
//! request head) and hands that artifact together with the continuation stream
//! to the next layer.
use vstd::prelude::*;

verus! {

/// The product of an interception: the parsed protocol artifact plus the
/// stream positioned to continue the conversation.
pub struct Intercepted<Artifact, Stream> {
    pub artifact: Artifact,
    pub stream: Stream,
}

/// A connection positioned at a protocol interception point. Consuming it
/// parses what was received up to and including that point and yields the
/// artifact together with the continuation stream.
pub trait Intercept: Sized {
    /// What was received up to the interception point.
    type Received;

    /// The parsed protocol artifact (e.g. a ClientHello or an HTTP head).
    type Artifact;

    /// The stream handed to the next layer once the artifact is parsed.
    type Stream;

    /// Why what was received is refused.
    type Refusal;

    /// Whether the interception point was reached.
    spec fn reached(self, received: Self::Received) -> bool;

    /// Whether `r` is what the interception yields.
    spec fn yields(
        self,
        received: Self::Received,
        r: Result<Intercepted<Self::Artifact, Self::Stream>, Self::Refusal>,
    ) -> bool;

    fn intercept(self, received: Self::Received) -> (r: Result<
        Intercepted<Self::Artifact, Self::Stream>,
        Self::Refusal,
    >)
        requires
            self.reached(received),
        ensures
            self.yields(received, r),
    ;
}

} // verus!
