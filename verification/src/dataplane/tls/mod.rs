//! TLS interception: an inbound TLS connection is intercepted at its
//! ClientHello. The parsed hello plus the continuation stream are then handed
//! to a passthrough or a terminating backend.
pub mod terminate;

use vstd::prelude::*;
use crate::dataplane::pipeline::{Intercept, Intercepted};
use crate::extensible::Extensible;
use crate::tls_header::ClientHello;

verus! {

/// Interception point for an inbound TLS connection: its ClientHello. The
/// continuation stream is the same connection, positioned immediately after
/// the hello, whose raw bytes stay in the hello for replay.
pub struct ClientHelloIntercept<S> {
    pub stream: Extensible<S>,
    pub timeout_ms: u64,
    pub max_size: usize,
}

impl<S> ClientHelloIntercept<S> {
    pub fn new(stream: Extensible<S>, timeout_ms: u64, max_size: usize) -> (r: ClientHelloIntercept<S>)
        ensures
            r.stream == stream,
            r.timeout_ms == timeout_ms,
            r.max_size == max_size,
    {
        ClientHelloIntercept { stream, timeout_ms, max_size }
    }
}

impl<S> Intercept for ClientHelloIntercept<S> {
    type Received = ClientHello;

    type Artifact = ClientHello;

    type Stream = Extensible<S>;

    type Refusal = ();

    open spec fn reached(self, received: ClientHello) -> bool {
        received.buffered@.len() <= self.max_size
    }

    open spec fn yields(self, received: ClientHello, r: Result<Intercepted<ClientHello, Extensible<S>>, ()>) -> bool {
        r matches Ok(i) && i.artifact == received && i.stream == self.stream
    }

    fn intercept(self, received: ClientHello) -> (r: Result<Intercepted<ClientHello, Extensible<S>>, ()>) {
        Ok(Intercepted { artifact: received, stream: self.stream })
    }
}

} // verus!
