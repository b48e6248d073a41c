//! The mandatory listener's routing decisions.
pub mod connection;
pub mod default;

use vstd::prelude::*;

verus! {

/// Result of the mandatory listener's protocol- and SNI-level routing. The
/// downstream protocol handlers never make control-plane or ACME decisions.
#[derive(Debug, Clone, PartialEq, Eq)]
pub enum DefaultRoute {
    AcmeChallenge { domain: String },
    ControlPlane { hostname: String },
    Proxy { sni: String },
    Reject(RejectReason),
}

#[derive(Debug, Clone, Copy, PartialEq, Eq, Structural)]
pub enum RejectReason {
    MissingSni,
    UnmatchedAcmeChallenge,
    PolicyDenied,
}

} // verus!
