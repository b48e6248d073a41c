//! The data plane: what happens to an accepted connection.
//!
//! A TLS connection is intercepted at its ClientHello, and if it terminates
//! into HTTP it is intercepted again at its request head. Terminal backends
//! consume an intercepted artifact plus its continuation stream.
pub mod flow;
pub mod http;
pub mod lifecycle;
pub mod pipeline;
pub mod policy;
pub mod session;
pub mod tls;

use vstd::prelude::*;
use crate::ca::LocalCa;
use crate::managed_tls::{CertificateFallbackPolicy, ManagedCertificateCache};

verus! {

/// What a TLS listener takes its certificates from.
pub struct TlsCtx {
    pub ca: LocalCa,
    pub cache: ManagedCertificateCache,
    pub fallback: CertificateFallbackPolicy,
}

impl TlsCtx {
    pub open spec fn wf(self) -> bool {
        self.ca.wf() && self.cache.wf()
    }
}

} // verus!
