//! What a listener learns from a TLS ClientHello.
use vstd::prelude::*;

verus! {

/// A parsed ClientHello, with the bytes that it was read from.
pub struct ClientHello {
    pub sni_host: String,
    pub alpn_protocols: Vec<Vec<u8>>,
    pub random: [u8; 32],
    pub buffered: Vec<u8>,
}

} // verus!
