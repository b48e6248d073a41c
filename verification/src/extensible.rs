//! A stream tagged with its connection's `RequestId`.
use vstd::prelude::*;
use std::sync::Arc;
use crate::request_id::RequestId;

verus! {

pub struct Extensible<T> {
    pub inner: T,
    pub request_id: Arc<RequestId>,
}

impl<T> Extensible<T> {
    /// Wraps a stream with a fresh connection id.
    pub fn of(inner: T, counter: &mut usize) -> (r: Extensible<T>)
        ensures
            r.inner == inner,
            r.request_id._seq == *old(counter),
            *final(counter) == if *old(counter) == usize::MAX {
                0
            } else {
                *old(counter) + 1
            },
    {
        Extensible { inner, request_id: Arc::new(RequestId::new(counter)) }
    }

    /// Rewraps a transformed stream (e.g. the plaintext stream after TLS
    /// termination) while preserving the original connection id.
    pub fn with_request_id(inner: T, request_id: Arc<RequestId>) -> (r: Extensible<T>)
        ensures
            r.inner == inner,
            r.request_id == request_id,
    {
        Extensible { inner, request_id }
    }

    /// The connection's request id.
    pub fn request_id(&self) -> (r: &RequestId)
        ensures
            *r == *self.request_id,
    {
        &self.request_id
    }

    pub fn unwrap(self) -> (r: T)
        ensures
            r == self.inner,
    {
        self.inner
    }
}

} // verus!
