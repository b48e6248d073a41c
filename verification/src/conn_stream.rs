//! A stream tagged with its connection's `RequestId`, with byte pushback.
//!
//! Every proxied connection is assigned a `RequestId` at accept, used for
//! logging and as the active-connection tracker key. This wrapper carries that
//! id alongside the stream so downstream layers read it directly.
//!
//! The wrapper also supports `unread`: an interception layer that consumed
//! bytes while peeking at a protocol (a TLS ClientHello, an HTTP head's body
//! prefix) can push them back, and subsequent reads present the restored
//! bytes before the underlying stream. Downstream consumers therefore see the
//! full, pristine protocol stream.
use vstd::prelude::*;
use vstd::slice::slice_subrange;
use std::sync::Arc;
use crate::bytes;
use crate::request_id::RequestId;

verus! {

/// Upper bound on restored bytes; interception layers are individually
/// bounded well below this, so hitting it indicates a logic error.
pub const MAX_PUSHBACK: usize = 1048576;

pub struct ConnStream<T> {
    pub inner: T,
    pub request_id: Arc<RequestId>,
    pub pushback: Vec<u8>,
    pub pushback_offset: usize,
}

impl<T> ConnStream<T> {
    pub open spec fn wf(self) -> bool {
        self.pushback_offset <= self.pushback@.len()
    }

    /// The restored bytes that have not been read yet.
    pub open spec fn pending(self) -> Seq<u8> {
        self.pushback@.skip(self.pushback_offset as int)
    }

    /// Wraps a stream with a fresh connection id.
    pub fn of(inner: T, counter: &mut usize) -> (r: ConnStream<T>)
        ensures
            r.wf(),
            r.inner == inner,
            r.request_id._seq == *old(counter),
            r.pending() == Seq::<u8>::empty(),
            *final(counter) == if *old(counter) == usize::MAX {
                0
            } else {
                *old(counter) + 1
            },
    {
        let r = ConnStream {
            inner,
            request_id: Arc::new(RequestId::new(counter)),
            pushback: Vec::new(),
            pushback_offset: 0,
        };
        assert(r.pending() =~= Seq::<u8>::empty());
        r
    }

    /// Rewraps a transformed stream (e.g. the plaintext stream after TLS
    /// termination) while preserving the original connection id.
    pub fn with_request_id(inner: T, request_id: Arc<RequestId>) -> (r: ConnStream<T>)
        ensures
            r.wf(),
            r.inner == inner,
            r.request_id == request_id,
            r.pending() == Seq::<u8>::empty(),
    {
        let r = ConnStream { inner, request_id, pushback: Vec::new(), pushback_offset: 0 };
        assert(r.pending() =~= Seq::<u8>::empty());
        r
    }

    /// The connection's request id.
    pub fn request_id(&self) -> (r: &RequestId)
        ensures
            *r == *self.request_id,
    {
        &self.request_id
    }

    /// Restores bytes consumed while peeking at the stream. Subsequent reads
    /// present the restored bytes, in the given order, before anything from
    /// the underlying stream, so a downstream protocol engine sees the
    /// connection exactly as it arrived on the wire.
    pub fn unread(&mut self, restored: &[u8])
        requires
            old(self).wf(),
            old(self).pending().len() + restored@.len() <= MAX_PUSHBACK,
        ensures
            final(self).wf(),
            final(self).pending() == restored@ + old(self).pending(),
            final(self).inner == old(self).inner,
            final(self).request_id == old(self).request_id,
    {
        if restored.len() == 0 {
            assert(self.pending() =~= restored@ + self.pending());
            return;
        }
        let ghost before = self.pending();
        let mut joined = bytes::copy_of(restored);
        let rest = slice_subrange(self.pushback.as_slice(), self.pushback_offset, self.pushback.len());
        assert(rest@ =~= before);
        bytes::push_all(&mut joined, rest);
        self.pushback = joined;
        self.pushback_offset = 0;
        assert(self.pending() =~= restored@ + before);
    }

    /// The restored bytes that a read of at most `room` bytes presents, or
    /// nothing if it has to go to the underlying stream.
    pub fn read_pushback(&mut self, room: usize) -> (r: Option<Vec<u8>>)
        requires
            old(self).wf(),
        ensures
            final(self).wf(),
            final(self).inner == old(self).inner,
            final(self).request_id == old(self).request_id,
            r is None <==> old(self).pending().len() == 0,
            r is None ==> final(self).pending() == old(self).pending(),
            r is Some ==> r->0@ + final(self).pending() == old(self).pending() && r->0@.len() == if room < old(
                self,
            ).pending().len() {
                room as nat
            } else {
                old(self).pending().len()
            },
    {
        let available: usize = self.pushback.len() - self.pushback_offset;
        if available == 0 {
            return None;
        }
        let ghost before = self.pending();
        let count = if room < available {
            room
        } else {
            available
        };
        let part = slice_subrange(
            self.pushback.as_slice(),
            self.pushback_offset,
            self.pushback_offset + count,
        );
        let out = bytes::copy_of(part);
        self.pushback_offset = self.pushback_offset + count;
        if self.pushback_offset == self.pushback.len() {
            self.pushback = Vec::new();
            self.pushback_offset = 0;
        }
        assert(out@ + self.pending() =~= before);
        Some(out)
    }

    /// Unwraps the inner stream. Any unread pushback would be discarded, so
    /// this is only sound before `unread` or after the pushback has been
    /// drained.
    pub fn unwrap(self) -> (r: T)
        requires
            self.wf(),
            self.pending().len() == 0,
        ensures
            r == self.inner,
    {
        self.inner
    }
}

/// What a reader gets from a stream: the restored bytes, then the wire.
pub open spec fn presented(pending: Seq<u8>, wire: Seq<u8>) -> Seq<u8> {
    pending + wire
}

/// Reading bytes off the wire and unreading them again leaves no trace: the
/// stream presents what it presented before.
pub proof fn unread_undoes_a_read(pending: Seq<u8>, wire: Seq<u8>, count: int)
    requires
        pending.len() == 0,
        0 <= count <= wire.len(),
    ensures
        presented(wire.take(count) + pending, wire.skip(count)) == presented(pending, wire),
{
    assert(presented(wire.take(count) + pending, wire.skip(count)) =~= presented(pending, wire));
}

/// Later unread bytes come before those that were unread earlier.
pub proof fn later_unread_comes_first(pending: Seq<u8>, first: Seq<u8>, second: Seq<u8>, wire: Seq<u8>)
    ensures
        presented(second + (first + pending), wire) == second + first + presented(pending, wire),
{
    assert(presented(second + (first + pending), wire) =~= second + first + presented(pending, wire));
}

/// What is unread is read again first, in its order, however much is asked for
/// at a time.
pub proof fn unread_bytes_are_read_first<T>(
    a: &mut ConnStream<T>,
    b: &mut ConnStream<T>,
    restored: &[u8],
    room: usize,
    r: Option<Vec<u8>>,
)
    requires
        call_ensures(ConnStream::<T>::unread, (a, restored), ()),
        *old(b) == *final(a),
        call_ensures(ConnStream::<T>::read_pushback, (b, room), r),
        restored@.len() > 0,
    ensures
        r is Some,
        room <= restored@.len() ==> (r->0)@ == restored@.take(room as int) && final(b).pending() == restored@.skip(
            room as int,
        ) + old(a).pending(),
        room >= restored@.len() + old(a).pending().len() ==> (r->0)@ == restored@ + old(a).pending() && final(b).pending().len() == 0,
        final(b).inner == old(a).inner,
{
    let out = (r->0)@;
    let rest = final(b).pending();
    let all = restored@ + old(a).pending();
    assert(out + rest == all);
    if room <= restored@.len() {
        assert(out =~= (out + rest).take(room as int));
        assert(rest =~= (out + rest).skip(room as int));
        assert(all.take(room as int) =~= restored@.take(room as int));
        assert(all.skip(room as int) =~= restored@.skip(room as int) + old(a).pending());
    }
    if room >= all.len() {
        assert((out + rest).len() == out.len() + rest.len());
        assert(out =~= out + rest);
    }
}

} // verus!
