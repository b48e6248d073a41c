//! Ownership of a connection's presence in the global registries.
use vstd::prelude::*;
use std::sync::Arc;
use crate::accounting::{CdrRecord, ListenerType};
use crate::active_tracker;
use crate::active_tracker::{ActiveConnection, ActiveTracker, ClosedConnection, CountChange};
use crate::request_id::RequestId;
use crate::table::Key;

verus! {

/// Owns one connection's presence in the global registries for the duration of
/// its handler. Starting registers the connection; finishing deregisters it
/// and yields the record that is written for it, whether or not the handler
/// came to an end of its own.
pub struct ConnGuard {
    pub request_id: Arc<RequestId>,
    pub listener: String,
    pub fallback_type: ListenerType,
    pub started: u64,
}

/// What is left of a connection that ended.
pub struct Finished {
    /// The record to write.
    pub record: Option<CdrRecord>,
    /// The connection as it was when it was deregistered, and how the counts
    /// changed by that.
    pub closed: Option<(ClosedConnection, CountChange)>,
}

/// Whether `r` is the record of a connection that ended.
pub open spec fn record_is(
    r: CdrRecord,
    a: ActiveConnection,
    id: RequestId,
    listener: Seq<char>,
    fallback: ListenerType,
    end_unix_ms: u128,
) -> bool {
    &&& r.listener_type == match a.listener_type {
        Some(t) => t,
        None => fallback,
    }
    &&& r.connection_id@ == id.shown()
    &&& r.listener_name@ == listener
    &&& r.sni@ == a.sni@
    &&& r.target_host@ == a.target_host@
    &&& r.target_endpoint@ == a.target_endpoint@
    &&& r.remote_address@ == a.remote_address@
    &&& r.status == a.status
    &&& r.uploaded_bytes == a.uploaded_bytes
    &&& r.downloaded_bytes == a.downloaded_bytes
    &&& r.start_unix_ms == a.started_at_unix_ms
    &&& r.end_unix_ms == end_unix_ms
}

impl ConnGuard {
    /// Registers a freshly accepted connection. `fallback_type` is used for the
    /// record when the handler never reaches the point of classifying the
    /// connection. `active` counts the listener's open connections.
    pub fn start(
        tracker: &mut ActiveTracker,
        active: &mut usize,
        request_id: Arc<RequestId>,
        listener: String,
        remote: &str,
        fallback_type: ListenerType,
        now: u64,
        unix_ms: u128,
    ) -> (r: (ConnGuard, CountChange))
        requires
            old(tracker).wf(),
            *old(active) < usize::MAX,
        ensures
            final(tracker).wf(),
            final(tracker)@.dom() == old(tracker)@.dom().insert(Key::id(&*request_id)),
            active_tracker::is_fresh(final(tracker)@[Key::id(&*request_id)], listener@, remote@, now, unix_ms),
            forall|k: (usize, Seq<char>)| #[trigger]
                old(tracker)@.dom().contains(k) && k != Key::id(&*request_id) ==> final(tracker)@[k] == old(tracker)@[k],
            *final(active) == *old(active) + 1,
            r.0.request_id == request_id,
            r.0.listener == listener,
            r.0.fallback_type == fallback_type,
            r.0.started == now,
            r.1.global_was == old(tracker)@.dom().len(),
            r.1.global_now == final(tracker)@.dom().len(),
            r.1.listener_was == active_tracker::count_for(old(tracker).active.entries@, listener@),
            r.1.listener_now == active_tracker::count_for(final(tracker).active.entries@, listener@),
            !old(tracker)@.dom().contains(Key::id(&*request_id)) ==> r.1.listener_now == r.1.listener_was + 1
                && r.1.global_now == r.1.global_was + 1,
    {
        let change = active_tracker::put(tracker, &request_id, listener.as_str(), remote, now, unix_ms);
        *active = *active + 1;
        (ConnGuard { request_id, listener, fallback_type, started: now }, change)
    }

    pub fn request_id(&self) -> (r: &Arc<RequestId>)
        ensures
            *r == self.request_id,
    {
        &self.request_id
    }

    /// How long the connection has been there, in milliseconds.
    pub fn elapsed(&self, now: u64) -> (r: u64)
        ensures
            r == if now > self.started {
                now - self.started
            } else {
                0
            },
    {
        now.saturating_sub(self.started)
    }

    /// Deregisters the connection. Yields the record to write if there is
    /// accounting, and what the live views are told, if the connection was
    /// still registered.
    pub fn finish(self, tracker: &mut ActiveTracker, active: &mut usize, accounting: bool, end_unix_ms: u128) -> (r:
        Finished)
        requires
            old(tracker).wf(),
        ensures
            final(tracker).wf(),
            final(tracker)@ == old(tracker)@.remove(Key::id(&*self.request_id)),
            *final(active) == if *old(active) == 0 {
                0
            } else {
                *old(active) - 1
            },
            r.record is Some <==> accounting && old(tracker)@.dom().contains(Key::id(&*self.request_id)),
            r.record matches Some(record) ==> record_is(
                record,
                old(tracker)@[Key::id(&*self.request_id)],
                *self.request_id,
                self.listener@,
                self.fallback_type,
                end_unix_ms,
            ),
            r.closed is Some <==> old(tracker)@.dom().contains(Key::id(&*self.request_id)),
            r.closed matches Some((closed, change)) ==> {
                &&& active_tracker::closed_is(closed, old(tracker)@[Key::id(&*self.request_id)])
                &&& change.global_was == old(tracker)@.dom().len()
                &&& change.global_now == change.global_was - 1
                &&& change.listener_was == active_tracker::count_for(old(tracker).active.entries@, closed.listener@)
                &&& change.listener_now == active_tracker::count_for(final(tracker).active.entries@, closed.listener@)
                &&& change.listener_now == change.listener_was - 1
            },
    {
        let gone = active_tracker::remove(tracker, &self.request_id);
        *active = active.saturating_sub(1);
        match gone {
            Some((closed, change)) => {
                let record = if accounting {
                    let listener_type = match closed.listener_type {
                        Some(t) => t,
                        None => self.fallback_type,
                    };
                    Some(
                        CdrRecord {
                            listener_type,
                            connection_id: self.request_id.to_text(),
                            listener_name: self.listener,
                            sni: closed.sni.clone(),
                            target_host: closed.target_host.clone(),
                            target_endpoint: closed.target_endpoint.clone(),
                            remote_address: closed.remote_address.clone(),
                            status: closed.status,
                            uploaded_bytes: closed.uploaded_bytes,
                            downloaded_bytes: closed.downloaded_bytes,
                            start_unix_ms: closed.started_at_unix_ms,
                            end_unix_ms,
                        },
                    )
                } else {
                    None
                };
                Finished { record, closed: Some((closed, change)) }
            },
            None => Finished { record: None, closed: None },
        }
    }
}

/// A connection that was started and finished leaves nothing behind: the other
/// connections and the count are as they were before.
pub proof fn a_finished_connection_leaves_nothing_behind(
    before: Map<(usize, Seq<char>), ActiveConnection>,
    during: Map<(usize, Seq<char>), ActiveConnection>,
    id: (usize, Seq<char>),
)
    requires
        !before.dom().contains(id),
        during.dom() == before.dom().insert(id),
        forall|k: (usize, Seq<char>)| #[trigger]
            before.dom().contains(k) && k != id ==> during[k] == before[k],
    ensures
        during.remove(id) == before,
{
    assert(during.remove(id) =~= before);
}

/// The record of a connection that ended tells what was known of it, under its
/// own id, whatever handler it had.
pub proof fn a_finished_connection_is_accounted_for(
    guard: ConnGuard,
    tracker: &mut ActiveTracker,
    active: &mut usize,
    end_unix_ms: u128,
    r: Finished,
)
    requires
        call_ensures(ConnGuard::finish, (guard, tracker, active, true, end_unix_ms), r),
        old(tracker)@.dom().contains(Key::id(&*guard.request_id)),
        *old(active) > 0,
    ensures
        r.record is Some && r.closed is Some,
        ({
            let known = old(tracker)@[Key::id(&*guard.request_id)];
            let record = r.record->0;
            &&& record.sni@ == known.sni@
            &&& record.target_endpoint@ == known.target_endpoint@
            &&& record.uploaded_bytes == known.uploaded_bytes
            &&& record.downloaded_bytes == known.downloaded_bytes
            &&& record.status == known.status
            &&& record.start_unix_ms == known.started_at_unix_ms
            &&& record.end_unix_ms == end_unix_ms
            &&& known.listener_type is Some ==> record.listener_type == known.listener_type->0
            &&& known.listener_type is None ==> record.listener_type == guard.fallback_type
        }),
        *final(active) == *old(active) - 1,
        !final(tracker)@.dom().contains(Key::id(&*guard.request_id)),
{
}

} // verus!
