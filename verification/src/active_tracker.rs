//! The connections that are open now, and what is known of each.
use vstd::prelude::*;
use crate::accounting::{ConnStatus, ListenerType};
use crate::order;
use crate::order::Ranked;
use crate::request_id::RequestId;
use crate::table;
use crate::table::Key;
use crate::table::Table;
use crate::text;

verus! {

pub struct ActiveConnection {
    pub listener: String,
    pub remote_address: String,
    /// When the connection was opened, on a clock that counts milliseconds.
    pub started_at: u64,
    pub started_at_unix_ms: u128,
    pub uploaded_bytes: u64,
    pub downloaded_bytes: u64,
    pub sni: String,
    pub target_host: String,
    pub target_endpoint: String,
    pub status: ConnStatus,
    pub listener_type: Option<ListenerType>,
}

/// A row of the list of open connections.
#[derive(Debug)]
pub struct ActiveConnectionSerde {
    pub request_id: String,
    pub listener: String,
    pub remote_address: String,
    pub host: String,
    pub uptime_ms: u128,
    pub started_at_unix_ms: u128,
    pub uploaded_bytes: u64,
    pub downloaded_bytes: u64,
}

impl Ranked for ActiveConnectionSerde {
    /// By listener, then by start, then by id.
    open spec fn ranks_before(self, other: Self) -> bool {
        if self.listener@ != other.listener@ {
            text::lex_le(self.listener@, other.listener@)
        } else if self.started_at_unix_ms != other.started_at_unix_ms {
            self.started_at_unix_ms < other.started_at_unix_ms
        } else {
            text::lex_le(self.request_id@, other.request_id@)
        }
    }

    proof fn total(a: Self, b: Self) {
        text::lemma_lex_total(a.listener@, b.listener@);
        text::lemma_lex_total(a.request_id@, b.request_id@);
    }

    proof fn transitive(a: Self, b: Self, c: Self) {
        if a.listener@ != b.listener@ && b.listener@ != c.listener@ {
            text::lemma_lex_transitive(a.listener@, b.listener@, c.listener@);
            if a.listener@ == c.listener@ {
                text::lemma_lex_antisymmetric(a.listener@, b.listener@);
            }
        } else if a.listener@ == b.listener@ && b.listener@ == c.listener@ {
            if a.started_at_unix_ms == b.started_at_unix_ms && b.started_at_unix_ms == c.started_at_unix_ms {
                text::lemma_lex_transitive(a.request_id@, b.request_id@, c.request_id@);
            }
        }
    }

    fn not_after(&self, other: &Self) -> (r: bool) {
        if !text::str_eq(self.listener.as_str(), other.listener.as_str()) {
            text::not_after(self.listener.as_str(), other.listener.as_str())
        } else if self.started_at_unix_ms != other.started_at_unix_ms {
            self.started_at_unix_ms < other.started_at_unix_ms
        } else {
            text::not_after(self.request_id.as_str(), other.request_id.as_str())
        }
    }
}

/// Final connection details handed to accounting when a connection ends.
#[derive(Debug)]
pub struct ClosedConnection {
    pub listener: String,
    pub remote_address: String,
    pub started_at_unix_ms: u128,
    pub uploaded_bytes: u64,
    pub downloaded_bytes: u64,
    pub sni: String,
    pub target_host: String,
    pub target_endpoint: String,
    pub status: ConnStatus,
    pub listener_type: Option<ListenerType>,
}

/// How many connections there were and are, on a listener and altogether.
#[derive(Debug, Clone, Copy, PartialEq, Eq, Structural)]
pub struct CountChange {
    pub listener_was: usize,
    pub listener_now: usize,
    pub global_was: usize,
    pub global_now: usize,
}

pub struct ActiveTracker {
    pub active: Table<RequestId, ActiveConnection>,
}

/// The connections of a listener.
pub open spec fn count_for(entries: Seq<(RequestId, ActiveConnection)>, listener: Seq<char>) -> nat
    decreases entries.len(),
{
    if entries.len() == 0 {
        0
    } else {
        count_for(entries.drop_last(), listener) + (if entries.last().1.listener@ == listener {
            1nat
        } else {
            0nat
        })
    }
}

/// A connection that was just opened: nothing is known of it but where it came
/// from, and it counts as failed until it is connected.
pub open spec fn is_fresh(c: ActiveConnection, listener: Seq<char>, addr: Seq<char>, now: u64, unix_ms: u128) -> bool {
    &&& c.listener@ == listener
    &&& c.remote_address@ == addr
    &&& c.started_at == now
    &&& c.started_at_unix_ms == unix_ms
    &&& c.uploaded_bytes == 0
    &&& c.downloaded_bytes == 0
    &&& c.sni@ == ""@
    &&& c.target_host@ == ""@
    &&& c.target_endpoint@ == ""@
    &&& c.status == ConnStatus::ConnectFailed
    &&& c.listener_type is None
}

pub open spec fn saturated(n: int) -> int {
    if n > u64::MAX {
        u64::MAX as int
    } else {
        n
    }
}

/// Whether `c` is `d` apart from the fields that a setter may change.
pub open spec fn same_origin(c: ActiveConnection, d: ActiveConnection) -> bool {
    &&& c.listener == d.listener
    &&& c.remote_address == d.remote_address
    &&& c.started_at == d.started_at
    &&& c.started_at_unix_ms == d.started_at_unix_ms
}

/// Whether only the connection of `id` differs between two states.
pub open spec fn only_changes(
    before: Map<(usize, Seq<char>), ActiveConnection>,
    after: Map<(usize, Seq<char>), ActiveConnection>,
    id: (usize, Seq<char>),
) -> bool {
    &&& after.dom() == before.dom()
    &&& forall|k: (usize, Seq<char>)| #[trigger] before.dom().contains(k) && k != id ==> after[k] == before[k]
    &&& before.dom().contains(id) ==> same_origin(after[id], before[id])
}

fn count_listener(entries: &Vec<(RequestId, ActiveConnection)>, listener: &str) -> (r: usize)
    ensures
        r == count_for(entries@, listener@),
{
    let mut n: usize = 0;
    let mut i: usize = 0;
    while i < entries.len()
        invariant
            i <= entries@.len(),
            n <= i,
            n == count_for(entries@.take(i as int), listener@),
        decreases entries@.len() - i,
    {
        assert(entries@.take(i + 1).drop_last() =~= entries@.take(i as int));
        if text::str_eq(entries[i].1.listener.as_str(), listener) {
            n = n + 1;
        }
        i = i + 1;
    }
    assert(entries@.take(i as int) =~= entries@);
    n
}

/// Whether `row` is the list row of an entry.
pub open spec fn row_is(row: ActiveConnectionSerde, entry: (RequestId, ActiveConnection), now: u64) -> bool {
    &&& row.request_id@ == entry.0.shown()
    &&& row.listener@ == entry.1.listener@
    &&& row.remote_address@ == entry.1.remote_address@
    &&& row.host@ == entry.1.sni@
    &&& row.uptime_ms == if now >= entry.1.started_at {
        now - entry.1.started_at
    } else {
        0
    }
    &&& row.started_at_unix_ms == entry.1.started_at_unix_ms
    &&& row.uploaded_bytes == entry.1.uploaded_bytes
    &&& row.downloaded_bytes == entry.1.downloaded_bytes
}

pub open spec fn rows_are(
    rows: Seq<ActiveConnectionSerde>,
    entries: Seq<(RequestId, ActiveConnection)>,
    now: u64,
) -> bool {
    &&& rows.len() == entries.len()
    &&& forall|i: int| 0 <= i < rows.len() ==> row_is(#[trigger] rows[i], entries[i], now)
}

/// Whether `c` is what was known of `a` when it was closed.
pub open spec fn closed_is(c: ClosedConnection, a: ActiveConnection) -> bool {
    &&& c.listener@ == a.listener@
    &&& c.remote_address@ == a.remote_address@
    &&& c.started_at_unix_ms == a.started_at_unix_ms
    &&& c.uploaded_bytes == a.uploaded_bytes
    &&& c.downloaded_bytes == a.downloaded_bytes
    &&& c.sni@ == a.sni@
    &&& c.target_host@ == a.target_host@
    &&& c.target_endpoint@ == a.target_endpoint@
    &&& c.status == a.status
    &&& c.listener_type == a.listener_type
}

proof fn lemma_count_without(entries: Seq<(RequestId, ActiveConnection)>, i: int, listener: Seq<char>)
    requires
        0 <= i < entries.len(),
    ensures
        count_for(entries, listener) == count_for(entries.remove(i), listener) + (if entries[i].1.listener@ == listener {
            1nat
        } else {
            0nat
        }),
    decreases entries.len(),
{
    if i == entries.len() - 1 {
        assert(entries.remove(i) =~= entries.drop_last());
    } else {
        lemma_count_without(entries.drop_last(), i, listener);
        assert(entries.remove(i).drop_last() =~= entries.drop_last().remove(i));
        assert(entries.remove(i).last() == entries.last());
    }
}

impl ActiveTracker {
    pub open spec fn wf(self) -> bool {
        self.active.wf()
    }

    pub open spec fn view(self) -> Map<(usize, Seq<char>), ActiveConnection> {
        self.active@
    }

    pub fn new() -> (r: ActiveTracker)
        ensures
            r.wf(),
            r@ == Map::<(usize, Seq<char>), ActiveConnection>::empty(),
    {
        ActiveTracker { active: Table::new() }
    }
}

/// Forgets every connection.
pub fn reset(tracker: &mut ActiveTracker)
    ensures
        final(tracker).wf(),
        final(tracker)@ == Map::<(usize, Seq<char>), ActiveConnection>::empty(),
{
    tracker.active.clear();
}

/// Registers a freshly accepted connection and yields how the counts changed.
pub fn put(
    tracker: &mut ActiveTracker,
    request_id: &RequestId,
    listener: &str,
    addr: &str,
    now: u64,
    unix_ms: u128,
) -> (r: CountChange)
    requires
        old(tracker).wf(),
    ensures
        final(tracker).wf(),
        final(tracker)@.dom() == old(tracker)@.dom().insert(Key::id(request_id)),
        is_fresh(final(tracker)@[Key::id(request_id)], listener@, addr@, now, unix_ms),
        forall|k: (usize, Seq<char>)| #[trigger]
            old(tracker)@.dom().contains(k) && k != Key::id(request_id) ==> final(tracker)@[k] == old(tracker)@[k],
        r.global_was == old(tracker)@.dom().len(),
        r.global_now == final(tracker)@.dom().len(),
        r.listener_was == count_for(old(tracker).active.entries@, listener@),
        r.listener_now == count_for(final(tracker).active.entries@, listener@),
        !old(tracker)@.dom().contains(Key::id(request_id)) ==> r.listener_now == r.listener_was + 1 && r.global_now
            == r.global_was + 1,
{
    let global_was = tracker.active.len();
    let listener_was = count_listener(&tracker.active.entries, listener);
    let ghost before = tracker.active.entries@;
    let ghost m0 = tracker@;
    let fresh = ActiveConnection {
        listener: text::owned(listener),
        remote_address: text::owned(addr),
        started_at: now,
        started_at_unix_ms: unix_ms,
        uploaded_bytes: 0,
        downloaded_bytes: 0,
        sni: text::owned(""),
        target_host: text::owned(""),
        target_endpoint: text::owned(""),
        status: ConnStatus::ConnectFailed,
        listener_type: None,
    };
    tracker.active.insert(request_id.copy(), fresh);
    proof {
        assert(tracker@ == m0.insert(Key::id(request_id), fresh));
        assert(tracker@.dom() =~= m0.dom().insert(Key::id(request_id)));
        if !m0.dom().contains(Key::id(request_id)) {
            let s = tracker.active.entries@;
            assert(s.drop_last() =~= before);
            table::lemma_map_of(s);
            table::lemma_map_of(before);
        }
    }
    let global_now = tracker.active.len();
    let listener_now = count_listener(&tracker.active.entries, listener);
    CountChange { listener_was, listener_now, global_was, global_now }
}

/// Counts bytes sent upstream; more than fit are not counted.
pub fn add_uploaded(tracker: &mut ActiveTracker, request_id: &RequestId, count: u64)
    requires
        old(tracker).wf(),
    ensures
        final(tracker).wf(),
        only_changes(old(tracker)@, final(tracker)@, Key::id(request_id)),
        old(tracker)@.dom().contains(Key::id(request_id)) ==> final(tracker)@[Key::id(request_id)] == (
        ActiveConnection {
            uploaded_bytes: saturated(old(tracker)@[Key::id(request_id)].uploaded_bytes + count) as u64,
            ..old(tracker)@[Key::id(request_id)]
        }),
{
    let ghost m0 = tracker@;
    if let Some(i) = tracker.active.position(request_id) {
        let mut c = take_connection(&tracker.active.entries[i].1);
        c.uploaded_bytes = c.uploaded_bytes.saturating_add(count);
        tracker.active.put_at(i, c);
        assert(tracker@.dom() =~= m0.dom());
    }
}

/// Counts bytes received from upstream; more than fit are not counted.
pub fn add_downloaded(tracker: &mut ActiveTracker, request_id: &RequestId, count: u64)
    requires
        old(tracker).wf(),
    ensures
        final(tracker).wf(),
        only_changes(old(tracker)@, final(tracker)@, Key::id(request_id)),
        old(tracker)@.dom().contains(Key::id(request_id)) ==> final(tracker)@[Key::id(request_id)] == (
        ActiveConnection {
            downloaded_bytes: saturated(old(tracker)@[Key::id(request_id)].downloaded_bytes + count) as u64,
            ..old(tracker)@[Key::id(request_id)]
        }),
{
    let ghost m0 = tracker@;
    if let Some(i) = tracker.active.position(request_id) {
        let mut c = take_connection(&tracker.active.entries[i].1);
        c.downloaded_bytes = c.downloaded_bytes.saturating_add(count);
        tracker.active.put_at(i, c);
        assert(tracker@.dom() =~= m0.dom());
    }
}

/// A copy of a connection's record.
fn take_connection(c: &ActiveConnection) -> (r: ActiveConnection)
    ensures
        r == *c,
{
    ActiveConnection {
        listener: c.listener.clone(),
        remote_address: c.remote_address.clone(),
        started_at: c.started_at,
        started_at_unix_ms: c.started_at_unix_ms,
        uploaded_bytes: c.uploaded_bytes,
        downloaded_bytes: c.downloaded_bytes,
        sni: c.sni.clone(),
        target_host: c.target_host.clone(),
        target_endpoint: c.target_endpoint.clone(),
        status: c.status,
        listener_type: c.listener_type,
    }
}

/// Records the requested host. Yields the connection's listener, whose live
/// view shows it; an unknown connection changes nothing.
pub fn set_sni(tracker: &mut ActiveTracker, request_id: &RequestId, sni: &str) -> (r: Option<String>)
    requires
        old(tracker).wf(),
    ensures
        final(tracker).wf(),
        only_changes(old(tracker)@, final(tracker)@, Key::id(request_id)),
        r is Some <==> old(tracker)@.dom().contains(Key::id(request_id)),
        r is Some ==> r->0@ == old(tracker)@[Key::id(request_id)].listener@ && ({
            let c = final(tracker)@[Key::id(request_id)];
            c.sni@ == sni@ && c == (ActiveConnection { sni: c.sni, ..old(tracker)@[Key::id(request_id)] })
        }),
{
    let ghost m0 = tracker@;
    match tracker.active.position(request_id) {
        Some(i) => {
            let mut c = take_connection(&tracker.active.entries[i].1);
            let listener = c.listener.clone();
            c.sni = text::owned(sni);
            tracker.active.put_at(i, c);
            assert(tracker@.dom() =~= m0.dom());
            Some(listener)
        },
        None => None,
    }
}

pub fn set_target(tracker: &mut ActiveTracker, request_id: &RequestId, target_host: &str, target_endpoint: &str)
    requires
        old(tracker).wf(),
    ensures
        final(tracker).wf(),
        only_changes(old(tracker)@, final(tracker)@, Key::id(request_id)),
        old(tracker)@.dom().contains(Key::id(request_id)) ==> ({
            let c = final(tracker)@[Key::id(request_id)];
            c.target_host@ == target_host@ && c.target_endpoint@ == target_endpoint@ && c == (ActiveConnection {
                target_host: c.target_host,
                target_endpoint: c.target_endpoint,
                ..old(tracker)@[Key::id(request_id)]
            })
        }),
{
    let ghost m0 = tracker@;
    if let Some(i) = tracker.active.position(request_id) {
        let mut c = take_connection(&tracker.active.entries[i].1);
        c.target_host = text::owned(target_host);
        c.target_endpoint = text::owned(target_endpoint);
        tracker.active.put_at(i, c);
        assert(tracker@.dom() =~= m0.dom());
    }
}

pub fn set_status(tracker: &mut ActiveTracker, request_id: &RequestId, status: ConnStatus)
    requires
        old(tracker).wf(),
    ensures
        final(tracker).wf(),
        only_changes(old(tracker)@, final(tracker)@, Key::id(request_id)),
        old(tracker)@.dom().contains(Key::id(request_id)) ==> final(tracker)@[Key::id(request_id)] == (
        ActiveConnection { status, ..old(tracker)@[Key::id(request_id)] }),
{
    let ghost m0 = tracker@;
    if let Some(i) = tracker.active.position(request_id) {
        let mut c = take_connection(&tracker.active.entries[i].1);
        c.status = status;
        tracker.active.put_at(i, c);
        assert(tracker@.dom() =~= m0.dom());
    }
}

/// Records the accounting listener type so the connection guard can emit an
/// accurate CDR on any exit.
pub fn set_listener_type(tracker: &mut ActiveTracker, request_id: &RequestId, listener_type: ListenerType)
    requires
        old(tracker).wf(),
    ensures
        final(tracker).wf(),
        only_changes(old(tracker)@, final(tracker)@, Key::id(request_id)),
        old(tracker)@.dom().contains(Key::id(request_id)) ==> final(tracker)@[Key::id(request_id)] == (
        ActiveConnection { listener_type: Some(listener_type), ..old(tracker)@[Key::id(request_id)] }),
{
    let ghost m0 = tracker@;
    if let Some(i) = tracker.active.position(request_id) {
        let mut c = take_connection(&tracker.active.entries[i].1);
        c.listener_type = Some(listener_type);
        tracker.active.put_at(i, c);
        assert(tracker@.dom() =~= m0.dom());
    }
}

/// Forgets a connection and yields what was known of it, and how the counts
/// changed. An unknown connection changes nothing.
pub fn remove(tracker: &mut ActiveTracker, request_id: &RequestId) -> (r: Option<(ClosedConnection, CountChange)>)
    requires
        old(tracker).wf(),
    ensures
        final(tracker).wf(),
        final(tracker)@ == old(tracker)@.remove(Key::id(request_id)),
        r is Some <==> old(tracker)@.dom().contains(Key::id(request_id)),
        r matches Some((closed, change)) ==> {
            &&& closed_is(closed, old(tracker)@[Key::id(request_id)])
            &&& change.global_was == old(tracker)@.dom().len()
            &&& change.global_now == change.global_was - 1
            &&& change.listener_was == count_for(old(tracker).active.entries@, closed.listener@)
            &&& change.listener_now == count_for(final(tracker).active.entries@, closed.listener@)
            &&& change.listener_now == change.listener_was - 1
        },
{
    let global_was = tracker.active.len();
    let ghost m0 = tracker@;
    let ghost before = tracker.active.entries@;
    let listener = match tracker.active.get(request_id) {
        Some(c) => c.listener.clone(),
        None => {
            assert(tracker@ =~= m0.remove(Key::id(request_id)));
            return None;
        },
    };
    let listener_was = count_listener(&tracker.active.entries, listener.as_str());
    match tracker.active.remove(request_id) {
        Some(c) => {
            proof {
                let i = choose|i: int|
                    0 <= i < before.len() && Key::id(&(#[trigger] before[i]).0) == Key::id(request_id)
                        && tracker.active.entries@ == before.remove(i);
                table::lemma_map_of(before);
                assert(before[i].1 == c);
                lemma_count_without(before, i, listener@);
                table::lemma_map_of(tracker.active.entries@);
            }
            let global_now = tracker.active.len();
            let listener_now = count_listener(&tracker.active.entries, listener.as_str());
            Some(
                (
                    ClosedConnection {
                        listener: c.listener,
                        remote_address: c.remote_address,
                        started_at_unix_ms: c.started_at_unix_ms,
                        uploaded_bytes: c.uploaded_bytes,
                        downloaded_bytes: c.downloaded_bytes,
                        sni: c.sni,
                        target_host: c.target_host,
                        target_endpoint: c.target_endpoint,
                        status: c.status,
                        listener_type: c.listener_type,
                    },
                    CountChange { listener_was, listener_now, global_was, global_now },
                ),
            )
        },
        None => None,
    }
}

/// The open connections, by listener, then by start, then by id.
pub fn get_active_list(tracker: &ActiveTracker, now: u64) -> (r: Vec<ActiveConnectionSerde>)
    ensures
        exists|rows: Seq<ActiveConnectionSerde>| #[trigger]
            rows_are(rows, tracker.active.entries@, now) && r@ == order::sorted(rows),
{
    let mut rows: Vec<ActiveConnectionSerde> = Vec::new();
    let mut i: usize = 0;
    while i < tracker.active.entries.len()
        invariant
            i <= tracker.active.entries@.len(),
            rows@.len() == i,
            forall|k: int| 0 <= k < i ==> row_is(#[trigger] rows@[k], tracker.active.entries@[k], now),
        decreases tracker.active.entries@.len() - i,
    {
        let c = &tracker.active.entries[i].1;
        rows.push(
            ActiveConnectionSerde {
                request_id: tracker.active.entries[i].0.to_text(),
                listener: c.listener.clone(),
                remote_address: c.remote_address.clone(),
                host: c.sni.clone(),
                uptime_ms: now.saturating_sub(c.started_at) as u128,
                started_at_unix_ms: c.started_at_unix_ms,
                uploaded_bytes: c.uploaded_bytes,
                downloaded_bytes: c.downloaded_bytes,
            },
        );
        i = i + 1;
    }
    assert(rows_are(rows@, tracker.active.entries@, now));
    order::sort_vec(rows)
}

/// Whatever happens to the other connections, a connection that was opened and
/// closed is gone: a second removal finds nothing.
pub proof fn a_removed_connection_is_gone(before: Map<(usize, Seq<char>), ActiveConnection>, id: (usize, Seq<char>))
    ensures
        !before.remove(id).dom().contains(id),
        before.remove(id).remove(id) == before.remove(id),
{
    assert(before.remove(id).remove(id) =~= before.remove(id));
}

/// The connections of a listener are counted one by one: each of its own
/// counts, and no other does.
pub proof fn connections_are_counted_by_listener(
    entries: Seq<(RequestId, ActiveConnection)>,
    e: (RequestId, ActiveConnection),
    listener: Seq<char>,
)
    ensures
        count_for(Seq::empty(), listener) == 0,
        count_for(entries.push(e), listener) == count_for(entries, listener) + if e.1.listener@ == listener {
            1nat
        } else {
            0nat
        },
        count_for(entries, listener) <= entries.len(),
        count_for(entries, listener) > 0 <==> exists|i: int|
            0 <= i < entries.len() && (#[trigger] entries[i]).1.listener@ == listener,
    decreases entries.len(),
{
    assert(entries.push(e).drop_last() =~= entries);
    if entries.len() > 0 {
        let t = entries.drop_last();
        connections_are_counted_by_listener(t, e, listener);
        assert(entries[entries.len() - 1] == entries.last());
        if exists|i: int| 0 <= i < t.len() && (#[trigger] t[i]).1.listener@ == listener {
            let i = choose|i: int| 0 <= i < t.len() && (#[trigger] t[i]).1.listener@ == listener;
            assert(entries[i] == t[i]);
        }
        if exists|i: int| 0 <= i < entries.len() && (#[trigger] entries[i]).1.listener@ == listener {
            let i = choose|i: int| 0 <= i < entries.len() && (#[trigger] entries[i]).1.listener@ == listener;
            if i < t.len() {
                assert(t[i] == entries[i]);
            }
        }
    }
}

/// Bytes are added up as long as the sum fits.
pub proof fn bytes_are_added_up(a: u64, b: u64)
    ensures
        a + b <= u64::MAX ==> saturated(a + b) == a + b,
        a + b > u64::MAX ==> saturated(a + b) == u64::MAX,
{
}

/// What is learned of a connection while it is open is known when it is closed:
/// where it came from, its host, its upstream and its bytes. Behind it the
/// counts are what they were before.
pub proof fn a_closed_connection_tells_what_was_learned(
    a: &mut ActiveTracker,
    b: &mut ActiveTracker,
    c: &mut ActiveTracker,
    d: &mut ActiveTracker,
    id: RequestId,
    listener: &str,
    addr: &str,
    host: &str,
    target: &str,
    endpoint: &str,
    now: u64,
    unix_ms: u128,
    opened: CountChange,
    shown: Option<String>,
    r: Option<(ClosedConnection, CountChange)>,
)
    requires
        !old(a)@.dom().contains(Key::id(&id)),
        call_ensures(put, (a, &id, listener, addr, now, unix_ms), opened),
        *old(b) == *final(a),
        call_ensures(set_sni, (b, &id, host), shown),
        *old(c) == *final(b),
        call_ensures(set_target, (c, &id, target, endpoint), ()),
        *old(d) == *final(c),
        call_ensures(remove, (d, &id), r),
    ensures
        shown is Some && (shown->0)@ == listener@,
        r is Some,
        ({
            let closed = (r->0).0;
            let change = (r->0).1;
            &&& closed.listener@ == listener@
            &&& closed.remote_address@ == addr@
            &&& closed.started_at_unix_ms == unix_ms
            &&& closed.sni@ == host@
            &&& closed.target_host@ == target@
            &&& closed.target_endpoint@ == endpoint@
            &&& closed.uploaded_bytes == 0 && closed.downloaded_bytes == 0
            &&& closed.status == ConnStatus::ConnectFailed
            &&& opened.global_now == opened.global_was + 1 && opened.listener_now == opened.listener_was + 1
            &&& change.global_now == change.global_was - 1 && change.listener_now == change.listener_was - 1
        }),
        final(d)@ == old(a)@,
{
    let key = Key::id(&id);
    assert(old(b)@.dom().contains(key));
    assert(final(d)@.dom() =~= old(a)@.dom());
    assert(final(d)@ =~= old(a)@);
}

/// Connections are listed by listener, those of one listener by their start.
pub proof fn connections_are_listed_by_listener_and_start(s: Seq<ActiveConnectionSerde>, i: int, j: int)
    requires
        0 <= i < j < s.len(),
    ensures
        ({
            let a = order::sorted(s)[i];
            let b = order::sorted(s)[j];
            &&& text::lex_le(a.listener@, b.listener@)
            &&& a.listener@ == b.listener@ ==> a.started_at_unix_ms <= b.started_at_unix_ms
            &&& a.listener@ == b.listener@ && a.started_at_unix_ms == b.started_at_unix_ms ==> text::lex_le(
                a.request_id@,
                b.request_id@,
            )
        }),
{
    order::sorted_is_an_ordered_permutation(s);
    let a = order::sorted(s)[i];
    let b = order::sorted(s)[j];
    assert(a.ranks_before(b));
    text::lemma_lex_total(a.listener@, a.listener@);
}

} // verus!
