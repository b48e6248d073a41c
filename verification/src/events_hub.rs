//! Events for the control plane: what is published to which topic, and the
//! state that a freshly connected view starts from.
//!
//! The global topic carries coarse aggregates; each listener has a topic of its
//! own with its per-connection events and the periodic authoritative list of
//! its connections.
use vstd::prelude::*;
use crate::active_tracker::{ActiveConnectionSerde, ClosedConnection, CountChange};
use crate::request_id::RequestId;
use crate::table::Table;
use crate::text;

verus! {

pub const GLOBAL_TOPIC: &'static str = "tlsproxy.events.global";

pub const GLOBAL_KEY: &'static str = "__global__";

pub const CONNECTION_COUNT_CHANGED: &'static str = "CONNECTION_COUNT_CHANGED";

pub const CONNECTION_BYTES_TRANSFERRED_CHANGED: &'static str = "CONNECTION_BYTES_TRANSFERRED_CHANGED";

pub const CONNECTION_HOST_CHANGED: &'static str = "CONNECTION_HOST_CHANGED";

pub const LISTENER_TRANSFERRED_CHANGED: &'static str = "LISTENER_TRANSFERRED_CHANGED";

pub const GLOBAL_TRANSFER_CHANGED: &'static str = "GLOBAL_TRANSFER_CHANGED";

pub const LISTENER_CONNECTIONS_SNAPSHOT: &'static str = "LISTENER_CONNECTIONS_SNAPSHOT";

/// The name of a listener's topic.
pub open spec fn topic_of(listener: Seq<char>) -> Seq<char> {
    "tlsproxy.events.listener."@ + listener
}

/// The name of a listener's topic.
pub fn listener_topic(name: &str) -> (r: String)
    ensures
        r@ == topic_of(name@),
{
    let mut out = text::owned("tlsproxy.events.listener.");
    out.push_str(name);
    out
}

/// A connection in an authoritative list.
#[derive(Debug)]
pub struct ConnectionRow {
    pub connection_id: String,
    pub remote_address: String,
    pub host: String,
    pub started_at_unix_ms: u128,
    pub uploaded: u64,
    pub downloaded: u64,
}

/// What an event says.
#[derive(Debug)]
pub enum Event {
    /// How many connections a listener, or all of them, had and has.
    ConnectionCount { key: String, was: usize, now: usize, snapshot: bool },
    /// What a listener transferred altogether.
    ListenerTransferred { key: String, uploaded: u64, downloaded: u64, snapshot: bool },
    /// What all listeners transferred altogether.
    GlobalTransfer { key: String, uploaded: u64, downloaded: u64, snapshot: bool },
    /// What a connection transferred.
    ConnectionBytes { key: String, listener_name: String, connection_id: String, uploaded: u64, downloaded: u64 },
    /// A connection was opened or closed, and how many there are by that.
    ConnectionState {
        key: String,
        was: usize,
        now: usize,
        open: bool,
        listener_name: String,
        connection_id: String,
        remote_address: String,
        started_at_unix_ms: u128,
        /// The host of a connection that was closed.
        closed_host: Option<String>,
        uploaded: u64,
        downloaded: u64,
    },
    /// The host of a connection became known.
    ConnectionHost { key: String, listener_name: String, connection_id: String, host: String },
    /// Every connection of a listener.
    ListenerConnections { listener_name: String, connections: Vec<ConnectionRow> },
}

/// What an event is.
pub enum EventModel {
    ConnectionCount { key: Seq<char>, was: nat, now: nat, snapshot: bool },
    ListenerTransferred { key: Seq<char>, uploaded: u64, downloaded: u64, snapshot: bool },
    GlobalTransfer { key: Seq<char>, uploaded: u64, downloaded: u64, snapshot: bool },
    ConnectionBytes { key: Seq<char>, listener_name: Seq<char>, connection_id: Seq<char>, uploaded: u64, downloaded: u64 },
    ConnectionState {
        key: Seq<char>,
        was: nat,
        now: nat,
        open: bool,
        listener_name: Seq<char>,
        connection_id: Seq<char>,
        remote_address: Seq<char>,
        started_at_unix_ms: u128,
        closed_host: Option<Seq<char>>,
        uploaded: u64,
        downloaded: u64,
    },
    ConnectionHost { key: Seq<char>, listener_name: Seq<char>, connection_id: Seq<char>, host: Seq<char> },
    ListenerConnections { listener_name: Seq<char>, connections: Seq<(Seq<char>, Seq<char>, Seq<char>, u128, u64, u64)> },
}

pub open spec fn row_model(r: ConnectionRow) -> (Seq<char>, Seq<char>, Seq<char>, u128, u64, u64) {
    (r.connection_id@, r.remote_address@, r.host@, r.started_at_unix_ms, r.uploaded, r.downloaded)
}

pub open spec fn row_models(s: Seq<ConnectionRow>) -> Seq<(Seq<char>, Seq<char>, Seq<char>, u128, u64, u64)> {
    s.map_values(|r: ConnectionRow| row_model(r))
}

impl Event {
    pub open spec fn view(self) -> EventModel {
        match self {
            Event::ConnectionCount { key, was, now, snapshot } => EventModel::ConnectionCount {
                key: key@,
                was: was as nat,
                now: now as nat,
                snapshot,
            },
            Event::ListenerTransferred { key, uploaded, downloaded, snapshot } => EventModel::ListenerTransferred {
                key: key@,
                uploaded,
                downloaded,
                snapshot,
            },
            Event::GlobalTransfer { key, uploaded, downloaded, snapshot } => EventModel::GlobalTransfer {
                key: key@,
                uploaded,
                downloaded,
                snapshot,
            },
            Event::ConnectionBytes { key, listener_name, connection_id, uploaded, downloaded } => EventModel::ConnectionBytes {
                key: key@,
                listener_name: listener_name@,
                connection_id: connection_id@,
                uploaded,
                downloaded,
            },
            Event::ConnectionState {
                key,
                was,
                now,
                open,
                listener_name,
                connection_id,
                remote_address,
                started_at_unix_ms,
                closed_host,
                uploaded,
                downloaded,
            } => EventModel::ConnectionState {
                key: key@,
                was: was as nat,
                now: now as nat,
                open,
                listener_name: listener_name@,
                connection_id: connection_id@,
                remote_address: remote_address@,
                started_at_unix_ms,
                closed_host: match closed_host {
                    Some(h) => Some(h@),
                    None => None,
                },
                uploaded,
                downloaded,
            },
            Event::ConnectionHost { key, listener_name, connection_id, host } => EventModel::ConnectionHost {
                key: key@,
                listener_name: listener_name@,
                connection_id: connection_id@,
                host: host@,
            },
            Event::ListenerConnections { listener_name, connections } => EventModel::ListenerConnections {
                listener_name: listener_name@,
                connections: row_models(connections@),
            },
        }
    }

    pub open spec fn type_text(self) -> Seq<char> {
        match self {
            Event::ConnectionCount { .. } => CONNECTION_COUNT_CHANGED@,
            Event::ListenerTransferred { .. } => LISTENER_TRANSFERRED_CHANGED@,
            Event::GlobalTransfer { .. } => GLOBAL_TRANSFER_CHANGED@,
            Event::ConnectionBytes { .. } => CONNECTION_BYTES_TRANSFERRED_CHANGED@,
            Event::ConnectionState { .. } => CONNECTION_COUNT_CHANGED@,
            Event::ConnectionHost { .. } => CONNECTION_HOST_CHANGED@,
            Event::ListenerConnections { .. } => LISTENER_CONNECTIONS_SNAPSHOT@,
        }
    }

    /// The type by which consumers know an event.
    pub fn event_type(&self) -> (r: &'static str)
        ensures
            r@ == self.type_text(),
    {
        match self {
            Event::ConnectionCount { .. } => CONNECTION_COUNT_CHANGED,
            Event::ListenerTransferred { .. } => LISTENER_TRANSFERRED_CHANGED,
            Event::GlobalTransfer { .. } => GLOBAL_TRANSFER_CHANGED,
            Event::ConnectionBytes { .. } => CONNECTION_BYTES_TRANSFERRED_CHANGED,
            Event::ConnectionState { .. } => CONNECTION_COUNT_CHANGED,
            Event::ConnectionHost { .. } => CONNECTION_HOST_CHANGED,
            Event::ListenerConnections { .. } => LISTENER_CONNECTIONS_SNAPSHOT,
        }
    }

    /// The key that an event carries; nothing for one without.
    pub open spec fn key_text(self) -> Seq<char> {
        match self {
            Event::ConnectionCount { key, .. } => key@,
            Event::ListenerTransferred { key, .. } => key@,
            Event::GlobalTransfer { key, .. } => key@,
            Event::ConnectionBytes { key, .. } => key@,
            Event::ConnectionState { key, .. } => key@,
            Event::ConnectionHost { key, .. } => key@,
            _ => ""@,
        }
    }

    pub fn key(&self) -> (r: &str)
        ensures
            r@ == self.key_text(),
    {
        match self {
            Event::ConnectionCount { key, .. } => key.as_str(),
            Event::ListenerTransferred { key, .. } => key.as_str(),
            Event::GlobalTransfer { key, .. } => key.as_str(),
            Event::ConnectionBytes { key, .. } => key.as_str(),
            Event::ConnectionState { key, .. } => key.as_str(),
            Event::ConnectionHost { key, .. } => key.as_str(),
            _ => "",
        }
    }

    /// The listener that an event names, if it does.
    pub open spec fn listener_text(self) -> Option<Seq<char>> {
        match self {
            Event::ConnectionBytes { listener_name, .. } => Some(listener_name@),
            Event::ConnectionState { listener_name, .. } => Some(listener_name@),
            Event::ConnectionHost { listener_name, .. } => Some(listener_name@),
            Event::ListenerConnections { listener_name, .. } => Some(listener_name@),
            _ => None,
        }
    }

    pub fn listener_name(&self) -> (r: Option<&str>)
        ensures
            match self.listener_text() {
                Some(n) => r is Some && r->0@ == n,
                None => r is None,
            },
    {
        match self {
            Event::ConnectionBytes { listener_name, .. } => Some(listener_name.as_str()),
            Event::ConnectionState { listener_name, .. } => Some(listener_name.as_str()),
            Event::ConnectionHost { listener_name, .. } => Some(listener_name.as_str()),
            Event::ListenerConnections { listener_name, .. } => Some(listener_name.as_str()),
            _ => None,
        }
    }
}

pub open spec fn models(s: Seq<Event>) -> Seq<EventModel> {
    s.map_values(|e: Event| e@)
}

/// Where an event is published.
#[derive(Debug)]
pub enum Topic {
    Global,
    Listener(String),
    /// The global topic and that of a listener.
    Both(String),
}

pub enum TopicModel {
    Global,
    Listener(Seq<char>),
    Both(Seq<char>),
}

impl Topic {
    pub open spec fn view(self) -> TopicModel {
        match self {
            Topic::Global => TopicModel::Global,
            Topic::Listener(n) => TopicModel::Listener(n@),
            Topic::Both(n) => TopicModel::Both(n@),
        }
    }
}

/// The names of the topics that an event is sent to, in order.
pub open spec fn topic_names(t: TopicModel) -> Seq<Seq<char>> {
    match t {
        TopicModel::Global => seq![GLOBAL_TOPIC@],
        TopicModel::Listener(n) => seq![topic_of(n)],
        TopicModel::Both(n) => seq![GLOBAL_TOPIC@, topic_of(n)],
    }
}

impl Topic {
    /// The names of the topics that an event is sent to.
    pub fn names(&self) -> (r: Vec<String>)
        ensures
            text::views(r@) == topic_names(self@),
    {
        let mut out: Vec<String> = Vec::new();
        match self {
            Topic::Global => out.push(text::owned(GLOBAL_TOPIC)),
            Topic::Listener(n) => out.push(listener_topic(n.as_str())),
            Topic::Both(n) => {
                out.push(text::owned(GLOBAL_TOPIC));
                out.push(listener_topic(n.as_str()));
            },
        }
        assert(text::views(out@) =~= topic_names(self@));
        out
    }
}

/// No two listeners share a topic, and none has the global one.
pub proof fn topics_are_apart(a: Seq<char>, b: Seq<char>)
    ensures
        topic_of(a) == topic_of(b) ==> a == b,
        topic_of(a) != GLOBAL_TOPIC@,
{
    reveal_strlit("tlsproxy.events.listener.");
    reveal_strlit("tlsproxy.events.global");
    let p = "tlsproxy.events.listener."@;
    if topic_of(a) == topic_of(b) {
        assert(topic_of(a).skip(p.len() as int) =~= a);
        assert(topic_of(b).skip(p.len() as int) =~= b);
    }
    assert(topic_of(a)[16] == 'l' && GLOBAL_TOPIC@[16] == 'g');
}

/// Cumulative per-listener transfer counters that survive listener object
/// lifetimes.
#[derive(Debug, Clone, Copy, PartialEq, Eq, Structural)]
pub struct TransferTotals {
    pub uploaded: u64,
    pub downloaded: u64,
}

impl Default for TransferTotals {
    fn default() -> (r: TransferTotals)
        ensures
            r == (TransferTotals { uploaded: 0, downloaded: 0 }),
    {
        TransferTotals { uploaded: 0, downloaded: 0 }
    }
}

/// A counter after so many more; it starts over behind the largest number.
pub open spec fn wrapped(a: u64, b: u64) -> u64 {
    if a + b > u64::MAX {
        (a + b - u64::MAX - 1) as u64
    } else {
        (a + b) as u64
    }
}

impl TransferTotals {
    pub fn add_uploaded(&mut self, count: u64)
        ensures
            *final(self) == (TransferTotals { uploaded: wrapped(old(self).uploaded, count), ..*old(self) }),
    {
        self.uploaded = self.uploaded.wrapping_add(count);
    }

    pub fn add_downloaded(&mut self, count: u64)
        ensures
            *final(self) == (TransferTotals { downloaded: wrapped(old(self).downloaded, count), ..*old(self) }),
    {
        self.downloaded = self.downloaded.wrapping_add(count);
    }
}

/// The totals of a listener: zero for one that never transferred anything.
pub open spec fn totals_of(m: Map<Seq<char>, TransferTotals>, listener: Seq<char>) -> TransferTotals {
    if m.dom().contains(listener) {
        m[listener]
    } else {
        TransferTotals { uploaded: 0, downloaded: 0 }
    }
}

/// The totals of a listener, which has some from now on.
pub fn transfer_totals(totals: &mut Table<String, TransferTotals>, listener: &str) -> (r: TransferTotals)
    requires
        old(totals).wf(),
    ensures
        final(totals).wf(),
        r == totals_of(old(totals)@, listener@),
        final(totals)@ == old(totals)@.insert(listener@, r),
{
    let key = text::owned(listener);
    let found = match totals.get(&key) {
        Some(t) => *t,
        None => TransferTotals { uploaded: 0, downloaded: 0 },
    };
    totals.insert(key, found);
    found
}

/// The totals of a listener once it transferred more.
pub open spec fn increased(t: TransferTotals, uploaded: u64, downloaded: u64) -> TransferTotals {
    TransferTotals { uploaded: wrapped(t.uploaded, uploaded), downloaded: wrapped(t.downloaded, downloaded) }
}

/// Counts what a listener transferred.
pub fn count_transfer(totals: &mut Table<String, TransferTotals>, listener: &str, uploaded: u64, downloaded: u64)
    requires
        old(totals).wf(),
    ensures
        final(totals).wf(),
        final(totals)@ == old(totals)@.insert(
            listener@,
            increased(totals_of(old(totals)@, listener@), uploaded, downloaded),
        ),
{
    let mut found = transfer_totals(totals, listener);
    found.add_uploaded(uploaded);
    found.add_downloaded(downloaded);
    totals.insert(text::owned(listener), found);
    assert(totals@ =~= old(totals)@.insert(listener@, found));
}

/// What was counted for a listener shows in every later look-up of it, and of
/// no other, until more is counted; a listener that nothing was counted for
/// has zero.
pub proof fn transfers_are_counted_by_listener(
    m: Map<Seq<char>, TransferTotals>,
    listener: Seq<char>,
    other: Seq<char>,
    uploaded: u64,
    downloaded: u64,
)
    ensures
        ({
            let after = m.insert(listener, increased(totals_of(m, listener), uploaded, downloaded));
            let looked_up = after.insert(other, totals_of(after, other));
            &&& totals_of(after, listener) == increased(totals_of(m, listener), uploaded, downloaded)
            &&& totals_of(looked_up, listener) == totals_of(after, listener)
            &&& other != listener ==> totals_of(after, other) == totals_of(m, other)
            &&& !m.dom().contains(other) && other != listener ==> totals_of(after, other) == (TransferTotals {
                uploaded: 0,
                downloaded: 0,
            })
        }),
{
}

/// How many connections a listener has.
pub open spec fn connection_count(s: Seq<ActiveConnectionSerde>, listener: Seq<char>) -> nat
    decreases s.len(),
{
    if s.len() == 0 {
        0
    } else {
        connection_count(s.drop_last(), listener) + (if s.last().listener@ == listener {
            1nat
        } else {
            0nat
        })
    }
}

fn count_connections(s: &Vec<ActiveConnectionSerde>, listener: &str) -> (r: usize)
    ensures
        r == connection_count(s@, listener@),
        r <= s@.len(),
{
    let mut count: usize = 0;
    let mut i: usize = 0;
    while i < s.len()
        invariant
            i <= s@.len(),
            count <= i,
            count == connection_count(s@.take(i as int), listener@),
        decreases s@.len() - i,
    {
        assert(s@.take(i + 1).drop_last() =~= s@.take(i as int));
        if text::str_eq(s[i].listener.as_str(), listener) {
            count = count + 1;
        }
        i = i + 1;
    }
    assert(s@.take(i as int) =~= s@);
    count
}

/// A connection as an authoritative list shows it.
pub open spec fn shown(c: ActiveConnectionSerde) -> (Seq<char>, Seq<char>, Seq<char>, u128, u64, u64) {
    (c.request_id@, c.remote_address@, c.host@, c.started_at_unix_ms, c.uploaded_bytes, c.downloaded_bytes)
}

/// The connections of a listener, in order.
pub open spec fn listener_rows(s: Seq<ActiveConnectionSerde>, listener: Seq<char>) -> Seq<
    (Seq<char>, Seq<char>, Seq<char>, u128, u64, u64),
>
    decreases s.len(),
{
    if s.len() == 0 {
        seq![]
    } else if s.last().listener@ == listener {
        listener_rows(s.drop_last(), listener).push(shown(s.last()))
    } else {
        listener_rows(s.drop_last(), listener)
    }
}

/// The authoritative list of a listener's connections.
pub fn listener_connections_event(listener: &str, connections: &Vec<ActiveConnectionSerde>) -> (r: Event)
    ensures
        r@ == (EventModel::ListenerConnections {
            listener_name: listener@,
            connections: listener_rows(connections@, listener@),
        }),
{
    let mut rows: Vec<ConnectionRow> = Vec::new();
    assert(row_models(rows@) =~= seq![]);
    let mut i: usize = 0;
    while i < connections.len()
        invariant
            i <= connections@.len(),
            row_models(rows@) == listener_rows(connections@.take(i as int), listener@),
        decreases connections@.len() - i,
    {
        assert(connections@.take(i + 1).drop_last() =~= connections@.take(i as int));
        let c = &connections[i];
        if text::str_eq(c.listener.as_str(), listener) {
            let ghost r0 = row_models(rows@);
            let row = ConnectionRow {
                connection_id: c.request_id.clone(),
                remote_address: c.remote_address.clone(),
                host: c.host.clone(),
                started_at_unix_ms: c.started_at_unix_ms,
                uploaded: c.uploaded_bytes,
                downloaded: c.downloaded_bytes,
            };
            rows.push(row);
            assert(row_models(rows@) =~= r0.push(shown(*c)));
        }
        i = i + 1;
    }
    assert(connections@.take(i as int) =~= connections@);
    Event::ListenerConnections { listener_name: text::owned(listener), connections: rows }
}

/// A sum that stays at the largest number.
pub open spec fn capped(a: u64, b: u64) -> u64 {
    if a + b > u64::MAX {
        u64::MAX
    } else {
        (a + b) as u64
    }
}

/// What the listeners transferred altogether.
pub open spec fn summed(m: Map<Seq<char>, TransferTotals>, names: Seq<Seq<char>>) -> (u64, u64)
    decreases names.len(),
{
    if names.len() == 0 {
        (0, 0)
    } else {
        let (up, down) = summed(m, names.drop_last());
        let t = totals_of(m, names.last());
        (capped(up, t.uploaded), capped(down, t.downloaded))
    }
}

/// The count and the totals of each listener.
pub open spec fn listener_snapshots(
    m: Map<Seq<char>, TransferTotals>,
    connections: Seq<ActiveConnectionSerde>,
    names: Seq<Seq<char>>,
) -> Seq<EventModel>
    decreases names.len(),
{
    if names.len() == 0 {
        seq![]
    } else {
        let n = names.last();
        let count = connection_count(connections, n);
        let t = totals_of(m, n);
        listener_snapshots(m, connections, names.drop_last()) + seq![
            EventModel::ConnectionCount { key: n, was: count, now: count, snapshot: true },
            EventModel::ListenerTransferred {
                key: n,
                uploaded: t.uploaded,
                downloaded: t.downloaded,
                snapshot: true,
            },
        ]
    }
}

/// The initial state of an overview.
pub open spec fn global_snapshot(
    m: Map<Seq<char>, TransferTotals>,
    connections: Seq<ActiveConnectionSerde>,
    names: Seq<Seq<char>>,
) -> Seq<EventModel> {
    let (up, down) = summed(m, names);
    listener_snapshots(m, connections, names) + seq![
        EventModel::ConnectionCount {
            key: GLOBAL_KEY@,
            was: connections.len(),
            now: connections.len(),
            snapshot: true,
        },
        EventModel::GlobalTransfer { key: GLOBAL_KEY@, uploaded: up, downloaded: down, snapshot: true },
    ]
}

fn lookup_totals(totals: &Table<String, TransferTotals>, name: &String) -> (r: TransferTotals)
    requires
        totals.wf(),
    ensures
        r == totals_of(totals@, name@),
{
    match totals.get(name) {
        Some(t) => *t,
        None => TransferTotals { uploaded: 0, downloaded: 0 },
    }
}

/// Initial state for a freshly connected overview: per-listener counts and
/// transfer totals plus the global roll-ups. `names` are the listeners that
/// run.
pub fn snapshot_global(
    totals: &Table<String, TransferTotals>,
    connections: &Vec<ActiveConnectionSerde>,
    names: &Vec<String>,
) -> (r: Vec<Event>)
    requires
        totals.wf(),
    ensures
        models(r@) == global_snapshot(totals@, connections@, text::views(names@)),
{
    let ghost all = text::views(names@);
    let mut out: Vec<Event> = Vec::new();
    let mut up: u64 = 0;
    let mut down: u64 = 0;
    assert(models(out@) =~= seq![]);
    let mut i: usize = 0;
    while i < names.len()
        invariant
            i <= names@.len(),
            all == text::views(names@),
            totals.wf(),
            (up, down) == summed(totals@, all.take(i as int)),
            models(out@) == listener_snapshots(totals@, connections@, all.take(i as int)),
        decreases names@.len() - i,
    {
        assert(all.take(i + 1).drop_last() =~= all.take(i as int));
        assert(all.take(i + 1).last() == names@[i as int]@);
        let ghost o0 = models(out@);
        let count = count_connections(connections, names[i].as_str());
        let t = lookup_totals(totals, &names[i]);
        up = up.saturating_add(t.uploaded);
        down = down.saturating_add(t.downloaded);
        let first = Event::ConnectionCount { key: names[i].clone(), was: count, now: count, snapshot: true };
        let second = Event::ListenerTransferred {
            key: names[i].clone(),
            uploaded: t.uploaded,
            downloaded: t.downloaded,
            snapshot: true,
        };
        out.push(first);
        out.push(second);
        assert(models(out@) =~= o0 + seq![first@, second@]);
        i = i + 1;
    }
    assert(all.take(i as int) =~= all);
    let ghost o1 = models(out@);
    let n = connections.len();
    let third = Event::ConnectionCount { key: text::owned(GLOBAL_KEY), was: n, now: n, snapshot: true };
    let fourth = Event::GlobalTransfer { key: text::owned(GLOBAL_KEY), uploaded: up, downloaded: down, snapshot: true };
    out.push(third);
    out.push(fourth);
    assert(models(out@) =~= o1 + seq![third@, fourth@]);
    out
}

/// Initial state for a freshly connected listener view: the authoritative
/// connection list plus that listener's transfer total.
pub fn snapshot_listener(
    totals: &Table<String, TransferTotals>,
    connections: &Vec<ActiveConnectionSerde>,
    listener: &String,
) -> (r: Vec<Event>)
    requires
        totals.wf(),
    ensures
        models(r@) == seq![
            EventModel::ListenerConnections {
                listener_name: listener@,
                connections: listener_rows(connections@, listener@),
            },
            EventModel::ListenerTransferred {
                key: listener@,
                uploaded: totals_of(totals@, listener@).uploaded,
                downloaded: totals_of(totals@, listener@).downloaded,
                snapshot: true,
            },
        ],
{
    let t = lookup_totals(totals, listener);
    let first = listener_connections_event(listener.as_str(), connections);
    let second = Event::ListenerTransferred {
        key: listener.clone(),
        uploaded: t.uploaded,
        downloaded: t.downloaded,
        snapshot: true,
    };
    let mut out: Vec<Event> = Vec::new();
    out.push(first);
    out.push(second);
    assert(models(out@) =~= seq![first@, second@]);
    out
}

/// An event with the topic that it goes to.
#[derive(Debug)]
pub struct Published {
    pub topic: Topic,
    pub event: Event,
}

/// An aggregate for the overview.
pub fn publish_global(event: Event) -> (r: Published)
    ensures
        r.topic@ == TopicModel::Global,
        r.event == event,
{
    Published { topic: Topic::Global, event }
}

/// A detail for the live view of a listener.
pub fn publish_listener(listener: &str, event: Event) -> (r: Published)
    ensures
        r.topic@ == TopicModel::Listener(listener@),
        r.event == event,
{
    Published { topic: Topic::Listener(text::owned(listener)), event }
}

/// An event that changes an aggregate and a live row at once.
pub fn publish_both(listener: &str, event: Event) -> (r: Published)
    ensures
        r.topic@ == TopicModel::Both(listener@),
        r.event == event,
{
    Published { topic: Topic::Both(text::owned(listener)), event }
}

/// That the number of connections of a listener changed.
pub fn publish_connection_count(listener: &str, was: usize, now: usize) -> (r: Published)
    ensures
        r.topic@ == TopicModel::Global,
        r.event@ == (EventModel::ConnectionCount { key: listener@, was: was as nat, now: now as nat, snapshot: false }),
{
    publish_global(Event::ConnectionCount { key: text::owned(listener), was, now, snapshot: false })
}

/// The key of a connection's events.
pub open spec fn connection_key(listener: Seq<char>, connection_id: Seq<char>) -> Seq<char> {
    listener + ":"@ + connection_id
}

fn connection_key_of(listener: &str, connection_id: &str) -> (r: String)
    ensures
        r@ == connection_key(listener@, connection_id@),
{
    let mut out = text::owned(listener);
    out.push_str(":");
    out.push_str(connection_id);
    out
}

/// What is published when a connection is opened: the new count of its
/// listener for the overview, and the connection itself for both.
pub fn opened_events(
    listener: &str,
    request_id: &RequestId,
    remote_address: &str,
    started_at_unix_ms: u128,
    change: &CountChange,
) -> (r: Vec<Published>)
    ensures
        published(r@) == seq![
            (
                TopicModel::Global,
                EventModel::ConnectionCount {
                    key: listener@,
                    was: change.listener_was as nat,
                    now: change.listener_now as nat,
                    snapshot: false,
                },
            ),
            (
                TopicModel::Both(listener@),
                EventModel::ConnectionState {
                    key: GLOBAL_KEY@,
                    was: change.global_was as nat,
                    now: change.global_now as nat,
                    open: true,
                    listener_name: listener@,
                    connection_id: request_id.shown(),
                    remote_address: remote_address@,
                    started_at_unix_ms,
                    closed_host: None,
                    uploaded: 0,
                    downloaded: 0,
                },
            ),
        ],
{
    let mut out: Vec<Published> = Vec::new();
    out.push(publish_connection_count(listener, change.listener_was, change.listener_now));
    out.push(
        publish_both(
            listener,
            Event::ConnectionState {
                key: text::owned(GLOBAL_KEY),
                was: change.global_was,
                now: change.global_now,
                open: true,
                listener_name: text::owned(listener),
                connection_id: request_id.to_text(),
                remote_address: text::owned(remote_address),
                started_at_unix_ms,
                closed_host: None,
                uploaded: 0,
                downloaded: 0,
            },
        ),
    );
    proof {
        let w = published(out@);
        assert(w[0] == (out@[0].topic@, out@[0].event@));
        assert(w[1] == (out@[1].topic@, out@[1].event@));
    }
    out
}

/// What is published when a connection is closed.
pub fn closed_events(request_id: &RequestId, closed: &ClosedConnection, change: &CountChange) -> (r: Vec<Published>)
    ensures
        published(r@) == seq![
            (
                TopicModel::Global,
                EventModel::ConnectionCount {
                    key: closed.listener@,
                    was: change.listener_was as nat,
                    now: change.listener_now as nat,
                    snapshot: false,
                },
            ),
            (
                TopicModel::Both(closed.listener@),
                EventModel::ConnectionState {
                    key: GLOBAL_KEY@,
                    was: change.global_was as nat,
                    now: change.global_now as nat,
                    open: false,
                    listener_name: closed.listener@,
                    connection_id: request_id.shown(),
                    remote_address: closed.remote_address@,
                    started_at_unix_ms: closed.started_at_unix_ms,
                    closed_host: Some(closed.sni@),
                    uploaded: closed.uploaded_bytes,
                    downloaded: closed.downloaded_bytes,
                },
            ),
        ],
{
    let mut out: Vec<Published> = Vec::new();
    out.push(publish_connection_count(closed.listener.as_str(), change.listener_was, change.listener_now));
    out.push(
        publish_both(
            closed.listener.as_str(),
            Event::ConnectionState {
                key: text::owned(GLOBAL_KEY),
                was: change.global_was,
                now: change.global_now,
                open: false,
                listener_name: closed.listener.clone(),
                connection_id: request_id.to_text(),
                remote_address: closed.remote_address.clone(),
                started_at_unix_ms: closed.started_at_unix_ms,
                closed_host: Some(closed.sni.clone()),
                uploaded: closed.uploaded_bytes,
                downloaded: closed.downloaded_bytes,
            },
        ),
    );
    proof {
        let w = published(out@);
        assert(w[0] == (out@[0].topic@, out@[0].event@));
        assert(w[1] == (out@[1].topic@, out@[1].event@));
    }
    out
}

/// What is published when the host of a connection becomes known, for the live
/// view of its listener alone.
pub fn host_event(listener: &str, request_id: &RequestId, host: &str) -> (r: Published)
    ensures
        r.topic@ == TopicModel::Listener(listener@),
        r.event@ == (EventModel::ConnectionHost {
            key: connection_key(listener@, request_id.shown()),
            listener_name: listener@,
            connection_id: request_id.shown(),
            host: host@,
        }),
{
    let connection_id = request_id.to_text();
    publish_listener(
        listener,
        Event::ConnectionHost {
            key: connection_key_of(listener, connection_id.as_str()),
            listener_name: text::owned(listener),
            connection_id,
            host: text::owned(host),
        },
    )
}

/// The listeners that are known, without one of them twice.
pub open spec fn registered(names: Seq<Seq<char>>, name: Seq<char>) -> Seq<Seq<char>> {
    if names.contains(name) {
        names
    } else {
        names.push(name)
    }
}

/// Makes a listener known; it has transfer totals from now on.
pub fn register_listener(names: &mut Vec<String>, totals: &mut Table<String, TransferTotals>, name: &str)
    requires
        old(totals).wf(),
    ensures
        final(totals).wf(),
        text::views(final(names)@) == registered(text::views(old(names)@), name@),
        final(totals)@ == old(totals)@.insert(name@, totals_of(old(totals)@, name@)),
{
    let ghost before = text::views(names@);
    let mut known = false;
    let mut i: usize = 0;
    while i < names.len()
        invariant
            i <= names@.len(),
            *names == *old(names),
            *totals == *old(totals),
            before == text::views(names@),
            known == before.take(i as int).contains(name@),
        decreases names@.len() - i,
    {
        let ghost taken = before.take(i as int);
        let ghost next = before.take(i + 1);
        let here = text::str_eq(names[i].as_str(), name);
        proof {
            assert(before[i as int] == names@[i as int]@);
            assert(next =~= taken.push(before[i as int]));
            if known {
                let k = choose|k: int| 0 <= k < taken.len() && taken[k] == name@;
                assert(next[k] == name@);
            }
            if here {
                assert(next[i as int] == name@);
            }
            if next.contains(name@) && !here {
                let k = choose|k: int| 0 <= k < next.len() && next[k] == name@;
                assert(taken[k] == name@);
            }
        }
        known = known || here;
        i = i + 1;
    }
    assert(before.take(i as int) =~= before);
    if !known {
        names.push(text::owned(name));
        assert(text::views(names@) =~= before.push(name@));
    }
    let _ = transfer_totals(totals, name);
}

pub open spec fn published(s: Seq<Published>) -> Seq<(TopicModel, EventModel)> {
    s.map_values(|p: Published| (p.topic@, p.event@))
}

/// One event for every connection, to its listener's topic.
pub open spec fn byte_samples(s: Seq<ActiveConnectionSerde>) -> Seq<(TopicModel, EventModel)> {
    s.map_values(
        |c: ActiveConnectionSerde|
            (
                TopicModel::Listener(c.listener@),
                EventModel::ConnectionBytes {
                    key: c.listener@ + ":"@ + c.request_id@,
                    listener_name: c.listener@,
                    connection_id: c.request_id@,
                    uploaded: c.uploaded_bytes,
                    downloaded: c.downloaded_bytes,
                },
            ),
    )
}

/// One count for every listener, to the global topic.
pub open spec fn count_samples(connections: Seq<ActiveConnectionSerde>, names: Seq<Seq<char>>) -> Seq<
    (TopicModel, EventModel),
> {
    names.map_values(
        |n: Seq<char>|
            (
                TopicModel::Global,
                EventModel::ConnectionCount {
                    key: n,
                    was: connection_count(connections, n),
                    now: connection_count(connections, n),
                    snapshot: true,
                },
            ),
    )
}

/// The totals that are sampled: those of listeners that run.
pub open spec fn running(entries: Seq<(String, TransferTotals)>, names: Seq<Seq<char>>) -> Seq<(Seq<char>, TransferTotals)>
    decreases entries.len(),
{
    if entries.len() == 0 {
        seq![]
    } else if names.contains(entries.last().0@) {
        running(entries.drop_last(), names).push((entries.last().0@, entries.last().1))
    } else {
        running(entries.drop_last(), names)
    }
}

pub open spec fn total_samples(s: Seq<(Seq<char>, TransferTotals)>) -> Seq<(TopicModel, EventModel)> {
    s.map_values(
        |e: (Seq<char>, TransferTotals)|
            (
                TopicModel::Both(e.0),
                EventModel::ListenerTransferred {
                    key: e.0,
                    uploaded: e.1.uploaded,
                    downloaded: e.1.downloaded,
                    snapshot: false,
                },
            ),
    )
}

pub open spec fn total_of(s: Seq<(Seq<char>, TransferTotals)>) -> (u64, u64)
    decreases s.len(),
{
    if s.len() == 0 {
        (0, 0)
    } else {
        let (up, down) = total_of(s.drop_last());
        (capped(up, s.last().1.uploaded), capped(down, s.last().1.downloaded))
    }
}

/// What is published every second.
pub open spec fn samples(
    entries: Seq<(String, TransferTotals)>,
    connections: Seq<ActiveConnectionSerde>,
    names: Seq<Seq<char>>,
) -> Seq<(TopicModel, EventModel)> {
    let (up, down) = total_of(running(entries, names));
    byte_samples(connections) + count_samples(connections, names) + seq![
        (
            TopicModel::Global,
            EventModel::ConnectionCount {
                key: GLOBAL_KEY@,
                was: connections.len(),
                now: connections.len(),
                snapshot: true,
            },
        ),
    ] + total_samples(running(entries, names)) + seq![
        (
            TopicModel::Global,
            EventModel::GlobalTransfer { key: GLOBAL_KEY@, uploaded: up, downloaded: down, snapshot: false },
        ),
    ]
}

fn push_byte_samples(out: &mut Vec<Published>, connections: &Vec<ActiveConnectionSerde>)
    ensures
        published(final(out)@) == published(old(out)@) + byte_samples(connections@),
{
    let ghost start = published(out@);
    let ghost want = byte_samples(connections@);
    let mut i: usize = 0;
    assert(published(out@) =~= start + want.take(0));
    while i < connections.len()
        invariant
            i <= connections@.len(),
            want == byte_samples(connections@),
            published(out@) == start + want.take(i as int),
        decreases connections@.len() - i,
    {
        let ghost o0 = published(out@);
        let c = &connections[i];
        let mut key = c.listener.clone();
        key.push_str(":");
        key.push_str(c.request_id.as_str());
        let p = Published {
            topic: Topic::Listener(c.listener.clone()),
            event: Event::ConnectionBytes {
                key,
                listener_name: c.listener.clone(),
                connection_id: c.request_id.clone(),
                uploaded: c.uploaded_bytes,
                downloaded: c.downloaded_bytes,
            },
        };
        out.push(p);
        assert(published(out@) =~= o0.push(want[i as int]));
        assert(start + want.take(i + 1) =~= (start + want.take(i as int)).push(want[i as int]));
        i = i + 1;
    }
    assert(want.take(i as int) =~= want);
}

fn push_count_samples(out: &mut Vec<Published>, connections: &Vec<ActiveConnectionSerde>, names: &Vec<String>)
    ensures
        published(final(out)@) == published(old(out)@) + count_samples(connections@, text::views(names@)),
{
    let ghost start = published(out@);
    let ghost want = count_samples(connections@, text::views(names@));
    let mut i: usize = 0;
    assert(published(out@) =~= start + want.take(0));
    while i < names.len()
        invariant
            i <= names@.len(),
            want == count_samples(connections@, text::views(names@)),
            published(out@) == start + want.take(i as int),
        decreases names@.len() - i,
    {
        let ghost o0 = published(out@);
        let count = count_connections(connections, names[i].as_str());
        let p = Published {
            topic: Topic::Global,
            event: Event::ConnectionCount { key: names[i].clone(), was: count, now: count, snapshot: true },
        };
        out.push(p);
        assert(published(out@) =~= o0.push(want[i as int]));
        assert(start + want.take(i + 1) =~= (start + want.take(i as int)).push(want[i as int]));
        i = i + 1;
    }
    assert(want.take(i as int) =~= want);
}

/// What is published in one second: the bytes of every connection to its
/// listener's topic, the counts to the global one, the totals of the listeners
/// that run to both, and the global roll-ups.
pub fn sample(
    totals: &Table<String, TransferTotals>,
    connections: &Vec<ActiveConnectionSerde>,
    names: &Vec<String>,
) -> (r: Vec<Published>)
    ensures
        published(r@) == samples(totals.entries@, connections@, text::views(names@)),
{
    let ghost all = text::views(names@);
    let ghost entries = totals.entries@;
    let mut out: Vec<Published> = Vec::new();
    assert(published(out@) =~= seq![]);
    push_byte_samples(&mut out, connections);
    push_count_samples(&mut out, connections, names);
    let n = connections.len();
    let global = Published {
        topic: Topic::Global,
        event: Event::ConnectionCount { key: text::owned(GLOBAL_KEY), was: n, now: n, snapshot: true },
    };
    let ghost p0 = published(out@);
    out.push(global);
    let ghost start = published(out@);
    assert(start =~= p0.push((global.topic@, global.event@)));
    assert(p0 =~= byte_samples(connections@) + count_samples(connections@, all));
    let mut up: u64 = 0;
    let mut down: u64 = 0;
    let mut i: usize = 0;
    assert(published(out@) =~= start + total_samples(running(entries.take(0), all)));
    while i < totals.entries.len()
        invariant
            i <= totals.entries@.len(),
            entries == totals.entries@,
            all == text::views(names@),
            (up, down) == total_of(running(entries.take(i as int), all)),
            published(out@) == start + total_samples(running(entries.take(i as int), all)),
        decreases totals.entries@.len() - i,
    {
        assert(entries.take(i + 1).drop_last() =~= entries.take(i as int));
        let name = &totals.entries[i].0;
        if crate::forward::health::holds_name(names, name.as_str()) {
            let t = totals.entries[i].1;
            let ghost before = running(entries.take(i as int), all);
            let ghost o0 = published(out@);
            up = up.saturating_add(t.uploaded);
            down = down.saturating_add(t.downloaded);
            let p = Published {
                topic: Topic::Both(name.clone()),
                event: Event::ListenerTransferred {
                    key: name.clone(),
                    uploaded: t.uploaded,
                    downloaded: t.downloaded,
                    snapshot: false,
                },
            };
            out.push(p);
            proof {
                let after = before.push((name@, t));
                assert(published(out@) =~= o0.push((p.topic@, p.event@)));
                assert(total_samples(after) =~= total_samples(before).push((p.topic@, p.event@)));
                assert(after.drop_last() =~= before);
                assert(start + total_samples(after) =~= (start + total_samples(before)).push((p.topic@, p.event@)));
            }
        }
        i = i + 1;
    }
    assert(entries.take(i as int) =~= entries);
    let last = Published {
        topic: Topic::Global,
        event: Event::GlobalTransfer {
            key: text::owned(GLOBAL_KEY),
            uploaded: up,
            downloaded: down,
            snapshot: false,
        },
    };
    let ghost before = published(out@);
    out.push(last);
    assert(published(out@) =~= before.push((last.topic@, last.event@)));
    assert(published(out@) =~= samples(entries, connections@, all));
    out
}

/// The bytes of a connection are published to its own listener's topic alone.
pub proof fn bytes_go_to_their_own_listener(s: Seq<ActiveConnectionSerde>, i: int)
    requires
        0 <= i < s.len(),
    ensures
        byte_samples(s)[i].0 == TopicModel::Listener(s[i].listener@),
        byte_samples(s).len() == s.len(),
{
}

/// The connections of a listener are counted one by one: each of its own
/// counts, and no other does.
pub proof fn each_connection_counts_for_its_listener(
    s: Seq<ActiveConnectionSerde>,
    c: ActiveConnectionSerde,
    listener: Seq<char>,
)
    ensures
        connection_count(Seq::empty(), listener) == 0,
        c.listener@ == listener ==> connection_count(s.push(c), listener) == connection_count(s, listener) + 1,
        c.listener@ != listener ==> connection_count(s.push(c), listener) == connection_count(s, listener),
        listener_rows(s, listener).len() == connection_count(s, listener),
    decreases s.len(),
{
    assert(s.push(c).drop_last() =~= s);
    if s.len() > 0 {
        each_connection_counts_for_its_listener(s.drop_last(), c, listener);
    }
}

/// The list of a listener shows every connection of it as it stands.
pub proof fn every_connection_is_listed(s: Seq<ActiveConnectionSerde>, listener: Seq<char>, i: int)
    requires
        0 <= i < s.len(),
        s[i].listener@ == listener,
    ensures
        listener_rows(s, listener).contains(
            (
                s[i].request_id@,
                s[i].remote_address@,
                s[i].host@,
                s[i].started_at_unix_ms,
                s[i].uploaded_bytes,
                s[i].downloaded_bytes,
            ),
        ),
    decreases s.len(),
{
    let rows = listener_rows(s, listener);
    if i == s.len() - 1 {
        assert(rows[rows.len() - 1] == shown(s[i]));
    } else {
        let t = s.drop_last();
        assert(t[i] == s[i]);
        every_connection_is_listed(t, listener, i);
        let before = listener_rows(t, listener);
        let k = choose|k: int| 0 <= k < before.len() && before[k] == shown(s[i]);
        assert(rows[k] == shown(s[i]));
    }
}

/// Transfers add up, over as many as are counted.
pub proof fn transfers_add_up(m: Map<Seq<char>, TransferTotals>, names: Seq<Seq<char>>, n: Seq<char>, up: u64, down: u64)
    ensures
        ({
            let t = totals_of(m, n);
            let more = increased(t, up, down);
            &&& t.uploaded + up <= u64::MAX ==> more.uploaded == t.uploaded + up
            &&& t.downloaded + down <= u64::MAX ==> more.downloaded == t.downloaded + down
        }),
        summed(m, Seq::empty()) == (0u64, 0u64),
        ({
            let a = summed(m, names);
            let b = summed(m, names.push(n));
            let t = totals_of(m, n);
            &&& a.0 + t.uploaded <= u64::MAX ==> b.0 == a.0 + t.uploaded
            &&& a.1 + t.downloaded <= u64::MAX ==> b.1 == a.1 + t.downloaded
        }),
{
    assert(names.push(n).drop_last() =~= names);
}

/// The initial state of an overview tells the count and the totals of every
/// listener, in order, and then of all of them.
pub proof fn an_overview_tells_of_every_listener(
    m: Map<Seq<char>, TransferTotals>,
    connections: Seq<ActiveConnectionSerde>,
    names: Seq<Seq<char>>,
    i: int,
)
    requires
        0 <= i < names.len(),
    ensures
        ({
            let s = global_snapshot(m, connections, names);
            let count = connection_count(connections, names[i]);
            &&& s.len() == 2 * names.len() + 2
            &&& s[2 * i] == (EventModel::ConnectionCount { key: names[i], was: count, now: count, snapshot: true })
            &&& s[2 * i + 1] == (EventModel::ListenerTransferred {
                key: names[i],
                uploaded: totals_of(m, names[i]).uploaded,
                downloaded: totals_of(m, names[i]).downloaded,
                snapshot: true,
            })
            &&& s[s.len() - 2] == (EventModel::ConnectionCount {
                key: GLOBAL_KEY@,
                was: connections.len(),
                now: connections.len(),
                snapshot: true,
            })
        }),
{
    lemma_listener_snapshots(m, connections, names, i);
}

proof fn lemma_listener_snapshots(
    m: Map<Seq<char>, TransferTotals>,
    connections: Seq<ActiveConnectionSerde>,
    names: Seq<Seq<char>>,
    i: int,
)
    requires
        0 <= i < names.len(),
    ensures
        ({
            let s = listener_snapshots(m, connections, names);
            let count = connection_count(connections, names[i]);
            &&& s.len() == 2 * names.len()
            &&& s[2 * i] == (EventModel::ConnectionCount { key: names[i], was: count, now: count, snapshot: true })
            &&& s[2 * i + 1] == (EventModel::ListenerTransferred {
                key: names[i],
                uploaded: totals_of(m, names[i]).uploaded,
                downloaded: totals_of(m, names[i]).downloaded,
                snapshot: true,
            })
        }),
    decreases names.len(),
{
    let t = names.drop_last();
    if names.len() == 1 {
        assert(t.len() == 0);
    } else if i < t.len() {
        assert(t[i] == names[i]);
        lemma_listener_snapshots(m, connections, t, i);
    } else {
        lemma_listener_snapshots(m, connections, t, 0);
    }
}

/// A listener that is registered is known from then on, once, and the others
/// stay.
pub proof fn a_registered_listener_is_known(names: Seq<Seq<char>>, name: Seq<char>, other: Seq<char>)
    requires
        names.no_duplicates(),
    ensures
        registered(names, name).contains(name),
        names.contains(other) ==> registered(names, name).contains(other),
        registered(names, name).contains(other) ==> other == name || names.contains(other),
        registered(names, name).no_duplicates(),
{
    let after = registered(names, name);
    if !names.contains(name) {
        assert(after[names.len() as int] == name);
        if names.contains(other) {
            let k = choose|k: int| 0 <= k < names.len() && names[k] == other;
            assert(after[k] == other);
        }
    }
}

/// The totals of every listener that runs are sampled, and of no other.
pub proof fn every_running_listener_is_sampled(entries: Seq<(String, TransferTotals)>, names: Seq<Seq<char>>, i: int)
    ensures
        0 <= i < entries.len() && names.contains(entries[i].0@) ==> running(entries, names).contains(
            (entries[i].0@, entries[i].1),
        ),
        0 <= i < running(entries, names).len() ==> names.contains(running(entries, names)[i].0),
    decreases entries.len(),
{
    if entries.len() > 0 {
        let t = entries.drop_last();
        let a = running(t, names);
        let b = running(entries, names);
        every_running_listener_is_sampled(t, names, i);
        if 0 <= i < t.len() && names.contains(entries[i].0@) {
            assert(t[i] == entries[i]);
            let k = choose|k: int| 0 <= k < a.len() && a[k] == (entries[i].0@, entries[i].1);
            assert(b[k] == a[k]);
        }
        if i == t.len() && names.contains(entries[i].0@) {
            assert(b[b.len() - 1] == (entries[i].0@, entries[i].1));
        }
    }
}

/// Every second the bytes of each connection, the count of each listener and the
/// totals of each listener that runs are published.
pub proof fn a_second_publishes_everything(
    entries: Seq<(String, TransferTotals)>,
    connections: Seq<ActiveConnectionSerde>,
    names: Seq<Seq<char>>,
    i: int,
)
    ensures
        0 <= i < connections.len() ==> samples(entries, connections, names).contains(
            (
                TopicModel::Listener(connections[i].listener@),
                EventModel::ConnectionBytes {
                    key: connection_key(connections[i].listener@, connections[i].request_id@),
                    listener_name: connections[i].listener@,
                    connection_id: connections[i].request_id@,
                    uploaded: connections[i].uploaded_bytes,
                    downloaded: connections[i].downloaded_bytes,
                },
            ),
        ),
        0 <= i < names.len() ==> samples(entries, connections, names).contains(
            (
                TopicModel::Global,
                EventModel::ConnectionCount {
                    key: names[i],
                    was: connection_count(connections, names[i]),
                    now: connection_count(connections, names[i]),
                    snapshot: true,
                },
            ),
        ),
        0 <= i < entries.len() && names.contains(entries[i].0@) ==> samples(entries, connections, names).contains(
            (
                TopicModel::Both(entries[i].0@),
                EventModel::ListenerTransferred {
                    key: entries[i].0@,
                    uploaded: entries[i].1.uploaded,
                    downloaded: entries[i].1.downloaded,
                    snapshot: false,
                },
            ),
        ),
{
    let all = samples(entries, connections, names);
    let run = running(entries, names);
    if 0 <= i < connections.len() {
        assert(all[i] == byte_samples(connections)[i]);
    }
    if 0 <= i < names.len() {
        assert(all[connections.len() + i] == count_samples(connections, names)[i]);
    }
    if 0 <= i < entries.len() && names.contains(entries[i].0@) {
        every_running_listener_is_sampled(entries, names, i);
        let k = choose|k: int| 0 <= k < run.len() && run[k] == (entries[i].0@, entries[i].1);
        assert(all[connections.len() + names.len() + 1 + k] == total_samples(run)[k]);
    }
}

/// The overview and the listener's view are told of every connection that opens
/// and of every one that closes, with the counts from before and after, and at
/// the end with the bytes that it transferred.
pub proof fn openings_and_closings_are_told(
    listener: &str,
    id: RequestId,
    remote: &str,
    started: u128,
    closed: ClosedConnection,
    change: CountChange,
    opening: Vec<Published>,
    closing: Vec<Published>,
)
    requires
        call_ensures(opened_events, (listener, &id, remote, started, &change), opening),
        call_ensures(closed_events, (&id, &closed, &change), closing),
    ensures
        opening@.len() == 2 && closing@.len() == 2,
        opening@[0].topic@ == TopicModel::Global && closing@[0].topic@ == TopicModel::Global,
        opening@[0].event@ == (EventModel::ConnectionCount {
            key: listener@,
            was: change.listener_was as nat,
            now: change.listener_now as nat,
            snapshot: false,
        }),
        opening@[1].topic@ == TopicModel::Both(listener@) && closing@[1].topic@ == TopicModel::Both(closed.listener@),
        opening@[1].event@ matches EventModel::ConnectionState { was, now, open, connection_id, uploaded, .. } && open
            && was == change.global_was && now == change.global_now && connection_id == id.shown() && uploaded == 0,
        closing@[1].event@ matches EventModel::ConnectionState {
            was,
            now,
            open,
            connection_id,
            uploaded,
            downloaded,
            closed_host,
            ..
        } && !open && was == change.global_was && now == change.global_now && connection_id == id.shown() && uploaded
            == closed.uploaded_bytes && downloaded == closed.downloaded_bytes && closed_host == Some(closed.sni@),
{
    let a = published(opening@);
    let b = published(closing@);
    assert(a.len() == 2 && b.len() == 2);
    assert(a[0] == (opening@[0].topic@, opening@[0].event@));
    assert(a[1] == (opening@[1].topic@, opening@[1].event@));
    assert(b[0] == (closing@[0].topic@, closing@[0].event@));
    assert(b[1] == (closing@[1].topic@, closing@[1].event@));
}

/// A listener's view begins with its connections and what it transferred.
pub proof fn a_listeners_view_begins_with_its_state(
    totals: Table<String, TransferTotals>,
    connections: Vec<ActiveConnectionSerde>,
    listener: String,
    r: Vec<Event>,
)
    requires
        totals.wf(),
        call_ensures(snapshot_listener, (&totals, &connections, &listener), r),
    ensures
        r@.len() == 2,
        r@[0]@ matches EventModel::ListenerConnections { listener_name, connections: rows } && listener_name == listener@
            && rows.len() == connection_count(connections@, listener@),
        r@[1]@ matches EventModel::ListenerTransferred { key, uploaded, downloaded, snapshot } && key == listener@
            && uploaded == totals_of(totals@, listener@).uploaded && downloaded == totals_of(
            totals@,
            listener@,
        ).downloaded && snapshot,
{
    let all = models(r@);
    assert(all.len() == 2);
    assert(all[0] == r@[0]@);
    assert(all[1] == r@[1]@);
    if connections@.len() > 0 {
        each_connection_counts_for_its_listener(connections@, connections@[0], listener@);
    }
}

} // verus!
