//! Carrying out the plan of a connection, one step at a time. The library
//! takes the steps that decide; for the others it says what has to be done,
//! waits, and goes on once it is told how that went.
use vstd::prelude::*;
use crate::accounting::ConnStatus;
use crate::active_tracker;
use crate::active_tracker::{ActiveConnection, ActiveTracker};
use crate::bytes;
use crate::config::Listener;
use crate::dataplane::flow;
use crate::dataplane::flow::{Source, Step};
use crate::forward::group::SelectedTarget;
use crate::hello_cache;
use crate::hello_cache::Cache;
use crate::relay;
use crate::relay::SocketAddr;
use crate::request_id::RequestId;
use crate::table::Key;
use crate::text;

verus! {

/// Why a connection is closed.
#[derive(Debug, Clone, Copy, PartialEq, Eq, Structural)]
pub enum Close {
    /// The relay came to its end.
    Ended,
    /// A step failed or took too long.
    Failed,
    /// This proxy sent the same hello recently.
    Looped,
    /// The client named no server.
    NoServerName,
    /// The client named another server than when it was inspected.
    ServerNameChanged,
    /// The access list does not let the host through.
    Denied,
    /// The upstream is this listener.
    SelfConnect,
}

impl Close {
    /// What is reported of a connection to `host` that is closed.
    pub open spec fn text(self, host: Seq<char>) -> Seq<char> {
        match self {
            Close::Ended => "connection ended"@,
            Close::Failed => "connection failed"@,
            Close::Looped => "detected self-connection loop"@,
            Close::NoServerName => "TLS client did not provide SNI"@,
            Close::ServerNameChanged => "TLS SNI changed between inspection and handshake"@,
            Close::Denied => host + " denied by ACL"@,
            Close::SelfConnect => "detected self-connection loop"@,
        }
    }

    pub fn message(self, host: &str) -> (r: String)
        ensures
            r@ == self.text(host@),
    {
        match self {
            Close::Ended => text::owned("connection ended"),
            Close::Failed => text::owned("connection failed"),
            Close::Looped => text::owned("detected self-connection loop"),
            Close::NoServerName => text::owned("TLS client did not provide SNI"),
            Close::ServerNameChanged => text::owned("TLS SNI changed between inspection and handshake"),
            Close::Denied => {
                let mut out = text::owned(host);
                out.push_str(" denied by ACL");
                out
            },
            Close::SelfConnect => text::owned("detected self-connection loop"),
        }
    }
}

/// What has to be done next.
#[derive(Debug, Clone, Copy, PartialEq, Eq, Structural)]
pub enum Action {
    /// Nothing: the next step can be taken.
    Continue,
    /// Tell the live views the host of the connection.
    ShowHost,
    /// Add so many bytes to what the listener received.
    Count { bytes: u64 },
    AcceptHello { seconds: u64 },
    Select { source: Source },
    MintCertificate,
    Handshake { seconds: u64 },
    Connect { seconds: u64 },
    WrapTls { limit: Option<u64> },
    SendHead,
    Relay,
    Close(Close),
}

/// How what had to be done went.
pub enum Reply {
    /// There is nothing to tell.
    Nothing,
    /// The hello was accepted.
    Hello { host: Option<String>, random: Vec<u8>, head_len: u64 },
    /// An upstream was selected; its endpoint has these addresses.
    Selected { target: SelectedTarget, addresses: Vec<SocketAddr> },
    /// It was done.
    Done,
    Failed,
}

/// A connection and how far its plan was carried out.
pub struct Session {
    pub plan: Vec<Step>,
    /// The step that is taken next, or that is waited for.
    pub at: usize,
    pub waiting: bool,
    pub closed: Option<Close>,
    pub request_id: RequestId,
    /// The server name that the route was chosen for, on a routed connection.
    pub expected: Option<String>,
    /// The host that the client asks for.
    pub host: Option<String>,
    pub random: Vec<u8>,
    pub head_len: u64,
    /// Where the listener is bound, if that is known.
    pub bind: Option<SocketAddr>,
    pub selected: Option<SelectedTarget>,
    pub addresses: Vec<SocketAddr>,
}

/// What a step that is waited for has to be done about, nothing for a step
/// that the library takes.
pub open spec fn work_of(step: Step) -> Option<Action> {
    match step {
        Step::AcceptHello { seconds } => Some(Action::AcceptHello { seconds }),
        Step::Select { source } => Some(Action::Select { source }),
        Step::MintCertificate => Some(Action::MintCertificate),
        Step::Handshake { seconds } => Some(Action::Handshake { seconds }),
        Step::Connect { seconds } => Some(Action::Connect { seconds }),
        Step::WrapTls { limit } => Some(Action::WrapTls { limit }),
        Step::SendHead => Some(Action::SendHead),
        Step::Relay => Some(Action::Relay),
        _ => None,
    }
}

/// Whether a reply says that a step was done.
pub open spec fn answers(step: Step, reply: Reply) -> bool {
    match step {
        Step::AcceptHello { .. } => reply is Hello,
        Step::Select { .. } => reply is Selected,
        _ => reply is Done,
    }
}

/// Whether an upstream with these addresses is the listener itself.
pub open spec fn points_back(bind: Option<SocketAddr>, addresses: Seq<SocketAddr>) -> bool {
    bind is Some && exists|i: int| 0 <= i < addresses.len() && relay::reaches(bind->0, #[trigger] addresses[i])
}

/// Why a step that the library takes ends the connection, if it does.
pub open spec fn refusal(s: Session, listener: Listener, looped: bool) -> Option<Close> {
    match s.plan@[s.at as int] {
        Step::RefuseLoopedHello => if looped {
            Some(Close::Looped)
        } else {
            None
        },
        Step::TrackSni => match s.host {
            None => Some(Close::NoServerName),
            Some(h) => if s.expected is Some && (s.expected->0)@ != h@ {
                Some(Close::ServerNameChanged)
            } else {
                None
            },
        },
        Step::CheckAccess { .. } => match s.host {
            None => Some(Close::NoServerName),
            Some(h) => if listener.allows(h@) {
                None
            } else {
                Some(Close::Denied)
            },
        },
        Step::TrackTarget => if s.selected is None {
            Some(Close::Failed)
        } else {
            None
        },
        Step::RefuseSelf => if points_back(s.bind, s.addresses@) {
            Some(Close::SelfConnect)
        } else {
            None
        },
        _ => None,
    }
}

/// What a step that the library takes asks for on the side.
pub open spec fn side_action(s: Session) -> Action {
    match s.plan@[s.at as int] {
        Step::TrackSni => Action::ShowHost,
        Step::CountHead => Action::Count { bytes: s.head_len },
        _ => Action::Continue,
    }
}

/// How the record of the connection changes by a step that the library takes.
pub open spec fn record_after(s: Session, refused: Option<Close>, before: ActiveConnection, after: ActiveConnection) -> bool {
    match s.plan@[s.at as int] {
        Step::TrackSni => if refused is None {
            after.sni@ == (s.host->0)@ && after == (ActiveConnection { sni: after.sni, ..before })
        } else {
            after == before
        },
        Step::CountHead => after == (ActiveConnection {
            uploaded_bytes: active_tracker::saturated(before.uploaded_bytes + s.head_len) as u64,
            ..before
        }),
        Step::CheckAccess { recorded } => if recorded && refused == Some(Close::Denied) {
            after == (ActiveConnection { status: ConnStatus::Denied, ..before })
        } else {
            after == before
        },
        Step::TrackTarget => if refused is None {
            after.target_host@ == (s.selected->0).tls_server_name@ && after.target_endpoint@ == (s.selected->0).endpoint@
                && after == (ActiveConnection {
                target_host: after.target_host,
                target_endpoint: after.target_endpoint,
                ..before
            })
        } else {
            after == before
        },
        Step::MarkOk => after == (ActiveConnection { status: ConnStatus::Success, ..before }),
        _ => after == before,
    }
}

/// The hellos that are remembered behind a step that the library takes.
pub open spec fn hellos_after(s: Session, before: Cache, after: Cache, now: u64) -> bool {
    match s.plan@[s.at as int] {
        Step::RefuseLoopedHello => after.by_key@ == before.by_key@.remove(s.random@) && hello_cache::nodes(
            after.by_insertion@,
        ) == hello_cache::nodes(before.by_insertion@),
        Step::RememberHello => after.by_key@ == hello_cache::unexpired(
            before.by_key@,
            hello_cache::nodes(before.by_insertion@),
            now,
        ).insert(s.random@, (now + hello_cache::DEFAULT_TTL) as u64) && hello_cache::nodes(after.by_insertion@)
            == hello_cache::pending(hello_cache::nodes(before.by_insertion@), now).push(
            (s.random@, (now + hello_cache::DEFAULT_TTL) as u64),
        ),
        _ => after == before,
    }
}

/// Whether only the progress of a session differs.
pub open spec fn same_connection(a: Session, b: Session) -> bool {
    &&& a.plan == b.plan
    &&& a.request_id == b.request_id
    &&& a.expected == b.expected
    &&& a.bind == b.bind
}

impl Session {
    /// Whether step `i` was taken.
    pub open spec fn passed(self, i: int) -> bool {
        0 <= i < self.at && i < self.plan@.len()
    }

    pub open spec fn wf(self) -> bool {
        &&& flow::is_plan(self.plan@)
        &&& self.at <= self.plan@.len()
        &&& self.closed is None ==> self.at < self.plan@.len()
        &&& self.waiting ==> self.closed is None && work_of(self.plan@[self.at as int]) is Some
    }

    /// What holds of a connection that is still open, by the steps that were
    /// taken: its record shows its host and its upstream, it counts as served
    /// once it is connected and not before, and it got past its guards.
    pub open spec fn sound(self, record: ActiveConnection, listener: Listener) -> bool {
        self.closed is None ==> {
            &&& forall|i: int|
                #[trigger] self.passed(i) && self.plan@[i] == Step::TrackSni ==> self.host is Some && record.sni@ == (
                self.host->0)@ && (self.expected is Some ==> (self.expected->0)@ == (self.host->0)@)
            &&& forall|i: int|
                #[trigger] self.passed(i) && self.plan@[i] is CheckAccess ==> self.host is Some && listener.allows(
                    (self.host->0)@,
                )
            &&& forall|i: int| #[trigger] self.passed(i) && self.plan@[i] is Select ==> self.selected is Some
            &&& forall|i: int|
                #[trigger] self.passed(i) && self.plan@[i] == Step::TrackTarget ==> self.selected is Some
                    && record.target_endpoint@ == (self.selected->0).endpoint@ && record.target_host@ == (
                self.selected->0).tls_server_name@
            &&& forall|i: int|
                #[trigger] self.passed(i) && self.plan@[i] == Step::RefuseSelf ==> !points_back(self.bind, self.addresses@)
            &&& record.status == ConnStatus::Success <==> exists|i: int|
                #[trigger] self.passed(i) && self.plan@[i] == Step::MarkOk
        }
    }

    /// A session at the start of its plan. `host`, `random` and `head_len` are
    /// those of what was intercepted already, if anything was.
    pub fn new(
        plan: Vec<Step>,
        request_id: RequestId,
        expected: Option<String>,
        host: Option<String>,
        random: Vec<u8>,
        head_len: u64,
        bind: Option<SocketAddr>,
    ) -> (r: Session)
        ensures
            r == (Session {
                plan,
                at: 0,
                waiting: false,
                closed: None,
                request_id,
                expected,
                host,
                random,
                head_len,
                bind,
                selected: None,
                addresses: r.addresses,
            }),
            r.addresses@.len() == 0,
            flow::is_plan(plan@) ==> r.wf(),
            forall|record: ActiveConnection, listener: Listener|
                record.status != ConnStatus::Success ==> #[trigger] r.sound(record, listener),
    {
        let r = Session {
            plan,
            at: 0,
            waiting: false,
            closed: None,
            request_id,
            expected,
            host,
            random,
            head_len,
            bind,
            selected: None,
            addresses: Vec::new(),
        };
        proof {
            if flow::is_plan(plan@) {
                flow::plans_end_in_relay(plan@);
            }
        }
        r
    }

    fn close(&mut self, reason: Close) -> (r: Action)
        ensures
            r == Action::Close(reason),
            *final(self) == (Session { closed: Some(reason), waiting: false, ..*old(self) }),
    {
        self.closed = Some(reason);
        self.waiting = false;
        Action::Close(reason)
    }

    /// Takes in how the step that is waited for went.
    fn take_reply(&mut self, reply: Reply) -> (r: Action)
        requires
            old(self).wf(),
            old(self).waiting,
        ensures
            final(self).wf(),
            same_connection(*old(self), *final(self)),
            reply_taken(*old(self), reply, *final(self), r),
    {
        proof {
            flow::plans_end_in_relay(self.plan@);
        }
        match (self.plan[self.at], reply) {
            (Step::AcceptHello { .. }, Reply::Hello { host, random, head_len }) => {
                self.host = host;
                self.random = random;
                self.head_len = head_len;
            },
            (Step::Select { .. }, Reply::Selected { target, addresses }) => {
                self.selected = Some(target);
                self.addresses = addresses;
            },
            (Step::AcceptHello { .. }, _) => return self.close(Close::Failed),
            (Step::Select { .. }, _) => return self.close(Close::Failed),
            (Step::Relay, Reply::Done) => return self.close(Close::Ended),
            (_, Reply::Done) => {},
            (_, _) => return self.close(Close::Failed),
        }
        self.waiting = false;
        self.at = self.at + 1;
        Action::Continue
    }

    /// Takes one step, or takes in how the step that is waited for went.
    pub fn step(&mut self, tracker: &mut ActiveTracker, hellos: &mut Cache, listener: &Listener, reply: Reply, now: u64) -> (r:
        Action)
        requires
            old(self).wf(),
            old(tracker).wf(),
            old(hellos).wf(),
            now + hello_cache::DEFAULT_TTL <= u64::MAX,
        ensures
            final(self).wf(),
            final(tracker).wf(),
            final(hellos).wf(),
            same_connection(*old(self), *final(self)),
            active_tracker::only_changes(old(tracker)@, final(tracker)@, Key::id(&old(self).request_id)),
            if old(self).closed is Some {
                r == Action::Close(old(self).closed->0) && *final(self) == *old(self) && final(tracker)@ == old(tracker)@
                    && *final(hellos) == *old(hellos)
            } else if old(self).waiting {
                reply_taken(*old(self), reply, *final(self), r) && final(tracker)@ == old(tracker)@ && *final(hellos) == *old(
                    hellos,
                )
            } else {
                step_taken(
                    *old(self),
                    *listener,
                    is_looped(*old(hellos), old(self).random@, now),
                    *final(self),
                    r,
                ) && hellos_after(*old(self), *old(hellos), *final(hellos), now)
            },
            old(self).closed is None && !old(self).waiting && old(tracker)@.dom().contains(Key::id(&old(self).request_id))
                ==> record_after(
                *old(self),
                refusal(*old(self), *listener, is_looped(*old(hellos), old(self).random@, now)),
                old(tracker)@[Key::id(&old(self).request_id)],
                final(tracker)@[Key::id(&old(self).request_id)],
            ),
    {
        if let Some(reason) = self.closed {
            return Action::Close(reason);
        }
        if self.waiting {
            return self.take_reply(reply);
        }
        proof {
            flow::plans_end_in_relay(self.plan@);
        }
        let mut side = Action::Continue;
        match self.plan[self.at] {
            Step::AcceptHello { seconds } => return self.wait(Action::AcceptHello { seconds }),
            Step::Select { source } => return self.wait(Action::Select { source }),
            Step::MintCertificate => return self.wait(Action::MintCertificate),
            Step::Handshake { seconds } => return self.wait(Action::Handshake { seconds }),
            Step::Connect { seconds } => return self.wait(Action::Connect { seconds }),
            Step::WrapTls { limit } => return self.wait(Action::WrapTls { limit }),
            Step::SendHead => return self.wait(Action::SendHead),
            Step::Relay => return self.wait(Action::Relay),
            Step::RefuseLoopedHello => {
                if hello_cache::is_looped(hellos, &self.random, now) {
                    return self.close(Close::Looped);
                }
            },
            Step::TrackSni => {
                let host = match &self.host {
                    Some(h) => h.clone(),
                    None => return self.close(Close::NoServerName),
                };
                let changed = match &self.expected {
                    Some(e) => !text::str_eq(e.as_str(), host.as_str()),
                    None => false,
                };
                if changed {
                    return self.close(Close::ServerNameChanged);
                }
                active_tracker::set_sni(tracker, &self.request_id, host.as_str());
                side = Action::ShowHost;
            },
            Step::CountHead => {
                active_tracker::add_uploaded(tracker, &self.request_id, self.head_len);
                side = Action::Count { bytes: self.head_len };
            },
            Step::CheckAccess { recorded } => {
                let host = match &self.host {
                    Some(h) => h.clone(),
                    None => return self.close(Close::NoServerName),
                };
                let denied = if recorded {
                    relay::check_acl(listener, host.as_str(), tracker, &self.request_id).is_err()
                } else {
                    !listener.is_allowed(host.as_str())
                };
                if denied {
                    return self.close(Close::Denied);
                }
            },
            Step::TrackTarget => {
                match &self.selected {
                    Some(target) => {
                        active_tracker::set_target(
                            tracker,
                            &self.request_id,
                            target.tls_server_name.as_str(),
                            target.endpoint.as_str(),
                        );
                    },
                    None => return self.close(Close::Failed),
                }
            },
            Step::RememberHello => {
                hello_cache::insert(hellos, bytes::copy_of(self.random.as_slice()), now);
            },
            Step::RefuseSelf => {
                if relay::reject_obvious_self_connect(&self.bind, &self.addresses) {
                    return self.close(Close::SelfConnect);
                }
            },
            Step::MarkOk => {
                active_tracker::set_status(tracker, &self.request_id, ConnStatus::Success);
            },
        }
        self.at = self.at + 1;
        side
    }

    fn wait(&mut self, work: Action) -> (r: Action)
        ensures
            r == work,
            *final(self) == (Session { waiting: true, ..*old(self) }),
    {
        self.waiting = true;
        work
    }
}

/// Whether the hello was sent by this proxy recently.
pub open spec fn is_looped(hellos: Cache, random: Seq<u8>, now: u64) -> bool {
    hellos.by_key@.dom().contains(random) && hellos.by_key@[random] > now
}

/// What taking in a reply comes to.
pub open spec fn reply_taken(s: Session, reply: Reply, t: Session, action: Action) -> bool {
    let step = s.plan@[s.at as int];
    if !answers(step, reply) {
        action == Action::Close(Close::Failed) && t == (Session { closed: Some(Close::Failed), waiting: false, ..s })
    } else if step == Step::Relay {
        action == Action::Close(Close::Ended) && t == (Session { closed: Some(Close::Ended), waiting: false, ..s })
    } else {
        &&& action == Action::Continue
        &&& match reply {
            Reply::Hello { host, random, head_len } => t == (Session {
                at: (s.at + 1) as usize,
                waiting: false,
                host,
                random,
                head_len,
                ..s
            }),
            Reply::Selected { target, addresses } => t == (Session {
                at: (s.at + 1) as usize,
                waiting: false,
                selected: Some(target),
                addresses,
                ..s
            }),
            _ => t == (Session { at: (s.at + 1) as usize, waiting: false, ..s }),
        }
    }
}

/// What taking a step comes to.
pub open spec fn step_taken(s: Session, listener: Listener, looped: bool, t: Session, action: Action) -> bool {
    match work_of(s.plan@[s.at as int]) {
        Some(work) => action == work && t == (Session { waiting: true, ..s }),
        None => match refusal(s, listener, looped) {
            Some(reason) => action == Action::Close(reason) && t == (Session { closed: Some(reason), ..s }),
            None => action == side_action(s) && t == (Session { at: (s.at + 1) as usize, ..s }),
        },
    }
}

/// Taking in a reply keeps a session sound.
pub proof fn replies_keep_a_session_sound(
    s: Session,
    reply: Reply,
    t: Session,
    action: Action,
    record: ActiveConnection,
    listener: Listener,
)
    requires
        s.wf(),
        s.waiting,
        s.sound(record, listener),
        reply_taken(s, reply, t, action),
    ensures
        t.sound(record, listener),
{
    flow::steps_are_in_order(s.plan@);
    let n = s.at as int;
    if t.closed is None {
        assert forall|i: int| #[trigger] t.passed(i) implies i == n || s.passed(i) by {}
        assert forall|i: int| #[trigger] s.passed(i) implies flow::in_order(s.plan@, n, i) by {}
        if exists|i: int| #[trigger] s.passed(i) && s.plan@[i] == Step::MarkOk {
            let i = choose|i: int| #[trigger] s.passed(i) && s.plan@[i] == Step::MarkOk;
            assert(t.passed(i));
        }
    }
}

/// Taking a step keeps a session sound.
pub proof fn steps_keep_a_session_sound(
    s: Session,
    t: Session,
    action: Action,
    before: ActiveConnection,
    after: ActiveConnection,
    listener: Listener,
    looped: bool,
)
    requires
        s.wf(),
        s.closed is None,
        !s.waiting,
        s.sound(before, listener),
        step_taken(s, listener, looped, t, action),
        record_after(s, refusal(s, listener, looped), before, after),
    ensures
        t.sound(after, listener),
{
    let n = s.at as int;
    if t.closed is None && t.at > s.at {
        assert forall|i: int| #[trigger] t.passed(i) implies i == n || s.passed(i) by {}
        if exists|i: int| #[trigger] s.passed(i) && s.plan@[i] == Step::MarkOk {
            let i = choose|i: int| #[trigger] s.passed(i) && s.plan@[i] == Step::MarkOk;
            assert(t.passed(i));
        }
        assert(t.passed(n));
    } else if t.closed is None {
        assert(after == before);
        assert forall|i: int| #[trigger] t.passed(i) implies s.passed(i) by {}
        if exists|i: int| #[trigger] s.passed(i) && s.plan@[i] == Step::MarkOk {
            let i = choose|i: int| #[trigger] s.passed(i) && s.plan@[i] == Step::MarkOk;
            assert(t.passed(i));
        }
    }
}

/// A connection is relayed only once it got past every guard of its plan: its
/// upstream is selected; its host was let through and is shown, and its
/// upstream is not the listener itself, where its plan looks at these. Where
/// its plan keeps the record, it counts as served and shows its upstream.
pub proof fn a_relayed_connection_passed_its_guards(s: Session, record: ActiveConnection, listener: Listener)
    requires
        s.wf(),
        s.closed is None,
        s.sound(record, listener),
        s.plan@[s.at as int] == Step::Relay,
    ensures
        s.selected is Some,
        flow::is_tracked_plan(s.plan@) ==> record.status == ConnStatus::Success && record.target_endpoint@ == (
        s.selected->0).endpoint@,
        s.plan@.contains(Step::TrackSni) ==> s.host is Some && record.sni@ == (s.host->0)@,
        looks_at_access(s.plan@) ==> s.host is Some && listener.allows((s.host->0)@),
        s.plan@.contains(Step::RefuseSelf) ==> !points_back(s.bind, s.addresses@),
{
    let p = s.plan@;
    flow::plans_end_in_relay(p);
    assert(s.at == p.len() - 1);
    assert forall|j: int| 0 <= j < p.len() && #[trigger] p[j] != Step::Relay implies s.passed(j) by {}
    if flow::is_tracked_plan(p) {
        flow::plans_are_well_ordered(p);
        let (i, k) = choose|i: int, k: int| #[trigger] flow::serves_at(p, i, k);
        assert(s.passed(i));
        assert(s.passed(i + 1));
        assert(s.passed(k + 1));
    } else {
        let i = lemma_worker_selects(p);
        assert(s.passed(i));
    }
    if p.contains(Step::TrackSni) {
        assert(s.passed(p.index_of(Step::TrackSni)));
    }
    if looks_at_access(p) {
        let a = choose|a: int| 0 <= a < p.len() && #[trigger] p[a] is CheckAccess;
        assert(s.passed(a));
    }
    if p.contains(Step::RefuseSelf) {
        assert(s.passed(p.index_of(Step::RefuseSelf)));
    }
}

/// Whether a plan looks at the access list.
pub open spec fn looks_at_access(p: Seq<Step>) -> bool {
    exists|i: int| 0 <= i < p.len() && #[trigger] p[i] is CheckAccess
}

proof fn lemma_worker_selects(p: Seq<Step>) -> (i: int)
    requires
        flow::is_worker_plan(p),
    ensures
        0 <= i < p.len(),
        p[i] is Select,
{
    if p[0] is Select {
        0
    } else if p[2] is Select {
        2
    } else {
        3
    }
}

/// A connection counts as served only once it is connected, and it connects
/// only to a host that was let through, where its plan looks at the host.
pub proof fn only_connected_connections_count_as_served(s: Session, record: ActiveConnection, listener: Listener)
    requires
        s.wf(),
        s.closed is None,
        s.sound(record, listener),
        record.status == ConnStatus::Success,
    ensures
        flow::is_tracked_plan(s.plan@),
        exists|i: int| #[trigger] s.passed(i) && s.plan@[i] is Connect,
        looks_at_access(s.plan@) ==> s.host is Some && listener.allows((s.host->0)@),
{
    let p = s.plan@;
    let m = choose|m: int| #[trigger] s.passed(m) && p[m] == Step::MarkOk;
    if flow::is_worker_plan(p) {
        flow::workers_leave_the_status_alone(p);
    }
    flow::plans_are_well_ordered(p);
    flow::steps_are_in_order(p);
    let (i, k) = choose|i: int, k: int| #[trigger] flow::serves_at(p, i, k);
    assert(flow::in_order(p, k, m));
    assert(s.passed(k));
    if looks_at_access(p) {
        let a = choose|a: int| 0 <= a < p.len() && #[trigger] p[a] is CheckAccess;
        assert(flow::in_order(p, a, k));
        assert(s.passed(a));
    }
}

/// No step ends a connection that is in order: its host is known and the one
/// that was expected, if one was; the list allows it; its upstream is selected
/// and no address of it is the listener's own; and its hello did not come from
/// this proxy.
pub proof fn a_connection_in_order_goes_on(s: Session, listener: Listener)
    requires
        s.at < s.plan@.len(),
        s.host is Some,
        s.expected is None || (s.expected->0)@ == (s.host->0)@,
        listener.allows((s.host->0)@),
        s.selected is Some,
        s.bind is None || forall|i: int|
            0 <= i < s.addresses@.len() ==> !relay::reaches(s.bind->0, #[trigger] s.addresses@[i]),
    ensures
        refusal(s, listener, false) is None,
{
}

/// Each guard ends a connection for its own reason, and for no other.
pub proof fn a_guard_ends_a_connection_for_its_reason(s: Session, listener: Listener, looped: bool)
    requires
        s.at < s.plan@.len(),
    ensures
        ({
            let step = s.plan@[s.at as int];
            let r = refusal(s, listener, looped);
            &&& step == Step::RefuseLoopedHello ==> (r == Some(Close::Looped) <==> looped)
            &&& (step == Step::TrackSni || step is CheckAccess) ==> (r == Some(Close::NoServerName) <==> s.host is None)
            &&& step == Step::TrackSni ==> (r == Some(Close::ServerNameChanged) <==> s.host is Some && s.expected is Some
                && (s.expected->0)@ != (s.host->0)@)
            &&& step is CheckAccess ==> (r == Some(Close::Denied) <==> s.host is Some && !listener.allows((s.host->0)@))
            &&& step == Step::RefuseSelf ==> (r == Some(Close::SelfConnect) <==> s.bind is Some && exists|i: int|
                0 <= i < s.addresses@.len() && relay::reaches(s.bind->0, #[trigger] s.addresses@[i]))
            &&& step == Step::RememberHello || step == Step::CountHead || step == Step::MarkOk ==> r is None
        }),
{
}

/// A session waits exactly for the work that is done outside; a reply that says
/// it was done, with what it found, takes the session one step on, and any other
/// reply ends it.
pub proof fn a_session_goes_on_by_replies(s: Session, reply: Reply, t: Session, action: Action)
    requires
        s.wf(),
        s.waiting,
        reply_taken(s, reply, t, action),
    ensures
        reply is Done && (s.plan@[s.at as int] is Connect || s.plan@[s.at as int] is Handshake
            || s.plan@[s.at as int] == Step::MintCertificate || s.plan@[s.at as int] is WrapTls
            || s.plan@[s.at as int] == Step::SendHead) ==> t.at == s.at + 1 && t.closed is None && !t.waiting
            && action == Action::Continue && t.host == s.host && t.selected == s.selected,
        s.plan@[s.at as int] is Select && reply is Selected ==> t.at == s.at + 1 && t.selected == Some(
            reply->target,
        ) && t.addresses == reply->addresses && t.closed is None,
        s.plan@[s.at as int] is AcceptHello && reply is Hello ==> t.at == s.at + 1 && t.host == reply->host && t.random
            == reply->random && t.head_len == reply->head_len && t.closed is None,
        s.plan@[s.at as int] == Step::Relay && reply is Done ==> t.closed == Some(Close::Ended),
        reply == Reply::Failed ==> t.closed == Some(Close::Failed),
{
}

/// A step without a guard against it leads to the next one.
pub proof fn a_session_goes_on_by_steps(s: Session, listener: Listener, looped: bool, t: Session, action: Action)
    requires
        s.at < s.plan@.len(),
        !s.waiting,
        step_taken(s, listener, looped, t, action),
    ensures
        ({
            let step = s.plan@[s.at as int];
            &&& step is AcceptHello || step is Select || step == Step::MintCertificate || step is Handshake
                || step is Connect || step is WrapTls || step == Step::SendHead || step == Step::Relay <==> t.waiting
            &&& work_of(step) is None && refusal(s, listener, looped) is None ==> t.at == s.at + 1 && t.closed == s.closed
            &&& work_of(step) is None && refusal(s, listener, looped) is None && step == Step::CountHead ==> action == (
            Action::Count { bytes: s.head_len })
            &&& work_of(step) is None && refusal(s, listener, looped) is None && step == Step::TrackSni ==> action
                == Action::ShowHost
            &&& step is Connect ==> action == (Action::Connect { seconds: step->Connect_seconds }) && t.waiting
            &&& step == Step::Relay ==> action == Action::Relay && t.waiting
        }),
{
    assert(s.plan.len() <= usize::MAX);
}

/// A hello that a session sends on is recognized for ten seconds; looking for it
/// takes it out; no other step touches what is remembered.
pub proof fn a_hello_that_is_sent_on_is_remembered(s: Session, before: Cache, after: Cache, now: u64, later: u64)
    requires
        s.at < s.plan@.len(),
        now + 10_000 <= u64::MAX,
        hellos_after(s, before, after, now),
    ensures
        s.plan@[s.at as int] == Step::RememberHello ==> (is_looped(after, s.random@, later) <==> later < now + 10_000),
        s.plan@[s.at as int] == Step::RefuseLoopedHello ==> !is_looped(after, s.random@, later),
        s.plan@[s.at as int] != Step::RememberHello && s.plan@[s.at as int] != Step::RefuseLoopedHello ==> after == before,
{
}

/// The record of a connection shows its host once it is known, counts the head
/// that came, tells when it was denied, and counts it as served once it is
/// connected.
pub proof fn the_record_follows_the_steps(
    s: Session,
    refused: Option<Close>,
    before: ActiveConnection,
    after: ActiveConnection,
)
    requires
        s.at < s.plan@.len(),
        record_after(s, refused, before, after),
    ensures
        ({
            let step = s.plan@[s.at as int];
            &&& step == Step::TrackSni && refused is None ==> after.sni@ == (s.host->0)@
            &&& step == Step::CountHead && before.uploaded_bytes + s.head_len <= u64::MAX ==> after.uploaded_bytes
                == before.uploaded_bytes + s.head_len
            &&& step == (Step::CheckAccess { recorded: true }) && refused == Some(Close::Denied) ==> after.status
                == ConnStatus::Denied
            &&& step == Step::TrackTarget && refused is None ==> after.target_endpoint@ == (s.selected->0).endpoint@
            &&& step == Step::MarkOk ==> after.status == ConnStatus::Success
            &&& step != Step::MarkOk && !(step is CheckAccess) ==> after.status == before.status
            &&& step != Step::CountHead ==> after.uploaded_bytes == before.uploaded_bytes
            &&& after.downloaded_bytes == before.downloaded_bytes
        }),
{
}

} // verus!
