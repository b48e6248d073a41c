//! Upstream selection: which endpoint a connection is sent to, and the state
//! behind it.
use vstd::prelude::*;
use crate::forward::dns::CachedDns;
use crate::forward::group::{BackendStatusSerde, GroupKey, MonitorGroup, SelectedTarget};
use crate::forward::health::HealthBinding;
use crate::forward::targets::TargetError;
use crate::hostutil::HostAndPort;
use crate::runtime_config::{AdditionalListenerConfig, HttpLoadBalancing, RuntimeConfig};
use crate::table;
use crate::table::Table;
use crate::text;

pub mod dns;
pub mod group;
pub mod health;
pub mod maintain;
pub mod round;
pub mod route;
pub mod select;
pub mod targets;

pub use crate::forward::health::HealthCheckTarget;
pub use crate::forward::targets::{http_listener_targets, parse_http_targets};

verus! {

/// How a listener names its backends.
#[derive(Debug, Clone, Copy, PartialEq, Eq, Structural)]
pub enum TargetKind {
    /// A list of `host:port`.
    Forward,
    /// A list of `http://host:port`, or none at all.
    Http,
    /// The client names the backend.
    Dynamic,
}

/// What a listener says of its backends.
#[derive(Debug)]
pub struct ListenerTargets {
    pub name: String,
    pub kind: TargetKind,
    pub target: Option<String>,
    pub upstream_tls: bool,
}

/// A listener with the targets that are to be monitored for it.
#[derive(Debug)]
pub struct Registration {
    pub name: String,
    pub requests: Vec<HostAndPort>,
    pub upstream_tls: bool,
}

/// The hosts and ports of a list of targets.
pub open spec fn requests_of(list: Seq<Seq<char>>) -> Seq<(Seq<char>, u16)> {
    list.map_values(|t: Seq<char>| targets::pool_member(t, 0))
}

/// What a list of forward targets asks for.
pub open spec fn forward_list(list: Seq<char>) -> Result<Seq<(Seq<char>, u16)>, TargetError> {
    match targets::target_list(list, false) {
        Ok(v) => Ok(requests_of(v)),
        Err(e) => Err(e),
    }
}

/// The targets of a forward listener.
pub fn forward_requests(list: &str) -> (r: Result<Vec<HostAndPort>, TargetError>)
    ensures
        match forward_list(list@) {
            Ok(v) => r is Ok && targets::pairs(r->Ok_0@) == v,
            Err(e) => r is Err && r->Err_0 == e,
        },
{
    let parsed = match targets::parse_targets(list) {
        Ok(v) => v,
        Err(e) => return Err(e),
    };
    let ghost all = text::views(parsed@);
    let mut out: Vec<HostAndPort> = Vec::new();
    let mut i: usize = 0;
    while i < parsed.len()
        invariant
            i <= parsed@.len(),
            all == text::views(parsed@),
            out@.len() == i,
            forall|k: int| 0 <= k < i ==> ((#[trigger] out@[k]).host@, out@[k].port) == targets::pool_member(all[k], 0),
        decreases parsed@.len() - i,
    {
        out.push(HostAndPort::parse_or_default(parsed[i].as_str(), 0));
        i = i + 1;
    }
    assert(targets::pairs(out@) =~= requests_of(all));
    Ok(out)
}

/// What a listener asks for; none if it has no fixed backends.
pub open spec fn asked(l: ListenerTargets) -> Option<Result<Seq<(Seq<char>, u16)>, TargetError>> {
    match (l.kind, l.target) {
        (TargetKind::Forward, Some(t)) => Some(forward_list(t@)),
        (TargetKind::Http, Some(t)) => if text::trimmed(t@).len() == 0 {
            None
        } else {
            match targets::target_list(text::trimmed(t@), true) {
                Ok(v) => Some(forward_list(text::joined(v, ";"@))),
                Err(e) => Some(Err(e)),
            }
        },
        _ => None,
    }
}

/// The listeners with fixed backends, up to the first whose targets are
/// refused.
pub open spec fn registrations(s: Seq<ListenerTargets>) -> (Seq<(Seq<char>, Seq<(Seq<char>, u16)>, bool)>, Option<
    TargetError,
>)
    decreases s.len(),
{
    if s.len() == 0 {
        (seq![], None)
    } else {
        let (done, error) = registrations(s.drop_last());
        let l = s.last();
        match (error, asked(l)) {
            (Some(e), _) => (done, Some(e)),
            (None, None) => (done, None),
            (None, Some(Err(e))) => (done, Some(e)),
            (None, Some(Ok(v))) => (
                done.push(
                    (
                        l.name@,
                        v,
                        l.kind == TargetKind::Forward && l.upstream_tls,
                    ),
                ),
                None,
            ),
        }
    }
}

pub open spec fn registration(r: Registration) -> (Seq<char>, Seq<(Seq<char>, u16)>, bool) {
    (r.name@, targets::pairs(r.requests@), r.upstream_tls)
}

pub open spec fn registered(s: Seq<Registration>) -> Seq<(Seq<char>, Seq<(Seq<char>, u16)>, bool)> {
    s.map_values(|r: Registration| registration(r))
}

fn listener_requests(l: &ListenerTargets) -> (r: Option<Result<Vec<HostAndPort>, TargetError>>)
    ensures
        match asked(*l) {
            None => r is None,
            Some(Ok(v)) => r matches Some(Ok(w)) && targets::pairs(w@) == v,
            Some(Err(e)) => r matches Some(Err(f)) && f == e,
        },
{
    match l.kind {
        TargetKind::Forward => match &l.target {
            Some(t) => Some(forward_requests(t.as_str())),
            None => None,
        },
        TargetKind::Http => match http_listener_targets(&l.target) {
            Some(t) => match parse_http_targets(t.as_str()) {
                Ok(normalized) => Some(forward_requests(normalized.as_str())),
                Err(e) => Some(Err(e)),
            },
            None => None,
        },
        TargetKind::Dynamic => None,
    }
}

proof fn lemma_registrations_stop(s: Seq<ListenerTargets>, n: int)
    requires
        0 <= n <= s.len(),
        registrations(s.take(n)).1 is Some,
    ensures
        registrations(s) == registrations(s.take(n)),
    decreases s.len() - n,
{
    if n == s.len() {
        assert(s.take(n) =~= s);
    } else {
        assert(s.take(n + 1).drop_last() =~= s.take(n));
        lemma_registrations_stop(s, n + 1);
    }
}

/// The listeners to register, in order, and why the rest is not: the first
/// listener whose targets are refused ends it.
pub fn reconcile_configured_listeners(listeners: &Vec<ListenerTargets>) -> (r: (Vec<Registration>, Option<TargetError>))
    ensures
        (registered(r.0@), r.1) == registrations(listeners@),
{
    let mut out: Vec<Registration> = Vec::new();
    let mut i: usize = 0;
    assert(registered(out@) =~= seq![]);
    while i < listeners.len()
        invariant
            i <= listeners@.len(),
            (registered(out@), None::<TargetError>) == registrations(listeners@.take(i as int)),
        decreases listeners@.len() - i,
    {
        assert(listeners@.take(i + 1).drop_last() =~= listeners@.take(i as int));
        match listener_requests(&listeners[i]) {
            None => {},
            Some(Err(e)) => {
                proof {
                    lemma_registrations_stop(listeners@, i + 1);
                }
                return (out, Some(e));
            },
            Some(Ok(requests)) => {
                let ghost o0 = registered(out@);
                let one = Registration {
                    name: listeners[i].name.clone(),
                    requests,
                    upstream_tls: listeners[i].kind == TargetKind::Forward && listeners[i].upstream_tls,
                };
                out.push(one);
                assert(registered(out@) =~= o0.push(registration(one)));
            },
        }
        i = i + 1;
    }
    assert(listeners@.take(i as int) =~= listeners@);
    (out, None)
}

/// The forward listeners of a configuration that are not disabled.
pub open spec fn hot_listeners(s: Seq<(String, AdditionalListenerConfig)>, disabled: Seq<Seq<char>>) -> Seq<
    (Seq<char>, Seq<char>, bool),
>
    decreases s.len(),
{
    if s.len() == 0 {
        seq![]
    } else {
        let done = hot_listeners(s.drop_last(), disabled);
        match s.last().1 {
            AdditionalListenerConfig::Forward { targets, upstream_tls, .. } => if disabled.contains(s.last().0@) {
                done
            } else {
                done.push((s.last().0@, targets@, upstream_tls))
            },
            _ => done,
        }
    }
}

pub open spec fn listed(s: Seq<ListenerTargets>) -> Seq<(Seq<char>, Seq<char>, bool)> {
    s.map_values(
        |l: ListenerTargets|
            (
                l.name@,
                match l.target {
                    Some(t) => t@,
                    None => seq![],
                },
                l.upstream_tls,
            ),
    )
}

/// The listeners whose targets are taken over while the proxy runs: enabled
/// forward listeners.
pub fn apply_hot_listener_settings(config: &RuntimeConfig) -> (r: Vec<ListenerTargets>)
    ensures
        listed(r@) == hot_listeners(config.additional_listeners@, text::views(config.disabled_listeners@)),
        forall|i: int| 0 <= i < r@.len() ==> (#[trigger] r@[i]).kind == TargetKind::Forward && r@[i].target is Some,
{
    let ghost all = config.additional_listeners@;
    let ghost disabled = text::views(config.disabled_listeners@);
    let mut out: Vec<ListenerTargets> = Vec::new();
    let mut i: usize = 0;
    assert(listed(out@) =~= seq![]);
    while i < config.additional_listeners.len()
        invariant
            i <= config.additional_listeners@.len(),
            all == config.additional_listeners@,
            disabled == text::views(config.disabled_listeners@),
            listed(out@) == hot_listeners(all.take(i as int), disabled),
            forall|k: int|
                0 <= k < out@.len() ==> (#[trigger] out@[k]).kind == TargetKind::Forward && out@[k].target is Some,
        decreases config.additional_listeners@.len() - i,
    {
        assert(all.take(i + 1).drop_last() =~= all.take(i as int));
        let name = &config.additional_listeners[i].0;
        if let AdditionalListenerConfig::Forward { targets, upstream_tls, .. } = &config.additional_listeners[i].1 {
            if !health::holds_name(&config.disabled_listeners, name.as_str()) {
                let ghost o0 = listed(out@);
                out.push(
                    ListenerTargets {
                        name: name.clone(),
                        kind: TargetKind::Forward,
                        target: Some(targets.clone()),
                        upstream_tls: *upstream_tls,
                    },
                );
                assert(listed(out@) =~= o0.push((name@, targets@, *upstream_tls)));
            }
        }
        i = i + 1;
    }
    assert(all.take(i as int) =~= all);
    out
}

/// The state of upstream selection.
pub struct Forwarding {
    pub groups: Table<GroupKey, MonitorGroup>,
    pub listeners: Table<String, Vec<GroupKey>>,
    pub backends: Table<String, Vec<BackendStatusSerde>>,
    pub cursors: Table<String, u64>,
    pub bindings: Vec<HealthBinding>,
    pub resolved: Table<(String, u16), CachedDns>,
}

/// The cursor of a route; a new one starts at zero.
pub open spec fn cursor_of(m: Map<Seq<char>, u64>, route: Seq<char>) -> u64 {
    if m.dom().contains(route) {
        m[route]
    } else {
        0
    }
}

/// The cursors after a route picked once.
pub open spec fn advanced_cursors(m: Map<Seq<char>, u64>, route: Seq<char>, balancing: HttpLoadBalancing) -> Map<
    Seq<char>,
    u64,
> {
    match balancing {
        HttpLoadBalancing::ClientIpHash => m,
        HttpLoadBalancing::RoundRobin => m.insert(route, select::next_cursor(balancing, cursor_of(m, route))),
    }
}

impl Forwarding {
    pub open spec fn wf(self) -> bool {
        &&& self.groups.wf()
        &&& self.listeners.wf()
        &&& self.backends.wf()
        &&& self.cursors.wf()
        &&& self.resolved.wf()
    }

    pub fn new() -> (r: Forwarding)
        ensures
            r.wf(),
            r.groups@.dom() == Set::<(Seq<char>, bool, bool)>::empty(),
            r.listeners@.dom() == Set::<Seq<char>>::empty(),
            r.backends@.dom() == Set::<Seq<char>>::empty(),
            r.cursors@.dom() == Set::<Seq<char>>::empty(),
            r.bindings@.len() == 0,
            r.resolved@.dom() == Set::<(Seq<char>, u16)>::empty(),
    {
        Forwarding {
            groups: Table::new(),
            listeners: Table::new(),
            backends: Table::new(),
            cursors: Table::new(),
            bindings: Vec::new(),
            resolved: Table::new(),
        }
    }

    /// Forgets everything but the resolved names.
    pub fn reset(&mut self)
        requires
            old(self).wf(),
        ensures
            final(self).wf(),
            final(self).groups@.dom() == Set::<(Seq<char>, bool, bool)>::empty(),
            final(self).listeners@.dom() == Set::<Seq<char>>::empty(),
            final(self).backends@.dom() == Set::<Seq<char>>::empty(),
            final(self).cursors@.dom() == Set::<Seq<char>>::empty(),
            final(self).bindings@.len() == 0,
            final(self).resolved == old(self).resolved,
    {
        self.backends.clear();
        self.listeners.clear();
        self.groups.clear();
        self.cursors.clear();
        self.bindings.clear();
    }

    /// Takes over a listener's groups and publishes the statuses anew.
    pub fn register_forward_listener(&mut self, name: String, keys: Vec<GroupKey>, now: u128)
        requires
            old(self).wf(),
        ensures
            final(self).wf(),
            final(self).listeners@ == old(self).listeners@.insert(name@, keys),
            maintain::published(final(self).backends@, final(self).groups@, final(self).listeners@, now),
            final(self).groups == old(self).groups,
            final(self).cursors == old(self).cursors,
            final(self).bindings == old(self).bindings,
            final(self).resolved == old(self).resolved,
    {
        self.listeners.insert(name, keys);
        self.backends = maintain::publish_configured_statuses(&self.groups, &self.listeners, now);
    }

    /// Forgets a listener, drops the groups that only it referred to and
    /// publishes the statuses anew.
    pub fn clear_listener(&mut self, name: &String, now: u128)
        requires
            old(self).wf(),
        ensures
            final(self).wf(),
            final(self).listeners@ == old(self).listeners@.remove(name@),
            forall|k: (Seq<char>, bool, bool)| #[trigger]
                final(self).groups@.dom().contains(k) <==> old(self).groups@.dom().contains(k) && maintain::stays(
                    final(self).listeners.entries@,
                    old(self).bindings@,
                    k,
                    old(self).groups@[k],
                ),
            forall|k: (Seq<char>, bool, bool)| #[trigger]
                final(self).groups@.dom().contains(k) ==> final(self).groups@[k] == old(self).groups@[k],
            maintain::published(final(self).backends@, final(self).groups@, final(self).listeners@, now),
            final(self).cursors == old(self).cursors,
            final(self).bindings == old(self).bindings,
            final(self).resolved == old(self).resolved,
    {
        let _ = self.listeners.remove(name);
        proof {
            if !old(self).listeners@.dom().contains(name@) {
                assert(old(self).listeners@.remove(name@) =~= old(self).listeners@);
            }
        }
        maintain::prune_unreferenced_configured_groups(&mut self.groups, &self.listeners, &self.bindings);
        self.backends = maintain::publish_configured_statuses(&self.groups, &self.listeners, now);
    }

    /// The published statuses of a listener's backends.
    pub fn statuses(&self, name: &String) -> (r: Vec<BackendStatusSerde>)
        requires
            self.wf(),
        ensures
            maintain::status_models(r@) == if self.backends@.dom().contains(name@) {
                maintain::status_models(self.backends@[name@]@)
            } else {
                seq![]
            },
    {
        let mut out: Vec<BackendStatusSerde> = Vec::new();
        if let Some(rows) = self.backends.get(name) {
            let mut i: usize = 0;
            while i < rows.len()
                invariant
                    i <= rows@.len(),
                    out@.len() == i,
                    forall|k: int|
                        0 <= k < i ==> maintain::status_model(#[trigger] out@[k]) == maintain::status_model(rows@[k]),
                decreases rows@.len() - i,
            {
                out.push(
                    BackendStatusSerde {
                        name: rows[i].name.clone(),
                        online: rows[i].online,
                        since_ms: rows[i].since_ms,
                    },
                );
                i = i + 1;
            }
            assert(maintain::status_models(out@) =~= maintain::status_models(rows@));
        } else {
            assert(maintain::status_models(out@) =~= seq![]);
        }
        out
    }

    fn take_cursor(&self, route: &String) -> (r: u64)
        requires
            self.wf(),
        ensures
            r == cursor_of(self.cursors@, route@),
    {
        match self.cursors.get(route) {
            Some(c) => *c,
            None => 0,
        }
    }

    fn put_cursor(&mut self, route: &String, balancing: HttpLoadBalancing, cursor: u64)
        requires
            old(self).wf(),
            cursor == select::next_cursor(balancing, cursor_of(old(self).cursors@, route@)),
        ensures
            final(self).wf(),
            final(self).cursors@ == advanced_cursors(old(self).cursors@, route@, balancing),
            final(self).groups == old(self).groups,
            final(self).listeners == old(self).listeners,
            final(self).backends == old(self).backends,
            final(self).bindings == old(self).bindings,
            final(self).resolved == old(self).resolved,
    {
        if balancing == HttpLoadBalancing::RoundRobin {
            self.cursors.insert(route.clone(), cursor);
        }
    }

    /// Chooses an endpoint for a connection on a listener with fixed backends.
    pub fn choose_online(&mut self, listener: &String, client_hash: u64, balancing: HttpLoadBalancing) -> (r: Option<
        SelectedTarget,
    >)
        requires
            old(self).wf(),
        ensures
            final(self).wf(),
            final(self).listeners == old(self).listeners,
            final(self).backends == old(self).backends,
            final(self).bindings == old(self).bindings,
            final(self).resolved == old(self).resolved,
            ({
                let keys = if old(self).listeners@.dom().contains(listener@) {
                    table::ids(old(self).listeners@[listener@]@)
                } else {
                    seq![]
                };
                let (after, offers) = select::drawn(old(self).groups@, keys);
                let cursor = cursor_of(old(self).cursors@, listener@);
                &&& final(self).groups@ == after
                &&& offers.len() == 0 ==> r is None && final(self).cursors@ == old(self).cursors@
                &&& offers.len() > 0 ==> r is Some && select::selection(r->0) == offers[select::picked(
                    balancing,
                    client_hash,
                    cursor,
                    offers.len() as int,
                )] && final(self).cursors@ == advanced_cursors(old(self).cursors@, listener@, balancing)
            }),
    {
        let mut keys: Vec<GroupKey> = Vec::new();
        assert(table::ids(keys@) =~= seq![]);
        if let Some(known) = self.listeners.get(listener) {
            keys = copy_keys(known);
        }
        let mut cursor = self.take_cursor(listener);
        match select::choose_online(&mut self.groups, &keys, balancing, client_hash, &mut cursor) {
            Some(s) => {
                self.put_cursor(listener, balancing, cursor);
                Some(s)
            },
            None => None,
        }
    }

    /// Selects from the pool of a Layer-4 route.
    pub fn select_routed_pool(
        &mut self,
        route: &String,
        keys: &Vec<GroupKey>,
        sni_host: &str,
        client_hash: u64,
        balancing: HttpLoadBalancing,
        now: u128,
    ) -> (r: Option<SelectedTarget>)
        requires
            old(self).wf(),
        ensures
            final(self).wf(),
            final(self).listeners == old(self).listeners,
            final(self).backends == old(self).backends,
            final(self).bindings == old(self).bindings,
            final(self).resolved == old(self).resolved,
            ({
                let m = select::touched(old(self).groups@, table::ids(keys@), now);
                let cursor = cursor_of(old(self).cursors@, route@);
                match select::pool_result(m, table::ids(keys@), true, balancing, client_hash, cursor) {
                    None => r is None && final(self).groups@ == m && final(self).cursors@ == old(self).cursors@,
                    Some(k) => r matches Some(s) && select::has_endpoints(m, k) && s.endpoint@ == select::offered(m[k]).0
                        && s.tls_server_name@ == sni_host@ && final(self).groups@ == m.insert(
                        k,
                        select::advanced(m[k]),
                    ) && final(self).cursors@ == advanced_cursors(old(self).cursors@, route@, balancing),
                }
            }),
    {
        let mut cursor = self.take_cursor(route);
        match select::select_routed_pool(&mut self.groups, keys, sni_host, balancing, client_hash, &mut cursor, now) {
            Some(s) => {
                self.put_cursor(route, balancing, cursor);
                Some(s)
            },
            None => None,
        }
    }

    /// Selects a healthy endpoint from a reverse-proxy route's backends; the
    /// second result says whether the backend speaks TLS.
    pub fn select_http_backend(
        &mut self,
        route: &String,
        keys: &Vec<GroupKey>,
        client_hash: u64,
        balancing: HttpLoadBalancing,
        now: u128,
    ) -> (r: Option<(SelectedTarget, bool)>)
        requires
            old(self).wf(),
        ensures
            final(self).wf(),
            final(self).listeners == old(self).listeners,
            final(self).backends == old(self).backends,
            final(self).bindings == old(self).bindings,
            final(self).resolved == old(self).resolved,
            ({
                let m = select::touched(old(self).groups@, table::ids(keys@), now);
                let cursor = cursor_of(old(self).cursors@, route@);
                match select::pool_result(m, table::ids(keys@), false, balancing, client_hash, cursor) {
                    None => r is None && final(self).groups@ == m && final(self).cursors@ == old(self).cursors@,
                    Some(k) => r matches Some((s, tls)) && select::has_endpoints(m, k) && select::selection(s)
                        == select::offered(m[k]) && tls == k.1 && final(self).groups@ == m.insert(
                        k,
                        select::advanced(m[k]),
                    ) && final(self).cursors@ == advanced_cursors(old(self).cursors@, route@, balancing),
                }
            }),
    {
        let mut cursor = self.take_cursor(route);
        match select::select_http_backend(&mut self.groups, keys, balancing, client_hash, &mut cursor, now) {
            Some(found) => {
                self.put_cursor(route, balancing, cursor);
                Some(found)
            },
            None => None,
        }
    }
}

fn copy_keys(keys: &Vec<GroupKey>) -> (r: Vec<GroupKey>)
    ensures
        table::ids(r@) == table::ids(keys@),
{
    let mut out: Vec<GroupKey> = Vec::new();
    let mut i: usize = 0;
    while i < keys.len()
        invariant
            i <= keys@.len(),
            out@.len() == i,
            forall|k: int| 0 <= k < i ==> #[trigger] out@[k] == keys@[k],
        decreases keys@.len() - i,
    {
        out.push(keys[i].copy());
        i = i + 1;
    }
    assert(table::ids(out@) =~= table::ids(keys@));
    out
}

/// Every forward listener that is not disabled is kept running, with its own
/// targets, and no other.
pub proof fn enabled_forward_listeners_are_hot(
    s: Seq<(String, AdditionalListenerConfig)>,
    disabled: Seq<Seq<char>>,
    i: int,
)
    ensures
        0 <= i < s.len() && !disabled.contains(s[i].0@) ==> (s[i].1 matches AdditionalListenerConfig::Forward {
            targets,
            upstream_tls,
            ..
        } ==> hot_listeners(s, disabled).contains((s[i].0@, targets@, upstream_tls))),
        0 <= i < hot_listeners(s, disabled).len() ==> !disabled.contains(hot_listeners(s, disabled)[i].0),
    decreases s.len(),
{
    if s.len() > 0 {
        let t = s.drop_last();
        let a = hot_listeners(t, disabled);
        let b = hot_listeners(s, disabled);
        enabled_forward_listeners_are_hot(t, disabled, i);
        if 0 <= i < t.len() && !disabled.contains(s[i].0@) && s[i].1 is Forward {
            assert(t[i] == s[i]);
            let row = (s[i].0@, (s[i].1->Forward_targets)@, s[i].1->Forward_upstream_tls);
            let k = choose|k: int| 0 <= k < a.len() && a[k] == row;
            assert(b[k] == row);
        }
        if i == t.len() && !disabled.contains(s[i].0@) && s[i].1 is Forward {
            assert(b[b.len() - 1] == (s[i].0@, (s[i].1->Forward_targets)@, s[i].1->Forward_upstream_tls));
        }
    }
}

/// Under round robin a route's cursor moves on by one with every pick, and no
/// other route's does; under hashing none does.
pub proof fn cursors_move_on_by_route(m: Map<Seq<char>, u64>, route: Seq<char>, other: Seq<char>)
    requires
        cursor_of(m, route) < u64::MAX,
    ensures
        cursor_of(advanced_cursors(m, route, HttpLoadBalancing::RoundRobin), route) == cursor_of(m, route) + 1,
        other != route ==> cursor_of(advanced_cursors(m, route, HttpLoadBalancing::RoundRobin), other) == cursor_of(
            m,
            other,
        ),
        advanced_cursors(m, route, HttpLoadBalancing::ClientIpHash) == m,
        !m.dom().contains(other) ==> cursor_of(m, other) == 0,
{
}

/// Every listener with fixed backends is registered, in TLS exactly if it is a
/// forwarding one that asks for it, unless a target is refused.
pub proof fn every_listener_with_backends_is_registered(s: Seq<ListenerTargets>, i: int)
    requires
        0 <= i < s.len(),
        registrations(s).1 is None,
    ensures
        s[i].kind == TargetKind::Forward && s[i].target is Some ==> targets::target_list((s[i].target->0)@, false) is Ok
            && registrations(s).0.contains(
            (s[i].name@, requests_of(targets::target_list((s[i].target->0)@, false)->Ok_0), s[i].upstream_tls),
        ),
        s[i].kind == TargetKind::Http && s[i].target is Some && text::trimmed((s[i].target->0)@).len() > 0
            ==> targets::target_list(text::trimmed((s[i].target->0)@), true) is Ok && exists|k: int|
            0 <= k < registrations(s).0.len() && (#[trigger] registrations(s).0[k]).0 == s[i].name@
                && !registrations(s).0[k].2,
    decreases s.len(),
{
    let t = s.drop_last();
    let all = registrations(s).0;
    if i < t.len() {
        assert(t[i] == s[i]);
        every_listener_with_backends_is_registered(t, i);
        let done = registrations(t).0;
        assert forall|k: int| 0 <= k < done.len() implies all[k] == #[trigger] done[k] by {}
        if s[i].kind == TargetKind::Forward && s[i].target is Some {
            let row = (s[i].name@, requests_of(targets::target_list((s[i].target->0)@, false)->Ok_0), s[i].upstream_tls);
            let k = choose|k: int| 0 <= k < done.len() && done[k] == row;
            assert(all[k] == row);
        }
        if s[i].kind == TargetKind::Http && s[i].target is Some && text::trimmed((s[i].target->0)@).len() > 0 {
            let k = choose|k: int|
                0 <= k < done.len() && (#[trigger] registrations(t).0[k]).0 == s[i].name@ && !registrations(t).0[k].2;
            assert(all[k] == done[k]);
        }
    } else {
        assert(s[i] == s.last());
        if asked(s[i]) is Some {
            assert(all[all.len() - 1].0 == s[i].name@);
        }
    }
}

/// A listener with backends gets one of them whenever any of them has an
/// endpoint, and only then.
pub proof fn a_backend_is_chosen_whenever_there_is_one(
    forwarding: &mut Forwarding,
    listener: String,
    hash: u64,
    balancing: HttpLoadBalancing,
    key: (Seq<char>, bool, bool),
    r: Option<SelectedTarget>,
)
    requires
        call_ensures(Forwarding::choose_online, (forwarding, &listener, hash, balancing), r),
        old(forwarding).listeners@.dom().contains(listener@),
        table::ids(old(forwarding).listeners@[listener@]@).contains(key),
        old(forwarding).groups@.dom().contains(key),
        old(forwarding).groups@[key].endpoints@.len() > 0,
    ensures
        r is Some,
{
    lemma_drawn_if_any(
        old(forwarding).groups@,
        table::ids(old(forwarding).listeners@[listener@]@),
        key,
    );
}

proof fn lemma_drawn_if_any(m: select::Groups, keys: Seq<(Seq<char>, bool, bool)>, key: (Seq<char>, bool, bool))
    ensures
        keys.contains(key) && select::has_endpoints(m, key) ==> select::drawn(m, keys).1.len() > 0,
        select::has_endpoints(select::drawn(m, keys).0, key) == select::has_endpoints(m, key),
    decreases keys.len(),
{
    if keys.len() > 0 {
        let t = keys.drop_last();
        lemma_drawn_if_any(m, t, key);
        if keys.contains(key) && key != keys.last() {
            let k = choose|k: int| 0 <= k < keys.len() && keys[k] == key;
            assert(t[k] == key);
        }
    }
}

/// A routed connection gets an upstream whenever an endpoint of its pool is not
/// known to be down; it is for the host that the client asked for.
pub proof fn a_routed_connection_gets_an_upstream(
    forwarding: &mut Forwarding,
    route: String,
    keys: Vec<GroupKey>,
    sni_host: &str,
    hash: u64,
    balancing: HttpLoadBalancing,
    now: u128,
    i: int,
    e: int,
    r: Option<SelectedTarget>,
)
    requires
        call_ensures(Forwarding::select_routed_pool, (forwarding, &route, &keys, sni_host, hash, balancing, now), r),
        0 <= i < keys@.len(),
        old(forwarding).groups@.dom().contains(table::ids(keys@)[i]),
        0 <= e < old(forwarding).groups@[table::ids(keys@)[i]].endpoints@.len(),
        old(forwarding).groups@[table::ids(keys@)[i]].endpoints@[e].online != Some(false),
    ensures
        r is Some,
        (r->0).tls_server_name@ == sni_host@,
{
    let ids = table::ids(keys@);
    let m = select::touched(old(forwarding).groups@, ids, now);
    lemma_touched_keeps_endpoints(old(forwarding).groups@, ids, now, ids[i]);
    match m[ids[i]].endpoints@[e].online {
        Some(online) => {
            assert(online);
        },
        None => {},
    }
    select::a_backend_that_is_not_known_to_be_down_is_used(
        m,
        ids,
        true,
        balancing,
        hash,
        cursor_of(old(forwarding).cursors@, route@),
        i,
        e,
    );
}

proof fn lemma_touched_keeps_endpoints(
    m: select::Groups,
    keys: Seq<(Seq<char>, bool, bool)>,
    now: u128,
    k: (Seq<char>, bool, bool),
)
    requires
        m.dom().contains(k),
    ensures
        select::touched(m, keys, now).dom().contains(k),
        select::touched(m, keys, now)[k].endpoints == m[k].endpoints,
    decreases keys.len(),
{
    if keys.len() > 0 {
        lemma_touched_keeps_endpoints(m, keys.drop_last(), now, k);
    }
}

} // verus!
