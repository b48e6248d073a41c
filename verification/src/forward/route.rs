//! Selection by what a route or a client asks for: the groups that are wanted,
//! and the endpoint that is drawn from them.
use vstd::prelude::*;
use crate::forward::Forwarding;
use crate::forward::group::{Owner, SelectedTarget};
use crate::forward::health;
use crate::forward::select;
use crate::forward::targets;
use crate::forward::targets::TargetError;
use crate::hostutil;
use crate::hostutil::HostAndPort;
use crate::resolver::Tables;
use crate::runtime_config::{HttpBackend, HttpRouteAction, UpstreamTransport};
use crate::text;

verus! {

/// A group that is wanted.
#[derive(Debug)]
pub struct GroupRequest {
    pub requested: HostAndPort,
    pub upstream_tls: bool,
    pub http_health: bool,
    pub tls_server_name: String,
}

/// A group that is wanted, as plain values.
pub struct GroupRequestModel {
    pub host: Seq<char>,
    pub port: u16,
    pub upstream_tls: bool,
    pub http_health: bool,
    pub tls_server_name: Seq<char>,
}

impl GroupRequest {
    pub open spec fn view(self) -> GroupRequestModel {
        GroupRequestModel {
            host: self.requested.host@,
            port: self.requested.port,
            upstream_tls: self.upstream_tls,
            http_health: self.http_health,
            tls_server_name: self.tls_server_name@,
        }
    }
}

pub open spec fn request_models(s: Seq<GroupRequest>) -> Seq<GroupRequestModel> {
    s.map_values(|r: GroupRequest| r@)
}

/// What a reverse-proxy route asks for.
#[derive(Debug)]
pub enum HttpRequests {
    /// One target, which is not checked by HTTP.
    Single(GroupRequest),
    /// The route's own backends.
    Pool(Vec<GroupRequest>),
}

/// What one backend of a route asks for, unless its address is none.
pub open spec fn backend_request(b: HttpBackend) -> Option<GroupRequestModel> {
    match hostutil::target(b.address@) {
        None => None,
        Some((host, port)) => Some(
            GroupRequestModel {
                host,
                port,
                upstream_tls: b.transport == UpstreamTransport::Tls,
                http_health: true,
                tls_server_name: match b.tls_server_name {
                    Some(name) => name@,
                    None => host,
                },
            },
        ),
    }
}

/// What the backends of a route ask for, unless an address is none.
pub open spec fn backend_requests(s: Seq<HttpBackend>) -> Option<Seq<GroupRequestModel>>
    decreases s.len(),
{
    if s.len() == 0 {
        Some(seq![])
    } else {
        match (backend_requests(s.drop_last()), backend_request(s.last())) {
            (Some(done), Some(r)) => Some(done.push(r)),
            _ => None,
        }
    }
}

proof fn lemma_requests_none(s: Seq<HttpBackend>, n: int)
    requires
        0 <= n <= s.len(),
        backend_requests(s.take(n)) is None,
    ensures
        backend_requests(s) is None,
    decreases s.len() - n,
{
    if n == s.len() {
        assert(s.take(n) =~= s);
    } else {
        assert(s.take(n + 1).drop_last() =~= s.take(n));
        lemma_requests_none(s, n + 1);
    }
}

/// What a reverse-proxy route asks for on behalf of a host: its backends, or
/// its target if it has none, or else the host itself.
pub fn http_requests(host: &str, action: &HttpRouteAction) -> (r: Result<HttpRequests, TargetError>)
    ensures
        if action.backends@.len() == 0 {
            let (to, port) = match action.target {
                Some(t) => targets::pool_member(t@, action.target_port),
                None => (host@, action.target_port),
            };
            if port == 0 {
                r matches Err(e) && e == TargetError::InvalidPort
            } else {
                r matches Ok(HttpRequests::Single(q)) && q@ == (GroupRequestModel {
                    host: to,
                    port,
                    upstream_tls: action.upstream == UpstreamTransport::Tls,
                    http_health: false,
                    tls_server_name: host@,
                })
            }
        } else {
            match backend_requests(action.backends@) {
                Some(m) => r matches Ok(HttpRequests::Pool(v)) && request_models(v@) == m,
                None => r matches Err(e) && e == TargetError::InvalidHostPort,
            }
        },
{
    if action.backends.len() == 0 {
        return match targets::route_target(host, &action.target, action.target_port) {
            Err(e) => Err(e),
            Ok(requested) => Ok(
                HttpRequests::Single(
                    GroupRequest {
                        requested,
                        upstream_tls: action.upstream == UpstreamTransport::Tls,
                        http_health: false,
                        tls_server_name: text::owned(host),
                    },
                ),
            ),
        };
    }
    let ghost all = action.backends@;
    let mut out: Vec<GroupRequest> = Vec::new();
    assert(request_models(out@) =~= seq![]);
    let mut i: usize = 0;
    while i < action.backends.len()
        invariant
            i <= action.backends@.len(),
            all == action.backends@,
            all.len() > 0,
            backend_requests(all.take(i as int)) == Some(request_models(out@)),
        decreases action.backends@.len() - i,
    {
        assert(all.take(i + 1).drop_last() =~= all.take(i as int));
        let backend = &action.backends[i];
        match HostAndPort::parse(backend.address.as_str()) {
            Ok(requested) => {
                let tls_server_name = match &backend.tls_server_name {
                    Some(name) => name.clone(),
                    None => requested.host.clone(),
                };
                let ghost o0 = request_models(out@);
                let q = GroupRequest {
                    requested,
                    upstream_tls: backend.transport == UpstreamTransport::Tls,
                    http_health: true,
                    tls_server_name,
                };
                out.push(q);
                assert(request_models(out@) =~= o0.push(q@));
            },
            Err(_) => {
                proof {
                    lemma_requests_none(all, i + 1);
                }
                return Err(TargetError::InvalidHostPort);
            },
        }
        i = i + 1;
    }
    assert(all.take(i as int) =~= all);
    Ok(HttpRequests::Pool(out))
}

/// Whether `r` is drawn from the group of what traffic asked for, which is made
/// where it is not there.
pub open spec fn drawn_for(
    before: select::Groups,
    q: GroupRequestModel,
    effective: HostAndPort,
    resolved: Seq<Seq<char>>,
    now: u128,
    r: Option<SelectedTarget>,
    after: select::Groups,
) -> bool {
    let k = select::key_for(effective, q.upstream_tls, q.http_health);
    exists|mid: select::Groups|
        select::ensured(
            before,
            k,
            hostutil::shown(q.host, q.port),
            effective,
            q.upstream_tls,
            q.http_health,
            q.tls_server_name,
            Owner::Runtime,
            resolved,
            now,
            mid,
        ) && #[trigger] select::runtime_selected(mid, k, q.tls_server_name, now, r, after)
}

/// Whether `r` is drawn for what traffic asked for, wherever the overrides say
/// that this really is.
pub open spec fn drawn_by_name(
    tables: Tables,
    before: select::Groups,
    q: GroupRequestModel,
    resolved: Seq<Seq<char>>,
    now: u128,
    r: Option<SelectedTarget>,
    after: select::Groups,
) -> bool {
    exists|effective: HostAndPort|
        (effective.host@, effective.port) == health::effective(tables, q.host, q.port) && #[trigger] drawn_for(
            before,
            q,
            effective,
            resolved,
            now,
            r,
            after,
        )
}

impl Forwarding {
    /// Selects the endpoint of what a route or a client asks for by name.
    /// `effective` is where the target really is, and `resolved` the endpoints
    /// that this resolves to.
    pub fn select_runtime_target(
        &mut self,
        request: &GroupRequest,
        effective: &HostAndPort,
        resolved: &Vec<String>,
        now: u128,
    ) -> (r: Option<SelectedTarget>)
        requires
            old(self).wf(),
        ensures
            final(self).wf(),
            drawn_for(old(self).groups@, request@, *effective, text::views(resolved@), now, r, final(self).groups@),
            *final(self) == (Forwarding { groups: final(self).groups, ..*old(self) }),
    {
        let key = select::ensure_group(
            &mut self.groups,
            request.requested.to_string(),
            effective,
            request.upstream_tls,
            request.http_health,
            request.tls_server_name.clone(),
            Owner::Runtime,
            resolved,
            now,
        );
        let ghost mid = self.groups@;
        let r = select::select_runtime_target(&mut self.groups, &key, request.tls_server_name.as_str(), now);
        proof {
            let q = request@;
            let k = select::key_for(*effective, q.upstream_tls, q.http_health);
            assert(select::runtime_selected(mid, k, q.tls_server_name, now, r, self.groups@));
            assert(drawn_for(old(self).groups@, q, *effective, text::views(resolved@), now, r, self.groups@));
        }
        r
    }

    /// Selects the endpoint of a Layer-4 route: of its explicit target, or of
    /// the host that the client asked for. Port zero is refused. `tables` say
    /// where targets really are, and `resolved` is what that resolves to.
    pub fn select_routed_target(
        &mut self,
        tables: &Tables,
        sni_host: &str,
        explicit: &Option<String>,
        default_port: u16,
        upstream_tls: bool,
        resolved: &Vec<String>,
        now: u128,
    ) -> (r: Result<Option<SelectedTarget>, TargetError>)
        requires
            old(self).wf(),
            tables.exact_with_port.wf(),
            tables.exact_any_port.wf(),
        ensures
            final(self).wf(),
            match routed(sni_host@, *explicit, default_port, upstream_tls) {
                None => r matches Err(e) && e == TargetError::InvalidPort && *final(self) == *old(self),
                Some(q) => r matches Ok(s) && drawn_by_name(
                    *tables,
                    old(self).groups@,
                    q,
                    text::views(resolved@),
                    now,
                    s,
                    final(self).groups@,
                ),
            },
            *final(self) == (Forwarding { groups: final(self).groups, ..*old(self) }),
    {
        let requested = match targets::route_target(sni_host, explicit, default_port) {
            Ok(requested) => requested,
            Err(e) => return Err(e),
        };
        let effective = health::resolve_override_first(tables, requested.host(), requested.port());
        let request = GroupRequest {
            requested,
            upstream_tls,
            http_health: false,
            tls_server_name: text::owned(sni_host),
        };
        let selected = self.select_runtime_target(&request, &effective, resolved, now);
        proof {
            let q = routed(sni_host@, *explicit, default_port, upstream_tls)->0;
            assert(request@ == q);
            assert(drawn_for(old(self).groups@, q, effective, text::views(resolved@), now, selected, self.groups@));
        }
        Ok(selected)
    }
}

/// What a Layer-4 route asks for, unless its port is zero.
pub open spec fn routed(sni_host: Seq<char>, explicit: Option<String>, default_port: u16, upstream_tls: bool) -> Option<
    GroupRequestModel,
> {
    let (host, port) = match explicit {
        Some(t) => targets::pool_member(t@, default_port),
        None => (sni_host, default_port),
    };
    if port == 0 {
        None
    } else {
        Some(GroupRequestModel { host, port, upstream_tls, http_health: false, tls_server_name: sni_host })
    }
}

/// A target that resolves to something is never refused: its group has an
/// endpoint to offer, whether it was there before or not.
pub proof fn a_resolved_target_is_always_served(
    before: select::Groups,
    q: GroupRequestModel,
    effective: HostAndPort,
    resolved: Seq<Seq<char>>,
    now: u128,
    r: Option<SelectedTarget>,
    after: select::Groups,
)
    requires
        drawn_for(before, q, effective, resolved, now, r, after),
        ({
            let k = select::key_for(effective, q.upstream_tls, q.http_health);
            if before.dom().contains(k) {
                before[k].endpoints@.len() > 0
            } else {
                resolved.len() > 0
            }
        }),
    ensures
        r is Some,
        (r->0).tls_server_name@ == q.tls_server_name,
{
    let k = select::key_for(effective, q.upstream_tls, q.http_health);
    let mid = choose|mid: select::Groups|
        select::ensured(
            before,
            k,
            hostutil::shown(q.host, q.port),
            effective,
            q.upstream_tls,
            q.http_health,
            q.tls_server_name,
            Owner::Runtime,
            resolved,
            now,
            mid,
        ) && #[trigger] select::runtime_selected(mid, k, q.tls_server_name, now, r, after);
    reveal_with_fuel(select::touched, 3);
    assert(seq![k].drop_last() =~= seq![]);
    assert(seq![k].last() == k);
}

/// Every backend of a route is asked for, in order: its host and port, TLS if
/// it says so, and the server name that it says or else its host. Only an
/// address that is none keeps a route from its backends.
pub proof fn every_backend_of_a_route_is_asked_for(s: Seq<HttpBackend>, i: int)
    requires
        0 <= i < s.len(),
    ensures
        backend_requests(s) is None <==> exists|k: int|
            0 <= k < s.len() && hostutil::target((#[trigger] s[k]).address@) is None,
        backend_requests(s) matches Some(v) ==> v.len() == s.len() && hostutil::target(s[i].address@) == Some(
            (v[i].host, v[i].port),
        ) && v[i].upstream_tls == (s[i].transport == UpstreamTransport::Tls) && v[i].http_health && (
        s[i].tls_server_name matches Some(name) ==> v[i].tls_server_name == name@) && (s[i].tls_server_name is None
            ==> v[i].tls_server_name == v[i].host),
    decreases s.len(),
{
    let t = s.drop_last();
    if t.len() > 0 {
        every_backend_of_a_route_is_asked_for(t, if i < t.len() {
            i
        } else {
            0
        });
        if exists|k: int| 0 <= k < t.len() && hostutil::target((#[trigger] t[k]).address@) is None {
            let k = choose|k: int| 0 <= k < t.len() && hostutil::target((#[trigger] t[k]).address@) is None;
            assert(s[k] == t[k]);
        }
        if exists|k: int| 0 <= k < s.len() && hostutil::target((#[trigger] s[k]).address@) is None {
            let k = choose|k: int| 0 <= k < s.len() && hostutil::target((#[trigger] s[k]).address@) is None;
            if k < t.len() {
                assert(s[k] == t[k]);
            }
        }
        if i < t.len() {
            assert(t[i] == s[i]);
        }
    } else {
        assert(backend_requests(t) == Some(Seq::<GroupRequestModel>::empty()));
    }
    assert(s[s.len() - 1] == s.last());
}

/// A Layer-4 route asks for its own target, on the default port where that names
/// none, or else for the host of the client; the server name is the client's
/// host either way.
pub proof fn a_route_asks_for_its_target(sni_host: Seq<char>, target: String, default_port: u16, upstream_tls: bool)
    ensures
        routed(sni_host, None, default_port, upstream_tls) matches Some(q) ==> q.host == sni_host && q.port
            == default_port && q.upstream_tls == upstream_tls && q.tls_server_name == sni_host && !q.http_health,
        routed(sni_host, None, default_port, upstream_tls) is None <==> default_port == 0,
        hostutil::target(target@) is Some && (hostutil::target(target@)->0).1 > 0 ==> (routed(
            sni_host,
            Some(target),
            default_port,
            upstream_tls,
        ) matches Some(q) && Some((q.host, q.port)) == hostutil::target(target@) && q.tls_server_name == sni_host && q.upstream_tls == upstream_tls),
        hostutil::target(target@) is None && default_port > 0 ==> (routed(
            sni_host,
            Some(target),
            default_port,
            upstream_tls,
        ) matches Some(q) && q.host == target@ && q.port == default_port && q.tls_server_name == sni_host),
{
}

/// A route without a target asks for the client's host on its port, whatever
/// port that is but zero.
pub proof fn every_port_but_zero_is_asked_for(
    sni_host: Seq<char>,
    explicit: Option<String>,
    default_port: u16,
    upstream_tls: bool,
)
    ensures
        explicit is None ==> (routed(sni_host, explicit, default_port, upstream_tls) is Some <==> default_port != 0),
        explicit is Some && targets::pool_member((explicit->0)@, default_port).1 != 0 ==> routed(
            sni_host,
            explicit,
            default_port,
            upstream_tls,
        ) is Some,
        routed(sni_host, explicit, default_port, upstream_tls) matches Some(q) ==> q.port != 0 && q.upstream_tls
            == upstream_tls && q.tls_server_name == sni_host && !q.http_health,
{
}

} // verus!
