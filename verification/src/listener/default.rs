//! Routing policy of the required public TLS listener.
use vstd::prelude::*;
use crate::accounting::{ConnStatus, ListenerType};
use crate::acme_challenge;
use crate::active_tracker;
use crate::active_tracker::{ActiveConnection, ActiveTracker};
use crate::bytes;
use crate::listener::{DefaultRoute, RejectReason};
use crate::request_id::RequestId;
use crate::runtime_config::{DefaultListenerConfig, TlsRouteAction, UpstreamTransport};
use crate::table::Key;
use crate::text;
use crate::tls_header::ClientHello;

verus! {

/// Where a connection goes once its ClientHello is known.
pub enum ConnectionRoute<'a> {
    AcmeChallenge { domain: String },
    ControlPlane { hostname: String },
    Ordinary { sni: String, action: &'a TlsRouteAction },
    Reject(RejectReason),
}

/// Whether a client offers the protocol of ACME validation.
pub open spec fn offers_acme(protocols: Seq<Vec<u8>>) -> bool {
    exists|i: int| 0 <= i < protocols.len() && (#[trigger] protocols[i])@ == acme_challenge::alpn_protocol()
}

pub fn offers_acme_protocol(protocols: &[Vec<u8>]) -> (r: bool)
    ensures
        r == offers_acme(protocols@),
{
    let wanted = acme_challenge::tls_alpn_protocol();
    let mut i: usize = 0;
    while i < protocols.len()
        invariant
            i <= protocols@.len(),
            wanted@ == acme_challenge::alpn_protocol(),
            forall|k: int| 0 <= k < i ==> (#[trigger] protocols@[k])@ != acme_challenge::alpn_protocol(),
        decreases protocols@.len() - i,
    {
        if bytes::same(protocols[i].as_slice(), wanted.as_slice()) {
            return true;
        }
        i = i + 1;
    }
    false
}

/// Whether `f` may answer `b` when it is asked about a domain.
pub open spec fn answers<F: FnOnce(&str) -> bool>(f: F, domain: Seq<char>, b: bool) -> bool {
    exists|s: &str| s@ == domain && #[trigger] call_ensures(f, (s,), b)
}

/// The domain that a client asks for, in normal form.
pub open spec fn asked_domain(sni: Option<&str>) -> Option<Seq<char>> {
    match sni {
        Some(s) => acme_challenge::normalized(s@),
        None => None,
    }
}

/// Whether a domain is the reserved control host.
pub open spec fn is_control(control: Option<&str>, domain: Seq<char>) -> bool {
    control matches Some(c) && acme_challenge::normalized(c@) == Some(domain)
}

/// Whether a route is the one for a domain, given what the two questions were
/// answered: an active challenge first, then the control host, then the
/// ordinary routes.
pub open spec fn route_is(r: DefaultRoute, domain: Seq<char>, acme_active: bool, control: bool, allowed: bool) -> bool {
    if acme_active {
        r matches DefaultRoute::AcmeChallenge { domain: d } && d@ == domain
    } else if control {
        r matches DefaultRoute::ControlPlane { hostname } && hostname@ == domain
    } else if allowed {
        r matches DefaultRoute::Proxy { sni } && sni@ == domain
    } else {
        r matches DefaultRoute::Reject(reason) && reason == RejectReason::PolicyDenied
    }
}

/// Pure routing policy for the required public :443 listener.
///
/// Ordering is security-sensitive: an active local ACME challenge takes
/// precedence, while unmatched ACME ALPN follows the ordinary SNI route. The
/// reserved control hostname bypasses ordinary ACL evaluation but can never
/// become an upstream route.
pub fn classify<F: FnOnce(&str) -> bool, G: FnOnce(&str) -> bool>(
    sni: Option<&str>,
    alpn_protocols: &[Vec<u8>],
    control_hostname: Option<&str>,
    challenge_is_active: F,
    ordinary_sni_is_allowed: G,
) -> (r: DefaultRoute)
    requires
        forall|s: &str| #[trigger] call_requires(challenge_is_active, (s,)),
        forall|s: &str| #[trigger] call_requires(ordinary_sni_is_allowed, (s,)),
    ensures
        match asked_domain(sni) {
            None => r matches DefaultRoute::Reject(reason) && reason == RejectReason::MissingSni,
            Some(d) => exists|active: bool, allowed: bool|
                {
                    &&& #[trigger] route_is(r, d, active, is_control(control_hostname, d), allowed)
                    &&& offers_acme(alpn_protocols@) ==> answers(challenge_is_active, d, active)
                    &&& !offers_acme(alpn_protocols@) ==> !active
                    &&& !active && !is_control(control_hostname, d) ==> answers(ordinary_sni_is_allowed, d, allowed)
                },
        },
{
    let domain = match sni {
        Some(s) => match acme_challenge::normalize_domain(s) {
            Ok(d) => d,
            Err(_) => return DefaultRoute::Reject(RejectReason::MissingSni),
        },
        None => return DefaultRoute::Reject(RejectReason::MissingSni),
    };
    let ghost d = domain@;
    let mut active = false;
    if offers_acme_protocol(alpn_protocols) {
        let asked = domain.as_str();
        active = challenge_is_active(asked);
        assert(call_ensures(challenge_is_active, (asked,), active));
    }
    if active {
        let r = DefaultRoute::AcmeChallenge { domain };
        assert(route_is(r, d, active, is_control(control_hostname, d), false));
        return r;
    }
    let control = match control_hostname {
        Some(c) => match acme_challenge::normalize_domain(c) {
            Ok(n) => text::str_eq(n.as_str(), domain.as_str()),
            Err(_) => false,
        },
        None => false,
    };
    assert(control == is_control(control_hostname, d));
    if control {
        let r = DefaultRoute::ControlPlane { hostname: domain };
        assert(route_is(r, d, active, true, false));
        return r;
    }
    let asked = domain.as_str();
    let allowed = ordinary_sni_is_allowed(asked);
    assert(call_ensures(ordinary_sni_is_allowed, (asked,), allowed));
    if allowed {
        let r = DefaultRoute::Proxy { sni: domain };
        assert(route_is(r, d, active, false, allowed));
        r
    } else {
        let r = DefaultRoute::Reject(RejectReason::PolicyDenied);
        assert(route_is(r, d, active, false, allowed));
        r
    }
}

/// The reserved control hostname never becomes an upstream route, whatever the
/// route table says.
pub proof fn control_host_is_never_proxied(r: DefaultRoute, domain: Seq<char>, acme_active: bool, allowed: bool)
    requires
        route_is(r, domain, acme_active, true, allowed),
    ensures
        !(r is Proxy),
        !acme_active ==> r is ControlPlane,
{
}

/// A domain has one route: the answers determine it.
pub proof fn routes_are_determined(a: DefaultRoute, b: DefaultRoute, domain: Seq<char>, acme_active: bool, control: bool, allowed: bool)
    requires
        route_is(a, domain, acme_active, control, allowed),
        route_is(b, domain, acme_active, control, allowed),
    ensures
        a is AcmeChallenge <==> b is AcmeChallenge,
        a is ControlPlane <==> b is ControlPlane,
        a is Proxy <==> b is Proxy,
        a is Reject <==> b is Reject,
{
}

/// Whether a decision is the one for a domain, given whether a challenge is
/// active.
pub open spec fn decision_is(
    r: ConnectionRoute,
    config: DefaultListenerConfig,
    domain: Seq<char>,
    acme_active: bool,
    control: bool,
) -> bool {
    if acme_active {
        r matches ConnectionRoute::AcmeChallenge { domain: d } && d@ == domain
    } else if control {
        r matches ConnectionRoute::ControlPlane { hostname } && hostname@ == domain
    } else if config.ordinary_traffic.routes_host(domain) {
        r matches ConnectionRoute::Ordinary { sni, action } && sni@ == domain && exists|k: int| #[trigger]
            config.ordinary_traffic.first_route(domain, k) && *action
                == config.ordinary_traffic.routes@[k].action
    } else {
        r matches ConnectionRoute::Reject(reason) && reason == RejectReason::PolicyDenied
    }
}

/// Complete default-listener decision based on one parsed ClientHello. This
/// layer owns ACME/control precedence; protocol handlers receive only the
/// resulting ordinary action and cannot reinterpret system traffic.
pub fn decide<'a, F: FnOnce(&str) -> bool>(
    hello: &ClientHello,
    config: &'a DefaultListenerConfig,
    control_hostname: Option<&str>,
    challenge_is_active: F,
) -> (r: ConnectionRoute<'a>)
    requires
        forall|s: &str| #[trigger] call_requires(challenge_is_active, (s,)),
    ensures
        match acme_challenge::normalized(hello.sni_host@) {
            None => r matches ConnectionRoute::Reject(reason) && reason == RejectReason::MissingSni,
            Some(d) => exists|active: bool|
                {
                    &&& #[trigger] decision_is(r, *config, d, active, is_control(control_hostname, d))
                    &&& offers_acme(hello.alpn_protocols@) ==> answers(challenge_is_active, d, active)
                    &&& !offers_acme(hello.alpn_protocols@) ==> !active
                },
        },
{
    let allowed = |host: &str| -> (b: bool)
        ensures
            b == config.ordinary_traffic.routes_host(host@),
        { config.ordinary_traffic.select_route(host).is_some() };
    let sni = hello.sni_host.as_str();
    let route = classify(
        Some(sni),
        hello.alpn_protocols.as_slice(),
        control_hostname,
        challenge_is_active,
        allowed,
    );
    let ghost route0 = route;
    let r = match route {
        DefaultRoute::AcmeChallenge { domain } => ConnectionRoute::AcmeChallenge { domain },
        DefaultRoute::ControlPlane { hostname } => ConnectionRoute::ControlPlane { hostname },
        DefaultRoute::Proxy { sni } => match config.ordinary_traffic.select_route(sni.as_str()) {
            Some(action) => ConnectionRoute::Ordinary { sni, action },
            // The classifier only returns Proxy for an available route; if
            // the tables disagree, reject the connection instead of panicking.
            None => ConnectionRoute::Reject(RejectReason::PolicyDenied),
        },
        DefaultRoute::Reject(reason) => ConnectionRoute::Reject(reason),
    };
    proof {
        if let Some(d) = acme_challenge::normalized(hello.sni_host@) {
            let (active, ok) = choose|active: bool, ok: bool|
                {
                    &&& #[trigger] route_is(route0, d, active, is_control(control_hostname, d), ok)
                    &&& offers_acme(hello.alpn_protocols@) ==> answers(challenge_is_active, d, active)
                    &&& !offers_acme(hello.alpn_protocols@) ==> !active
                    &&& !active && !is_control(control_hostname, d) ==> answers(allowed, d, ok)
                };
            assert(decision_is(r, *config, d, active, is_control(control_hostname, d)));
        }
    }
    r
}

/// How a connection with a route is accounted.
pub open spec fn accounted_as(route: ConnectionRoute) -> ListenerType {
    match route {
        ConnectionRoute::ControlPlane { .. } => ListenerType::TlsTerminate,
        ConnectionRoute::AcmeChallenge { .. } => ListenerType::TlsTerminate,
        ConnectionRoute::Ordinary { sni: _, action } => match action {
            TlsRouteAction::Terminate { .. } => ListenerType::TlsTerminate,
            TlsRouteAction::ReverseProxy { .. } => ListenerType::TlsTerminate,
            _ => ListenerType::TlsPassthrough,
        },
        ConnectionRoute::Reject(_) => ListenerType::TlsPassthrough,
    }
}

pub fn listener_type_of(route: &ConnectionRoute) -> (r: ListenerType)
    ensures
        r == accounted_as(*route),
{
    match route {
        ConnectionRoute::ControlPlane { .. } => ListenerType::TlsTerminate,
        ConnectionRoute::AcmeChallenge { .. } => ListenerType::TlsTerminate,
        ConnectionRoute::Ordinary { sni: _, action } => match action {
            TlsRouteAction::Terminate { .. } => ListenerType::TlsTerminate,
            TlsRouteAction::ReverseProxy { .. } => ListenerType::TlsTerminate,
            _ => ListenerType::TlsPassthrough,
        },
        ConnectionRoute::Reject(_) => ListenerType::TlsPassthrough,
    }
}

/// Takes in the ClientHello of a connection to the mandatory listener: shows
/// its server name, decides its route, and notes how it is accounted.
pub fn take_hello<'a, F: FnOnce(&str) -> bool>(
    tracker: &mut ActiveTracker,
    request_id: &RequestId,
    hello: &ClientHello,
    config: &'a DefaultListenerConfig,
    control_hostname: Option<&str>,
    challenge_is_active: F,
) -> (r: ConnectionRoute<'a>)
    requires
        old(tracker).wf(),
        forall|s: &str| #[trigger] call_requires(challenge_is_active, (s,)),
    ensures
        final(tracker).wf(),
        active_tracker::only_changes(old(tracker)@, final(tracker)@, Key::id(request_id)),
        old(tracker)@.dom().contains(Key::id(request_id)) ==> ({
            let before = old(tracker)@[Key::id(request_id)];
            let after = final(tracker)@[Key::id(request_id)];
            after.sni@ == hello.sni_host@ && after == (ActiveConnection {
                sni: after.sni,
                listener_type: Some(accounted_as(r)),
                ..before
            })
        }),
        match acme_challenge::normalized(hello.sni_host@) {
            None => r matches ConnectionRoute::Reject(reason) && reason == RejectReason::MissingSni,
            Some(d) => exists|active: bool|
                {
                    &&& #[trigger] decision_is(r, *config, d, active, is_control(control_hostname, d))
                    &&& offers_acme(hello.alpn_protocols@) ==> answers(challenge_is_active, d, active)
                    &&& !offers_acme(hello.alpn_protocols@) ==> !active
                },
        },
{
    active_tracker::set_sni(tracker, request_id, hello.sni_host.as_str());
    let route = decide(hello, config, control_hostname, challenge_is_active);
    active_tracker::set_listener_type(tracker, request_id, listener_type_of(&route));
    route
}

/// Notes that a connection came to a good end: one for the control plane or
/// for a challenge counts as served then. Every other one was counted when it
/// was connected.
pub fn note_served(tracker: &mut ActiveTracker, request_id: &RequestId, route: &ConnectionRoute)
    requires
        old(tracker).wf(),
    ensures
        final(tracker).wf(),
        active_tracker::only_changes(old(tracker)@, final(tracker)@, Key::id(request_id)),
        old(tracker)@.dom().contains(Key::id(request_id)) ==> final(tracker)@[Key::id(request_id)] == if *route is ControlPlane
            || *route is AcmeChallenge {
            ActiveConnection { status: ConnStatus::Success, ..old(tracker)@[Key::id(request_id)] }
        } else {
            old(tracker)@[Key::id(request_id)]
        },
{
    let here = match route {
        ConnectionRoute::ControlPlane { .. } => true,
        ConnectionRoute::AcmeChallenge { .. } => true,
        _ => false,
    };
    if here {
        active_tracker::set_status(tracker, request_id, ConnStatus::Success);
    }
}

/// What the dispatcher does with a connection that is not for the control
/// plane.
#[derive(Debug, Clone, Copy, PartialEq, Eq, Structural)]
pub enum Dispatch {
    /// Answer the challenge.
    ServeChallenge,
    /// The challenge expired before its TLS handshake.
    ChallengeExpired,
    /// The ClientHello was recently forwarded by this proxy.
    Loop,
    Passthrough,
    /// Complete the handshake here; upstream in TLS or not.
    Terminate { upstream_tls: bool },
    ReverseProxy,
    /// The route rejects the host.
    RouteRejected,
    /// The listener rejected the connection.
    Rejected(RejectReason),
    /// A control-plane connection does not belong here.
    Misrouted,
}

pub open spec fn dispatch_for(route: ConnectionRoute, challenge_pending: bool, looped: bool) -> Dispatch {
    match route {
        ConnectionRoute::AcmeChallenge { .. } => if challenge_pending {
            Dispatch::ServeChallenge
        } else {
            Dispatch::ChallengeExpired
        },
        ConnectionRoute::Ordinary { sni: _, action } => if looped {
            Dispatch::Loop
        } else {
            match action {
                TlsRouteAction::Passthrough { .. } => Dispatch::Passthrough,
                TlsRouteAction::Terminate { upstream, .. } => Dispatch::Terminate {
                    upstream_tls: *upstream == UpstreamTransport::Tls,
                },
                TlsRouteAction::ReverseProxy { .. } => Dispatch::ReverseProxy,
                TlsRouteAction::Reject => Dispatch::RouteRejected,
            }
        },
        ConnectionRoute::Reject(reason) => Dispatch::Rejected(reason),
        ConnectionRoute::ControlPlane { .. } => Dispatch::Misrouted,
    }
}

/// Decides every non-control branch. Control-plane connections deliberately
/// remain the responsibility of the admin service so this module cannot
/// accidentally proxy the reserved hostname. A looped ClientHello is refused
/// whatever kind of route it re-enters.
pub fn dispatch_non_control(route: &ConnectionRoute, challenge_pending: bool, looped: bool) -> (r: Dispatch)
    ensures
        r == dispatch_for(*route, challenge_pending, looped),
{
    match route {
        ConnectionRoute::AcmeChallenge { .. } => if challenge_pending {
            Dispatch::ServeChallenge
        } else {
            Dispatch::ChallengeExpired
        },
        ConnectionRoute::Ordinary { sni: _, action } => {
            if looped {
                return Dispatch::Loop;
            }
            match action {
                TlsRouteAction::Passthrough { .. } => Dispatch::Passthrough,
                TlsRouteAction::Terminate { upstream, .. } => Dispatch::Terminate {
                    upstream_tls: *upstream == UpstreamTransport::Tls,
                },
                TlsRouteAction::ReverseProxy { .. } => Dispatch::ReverseProxy,
                TlsRouteAction::Reject => Dispatch::RouteRejected,
            }
        },
        ConnectionRoute::Reject(reason) => Dispatch::Rejected(*reason),
        ConnectionRoute::ControlPlane { .. } => Dispatch::Misrouted,
    }
}

/// No looped connection is forwarded upstream.
pub proof fn loops_are_never_forwarded(route: ConnectionRoute, challenge_pending: bool)
    ensures
        ({
            let d = dispatch_for(route, challenge_pending, true);
            !(d is Passthrough) && !(d is Terminate) && !(d is ReverseProxy)
        }),
{
}

/// The control hostname that applies: the live one, or the configured one
/// where no live one is set.
pub fn effective_control_hostname<'a>(live: &'a str, configured: Option<&'a str>) -> (r: Option<&'a str>)
    ensures
        live@.len() > 0 ==> (r matches Some(h) && h@ == live@),
        live@.len() == 0 ==> r == configured,
{
    if live.is_empty() {
        configured
    } else {
        Some(live)
    }
}

/// A connection that is not looped is forwarded as its route says, a pending
/// challenge is served, and what has no route is refused for that reason.
pub proof fn every_route_is_carried_out(route: ConnectionRoute, challenge_pending: bool)
    ensures
        ({
            let d = dispatch_for(route, challenge_pending, false);
            &&& route is AcmeChallenge && challenge_pending ==> d is ServeChallenge
            &&& route is AcmeChallenge && !challenge_pending ==> d is ChallengeExpired
            &&& route matches ConnectionRoute::Reject(reason) ==> d == Dispatch::Rejected(reason)
            &&& route matches ConnectionRoute::Ordinary { action, .. } ==> {
                &&& *action is Passthrough ==> d is Passthrough
                &&& *action is ReverseProxy ==> d is ReverseProxy
                &&& *action is Reject ==> d is RouteRejected
                &&& *action matches TlsRouteAction::Terminate { upstream, .. } ==> d == (Dispatch::Terminate {
                    upstream_tls: upstream == UpstreamTransport::Tls,
                })
            }
        }),
{
}

/// Who asks for a domain gets its challenge while that is active, else the
/// control plane if it is the control host, else the first route that is for
/// it. Only a domain that no route is for is refused.
pub proof fn a_routed_domain_is_never_refused(
    r: ConnectionRoute,
    config: DefaultListenerConfig,
    domain: Seq<char>,
    acme_active: bool,
    control: bool,
    k: int,
)
    requires
        decision_is(r, config, domain, acme_active, control),
    ensures
        acme_active ==> (r matches ConnectionRoute::AcmeChallenge { domain: d } && d@ == domain),
        !acme_active && control ==> (r matches ConnectionRoute::ControlPlane { hostname } && hostname@ == domain),
        !acme_active && !control && 0 <= k < config.ordinary_traffic.routes@.len()
            && config.ordinary_traffic.routes@[k].matcher.selects(domain) && (forall|i: int|
            0 <= i < k ==> !(#[trigger] config.ordinary_traffic.routes@[i]).matcher.selects(domain)) ==> (
        r matches ConnectionRoute::Ordinary { sni, action } && sni@ == domain && *action
            == config.ordinary_traffic.routes@[k].action),
        r is Reject ==> !acme_active && !control && forall|i: int|
            0 <= i < config.ordinary_traffic.routes@.len() ==> !(
            #[trigger] config.ordinary_traffic.routes@[i]).matcher.selects(domain),
{
    let t = config.ordinary_traffic;
    if !acme_active && !control && 0 <= k < t.routes@.len() && t.routes@[k].matcher.selects(domain) {
        assert(t.routes_host(domain));
        if forall|i: int| 0 <= i < k ==> !(#[trigger] t.routes@[i]).matcher.selects(domain) {
            let j = choose|j: int| #[trigger]
                t.first_route(domain, j) && r is Ordinary && *(r->action) == t.routes@[j].action;
            assert(j == k) by {
                if j < k {
                    assert(!t.routes@[j].matcher.selects(domain));
                }
                if k < j {
                    assert(!t.routes@[k].matcher.selects(domain));
                }
            }
        }
    }
}

/// The same holds where only a yes or no is asked of the routes.
pub proof fn an_allowed_domain_is_proxied(r: DefaultRoute, domain: Seq<char>, acme_active: bool, control: bool, allowed: bool)
    requires
        route_is(r, domain, acme_active, control, allowed),
    ensures
        acme_active ==> (r matches DefaultRoute::AcmeChallenge { domain: d } && d@ == domain),
        !acme_active && control ==> (r matches DefaultRoute::ControlPlane { hostname } && hostname@ == domain),
        !acme_active && !control && allowed ==> (r matches DefaultRoute::Proxy { sni } && sni@ == domain),
        !acme_active && !control && !allowed ==> r == DefaultRoute::Reject(RejectReason::PolicyDenied),
{
}

/// A connection is accounted as terminated exactly if this proxy decrypts it.
pub proof fn decrypted_connections_are_accounted_as_terminated(route: ConnectionRoute)
    ensures
        accounted_as(route) == ListenerType::TlsTerminate <==> (route is ControlPlane || route is AcmeChallenge || (
        route matches ConnectionRoute::Ordinary { action, .. } && (*action is Terminate || *action is ReverseProxy))),
        accounted_as(route) == ListenerType::TlsTerminate || accounted_as(route) == ListenerType::TlsPassthrough,
{
}

/// A challenge that is pending is answered, even to a hello that this proxy sent
/// itself; an ordinary route is refused exactly if it leads back here.
pub proof fn a_loop_ends_ordinary_routes_alone(route: ConnectionRoute, pending: bool, looped: bool)
    ensures
        route is AcmeChallenge ==> (dispatch_for(route, pending, looped) == Dispatch::ServeChallenge <==> pending),
        route is AcmeChallenge ==> (dispatch_for(route, pending, looped) == Dispatch::ChallengeExpired <==> !pending),
        dispatch_for(route, pending, looped) == Dispatch::Loop <==> route is Ordinary && looped,
        route matches ConnectionRoute::Reject(reason) ==> dispatch_for(route, pending, looped) == Dispatch::Rejected(
            reason,
        ),
{
}

} // verus!
