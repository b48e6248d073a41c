//! A connection to the mandatory listener, from its ClientHello to what serves
//! it.
use vstd::prelude::*;
use crate::accounting::{ConnStatus, ListenerType};
use crate::acme_challenge;
use crate::acme_challenge::{ChallengeEntry, ChallengeRegistry};
use crate::active_tracker;
use crate::active_tracker::{ActiveConnection, ActiveTracker};
use crate::bytes;
use crate::dataplane::flow;
use crate::dataplane::policy;
use crate::dataplane::policy::RelayPolicy;
use crate::dataplane::session::Session;
use crate::dataplane::tls::terminate;
use crate::dataplane::tls::terminate::TerminateRoute;
use crate::hello_cache;
use crate::hello_cache::Cache;
use crate::listener::RejectReason;
use crate::listener::default::ConnectionRoute;
use crate::managed_tls;
use crate::managed_tls::{CertificateFallbackPolicy, CertificateSource, ManagedCertificateCache};
use crate::relay::SocketAddr;
use crate::request_id::RequestId;
use crate::runtime_config::{DefaultListenerConfig, HttpRouteAction, TlsRouteAction, UpstreamTransport};
use crate::table::Key;
use crate::text;
use crate::tls_header::ClientHello;

verus! {

/// Why a connection is closed.
#[derive(Debug, Clone, Copy, PartialEq, Eq, Structural)]
pub enum Refusal {
    /// The challenge expired before its TLS handshake.
    ChallengeExpired,
    /// The ClientHello was recently forwarded by this proxy.
    Looped,
    /// There is no certificate for the server name.
    NoCertificate,
    /// The route rejects the host.
    RouteRejected,
    /// The listener rejects the connection.
    Rejected(RejectReason),
}

/// What serves a connection.
pub enum Service<'a> {
    /// The control plane.
    Control { hostname: String },
    /// The pending challenge of a domain.
    Challenge { domain: String },
    /// A relay of the TLS stream as it is.
    Passthrough { policy: RelayPolicy, session: Session, action: &'a TlsRouteAction },
    /// A relay of the decrypted stream.
    Terminate { policy: RelayPolicy, certificate: CertificateSource, session: Session, action: &'a TlsRouteAction },
    /// The reverse proxy.
    ReverseProxy { policy: RelayPolicy, certificate: CertificateSource, backends: &'a HttpRouteAction },
    Close(Refusal),
}

/// What a connection to the listener is served from.
pub struct Certificates<'a> {
    pub cache: &'a ManagedCertificateCache,
    pub fallback: CertificateFallbackPolicy,
}

/// Whether the challenge of a domain is pending.
pub open spec fn is_pending<C>(m: Map<Seq<char>, ChallengeEntry<C>>, domain: Seq<char>, now: u64) -> bool {
    match acme_challenge::normalized(domain) {
        Some(d) => m.dom().contains(d) && m[d].expires_at > now,
        None => false,
    }
}

/// The challenges after one was looked for: it is dropped if it has expired.
pub open spec fn looked_up<C>(m: Map<Seq<char>, ChallengeEntry<C>>, domain: Seq<char>, now: u64) -> Map<
    Seq<char>,
    ChallengeEntry<C>,
> {
    match acme_challenge::normalized(domain) {
        Some(d) => if m.dom().contains(d) && m[d].expires_at <= now {
            m.remove(d)
        } else {
            m
        },
        None => m,
    }
}

/// Whether a policy is that of an action on a listener.
pub open spec fn policy_is(p: RelayPolicy, config: DefaultListenerConfig, action: TlsRouteAction) -> bool {
    &&& p.bind@ == config.bind@
    &&& p.target is None
    &&& p.target_port == policy::action_port(action)
    &&& p.upstream_tls == policy::action_is_tls(action)
}

/// Whether a session begins with nothing done.
pub open spec fn begins(s: Session, request_id: RequestId, bind: Option<SocketAddr>) -> bool {
    s.wf() && s.at == 0 && !s.waiting && s.closed is None && s.request_id == request_id && s.bind == bind
}

/// Whether a service is that of a route on the listener.
pub open spec fn service_is(
    r: Service<'_>,
    config: DefaultListenerConfig,
    action: TlsRouteAction,
    hello: ClientHello,
    certificates: Certificates<'_>,
    looped: bool,
    request_id: RequestId,
    bind: Option<SocketAddr>,
) -> bool {
    let source = managed_tls::source_for(*certificates.cache, hello.sni_host@, certificates.fallback);
    if looped {
        r == Service::Close(Refusal::Looped)
    } else {
        match action {
            TlsRouteAction::Passthrough { .. } => r matches Service::Passthrough { policy, session, action: a } && {
                &&& policy_is(policy, config, action)
                &&& begins(session, request_id, bind)
                &&& session.plan@ == flow::passthrough_steps(true, true)
                &&& session.host is Some && (session.host->0)@ == hello.sni_host@
                &&& session.random@ == hello.random@
                &&& session.head_len == hello.buffered@.len()
                &&& *a == action
            },
            TlsRouteAction::Terminate { upstream, .. } => if source is Refused {
                r == Service::Close(Refusal::NoCertificate)
            } else {
                r matches Service::Terminate { policy, certificate, session, action: a } && {
                    &&& policy_is(policy, config, action)
                    &&& managed_tls::is_source(certificate, source)
                    &&& begins(session, request_id, bind)
                    &&& session.plan@ == flow::terminate_steps(true, true, upstream == UpstreamTransport::Tls)
                    &&& session.expected is Some && (session.expected->0)@ == hello.sni_host@
                    &&& *a == action
                }
            },
            TlsRouteAction::ReverseProxy { action: inner } => if source is Refused {
                r == Service::Close(Refusal::NoCertificate)
            } else {
                r matches Service::ReverseProxy { policy, certificate, backends: a } && policy_is(policy, config, action)
                    && managed_tls::is_source(certificate, source) && *a == inner
            },
            TlsRouteAction::Reject => r == Service::Close(Refusal::RouteRejected),
        }
    }
}

/// Whether a service is the one for a server name: a pending challenge first,
/// then the control host, then the ordinary routes.
pub open spec fn served_by(
    r: Service<'_>,
    config: DefaultListenerConfig,
    hello: ClientHello,
    certificates: Certificates<'_>,
    domain: Seq<char>,
    active: bool,
    pending: bool,
    control: bool,
    looped: bool,
    request_id: RequestId,
    bind: Option<SocketAddr>,
) -> bool {
    if active {
        if pending {
            r matches Service::Challenge { domain: d } && d@ == domain
        } else {
            r == Service::Close(Refusal::ChallengeExpired)
        }
    } else if control {
        r matches Service::Control { hostname } && hostname@ == domain
    } else if config.ordinary_traffic.routes_host(domain) {
        exists|k: int| #[trigger]
            config.ordinary_traffic.first_route(domain, k) && service_is(
                r,
                config,
                config.ordinary_traffic.routes@[k].action,
                hello,
                certificates,
                looped,
                request_id,
                bind,
            )
    } else {
        r == Service::Close(Refusal::Rejected(RejectReason::PolicyDenied))
    }
}

/// How a connection with a service is accounted; one that is closed goes by the
/// route that it was closed on.
pub open spec fn accounted_for(r: Service<'_>) -> Option<ListenerType> {
    match r {
        Service::Control { .. } => Some(ListenerType::TlsTerminate),
        Service::Challenge { .. } => Some(ListenerType::TlsTerminate),
        Service::Passthrough { .. } => Some(ListenerType::TlsPassthrough),
        Service::Terminate { .. } => Some(ListenerType::TlsTerminate),
        Service::ReverseProxy { .. } => Some(ListenerType::TlsTerminate),
        Service::Close(_) => None,
    }
}

/// Decides what serves a connection to the mandatory listener once its
/// ClientHello is known. `later` is the time at which a challenge is looked for
/// again, to answer it.
pub fn handle_connection<'a, C>(
    tracker: &mut ActiveTracker,
    hellos: &mut Cache,
    registry: &mut ChallengeRegistry<C>,
    request_id: &RequestId,
    hello: &ClientHello,
    config: &'a DefaultListenerConfig,
    control_hostname: Option<&str>,
    certificates: &Certificates<'_>,
    bind: Option<SocketAddr>,
    now: u64,
    later: u64,
) -> (r: Service<'a>)
    requires
        old(tracker).wf(),
        old(hellos).wf(),
        old(registry).wf(),
        certificates.cache.wf(),
    ensures
        final(tracker).wf(),
        final(hellos).wf(),
        final(registry).wf(),
        active_tracker::only_changes(old(tracker)@, final(tracker)@, Key::id(request_id)),
        old(tracker)@.dom().contains(Key::id(request_id)) ==> ({
            let before = old(tracker)@[Key::id(request_id)];
            let after = final(tracker)@[Key::id(request_id)];
            &&& after.sni@ == hello.sni_host@
            &&& after == (ActiveConnection { sni: after.sni, listener_type: after.listener_type, ..before })
            &&& after.listener_type is Some
            &&& accounted_for(r) is Some ==> after.listener_type == accounted_for(r)
        }),
        match acme_challenge::normalized(hello.sni_host@) {
            None => r == Service::Close(Refusal::Rejected(RejectReason::MissingSni)) && *final(hellos) == *old(hellos)
                && final(registry)@ == old(registry)@,
            Some(d) => {
                let offers = crate::listener::default::offers_acme(hello.alpn_protocols@);
                let active = offers && is_pending(old(registry)@, d, now);
                let searched = if offers {
                    looked_up(old(registry)@, d, now)
                } else {
                    old(registry)@
                };
                let control = crate::listener::default::is_control(control_hostname, d);
                let looped = old(hellos).by_key@.dom().contains(hello.random@) && old(hellos).by_key@[hello.random@] > now;
                &&& served_by(
                    r,
                    *config,
                    *hello,
                    *certificates,
                    d,
                    active,
                    is_pending(searched, d, later),
                    control,
                    looped,
                    *request_id,
                    bind,
                )
                &&& final(registry)@ == if active {
                    looked_up(searched, d, later)
                } else {
                    searched
                }
                &&& if !active && !control && config.ordinary_traffic.routes_host(d) {
                    final(hellos).by_key@ == old(hellos).by_key@.remove(hello.random@) && hello_cache::nodes(
                        final(hellos).by_insertion@,
                    ) == hello_cache::nodes(old(hellos).by_insertion@)
                } else {
                    *final(hellos) == *old(hellos)
                }
            },
        },
{
    let mut active = false;
    if crate::listener::default::offers_acme_protocol(hello.alpn_protocols.as_slice()) {
        if let Ok(d) = acme_challenge::normalize_domain(hello.sni_host.as_str()) {
            active = registry.resolve(d.as_str(), now);
        }
    }
    let ghost searched = registry@;
    let answer = |domain: &str| -> (b: bool)
        ensures
            b == active,
        { active };
    let route = crate::listener::default::take_hello(tracker, request_id, hello, config, control_hostname, answer);
    match route {
        ConnectionRoute::Reject(reason) => Service::Close(Refusal::Rejected(reason)),
        ConnectionRoute::ControlPlane { hostname } => Service::Control { hostname },
        ConnectionRoute::AcmeChallenge { domain } => {
            if registry.resolve(domain.as_str(), later) {
                Service::Challenge { domain }
            } else {
                Service::Close(Refusal::ChallengeExpired)
            }
        },
        ConnectionRoute::Ordinary { sni: _, action } => {
            let random = bytes::copy_of(hello.random.as_slice());
            if hello_cache::is_looped(hellos, &random, now) {
                return Service::Close(Refusal::Looped);
            }
            let policy = RelayPolicy::for_tls_route(config, action);
            match action {
                TlsRouteAction::Passthrough { .. } => {
                    let session = Session::new(
                        flow::passthrough_plan(true, true),
                        request_id.copy(),
                        None,
                        Some(hello.sni_host.clone()),
                        random,
                        hello.buffered.len() as u64,
                        bind,
                    );
                    Service::Passthrough { policy, session, action }
                },
                TlsRouteAction::Terminate { target_port, target, upstream, .. } => {
                    let certificate = certificates.cache.resolve_with_fallback(
                        hello.sni_host.as_str(),
                        certificates.fallback,
                    );
                    if let CertificateSource::Refused = certificate {
                        return Service::Close(Refusal::NoCertificate);
                    }
                    let route = Some(
                        TerminateRoute {
                            expected_sni: hello.sni_host.clone(),
                            target: target.clone(),
                            target_port: *target_port,
                            upstream_tls: *upstream == UpstreamTransport::Tls,
                        },
                    );
                    let session = terminate::run_stream(request_id.copy(), &route, false, true, bind);
                    Service::Terminate { policy, certificate, session, action }
                },
                TlsRouteAction::ReverseProxy { action: inner } => {
                    let certificate = certificates.cache.resolve_with_fallback(
                        hello.sni_host.as_str(),
                        certificates.fallback,
                    );
                    if let CertificateSource::Refused = certificate {
                        return Service::Close(Refusal::NoCertificate);
                    }
                    Service::ReverseProxy { policy, certificate, backends: inner }
                },
                TlsRouteAction::Reject => Service::Close(Refusal::RouteRejected),
            }
        },
    }
}

/// Why the control plane does not serve a connection.
#[derive(Debug, Clone, Copy, PartialEq, Eq, Structural)]
pub enum ControlRefusal {
    /// The server name is not the one that the connection was classified by.
    ServerNameChanged,
    /// There is no certificate for the control host.
    NoCertificate,
}

/// What the control plane offers in its handshake: HTTP/2, then HTTP/1.1.
pub open spec fn control_protocols() -> Seq<Seq<u8>> {
    seq![
        seq![104u8, 50u8],
        seq![104u8, 116u8, 116u8, 112u8, 47u8, 49u8, 46u8, 49u8],
    ]
}

/// The certificate and the protocols with which the control plane takes over a
/// connection to its host.
pub fn serve_control(hostname: &str, hello: &ClientHello, certificates: &Certificates<'_>) -> (r: Result<
    (CertificateSource, Vec<Vec<u8>>),
    ControlRefusal,
>)
    requires
        certificates.cache.wf(),
    ensures
        ({
            let source = managed_tls::source_for(*certificates.cache, hostname@, certificates.fallback);
            if hello.sni_host@ != hostname@ {
                r matches Err(e) && e == ControlRefusal::ServerNameChanged
            } else if source is Refused {
                r matches Err(e) && e == ControlRefusal::NoCertificate
            } else {
                r matches Ok((certificate, protocols)) && managed_tls::is_source(certificate, source)
                    && bytes::views(protocols@) == control_protocols()
            }
        }),
{
    if !text::str_eq(hello.sni_host.as_str(), hostname) {
        return Err(ControlRefusal::ServerNameChanged);
    }
    let certificate = certificates.cache.resolve_with_fallback(hostname, certificates.fallback);
    if let CertificateSource::Refused = certificate {
        return Err(ControlRefusal::NoCertificate);
    }
    let protocols = vec![vec![104u8, 50u8], vec![104u8, 116u8, 116u8, 112u8, 47u8, 49u8, 46u8, 49u8]];
    proof {
        let p = bytes::views(protocols@);
        assert(p[0] =~= control_protocols()[0]);
        assert(p[1] =~= control_protocols()[1]);
        assert(p =~= control_protocols());
    }
    Ok((certificate, protocols))
}

/// Notes that a service came to a good end: the control plane and a challenge
/// count as served then. Every other connection was counted when it was
/// connected.
pub fn note_end(tracker: &mut ActiveTracker, request_id: &RequestId, service: &Service<'_>)
    requires
        old(tracker).wf(),
    ensures
        final(tracker).wf(),
        active_tracker::only_changes(old(tracker)@, final(tracker)@, Key::id(request_id)),
        old(tracker)@.dom().contains(Key::id(request_id)) ==> final(tracker)@[Key::id(request_id)] == if service is Control
            || service is Challenge {
            ActiveConnection { status: ConnStatus::Success, ..old(tracker)@[Key::id(request_id)] }
        } else {
            old(tracker)@[Key::id(request_id)]
        },
{
    let here = match service {
        Service::Control { .. } => true,
        Service::Challenge { .. } => true,
        _ => false,
    };
    if here {
        active_tracker::set_status(tracker, request_id, ConnStatus::Success);
    }
}

/// Whether a service reaches an upstream.
pub open spec fn has_upstream(r: Service<'_>) -> bool {
    r is Passthrough || r is Terminate || r is ReverseProxy
}

/// Neither the control host nor a looped ClientHello ever reaches an upstream,
/// whatever the routes say.
pub proof fn reserved_and_looped_connections_have_no_upstream(
    r: Service<'_>,
    config: DefaultListenerConfig,
    hello: ClientHello,
    certificates: Certificates<'_>,
    domain: Seq<char>,
    active: bool,
    pending: bool,
    control: bool,
    looped: bool,
    request_id: RequestId,
    bind: Option<SocketAddr>,
)
    requires
        served_by(r, config, hello, certificates, domain, active, pending, control, looped, request_id, bind),
        control || looped || active,
    ensures
        !has_upstream(r),
{
}

/// A connection is decrypted only with a certificate for its server name, and
/// without the local authority only with a managed one.
pub proof fn decryption_needs_a_certificate(
    r: Service<'_>,
    config: DefaultListenerConfig,
    action: TlsRouteAction,
    hello: ClientHello,
    certificates: Certificates<'_>,
    looped: bool,
    request_id: RequestId,
    bind: Option<SocketAddr>,
)
    requires
        service_is(r, config, action, hello, certificates, looped, request_id, bind),
        r is Terminate || r is ReverseProxy,
        certificates.fallback is Reject,
    ensures
        acme_challenge::normalized(hello.sni_host@) is Some,
        certificates.cache@.dom().contains(acme_challenge::normalized(hello.sni_host@)->0),
{
}

/// A challenge is served while its time is not up, and dropped once it is; no
/// other challenge is touched by looking for it.
pub proof fn a_challenge_is_served_until_its_time_is_up<C>(
    m: Map<Seq<char>, ChallengeEntry<C>>,
    domain: Seq<char>,
    d: Seq<char>,
    other: Seq<char>,
    now: u64,
)
    requires
        acme_challenge::normalized(domain) == Some(d),
    ensures
        is_pending(m, domain, now) <==> m.dom().contains(d) && now < m[d].expires_at,
        is_pending(m, domain, now) ==> looked_up(m, domain, now) == m,
        m.dom().contains(d) && now >= m[d].expires_at ==> !looked_up(m, domain, now).dom().contains(d),
        other != d && m.dom().contains(other) ==> looked_up(m, domain, now).dom().contains(other) && looked_up(
            m,
            domain,
            now,
        )[other] == m[other],
{
}

/// A connection with a route is served as the route says, unless it is looped
/// or has to be decrypted without a certificate.
pub proof fn a_routed_connection_is_served(
    r: Service<'_>,
    config: DefaultListenerConfig,
    action: TlsRouteAction,
    hello: ClientHello,
    certificates: Certificates<'_>,
    request_id: RequestId,
    bind: Option<SocketAddr>,
)
    requires
        service_is(r, config, action, hello, certificates, false, request_id, bind),
    ensures
        action is Passthrough ==> (r matches Service::Passthrough { action: a, session, .. } && *a == action
            && session.host is Some && (session.host->0)@ == hello.sni_host@),
        action is Terminate && !(managed_tls::source_for(*certificates.cache, hello.sni_host@, certificates.fallback) is Refused)
            ==> (r matches Service::Terminate { action: a, .. } && *a == action),
        action is ReverseProxy && !(managed_tls::source_for(
            *certificates.cache,
            hello.sni_host@,
            certificates.fallback,
        ) is Refused) ==> r is ReverseProxy,
        action is Reject ==> r == Service::Close(Refusal::RouteRejected),
        certificates.fallback is LocalCa ==> r != Service::Close(Refusal::NoCertificate),
{
}

/// What has no route is refused; what has one reaches it unless it is the
/// control host or a challenge.
pub proof fn only_an_unrouted_domain_is_denied(
    r: Service<'_>,
    config: DefaultListenerConfig,
    hello: ClientHello,
    certificates: Certificates<'_>,
    domain: Seq<char>,
    active: bool,
    pending: bool,
    control: bool,
    looped: bool,
    request_id: RequestId,
    bind: Option<SocketAddr>,
    k: int,
)
    requires
        served_by(r, config, hello, certificates, domain, active, pending, control, looped, request_id, bind),
    ensures
        active && pending ==> (r matches Service::Challenge { domain: d } && d@ == domain),
        active && !pending ==> r == Service::Close(Refusal::ChallengeExpired),
        !active && control ==> (r matches Service::Control { hostname } && hostname@ == domain),
        !active && !control && config.ordinary_traffic.first_route(domain, k) ==> service_is(
            r,
            config,
            config.ordinary_traffic.routes@[k].action,
            hello,
            certificates,
            looped,
            request_id,
            bind,
        ),
        !active && !control && (forall|i: int|
            0 <= i < config.ordinary_traffic.routes@.len() ==> !(
            #[trigger] config.ordinary_traffic.routes@[i]).matcher.selects(domain)) ==> r == Service::Close(
            Refusal::Rejected(RejectReason::PolicyDenied),
        ),
{
    let t = config.ordinary_traffic;
    if !active && !control && t.first_route(domain, k) {
        assert(t.routes_host(domain));
        let j = choose|j: int| #[trigger]
            t.first_route(domain, j) && service_is(
                r,
                config,
                t.routes@[j].action,
                hello,
                certificates,
                looped,
                request_id,
                bind,
            );
        assert(j == k) by {
            if j < k {
                assert(!t.routes@[j].matcher.selects(domain));
            }
            if k < j {
                assert(!t.routes@[k].matcher.selects(domain));
            }
        }
    }
}

/// The control plane and a challenge count as served when they came to a good
/// end, and no other service does.
pub proof fn a_service_of_its_own_counts_at_its_end(tracker: &mut ActiveTracker, id: RequestId, service: Service<'_>)
    requires
        call_ensures(note_end, (tracker, &id, &service), ()),
        old(tracker)@.dom().contains(Key::id(&id)),
    ensures
        service is Control || service is Challenge ==> final(tracker)@[Key::id(&id)].status == ConnStatus::Success,
        !(service is Control) && !(service is Challenge) ==> final(tracker)@[Key::id(&id)] == old(tracker)@[Key::id(&id)],
{
}

/// The control plane serves its own host with whatever certificate there is for
/// it.
pub proof fn the_control_plane_serves_its_host(
    hostname: &str,
    hello: ClientHello,
    certificates: Certificates<'_>,
    r: Result<(CertificateSource, Vec<Vec<u8>>), ControlRefusal>,
)
    requires
        call_ensures(serve_control, (hostname, &hello, &certificates), r),
    ensures
        ({
            let source = managed_tls::source_for(*certificates.cache, hostname@, certificates.fallback);
            &&& r is Ok <==> hello.sni_host@ == hostname@ && !(source is Refused)
            &&& hello.sni_host@ != hostname@ ==> r == Err::<(CertificateSource, Vec<Vec<u8>>), ControlRefusal>(
                ControlRefusal::ServerNameChanged,
            )
        }),
{
}

/// A connection that is decrypted here is accounted as terminated, one that is
/// passed on as passed through.
pub proof fn a_service_is_accounted_for_what_it_does(service: Service<'_>)
    ensures
        service is Control || service is Challenge || service is Terminate || service is ReverseProxy ==> accounted_for(
            service,
        ) == Some(ListenerType::TlsTerminate),
        service is Passthrough ==> accounted_for(service) == Some(ListenerType::TlsPassthrough),
        service is Close ==> accounted_for(service) is None,
{
}

} // verus!
