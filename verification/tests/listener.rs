use tlsproxy::acme_challenge::{tls_alpn_protocol, ChallengeRegistry};
use tlsproxy::accounting::{ConnStatus, ListenerType};
use tlsproxy::active_tracker::{put, remove, ActiveTracker};
use tlsproxy::acme_types::ManagedCertificate;
use tlsproxy::hello_cache::{insert, Cache};
use tlsproxy::listener::connection::{
    handle_connection, note_end, serve_control, Certificates, ControlRefusal, Refusal, Service,
};
use tlsproxy::listener::default::{
    classify, decide, dispatch_non_control, effective_control_hostname, listener_type_of, note_served,
    offers_acme_protocol, take_hello, ConnectionRoute, Dispatch,
};
use tlsproxy::listener::{DefaultRoute, RejectReason};
use tlsproxy::managed_tls::{
    CertificateFallbackPolicy, CertificateSource, LoadedCertificate, ManagedCertificateCache,
};
use tlsproxy::request_id::RequestId;
use tlsproxy::runtime_config::{
    DefaultListenerConfig, HostMatcher, HttpLoadBalancing, OrdinaryTlsConfig, TlsHostRoute, TlsRouteAction,
    UpstreamTransport,
};
use tlsproxy::tls_header::ClientHello;

fn acme() -> Vec<Vec<u8>> {
    vec![tls_alpn_protocol()]
}

#[test]
fn control_host_short_circuits_acl() {
    assert_eq!(
        classify(Some("TLS.Example."), &[], Some("tls.example"), |_: &str| false, |_: &str| false),
        DefaultRoute::ControlPlane { hostname: "tls.example".into() }
    );
}

#[test]
fn unmatched_acme_follows_ordinary_sni_route() {
    assert_eq!(
        classify(Some("site.example"), &acme(), Some("tls.example"), |_: &str| false, |_: &str| true),
        DefaultRoute::Proxy { sni: "site.example".into() }
    );
}

#[test]
fn unmatched_acme_is_rejected_without_an_ordinary_route() {
    assert_eq!(
        classify(Some("site.example"), &acme(), Some("tls.example"), |_: &str| false, |_: &str| false),
        DefaultRoute::Reject(RejectReason::PolicyDenied)
    );
}

#[test]
fn active_acme_bypasses_ordinary_acl() {
    assert_eq!(
        classify(Some("site.example"), &acme(), Some("tls.example"), |_: &str| true, |_: &str| false),
        DefaultRoute::AcmeChallenge { domain: "site.example".into() }
    );
}

#[test]
fn a_connection_without_a_server_name_is_rejected() {
    assert_eq!(
        classify(None, &acme(), Some("tls.example"), |_: &str| true, |_: &str| true),
        DefaultRoute::Reject(RejectReason::MissingSni)
    );
    assert!(offers_acme_protocol(&acme()));
    assert!(!offers_acme_protocol(&[b"h2".to_vec()]));
}

fn route(name: &str, host: &str, action: TlsRouteAction) -> TlsHostRoute {
    TlsHostRoute {
        name: name.into(),
        matcher: HostMatcher { exact: vec![host.into()], ..Default::default() },
        action,
    }
}

fn passthrough(target: &str) -> TlsRouteAction {
    TlsRouteAction::Passthrough {
        target_port: 443,
        target: Some(target.into()),
        load_balancing: HttpLoadBalancing::RoundRobin,
    }
}

#[test]
fn unmatched_acme_selects_configured_passthrough_action() {
    let mut config = DefaultListenerConfig::default();
    config.ordinary_traffic.routes.push(route("downstream-acme", "site.example", passthrough("downstream.example")));
    let hello = ClientHello {
        sni_host: "site.example".into(),
        alpn_protocols: acme(),
        random: [0; 32],
        buffered: vec![1, 2, 3],
    };
    assert!(matches!(
        decide(&hello, &config, Some("tls.example"), |_: &str| false),
        ConnectionRoute::Ordinary { action: TlsRouteAction::Passthrough { target_port: 443, .. }, .. }
    ));
}

#[test]
fn complete_decision_returns_the_configured_per_host_action() {
    let config = DefaultListenerConfig {
        bind: "0.0.0.0:443".into(),
        ordinary_traffic: OrdinaryTlsConfig {
            routes: vec![route(
                "application",
                "app.example",
                TlsRouteAction::Terminate {
                    target_port: 8080,
                    target: Some("backend.internal".into()),
                    upstream: UpstreamTransport::Plaintext,
                    load_balancing: HttpLoadBalancing::RoundRobin,
                },
            )],
            ..Default::default()
        },
    };
    let hello = ClientHello {
        sni_host: "APP.EXAMPLE".into(),
        alpn_protocols: vec![b"h2".to_vec()],
        random: [0; 32],
        buffered: Vec::new(),
    };
    assert!(matches!(
        decide(&hello, &config, Some("tls.example"), |_: &str| false),
        ConnectionRoute::Ordinary {
            action: TlsRouteAction::Terminate { target_port: 8080, upstream: UpstreamTransport::Plaintext, .. },
            ..
        }
    ));
}

#[test]
fn complete_decision_never_uses_control_host_route_table_entry() {
    let mut config = DefaultListenerConfig::default();
    config.ordinary_traffic.routes.push(route("must-not-proxy", "tls.example", passthrough("upstream.example")));
    let hello = ClientHello {
        sni_host: "tls.example".into(),
        alpn_protocols: Vec::new(),
        random: [0; 32],
        buffered: Vec::new(),
    };
    assert!(matches!(
        decide(&hello, &config, Some("tls.example"), |_: &str| false),
        ConnectionRoute::ControlPlane { .. }
    ));
}

#[test]
fn routes_are_dispatched_and_loops_are_not_forwarded() {
    let action = passthrough("x");
    let ordinary = ConnectionRoute::Ordinary { sni: "a.example".into(), action: &action };
    assert!(matches!(dispatch_non_control(&ordinary, false, false), Dispatch::Passthrough));
    assert!(matches!(dispatch_non_control(&ordinary, false, true), Dispatch::Loop));
    let challenge = ConnectionRoute::AcmeChallenge { domain: "a.example".into() };
    assert!(matches!(dispatch_non_control(&challenge, true, false), Dispatch::ServeChallenge));
    assert!(matches!(dispatch_non_control(&challenge, false, false), Dispatch::ChallengeExpired));
    let rejected = ConnectionRoute::Reject(RejectReason::MissingSni);
    assert!(matches!(dispatch_non_control(&rejected, false, false), Dispatch::Rejected(RejectReason::MissingSni)));
    assert_eq!(listener_type_of(&ordinary), ListenerType::TlsPassthrough);
    assert_eq!(effective_control_hostname("", Some("configured.example")), Some("configured.example"));
    assert_eq!(effective_control_hostname("live.example", Some("configured.example")), Some("live.example"));
}

#[test]
fn the_listener_notes_what_it_serves_itself() {
    let mut counter = 0;
    let id = RequestId::new(&mut counter);
    let mut tracker = ActiveTracker::new();
    let mut config = DefaultListenerConfig::default();
    config.ordinary_traffic.routes.push(route("r", "a.example", passthrough("x")));
    for (host, status, kind) in [
        ("tls.example", ConnStatus::Success, ListenerType::TlsTerminate),
        ("a.example", ConnStatus::ConnectFailed, ListenerType::TlsPassthrough),
    ] {
        put(&mut tracker, &id, "default", "1.2.3.4:5", 0, 0);
        let hello = ClientHello { sni_host: host.into(), alpn_protocols: Vec::new(), random: [0; 32], buffered: Vec::new() };
        let taken = take_hello(&mut tracker, &id, &hello, &config, Some("tls.example"), |_: &str| false);
        note_served(&mut tracker, &id, &taken);
        let (closed, _) = remove(&mut tracker, &id).unwrap();
        assert_eq!((closed.sni.as_str(), closed.status, closed.listener_type), (host, status, Some(kind)));
    }
}

#[test]
fn a_connection_gets_what_serves_it() {
    let mut counter = 0;
    let id = RequestId::new(&mut counter);
    let mut tracker = ActiveTracker::new();
    let mut hellos = Cache::new();
    let mut registry: ChallengeRegistry<u8> = ChallengeRegistry::new();
    registry.register("new.example", 7, 100, 0).unwrap();
    let mut cache = ManagedCertificateCache::new();
    let mut site = ManagedCertificate::default();
    site.id = "site".into();
    site.enabled = true;
    site.domains = vec!["app.example".into()];
    cache.reload(&vec![LoadedCertificate { managed: site, generation_id: Some("g1".into()), usable: true }]).ok().unwrap();
    let certificates = Certificates { cache: &cache, fallback: CertificateFallbackPolicy::Reject };
    let terminate = || TlsRouteAction::Terminate {
        target_port: 8080,
        target: None,
        upstream: UpstreamTransport::Plaintext,
        load_balancing: HttpLoadBalancing::RoundRobin,
    };
    let mut config = DefaultListenerConfig::default();
    config.ordinary_traffic.routes.push(route("a", "pass.example", passthrough("x")));
    config.ordinary_traffic.routes.push(route("b", "app.example", terminate()));
    config.ordinary_traffic.routes.push(route("c", "bare.example", terminate()));
    config.ordinary_traffic.routes.push(route("d", "no.example", TlsRouteAction::Reject));
    let mut ask = |host: &str, alpn: Vec<Vec<u8>>, random: u8, later: u64| {
        put(&mut tracker, &id, "default", "1.2.3.4:5", 0, 0);
        let hello = ClientHello { sni_host: host.into(), alpn_protocols: alpn, random: [random; 32], buffered: vec![1, 2] };
        let service = handle_connection(
            &mut tracker, &mut hellos, &mut registry, &id, &hello, &config, Some("tls.example"), &certificates, None, 1, later,
        );
        note_end(&mut tracker, &id, &service);
        let (closed, _) = remove(&mut tracker, &id).unwrap();
        insert(&mut hellos, vec![9; 32], 1);
        (service, closed)
    };
    let (service, closed) = ask("tls.example", Vec::new(), 0, 1);
    assert!(matches!(service, Service::Control { hostname } if hostname == "tls.example"));
    assert_eq!(closed.status, ConnStatus::Success);
    let (service, closed) = ask("NEW.example", acme(), 0, 1);
    assert!(matches!(service, Service::Challenge { domain } if domain == "new.example"));
    assert_eq!((closed.status, closed.listener_type), (ConnStatus::Success, Some(ListenerType::TlsTerminate)));
    assert!(matches!(ask("new.example", acme(), 0, 100).0, Service::Close(Refusal::ChallengeExpired)));
    let (service, closed) = ask("pass.example", Vec::new(), 0, 1);
    match service {
        Service::Passthrough { policy, session, .. } => {
            assert!(policy.upstream_tls);
            assert_eq!((session.host.as_deref(), session.head_len), (Some("pass.example"), 2));
        }
        _ => panic!("not passed through"),
    }
    assert_eq!((closed.status, closed.listener_type), (ConnStatus::ConnectFailed, Some(ListenerType::TlsPassthrough)));
    assert!(matches!(ask("pass.example", Vec::new(), 9, 1).0, Service::Close(Refusal::Looped)));
    match ask("app.example", Vec::new(), 0, 1).0 {
        Service::Terminate { policy, certificate: CertificateSource::Managed { generation_id }, session, .. } => {
            assert_eq!((policy.target_port, generation_id.as_str()), (8080, "g1"));
            assert_eq!(session.expected.as_deref(), Some("app.example"));
        }
        _ => panic!("not terminated"),
    }
    assert!(matches!(ask("bare.example", Vec::new(), 0, 1).0, Service::Close(Refusal::NoCertificate)));
    assert!(matches!(ask("no.example", Vec::new(), 0, 1).0, Service::Close(Refusal::RouteRejected)));
    let denied = ask("unknown.example", Vec::new(), 0, 1).0;
    assert!(matches!(denied, Service::Close(Refusal::Rejected(RejectReason::PolicyDenied))));
}

#[test]
fn the_control_plane_serves_its_own_name_only() {
    let cache = ManagedCertificateCache::new();
    let hello = ClientHello { sni_host: "tls.example".into(), alpn_protocols: Vec::new(), random: [0; 32], buffered: Vec::new() };
    let local = Certificates { cache: &cache, fallback: CertificateFallbackPolicy::LocalCa };
    let (certificate, protocols) = serve_control("tls.example", &hello, &local).unwrap();
    assert!(matches!(certificate, CertificateSource::LocalCa));
    assert_eq!(protocols, vec![b"h2".to_vec(), b"http/1.1".to_vec()]);
    assert_eq!(serve_control("other.example", &hello, &local).unwrap_err(), ControlRefusal::ServerNameChanged);
    let strict = Certificates { cache: &cache, fallback: CertificateFallbackPolicy::Reject };
    assert_eq!(serve_control("tls.example", &hello, &strict).unwrap_err(), ControlRefusal::NoCertificate);
}
