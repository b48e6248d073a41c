use tlsproxy::config::{DnsConfig, ExactDnsRule, RegexDnsRule, SuffixDnsRule};
use tlsproxy::forward::dns::{lookup, order_endpoints, remember, CachedDns, Lookup, ResolvedAddress};
use tlsproxy::forward::group::{
    endpoint_is_ipv4, state_name, EndpointState, GroupKey, MonitorGroup, Owner, RUNTIME_TTL_MS,
};
use tlsproxy::forward::health::{
    check_jobs, configure_health_checks, health_check_targets, matcher_label, probe_answer_is_healthy, probe_jobs,
    probe_request, record_probe, resolve_override_first, ProbeResult,
};
use tlsproxy::forward::maintain::{
    evict_excess_runtime_groups, evict_expired_runtime_groups, excess_runtime_groups_to_evict, listener_statuses,
    prune_unreferenced_configured_groups, RUNTIME_GROUP_MAX,
};
use tlsproxy::forward::round::health_samples;
use tlsproxy::forward::route::{http_requests, HttpRequests};
use tlsproxy::forward::select::{choose_online, ensure_group, pick, select_http_backend, select_routed_pool, select_runtime_target};
use tlsproxy::forward::targets::{http_listener_targets, parse_http_targets, parse_targets, pool_targets, route_target, TargetError};
use tlsproxy::forward::{
    apply_hot_listener_settings, forward_requests, reconcile_configured_listeners, Forwarding, HealthCheckTarget,
    ListenerTargets, TargetKind,
};
use tlsproxy::hostutil::HostAndPort;
use tlsproxy::resolver::{init, resolve, suffix_matches, Tables};
use tlsproxy::runtime_config::{
    AdditionalListenerConfig, DefaultListenerConfig, HostMatcher, HttpBackend, HttpHostRoute, HttpLoadBalancing,
    HttpRouteAction, RuntimeConfig, UpstreamTransport,
};
use tlsproxy::table::Table;

fn key(target: &str) -> GroupKey {
    GroupKey { target: target.into(), upstream_tls: false, http_health: false }
}

fn endpoint(text: &str, online: Option<bool>) -> EndpointState {
    EndpointState { endpoint: text.into(), online, since_ms: 0, last_checked_ms: 0 }
}

fn group(owner: Owner, target: &str, endpoints: Vec<EndpointState>) -> MonitorGroup {
    MonitorGroup {
        key: key(target),
        requested_target: target.into(),
        effective_host: "example.com".into(),
        effective_port: 443,
        tls_server_name: "example.com".into(),
        owner,
        endpoints,
        last_activity_ms: 0,
        rng_state: 1,
    }
}

#[test]
fn choose_endpoint_falls_back_to_down_endpoints_when_status_is_stale() {
    let mut group = group(
        Owner::Runtime,
        "example.com:443",
        vec![endpoint("[2606:4700:4700::1111]:443", Some(false)), endpoint("104.16.248.249:443", Some(false))],
    );
    let selected = group.choose_endpoint().expect("stale down status should not block all candidates");
    assert_eq!(selected.endpoint, "104.16.248.249:443");
    assert_eq!(selected.tls_server_name, "example.com");
}

#[test]
fn choose_endpoint_returns_none_only_when_no_endpoints_exist() {
    let mut group = group(Owner::Runtime, "example.com:443", Vec::new());
    assert!(group.choose_endpoint().is_none());
}

#[test]
fn configured_forward_endpoint_falls_back_to_down_endpoint_when_status_is_stale() {
    let mut group = group(Owner::Configured, "example.com:443", vec![endpoint("127.0.0.1:443", Some(false))]);
    let selected = group
        .choose_endpoint()
        .expect("stale down status should not block configured forward candidates");
    assert_eq!(selected.endpoint, "127.0.0.1:443");
}

#[test]
fn an_online_endpoint_is_preferred() {
    let mut group = group(
        Owner::Runtime,
        "example.com:443",
        vec![endpoint("10.0.0.1:443", Some(false)), endpoint("10.0.0.2:443", Some(true))],
    );
    for _ in 0..20 {
        assert_eq!(group.choose_endpoint().unwrap().endpoint, "10.0.0.2:443");
    }
    assert!(endpoint_is_ipv4("10.0.0.1:443"));
    assert!(!endpoint_is_ipv4("[::1]:443"));
    assert!(!endpoint_is_ipv4("10.0.0.256:443"));
}

#[test]
fn runtime_group_cap_evicts_oldest_last_used_entries() {
    let runtime_groups: Vec<_> = (0..(RUNTIME_GROUP_MAX + 5))
        .map(|index| (key(&format!("runtime-{index}.example:443")), index as u128))
        .collect();
    let evicted = excess_runtime_groups_to_evict(runtime_groups);
    assert_eq!(evicted.len(), 5);
    assert!(evicted.iter().any(|k| k.target == "runtime-0.example:443"));
    assert!(!evicted.iter().any(|k| k.target == "runtime-204.example:443"));
}

fn groups(list: Vec<MonitorGroup>) -> Table<GroupKey, MonitorGroup> {
    let mut table = Table::new();
    for g in list {
        table.insert(g.key.copy(), g);
    }
    table
}

#[test]
fn idle_runtime_groups_expire_but_configured_ones_stay() {
    let mut all = groups(vec![group(Owner::Runtime, "a:1", Vec::new()), group(Owner::Configured, "b:1", Vec::new())]);
    evict_expired_runtime_groups(&mut all, RUNTIME_TTL_MS - 1);
    assert_eq!(all.len(), 2);
    evict_expired_runtime_groups(&mut all, RUNTIME_TTL_MS + 1);
    assert_eq!(all.len(), 1);
    assert!(all.contains_key(&key("b:1")));
    evict_excess_runtime_groups(&mut all);
    assert_eq!(all.len(), 1);
    prune_unreferenced_configured_groups(&mut all, &Table::new(), &Vec::new());
    assert_eq!(all.len(), 0);
}

#[test]
fn parse_http_targets_normalizes_and_defaults_port() {
    assert_eq!(
        parse_http_targets("http://a.example; http://b.example:8080, HTTP://c.example/").unwrap(),
        "a.example:80;b.example:8080;c.example:80"
    );
    assert!(parse_http_targets("https://a.example").is_err());
    assert!(parse_http_targets("a.example:80").is_err());
    assert!(parse_http_targets("http://a.example/path").is_err());
    assert!(parse_http_targets("http://a.example:notaport").is_err());
    assert!(parse_http_targets("http://a.example:0").is_err());
    assert!(parse_http_targets(" ; , ").is_err());
}

#[test]
fn target_lists_are_read_and_refused_for_a_reason() {
    assert_eq!(parse_targets("a.example:80; b.example:1080").unwrap(), vec!["a.example:80", "b.example:1080"]);
    assert_eq!(parse_targets(" ; ").unwrap_err(), TargetError::Empty);
    assert_eq!(parse_targets("a b:80").unwrap_err(), TargetError::HasWhitespace);
    assert_eq!(parse_http_targets("https://a.example").unwrap_err(), TargetError::HttpsNotSupported);
    assert_eq!(parse_http_targets("a.example").unwrap_err(), TargetError::NotHttp);
    assert_eq!(parse_http_targets("http://a/b").unwrap_err(), TargetError::HasPath);
    assert_eq!(http_listener_targets(&Some("  ".into())), None);
    assert_eq!(http_listener_targets(&Some(" x ".into())).as_deref(), Some("x"));
    let pool = pool_targets("sni.example", &None, 443).unwrap();
    assert_eq!((pool[0].host(), pool[0].port()), ("sni.example", 443));
    let explicit = pool_targets("sni.example", &Some("a:1, b".into()), 443).unwrap();
    assert_eq!(explicit.len(), 2);
    assert_eq!(explicit[1].port(), 443);
    assert_eq!(route_target("sni.example", &Some("a:0".into()), 443).unwrap_err(), TargetError::InvalidPort);
    assert_eq!(forward_requests("a.example:80").unwrap()[0].to_string(), "a.example:80");
}

#[test]
fn resolve_effective_endpoints_uses_fresh_dns_cache_entry() {
    let mut cache = Table::new();
    cache.insert(
        ("cached.example".to_string(), 443u16),
        CachedDns { endpoints: vec!["203.0.113.10:443".into()], expires_at_ms: 60_000 },
    );
    match lookup(&cache, None, "cached.example", 443, 0) {
        Lookup::Known(endpoints) => assert_eq!(endpoints, vec!["203.0.113.10:443"]),
        Lookup::Ask(_) => panic!("the entry is fresh"),
    }
    assert!(matches!(lookup(&cache, None, "cached.example", 443, 60_000), Lookup::Ask(_)));
    assert!(matches!(lookup(&cache, Some("1.2.3.4:443".into()), "1.2.3.4", 443, 0), Lookup::Known(v) if v == vec!["1.2.3.4:443"]));
    remember(&mut cache, "new.example", 80, &vec!["10.0.0.1:80".to_string()], 0);
    assert!(matches!(lookup(&cache, None, "new.example", 80, 59_999), Lookup::Known(_)));
    assert!(matches!(lookup(&cache, None, "new.example", 80, 60_000), Lookup::Ask(_)));
    remember(&mut cache, "none.example", 80, &Vec::new(), 0);
    assert!(matches!(lookup(&cache, None, "none.example", 80, 5_000), Lookup::Ask(_)));
}

#[test]
fn ipv4_endpoints_come_first() {
    let address = |v4: bool, text: &str| ResolvedAddress { v4, endpoint: text.into() };
    let ordered = order_endpoints(vec![
        address(false, "[::1]:1"),
        address(true, "10.0.0.2:1"),
        address(true, "10.0.0.1:1"),
    ]);
    assert_eq!(ordered, vec!["10.0.0.2:1", "10.0.0.1:1", "[::1]:1"]);
}

#[test]
fn health_http_probe_accepts_authentication_challenge_as_healthy() {
    assert!(probe_answer_is_healthy(b"HTTP/1.1 401 Unauthorized\r\n\r\n"));
    assert!(probe_answer_is_healthy(b"HTTP/1.1 200 OK\r\n\r\n"));
    assert!(!probe_answer_is_healthy(b"HTTP/1.1 502 Bad Gateway\r\n\r\n"));
    assert!(!probe_answer_is_healthy(b"garbage"));
    assert_eq!(probe_request("app.example"), "GET / HTTP/1.1\r\nHost: app.example\r\nConnection: close\r\n\r\n");
}

#[test]
fn forward_http_probe_accepts_authentication_challenge_as_healthy() {
    assert!(probe_answer_is_healthy(b"HTTP/1.1 403 Forbidden\r\nContent-Length: 0\r\n\r\n"));
}

#[test]
fn probes_are_recorded_and_silence_means_down() {
    let mut all = groups(vec![group(
        Owner::Configured,
        "a:1",
        vec![endpoint("10.0.0.1:1", None), endpoint("10.0.0.2:1", None)],
    )]);
    let jobs = probe_jobs(&all);
    assert_eq!(jobs.len(), 2);
    let results = vec![ProbeResult { group: key("a:1"), endpoint: "10.0.0.1:1".into(), online: true }];
    check_jobs(&mut all, &jobs, &results, 50);
    let states: Vec<Option<bool>> = all.get(&key("a:1")).unwrap().endpoints.iter().map(|e| e.online).collect();
    assert_eq!(states, vec![Some(true), Some(false)]);
    record_probe(&mut all, &key("a:1"), "10.0.0.2:1", true, 60);
    let statuses = listener_statuses(&all, &vec![key("a:1")], 70);
    assert_eq!(statuses.len(), 1);
    assert_eq!(statuses[0].online, Some(true));
    assert_ne!(state_name(Some(true)), state_name(Some(false)));
}

#[test]
fn selection_is_fair_and_never_blocked() {
    let mut cursor: u64 = 0;
    let picks: Vec<usize> = (0..4).map(|_| pick(HttpLoadBalancing::RoundRobin, 9, &mut cursor, 3)).collect();
    assert_eq!(picks, vec![0, 1, 2, 0]);
    assert_eq!(pick(HttpLoadBalancing::ClientIpHash, 10, &mut cursor, 3), 1);

    let mut all = groups(vec![
        group(Owner::Configured, "a:1", vec![endpoint("10.0.0.1:1", Some(false))]),
        group(Owner::Configured, "b:1", vec![endpoint("10.0.0.2:1", Some(true))]),
    ]);
    let keys = vec![key("a:1"), key("b:1")];
    let mut cursor: u64 = 0;
    for expected in ["10.0.0.1:1", "10.0.0.2:1", "10.0.0.1:1"] {
        let chosen = choose_online(&mut all, &keys, HttpLoadBalancing::RoundRobin, 0, &mut cursor).unwrap();
        assert_eq!(chosen.endpoint, expected, "every group takes its turn");
    }
    let routed = select_routed_pool(&mut all, &vec![key("a:1")], "sni.example", HttpLoadBalancing::RoundRobin, 0, &mut cursor, 5);
    let routed = routed.expect("a pool whose endpoints are all down still serves");
    assert_eq!((routed.endpoint.as_str(), routed.tls_server_name.as_str()), ("10.0.0.1:1", "sni.example"));
    let (backend, tls) = select_http_backend(&mut all, &keys, HttpLoadBalancing::RoundRobin, 0, &mut cursor, 5).unwrap();
    assert_eq!((backend.endpoint.as_str(), tls), ("10.0.0.2:1", false));
    assert!(select_routed_pool(&mut all, &vec![key("none:1")], "s", HttpLoadBalancing::RoundRobin, 0, &mut cursor, 5).is_none());
}

#[test]
fn groups_are_made_once() {
    let mut all = Table::new();
    let effective = HostAndPort::new("10.0.0.9".into(), 443);
    let resolved = vec!["10.0.0.9:443".to_string()];
    let first = ensure_group(&mut all, "x:443".into(), &effective, true, false, "x".into(), Owner::Runtime, &resolved, 0);
    let again = ensure_group(&mut all, "x:443".into(), &effective, true, false, "x".into(), Owner::Runtime, &resolved, 1);
    assert_eq!(first.target, again.target);
    assert_eq!(all.len(), 1);
    let selected = select_runtime_target(&mut all, &first, "server.example", 2).unwrap();
    assert_eq!((selected.endpoint.as_str(), selected.tls_server_name.as_str()), ("10.0.0.9:443", "server.example"));
}

#[test]
fn endpoints_are_reconciled_with_what_resolves() {
    let mut g = group(Owner::Runtime, "a:1", vec![endpoint("10.0.0.1:1", Some(true)), endpoint("10.0.0.2:1", None)]);
    g.reconcile_endpoints(&vec!["10.0.0.1:1".to_string(), "10.0.0.3:1".to_string()], 9);
    let now: Vec<(String, Option<bool>)> = g.endpoints.iter().map(|e| (e.endpoint.clone(), e.online)).collect();
    assert_eq!(now, vec![("10.0.0.1:1".to_string(), Some(true)), ("10.0.0.3:1".to_string(), None)]);
    assert_eq!(g.set_endpoint_state("10.0.0.3:1", true, 10), Some(None));
    assert!(!g.expired(RUNTIME_TTL_MS - 1));
    g.touch(5);
    assert!(!g.expired(RUNTIME_TTL_MS + 4));
}

#[test]
fn listeners_are_registered_until_one_is_wrong() {
    let listener = |name: &str, kind: TargetKind, target: &str| ListenerTargets {
        name: name.into(),
        kind,
        target: Some(target.into()),
        upstream_tls: false,
    };
    let (done, error) = reconcile_configured_listeners(&vec![
        listener("a", TargetKind::Forward, "x:1"),
        listener("b", TargetKind::Http, "http://y"),
        listener("c", TargetKind::Dynamic, "z"),
        listener("d", TargetKind::Forward, "bad target:1"),
        listener("e", TargetKind::Forward, "w:1"),
    ]);
    assert_eq!(done.iter().map(|r| r.name.as_str()).collect::<Vec<_>>(), vec!["a", "b"]);
    assert_eq!(done[1].requests[0].to_string(), "y:80");
    assert!(error.is_some());
}

#[test]
fn forwarding_keeps_cursors_per_route() {
    let mut state = Forwarding::new();
    state.groups = groups(vec![
        group(Owner::Configured, "a:1", vec![endpoint("10.0.0.1:1", Some(true))]),
        group(Owner::Configured, "b:1", vec![endpoint("10.0.0.2:1", Some(true))]),
    ]);
    state.register_forward_listener("web".into(), vec![key("a:1"), key("b:1")], 3);
    let name = "web".to_string();
    assert_eq!(state.statuses(&name).len(), 2);
    let first = state.choose_online(&name, 0, HttpLoadBalancing::RoundRobin).unwrap();
    let second = state.choose_online(&name, 0, HttpLoadBalancing::RoundRobin).unwrap();
    assert_ne!(first.endpoint, second.endpoint);
    state.clear_listener(&name, 4);
    assert!(state.choose_online(&name, 0, HttpLoadBalancing::RoundRobin).is_none());
    state.reset();
    assert_eq!(state.groups.len(), 0);
}

fn runtime(listener: AdditionalListenerConfig, disabled: &[&str]) -> RuntimeConfig {
    RuntimeConfig {
        default_listener: DefaultListenerConfig::default(),
        additional_listeners: vec![("extra".to_string(), listener)],
        disabled_listeners: disabled.iter().map(|s| s.to_string()).collect(),
    }
}

#[test]
fn hot_settings_leave_disabled_listeners_out() {
    let forward = || AdditionalListenerConfig::Forward { bind: "b".into(), targets: "x:1".into(), upstream_tls: true };
    let hot = apply_hot_listener_settings(&runtime(forward(), &[]));
    assert_eq!(hot.len(), 1);
    assert!(hot[0].upstream_tls);
    assert!(apply_hot_listener_settings(&runtime(forward(), &["extra"])).is_empty());
}

#[test]
fn http_backends_are_bound_to_health_checks() {
    let action = HttpRouteAction {
        backends: vec![HttpBackend {
            address: "backend.example:8080".into(),
            transport: UpstreamTransport::Plaintext,
            tls_server_name: None,
        }],
        paths: Vec::new(),
        target: None,
        target_port: 80,
        upstream: UpstreamTransport::Plaintext,
        host_header: None,
        load_balancing: HttpLoadBalancing::RoundRobin,
    };
    let matcher = HostMatcher { exact: vec!["app.example".into()], ..Default::default() };
    assert_eq!(matcher_label(&matcher), "app.example");
    let http = AdditionalListenerConfig::Http { bind: "b".into(), routes: vec![HttpHostRoute { matcher, action }] };
    let bound = configure_health_checks(&Tables::empty(), &runtime(http, &[]));
    assert_eq!(bound.len(), 1);
    assert_eq!(bound[0].binding.listener, "extra");
    assert_eq!(bound[0].effective.to_string(), "backend.example:8080");
    let mut all = Table::new();
    let key = ensure_group(
        &mut all,
        bound[0].requested.to_string(),
        &bound[0].effective,
        bound[0].binding.group.upstream_tls,
        bound[0].binding.group.http_health,
        bound[0].tls_server_name.clone(),
        Owner::Configured,
        &vec!["10.0.0.1:8080".to_string()],
        0,
    );
    assert_eq!(key.target, bound[0].binding.group.target);
    let bindings = bound.into_iter().map(|b| b.binding).collect();
    let shown = health_check_targets(&bindings, &all);
    assert_eq!(shown.len(), 1);
    assert_eq!(shown[0].endpoint, "10.0.0.1:8080");
}

#[test]
fn a_round_drops_resolves_and_records() {
    let mut forwarding = Forwarding::new();
    forwarding.groups.insert(key("old:1"), group(Owner::Runtime, "old:1", Vec::new()));
    forwarding.groups.insert(key("a:1"), group(Owner::Configured, "a:1", vec![endpoint("10.0.0.1:1", Some(true))]));
    forwarding.register_forward_listener("web".into(), vec![key("a:1")], 0);
    let left = forwarding.begin_round(RUNTIME_TTL_MS + 1);
    assert_eq!(left.len(), 1, "a configured group stays");
    assert_eq!(left[0].target, "a:1");
    forwarding.reconcile_group(&left[0], &vec!["10.0.0.1:1".to_string(), "10.0.0.2:1".to_string()], 5);
    forwarding.reconcile_group(&key("gone:1"), &vec!["10.0.0.3:1".to_string()], 5);
    let jobs = probe_jobs(&forwarding.groups);
    assert_eq!(jobs.len(), 2);
    assert_eq!(jobs[0].tls_server_name, "example.com");
    let results = vec![ProbeResult { group: key("a:1"), endpoint: "10.0.0.1:1".into(), online: true }];
    forwarding.end_round(&jobs, &results, 50);
    let states: Vec<Option<bool>> = forwarding.groups.get(&key("a:1")).unwrap().endpoints.iter().map(|e| e.online).collect();
    assert_eq!(states, vec![Some(true), Some(false)]);
    assert_eq!(forwarding.statuses(&"web".to_string())[0].online, Some(true));
}

#[test]
fn only_known_states_are_kept() {
    let target = |endpoint: &str, online: Option<bool>| HealthCheckTarget {
        listener: "web".into(),
        host: "app.example".into(),
        path: "/".into(),
        backend: "b:1".into(),
        endpoint: endpoint.into(),
        transport: "plaintext".into(),
        load_balancing: "round_robin".into(),
        online,
        since_ms: 0,
        last_checked_ms: 0,
    };
    let kept = health_samples(vec![target("a", Some(true)), target("b", None), target("c", Some(false))], 7);
    assert_eq!(kept.len(), 2);
    assert_eq!((kept[0].endpoint.as_str(), kept[0].online), ("a", true));
    assert_eq!((kept[1].endpoint.as_str(), kept[1].online, kept[1].checked_at), ("c", false, 7));
}

#[test]
fn a_route_is_selected_by_its_target_or_by_the_host() {
    let tables = init(&dns(&[("b.example:443", "real.example:8443")], &[], &[]));
    let mut forwarding = Forwarding::new();
    let resolved = vec!["10.0.0.1:8443".to_string()];
    let selected = forwarding
        .select_routed_target(&tables, "app.example", &Some("b.example:443".to_string()), 443, true, &resolved, 9)
        .unwrap()
        .unwrap();
    assert_eq!(selected.endpoint, "10.0.0.1:8443");
    assert_eq!(selected.tls_server_name, "app.example");
    let made = &forwarding.groups.entries[0];
    assert_eq!((made.0.target.as_str(), made.1.requested_target.as_str()), ("real.example:8443", "b.example:443"));
    let none = forwarding.select_routed_target(&tables, "app.example", &None, 443, true, &Vec::new(), 9);
    assert!(matches!(none, Ok(None)), "nothing resolves");
    let zero = forwarding.select_routed_target(&tables, "app.example", &None, 0, true, &resolved, 9);
    assert_eq!(zero.unwrap_err(), TargetError::InvalidPort);
    assert_eq!(forwarding.groups.len(), 2);
}

#[test]
fn reverse_proxy_routes_ask_for_their_backends() {
    let backend = |address: &str, name: Option<&str>| HttpBackend {
        address: address.into(),
        transport: UpstreamTransport::Tls,
        tls_server_name: name.map(|n| n.to_string()),
    };
    let mut action = HttpRouteAction {
        backends: vec![backend("a.example:8443", None), backend("b.example:8443", Some("c.example"))],
        paths: Vec::new(),
        target: Some("fixed.example:8080".into()),
        target_port: 80,
        upstream: UpstreamTransport::Plaintext,
        host_header: None,
        load_balancing: HttpLoadBalancing::RoundRobin,
    };
    match http_requests("app.example", &action) {
        Ok(HttpRequests::Pool(pool)) => {
            assert_eq!((pool[0].tls_server_name.as_str(), pool[1].tls_server_name.as_str()), ("a.example", "c.example"));
            assert!(pool[0].upstream_tls && pool[0].http_health);
        }
        other => panic!("{other:?}"),
    }
    action.backends.push(backend("no port", None));
    assert!(matches!(http_requests("app.example", &action), Err(TargetError::InvalidHostPort)));
    action.backends.clear();
    match http_requests("app.example", &action) {
        Ok(HttpRequests::Single(one)) => {
            assert_eq!((one.requested.to_string().as_str(), one.tls_server_name.as_str()), ("fixed.example:8080", "app.example"));
            assert!(!one.upstream_tls && !one.http_health);
        }
        other => panic!("{other:?}"),
    }
}

fn dns(exact: &[(&str, &str)], suffix: &[(&str, &str)], regex: &[(&str, Option<u16>, &str)]) -> DnsConfig {
    DnsConfig {
        exact: exact.iter().map(|(f, t)| ExactDnsRule { from: f.to_string(), to: t.to_string() }).collect(),
        suffix: suffix.iter().map(|(f, t)| SuffixDnsRule { from: f.to_string(), to: t.to_string() }).collect(),
        regex: regex
            .iter()
            .map(|(h, p, t)| RegexDnsRule { hostname: h.to_string(), port: *p, to: t.to_string() })
            .collect(),
    }
}

#[test]
fn resolution_priority_is_exact_then_suffix_then_regex() {
    let t = init(&dns(
        &[
            ("api.internal.example.com:443", "exact-port.example:443"),
            ("api.internal.example.com", "exact-any.example:443"),
        ],
        &[
            (".example.com", "suffix-short.example:443"),
            (".internal.example.com:443", "suffix-port.example:443"),
            (".internal.example.com", "suffix-long.example:443"),
        ],
        &[("^api\\.", None, "regex-first.example:443"), ("example", None, "regex-second.example:443")],
    ));
    // exact host:port beats exact host beats everything else
    assert_eq!(resolve(&t, "api.internal.example.com", 443).as_deref(), Some("exact-port.example:443"));
    assert_eq!(resolve(&t, "api.internal.example.com", 8443).as_deref(), Some("exact-any.example:443"));
    // suffix with port beats port-less suffix of the same length
    assert_eq!(resolve(&t, "web.internal.example.com", 443).as_deref(), Some("suffix-port.example:443"));
    // port-less long suffix beats short one when the port rule filters out
    assert_eq!(resolve(&t, "web.internal.example.com", 8443).as_deref(), Some("suffix-long.example:443"));
    // regex only fires when nothing above matched, in definition order
    assert_eq!(resolve(&t, "api.other.test", 443).as_deref(), Some("regex-first.example:443"));
    assert_eq!(resolve(&t, "nothing.test", 443).as_deref(), None);
    let over = resolve_override_first(&t, "api.other.test", 80);
    assert_eq!(over.to_string(), "regex-first.example:443");
}

#[test]
fn suffix_respects_label_boundaries_and_matches_bare_domain() {
    let t = init(&dns(&[], &[(".abc.com", "hit.example")], &[]));
    assert_eq!(resolve(&t, "x.abc.com", 443).as_deref(), Some("hit.example"));
    assert_eq!(resolve(&t, "abc.com", 443).as_deref(), Some("hit.example"));
    assert_eq!(resolve(&t, "notabc.com", 443), None);
    assert!(suffix_matches("x.abc.com", "abc.com"));
    assert!(!suffix_matches("notabc.com", "abc.com"));
}

#[test]
fn regex_matches_hostname_without_port_and_honors_port_filter() {
    let t = init(&dns(
        &[],
        &[],
        &[
            ("^api\\d+\\.abc\\.com$", Some(443), "https.example:443"),
            ("^api\\d+\\.abc\\.com$", None, "any.example"),
        ],
    ));
    assert_eq!(resolve(&t, "api1.abc.com", 443).as_deref(), Some("https.example:443"));
    assert_eq!(resolve(&t, "api1.abc.com", 8443).as_deref(), Some("any.example"));
    // the pattern sees only the hostname; a port in the pattern never matches
    let t = init(&dns(&[], &[], &[("abc\\.com:443", None, "never.example")]));
    assert_eq!(resolve(&t, "x.abc.com", 443), None);
}

#[test]
fn invalid_regex_is_skipped_not_fatal() {
    let t = init(&dns(&[("ok.test", "target.test")], &[], &[("(unclosed", None, "broken.example")]));
    assert_eq!(t.count(), 1);
    assert_eq!(resolve(&t, "ok.test", 443).as_deref(), Some("target.test"));
}
