use std::sync::Arc;

use tlsproxy::accounting::{ConnStatus, ListenerType};
use tlsproxy::active_tracker::{
    add_downloaded, add_uploaded, get_active_list, put, remove, reset, set_listener_type, set_sni, set_status,
    set_target, ActiveTracker,
};
use tlsproxy::config::{Listener, ListenerMode, Policy, Rules};
use tlsproxy::conn_stream::ConnStream;
use tlsproxy::dataplane::flow::{forward_plan, http_plan, passthrough_plan, terminate_plan, Source, Step};
use tlsproxy::dataplane::lifecycle::ConnGuard;
use tlsproxy::dataplane::pipeline::Intercept;
use tlsproxy::dataplane::policy::RelayPolicy;
use tlsproxy::dataplane::session::{Action, Close, Reply, Session};
use tlsproxy::dataplane::tls::ClientHelloIntercept;
use tlsproxy::dataplane::tls::terminate::{run_stream, TerminateRoute};
use tlsproxy::errors::GeneralError;
use tlsproxy::events_hub::{
    closed_events, count_transfer, host_event, listener_connections_event, listener_topic, opened_events, publish_both, publish_connection_count, publish_global,
    publish_listener, register_listener, sample, snapshot_global, snapshot_listener, transfer_totals, Event, Topic,
    CONNECTION_COUNT_CHANGED, GLOBAL_TOPIC,
};
use tlsproxy::extensible::Extensible;
use tlsproxy::forward::dns::ResolvedAddress;
use tlsproxy::forward::group::SelectedTarget;
use tlsproxy::forward::Forwarding;
use tlsproxy::hello_cache::{insert, Cache};
use tlsproxy::hostutil::HostAndPort;
use tlsproxy::http_header::{next_read, parse_head, ReadStep};
use tlsproxy::idletracker::IdleTracker;
use tlsproxy::json::{self, Json};
use tlsproxy::manager::{Manager, StartError, StartFailure, Status};
use tlsproxy::net::IpAddr;
use tlsproxy::order::sort_vec;
use tlsproxy::relay::{
    check_acl, monitor, pipe, reject_obvious_self_connect, resolve_target, MonitorStep, PipeStep, SocketAddr,
    TargetRefusal,
};
use tlsproxy::request_id::RequestId;
use tlsproxy::resolve::{ResolveConfig, ResolveError};
use tlsproxy::resolver::Tables;
use tlsproxy::rules::{parse, parse_text, RuleFault};
use tlsproxy::runner::{after_bind, start_outcome, worker, BindStep, HelloObserver, StartReport, MAX_RETRY};
use tlsproxy::runtime_config::{DefaultListenerConfig, HttpLoadBalancing, TlsRouteAction};
use tlsproxy::table::Table;
use tlsproxy::utc::http_date;

#[test]
fn remove_returns_accumulated_connection_details() {
    let mut counter = 0;
    let mut tracker = ActiveTracker::new();
    let request_id = RequestId::new(&mut counter);
    put(&mut tracker, &request_id, "listener-a", "10.1.2.3:44444", 5, 1000);
    add_uploaded(&mut tracker, &request_id, 100);
    add_downloaded(&mut tracker, &request_id, 200);
    set_sni(&mut tracker, &request_id, "example.com");
    set_target(&mut tracker, &request_id, "example.com", "1.2.3.4:443");
    set_status(&mut tracker, &request_id, ConnStatus::Success);
    let (closed, _) = remove(&mut tracker, &request_id).expect("connection should be tracked");
    assert_eq!(closed.listener, "listener-a");
    assert_eq!(closed.remote_address, "10.1.2.3:44444");
    assert_eq!(closed.uploaded_bytes, 100);
    assert_eq!(closed.downloaded_bytes, 200);
    assert_eq!(closed.sni, "example.com");
    assert_eq!(closed.target_host, "example.com");
    assert_eq!(closed.target_endpoint, "1.2.3.4:443");
    assert_eq!(closed.status, ConnStatus::Success);
    assert!(closed.started_at_unix_ms > 0);
    assert!(remove(&mut tracker, &request_id).is_none(), "second remove returns None");
}

#[test]
fn new_connections_default_to_connect_failed_with_empty_dimensions() {
    let mut counter = 0;
    let mut tracker = ActiveTracker::new();
    let request_id = RequestId::new(&mut counter);
    put(&mut tracker, &request_id, "listener-b", "10.1.2.3:44445", 0, 1);
    let (closed, _) = remove(&mut tracker, &request_id).unwrap();
    assert_eq!(closed.status, ConnStatus::ConnectFailed);
    assert_eq!(closed.sni, "");
    assert_eq!(closed.target_host, "");
    assert_eq!(closed.target_endpoint, "");
}

#[test]
fn setters_ignore_unknown_request_ids() {
    let mut counter = 0;
    let mut tracker = ActiveTracker::new();
    let request_id = RequestId::new(&mut counter);
    set_sni(&mut tracker, &request_id, "ghost");
    set_status(&mut tracker, &request_id, ConnStatus::Denied);
    set_listener_type(&mut tracker, &request_id, ListenerType::PortForward);
    assert!(remove(&mut tracker, &request_id).is_none());
}

#[test]
fn opening_and_closing_count_the_listener_and_all() {
    let mut counter = 0;
    let mut tracker = ActiveTracker::new();
    let first = RequestId::new(&mut counter);
    let second = RequestId::new(&mut counter);
    assert_ne!(first.seq(), second.seq());
    let change = put(&mut tracker, &first, "a", "x", 0, 0);
    assert_eq!((change.listener_was, change.listener_now, change.global_was, change.global_now), (0, 1, 0, 1));
    let change = put(&mut tracker, &second, "b", "y", 10, 10);
    assert_eq!((change.listener_was, change.listener_now, change.global_was, change.global_now), (0, 1, 1, 2));
    let rows = get_active_list(&tracker, 30);
    assert_eq!(rows.len(), 2);
    assert!(rows.iter().any(|r| r.uptime_ms == 30) && rows.iter().any(|r| r.uptime_ms == 20));
    let (_, change) = remove(&mut tracker, &first).unwrap();
    assert_eq!((change.listener_was, change.listener_now, change.global_was, change.global_now), (1, 0, 2, 1));
    reset(&mut tracker);
    assert!(get_active_list(&tracker, 0).is_empty());
}

#[test]
fn a_guard_accounts_for_its_connection() {
    let mut counter = 0;
    let mut tracker = ActiveTracker::new();
    let mut active = 0;
    let id = Arc::new(RequestId::with_name(&mut counter, "abc".into()));
    let (guard, opened) = ConnGuard::start(
        &mut tracker, &mut active, id.clone(), "web".into(), "1.2.3.4:5", ListenerType::TlsPassthrough, 100, 1000,
    );
    assert_eq!(active, 1);
    assert_eq!(guard.elapsed(130), 30);
    set_sni(&mut tracker, &id, "a.example");
    assert_eq!((opened.listener_was, opened.listener_now, opened.global_was, opened.global_now), (0, 1, 0, 1));
    let finished = guard.finish(&mut tracker, &mut active, true, 2000);
    let (closed, change) = finished.closed.unwrap();
    assert_eq!((change.listener_was, change.listener_now, change.global_was, change.global_now), (1, 0, 1, 0));
    assert_eq!(closed_events(&id, &closed, &change).len(), 2);
    let record = finished.record.unwrap();
    assert_eq!(active, 0);
    assert_eq!(record.sni, "a.example");
    assert_eq!(record.connection_id, id.to_text());
    assert_eq!((record.start_unix_ms, record.end_unix_ms), (1000, 2000));
    assert!(get_active_list(&tracker, 0).is_empty());
}

fn read(stream: &mut ConnStream<Vec<u8>>, room: usize) -> Vec<u8> {
    match stream.read_pushback(room) {
        Some(bytes) => bytes,
        None => stream.inner.drain(..room.min(stream.inner.len())).collect(),
    }
}

#[test]
fn unread_bytes_are_presented_before_the_stream_across_partial_reads() {
    let mut counter = 0;
    let mut stream = ConnStream::of(b"WIRE".to_vec(), &mut counter);
    stream.unread(b"PEEKED");
    assert_eq!(read(&mut stream, 3), b"PEE");
    assert_eq!(read(&mut stream, 7), b"KED");
    assert_eq!(read(&mut stream, 4), b"WIRE");
    assert!(stream.unwrap().is_empty());
}

#[test]
fn later_unread_prepends_to_remaining_pushback() {
    let mut counter = 0;
    let mut stream = ConnStream::of(b"!".to_vec(), &mut counter);
    stream.unread(b"cd");
    assert_eq!(read(&mut stream, 1), b"c");
    stream.unread(b"ab");
    assert_eq!(read(&mut stream, 3), b"abd");
    assert_eq!(read(&mut stream, 1), b"!");
}

#[test]
fn http_head_read_is_fully_undoable() {
    let mut counter = 0;
    let raw = b"POST /submit HTTP/1.1\r\nHost: h.example\r\nContent-Length: 9\r\n\r\nBODY";
    let mut client = ConnStream::of(b"-tail".to_vec(), &mut counter);
    let end = match next_read(raw, 65536) {
        ReadStep::Parse(end) => end,
        _ => panic!("the head is complete"),
    };
    let head = parse_head(raw.to_vec(), end).unwrap();
    assert_eq!(head.method(), "POST");
    client.unread(&head.buffered);
    let mut restored = read(&mut client, 1000);
    restored.extend(read(&mut client, 1000));
    assert_eq!(restored, [raw.as_slice(), b"-tail"].concat());
}

#[test]
fn wrapped_streams_share_their_request_id() {
    let mut counter = 0;
    let plain = Extensible::of(7u8, &mut counter);
    let id = Arc::new(RequestId::with_name(&mut counter, "n".into()));
    let named = Extensible::with_request_id(8u8, id.clone());
    assert_eq!(named.request_id().id(), "n");
    assert_eq!(named.request_id().to_text(), id.to_text());
    assert_eq!(plain.unwrap() + named.unwrap(), 15);
    let stream = ConnStream::with_request_id((), id.clone());
    assert_eq!(stream.request_id().seq(), id.seq());
}

fn names(list: &[&str]) -> Vec<String> {
    list.iter().map(|s| s.to_string()).collect()
}

#[test]
fn event_envelope_uses_required_uppercase_fields() {
    let event = Event::ConnectionCount { key: "web".into(), was: 1, now: 2, snapshot: false };
    assert_eq!(event.event_type(), CONNECTION_COUNT_CHANGED);
    assert_eq!(event.event_type(), "CONNECTION_COUNT_CHANGED");
    assert_eq!(event.key(), "web");
    assert_ne!(listener_topic("web"), listener_topic("api"));
}

#[test]
fn transfers_are_counted_by_listener() {
    let mut totals = Table::new();
    count_transfer(&mut totals, "web", 10, 4);
    count_transfer(&mut totals, "web", 1, 2);
    let api = transfer_totals(&mut totals, "api");
    assert_eq!((api.uploaded, api.downloaded), (0, 0));
    count_transfer(&mut totals, "api", 7, 0);
    let web = transfer_totals(&mut totals, "web");
    assert_eq!((web.uploaded, web.downloaded), (11, 6));
}

#[test]
fn topic_routing_separates_global_and_listener_streams() {
    let mut counter = 0;
    let mut tracker = ActiveTracker::new();
    let id = RequestId::new(&mut counter);
    put(&mut tracker, &id, "web", "1.2.3.4:5", 0, 7);
    add_uploaded(&mut tracker, &id, 10);
    let rows = get_active_list(&tracker, 1);
    let mut totals = Table::new();
    let mut web = transfer_totals(&mut totals, "web");
    web.add_uploaded(10);
    web.add_downloaded(4);
    totals.insert("web".to_string(), web);
    let snapshot = snapshot_listener(&totals, &rows, &"web".to_string());
    assert_eq!(snapshot.len(), 2);
    match &snapshot[0] {
        Event::ListenerConnections { listener_name, connections } => {
            assert_eq!(listener_name, "web");
            assert_eq!((connections.len(), connections[0].uploaded), (1, 10));
        }
        _ => panic!("the connections come first"),
    }
    match listener_connections_event("api", &rows) {
        Event::ListenerConnections { connections, .. } => assert!(connections.is_empty()),
        _ => panic!("a list of connections"),
    }
    let overview = snapshot_global(&totals, &rows, &names(&["web"]));
    assert_eq!(overview.len(), 4);
    assert!(matches!(&overview[3], Event::GlobalTransfer { uploaded: 10, downloaded: 4, .. }));
    let published = sample(&totals, &rows, &names(&["web"]));
    assert!(published.iter().any(|p| matches!(&p.topic, Topic::Listener(n) if n == "web")));
    assert!(published.iter().any(|p| matches!(p.topic, Topic::Global)));
}

#[test]
fn plans_guard_against_loops_and_check_access() {
    let guarded = |plan: &[Step], step: Step| {
        let connect = plan.iter().position(|s| matches!(s, Step::Connect { .. })).unwrap();
        let guard = plan.iter().position(|s| *s == step).unwrap();
        assert!(guard < connect);
    };
    guarded(&terminate_plan(true, false, true), Step::RefuseSelf);
    guarded(&forward_plan(false), Step::RefuseSelf);
    guarded(&passthrough_plan(false, false), Step::RefuseLoopedHello);
    guarded(&http_plan(false, false, false), Step::RefuseSelf);
    assert!(passthrough_plan(false, false).contains(&Step::CheckAccess { recorded: true }));
    assert!(terminate_plan(true, false, false).contains(&Step::MintCertificate));
    assert!(!terminate_plan(true, true, false).contains(&Step::MintCertificate));
    assert!(forward_plan(true).contains(&Step::WrapTls { limit: Some(10) }));
    assert!(http_plan(false, false, true).contains(&Step::WrapTls { limit: Some(10) }));
    assert!(terminate_plan(false, false, true).contains(&Step::WrapTls { limit: None }));
}

#[test]
fn workers_connect_without_keeping_the_record() {
    assert_eq!(
        worker(ListenerMode::Forward, true),
        vec![
            Step::Select { source: Source::Listener },
            Step::Connect { seconds: 5 },
            Step::WrapTls { limit: None },
            Step::Relay,
        ]
    );
    assert_eq!(
        worker(ListenerMode::Passthrough, true),
        vec![
            Step::AcceptHello { seconds: 3 },
            Step::RefuseLoopedHello,
            Step::CheckAccess { recorded: false },
            Step::Select { source: Source::Client },
            Step::RememberHello,
            Step::Connect { seconds: 5 },
            Step::SendHead,
            Step::CountHead,
            Step::Relay,
        ]
    );
    assert_eq!(
        worker(ListenerMode::Terminate, false),
        vec![
            Step::AcceptHello { seconds: 5 },
            Step::CheckAccess { recorded: false },
            Step::Select { source: Source::Client },
            Step::MintCertificate,
            Step::Handshake { seconds: 5 },
            Step::Connect { seconds: 5 },
            Step::Relay,
        ]
    );
    assert!(worker(ListenerMode::Terminate, true).contains(&Step::RefuseSelf));
    let mut counter = 0;
    let id = RequestId::new(&mut counter);
    let mut hellos = Cache::new();
    let mut tracker = ActiveTracker::new();
    open(&mut tracker, &id);
    let plan = worker(ListenerMode::Passthrough, false);
    let mut session = Session::new(plan, id.copy(), None, None, Vec::new(), 0, None);
    let mut step = |reply: Reply| session.step(&mut tracker, &mut hellos, &allow(&["a.example"]), reply, 0);
    assert_eq!(step(Reply::Nothing), Action::AcceptHello { seconds: 3 });
    assert_eq!(step(hello(Some("b.example"))), Action::Continue);
    assert_eq!(step(Reply::Nothing), Action::Continue, "the hello was not forwarded before");
    assert_eq!(step(Reply::Nothing), Action::Close(Close::Denied));
    let (closed, _) = remove(&mut tracker, &id).unwrap();
    assert_eq!((closed.status, closed.sni.as_str()), (ConnStatus::ConnectFailed, ""));
}

fn open(tracker: &mut ActiveTracker, id: &RequestId) {
    put(tracker, id, "web", "1.2.3.4:5", 0, 0);
}

fn hello(host: Option<&str>) -> Reply {
    Reply::Hello { host: host.map(|h| h.to_string()), random: vec![7; 32], head_len: 100 }
}

fn selected(endpoint: &str) -> Reply {
    Reply::Selected {
        target: SelectedTarget { endpoint: endpoint.into(), tls_server_name: "a.example".into() },
        addresses: vec![socket(1, 443)],
    }
}

fn allow(hosts: &[&str]) -> Listener {
    Listener {
        bind: "b".into(),
        target: None,
        target_port: 443,
        policy: Policy::ALLOW,
        rules: Rules { static_hosts: names(hosts), patterns: Vec::new() },
        max_idle_time_ms: None,
        mode: ListenerMode::Passthrough,
        upstream_tls: false,
    }
}

#[test]
fn a_terminated_stream_keeps_its_server_name() {
    let mut counter = 0;
    let id = RequestId::new(&mut counter);
    let route = Some(TerminateRoute {
        expected_sni: "a.example".into(),
        target: None,
        target_port: 80,
        upstream_tls: false,
    });
    for (host, close) in [(None, Close::NoServerName), (Some("b.example"), Close::ServerNameChanged)] {
        let mut tracker = ActiveTracker::new();
        let mut hellos = Cache::new();
        open(&mut tracker, &id);
        let mut session = run_stream(id.copy(), &route, true, true, None);
        let mut step = |reply: Reply| session.step(&mut tracker, &mut hellos, &allow(&[]), reply, 0);
        assert_eq!(step(Reply::Nothing), Action::AcceptHello { seconds: 5 });
        assert_eq!(step(hello(host)), Action::Continue);
        assert_eq!(step(Reply::Nothing), Action::Close(close));
        assert_eq!(step(Reply::Nothing), Action::Close(close), "closed for good");
        assert!(close.message("b.example").starts_with("TLS "));
    }
}

#[test]
fn a_terminated_stream_is_relayed_step_by_step() {
    let mut counter = 0;
    let id = RequestId::new(&mut counter);
    let mut tracker = ActiveTracker::new();
    let mut hellos = Cache::new();
    open(&mut tracker, &id);
    let mut session = run_stream(id.copy(), &None, true, false, Some(socket(1, 444)));
    let mut step = |reply: Reply| session.step(&mut tracker, &mut hellos, &allow(&["a.example"]), reply, 0);
    assert_eq!(step(Reply::Nothing), Action::AcceptHello { seconds: 5 });
    assert_eq!(step(hello(Some("a.example"))), Action::Continue);
    assert_eq!(step(Reply::Nothing), Action::ShowHost);
    assert_eq!(step(Reply::Nothing), Action::Continue, "the host is let through");
    assert_eq!(step(Reply::Nothing), Action::Select { source: Source::Client });
    assert_eq!(step(selected("127.0.0.1:443")), Action::Continue);
    assert_eq!(step(Reply::Nothing), Action::Continue, "the upstream is shown");
    assert_eq!(step(Reply::Nothing), Action::MintCertificate);
    assert_eq!(step(Reply::Done), Action::Continue);
    assert_eq!(step(Reply::Nothing), Action::Handshake { seconds: 5 });
    assert_eq!(step(Reply::Done), Action::Continue);
    assert_eq!(step(Reply::Nothing), Action::Continue, "another port than the listener's");
    assert_eq!(step(Reply::Nothing), Action::Connect { seconds: 5 });
    assert_eq!(step(Reply::Done), Action::Continue);
    assert_eq!(step(Reply::Nothing), Action::Continue, "it counts as served");
    assert_eq!(step(Reply::Nothing), Action::WrapTls { limit: None });
    assert_eq!(step(Reply::Done), Action::Continue);
    assert_eq!(step(Reply::Nothing), Action::Relay);
    assert_eq!(step(Reply::Done), Action::Close(Close::Ended));
    let (closed, _) = remove(&mut tracker, &id).unwrap();
    assert_eq!(closed.status, ConnStatus::Success);
    assert_eq!((closed.sni.as_str(), closed.target_endpoint.as_str()), ("a.example", "127.0.0.1:443"));
}

#[test]
fn passthrough_rejects_looped_client_hello() {
    let mut counter = 0;
    let id = RequestId::new(&mut counter);
    let mut hellos = Cache::new();
    insert(&mut hellos, vec![7; 32], 0);
    let mut tracker = ActiveTracker::new();
    open(&mut tracker, &id);
    let plan = passthrough_plan(false, false);
    let mut session = Session::new(plan, id.copy(), None, None, Vec::new(), 0, None);
    let mut step = |reply: Reply| session.step(&mut tracker, &mut hellos, &allow(&["a.example"]), reply, 1);
    assert_eq!(step(Reply::Nothing), Action::AcceptHello { seconds: 3 });
    assert_eq!(step(hello(Some("a.example"))), Action::Continue);
    assert_eq!(step(Reply::Nothing), Action::Close(Close::Looped));
    assert_eq!(remove(&mut tracker, &id).unwrap().0.status, ConnStatus::ConnectFailed);
}

#[test]
fn denied_hosts_and_own_addresses_are_never_connected() {
    let mut counter = 0;
    let id = RequestId::new(&mut counter);
    let mut hellos = Cache::new();
    let mut tracker = ActiveTracker::new();
    open(&mut tracker, &id);
    let mut session = Session::new(http_plan(false, true, false), id.copy(), None, Some("b.example".into()), Vec::new(), 9, None);
    let mut step = |reply: Reply| session.step(&mut tracker, &mut hellos, &allow(&["a.example"]), reply, 1);
    assert_eq!(step(Reply::Nothing), Action::ShowHost);
    assert_eq!(step(Reply::Nothing), Action::Count { bytes: 9 });
    assert_eq!(step(Reply::Nothing), Action::Close(Close::Denied));
    assert_eq!(Close::Denied.message(session.host.as_ref().unwrap()), "b.example denied by ACL");
    let (closed, _) = remove(&mut tracker, &id).unwrap();
    assert_eq!((closed.status, closed.uploaded_bytes), (ConnStatus::Denied, 9));

    open(&mut tracker, &id);
    let mut session = Session::new(forward_plan(false), id.copy(), None, None, Vec::new(), 0, Some(socket(1, 443)));
    let mut step = |reply: Reply| session.step(&mut tracker, &mut hellos, &allow(&[]), reply, 1);
    assert_eq!(step(Reply::Nothing), Action::Select { source: Source::Listener });
    assert_eq!(step(selected("127.0.0.1:443")), Action::Continue);
    assert_eq!(step(Reply::Nothing), Action::Continue);
    assert_eq!(step(Reply::Nothing), Action::Close(Close::SelfConnect));
    let mut failing = Session::new(forward_plan(false), id.copy(), None, None, Vec::new(), 0, None);
    assert_eq!(failing.step(&mut tracker, &mut hellos, &allow(&[]), Reply::Nothing, 1), Action::Select { source: Source::Listener });
    assert_eq!(failing.step(&mut tracker, &mut hellos, &allow(&[]), Reply::Failed, 1), Action::Close(Close::Failed));
}

#[test]
fn hellos_are_intercepted_with_their_stream() {
    let mut counter = 0;
    let intercept = ClientHelloIntercept::new(Extensible::of(3u8, &mut counter), 1000, 4096);
    assert_eq!((intercept.timeout_ms, intercept.max_size), (1000, 4096));
    let hello = tlsproxy::tls_header::ClientHello {
        sni_host: "a.example".into(),
        alpn_protocols: Vec::new(),
        random: [0; 32],
        buffered: vec![1],
    };
    let done = intercept.intercept(hello).ok().unwrap();
    assert_eq!(done.artifact.sni_host, "a.example");
    assert_eq!(done.stream.unwrap(), 3);
}

#[test]
fn a_route_decides_the_relay_policy() {
    let action = TlsRouteAction::Passthrough {
        target_port: 8443,
        target: Some("x".into()),
        load_balancing: HttpLoadBalancing::RoundRobin,
    };
    let policy = RelayPolicy::for_tls_route(&DefaultListenerConfig::default(), &action);
    assert_eq!(policy.target_port, 8443);
    assert!(policy.target.is_none() && policy.upstream_tls);
}

fn socket(d: u8, port: u16) -> SocketAddr {
    SocketAddr { ip: IpAddr::V4(127, 0, 0, d), port }
}

#[test]
fn a_listener_does_not_connect_to_itself() {
    assert!(reject_obvious_self_connect(&Some(socket(1, 443)), &vec![socket(1, 443)]));
    assert!(!reject_obvious_self_connect(&Some(socket(1, 443)), &vec![socket(1, 444)]));
    assert!(!reject_obvious_self_connect(&None, &vec![socket(1, 443)]));
    let any = SocketAddr { ip: IpAddr::V4(0, 0, 0, 0), port: 443 };
    assert!(reject_obvious_self_connect(&Some(any), &vec![socket(9, 443)]));
    let mut counter = 0;
    let id = RequestId::new(&mut counter);
    let mut tracker = ActiveTracker::new();
    open(&mut tracker, &id);
    assert!(check_acl(&allow(&["a.example"]), "A.example", &mut tracker, &id).is_ok());
    assert!(check_acl(&allow(&["a.example"]), "b.example", &mut tracker, &id).is_err());
    assert_eq!(remove(&mut tracker, &id).unwrap().0.status, ConnStatus::Denied);
}

#[test]
fn a_denied_host_selects_nothing() {
    let mut counter = 0;
    let id = RequestId::new(&mut counter);
    let mut tracker = ActiveTracker::new();
    open(&mut tracker, &id);
    let mut forwarding = Forwarding::new();
    let tables = Tables::empty();
    let listener = allow(&["a.example"]);
    let resolved = vec!["10.0.0.1:443".to_string()];
    let mut ask = |host: &str, resolved: &Vec<String>| {
        resolve_target(&listener, host, true, host, &mut tracker, &id, &mut forwarding, &tables, resolved, 3)
    };
    assert_eq!(ask("b.example", &resolved).unwrap_err(), TargetRefusal::Denied);
    assert_eq!(ask("a.example", &Vec::new()).unwrap_err(), TargetRefusal::Unavailable);
    assert_eq!(forwarding.groups.len(), 1, "a denied host leaves no group");
    assert_eq!(remove(&mut tracker, &id).unwrap().0.status, ConnStatus::Denied);
}

#[test]
fn connection_open_and_close_publish_listener_and_global_counts() {
    let mut counter = 0;
    let request_id = RequestId::new(&mut counter);
    let mut tracker = ActiveTracker::new();
    let change = put(&mut tracker, &request_id, "events-listener", "127.0.0.1:12345", 0, 7);
    let opened = opened_events("events-listener", &request_id, "127.0.0.1:12345", 7, &change);
    match &opened[0].event {
        Event::ConnectionCount { key, was: 0, now: 1, snapshot: false } => assert_eq!(key, "events-listener"),
        other => panic!("{other:?}"),
    }
    assert_eq!(opened[1].event.event_type(), CONNECTION_COUNT_CHANGED);
    assert_eq!(opened[1].event.key(), "__global__");
    match &opened[1].event {
        Event::ConnectionState { was: 0, now: 1, open: true, listener_name, connection_id, .. } => {
            assert_eq!(listener_name, "events-listener");
            assert_eq!(*connection_id, request_id.to_text());
        }
        other => panic!("{other:?}"),
    }
    set_sni(&mut tracker, &request_id, "app.example");
    let host = host_event("events-listener", &request_id, "app.example");
    assert_eq!(host.event.key(), format!("events-listener:{}", request_id.to_text()));
    assert_eq!(host.topic.names(), vec!["tlsproxy.events.listener.events-listener"]);
    let (closed, change) = remove(&mut tracker, &request_id).unwrap();
    let closed = closed_events(&request_id, &closed, &change);
    match &closed[0].event {
        Event::ConnectionCount { key, was: 1, now: 0, snapshot: false } => assert_eq!(key, "events-listener"),
        other => panic!("{other:?}"),
    }
    assert_eq!(closed[1].event.event_type(), CONNECTION_COUNT_CHANGED);
    match &closed[1].event {
        Event::ConnectionState { was: 1, now: 0, open: false, closed_host: Some(host), .. } => assert_eq!(host, "app.example"),
        other => panic!("{other:?}"),
    }
}

#[test]
fn events_are_sent_to_their_topics() {
    let count = publish_connection_count("web", 1, 2);
    assert_eq!(count.topic.names(), vec!["tlsproxy.events.global"]);
    assert_eq!((count.event.event_type(), count.event.key()), (CONNECTION_COUNT_CHANGED, "web"));
    let event = || Event::ConnectionCount { key: "web".into(), was: 0, now: 1, snapshot: false };
    assert_eq!(publish_listener("web", event()).topic.names(), vec!["tlsproxy.events.listener.web"]);
    let both = publish_both("web", event()).topic.names();
    assert_eq!(both, vec!["tlsproxy.events.global", "tlsproxy.events.listener.web"]);
    assert_eq!(publish_global(event()).topic.names(), vec![GLOBAL_TOPIC]);
    let mut names = Vec::new();
    let mut totals = Table::new();
    register_listener(&mut names, &mut totals, "web");
    register_listener(&mut names, &mut totals, "api");
    register_listener(&mut names, &mut totals, "web");
    assert_eq!(names, vec!["web", "api"]);
    assert_eq!(totals.len(), 2);
}

#[test]
fn relays_stop_when_done_or_idle() {
    assert!(matches!(monitor(false, false, false), MonitorStep::Wait { .. }));
    assert!(matches!(monitor(true, true, false), MonitorStep::Stop { .. }));
    assert!(matches!(monitor(false, false, true), MonitorStep::Stop { abort_upload: true, abort_download: true }));
    let mut counter = 0;
    let id = RequestId::new(&mut counter);
    let mut tracker = ActiveTracker::new();
    open(&mut tracker, &id);
    assert!(matches!(pipe(&mut tracker, &id, true, Some(0)), PipeStep::End));
    assert!(matches!(pipe(&mut tracker, &id, true, None), PipeStep::End));
    assert!(matches!(pipe(&mut tracker, &id, true, Some(5)), PipeStep::Forward { count: 5 }));
    assert!(matches!(pipe(&mut tracker, &id, false, Some(7)), PipeStep::Forward { count: 7 }));
    let (closed, _) = remove(&mut tracker, &id).unwrap();
    assert_eq!((closed.uploaded_bytes, closed.downloaded_bytes), (5, 7));
    let mut idle = IdleTracker::new(100, 0);
    assert!(!idle.is_expired(100));
    assert!(idle.is_expired(101));
    idle.mark(101);
    assert_eq!(idle.idled_for(150), 49);
    assert_eq!(IdleTracker::with_defaults(0).max_idle(), 600_000_000_000);
}

#[test]
fn the_manager_starts_once() {
    let mut manager = Manager::new();
    let mut counter = 0;
    let mut tracker = ActiveTracker::new();
    open(&mut tracker, &RequestId::new(&mut counter));
    assert_eq!(manager.get_run_status(), Status::STOPPED);
    assert_eq!(manager.begin_start(0, &mut tracker), Err(StartError::NoListener));
    assert_eq!(manager.begin_start(1, &mut tracker), Ok(()));
    assert_eq!(manager.get_run_status(), Status::STARTING);
    assert!(get_active_list(&tracker, 0).is_empty());
    assert_eq!(manager.begin_start(1, &mut tracker), Err(StartError::StillRunning));
    manager.listener_started("web".into(), None);
    manager.listener_started("api".into(), Some("in use".into()));
    manager.finish_start(1000);
    assert_eq!(manager.get_run_status(), Status::STARTED);
    assert!(manager.is_running("web"));
    assert!(!manager.is_running("api"));
    let status = manager.get_manager_status(1500);
    assert_eq!((status.status.as_str(), status.uptime_ms), ("STARTED", Some(500)));
    assert_eq!(manager.get_listener_status().get(&"api".to_string()), Some(&Some("in use".to_string())));
    open(&mut tracker, &RequestId::new(&mut counter));
    assert!(manager.stop(&mut tracker));
    assert!(get_active_list(&tracker, 0).is_empty());
    assert_eq!(manager.get_run_status(), Status::STOPPED);
    assert!(!manager.stop(&mut tracker));
    assert!(!StartError::NoListener.message().is_empty());
    let refused = manager.start(&mut tracker, Err("no key".into()), vec![("web".into(), None)], 7);
    assert!(matches!(refused, Err(StartFailure::NoAuthority(cause)) if cause == "no key"));
    assert_eq!(manager.get_run_status(), Status::STOPPED);
    let reports = vec![("web".to_string(), None), ("api".to_string(), Some("in use".to_string()))];
    let started = manager.start(&mut tracker, Ok(()), reports, 7).ok().unwrap();
    assert_eq!(started.get(&"web".to_string()), Some(&None));
    assert_eq!(started.get(&"api".to_string()), Some(&Some("in use".to_string())));
    assert!(manager.is_running("web") && !manager.is_running("api"));
    let again = manager.start(&mut tracker, Ok(()), vec![("web".into(), None)], 8);
    assert!(matches!(again, Err(StartFailure::Refused(StartError::StillRunning))));
}

#[test]
fn binding_is_retried_a_few_times() {
    assert!(matches!(after_bind(true, 0), BindStep::Run));
    assert!(matches!(after_bind(false, 0), BindStep::Retry { .. }));
    assert!(matches!(after_bind(false, MAX_RETRY + 1), BindStep::GiveUp));
    assert_eq!(start_outcome(StartReport::Bound), Ok(()));
    assert_eq!(start_outcome(StartReport::Failed("no".into())), Err("no".to_string()));
    let mut observer = HelloObserver::new(10);
    assert!(observer.observe_write(&[1, 2, 3]));
    observer.register();
    assert!(!observer.observe_write(&[4]));
}

fn text(s: &str) -> Json {
    Json::Text(s.into())
}

fn document(decision: &str, white: &[&str], black: &[&str]) -> Json {
    let list = |l: &[&str]| Json::Array(l.iter().map(|s| text(s)).collect());
    Json::Object(vec![
        ("no_match_decision".into(), text(decision)),
        ("whitelist".into(), list(white)),
        ("blacklist".into(), list(black)),
    ])
}

#[test]
fn rule_documents_are_parsed_or_refused() {
    let set = parse(&document("reject", &["host:a.example", "pattern:^b"], &["host:c.example"])).unwrap();
    assert!(set.check_access("a.example"));
    assert!(set.check_access("b.example"));
    assert!(!set.check_access("c.example"));
    assert!(!set.check_access("d.example"));
    for host in ["A.Example", "B.EXAMPLE", "C.example", "D.Example"] {
        assert_eq!(set.check_access(host), set.check_access(&host.to_lowercase()));
    }
    assert!(set.check_access("A.EXAMPLE"));
    let open = parse(&document("Allow", &["host:c.example"], &["HOST:C.example", "pattern:^x\\."])).unwrap();
    assert!(!open.check_access("c.example"), "the white list does not count");
    assert!(!open.check_access("X.example"));
    assert!(open.check_access("sub.c.example"), "a host rule is about the whole name");
    let nobody = parse(&document("accept", &["$any"], &["$ANY"])).unwrap();
    assert!(!nobody.check_access("a.example"));
    let everybody = parse(&document("deny", &["$Any"], &["$any"])).unwrap();
    assert!(everybody.check_access("a.example"));
    let refused = |decision: &str, white: &[&str], black: &[&str]| {
        let error = parse(&document(decision, white, black)).unwrap_err();
        (error.fault, error.message())
    };
    assert_eq!(
        refused("Maybe", &[], &[]),
        (RuleFault::UnknownDecision, "unknown decision [Maybe], expect allow|reject".into())
    );
    assert_eq!(
        refused("", &[], &[]),
        (RuleFault::MissingDecision, "required field `no_match_decision` not found".into())
    );
    assert_eq!(
        refused("reject", &[], &["What:x"]),
        (RuleFault::UnknownRule, "Unknown rule [what:x], expect to begin with `host:` or `pattern:`".into())
    );
    let (fault, message) = refused("reject", &["pattern:("], &["what:x"]);
    assert_eq!(fault, RuleFault::InvalidPattern);
    assert!(message.contains("unclosed group"), "{message}");
}

#[test]
fn rule_texts_are_parsed_or_refused() {
    let set = parse_text(
        r#"{"no_match_decision": "Reject", "whitelist": ["host:A.example", 7, "", "pattern:^b"], "blacklist": null}"#,
    )
    .unwrap();
    assert!(set.check_access("a.example") && set.check_access("b.example"));
    assert!(!set.check_access("c.example"));
    let refused = |text: &str| {
        let error = parse_text(text).unwrap_err();
        (error.fault, error.message())
    };
    let (fault, message) = refused("{");
    assert_eq!(fault, RuleFault::NotJson);
    assert!(message.contains("EOF while parsing an object at line 1 column 1"), "{message}");
    assert_eq!(
        refused(r#"{"no_match_decision": "allow", "blacklist": []}"#),
        (RuleFault::MissingField, "required field `whitelist` not found".into())
    );
    assert_eq!(refused("[]").1, "required field `no_match_decision` not found");
    assert_eq!(
        refused(r#"{"no_match_decision": 1, "whitelist": [], "blacklist": []}"#).0,
        RuleFault::MissingDecision
    );
}

#[test]
fn json_texts_are_read() {
    let document = json::read(r#"{"b": [true, null, "x\u00e9"], "a": -1.5, "b2": 3}"#).unwrap();
    match document.get("b") {
        Some(Json::Array(items)) => {
            assert!(matches!(items[0], Json::Bool(true)) && matches!(items[1], Json::Null));
            assert!(matches!(&items[2], Json::Text(s) if s == "x\u{e9}"));
        }
        _ => panic!("an array"),
    }
    assert!(matches!(document.get("a"), Some(Json::Number(n)) if n == "-1.5"));
    assert!(matches!(document.get("b2"), Some(Json::Number(n)) if n == "3"));
    assert!(document.get("c").is_none());
    match document {
        Json::Object(members) => assert_eq!(members[0].0, "a"),
        _ => panic!("an object"),
    }
    assert!(json::read("{} x").is_err());
}

#[test]
fn resolve_texts_map_hosts_and_ports() {
    let config = ResolveConfig::load_from_json(
        r#"{"a.example:443; c.example": "10.0.0.1:8443", "b.example": "10.0.0.2"}"#,
    )
    .unwrap();
    assert_eq!(config.resolve("a.example", 443), Some(("10.0.0.1".to_string(), 8443)));
    assert_eq!(config.resolve("c.example", 1), Some(("10.0.0.1".to_string(), 8443)));
    assert_eq!(config.resolve("b.example", 99), Some(("10.0.0.2".to_string(), 99)));
    let refused = |text: &str| ResolveConfig::load_from_json(text).err();
    assert_eq!(refused("nothing"), Some(ResolveError::NotJson));
    assert_eq!(refused("[]"), Some(ResolveError::NotAnObject));
    assert_eq!(refused(r#"{"a": {}}"#), Some(ResolveError::NotAString));
    assert_eq!(refused(r#"{"a": "b:c"}"#), Some(ResolveError::InvalidPort));
}

#[test]
fn resolve_documents_map_hosts_and_ports() {
    let raw = Json::Object(vec![
        ("a.example:443".into(), text("10.0.0.1:8443")),
        ("b.example".into(), text("10.0.0.2")),
    ]);
    let config = ResolveConfig::from_json(&raw).unwrap();
    assert_eq!(config.resolve("a.example", 443), Some(("10.0.0.1".to_string(), 8443)));
    assert_eq!(config.resolve("a.example", 80), None);
    assert_eq!(config.resolve("b.example", 99), Some(("10.0.0.2".to_string(), 99)));
    assert!(matches!(ResolveConfig::from_json(&text("x")), Err(ResolveError::NotAnObject)));
    let number = Json::Object(vec![("a".into(), Json::Number("1".into()))]);
    assert!(matches!(ResolveConfig::from_json(&number), Err(ResolveError::NotAString)));
}

#[test]
fn hosts_and_ports_are_parsed() {
    let parsed = HostAndPort::parse("a.example:80").unwrap();
    assert_eq!((parsed.host(), parsed.port()), ("a.example", 80));
    assert!(HostAndPort::parse("a.example").is_err());
    assert_eq!(HostAndPort::parse("a:70000").unwrap_err().cause, "70000 (in a:70000) is not valid port");
    assert_eq!(HostAndPort::parse("a:\u{663}").unwrap_err().cause, "\u{663} (in a:\u{663}) is not valid port");
    assert!(HostAndPort::parse("a:\u{b2}").unwrap_err().cause.starts_with("unsupported HostAndPort spec"));
    assert_eq!(HostAndPort::parse_or_default("a.example", 443).to_string(), "a.example:443");
    assert_eq!(GeneralError::wrap("x".into()).msg, "x");
    assert_eq!(GeneralError::wrap_box("y".into()).to_text(), "y");
}

#[test]
fn http_dates_are_utc() {
    assert_eq!(http_date(0).as_deref(), Some("Thu, 01 Jan 1970 00:00:00 GMT"));
    assert_eq!(http_date(1_000_000_000).as_deref(), Some("Sun, 09 Sep 2001 01:46:40 GMT"));
    assert_eq!(http_date(i64::MAX), None);
}

#[test]
fn sorting_is_stable() {
    let a = |v4: bool, e: &str| ResolvedAddress { v4, endpoint: e.into() };
    let sorted = sort_vec(vec![a(false, "1"), a(true, "2"), a(false, "3"), a(true, "4")]);
    assert_eq!(sorted.iter().map(|r| r.endpoint.as_str()).collect::<Vec<_>>(), vec!["2", "4", "1", "3"]);
}
