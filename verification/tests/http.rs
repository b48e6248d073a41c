use tlsproxy::accounting::ConnStatus;
use tlsproxy::active_tracker::{put, remove, ActiveTracker};
use tlsproxy::conn_stream::ConnStream;
use tlsproxy::dataplane::http::encode::{decode, BodyEncoder, CompressedBody, StreamError};
use tlsproxy::dataplane::http::exchange::{Exchange, Request, RequestEnd, RequestReply, RequestStage};
use tlsproxy::dataplane::http::error_pages::{default_detail, html_escape, reason, render};
use tlsproxy::dataplane::http::listing::{breadcrumbs, directory_page, listing_date, paginate, ListedEntry, Listing, NamedEntry};
use tlsproxy::dataplane::http::static_files::{
    accepts_encoding, after_chunk, canonical_beneath, compressible, content_type, decode_path, entity_tag, error_response, icon_for,
    listing_response, negotiate_encoding, next_chunk, not_found, parse_range, percent_decode, plan_entry,
    plan_request, query_after, redirect, serve_file, url_escape, DecodeError, Encoding, EntryPlan, FileAnswer,
    FileFacts, FileRequest, Found, Physical, RangeSpec, RequestPlan, Stamp, OPTIONS_RESPONSE,
};
use tlsproxy::dataplane::http::{
    accept_request, challenge, credentials_permit, is_permitted, read_response_head, redirect_https, response_status,
    route_path, select_backend, BackendChoice, HeadIntercept, HeadProgress, PathOutcome, ReceivedHead, RequestRefusal,
};
use tlsproxy::dataplane::pipeline::Intercept;
use tlsproxy::forward::group::SelectedTarget;
use tlsproxy::hello_cache::{insert_request_token, Cache};
use tlsproxy::http_header::{
    find_head_end, next_read, parse_head, HeadError, HeadFault, HttpHead, ReadStep, DEFAULT_MAX_HTTP_HEADER_SIZE,
};
use tlsproxy::net::IpAddr;
use tlsproxy::relay::SocketAddr;
use tlsproxy::request_id::RequestId;
use tlsproxy::runtime_config::{
    HttpBasicAuth, HttpBasicAuthUser, HttpLoadBalancing, HttpPathAction, HttpPathRoute, HttpRedirectConfig,
    HttpRouteAction, UpstreamTransport,
};

fn parse(request: &str) -> Result<HttpHead, HeadError> {
    let buffered = request.as_bytes().to_vec();
    match next_read(&buffered, DEFAULT_MAX_HTTP_HEADER_SIZE) {
        ReadStep::Parse(end) => parse_head(buffered, end),
        ReadStep::Read(_) => panic!("the head is not complete"),
        ReadStep::TooLarge => Err(HeadError::too_large(DEFAULT_MAX_HTTP_HEADER_SIZE)),
    }
}

#[test]
fn parses_host_and_optional_port() {
    let head = parse("GET / HTTP/1.1\r\nHost: example.com\r\n\r\n").unwrap();
    assert_eq!(head.host, "example.com");
    assert_eq!(head.port, None);

    let head = parse("GET / HTTP/1.1\r\nHOST: example.com:8080\r\n\r\n").unwrap();
    assert_eq!(head.host, "example.com");
    assert_eq!(head.port, Some(8080));
    assert_eq!(head.host_raw, "example.com:8080");

    let head = parse("GET / HTTP/1.0\r\nHost: [::1]:8443\r\n\r\n").unwrap();
    assert_eq!(head.host, "::1");
    assert_eq!(head.port, Some(8443));
}

#[test]
fn tolerates_bare_lf_line_endings() {
    let head = parse("GET / HTTP/1.1\nHost: lf.example\n\n").unwrap();
    assert_eq!(head.host, "lf.example");
}

#[test]
fn reads_fragmented_request_and_keeps_body_prefix() {
    let request = b"POST /submit HTTP/1.1\r\nHost: frag.example\r\nContent-Length: 5\r\n\r\nhello".to_vec();
    let mut buffered: Vec<u8> = Vec::new();
    let mut chunks = request.chunks(7);
    let end = loop {
        match next_read(&buffered, DEFAULT_MAX_HTTP_HEADER_SIZE) {
            ReadStep::Parse(end) => break end,
            ReadStep::Read(room) => {
                assert!(room > 0);
                buffered.extend_from_slice(chunks.next().unwrap());
            }
            ReadStep::TooLarge => panic!("the head is small"),
        }
    };
    for chunk in chunks {
        buffered.extend_from_slice(chunk);
    }
    let head = parse_head(buffered, end).unwrap();
    assert_eq!(head.host, "frag.example");
    assert_eq!(head.buffered, request);
    assert!(head.buffered.ends_with(b"hello"));
    assert_eq!(head.body_prefix(), b"hello");
}

#[test]
fn rejects_missing_or_duplicate_host() {
    let error = parse("GET / HTTP/1.1\r\nAccept: */*\r\n\r\n").unwrap_err();
    assert!(error.message().contains("Host header"));
    let error = parse("GET / HTTP/1.1\r\nHost: a\r\nHost: b\r\n\r\n").unwrap_err();
    assert!(error.message().contains("multiple Host"));
}

#[test]
fn rejects_non_http1_traffic() {
    let error = parse("PRI * HTTP/2.0\r\n\r\nSM\r\n\r\n").unwrap_err();
    assert!(error.message().contains("HTTP/1.x"));
    let error = parse("\x16\x03\x01 not http\r\n\r\n").unwrap_err();
    assert!(error.message().contains("HTTP"));
}

#[test]
fn rejects_head_over_limit() {
    let request = format!("GET / HTTP/1.1\r\nHost: big.example\r\nX-Pad: {}\r\n\r\n", "a".repeat(64));
    assert!(matches!(next_read(&request.as_bytes()[..32], 32), ReadStep::TooLarge));
    assert_eq!(HeadError::too_large(32).message(), "HTTP request head exceeds the 32-byte limit");
}

#[test]
fn each_malformed_head_has_its_error() {
    let error = |request: &str| parse(request).unwrap_err().fault;
    assert_eq!(error("GET / HTTP/1.1\r\nHost: \r\n\r\n"), HeadFault::EmptyHost);
    assert_eq!(error("GET / HTTP/1.1\r\nHost: [::1\r\n\r\n"), HeadFault::InvalidIpv6Host);
    assert_eq!(error("GET / HTTP/1.1\r\nHost: :80\r\n\r\n"), HeadFault::InvalidHost);
    assert_eq!(error("GET / HTTP/1.1\r\nHost: a:x\r\n\r\n"), HeadFault::InvalidPort);
    assert_eq!(error("GET / HTTP/1.1\r\nno colon\r\n\r\n"), HeadFault::MalformedHeader);
    assert_eq!(error("GET / HTTP/1.1\r\nHost: a\r\n b\r\n\r\n"), HeadFault::FoldedHost);
    assert_eq!(error("GET\r\n\r\n"), HeadFault::MalformedRequestLine);
    let raw = b"GET / HTTP/1.1\r\nHost: \xff\r\n\r\n".to_vec();
    let end = find_head_end(&raw).unwrap();
    assert_eq!(parse_head(raw, end).unwrap_err().fault, HeadFault::NotUtf8);
    let said = |request: &str| parse(request).unwrap_err().message();
    assert_eq!(said("PRI * HTTP/2.0\r\n\r\n"), "only HTTP/1.x requests are supported, got `HTTP/2.0`");
    assert_eq!(said("GET /\r\n\r\n"), "only HTTP/1.x requests are supported, got ``");
    assert_eq!(said("GET / HTTP/1.1\r\nHost: [::1\r\n\r\n"), "invalid IPv6 Host header `[::1`");
    assert_eq!(said("GET / HTTP/1.1\r\nHost: :80\r\n\r\n"), "invalid HTTP Host header `:80`");
    assert_eq!(said("GET / HTTP/1.1\r\nHost: a:x\r\n\r\n"), "invalid port in Host header `a:x`");
}

#[test]
fn injects_forwarding_headers_and_merges_existing_chain() {
    let head = parse(
        "GET /path HTTP/1.1\r\nHost: app.example:8080\r\nX-Forwarded-For: 10.0.0.9\r\nX-Forwarded-Proto: https\r\nForwarded: for=10.0.0.9\r\nAccept: */*\r\n\r\n",
    )
    .unwrap();
    let rewritten = head.with_forwarded_headers(&IpAddr::V4(192, 0, 2, 7));
    let text = String::from_utf8(rewritten).unwrap();
    assert!(text.starts_with("GET /path HTTP/1.1\r\n"));
    assert!(text.contains("Host: app.example:8080\r\n"));
    assert!(text.contains("Accept: */*\r\n"));
    assert!(text.contains("X-Forwarded-For: 10.0.0.9, 192.0.2.7\r\n"));
    assert!(text.contains("X-Forwarded-Host: app.example:8080\r\n"));
    assert!(text.contains("X-Forwarded-Proto: http\r\n"));
    assert!(text.contains("Forwarded: for=10.0.0.9, for=192.0.2.7;host=app.example:8080;proto=http\r\n"));
    assert!(text.ends_with("\r\n\r\n"));
    // the client-sent proto must not survive
    assert!(!text.contains("https"));
}

#[test]
fn forwarded_header_quotes_ipv6_and_body_passes_through() {
    let head = parse("POST / HTTP/1.1\r\nHost: v6.example\r\nContent-Length: 4\r\n\r\nbody").unwrap();
    let ip = IpAddr::V6 { segments: vec![0x2001, 0xdb8, 0, 0, 0, 0, 0, 1], text: "2001:db8::1".into() };
    let text = String::from_utf8(head.with_forwarded_headers(&ip)).unwrap();
    assert!(text.contains("X-Forwarded-For: 2001:db8::1\r\n"));
    assert!(text.contains("Forwarded: for=\"[2001:db8::1]\";host=v6.example;proto=http\r\n"));
    assert!(text.ends_with("\r\n\r\nbody"));
}

#[test]
fn head_intercept_yields_head_and_keeps_body_prefix() {
    let mut counter = 0;
    let buffered = b"POST /submit HTTP/1.1\r\nHost: h.example\r\nContent-Length: 4\r\n\r\nBODY".to_vec();
    let head_len = find_head_end(&buffered).unwrap();
    let intercept = HeadIntercept::new(ConnStream::of((), &mut counter), 1000);
    let done = intercept.intercept(ReceivedHead { buffered, head_len }).ok().unwrap();
    assert_eq!(done.artifact.host, "h.example");
    assert_eq!(done.artifact.method(), "POST");
    assert_eq!(done.artifact.target(), "/submit");
    assert_eq!(done.artifact.header_value("CONTENT-LENGTH").as_deref(), Some("4"));
    assert_eq!(done.artifact.body_prefix(), b"BODY");
}

#[test]
fn upgrade_response_head_is_read_through_blank_line_with_early_body_bytes() {
    let mut head = Vec::new();
    let answer = b"HTTP/1.1 101 Switching Protocols\r\nUpgrade: websocket\r\nConnection: Upgrade\r\n\r\n\x81\x05hello";
    assert_eq!(read_response_head(&mut head, &answer[..20]), HeadProgress::More);
    assert_eq!(read_response_head(&mut head, &answer[20..]), HeadProgress::Complete);
    assert_eq!(response_status(&head), Some(101));
    // Bytes past the blank line (an early WebSocket frame) ride along.
    assert!(head.ends_with(b"\x81\x05hello"));

    let mut head = Vec::new();
    let answer = b"HTTP/1.1 400 Bad Request\r\nContent-Length: 0\r\n\r\n";
    assert_eq!(read_response_head(&mut head, answer), HeadProgress::Complete);
    assert_eq!(response_status(&head), Some(400));
    assert_eq!(response_status(b"garbage\r\n\r\n"), None);
    assert_eq!(read_response_head(&mut Vec::new(), b""), HeadProgress::Closed);
    assert_eq!(read_response_head(&mut Vec::new(), &vec![b'a'; 70000]), HeadProgress::TooLarge);
}

#[test]
fn https_redirect_preserves_path_query_and_omits_standard_port() {
    let response = redirect_https("example.com", "/app?q=1", &None, 443);
    assert!(response.contains("HTTP/1.1 308 Permanent Redirect"));
    assert!(response.contains("Location: https://example.com/app?q=1\r\n"));
}

#[test]
fn https_redirect_applies_hostname_and_port_override() {
    let config = HttpRedirectConfig {
        hostname: Some("new.example".into()),
        port: Some(8443),
        status: 301,
        preserve_host: false,
    };
    let response = redirect_https("old.example", "/old", &Some(config), 443);
    assert!(response.contains("HTTP/1.1 301 Moved Permanently"));
    assert!(response.contains("Location: https://new.example:8443/old\r\n"));
}

fn auth() -> HttpBasicAuth {
    HttpBasicAuth {
        enabled: true,
        users: vec![HttpBasicAuthUser { username: "alice".into(), password: "secret".into() }],
    }
}

#[test]
fn basic_auth_accepts_matching_pair_and_challenges_bad_credentials() {
    assert!(is_permitted(&auth(), &Some("Basic YWxpY2U6c2VjcmV0".into())));
    assert!(!is_permitted(&auth(), &Some("Basic YWxpY2U6d3Jvbmc=".into())));
    assert!(!is_permitted(&auth(), &None));
    assert!(credentials_permit(&auth(), &Some(b"alice:secret".to_vec())));
    assert!(!credentials_permit(&auth(), &Some(b"alice:wrong".to_vec())));
    let head = parse("GET / HTTP/1.1\r\nHost: example.com\r\nAuthorization: Basic YWxpY2U6c2VjcmV0\r\n\r\n").unwrap();
    let rewritten = String::from_utf8(head.rewritten(&IpAddr::V4(127, 0, 0, 1), true)).unwrap();
    assert!(!rewritten.to_ascii_lowercase().contains("authorization:"));
    let response = challenge();
    assert!(response.starts_with("HTTP/1.1 401 Unauthorized"));
    assert!(response.contains("WWW-Authenticate: Basic"));
}

fn proxy_action() -> HttpRouteAction {
    HttpRouteAction {
        backends: Vec::new(),
        paths: Vec::new(),
        target: Some("localhost:9001".into()),
        target_port: 80,
        upstream: UpstreamTransport::Plaintext,
        host_header: None,
        load_balancing: HttpLoadBalancing::RoundRobin,
    }
}

#[test]
fn disabled_basic_auth_lets_every_request_pass() {
    assert!(is_permitted(&HttpBasicAuth::default(), &Some("Basic YWxpY2U6c2VjcmV0".into())));
    assert!(is_permitted(&HttpBasicAuth::default(), &None));
    let route = HttpPathRoute {
        prefix: "/files/".into(),
        strip_prefix: true,
        basic_auth: auth(),
        action: HttpPathAction::StaticFiles {
            document_root: "/srv".into(),
            index: None,
            directory_listing: true,
        },
    };
    assert!(matches!(
        route_path("key", &proxy_action(), Some(&route), &None, false),
        PathOutcome::Answer(a) if a.starts_with("HTTP/1.1 401")
    ));
    assert!(matches!(
        route_path("key", &proxy_action(), Some(&route), &Some("Basic YWxpY2U6c2VjcmV0".into()), false),
        PathOutcome::Files { document_root: "/srv", directory_listing: true, .. }
    ));
    assert!(matches!(route_path("key", &proxy_action(), None, &None, false), PathOutcome::Host));
}

#[test]
fn looped_and_misdirected_requests_are_refused() {
    let mut counter = 0;
    let id = RequestId::new(&mut counter);
    let mut tracker = ActiveTracker::new();
    put(&mut tracker, &id, "web", "1.2.3.4:5", 0, 0);
    let mut seen = Cache::new();
    let head = parse("GET / HTTP/1.1\r\nHost: app.example\r\n\r\n").unwrap();
    let tokens = vec!["cafe".to_string()];
    let mut accept = |seen: &mut Cache, sni: Option<&str>| {
        accept_request(seen, &mut tracker, &id, &head, &tokens, &sni.map(|s| s.to_string()), 1)
    };
    assert_eq!(accept(&mut seen, Some("APP.example.")), Ok(head.head_len));
    assert_eq!(accept(&mut seen, Some("other.example")), Err(RequestRefusal::WrongHost));
    assert_eq!(
        RequestRefusal::WrongHost.message("other.example", "app.example"),
        "HTTPS SNI `other.example` does not match HTTP Host `app.example`"
    );
    insert_request_token(&mut seen, "cafe", 0);
    insert_request_token(&mut seen, "other", 0);
    assert_eq!(accept(&mut seen, None), Err(RequestRefusal::Looped));
    assert!(accept(&mut seen, None).is_ok(), "a token is consumed");
    assert_eq!(seen.by_key.len(), 1, "other tokens stay");
    let (closed, _) = remove(&mut tracker, &id).unwrap();
    assert_eq!(closed.sni, "app.example");
    assert_eq!(closed.uploaded_bytes, 2 * head.head_len as u64);
}

fn request<'a>(id: &RequestId, route: Option<&'a HttpRouteAction>, path: Option<&'a HttpPathRoute>) -> Request<'a> {
    Request {
        request_id: id.copy(),
        head: parse("GET /x HTTP/1.1\r\nHost: app.example\r\n\r\n").unwrap(),
        tokens: Vec::new(),
        expected_sni: None,
        authorization: None,
        head_only: false,
        upgrade: false,
        key: "app".into(),
        route,
        path,
        fixed_backends: false,
        default_port: 80,
        upstream_tls: false,
        bind: Some(SocketAddr { ip: IpAddr::V4(127, 0, 0, 1), port: 8443 }),
    }
}

fn backend(port: u16, tls: bool) -> RequestReply {
    RequestReply::Selected {
        target: SelectedTarget { endpoint: "127.0.0.1:1".into(), tls_server_name: "b.example".into() },
        tls,
        addresses: vec![SocketAddr { ip: IpAddr::V4(127, 0, 0, 1), port }],
    }
}

#[test]
fn a_request_counts_as_served_once_connected() {
    let mut counter = 0;
    let id = RequestId::new(&mut counter);
    let mut tracker = ActiveTracker::new();
    let mut seen = Cache::new();
    put(&mut tracker, &id, "web", "1.2.3.4:5", 0, 0);
    let action = proxy_action();
    let mut exchange = Exchange::new(request(&id, Some(&action), None));
    assert_eq!(exchange.run(&mut seen, &mut tracker, RequestReply::Done, 1), RequestStage::Framing);
    let selecting = exchange.run(&mut seen, &mut tracker, RequestReply::Done, 1);
    assert_eq!(selecting, RequestStage::Selecting(BackendChoice::Route));
    let connecting = exchange.run(&mut seen, &mut tracker, backend(1, true), 1);
    assert_eq!(connecting, RequestStage::Connecting { seconds: 5 });
    let wrapping = exchange.run(&mut seen, &mut tracker, RequestReply::Done, 1);
    assert_eq!(wrapping, RequestStage::Wrapping { seconds: 10 });
    assert_eq!(exchange.run(&mut seen, &mut tracker, RequestReply::Done, 1), RequestStage::Sending);
    let relaying = exchange.run(&mut seen, &mut tracker, RequestReply::Done, 1);
    assert_eq!(relaying, RequestStage::Relaying { tunnel: false });
    let over = exchange.run(&mut seen, &mut tracker, RequestReply::Done, 1);
    assert_eq!(over, RequestStage::Closed(RequestEnd::Relayed));
    let (closed, _) = remove(&mut tracker, &id).unwrap();
    assert_eq!((closed.status, closed.target_endpoint.as_str()), (ConnStatus::Success, "127.0.0.1:1"));
    assert_eq!((closed.sni.as_str(), closed.target_host.as_str()), ("app.example", "b.example"));

    put(&mut tracker, &id, "web", "1.2.3.4:5", 0, 0);
    let mut exchange = Exchange::new(request(&id, None, None));
    exchange.run(&mut seen, &mut tracker, RequestReply::Done, 1);
    let selecting = exchange.run(&mut seen, &mut tracker, RequestReply::Done, 1);
    assert_eq!(selecting, RequestStage::Selecting(BackendChoice::Host { port: 80 }));
    exchange.run(&mut seen, &mut tracker, backend(1, true), 1);
    assert!(!exchange.upstream_tls, "a host that the client names is reached in the clear");
    let failed = exchange.run(&mut seen, &mut tracker, RequestReply::Failed, 1);
    assert_eq!(failed, RequestStage::Answered { status: 502 });
    assert!(exchange.page.as_deref().unwrap().starts_with("HTTP/1.1 502 Bad Gateway\r\n"));
    assert_eq!(exchange.run(&mut seen, &mut tracker, RequestReply::Done, 1), failed, "an answer is final");
    assert_eq!(remove(&mut tracker, &id).unwrap().0.status, ConnStatus::ConnectFailed);
}

#[test]
fn requests_end_where_they_cannot_go_on() {
    let mut counter = 0;
    let id = RequestId::new(&mut counter);
    let mut tracker = ActiveTracker::new();
    let mut seen = Cache::new();
    let mut ambiguous = Exchange::new(request(&id, None, None));
    ambiguous.run(&mut seen, &mut tracker, RequestReply::Done, 1);
    let bad = ambiguous.run(&mut seen, &mut tracker, RequestReply::Failed, 1);
    assert_eq!(bad, RequestStage::Answered { status: 400 });
    let mut looped = Exchange::new(request(&id, None, None));
    looped.run(&mut seen, &mut tracker, RequestReply::Done, 1);
    looped.run(&mut seen, &mut tracker, RequestReply::Done, 1);
    let own = looped.run(&mut seen, &mut tracker, backend(8443, false), 1);
    assert_eq!(own, RequestStage::Closed(RequestEnd::SelfConnect));
    let mut wrong = request(&id, None, None);
    wrong.expected_sni = Some("other.example".into());
    let mut wrong = Exchange::new(wrong);
    let refused = wrong.run(&mut seen, &mut tracker, RequestReply::Done, 1);
    assert_eq!(refused, RequestStage::Closed(RequestEnd::Refused(RequestRefusal::WrongHost)));
    let path = HttpPathRoute {
        prefix: "/x".into(),
        strip_prefix: true,
        basic_auth: auth(),
        action: HttpPathAction::ReverseProxy { action: proxy_action() },
    };
    let host = proxy_action();
    let mut locked = Exchange::new(request(&id, Some(&host), Some(&path)));
    let asked = locked.run(&mut seen, &mut tracker, RequestReply::Done, 1);
    assert_eq!(asked, RequestStage::Answered { status: 401 });
    let mut known = request(&id, Some(&host), Some(&path));
    known.authorization = Some("Basic YWxpY2U6c2VjcmV0".into());
    let mut known = Exchange::new(known);
    assert_eq!(known.run(&mut seen, &mut tracker, RequestReply::Done, 1), RequestStage::Framing);
    assert_eq!((known.key.as_str(), known.stripped), ("app:/x", true));
}

fn path_request(enabled: bool) -> HttpPathRoute {
    HttpPathRoute {
        prefix: "/processmaster/".into(),
        strip_prefix: false,
        basic_auth: HttpBasicAuth { enabled, ..auth() },
        action: HttpPathAction::ReverseProxy { action: proxy_action() },
    }
}

#[test]
fn only_a_protected_path_keeps_credentials_from_the_upstream() {
    let mut counter = 0;
    let id = RequestId::new(&mut counter);
    let mut tracker = ActiveTracker::new();
    let mut seen = Cache::new();
    let host = proxy_action();
    let client = IpAddr::V4(127, 0, 0, 1);
    for enabled in [false, true] {
        let path = path_request(enabled);
        let mut asked = request(&id, Some(&host), Some(&path));
        asked.head = parse(
            "GET /processmaster/ HTTP/1.1\r\nHost: public.example\r\nAuthorization: Basic YWxpY2U6c2VjcmV0\r\n folded\r\nAccept: */*\r\n\r\nBODY",
        )
        .unwrap();
        asked.authorization = Some("Basic YWxpY2U6c2VjcmV0".into());
        let mut exchange = Exchange::new(asked);
        assert!(!exchange.authorization_consumed);
        assert_eq!(exchange.run(&mut seen, &mut tracker, RequestReply::Done, 1), RequestStage::Framing);
        assert_eq!(exchange.authorization_consumed, enabled);
        let sent = String::from_utf8(exchange.upstream_head(&client)).unwrap();
        assert!(sent.starts_with("GET /processmaster/ HTTP/1.1\r\nHost: public.example\r\n"));
        assert!(sent.contains("\r\nAccept: */*\r\n") && sent.ends_with("\r\n\r\nBODY"));
        assert_eq!(sent.contains("Authorization: Basic YWxpY2U6c2VjcmV0\r\n folded\r\n"), !enabled);
        assert_eq!(sent.to_ascii_lowercase().contains("authorization:"), !enabled);
        let head = &exchange.request.head;
        assert_eq!(head.rewritten(&client, false), head.with_forwarded_headers(&client));
    }
}

#[test]
fn requests_go_through_their_stages() {
    let mut counter = 0;
    let id = RequestId::new(&mut counter);
    let mut tracker = ActiveTracker::new();
    let mut seen = Cache::new();
    for (head, tunnel) in [("HTTP/1.1 101 Switching Protocols\r\n\r\n", true), ("HTTP/1.1 200 OK\r\n\r\n", false)] {
        put(&mut tracker, &id, "web", "1.2.3.4:5", 0, 0);
        let mut asked = request(&id, None, None);
        asked.upgrade = true;
        let mut exchange = Exchange::new(asked);
        exchange.run(&mut seen, &mut tracker, RequestReply::Done, 1);
        exchange.run(&mut seen, &mut tracker, RequestReply::Done, 1);
        exchange.run(&mut seen, &mut tracker, backend(1, false), 1);
        assert_eq!(exchange.run(&mut seen, &mut tracker, RequestReply::Done, 1), RequestStage::Sending);
        assert_eq!(exchange.run(&mut seen, &mut tracker, RequestReply::Done, 1), RequestStage::AwaitingHead);
        let relaying = exchange.run(&mut seen, &mut tracker, RequestReply::Head(head.as_bytes().to_vec()), 1);
        assert_eq!(relaying, RequestStage::Relaying { tunnel });
        assert_eq!(remove(&mut tracker, &id).unwrap().0.downloaded_bytes, head.len() as u64);
    }
    assert!(matches!(select_backend(true, false, None, 80), BackendChoice::Route));
    assert!(matches!(select_backend(false, true, None, 80), BackendChoice::Listener));
    assert!(matches!(select_backend(false, false, Some(8080), 80), BackendChoice::Host { port: 8080 }));
    assert!(matches!(select_backend(false, false, None, 80), BackendChoice::Host { port: 80 }));
}

#[test]
fn error_page_is_self_contained_and_escapes_detail() {
    let page = render(404, "Not Found", "no <script> here");
    assert!(page.contains("<h1>404</h1>"));
    assert!(page.contains("no &lt;script&gt; here"));
    assert!(!page.contains("no <script>"));
    assert!(!page.contains("http://"), "no external resources");
    assert!(page.contains("<svg"));
}

#[test]
fn error_responses_carry_their_page() {
    assert_eq!(html_escape("a<b>&\"c\""), "a&lt;b&gt;&amp;&quot;c&quot;");
    assert_eq!(reason(404), "Not Found");
    assert!(!default_detail(404).is_empty());
    let full = error_response(403, false);
    let head = error_response(403, true);
    assert!(full.starts_with("HTTP/1.1 403 Forbidden\r\n"));
    assert!(head.ends_with("\r\n\r\n"));
    assert!(full.starts_with(&head));
    assert!(not_found(false).starts_with("HTTP/1.1 404 Not Found\r\n"));
    assert_eq!(
        redirect("/a/"),
        "HTTP/1.1 301 Moved Permanently\r\nLocation: /a/\r\nContent-Length: 0\r\nConnection: close\r\n\r\n"
    );
    assert!(listing_response("\u{fc}", false).contains("Content-Length: 2\r\n"));
}

#[test]
fn static_files_traversal_is_rejected_after_decoding() {
    assert!(decode_path("../secret").is_err());
    assert!(decode_path("%2e%2e/secret").is_err());
    assert!(decode_path("assets/app.js").is_ok());
    assert!(decode_path("a%00b").is_err());
}

#[test]
fn traversal_is_rejected_after_decoding() {
    assert!(decode_path("../secret").is_err());
    assert!(decode_path("%2e%2e/secret").is_err());
    assert!(decode_path("assets/app.js").is_ok());
}

#[test]
fn links_may_lead_anywhere_within_the_root() {
    let path = |parts: &[&str]| parts.iter().map(|p| p.as_bytes().to_vec()).collect::<Vec<Vec<u8>>>();
    let root = path(&["/", "srv", "www"]);
    let at = |parts: &[&str]| canonical_beneath(&root, &Physical::At(path(parts)));
    assert_eq!(at(&["/", "srv", "www", "inside.txt"]), Ok(true));
    assert_eq!(at(&["/", "srv", "www"]), Ok(true));
    assert!(at(&["/", "srv", "www2", "secret.txt"]).is_err(), "a name that only begins alike is another directory");
    assert!(at(&["/", "srv"]).is_err());
    assert_eq!(canonical_beneath(&root, &Physical::Missing), Ok(false));
    assert!(canonical_beneath(&root, &Physical::Failed).is_err());
}

#[test]
fn each_decoding_failure_has_its_error() {
    assert_eq!(decode_path("/etc").unwrap_err(), DecodeError::Escapes);
    assert_eq!(decode_path("a%2").unwrap_err(), DecodeError::InvalidPercent);
    assert_eq!(decode_path("a%00").unwrap_err(), DecodeError::NulByte);
    assert_eq!(decode_path("%ff").unwrap_err(), DecodeError::NotUtf8);
    assert_eq!(percent_decode("a%20b").unwrap(), "a b");
    for odd in ["a b/\u{fc}&?", "100%", "%2e%2e", "\u{7f}\u{1}\u{65e5}\u{1f600}", ""] {
        assert_eq!(percent_decode(&url_escape(odd)).unwrap(), odd);
        assert_eq!(query_after(&format!("after={}", url_escape(odd))).as_deref(), Some(odd));
    }
    assert_eq!(query_after("x=1&after=a%26b").as_deref(), Some("a&b"));
    assert_eq!(query_after("x=1"), None);
}

#[test]
fn range_parsing_covers_bounded_open_and_suffix_forms() {
    assert!(matches!(parse_range("bytes=0-99", 1000), Some(RangeSpec::Bounded { start: 0, end: 99 })));
    assert!(matches!(parse_range("bytes=500-", 1000), Some(RangeSpec::Bounded { start: 500, end: 999 })));
    assert!(matches!(parse_range("bytes=-100", 1000), Some(RangeSpec::Bounded { start: 900, end: 999 })));
    assert!(matches!(parse_range("bytes=0-5000", 1000), Some(RangeSpec::Bounded { start: 0, end: 999 })));
    assert!(matches!(parse_range("bytes=1000-", 1000), Some(RangeSpec::Unsatisfiable)));
    assert!(parse_range("bytes=5-2", 1000).is_none());
    assert!(parse_range("bytes=0-1,5-9", 1000).is_none());
    assert!(parse_range("items=0-1", 1000).is_none());
}

#[test]
fn encoding_negotiation_honors_type_size_and_preference() {
    let accept = |value: &str| Some(value.to_string());
    let text = "text/plain; charset=utf-8";
    assert_eq!(negotiate_encoding(&accept("gzip, deflate"), text, 4096), Encoding::Gzip);
    assert_eq!(negotiate_encoding(&accept("zstd, gzip"), text, 4096), Encoding::Zstd);
    assert_eq!(negotiate_encoding(&accept("gzip;q=0"), text, 4096), Encoding::Identity);
    assert_eq!(negotiate_encoding(&accept("gzip"), text, 64), Encoding::Identity, "tiny bodies stay identity");
    assert_eq!(negotiate_encoding(&accept("gzip"), "image/png", 1 << 20), Encoding::Identity, "already-compressed types stay identity");
    assert_eq!(negotiate_encoding(&None, text, 4096), Encoding::Identity);
    assert_ne!(entity_tag(10, None, Encoding::Gzip), entity_tag(10, None, Encoding::Identity));
    assert!(accepts_encoding("br, GZIP ; q=0.5", "gzip"));
    assert!(compressible("application/json"));
    assert!(!compressible("application/zip"));
}

fn entry(name: &str, is_dir: bool) -> NamedEntry {
    NamedEntry { name: name.into(), is_dir, is_symlink: false }
}

fn fruit() -> Vec<NamedEntry> {
    vec![
        entry("banana.txt", false),
        entry("apple.txt", false),
        entry("zoo", true),
        entry("cherry.txt", false),
        entry("date.txt", false),
    ]
}

#[test]
fn listing_pages_are_sorted_and_cursor_resumes_strictly_after() {
    let first = paginate(fruit(), &None, 2);
    assert_eq!(first.entries.iter().map(|e| e.name.as_str()).collect::<Vec<_>>(), vec!["apple.txt", "banana.txt"]);
    assert_eq!(first.next_after.as_deref(), Some("banana.txt"));
    assert_eq!(first.start_ordinal, 1);
    assert_eq!((first.directories, first.files), (1, 4));

    let second = paginate(fruit(), &first.next_after, 2);
    assert_eq!(second.entries.iter().map(|e| e.name.as_str()).collect::<Vec<_>>(), vec!["cherry.txt", "date.txt"]);
    assert_eq!(second.start_ordinal, 3);

    let third = paginate(fruit(), &second.next_after, 2);
    assert_eq!(third.entries.iter().map(|e| e.name.as_str()).collect::<Vec<_>>(), vec!["zoo"]);
    assert!(third.entries[0].is_dir);
    assert!(third.next_after.is_none());

    // A cursor naming a deleted entry still resumes at the right position.
    let resumed = paginate(fruit(), &Some("b-missing".to_string()), 100);
    assert_eq!(resumed.entries[0].name, "banana.txt");
}

#[test]
fn the_pages_of_a_directory_joined_are_all_of_it() {
    for size in 1..7 {
        let mut joined: Vec<String> = Vec::new();
        let mut after = None;
        loop {
            let page = paginate(fruit(), &after, size);
            assert_eq!(page.start_ordinal, joined.len() + 1);
            assert_eq!(page.directories + page.files, 5);
            assert!(page.entries.len() <= size);
            joined.extend(page.entries.into_iter().map(|e| e.name));
            after = page.next_after;
            if after.is_none() {
                break;
            }
        }
        assert_eq!(joined, ["apple.txt", "banana.txt", "cherry.txt", "date.txt", "zoo"]);
    }
}

#[test]
fn listing_shows_symlink_targets() {
    let listing = Listing {
        directories: 0,
        files: 1,
        start_ordinal: 1,
        entries: vec![ListedEntry {
            name: "alias".into(),
            is_dir: false,
            size: "4 B".into(),
            modified: None,
            link_target: Some("real.txt".into()),
        }],
        next_after: None,
    };
    let page = directory_page(&listing, "/files/");
    assert!(page.contains("real.txt</span>"), "symlink target shown in the link note");
}

#[test]
fn listing_html_escapes_names_and_links_next_page() {
    let listing = Listing {
        directories: 0,
        files: 2,
        start_ordinal: 1,
        entries: vec![ListedEntry { name: "<script>.txt".into(), is_dir: false, size: "10 B".into(), modified: None, link_target: None }],
        next_after: Some("a&b.txt".into()),
    };
    let page = directory_page(&listing, "/downloads/");
    assert!(page.contains("&lt;script&gt;.txt"));
    assert!(!page.contains("<script>.txt"));
    assert!(page.contains("?after=a%26b.txt"));
    assert_eq!(breadcrumbs("/a/b/"), "<a href=\"/\">/</a><a href=\"/a/\">a</a><i>/</i><span>b</span>");
    assert_eq!(listing_date(Some(Stamp { seconds: 0, nanos: 0 })), "1970-01-01 00:00");
}

fn facts(length: u64, content_type: &str) -> FileFacts {
    FileFacts { length, modified: Some(Stamp { seconds: 1_000_000_000, nanos: 5 }), content_type: content_type.into() }
}

fn ask() -> FileRequest {
    FileRequest {
        head_only: false,
        accept_encoding: None,
        range: None,
        if_range: None,
        if_none_match: None,
        if_modified_since: None,
    }
}

#[test]
fn conditional_and_range_requests_round_trip() {
    let data = facts(10, "application/octet-stream");
    let (answer, head) = serve_file(&ask(), &data);
    assert!(matches!(answer, FileAnswer::Whole));
    assert!(head.starts_with("HTTP/1.1 200 OK"));
    assert!(head.contains("Accept-Ranges: bytes"));
    assert!(head.contains("Vary: Accept-Encoding"));
    let etag = head.lines().find(|l| l.starts_with("ETag:")).unwrap().trim_start_matches("ETag:").trim().to_string();

    let (answer, head) = serve_file(&FileRequest { if_none_match: Some(etag), ..ask() }, &data);
    assert!(matches!(answer, FileAnswer::NotModified));
    assert!(head.starts_with("HTTP/1.1 304 Not Modified"));

    let (answer, head) = serve_file(&FileRequest { range: Some("bytes=2-5".into()), ..ask() }, &data);
    assert!(matches!(answer, FileAnswer::Part { start: 2, end: 5 }));
    assert!(head.starts_with("HTTP/1.1 206 Partial Content"));
    assert!(head.contains("Content-Range: bytes 2-5/10"));

    let stale = FileRequest { range: Some("bytes=2-5".into()), if_range: Some("\"different\"".into()), ..ask() };
    let (answer, head) = serve_file(&stale, &data);
    assert!(matches!(answer, FileAnswer::Whole));
    assert!(head.starts_with("HTTP/1.1 200 OK"));

    let (answer, head) = serve_file(&FileRequest { range: Some("bytes=99-".into()), ..ask() }, &data);
    assert!(matches!(answer, FileAnswer::RangeNotSatisfiable));
    assert!(head.starts_with("HTTP/1.1 416 Range Not Satisfiable"));

    match plan_request("OPTIONS", "/data.bin", "/", true) {
        RequestPlan::Respond(options) => {
            assert!(options.starts_with("HTTP/1.1 204 No Content"));
            assert!(options.contains("Allow: GET, HEAD, OPTIONS"));
            assert_eq!(options, OPTIONS_RESPONSE);
        }
        RequestPlan::Lookup { .. } => panic!("nothing is looked up"),
    }
}

#[test]
fn compressed_representations_have_their_own_tag() {
    let page = facts(4500, "text/plain; charset=utf-8");
    let gzip = FileRequest { accept_encoding: Some("gzip, deflate".into()), ..ask() };
    let (answer, head) = serve_file(&gzip, &page);
    assert!(matches!(answer, FileAnswer::Encoded(Encoding::Gzip)));
    assert!(head.contains("Content-Encoding: gzip"));
    assert!(!head.contains("Content-Length:"), "compressed bodies are close-delimited");
    let etag = head.lines().find(|l| l.starts_with("ETag:")).unwrap().trim_start_matches("ETag:").trim().to_string();
    assert!(etag.contains("-gz"));
    let again = FileRequest { accept_encoding: Some("gzip".into()), if_none_match: Some(etag), ..ask() };
    assert!(matches!(serve_file(&again, &page).0, FileAnswer::NotModified));
    let zstd = FileRequest { accept_encoding: Some("zstd, gzip".into()), ..ask() };
    assert!(serve_file(&zstd, &page).1.contains("Content-Encoding: zstd"), "zstd preferred over gzip");
    let ranged = FileRequest { range: Some("bytes=0-8".into()), accept_encoding: Some("gzip".into()), ..ask() };
    let (answer, head) = serve_file(&ranged, &page);
    assert!(matches!(answer, FileAnswer::Part { start: 0, end: 8 }));
    assert!(!head.contains("Content-Encoding:"));
    assert_eq!(Encoding::Zstd.token(), "zstd");
    assert_eq!(Encoding::Gzip.etag_suffix(), "-gz");
}

#[test]
fn missing_files_get_the_styled_error_page() {
    match plan_entry(Found::Missing, "/nope", false, true, false) {
        EntryPlan::Respond(page) => {
            assert!(page.starts_with("HTTP/1.1 404 Not Found"));
            assert!(page.contains("<svg"));
        }
        _ => panic!("there is nothing to serve"),
    }
    assert!(matches!(plan_entry(Found::Unresolved, "/x", false, true, false), EntryPlan::Respond(p) if p.starts_with("HTTP/1.1 403")));
    assert!(matches!(plan_entry(Found::File, "/x", false, true, false), EntryPlan::ServeFile));
    assert!(matches!(plan_entry(Found::Directory, "/x", false, true, false), EntryPlan::Respond(p) if p.contains("Location: /x/")));
    assert!(matches!(plan_entry(Found::Directory, "/x/", true, true, false), EntryPlan::ServeIndex));
    assert!(matches!(plan_entry(Found::Directory, "/x/", false, true, false), EntryPlan::List));
    assert!(matches!(plan_entry(Found::Directory, "/x/", false, false, false), EntryPlan::Respond(p) if p.starts_with("HTTP/1.1 403")));
    match plan_request("GET", "/app/a%20b.txt?after=x", "/app/", true) {
        RequestPlan::Lookup { path, request_path, query, head_only } => {
            assert_eq!((path.as_str(), request_path.as_str()), ("a b.txt", "/app/a%20b.txt"));
            assert_eq!(query.as_deref(), Some("after=x"));
            assert!(!head_only);
        }
        RequestPlan::Respond(_) => panic!("the path is fine"),
    }
    assert!(matches!(plan_request("POST", "/", "/", true), RequestPlan::Respond(p) if p.starts_with("HTTP/1.1 405")));
    assert!(matches!(plan_request("GET", "/", "/", false), RequestPlan::Respond(p) if p.starts_with("HTTP/1.1 500")));
    assert!(matches!(plan_request("GET", "/..", "/", true), RequestPlan::Respond(p) if p.starts_with("HTTP/1.1 400")));
}

#[test]
fn bodies_are_streamed_in_chunks() {
    assert_eq!(next_chunk(10_000), Some(4096));
    assert_eq!(next_chunk(10), Some(10));
    assert_eq!(next_chunk(0), None);
    assert_eq!(after_chunk(10, 4), Some(6));
    assert_eq!(after_chunk(10, 0), None, "the file was truncated");
    assert_eq!(content_type("Page.HTML"), "text/html; charset=utf-8");
    assert_eq!(content_type(".htaccess"), "application/octet-stream");
    assert!(!icon_for("a.zip", false).is_empty());
}

#[test]
fn compressed_bodies_round_trip_and_ranges_stay_plain() {
    let content = "tlsproxy ".repeat(1000);
    for encoding in [Encoding::Gzip, Encoding::Zstd] {
        let mut body = CompressedBody::start(encoding, content.len() as u64).unwrap();
        let mut sent = Vec::new();
        let mut read = 0;
        while let Some(want) = body.next_read() {
            sent.extend(body.stream_compressed(&content.as_bytes()[read..read + want]).unwrap());
            read += want;
        }
        sent.extend(body.finish().unwrap());
        assert!(sent.len() < content.len() / 4);
        assert_eq!(decode(encoding, &sent).unwrap(), content.as_bytes());
        assert!(decode(encoding, content.as_bytes()).is_none());
    }
    let mut short = CompressedBody::start(Encoding::Gzip, 5).unwrap();
    short.stream_compressed(b"abc").unwrap();
    assert_eq!(short.stream_compressed(b"").unwrap_err(), StreamError::Truncated);
    assert_eq!(short.take_ready(0, None).unwrap_err(), StreamError::NotEncoded);
    assert_eq!(short.remaining, 2, "a chunk that was not encoded is not counted");
    assert_eq!(short.finish().unwrap_err(), StreamError::Truncated);
    assert!(BodyEncoder::new(Encoding::Identity).is_none());
    assert_eq!(decode(Encoding::Identity, b"plain").unwrap(), b"plain");
    let mut empty = BodyEncoder::new(Encoding::Zstd).unwrap();
    let mut sent = empty.push(b"").unwrap();
    sent.extend(empty.finish().unwrap());
    assert_eq!(decode(Encoding::Zstd, &sent).unwrap(), b"");
    let ranged = FileRequest {
        head_only: false,
        accept_encoding: Some("gzip".into()),
        range: Some("bytes=0-8".into()),
        if_range: None,
        if_none_match: None,
        if_modified_since: None,
    };
    let facts = FileFacts { length: 9000, modified: None, content_type: "text/plain; charset=utf-8".into() };
    let (answer, head) = serve_file(&ranged, &facts);
    assert!(matches!(answer, FileAnswer::Part { start: 0, end: 8 }));
    assert!(head.starts_with("HTTP/1.1 206 Partial Content") && !head.contains("Content-Encoding:"));
}
