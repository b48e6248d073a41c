use tlsproxy::acme_types::{AcmeProvider, CertificateGeneration, ManagedCertificate, PublishPolicy, RetrievalToken};
use tlsproxy::admin_server::{
    check_dns_rules, content_type_for, credentials_match, is_authorized, listen_on, serve_static, start, stop,
    RangeHeader, SimpleOperationResult, ISE,
};
use tlsproxy::auth::{hash_password, token_hash, verify_password, PasswordError, SessionRecord, UserRecord};
use tlsproxy::config::{AdminServerConfig, RegexDnsRule};
use tlsproxy::control_api::publish::{
    bearer_token, create_retrieval_token, list_retrieval_tokens, publish, publish_certificate, token_for,
    PublishRequest, PublishVerdict, TokenRefusal,
};
use tlsproxy::control_api::session::{
    change_password, cookie_value, decide_login, login, logout_cookie, may_log_in, require_session, session_cookie, LoginAnswer,
    PasswordChangeError, SessionVerdict,
};
use tlsproxy::control_api::settings::{
    apply_runtime_config, delete_provider, import_mode, listener_operation, public_provider, put_config,
    rollback_config, save_certificate, save_provider, ApplyStep, ConfigFacts, DeleteVerdict, HostnameCertificate,
    ListenerOperation, RollbackVerdict, SaveVerdict,
};
use tlsproxy::control_api::stream::{accepts_event, initial_state, stream_events, StreamAction, StreamInput};
use tlsproxy::events_hub::Event;
use tlsproxy::manager::Status;
use tlsproxy::throttle::Throttle;

const NOW: i64 = 1784808000;

fn user(administrator: bool) -> UserRecord {
    UserRecord {
        username: "admin".into(),
        password_hash: hash_password("correct horse battery staple").unwrap(),
        administrator,
        created_at: None,
        disabled: false,
    }
}

#[test]
fn a_login_sets_a_secure_cookie_and_a_session() {
    let mut attempts = Throttle::new();
    match login(&mut attempts, "admin", "correct horse battery staple", &Some(user(true)), NOW, 0) {
        LoginAnswer::LoggedIn { session, token } => {
            assert_eq!(session.token_hash, token_hash(&token));
            assert_ne!(session.token_hash, token);
            for secret in [&token, &session.csrf_token] {
                assert_eq!(secret.len(), 64);
                assert!(secret.chars().all(|c| "0123456789abcdef".contains(c)));
            }
            assert_ne!(session.csrf_token, token);
            assert_eq!(session.expires_at, Some(NOW + 12 * 3600));
            assert_eq!(
                session_cookie(&token),
                format!("tlsproxy_session={token}; Path=/; Max-Age=43200; HttpOnly; Secure; SameSite=Strict")
            );
        }
        other => panic!("{other:?}"),
    }
    assert_eq!(logout_cookie(), "tlsproxy_session=; Path=/; Max-Age=0; HttpOnly; Secure; SameSite=Strict");
}

#[test]
fn five_failed_logins_lock_a_user_out_for_a_while() {
    let mut attempts = Throttle::new();
    for _ in 0..5 {
        assert!(matches!(login(&mut attempts, " ADMIN ", "wrong", &Some(user(true)), NOW, 0), LoginAnswer::Refused));
    }
    assert!(!may_log_in(&mut attempts, "Admin", 1));
    assert!(may_log_in(&mut attempts, "other", 1));
    assert!(matches!(
        login(&mut attempts, "admin", "correct horse battery staple", &Some(user(true)), NOW, 1),
        LoginAnswer::TooManyAttempts
    ));
    assert!(matches!(
        decide_login(&mut attempts, "admin", &Some(user(true)), true, NOW, 1),
        LoginAnswer::TooManyAttempts
    ));
    assert!(matches!(
        decide_login(&mut attempts, "admin", &Some(user(true)), true, NOW, 300_000),
        LoginAnswer::LoggedIn { .. }
    ));
    assert!(matches!(login(&mut attempts, "nobody", "x", &None, NOW, 0), LoginAnswer::Refused));
    assert_eq!(attempts.count(&"nobody".to_string()), 1);
}

fn session() -> SessionRecord {
    SessionRecord {
        token_hash: "h".into(),
        username: "admin".into(),
        csrf_token: "csrf".into(),
        created_at: None,
        expires_at: Some(NOW + 1),
    }
}

#[test]
fn protected_mutations_require_csrf() {
    let token = Some("t".to_string());
    let admin = Some(user(true));
    let decide = |method: &str, csrf: Option<&str>| {
        require_session(&token, &Some(session()), &admin, method, &csrf.map(|c| c.to_string()), NOW)
    };
    assert_eq!(decide("GET", None), SessionVerdict::Allowed);
    assert_eq!(decide("PUT", None), SessionVerdict::InvalidCsrf);
    assert_eq!(decide("PUT", Some("wrong")), SessionVerdict::InvalidCsrf);
    assert_eq!(decide("PUT", Some("csrf")), SessionVerdict::Allowed);
    assert_eq!(require_session(&None, &Some(session()), &admin, "GET", &None, NOW), SessionVerdict::Login);
    assert_eq!(require_session(&token, &None, &admin, "GET", &None, NOW), SessionVerdict::Login);
    assert_eq!(require_session(&token, &Some(session()), &admin, "GET", &None, NOW + 1), SessionVerdict::Login);
    assert_eq!(
        require_session(&token, &Some(session()), &Some(user(false)), "GET", &None, NOW),
        SessionVerdict::NotAdministrator
    );
}

#[test]
fn cookies_are_found_by_name() {
    let header = Some("a=1; tlsproxy_session=x=y ;b".to_string());
    assert_eq!(cookie_value(&header, "tlsproxy_session").as_deref(), Some("x=y"));
    assert_eq!(cookie_value(&header, "b"), None);
    assert_eq!(cookie_value(&None, "a"), None);
}

#[test]
fn a_password_is_changed_only_with_the_current_one() {
    let changed = change_password(Some(user(true)), "correct horse battery staple", "another long password").unwrap();
    assert!(verify_password(&changed.password_hash, "another long password"));
    assert_eq!(changed.username, "admin");
    let fail = |u: Option<UserRecord>, old: &str, new: &str| change_password(u, old, new).unwrap_err();
    assert_eq!(fail(None, "x", "y"), PasswordChangeError::NoUser);
    assert_eq!(fail(Some(user(true)), "wrong", "another long password"), PasswordChangeError::WrongPassword);
    assert_eq!(
        fail(Some(user(true)), "correct horse battery staple", "short"),
        PasswordChangeError::Unusable(PasswordError::TooShort)
    );
}

fn managed() -> ManagedCertificate {
    ManagedCertificate {
        id: "site".into(),
        domains: vec!["www.example".into()],
        enabled: true,
        publish: PublishPolicy { enabled: true, allow_private_key: true },
        ..ManagedCertificate::default()
    }
}

fn token(ids: &[&str], allow_private_key: bool) -> RetrievalToken {
    token_for("bearer".into(), "label".into(), ids.iter().map(|s| s.to_string()).collect(), allow_private_key, None, NOW)
}

fn ask(authorization: Option<&str>, private_key: bool, tag: Option<&str>) -> PublishRequest {
    PublishRequest {
        authorization: authorization.map(|s| s.to_string()),
        private_key,
        if_none_match: tag.map(|s| s.to_string()),
    }
}

fn generation() -> CertificateGeneration {
    let key = rcgen::KeyPair::generate().unwrap();
    let cert = rcgen::CertificateParams::new(vec!["www.example".to_string()]).unwrap().self_signed(&key).unwrap();
    CertificateGeneration {
        id: "g1".into(),
        certificate_id: "site".into(),
        certificate_pem: cert.pem(),
        private_key_pem: key.serialize_pem(),
        ..CertificateGeneration::default()
    }
}

#[test]
fn publication_is_scoped_etagged_and_key_gated() {
    let mut attempts = Throttle::new();
    let g = Some(generation());
    let m = Some(managed());
    let t = Some(token(&["site"], true));
    let plain = publish_certificate(&mut attempts, &ask(Some("Bearer bearer"), false, None), &t, &m, &g, NOW, 0);
    assert_eq!(plain.verdict, PublishVerdict::Published);
    assert_eq!(plain.etag.as_deref(), Some("\"site:g1:false\""));
    assert!(plain.body.unwrap().private_key_pem.is_none());
    assert_eq!(plain.token_id.map(|id| id.len()), Some(24));

    let tag = plain.etag.unwrap();
    let same = publish_certificate(&mut attempts, &ask(Some("Bearer bearer"), false, Some(&tag)), &t, &m, &g, NOW, 0);
    assert_eq!(same.verdict, PublishVerdict::NotModified);
    assert_eq!(same.verdict.status(), 304);
    assert!(same.body.is_none());

    let key = publish_certificate(&mut attempts, &ask(Some("Bearer bearer"), true, Some(&tag)), &t, &m, &g, NOW, 0);
    assert_eq!(key.verdict, PublishVerdict::Published);
    assert!(key.body.unwrap().private_key_pem.is_some());
    assert!(key.verdict.accepted());
}

#[test]
fn each_refused_retrieval_has_its_reason() {
    let mut attempts = Throttle::new();
    let g = Some(generation());
    let m = Some(managed());
    let good = Some(token(&[], true));
    let bearer = Some("Bearer bearer");
    let mut verdict = |request: &PublishRequest, t: &Option<RetrievalToken>, m: &Option<ManagedCertificate>, usable: bool| {
        publish(&mut attempts, request, t, m, &g, usable, NOW, 0).verdict
    };
    assert_eq!(verdict(&ask(None, false, None), &None, &m, true), PublishVerdict::MissingToken);
    assert_eq!(verdict(&ask(Some("Basic x"), false, None), &None, &m, true), PublishVerdict::MissingToken);
    assert_eq!(verdict(&ask(bearer, false, None), &None, &m, true), PublishVerdict::InvalidToken);
    let mut expired = token(&[], true);
    expired.expires_at = Some(NOW);
    assert_eq!(verdict(&ask(bearer, false, None), &Some(expired), &m, true), PublishVerdict::InvalidToken);
    let mut disabled = token(&[], true);
    disabled.disabled = true;
    assert_eq!(verdict(&ask(bearer, false, None), &Some(disabled), &m, true), PublishVerdict::InvalidToken);
    assert_eq!(verdict(&ask(bearer, false, None), &good, &None, true), PublishVerdict::NotPublished);
    let scoped = Some(token(&["other"], true));
    assert_eq!(verdict(&ask(bearer, false, None), &scoped, &m, true), PublishVerdict::ScopeDenied);
    let keyless = Some(token(&[], false));
    assert_eq!(verdict(&ask(bearer, true, None), &keyless, &m, true), PublishVerdict::KeyDenied);
    assert_eq!(verdict(&ask(bearer, false, None), &good, &m, false), PublishVerdict::NoGeneration);
    assert_eq!(PublishVerdict::KeyDenied.audit_outcome(), Some("key_denied"));
    assert_eq!(PublishVerdict::NoGeneration.audit_outcome(), None);
    assert_eq!(PublishVerdict::ScopeDenied.status(), 403);
}

#[test]
fn retrievals_are_limited_per_token() {
    let mut attempts = Throttle::new();
    let m = Some(managed());
    let one = Some(token(&[], true));
    let request = ask(Some("Bearer bearer"), false, None);
    for _ in 0..60 {
        let answer = publish(&mut attempts, &request, &one, &m, &None, false, NOW, 0);
        assert_eq!(answer.verdict, PublishVerdict::NoGeneration);
    }
    assert_eq!(publish(&mut attempts, &request, &one, &m, &None, false, NOW, 1).verdict, PublishVerdict::RateLimited);
    assert_eq!(publish(&mut attempts, &ask(None, false, None), &None, &m, &None, false, NOW, 1).verdict, PublishVerdict::MissingToken);
    assert_eq!(publish(&mut attempts, &request, &one, &m, &None, false, NOW, 60_000).verdict, PublishVerdict::NoGeneration);
    assert_eq!(bearer_token(&Some("Bearer x".to_string())).as_deref(), Some("x"));
}

#[test]
fn retrieval_tokens_cover_known_certificates() {
    let known = vec!["site".to_string()];
    let made = create_retrieval_token("ci".into(), known.clone(), true, None, &known, NOW).unwrap();
    assert_eq!(made.bearer_token.len(), 64);
    assert!(made.bearer_token.chars().all(|c| "0123456789abcdef".contains(c)));
    assert_eq!(made.token_hash, token_hash(&made.bearer_token));
    assert!(made.token_hash.starts_with(&made.id));
    assert!(matches!(
        create_retrieval_token(" ".into(), Vec::new(), true, None, &known, NOW),
        Err(TokenRefusal::LabelOrExpiry)
    ));
    assert!(matches!(
        create_retrieval_token("x".into(), Vec::new(), true, Some(NOW), &known, NOW),
        Err(TokenRefusal::LabelOrExpiry)
    ));
    assert!(matches!(
        create_retrieval_token("x".into(), vec!["gone".into()], true, None, &known, NOW),
        Err(TokenRefusal::UnknownCertificate(id)) if id == "gone"
    ));
    let mut list = vec![made];
    list_retrieval_tokens(&mut list);
    assert_eq!(list[0].token_hash, "");
    assert_eq!(list[0].label, "ci");
}

#[test]
fn listeners_are_started_and_stopped_by_name() {
    let known = vec!["web".to_string(), "api".to_string()];
    let off = vec!["api".to_string()];
    let operate = |listener: &str, operation: &str| listener_operation(listener, operation, &known, &off);
    assert!(matches!(operate("gone", "start"), ListenerOperation::NotFound));
    assert!(matches!(operate("default", "start"), ListenerOperation::AlwaysRunning));
    assert!(matches!(operate("__default__", "stop"), ListenerOperation::CannotStop));
    assert!(matches!(operate("default", "restart"), ListenerOperation::Restart));
    assert!(matches!(operate("web", "stop"), ListenerOperation::SetDisabled(d) if d == vec!["api", "web"]));
    assert!(matches!(operate("api", "stop"), ListenerOperation::SetDisabled(d) if d == vec!["api"]));
    assert!(matches!(operate("api", "start"), ListenerOperation::SetDisabled(d) if d.is_empty()));
    assert!(matches!(operate("api", "restart"), ListenerOperation::Stopped));
    assert!(matches!(operate("web", "explode"), ListenerOperation::Unknown));
}

fn facts(bind: &str, host: &str) -> ConfigFacts {
    ConfigFacts { bind: bind.into(), control_hostname: host.into() }
}

#[test]
fn a_configuration_is_saved_on_its_revision() {
    let current = Some((3u64, facts("b", "h")));
    let save = |revision: u64, to: ConfigFacts, valid: bool, certificate: HostnameCertificate| {
        put_config(&current, revision, &to, valid, certificate)
    };
    assert_eq!(save(3, facts("b", "h"), true, HostnameCertificate::Missing), SaveVerdict::Save);
    assert_eq!(save(2, facts("b", "h"), true, HostnameCertificate::Usable), SaveVerdict::RevisionChanged);
    assert_eq!(save(3, facts("c", "h"), true, HostnameCertificate::Usable), SaveVerdict::BindChanged);
    assert_eq!(save(3, facts("b", "h"), false, HostnameCertificate::Usable), SaveVerdict::Invalid);
    assert_eq!(save(3, facts("b", "n"), true, HostnameCertificate::Missing), SaveVerdict::NoCertificate);
    assert_eq!(save(3, facts("b", "n"), true, HostnameCertificate::NotIssued), SaveVerdict::NotIssued);
    assert_eq!(save(3, facts("b", "n"), true, HostnameCertificate::Unusable), SaveVerdict::Unusable);
    assert_eq!(save(3, facts("b", "n"), true, HostnameCertificate::Usable), SaveVerdict::Save);
    assert_eq!(put_config(&None, 3, &facts("b", "h"), true, HostnameCertificate::Usable), SaveVerdict::NotFound);
    assert_eq!(rollback_config(&Some(facts("b", "h")), &Some(facts("b", "h")), false), RollbackVerdict::Save);
    assert_eq!(rollback_config(&Some(facts("b", "x")), &Some(facts("b", "h")), false), RollbackVerdict::NoCertificate);
    assert_eq!(rollback_config(&Some(facts("c", "h")), &Some(facts("b", "h")), true), RollbackVerdict::BindChanged);
    assert_eq!(rollback_config(&None, &Some(facts("b", "h")), true), RollbackVerdict::NotFound);
    assert_eq!(apply_runtime_config(true, true), ApplyStep::RememberAsGood);
    assert_eq!(apply_runtime_config(true, false), ApplyStep::Reload);
    assert_eq!(apply_runtime_config(false, true), ApplyStep::Reload);
    assert_eq!(import_mode("merge"), Some(false));
    assert_eq!(import_mode("clear_and_import"), Some(true));
    assert_eq!(import_mode("other"), None);
}

#[test]
fn providers_keep_their_secrets_and_builtin_names() {
    let existing = AcmeProvider {
        id: "custom".into(),
        eab_key_id: Some("kid".into()),
        eab_hmac_key: Some("secret".into()),
        ..AcmeProvider::default()
    };
    let shown = public_provider(existing.clone());
    assert!(shown.has_eab_hmac_key);
    assert!(!shown.builtin);
    let edit = AcmeProvider { id: "custom".into(), name: "n".into(), ..AcmeProvider::default() };
    let saved = save_provider(edit, Some(existing));
    assert_eq!(saved.eab_hmac_key.as_deref(), Some("secret"));
    assert_eq!(saved.eab_key_id.as_deref(), Some("kid"));
    assert_eq!(saved.name, "n");
    let builtin = AcmeProvider { id: "letsencrypt-staging".into(), name: "x".into(), ..AcmeProvider::default() };
    let saved = save_provider(builtin, None);
    assert_eq!(saved.name, "Let's Encrypt Staging");
    assert_eq!(saved.directory_url, "https://acme-staging-v02.api.letsencrypt.org/directory");
    assert!(saved.staging);
    let mut used = managed();
    used.provider_id = "p".into();
    let control = Some("c".to_string());
    assert_eq!(delete_provider("letsencrypt-production", &control, &Vec::new()), DeleteVerdict::Builtin);
    assert_eq!(delete_provider("c", &control, &Vec::new()), DeleteVerdict::UsedByControlPlane);
    assert_eq!(delete_provider("p", &control, &vec![used]), DeleteVerdict::UsedByCertificate);
    assert_eq!(delete_provider("q", &control, &Vec::new()), DeleteVerdict::Delete);
    assert_eq!(delete_provider("q", &None, &Vec::new()), DeleteVerdict::NotFound);
}

#[test]
fn a_certificate_for_one_domain_is_named_after_it() {
    let mut single = managed();
    single.domains = vec!["WWW.Example.".into()];
    single.automatic = true;
    let saved = save_certificate(single).unwrap();
    assert_eq!(saved.id, "www.example");
    assert_eq!(saved.domains, vec!["www.example"]);
    assert!(!saved.automatic);
    let mut two = managed();
    two.domains.push("b.example".into());
    assert_eq!(save_certificate(two).unwrap().id, "site");
    let mut bad = managed();
    bad.domains = vec!["a/b".into()];
    assert!(save_certificate(bad).is_err());
}

fn count(key: &str) -> Event {
    Event::ConnectionCount { key: key.into(), was: 0, now: 1, snapshot: false }
}

fn bytes_of(listener: &str) -> Event {
    Event::ConnectionBytes {
        key: "id".into(),
        listener_name: listener.into(),
        connection_id: "id".into(),
        uploaded: 1,
        downloaded: 2,
    }
}

#[test]
fn views_get_their_own_events() {
    let web = Some("web".to_string());
    assert!(accepts_event(&count("web"), &web));
    assert!(!accepts_event(&count("api"), &web));
    assert!(accepts_event(&bytes_of("web"), &web));
    assert!(!accepts_event(&bytes_of("web"), &None), "the overview shows no single connections");
    assert!(accepts_event(&count("web"), &None));
    assert_eq!(initial_state(vec![count("a"), count("web"), count("b")], &web).len(), 1);
    assert_eq!(initial_state(vec![count("a"), count("web")], &None).len(), 2);
}

#[test]
fn a_stream_ends_with_its_session() {
    let check = |session: Option<SessionRecord>, user: Option<UserRecord>, now: i64| {
        stream_events(StreamInput::SessionCheck { session, user }, &None, now)
    };
    assert!(matches!(check(Some(session()), Some(user(true)), NOW), StreamAction::Wait));
    assert!(matches!(check(Some(session()), Some(user(true)), NOW + 1), StreamAction::Close));
    assert!(matches!(check(Some(session()), Some(user(false)), NOW), StreamAction::Close));
    assert!(matches!(check(None, None, NOW), StreamAction::Close));
    assert!(matches!(stream_events(StreamInput::Ping(vec![1]), &None, NOW), StreamAction::Pong(p) if p == vec![1]));
    assert!(matches!(stream_events(StreamInput::ClientEnded, &None, NOW), StreamAction::End));
    assert!(matches!(stream_events(StreamInput::HubClosed, &None, NOW), StreamAction::End));
    assert!(matches!(stream_events(StreamInput::SendFailed, &None, NOW), StreamAction::End));
    assert!(matches!(stream_events(StreamInput::Other, &None, NOW), StreamAction::Wait));
    assert!(matches!(stream_events(StreamInput::Published(count("a")), &None, NOW), StreamAction::Send(_)));
}

#[test]
fn throttled_keys_are_counted_apart() {
    let mut attempts = Throttle::new();
    let (a, b) = ("a".to_string(), "b".to_string());
    attempts.add_attempt(&a, 0);
    attempts.add_attempt(&a, 5);
    attempts.add_attempt(&b, 5);
    assert_eq!((attempts.count(&a), attempts.count(&b)), (2, 1));
    attempts.prune(10, 10);
    assert_eq!((attempts.count(&a), attempts.count(&b)), (0, 1));
    attempts.forget(&b);
    assert_eq!(attempts.count(&b), 0);
}

#[test]
fn the_admin_ui_needs_basic_credentials() {
    let config = AdminServerConfig {
        username: Some("alice".into()),
        password: Some("se:cret".into()),
        ..AdminServerConfig::default()
    };
    // alice:se:cret
    assert!(is_authorized(&Some("Basic YWxpY2U6c2U6Y3JldA==".into()), &config));
    assert!(is_authorized(&Some("bAsIc   YWxpY2U6c2U6Y3JldA==".into()), &config));
    assert!(!is_authorized(&Some("Basic YWxpY2U6d3Jvbmc=".into()), &config));
    assert!(!is_authorized(&Some("Bearer x".into()), &config));
    assert!(!is_authorized(&None, &config));
    assert!(credentials_match(&Some(b"x:y".to_vec()), &None, &None), "nothing is configured");
    assert!(!credentials_match(&Some(b"xy".to_vec()), &None, &None), "no colon");
    assert!(!credentials_match(&Some(b"x:y".to_vec()), &Some("x".into()), &None), "half-configured");
    assert!(!credentials_match(&Some(vec![0xff, b':']), &None, &None), "not a text");
}

#[test]
fn absent_admin_server_disables_admin_ui() {
    assert!(listen_on(&None).is_none());
    let listen = listen_on(&Some(AdminServerConfig::default())).unwrap();
    assert_eq!((listen.bind_address.as_str(), listen.bind_port, listen.tls), ("0.0.0.0", 48888, false));
}

#[test]
fn parts_of_static_files_are_cut_to_size() {
    let parse = |v: &str| RangeHeader::parse(&Some(v.to_string()));
    assert_eq!(parse("Bytes = 2 - 5"), RangeHeader { start: Some(2), end: Some(5) });
    assert_eq!(parse("bytes=-5"), RangeHeader { start: None, end: Some(5) });
    assert_eq!(parse("bytes=7-"), RangeHeader { start: Some(7), end: None });
    assert_eq!(parse("items=1-2"), RangeHeader { start: None, end: None });
    assert!(!RangeHeader::parse(&None).has_value());
    assert_eq!(parse("bytes=2-500").align(10), (2, 10));
    assert_eq!(parse("bytes=8-3").align(10), (8, 8));
    assert_eq!(parse("bytes=20-").align(10), (10, 10));
    let part = serve_static("app.js", parse("bytes=2-5"), 10);
    assert_eq!((part.status, part.start, part.end), (206, 2, 5));
    assert_eq!(part.content_range.as_deref(), Some("bytes 2-5/10"));
    let whole = serve_static("app.js", parse("x"), 10);
    assert_eq!((whole.status, whole.start, whole.end, whole.content_type), (200, 0, 10, "text/javascript"));
    assert_eq!(content_type_for("a.b.woff2"), "font/woff2");
    assert_eq!(content_type_for("css"), "text/css");
    assert_eq!(content_type_for("x.bin"), "application/octet-stream");
}

#[test]
fn manager_operations_say_what_changed() {
    let (act, result) = stop(Status::STARTED);
    assert!(act && result.success && result.changed);
    let (act, result) = stop(Status::STOPPED);
    assert!(!act && result.success && !result.changed);
    let (act, result) = stop(Status::STARTING);
    assert!(!act && !result.success);
    assert!(start(Status::STOPPED).is_none());
    assert!(!start(Status::STARTED).unwrap().changed);
    assert_eq!(SimpleOperationResult::fail("no").message.as_deref(), Some("no"));
    assert_eq!(ISE::from("cause").message, "cause");
    assert_eq!(ISE::from("cause").text(), "InternalServerError");
}

#[test]
fn broken_dns_patterns_are_not_saved() {
    let rule = |p: &str| RegexDnsRule { hostname: p.into(), port: None, to: "x".into() };
    assert_eq!(check_dns_rules(&vec![rule("^a$")]), None);
    let problem = check_dns_rules(&vec![rule("^a$"), rule("(b"), rule("(c")]).unwrap();
    assert!(problem.starts_with("invalid DNS regex `(b`: "), "{problem}");
    assert!(problem.contains("unclosed group"), "{problem}");
}
