use tlsproxy::acme::backend::{
    account, ari_is_due, backoff_with, check_candidate, consume_binding, due_certificates, failure_backoff,
    failure_state, found_deadline, record_ari, record_failure, record_timeout, retry_after_from_error, success_state,
    AccountPlan, AccountRefusal, AriSuggestion, RenewRefusal,
};
use tlsproxy::acme::client::{
    account_binding, authorize, certificate_blocks, create_account, generation_from_pem, order_domains,
    renewal_information, suggested_renewal, validate_issuer_chain, AccountError, AuthorizationState, IssueError,
    RenewalAnswer,
};
use tlsproxy::acme::dns::{
    check_control, evaluate_domain, resolver_port, verify_domain, DomainRefusal, PrerequisiteError,
    PublicDnsPrerequisite, ResolverResult, Verification, VerifyStep,
};
use tlsproxy::acme::issuance::{Issuance, IssueAction, IssueReply};
use tlsproxy::acme::renewal::{RenewReply, RenewStage, Renewal, RenewalFailure};
use tlsproxy::acme::scheduler::{
    RenewalCandidate, RenewalOutcome, RenewalScheduler, Scan, ScanQueue, ScanStep, ScanTrigger,
    DEFAULT_RENEWAL_DEADLINE, DEFAULT_SCAN_INTERVAL,
};
use tlsproxy::acme_challenge::ChallengeRegistry;
use tlsproxy::acme_types::{AcmeProvider, CertificateGeneration, ControlPlaneConfig, ManagedCertificate};
use tlsproxy::issue::Issued;
use tlsproxy::managed_tls::{load_entry, GenerationError};

/// 2026-07-23 12:00:00 UTC.
const NOW: i64 = 1784808000;
/// 2026-07-23 16:21:23 UTC.
const EXPECTED: i64 = NOW + 4 * 3600 + 21 * 60 + 23;

#[test]
fn parses_ca_retry_after_deadlines_from_acme_errors() {
    assert_eq!(retry_after_from_error("rate limited: retry after 2026-07-23 16:21:23 UTC", NOW), Some(EXPECTED));
    assert_eq!(retry_after_from_error("Retry-After: 2026-07-23T16:21:23Z", NOW), Some(EXPECTED));
    assert_eq!(retry_after_from_error("Retry-After: Wed, 23 Jul 2026 16:21:23 GMT", NOW), Some(EXPECTED));
    assert_eq!(retry_after_from_error("too many requests: Retry-After: 3600", NOW), Some(NOW + 3600));
    assert_eq!(retry_after_from_error("ordinary validation failure", NOW), None);
}

#[test]
fn a_deadline_is_read_from_what_was_captured() {
    let none: Option<String> = None;
    assert_eq!(found_deadline(&none, &none, &none, NOW), None);
    assert_eq!(found_deadline(&none, &none, &Some("90".to_string()), NOW), Some(NOW + 90));
    assert_eq!(found_deadline(&Some("2026-07-23 16:21:23".to_string()), &none, &Some("90".to_string()), NOW), Some(EXPECTED));
}

#[test]
fn failure_backoff_doubles_with_jitter_and_caps_at_twelve_hours() {
    for (failures, minutes) in [(1u32, 5i64), (2, 10), (3, 20), (6, 160)] {
        let backoff = failure_backoff(failures);
        let base = minutes * 60;
        assert!(backoff >= base * 4 / 5 && backoff <= base * 6 / 5, "failures={failures} backoff={backoff}");
    }
    assert!(failure_backoff(30) <= 12 * 3600 * 6 / 5);
}

#[test]
fn backoff_without_jitter_doubles() {
    assert_eq!(backoff_with(1, 0), 300);
    assert_eq!(backoff_with(2, 0), 600);
    assert_eq!(backoff_with(3, -100), 1100);
    assert_eq!(backoff_with(40, 0), 43200);
}

#[test]
fn splits_leaf_and_chain_without_accepting_unterminated_blocks() {
    let pem = "noise\n-----BEGIN CERTIFICATE-----\nleaf\n-----END CERTIFICATE-----\n-----BEGIN CERTIFICATE-----\nca\n-----END CERTIFICATE-----\n-----BEGIN CERTIFICATE-----\nbroken";
    let blocks = certificate_blocks(pem);
    assert_eq!(blocks.len(), 2);
    assert!(blocks[0].contains("leaf"));
    assert!(blocks[1].contains("ca"));
}

fn result(resolver: &str, addresses: &[&str]) -> ResolverResult {
    ResolverResult { resolver: resolver.into(), addresses: Ok(addresses.iter().map(|a| a.to_string()).collect()) }
}

fn own() -> Vec<String> {
    vec!["192.0.2.10".to_string()]
}

#[test]
fn parses_ipv4_ipv6_and_explicit_socket_resolvers() {
    assert_eq!(resolver_port(true, None), Some(53));
    assert_eq!(resolver_port(false, Some(5353)), Some(5353));
    assert_eq!(resolver_port(false, None), None);
}

#[test]
fn any_and_all_resolver_policies_are_distinct() {
    let results = vec![result("one", &["192.0.2.10"]), result("two", &["192.0.2.99"])];
    assert!(evaluate_domain("app.example", &own(), &results, false).is_ok());
    assert!(evaluate_domain("app.example", &own(), &results, true).is_err());
}

#[test]
fn mixed_self_and_foreign_answers_fail_to_avoid_random_ca_routing() {
    let results = vec![result("one", &["192.0.2.10", "192.0.2.99"])];
    assert!(evaluate_domain("app.example", &own(), &results, false).is_err());
}

#[test]
fn resolver_errors_fail_all_policy_but_can_be_tolerated_by_any_policy() {
    let results = vec![
        result("one", &["192.0.2.10"]),
        ResolverResult { resolver: "two".into(), addresses: Err("timeout".into()) },
    ];
    assert!(evaluate_domain("app.example", &own(), &results, false).is_ok());
    assert!(evaluate_domain("app.example", &own(), &results, true).is_err());
}

#[test]
fn control_plane_settings_are_checked_before_any_query() {
    let mut control = ControlPlaneConfig::default();
    control.public_resolvers = vec!["1.1.1.1".to_string()];
    assert_eq!(check_control(&control, &Some(own())), Ok(()));
    assert_eq!(check_control(&control, &Some(Vec::new())), Err(PrerequisiteError::NoSelfIp));
    assert_eq!(check_control(&control, &None), Err(PrerequisiteError::InvalidSelfIp));
    control.public_resolvers.clear();
    assert_eq!(check_control(&control, &Some(own())), Err(PrerequisiteError::NoResolver));
    let plain: PublicDnsPrerequisite<u8> = PublicDnsPrerequisite::default();
    assert!(plain.store.is_none());
    assert_eq!(plain.with_store(7).store, Some(7));
}

#[test]
fn verified_domains_leave_a_diagnostic_per_resolver() {
    let mut kept = Vec::new();
    let results = vec![result("one", &["192.0.2.10"]), result("two", &["192.0.2.10"])];
    assert!(verify_domain(&mut kept, "id", "App.Example.", &own(), &results, true, NOW).is_ok());
    assert_eq!(kept.len(), 2);
    assert!(kept.iter().all(|d| d.domain == "app.example" && d.certificate_id == "id"));
    let foreign = vec![result("one", &["192.0.2.99"])];
    assert!(matches!(
        verify_domain(&mut kept, "id", "app.example", &own(), &foreign, true, NOW),
        Err(DomainRefusal::Refused(_))
    ));
    assert!(matches!(
        verify_domain(&mut kept, "id", "a/b", &own(), &results, true, NOW),
        Err(DomainRefusal::Invalid)
    ));
}

fn candidate(id: &str) -> RenewalCandidate {
    RenewalCandidate { certificate_id: id.into(), domains: vec![format!("{id}.example")], provider_id: "test".into() }
}

#[test]
fn every_certificate_of_a_scan_is_tried_once() {
    let scheduler = RenewalScheduler::with_timing(60_000, 5);
    let mut scan = Scan::start(vec![candidate("one"), candidate("two"), candidate("three")]);
    let outcomes = [RenewalOutcome::TimedOut, RenewalOutcome::Renewed, RenewalOutcome::Failed];
    let mut seen = Vec::new();
    for outcome in outcomes {
        match scan.run_once(&scheduler) {
            ScanStep::Renew { candidate, deadline } => {
                assert_eq!(deadline, 5);
                seen.push(candidate.certificate_id.clone());
            }
            ScanStep::Finished(_) => panic!("finished too early"),
        }
        scan.record(outcome);
    }
    assert_eq!(seen, vec!["one", "two", "three"]);
    match scan.run_once(&scheduler) {
        ScanStep::Finished(summary) => {
            assert_eq!((summary.due, summary.renewed, summary.failed, summary.timed_out), (3, 1, 2, 1));
        }
        ScanStep::Renew { .. } => panic!("nothing is left"),
    }
}

#[test]
fn scans_start_at_once_and_then_on_request_or_tick() {
    let mut queue = ScanQueue::new();
    assert_eq!(queue.next_scan(false), Some(ScanTrigger::Startup));
    assert_eq!(queue.next_scan(false), None);
    queue.request_scan();
    queue.request_scan();
    assert_eq!(queue.next_scan(false), Some(ScanTrigger::Manual));
    assert_eq!(queue.next_scan(false), None);
    assert_eq!(queue.next_scan(true), Some(ScanTrigger::Scheduled));
    assert_eq!(ScanTrigger::Manual.as_str(), "manual");
    let scheduler = RenewalScheduler::new();
    assert_eq!((scheduler.scan_interval, scheduler.renewal_deadline), (DEFAULT_SCAN_INTERVAL, DEFAULT_RENEWAL_DEADLINE));
}

fn managed(domains: &[&str]) -> ManagedCertificate {
    let mut m = ManagedCertificate::default();
    m.id = "home.example".into();
    m.domains = domains.iter().map(|d| d.to_string()).collect();
    m.provider_id = "test".into();
    m.enabled = true;
    m
}

#[test]
fn a_candidate_that_changed_is_not_renewed() {
    let c = RenewalCandidate {
        certificate_id: "home.example".into(),
        domains: vec!["home.example".into()],
        provider_id: "test".into(),
    };
    assert_eq!(check_candidate(&Some(managed(&["home.example"])), &c), Ok(()));
    assert_eq!(check_candidate(&None, &c), Err(RenewRefusal::Deleted));
    let mut off = managed(&["home.example"]);
    off.enabled = false;
    assert_eq!(check_candidate(&Some(off), &c), Err(RenewRefusal::Disabled));
    assert_eq!(check_candidate(&Some(managed(&["other.example"])), &c), Err(RenewRefusal::Changed));
    assert!(!RenewRefusal::Changed.message().is_empty());
}

fn single(domain: &str) -> RenewalCandidate {
    RenewalCandidate { certificate_id: domain.into(), domains: vec![domain.into()], provider_id: "test".into() }
}

/// A generation for a domain that the library itself finds usable.
fn usable(domain: &str) -> CertificateGeneration {
    let key = rcgen::KeyPair::generate().unwrap();
    let leaf = rcgen::CertificateParams::new(vec![domain.to_string()]).unwrap().self_signed(&key).unwrap();
    generation_from_pem(domain, &leaf.pem(), &key.serialize_pem(), NOW).unwrap()
}

#[test]
fn a_renewal_goes_through_its_stages_in_order() {
    let mut renewal = Renewal::new(single("home.example"));
    let found = managed(&["home.example"]);
    let id = found.id.clone();
    let mut generation = usable("home.example");
    generation.certificate_id = id.clone();
    assert_eq!(renewal.renew_inner(RenewReply::Managed(Some(found)), NOW), RenewStage::Verifying);
    assert_eq!(renewal.renew_inner(RenewReply::Done, NOW), RenewStage::OpeningAccount);
    assert_eq!(renewal.renew_inner(RenewReply::Done, NOW), RenewStage::LoadingPrevious);
    assert_eq!(renewal.renew_inner(RenewReply::Previous(None), NOW), RenewStage::Issuing);
    assert_eq!(renewal.renew_inner(RenewReply::Issued(generation), NOW), RenewStage::Suggesting);
    let lost = RenewReply::Failed("no answer".into());
    assert_eq!(renewal.renew_inner(lost, NOW), RenewStage::Activating, "a suggestion is done without");
    let state = renewal.state.as_ref().unwrap();
    assert_eq!(state.certificate_id, id);
    assert_eq!(state.last_success, Some(NOW));
    assert_eq!(state.ari_next_check, None);
    assert_eq!(renewal.renew_inner(RenewReply::Done, NOW), RenewStage::Renewed);
    assert_eq!(renewal.renew_inner(RenewReply::Failed("late".into()), NOW), RenewStage::Renewed);
}

#[test]
fn a_renewal_ends_at_the_first_failure() {
    let mut gone = Renewal::new(single("home.example"));
    assert_eq!(gone.renew_inner(RenewReply::Managed(None), NOW), RenewStage::Failed);
    assert!(matches!(gone.failure, Some(RenewalFailure::Refused(RenewRefusal::Deleted))));
    let mut elsewhere = Renewal::new(single("home.example"));
    elsewhere.renew_inner(RenewReply::Managed(Some(managed(&["home.example"]))), NOW);
    assert_eq!(elsewhere.renew_inner(RenewReply::Failed("points elsewhere".into()), NOW), RenewStage::Failed);
    assert!(matches!(&elsewhere.failure, Some(RenewalFailure::Outside(cause)) if cause == "points elsewhere"));
    assert_eq!(elsewhere.renew_inner(RenewReply::Done, NOW), RenewStage::Failed);
    let mut wrong = Renewal::new(single("home.example"));
    wrong.renew_inner(RenewReply::Managed(Some(managed(&["home.example"]))), NOW);
    wrong.renew_inner(RenewReply::Done, NOW);
    wrong.renew_inner(RenewReply::Done, NOW);
    wrong.renew_inner(RenewReply::Previous(None), NOW);
    let mut foreign = usable("other.example");
    foreign.certificate_id = managed(&["home.example"]).id;
    assert_eq!(wrong.renew_inner(RenewReply::Issued(foreign), NOW), RenewStage::Failed);
    assert!(matches!(wrong.failure, Some(RenewalFailure::Unusable(GenerationError::NotCovered))));
}

#[test]
fn only_a_usable_generation_is_loaded() {
    let mut generation = usable("home.example");
    generation.certificate_id = managed(&["home.example"]).id;
    let id = generation.id.clone();
    let row = load_entry(managed(&["home.example"]), &Some(generation), NOW);
    assert_eq!((row.generation_id, row.usable), (Some(id), true));
    let foreign = usable("home.example");
    assert!(!load_entry(managed(&["other.example"]), &Some(foreign), NOW).usable);
    let none = load_entry(managed(&["home.example"]), &None, NOW);
    assert!(none.generation_id.is_none() && !none.usable);
}

#[test]
fn due_certificates_become_candidates() {
    let found = due_certificates(vec![managed(&["a.example"]), managed(&["b.example", "c.example"])]);
    assert_eq!(found.len(), 2);
    assert_eq!(found[1].domains, vec!["b.example", "c.example"]);
    assert_eq!(found[1].provider_id, "test");
}

#[test]
fn an_account_is_created_only_where_there_is_none() {
    assert!(matches!(account(true, &None, false), Ok(AccountPlan::Known)));
    assert!(matches!(account(false, &None, false), Err(AccountRefusal::NoProvider)));
    assert!(matches!(account(false, &Some(provider()), true), Ok(AccountPlan::Restore)));
    assert!(matches!(
        account(false, &Some(provider()), false),
        Ok(AccountPlan::Create { binding: None, consumed: None })
    ));
    let mut bound = provider();
    bound.eab_key_id = Some("kid".into());
    bound.eab_hmac_key = Some("aGVsbG8".into());
    match account(false, &Some(bound), false) {
        Ok(AccountPlan::Create { binding: Some(b), consumed: Some(p) }) => {
            assert_eq!(b.key, b"hello");
            assert!(p.eab_key_id.is_none() && p.eab_hmac_key.is_none());
        }
        other => panic!("{other:?}"),
    }
    assert!(matches!(
        account(false, &Some(AcmeProvider::default()), false),
        Err(AccountRefusal::Invalid(AccountError::NoDirectory))
    ));
}

#[test]
fn failures_are_counted_and_deadlines_capped() {
    let first = failure_state(&None, "id", "boom".into(), None, 300, NOW);
    assert_eq!(first.consecutive_failures, 1);
    assert_eq!(first.next_attempt, Some(NOW + 300));
    assert_eq!(first.last_error.as_deref(), Some("boom"));
    let late = failure_state(&Some(first), "id", "again".into(), Some(NOW + 10_000_000), 300, NOW);
    assert_eq!(late.consecutive_failures, 2);
    assert_eq!(late.next_attempt, Some(NOW + 172800));
    let recorded = record_failure(&None, "id", "too many requests: Retry-After: 3600".into(), NOW);
    assert_eq!(recorded.consecutive_failures, 1);
    assert_eq!(recorded.next_attempt, Some(NOW + 3600));
    let slow = record_timeout(&Some(recorded), &single("id"), 300_999, NOW);
    assert_eq!(slow.last_error.as_deref(), Some("renewal exceeded 300 second deadline"));
    assert_eq!(slow.consecutive_failures, 2);
    assert_eq!(slow.ca_retry_after, None);
}

#[test]
fn renewal_information_is_asked_again_in_time() {
    let suggestion = AriSuggestion { suggested_at: NOW + 10, explanation_url: None, retry_after_seconds: 60 };
    let with = success_state("id", &Some(suggestion), NOW);
    assert_eq!(with.consecutive_failures, 0);
    assert_eq!(with.ari_suggested_at, Some(NOW + 10));
    let mut without = success_state("id", &None, NOW);
    record_ari(&mut without, &None, NOW);
    assert_eq!(without.ari_next_check, Some(NOW + 604800));
    assert!(ari_is_due(true, None, true, NOW));
    assert!(ari_is_due(true, Some(NOW), true, NOW));
    assert!(!ari_is_due(true, Some(NOW + 1), true, NOW));
    assert!(!ari_is_due(false, None, true, NOW));
    assert!(!ari_is_due(true, None, false, NOW));
    let picked = suggested_renewal(100, 200);
    assert!((100..=200).contains(&picked));
    assert_eq!(suggested_renewal(200, 100), 200);
    let window = RenewalAnswer::Window { start: 100, end: 100, explanation_url: None, retry_after_seconds: 60 };
    let suggestion = renewal_information(window).unwrap().unwrap();
    assert_eq!((suggestion.suggested_at, suggestion.retry_after_seconds), (100, 60));
    assert!(matches!(renewal_information(RenewalAnswer::Unsupported), Ok(None)));
    assert!(renewal_information(RenewalAnswer::Failed).is_err());
}

fn provider() -> AcmeProvider {
    let mut p = AcmeProvider::default();
    p.directory_url = "https://acme.example/directory".into();
    p
}

#[test]
fn an_external_binding_needs_both_halves() {
    assert!(matches!(create_account(&provider()), Ok(None)));
    let mut p = provider();
    p.eab_key_id = Some("kid".into());
    assert!(matches!(create_account(&p), Err(AccountError::HalfBinding)));
    p.eab_hmac_key = Some("aGVsbG8".into());
    match create_account(&p) {
        Ok(Some(binding)) => {
            assert_eq!(binding.key_id, "kid");
            assert_eq!(binding.key, b"hello");
        }
        other => panic!("{other:?}"),
    }
    p.eab_hmac_key = Some("aGVsbG8=".into());
    assert!(matches!(create_account(&p), Ok(Some(_))), "padding is accepted");
    p.eab_hmac_key = Some("***".into());
    assert!(matches!(create_account(&p), Err(AccountError::InvalidKey)));
    assert!(matches!(create_account(&AcmeProvider::default()), Err(AccountError::NoDirectory)));
    p.eab_hmac_key = Some("x".into());
    assert!(matches!(account_binding(&p, Some(vec![1])), Ok(Some(_))));
    let consumed = consume_binding(&p).expect("there is a binding to consume");
    assert!(consumed.eab_hmac_key.is_none());
    assert!(consume_binding(&provider()).is_none());
}

#[test]
fn an_order_names_each_domain_once() {
    assert_eq!(order_domains(&managed(&["Home.Example."])).unwrap(), vec!["home.example"]);
    assert_eq!(order_domains(&managed(&[])).unwrap_err(), IssueError::NoDomains);
    assert_eq!(order_domains(&managed(&["a/b"])).unwrap_err(), IssueError::InvalidDomain);
    assert_eq!(order_domains(&managed(&["a.example", "A.example."])).unwrap_err(), IssueError::DuplicateDomains);
}

#[test]
fn only_pending_authorizations_are_provisioned() {
    let domain = Some("App.Example".to_string());
    assert_eq!(authorize(AuthorizationState::Valid, false, &None), Ok(None));
    assert_eq!(authorize(AuthorizationState::Pending, true, &domain), Ok(Some("app.example".to_string())));
    assert_eq!(authorize(AuthorizationState::Other, true, &domain), Err(IssueError::UnexpectedStatus));
    assert_eq!(authorize(AuthorizationState::Pending, false, &domain), Err(IssueError::NoTlsAlpn));
    assert_eq!(authorize(AuthorizationState::Pending, true, &None), Err(IssueError::UnsupportedIdentifier));
}

fn pending(domain: &str) -> IssueReply {
    IssueReply::Authorization {
        state: AuthorizationState::Pending,
        offers_tls_alpn: true,
        identifier: Some(domain.into()),
        key_authorization: b"token.thumbprint".to_vec(),
    }
}

#[test]
fn an_order_that_is_not_ready_is_not_finalized() {
    let mut registry: ChallengeRegistry<Issued> = ChallengeRegistry::new();
    let mut order = Issuance::new(&managed(&["App.Example"]), 1000, &None).unwrap();
    assert_eq!(order.domains, vec!["app.example"]);
    assert_eq!(order.action(), IssueAction::PlaceOrder);
    assert_eq!(order.issue(&mut registry, IssueReply::Done, 5, NOW), IssueAction::NextAuthorization);
    assert_eq!(order.issue(&mut registry, pending("App.Example"), 5, NOW), IssueAction::Announce);
    assert_eq!(registry.len(), 1);
    assert!(registry.resolve("app.example", 6));
    assert_eq!(order.issue(&mut registry, IssueReply::Done, 5, NOW), IssueAction::NextAuthorization);
    let polling = order.issue(&mut registry, IssueReply::NoMoreAuthorizations, 5, NOW);
    assert_eq!(polling, IssueAction::Poll { pause_ms: 500, seconds: 180 });
    let waited = order.issue(&mut registry, IssueReply::Status { ready: false }, 5, NOW);
    assert_eq!(waited, IssueAction::GiveUp(IssueError::NotReady));
    assert_eq!(registry.len(), 0, "the challenges are taken away");
    assert_eq!(order.issue(&mut registry, IssueReply::Done, 5, NOW), IssueAction::GiveUp(IssueError::NotReady));
}

#[test]
fn challenges_are_gone_before_an_order_is_finalized() {
    let mut registry: ChallengeRegistry<Issued> = ChallengeRegistry::new();
    let other = registry.provision("other.example", b"x", 1000, 5, NOW).unwrap();
    let generation = usable("home.example");
    let mut order = Issuance::new(&managed(&["home.example"]), 1000, &Some(generation)).unwrap();
    assert!(order.replaces.is_some());
    order.issue(&mut registry, IssueReply::Done, 5, NOW);
    order.issue(&mut registry, pending("home.example"), 5, NOW);
    order.issue(&mut registry, IssueReply::Done, 5, NOW);
    order.issue(&mut registry, IssueReply::NoMoreAuthorizations, 5, NOW);
    assert_eq!(order.issue(&mut registry, IssueReply::Status { ready: true }, 5, NOW), IssueAction::Finalize);
    assert_eq!(registry.len(), 1, "another order's challenge stays");
    let key = rcgen::KeyPair::generate().unwrap();
    let leaf = rcgen::CertificateParams::new(vec!["home.example".to_string()]).unwrap().self_signed(&key).unwrap();
    let downloading = order.issue(&mut registry, IssueReply::PrivateKey(key.serialize_pem()), 5, NOW);
    assert_eq!(downloading, IssueAction::Download { pause_ms: 500, seconds: 180 });
    assert_eq!(order.issue(&mut registry, IssueReply::Chain(leaf.pem()), 5, NOW), IssueAction::Finish);
    let issued = order.issued.unwrap();
    assert_eq!(issued.certificate_id, managed(&["home.example"]).id);
    assert_eq!(issued.private_key_pem, key.serialize_pem());
    registry.release(&other);
    assert_eq!(registry.len(), 0);
}

#[test]
fn an_order_fails_at_each_stage_with_its_reason() {
    let lost = || IssueReply::Failed;
    let mut registry: ChallengeRegistry<Issued> = ChallengeRegistry::new();
    let start = || Issuance::new(&managed(&["home.example"]), 1000, &None).unwrap();
    let mut order = start();
    assert_eq!(order.issue(&mut registry, lost(), 5, NOW), IssueAction::GiveUp(IssueError::NotPlaced));
    let mut order = start();
    order.issue(&mut registry, IssueReply::Done, 5, NOW);
    assert_eq!(order.issue(&mut registry, lost(), 5, NOW), IssueAction::GiveUp(IssueError::NoAuthorization));
    let mut order = start();
    order.issue(&mut registry, IssueReply::Done, 5, NOW);
    order.issue(&mut registry, pending("home.example"), 5, NOW);
    assert_eq!(order.issue(&mut registry, lost(), 5, NOW), IssueAction::GiveUp(IssueError::NotAnnounced));
    assert_eq!(registry.len(), 0);
    let mut order = start();
    order.issue(&mut registry, IssueReply::Done, 5, NOW);
    order.issue(&mut registry, IssueReply::NoMoreAuthorizations, 5, NOW);
    assert_eq!(order.issue(&mut registry, lost(), 5, NOW), IssueAction::GiveUp(IssueError::NotPolled));
    let mut order = start();
    order.issue(&mut registry, IssueReply::Done, 5, NOW);
    order.issue(&mut registry, IssueReply::NoMoreAuthorizations, 5, NOW);
    order.issue(&mut registry, IssueReply::Status { ready: true }, 5, NOW);
    assert_eq!(order.issue(&mut registry, lost(), 5, NOW), IssueAction::GiveUp(IssueError::NotFinalized));
    let mut order = start();
    order.issue(&mut registry, IssueReply::Done, 5, NOW);
    order.issue(&mut registry, IssueReply::NoMoreAuthorizations, 5, NOW);
    order.issue(&mut registry, IssueReply::Status { ready: true }, 5, NOW);
    order.issue(&mut registry, IssueReply::PrivateKey("key".into()), 5, NOW);
    assert_eq!(order.issue(&mut registry, lost(), 5, NOW), IssueAction::GiveUp(IssueError::NotDownloaded));
}

#[test]
fn every_domain_is_verified_until_one_is_refused() {
    let control = ControlPlaneConfig { public_resolvers: vec!["1.1.1.1".into()], ..ControlPlaneConfig::default() };
    let answer = |ip: &str| vec![ResolverResult { resolver: "1.1.1.1".into(), addresses: Ok(vec![ip.to_string()]) }];
    let domains = vec!["A.example.".to_string(), "b.example".to_string(), "c/d".to_string()];
    let mut v = Verification::start("id".into(), domains, &control, Some(vec!["203.0.113.10".into()])).ok().unwrap();
    assert!(matches!(v.next(), VerifyStep::Ask(domain) if domain == "a.example"));
    v.verify_inner(&answer("203.0.113.10"), NOW);
    assert!(matches!(v.next(), VerifyStep::Ask(domain) if domain == "b.example"));
    v.verify_inner(&answer("203.0.113.10"), NOW);
    assert!(matches!(v.next(), VerifyStep::Refused(DomainRefusal::Invalid)));
    assert_eq!(v.kept.len(), 2);
    assert!(v.kept.iter().all(|d| d.passed));
    let mut w = Verification::start("id".into(), vec!["a.example".into()], &control, Some(vec!["203.0.113.10".into()]))
        .ok()
        .unwrap();
    w.verify_inner(&answer("198.51.100.7"), NOW);
    assert!(matches!(w.next(), VerifyStep::Refused(DomainRefusal::Refused(_))));
    assert_eq!(w.kept.len(), 1);
    let mut done = Verification::start("id".into(), vec![], &control, Some(vec!["203.0.113.10".into()])).ok().unwrap();
    assert!(matches!(done.next(), VerifyStep::Passed));
    assert!(Verification::start("id".into(), vec![], &control, None).is_err());
}

#[test]
fn an_issued_chain_is_checked_block_by_block() {
    let ca_key = rcgen::KeyPair::generate().unwrap();
    let mut ca_params = rcgen::CertificateParams::new(Vec::<String>::new()).unwrap();
    ca_params.is_ca = rcgen::IsCa::Ca(rcgen::BasicConstraints::Unconstrained);
    let ca = ca_params.self_signed(&ca_key).unwrap();
    let issuer = rcgen::Issuer::new(ca_params, ca_key);
    let key = rcgen::KeyPair::generate().unwrap();
    let mut leaf_params = rcgen::CertificateParams::new(vec!["www.example".to_string()]).unwrap();
    leaf_params.distinguished_name.push(rcgen::DnType::CommonName, "leaf");
    let leaf = leaf_params.signed_by(&key, &issuer).unwrap();
    let chain = format!("{}{}", leaf.pem(), ca.pem());
    let generation = generation_from_pem("www.example", &chain, &key.serialize_pem(), NOW).unwrap();
    assert_eq!(generation.certificate_id, "www.example");
    assert_eq!(generation.issued_at, Some(NOW));
    assert_eq!(generation.id.len(), 32);
    assert_eq!(generation.fingerprint_sha256.len(), 64);
    assert_eq!(generation.not_before, Some(157766400));

    let swapped = certificate_blocks(&format!("{}{}", ca.pem(), leaf.pem()));
    assert_eq!(validate_issuer_chain(&swapped).unwrap_err(), IssueError::NotOrdered);
    let other_key = rcgen::KeyPair::generate().unwrap();
    let mut other = rcgen::CertificateParams::new(Vec::<String>::new()).unwrap();
    other.is_ca = rcgen::IsCa::Ca(rcgen::BasicConstraints::Unconstrained);
    let impostor = other.self_signed(&other_key).unwrap();
    let forged = certificate_blocks(&format!("{}{}", leaf.pem(), impostor.pem()));
    assert_eq!(validate_issuer_chain(&forged).unwrap_err(), IssueError::InvalidSignature);
    assert_eq!(generation_from_pem("x", "nothing", "", NOW).unwrap_err(), IssueError::NoCertificate);
    let broken = "-----BEGIN CERTIFICATE-----\nAAAA\n-----END CERTIFICATE-----\n";
    assert_eq!(generation_from_pem("x", broken, "", NOW).unwrap_err(), IssueError::InvalidCertificate);
}
