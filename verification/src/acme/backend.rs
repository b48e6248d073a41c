//! Renewal rules: whether a candidate may still be renewed, what is recorded
//! of a success or a failure, and when the next attempt is due. Times are
//! seconds since the Unix epoch.
use vstd::prelude::*;
use crate::acme::client::{self, AccountError, ExternalBinding};
use crate::acme::scheduler::RenewalCandidate;
use crate::acme_types::{AcmeProvider, ControlPlaneConfig, ManagedCertificate, RenewalState};
use crate::crypto;
use crate::patterns;
use crate::text;
use crate::utc;

verus! {

/// Public-DNS validation is injected so production can use explicitly
/// configured recursive resolvers while tests remain entirely local. It must
/// never consult the proxy's upstream DNS override table.
pub trait DnsPrerequisite {
    fn verify(&self, certificate_id: &str, domains: &Vec<String>, control: &ControlPlaneConfig) -> (r: Result<(), String>);
}

/// Why a candidate is not renewed.
#[derive(Debug, Clone, Copy, PartialEq, Eq, Structural)]
pub enum RenewRefusal {
    Deleted,
    Disabled,
    Changed,
}

impl RenewRefusal {
    pub open spec fn text(self) -> Seq<char> {
        match self {
            RenewRefusal::Deleted => "managed certificate was deleted before renewal"@,
            RenewRefusal::Disabled => "managed certificate was disabled before renewal"@,
            RenewRefusal::Changed => "managed certificate changed after renewal scan; retrying next scan"@,
        }
    }

    pub fn message(self) -> (r: &'static str)
        ensures
            r@ == self.text(),
    {
        match self {
            RenewRefusal::Deleted => "managed certificate was deleted before renewal",
            RenewRefusal::Disabled => "managed certificate was disabled before renewal",
            RenewRefusal::Changed => "managed certificate changed after renewal scan; retrying next scan",
        }
    }
}

fn same_texts(a: &Vec<String>, b: &Vec<String>) -> (r: bool)
    ensures
        r == (text::views(a@) == text::views(b@)),
{
    let ghost x = text::views(a@);
    let ghost y = text::views(b@);
    if a.len() != b.len() {
        assert(x.len() != y.len());
        return false;
    }
    let mut i: usize = 0;
    while i < a.len()
        invariant
            i <= a@.len(),
            a@.len() == b@.len(),
            x == text::views(a@),
            y == text::views(b@),
            forall|k: int| 0 <= k < i ==> x[k] == y[k],
        decreases a@.len() - i,
    {
        assert(x[i as int] == a@[i as int]@ && y[i as int] == b@[i as int]@);
        if !text::str_eq(a[i].as_str(), b[i].as_str()) {
            return false;
        }
        i = i + 1;
    }
    assert(x =~= y);
    true
}

/// Why a candidate is no longer what the scan found.
pub open spec fn refusal_of(managed: Option<ManagedCertificate>, candidate: RenewalCandidate) -> Option<RenewRefusal> {
    match managed {
        None => Some(RenewRefusal::Deleted),
        Some(m) => if !m.enabled {
            Some(RenewRefusal::Disabled)
        } else if m.provider_id@ != candidate.provider_id@ || text::views(m.domains@) != text::views(candidate.domains@) {
            Some(RenewRefusal::Changed)
        } else {
            None
        },
    }
}

/// Checks that a candidate is still what the scan found: the certificate is
/// there, enabled, and has the same provider and domains.
pub fn check_candidate(managed: &Option<ManagedCertificate>, candidate: &RenewalCandidate) -> (r: Result<(), RenewRefusal>)
    ensures
        r == match refusal_of(*managed, *candidate) {
            Some(e) => Err::<(), RenewRefusal>(e),
            None => Ok(()),
        },
{
    let m = match managed {
        Some(m) => m,
        None => return Err(RenewRefusal::Deleted),
    };
    if !m.enabled {
        return Err(RenewRefusal::Disabled);
    }
    if !text::str_eq(m.provider_id.as_str(), candidate.provider_id.as_str()) || !same_texts(
        &m.domains,
        &candidate.domains,
    ) {
        return Err(RenewRefusal::Changed);
    }
    Ok(())
}

/// When a certificate authority suggests to renew, and when to ask again.
#[derive(Debug)]
pub struct AriSuggestion {
    pub suggested_at: i64,
    pub explanation_url: Option<String>,
    pub retry_after_seconds: u64,
}

/// Twelve hours.
pub const ARI_RETRY_FALLBACK: i64 = 43200;

/// Seven days.
pub const ARI_UNSUPPORTED_RETRY: i64 = 604800;

/// When to ask again: after the time that the authority gave, if a point in
/// time is so far away.
pub open spec fn next_check(now: i64, retry_after_seconds: u64) -> i64 {
    if now + retry_after_seconds <= utc::MAX_SECONDS {
        (now + retry_after_seconds) as i64
    } else {
        (now + ARI_RETRY_FALLBACK) as i64
    }
}

fn check_again(now: i64, retry_after_seconds: u64) -> (r: i64)
    requires
        utc::MIN_SECONDS <= now <= utc::MAX_SECONDS - ARI_UNSUPPORTED_RETRY,
    ensures
        r == next_check(now, retry_after_seconds),
{
    if retry_after_seconds <= 1000000000000 {
        let at = now + retry_after_seconds as i64;
        if at <= utc::MAX_SECONDS {
            return at;
        }
    }
    now + ARI_RETRY_FALLBACK
}

/// Whether an optional text is the same as another.
pub open spec fn same_option(a: Option<String>, b: Option<String>) -> bool {
    match (a, b) {
        (Some(x), Some(y)) => x@ == y@,
        (None, None) => true,
        _ => false,
    }
}

fn copy_option(a: &Option<String>) -> (r: Option<String>)
    ensures
        same_option(r, *a),
{
    match a {
        Some(s) => Some(s.clone()),
        None => None,
    }
}

/// Whether `r` is what is recorded of a renewal that succeeded.
pub open spec fn success_is(r: RenewalState, certificate_id: Seq<char>, ari: Option<AriSuggestion>, now: i64) -> bool {
    &&& r.certificate_id@ == certificate_id
    &&& r.last_attempt == Some(now)
    &&& r.last_success == Some(now)
    &&& r.next_attempt is None
    &&& r.ca_retry_after is None
    &&& r.consecutive_failures == 0
    &&& r.last_error is None
    &&& r.ari_checked_at == Some(now)
    &&& match ari {
        Some(a) => r.ari_suggested_at == Some(a.suggested_at) && same_option(r.ari_explanation_url, a.explanation_url)
            && r.ari_next_check == Some(next_check(now, a.retry_after_seconds)),
        None => r.ari_suggested_at is None && r.ari_explanation_url is None && r.ari_next_check is None,
    }
}

/// What is recorded of a renewal that succeeded.
pub fn success_state(certificate_id: &str, ari: &Option<AriSuggestion>, now: i64) -> (r: RenewalState)
    requires
        utc::MIN_SECONDS <= now <= utc::MAX_SECONDS - ARI_UNSUPPORTED_RETRY,
    ensures
        success_is(r, certificate_id@, *ari, now),
{
    let (suggested, url, check) = match ari {
        Some(a) => (Some(a.suggested_at), copy_option(&a.explanation_url), Some(check_again(now, a.retry_after_seconds))),
        None => (None, None, None),
    };
    RenewalState {
        certificate_id: text::owned(certificate_id),
        last_attempt: Some(now),
        last_success: Some(now),
        next_attempt: None,
        ca_retry_after: None,
        consecutive_failures: 0,
        last_error: None,
        ari_suggested_at: suggested,
        ari_explanation_url: url,
        ari_checked_at: Some(now),
        ari_next_check: check,
    }
}

/// Whether the authority is to be asked for its suggestion now: the
/// certificate is enabled and there, and the last answer has run out.
pub fn ari_is_due(enabled: bool, next_check: Option<i64>, has_generation: bool, now: i64) -> (r: bool)
    ensures
        r == (enabled && has_generation && match next_check {
            Some(at) => at <= now,
            None => true,
        }),
{
    enabled && has_generation && match next_check {
        Some(at) => at <= now,
        None => true,
    }
}

/// Takes in what the authority suggested, or that it makes no suggestions.
pub fn record_ari(state: &mut RenewalState, suggestion: &Option<AriSuggestion>, now: i64)
    requires
        utc::MIN_SECONDS <= now <= utc::MAX_SECONDS - ARI_UNSUPPORTED_RETRY,
    ensures
        final(state).certificate_id == old(state).certificate_id,
        final(state).last_attempt == old(state).last_attempt,
        final(state).last_success == old(state).last_success,
        final(state).next_attempt == old(state).next_attempt,
        final(state).ca_retry_after == old(state).ca_retry_after,
        final(state).consecutive_failures == old(state).consecutive_failures,
        final(state).last_error == old(state).last_error,
        final(state).ari_checked_at == Some(now),
        match suggestion {
            Some(a) => final(state).ari_suggested_at == Some(a.suggested_at) && same_option(
                final(state).ari_explanation_url,
                a.explanation_url,
            ) && final(state).ari_next_check == Some(next_check(now, a.retry_after_seconds)),
            None => final(state).ari_suggested_at == old(state).ari_suggested_at && final(state).ari_explanation_url
                == old(state).ari_explanation_url && final(state).ari_next_check == Some(
                (now + ARI_UNSUPPORTED_RETRY) as i64,
            ),
        },
{
    state.ari_checked_at = Some(now);
    match suggestion {
        Some(a) => {
            state.ari_suggested_at = Some(a.suggested_at);
            state.ari_explanation_url = copy_option(&a.explanation_url);
            state.ari_next_check = Some(check_again(now, a.retry_after_seconds));
        },
        None => {
            state.ari_next_check = Some(now + ARI_UNSUPPORTED_RETRY);
        },
    }
}

/// Two to the power of `n`.
pub open spec fn doubled(n: nat) -> nat
    decreases n,
{
    if n == 0 {
        1
    } else {
        2 * doubled((n - 1) as nat)
    }
}

/// The seconds between attempts without jitter: 5 minutes, doubled with every
/// failure after the first, capped at 12 hours.
pub open spec fn backoff_base(consecutive_failures: u32) -> int {
    let n: nat = if consecutive_failures == 0 {
        0
    } else if consecutive_failures > 9 {
        8
    } else {
        (consecutive_failures - 1) as nat
    };
    let minutes = 5 * doubled(n);
    60 * if minutes < 720 {
        minutes as int
    } else {
        720
    }
}

fn base_seconds(consecutive_failures: u32) -> (r: i64)
    ensures
        r == backoff_base(consecutive_failures),
        300 <= r <= 43200,
{
    let exponent: u32 = if consecutive_failures == 0 {
        0
    } else if consecutive_failures > 9 {
        8
    } else {
        consecutive_failures - 1
    };
    let mut minutes: i64 = 5;
    let mut i: u32 = 0;
    proof {
        reveal_with_fuel(doubled, 9);
    }
    while i < exponent
        invariant
            i <= exponent <= 8,
            minutes == 5 * doubled(i as nat),
            5 <= minutes,
            minutes <= 5 * doubled(8),
            doubled(8) == 256,
        decreases exponent - i,
    {
        proof {
            reveal_with_fuel(doubled, 9);
        }
        minutes = minutes * 2;
        i = i + 1;
    }
    if minutes < 720 {
        minutes * 60
    } else {
        43200
    }
}

/// The seconds until the next attempt for a jitter of up to a fifth of the
/// base.
pub fn backoff_with(consecutive_failures: u32, jitter: i64) -> (r: i64)
    requires
        -(backoff_base(consecutive_failures) / 5) <= jitter <= backoff_base(consecutive_failures) / 5,
    ensures
        r == backoff_base(consecutive_failures) + jitter,
{
    let base = base_seconds(consecutive_failures);
    base + jitter
}

/// Exponential retry backoff: 5 minutes doubling per consecutive failure,
/// capped at 12 hours, with 20% jitter either way so certificates that failed
/// together (for example during a CA outage) do not retry in the same scan
/// tick.
pub fn failure_backoff(consecutive_failures: u32) -> (r: i64)
    ensures
        backoff_base(consecutive_failures) - backoff_base(consecutive_failures) / 5 <= r <= backoff_base(
            consecutive_failures,
        ) + backoff_base(consecutive_failures) / 5,
{
    let base = base_seconds(consecutive_failures);
    let fifth: i64 = base / 5;
    let jitter = crypto::random_between(-fifth, fifth);
    backoff_with(consecutive_failures, jitter)
}

/// More failures never mean a shorter base, and it stays between 5 minutes and
/// 12 hours.
pub proof fn backoff_grows_up_to_a_cap(a: u32, b: u32)
    requires
        a <= b,
    ensures
        300 <= backoff_base(a) <= backoff_base(b) <= 43200,
{
    reveal_with_fuel(doubled, 9);
}

pub const ISO_PATTERN: &'static str =
    r"(?i)retry[ -]after:?\s+(\d{4}-\d{2}-\d{2}[ T]\d{2}:\d{2}:\d{2})(?:Z| UTC)";

pub const HTTP_DATE_PATTERN: &'static str =
    r"(?i)retry[ -]after:?\s+(?:[a-z]{3},\s*)?(\d{1,2} [A-Za-z]{3} \d{4} \d{2}:\d{2}:\d{2})\s*(?:GMT|UTC)";

pub const DELTA_PATTERN: &'static str = r"(?i)retry[ -]after:?\s+(\d{1,8})(?:[^\d-]|$)";

pub const ISO_T_FORMAT: &'static str = "[year]-[month]-[day]T[hour]:[minute]:[second]";

pub const ISO_SPACE_FORMAT: &'static str = "[year]-[month]-[day] [hour]:[minute]:[second]";

pub const HTTP_DATE_FORMAT: &'static str =
    "[day padding:none] [month repr:short case_sensitive:false] [year] [hour]:[minute]:[second]";

/// The format that an ISO-like timestamp has.
pub open spec fn iso_format(value: Seq<char>) -> Seq<char> {
    if value.len() > 10 && value[10] == 'T' {
        ISO_T_FORMAT@
    } else {
        ISO_SPACE_FORMAT@
    }
}

/// The deadline that the found texts denote: an ISO-like timestamp before an
/// HTTP date before a number of seconds. A text that was found but denotes
/// nothing is no reason to look at the others.
pub open spec fn deadline_of(
    iso: Option<Seq<char>>,
    http_date: Option<Seq<char>>,
    delta: Option<Seq<char>>,
    now: i64,
) -> Option<int> {
    match (iso, http_date, delta) {
        (Some(v), _, _) => match utc::parsed_seconds(v, iso_format(v)) {
            Some(t) => Some(t as int),
            None => None,
        },
        (None, Some(v), _) => match utc::parsed_seconds(v, HTTP_DATE_FORMAT@) {
            Some(t) => Some(t as int),
            None => None,
        },
        (None, None, Some(v)) => match text::signed(v, i64::MIN as int, i64::MAX as int) {
            Some(seconds) => if -100000000 < seconds < 100000000 {
                Some(now + seconds)
            } else {
                None
            },
            None => None,
        },
        (None, None, None) => None,
    }
}

pub open spec fn viewed(s: Option<String>) -> Option<Seq<char>> {
    match s {
        Some(v) => Some(v@),
        None => None,
    }
}

/// The deadline that the found texts denote.
pub fn found_deadline(iso: &Option<String>, http_date: &Option<String>, delta: &Option<String>, now: i64) -> (r: Option<
    i64,
>)
    requires
        utc::MIN_SECONDS <= now <= utc::MAX_SECONDS,
    ensures
        match r {
            Some(t) => deadline_of(viewed(*iso), viewed(*http_date), viewed(*delta), now) == Some(t as int),
            None => deadline_of(viewed(*iso), viewed(*http_date), viewed(*delta), now) is None,
        },
{
    if let Some(v) = iso {
        let c = text::chars_of(v.as_str());
        let format = if c.len() > 10 && c[10] == 'T' {
            ISO_T_FORMAT
        } else {
            ISO_SPACE_FORMAT
        };
        return utc::parse_seconds(v.as_str(), format);
    }
    if let Some(v) = http_date {
        return utc::parse_seconds(v.as_str(), HTTP_DATE_FORMAT);
    }
    if let Some(v) = delta {
        let c = text::chars_of(v.as_str());
        return match text::parse_i64(c.as_slice()) {
            Some(seconds) => if -100000000 < seconds && seconds < 100000000 {
                Some(now + seconds)
            } else {
                None
            },
            None => None,
        };
    }
    None
}

/// Extracts a CA `Retry-After` deadline from an error chain's text. Supports
/// the three shapes CAs actually send: an ISO-like timestamp, an HTTP-date
/// (`Wed, 23 Jul 2026 16:21:23 GMT`), and delta-seconds (`Retry-After: 3600`).
pub fn retry_after_from_error(error: &str, now: i64) -> (r: Option<i64>)
    requires
        utc::MIN_SECONDS <= now <= utc::MAX_SECONDS,
    ensures
        ({
            let found = deadline_of(
                patterns::captured(ISO_PATTERN@, error@, 1),
                patterns::captured(HTTP_DATE_PATTERN@, error@, 1),
                patterns::captured(DELTA_PATTERN@, error@, 1),
                now,
            );
            match r {
                Some(t) => found == Some(t as int),
                None => found is None,
            }
        }),
{
    let iso = patterns::capture(ISO_PATTERN, error, 1);
    let http_date = patterns::capture(HTTP_DATE_PATTERN, error, 1);
    let delta = patterns::capture(DELTA_PATTERN, error, 1);
    found_deadline(&iso, &http_date, &delta, now)
}

/// 48 hours.
pub const CA_RETRY_CAP: i64 = 172800;

/// The deadline that is honored: one that lies ahead, bounded so a garbled or
/// hostile timestamp cannot gate a certificate indefinitely.
pub open spec fn honored(deadline: Option<i64>, now: i64) -> Option<i64> {
    match deadline {
        Some(t) => if t <= now {
            None
        } else if t < now + CA_RETRY_CAP {
            Some(t)
        } else {
            Some((now + CA_RETRY_CAP) as i64)
        },
        None => None,
    }
}

/// How many times in a row a certificate has failed by now.
pub open spec fn failures_of(previous: Option<RenewalState>) -> u32 {
    match previous {
        Some(p) => if p.consecutive_failures == u32::MAX {
            u32::MAX
        } else {
            (p.consecutive_failures + 1) as u32
        },
        None => 1,
    }
}

/// Whether `r` is what is recorded of a renewal that failed.
pub open spec fn failure_is(
    r: RenewalState,
    previous: Option<RenewalState>,
    certificate_id: Seq<char>,
    error: String,
    deadline: Option<i64>,
    backoff: i64,
    now: i64,
) -> bool {
    &&& r.certificate_id@ == certificate_id
    &&& r.last_attempt == Some(now)
    &&& r.ca_retry_after == honored(deadline, now)
    &&& r.next_attempt == match honored(deadline, now) {
        Some(t) => Some(t),
        None => Some((now + backoff) as i64),
    }
    &&& r.consecutive_failures == failures_of(previous)
    &&& r.last_error == Some(error)
    &&& match previous {
        Some(p) => {
            &&& r.last_success == p.last_success
            &&& r.ari_suggested_at == p.ari_suggested_at
            &&& same_option(r.ari_explanation_url, p.ari_explanation_url)
            &&& r.ari_checked_at == p.ari_checked_at
            &&& r.ari_next_check == p.ari_next_check
        },
        None => {
            &&& r.last_success is None
            &&& r.ari_suggested_at is None
            &&& r.ari_explanation_url is None
            &&& r.ari_checked_at is None
            &&& r.ari_next_check is None
        },
    }
}

/// What is recorded of a renewal that failed: `deadline` is what the authority
/// asked for, `backoff` the time to wait where it asked for nothing.
pub fn failure_state(
    previous: &Option<RenewalState>,
    certificate_id: &str,
    error: String,
    deadline: Option<i64>,
    backoff: i64,
    now: i64,
) -> (r: RenewalState)
    requires
        utc::MIN_SECONDS <= now <= utc::MAX_SECONDS - CA_RETRY_CAP,
        0 <= backoff <= CA_RETRY_CAP,
    ensures
        failure_is(r, *previous, certificate_id@, error, deadline, backoff, now),
{
    let retry = match deadline {
        Some(t) => if t <= now {
            None
        } else if t < now + CA_RETRY_CAP {
            Some(t)
        } else {
            Some(now + CA_RETRY_CAP)
        },
        None => None,
    };
    let next = match retry {
        Some(t) => t,
        None => now + backoff,
    };
    match previous {
        Some(p) => RenewalState {
            certificate_id: text::owned(certificate_id),
            last_attempt: Some(now),
            last_success: p.last_success,
            next_attempt: Some(next),
            ca_retry_after: retry,
            consecutive_failures: p.consecutive_failures.saturating_add(1),
            last_error: Some(error),
            ari_suggested_at: p.ari_suggested_at,
            ari_explanation_url: copy_option(&p.ari_explanation_url),
            ari_checked_at: p.ari_checked_at,
            ari_next_check: p.ari_next_check,
        },
        None => RenewalState {
            certificate_id: text::owned(certificate_id),
            last_attempt: Some(now),
            last_success: None,
            next_attempt: Some(next),
            ca_retry_after: retry,
            consecutive_failures: 1,
            last_error: Some(error),
            ari_suggested_at: None,
            ari_explanation_url: None,
            ari_checked_at: None,
            ari_next_check: None,
        },
    }
}

/// Whether a certificate may wait for so long after so many failures.
pub open spec fn within_jitter(backoff: i64, consecutive_failures: u32) -> bool {
    backoff_base(consecutive_failures) * 4 <= 5 * backoff <= backoff_base(consecutive_failures) * 6
}

/// The deadline that an error text of an authority names.
pub open spec fn deadline_in(error: Seq<char>, now: i64) -> Option<i64> {
    match deadline_of(
        patterns::captured(ISO_PATTERN@, error, 1),
        patterns::captured(HTTP_DATE_PATTERN@, error, 1),
        patterns::captured(DELTA_PATTERN@, error, 1),
        now,
    ) {
        Some(t) => Some(t as i64),
        None => None,
    }
}

/// Whether `r` is recorded of a failure: the next attempt is put off to the
/// deadline that the authority named, or else for the backoff with its jitter.
pub open spec fn failure_recorded(
    r: RenewalState,
    previous: Option<RenewalState>,
    certificate_id: Seq<char>,
    error: String,
    now: i64,
) -> bool {
    exists|backoff: i64| #[trigger]
        within_jitter(backoff, failures_of(previous)) && failure_is(
            r,
            previous,
            certificate_id,
            error,
            deadline_in(error@, now),
            backoff,
            now,
        )
}

/// Records a failed renewal: counts it, and puts the next attempt off.
pub fn record_failure(previous: &Option<RenewalState>, certificate_id: &str, error: String, now: i64) -> (r: RenewalState)
    requires
        utc::MIN_SECONDS <= now <= utc::MAX_SECONDS - CA_RETRY_CAP,
    ensures
        failure_recorded(r, *previous, certificate_id@, error, now),
        r.next_attempt is Some,
        now < r.next_attempt->0 <= now + CA_RETRY_CAP,
{
    let failures: u32 = match previous {
        Some(p) => p.consecutive_failures.saturating_add(1),
        None => 1,
    };
    let deadline = retry_after_from_error(error.as_str(), now);
    let backoff = failure_backoff(failures);
    proof {
        backoff_grows_up_to_a_cap(failures, failures);
        assert(within_jitter(backoff, failures_of(*previous)));
        assert(deadline == deadline_in(error@, now));
    }
    failure_state(previous, certificate_id, error, deadline, backoff, now)
}

/// What is recorded where a renewal takes too long.
pub open spec fn timeout_text(deadline_ms: u64) -> Seq<char> {
    "renewal exceeded "@ + text::decimal((deadline_ms / 1000) as nat) + " second deadline"@
}

/// Records that a renewal took longer than its deadline, as a failure.
pub fn record_timeout(previous: &Option<RenewalState>, candidate: &RenewalCandidate, deadline_ms: u64, now: i64) -> (r:
    RenewalState)
    requires
        utc::MIN_SECONDS <= now <= utc::MAX_SECONDS - CA_RETRY_CAP,
    ensures
        r.last_error is Some,
        (r.last_error->0)@ == timeout_text(deadline_ms),
        failure_recorded(r, *previous, candidate.certificate_id@, r.last_error->0, now),
        r.next_attempt is Some,
        now < r.next_attempt->0 <= now + CA_RETRY_CAP,
{
    let mut error = text::owned("renewal exceeded ");
    text::push_decimal(&mut error, deadline_ms / 1000);
    error.push_str(" second deadline");
    let r = record_failure(previous, candidate.certificate_id.as_str(), error, now);
    proof {
        let backoff = choose|backoff: i64| #[trigger]
            within_jitter(backoff, failures_of(*previous)) && failure_is(
                r,
                *previous,
                candidate.certificate_id@,
                error,
                deadline_in(error@, now),
                backoff,
                now,
            );
        assert(r.last_error == Some(error));
    }
    r
}

/// Whatever an authority asks for, a failed certificate is tried again after
/// now and within two days.
pub proof fn a_failed_certificate_is_retried_within_two_days(deadline: Option<i64>, backoff: i64, now: i64)
    requires
        utc::MIN_SECONDS <= now <= utc::MAX_SECONDS - 172_800,
        0 < backoff <= 172_800,
    ensures
        ({
            let next = match honored(deadline, now) {
                Some(t) => t as int,
                None => now + backoff,
            };
            now < next <= now + 172_800
        }),
{
}

/// What a provider is kept as once its account exists: an external account
/// binding is good for one account.
pub fn consume_binding(provider: &AcmeProvider) -> (r: Option<AcmeProvider>)
    ensures
        r is Some <==> provider.eab_hmac_key is Some,
        r matches Some(p) ==> consumed_is(p, *provider),
{
    if provider.eab_hmac_key.is_none() {
        return None;
    }
    let mut contacts: Vec<String> = Vec::new();
    let mut i: usize = 0;
    while i < provider.contacts.len()
        invariant
            i <= provider.contacts@.len(),
            contacts@.len() == i,
            forall|k: int| 0 <= k < i ==> (#[trigger] contacts@[k])@ == provider.contacts@[k]@,
        decreases provider.contacts@.len() - i,
    {
        contacts.push(provider.contacts[i].clone());
        i = i + 1;
    }
    assert(text::views(contacts@) =~= text::views(provider.contacts@));
    Some(
        AcmeProvider {
            id: provider.id.clone(),
            name: provider.name.clone(),
            directory_url: provider.directory_url.clone(),
            contacts,
            eab_key_id: None,
            eab_hmac_key: None,
            staging: provider.staging,
            is_default: provider.is_default,
            directory_ca_pem: copy_option(&provider.directory_ca_pem),
        },
    )
}

/// Whether `c` is the candidate for a certificate.
pub open spec fn candidate_is(c: RenewalCandidate, m: ManagedCertificate) -> bool {
    c.certificate_id == m.id && c.domains == m.domains && c.provider_id == m.provider_id
}

/// The candidates for the certificates that are due, in their order.
pub fn due_certificates(due: Vec<ManagedCertificate>) -> (r: Vec<RenewalCandidate>)
    ensures
        r@.len() == due@.len(),
        forall|i: int| 0 <= i < due@.len() ==> candidate_is(#[trigger] r@[i], due@[i]),
{
    let mut out: Vec<RenewalCandidate> = Vec::new();
    for certificate in it: due
        invariant
            it.seq() == due@,
            out@.len() == it.index(),
            forall|i: int| 0 <= i < out@.len() ==> candidate_is(#[trigger] out@[i], due@[i]),
    {
        out.push(
            RenewalCandidate {
                certificate_id: certificate.id,
                domains: certificate.domains,
                provider_id: certificate.provider_id,
            },
        );
    }
    out
}

/// How the account of a provider is had.
#[derive(Debug)]
pub enum AccountPlan {
    /// It is open already.
    Known,
    /// It is restored from its credentials.
    Restore,
    /// It is created with this binding, and its credentials are kept. The
    /// provider is then kept without the binding that this used up.
    Create { binding: Option<ExternalBinding>, consumed: Option<AcmeProvider> },
}

/// Why there is no account.
#[derive(Debug, Clone, Copy, PartialEq, Eq, Structural)]
pub enum AccountRefusal {
    /// The provider does not exist.
    NoProvider,
    Invalid(AccountError),
}

/// Whether `p` is a provider without its external account binding.
pub open spec fn consumed_is(p: AcmeProvider, provider: AcmeProvider) -> bool {
    &&& p.eab_key_id is None
    &&& p.eab_hmac_key is None
    &&& p.id@ == provider.id@
    &&& p.name@ == provider.name@
    &&& p.directory_url@ == provider.directory_url@
    &&& text::views(p.contacts@) == text::views(provider.contacts@)
    &&& p.staging == provider.staging
    &&& p.is_default == provider.is_default
    &&& same_option(p.directory_ca_pem, provider.directory_ca_pem)
}

/// Decides how the account of a provider is had: one that is open is used, one
/// with stored credentials is restored, and only else is one created.
pub fn account(open: bool, provider: &Option<AcmeProvider>, has_credentials: bool) -> (r: Result<AccountPlan, AccountRefusal>)
    ensures
        if open {
            r matches Ok(AccountPlan::Known)
        } else {
            match provider {
                None => r matches Err(e) && e == AccountRefusal::NoProvider,
                Some(p) => if has_credentials {
                    r matches Ok(AccountPlan::Restore)
                } else {
                    match client::binding_of(*p) {
                        Err(e) => r matches Err(f) && f == AccountRefusal::Invalid(e),
                        Ok(b) => r matches Ok(AccountPlan::Create { binding, consumed }) && client::is_binding(binding, b) && match consumed {
                            Some(c) => p.eab_hmac_key is Some && consumed_is(c, *p),
                            None => p.eab_hmac_key is None,
                        },
                    }
                },
            }
        },
{
    if open {
        return Ok(AccountPlan::Known);
    }
    let p = match provider {
        Some(p) => p,
        None => return Err(AccountRefusal::NoProvider),
    };
    if has_credentials {
        return Ok(AccountPlan::Restore);
    }
    match client::create_account(p) {
        Ok(binding) => Ok(AccountPlan::Create { binding, consumed: consume_binding(p) }),
        Err(e) => Err(AccountRefusal::Invalid(e)),
    }
}

/// A candidate is renewed exactly if its certificate is still there, enabled,
/// with the same provider and the same domains.
pub proof fn a_candidate_that_did_not_change_is_renewed(managed: Option<ManagedCertificate>, candidate: RenewalCandidate)
    ensures
        refusal_of(managed, candidate) is None <==> (managed matches Some(m) && m.enabled && m.provider_id@
            == candidate.provider_id@ && text::views(m.domains@) == text::views(candidate.domains@)),
        managed is None ==> refusal_of(managed, candidate) == Some(RenewRefusal::Deleted),
        managed matches Some(m) && !m.enabled ==> refusal_of(managed, candidate) == Some(RenewRefusal::Disabled),
{
}

/// The wait begins at five minutes and doubles with every failure after the
/// first until it is twelve hours.
pub proof fn the_wait_doubles_up_to_twelve_hours(failures: u32)
    requires
        1 <= failures < u32::MAX,
    ensures
        backoff_base(1) == 300,
        backoff_base((failures + 1) as u32) == if 2 * backoff_base(failures) < 43200 {
            2 * backoff_base(failures)
        } else {
            43200
        },
{
    reveal_with_fuel(doubled, 10);
}

/// A deadline of the authority is kept to if it lies ahead, up to two days; one
/// that is over counts for nothing.
pub proof fn a_deadline_ahead_is_kept_to(t: i64, now: i64)
    requires
        utc::MIN_SECONDS <= now <= utc::MAX_SECONDS - 172_800,
    ensures
        t <= now ==> honored(Some(t), now) is None,
        now < t <= now + 172800 ==> honored(Some(t), now) == Some(t),
        t > now + 172800 ==> honored(Some(t), now) == Some((now + 172800) as i64),
        honored(None, now) is None,
{
}

/// A failed renewal is tried again at the authority's deadline, or else once
/// the wait is over; it counts one more failure, and what was known of the last
/// success stays.
pub proof fn a_failure_puts_the_next_attempt_off(
    r: RenewalState,
    previous: Option<RenewalState>,
    certificate_id: Seq<char>,
    error: String,
    deadline: Option<i64>,
    backoff: i64,
    now: i64,
)
    requires
        failure_is(r, previous, certificate_id, error, deadline, backoff, now),
        utc::MIN_SECONDS <= now <= utc::MAX_SECONDS - 172_800,
        0 < backoff <= 172_800,
    ensures
        deadline matches Some(t) && now < t <= now + 172800 ==> r.next_attempt == deadline,
        deadline is None ==> r.next_attempt == Some((now + backoff) as i64),
        previous is None ==> r.consecutive_failures == 1,
        previous is Some && (previous->0).consecutive_failures < u32::MAX ==> r.consecutive_failures == (
        previous->0).consecutive_failures + 1,
        previous matches Some(p) ==> r.last_success == p.last_success,
        r.last_error == Some(error),
        r.last_attempt == Some(now),
{
}

/// A number of seconds that an authority asks to wait is counted from now.
pub proof fn a_number_of_seconds_counts_from_now(n: nat, now: i64)
    requires
        n < 100000000,
    ensures
        deadline_of(None, None, Some(text::decimal(n)), now) == Some(now + n),
{
    text::decimal_notation_reads_back(n, i64::MAX as nat);
    let d = text::decimal(n);
    assert(text::is_digit(d[0]));
}

/// A point in time that an authority names outranks a number of seconds, and a
/// timestamp a date.
pub proof fn a_timestamp_outranks_a_delay(
    iso: Seq<char>,
    date: Option<Seq<char>>,
    delta: Option<Seq<char>>,
    t: i64,
    now: i64,
)
    ensures
        utc::parsed_seconds(iso, iso_format(iso)) == Some(t) ==> deadline_of(Some(iso), date, delta, now) == Some(
            t as int,
        ),
        date matches Some(d) && utc::parsed_seconds(d, HTTP_DATE_FORMAT@) == Some(t) ==> deadline_of(
            None,
            date,
            delta,
            now,
        ) == Some(t as int),
{
}

/// The next question about a renewal window is due after the time that the
/// authority gave.
pub proof fn a_window_is_asked_for_again_in_time(now: i64, seconds: u64)
    requires
        utc::MIN_SECONDS <= now,
        now + seconds <= utc::MAX_SECONDS,
    ensures
        next_check(now, seconds) == now + seconds,
{
}

/// A success ends a row of failures: the next one is the first again. Every
/// failure makes the row longer by one.
pub proof fn failures_are_counted_in_a_row(
    success: RenewalState,
    failed: RenewalState,
    certificate_id: Seq<char>,
    ari: Option<AriSuggestion>,
    now: i64,
)
    requires
        success_is(success, certificate_id, ari, now),
    ensures
        failures_of(None) == 1,
        failures_of(Some(success)) == 1,
        failed.consecutive_failures < u32::MAX ==> failures_of(Some(failed)) == failed.consecutive_failures + 1,
        success.last_error is None,
        success.next_attempt is None,
        success.ca_retry_after is None,
{
}

/// An authority is asked for its suggestion exactly if the certificate is
/// enabled and there, and no later time is set for the question.
pub proof fn a_suggestion_is_asked_for_in_time(
    enabled: bool,
    next_check: Option<i64>,
    has_generation: bool,
    now: i64,
    r: bool,
)
    requires
        call_ensures(ari_is_due, (enabled, next_check, has_generation, now), r),
    ensures
        enabled && has_generation && next_check is None ==> r,
        enabled && has_generation && next_check is Some && next_check->0 <= now ==> r,
        next_check is Some && next_check->0 > now ==> !r,
        !enabled || !has_generation ==> !r,
{
}

/// An account that is open or stored is used again; one is created only if there
/// is none, and only then the binding is used up.
pub proof fn an_account_is_created_once(
    open: bool,
    provider: AcmeProvider,
    has_credentials: bool,
    r: Result<AccountPlan, AccountRefusal>,
)
    requires
        call_ensures(account, (open, &Some(provider), has_credentials), r),
    ensures
        open ==> r == Ok::<AccountPlan, AccountRefusal>(AccountPlan::Known),
        !open && has_credentials ==> r == Ok::<AccountPlan, AccountRefusal>(AccountPlan::Restore),
        r is Ok && r->Ok_0 is Create ==> !open && !has_credentials,
        !open && !has_credentials && client::binding_of(provider) is Ok ==> r is Ok && r->Ok_0 is Create,
        !open && !has_credentials && r is Ok && provider.eab_hmac_key is Some ==> r->Ok_0->consumed is Some && (
        r->Ok_0->consumed->0).eab_hmac_key is None && (r->Ok_0->consumed->0).eab_key_id is None && (
        r->Ok_0->consumed->0).id@ == provider.id@,
{
}

/// What an authority suggests is kept until it is to be asked again; where it
/// makes no suggestion the last one stays, and it is asked again in a week.
pub proof fn a_suggestion_is_kept(state: &mut RenewalState, suggestion: Option<AriSuggestion>, now: i64)
    requires
        call_ensures(record_ari, (state, &suggestion, now), ()),
        utc::MIN_SECONDS <= now <= utc::MAX_SECONDS - 604_800,
    ensures
        suggestion is Some ==> final(state).ari_suggested_at == Some((suggestion->0).suggested_at),
        suggestion is None ==> final(state).ari_suggested_at == old(state).ari_suggested_at
            && final(state).ari_next_check == Some((now + 604_800) as i64),
        final(state).consecutive_failures == old(state).consecutive_failures,
        final(state).next_attempt == old(state).next_attempt,
{
}

} // verus!
