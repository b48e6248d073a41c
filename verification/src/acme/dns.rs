//! Public DNS prerequisite for ACME issuance.
use vstd::prelude::*;
use crate::acme_challenge;
use crate::acme_types::{ControlPlaneConfig, DnsDiagnostic};
use crate::text;

verus! {

/// What the public resolvers are asked with. `S` is where the findings are
/// kept.
pub struct PublicDnsPrerequisite<S> {
    pub query_timeout_ms: u64,
    pub store: Option<S>,
}

impl<S> Default for PublicDnsPrerequisite<S> {
    fn default() -> (r: PublicDnsPrerequisite<S>)
        ensures
            r.query_timeout_ms == 5000,
            r.store is None,
    {
        PublicDnsPrerequisite { query_timeout_ms: 5000, store: None }
    }
}

impl<S> PublicDnsPrerequisite<S> {
    /// Keeps the findings in a store.
    pub fn with_store(self, store: S) -> (r: PublicDnsPrerequisite<S>)
        ensures
            r.query_timeout_ms == self.query_timeout_ms,
            r.store == Some(store),
    {
        PublicDnsPrerequisite { query_timeout_ms: self.query_timeout_ms, store: Some(store) }
    }
}

/// What a resolver answered: the addresses, each in its textual form and none
/// twice, or why there are none.
#[derive(Debug)]
pub struct ResolverResult {
    pub resolver: String,
    pub addresses: Result<Vec<String>, String>,
}

/// The port of a resolver: that of DNS for a bare address.
pub fn resolver_port(bare_address: bool, explicit_port: Option<u16>) -> (r: Option<u16>)
    ensures
        r == if bare_address {
            Some(53)
        } else {
            explicit_port
        },
{
    if bare_address {
        Some(53)
    } else {
        explicit_port
    }
}

/// Whether an answer points to this service and nowhere else.
pub open spec fn points_here(addresses: Seq<Seq<char>>, self_ips: Seq<Seq<char>>) -> bool {
    addresses.len() > 0 && forall|i: int| 0 <= i < addresses.len() ==> self_ips.contains(#[trigger] addresses[i])
}

/// Whether a resolver's answer passes.
pub open spec fn passes(r: ResolverResult, self_ips: Seq<Seq<char>>) -> bool {
    match r.addresses {
        Ok(a) => points_here(text::views(a@), self_ips),
        Err(_) => false,
    }
}

/// Whether the resolvers agree enough: all of them, or any of them.
pub open spec fn accepted(results: Seq<ResolverResult>, self_ips: Seq<Seq<char>>, require_all: bool) -> bool {
    if require_all {
        forall|i: int| 0 <= i < results.len() ==> passes(#[trigger] results[i], self_ips)
    } else {
        exists|i: int| 0 <= i < results.len() && passes(#[trigger] results[i], self_ips)
    }
}

fn holds(list: &Vec<String>, item: &str) -> (r: bool)
    ensures
        r == text::views(list@).contains(item@),
{
    let ghost all = text::views(list@);
    let mut i: usize = 0;
    while i < list.len()
        invariant
            i <= list@.len(),
            all == text::views(list@),
            forall|k: int| 0 <= k < i ==> #[trigger] all[k] != item@,
        decreases list@.len() - i,
    {
        assert(all[i as int] == list@[i as int]@);
        if text::str_eq(list[i].as_str(), item) {
            return true;
        }
        i = i + 1;
    }
    false
}

fn check_answer(r: &ResolverResult, self_ips: &Vec<String>) -> (b: bool)
    ensures
        b == passes(*r, text::views(self_ips@)),
{
    let a = match &r.addresses {
        Ok(a) => a,
        Err(_) => return false,
    };
    if a.len() == 0 {
        return false;
    }
    let ghost all = text::views(a@);
    let mut i: usize = 0;
    while i < a.len()
        invariant
            i <= a@.len(),
            all == text::views(a@),
            r.addresses matches Ok(v) && v@ == a@,
            forall|k: int| 0 <= k < i ==> text::views(self_ips@).contains(#[trigger] all[k]),
        decreases a@.len() - i,
    {
        assert(all[i as int] == a@[i as int]@);
        if !holds(self_ips, a[i].as_str()) {
            return false;
        }
        i = i + 1;
    }
    true
}

/// A set of addresses as it is shown.
pub open spec fn set_text(s: Seq<Seq<char>>) -> Seq<char> {
    "{"@ + text::joined(s, ", "@) + "}"@
}

pub open spec fn answer_text(r: ResolverResult) -> Seq<char> {
    match r.addresses {
        Ok(a) => r.resolver@ + "="@ + set_text(text::views(a@)),
        Err(cause) => r.resolver@ + "=error("@ + cause@ + ")"@,
    }
}

pub open spec fn answer_texts(s: Seq<ResolverResult>) -> Seq<Seq<char>> {
    s.map_values(|r: ResolverResult| answer_text(r))
}

/// Why a domain does not pass.
pub open spec fn refusal_text(domain: Seq<char>, self_ips: Seq<Seq<char>>, results: Seq<ResolverResult>) -> Seq<char> {
    "public DNS prerequisite failed for `"@ + domain + "`: expected only "@ + set_text(self_ips) + "; "@ + text::joined(
        answer_texts(results),
        ", "@,
    )
}

fn show_set(s: &Vec<String>) -> (r: String)
    ensures
        r@ == set_text(text::views(s@)),
{
    let mut out = text::owned("{");
    out.push_str(text::join(s, ", ").as_str());
    out.push_str("}");
    out
}

fn show_answer(a: &ResolverResult) -> (r: String)
    ensures
        r@ == answer_text(*a),
{
    let mut out = a.resolver.clone();
    match &a.addresses {
        Ok(list) => {
            out.push_str("=");
            out.push_str(show_set(list).as_str());
        },
        Err(cause) => {
            out.push_str("=error(");
            out.push_str(cause.as_str());
            out.push_str(")");
        },
    }
    out
}

/// Decides whether a domain's public addresses are this service's: every
/// resolver has to say so, or at least one, and no answer may mix in a foreign
/// address.
pub fn evaluate_domain(domain: &str, self_ips: &Vec<String>, results: &Vec<ResolverResult>, require_all: bool) -> (r:
    Result<(), String>)
    ensures
        r is Ok <==> accepted(results@, text::views(self_ips@), require_all),
        r matches Err(m) ==> m@ == refusal_text(domain@, text::views(self_ips@), results@),
        !require_all && r is Err ==> forall|i: int|
            0 <= i < results@.len() ==> (#[trigger] results@[i]).addresses is Err || results@[i].addresses->Ok_0@.len()
                == 0 || exists|k: int|
                0 <= k < results@[i].addresses->Ok_0@.len() && !text::views(self_ips@).contains(
                    (#[trigger] results@[i].addresses->Ok_0@[k])@,
                ),
{
    proof {
        assert forall|i: int| 0 <= i < results@.len() && !accepted(results@, text::views(self_ips@), false) implies (
        #[trigger] results@[i]).addresses is Err || results@[i].addresses->Ok_0@.len() == 0 || exists|k: int|
            0 <= k < results@[i].addresses->Ok_0@.len() && !text::views(self_ips@).contains(
                (#[trigger] results@[i].addresses->Ok_0@[k])@,
            ) by {
            if results@[i].addresses is Ok && results@[i].addresses->Ok_0@.len() > 0 && forall|k: int|
                0 <= k < results@[i].addresses->Ok_0@.len() ==> text::views(self_ips@).contains(
                    (#[trigger] results@[i].addresses->Ok_0@[k])@,
                ) {
                one_confirming_resolver_is_enough(results@, text::views(self_ips@), i);
            }
        }
    }
    let ghost ips = text::views(self_ips@);
    let mut all = true;
    let mut any = false;
    let mut i: usize = 0;
    while i < results.len()
        invariant
            i <= results@.len(),
            ips == text::views(self_ips@),
            all == (forall|k: int| 0 <= k < i ==> passes(#[trigger] results@[k], ips)),
            any == (exists|k: int| 0 <= k < i && passes(#[trigger] results@[k], ips)),
        decreases results@.len() - i,
    {
        if check_answer(&results[i], self_ips) {
            any = true;
        } else {
            all = false;
        }
        i = i + 1;
    }
    let passed = if require_all {
        all
    } else {
        any
    };
    if passed {
        return Ok(());
    }
    let mut details: Vec<String> = Vec::new();
    i = 0;
    while i < results.len()
        invariant
            i <= results@.len(),
            details@.len() == i,
            forall|k: int| 0 <= k < i ==> (#[trigger] details@[k])@ == answer_text(results@[k]),
        decreases results@.len() - i,
    {
        details.push(show_answer(&results[i]));
        i = i + 1;
    }
    assert(text::views(details@) =~= answer_texts(results@));
    let mut out = text::owned("public DNS prerequisite failed for `");
    out.push_str(domain);
    out.push_str("`: expected only ");
    out.push_str(show_set(self_ips).as_str());
    out.push_str("; ");
    out.push_str(text::join(&details, ", ").as_str());
    Err(out)
}

/// Requiring every resolver is stricter than requiring one, as long as there
/// is a resolver.
pub proof fn requiring_all_is_stricter(results: Seq<ResolverResult>, self_ips: Seq<Seq<char>>)
    requires
        results.len() > 0,
        accepted(results, self_ips, true),
    ensures
        accepted(results, self_ips, false),
{
    assert(passes(results[0], self_ips));
}

/// An answer with a foreign address never passes, so that a certificate
/// authority is never sent elsewhere by chance.
pub proof fn a_foreign_address_never_passes(r: ResolverResult, self_ips: Seq<Seq<char>>, i: int)
    requires
        r.addresses is Ok,
        0 <= i < r.addresses->Ok_0@.len(),
        !self_ips.contains(r.addresses->Ok_0@[i]@),
    ensures
        !passes(r, self_ips),
{
    assert(text::views(r.addresses->Ok_0@)[i] == r.addresses->Ok_0@[i]@);
}

/// One resolver is enough where not all have to agree: whatever stands around
/// it in the list, an answer that is not empty and names only addresses of this
/// service lets the domain pass.
pub proof fn one_confirming_resolver_is_enough(results: Seq<ResolverResult>, self_ips: Seq<Seq<char>>, i: int)
    requires
        0 <= i < results.len(),
        results[i].addresses is Ok,
        results[i].addresses->Ok_0@.len() > 0,
        forall|k: int|
            0 <= k < results[i].addresses->Ok_0@.len() ==> self_ips.contains(
                (#[trigger] results[i].addresses->Ok_0@[k])@,
            ),
    ensures
        accepted(results, self_ips, false),
{
    let a = results[i].addresses->Ok_0@;
    assert forall|k: int| 0 <= k < text::views(a).len() implies self_ips.contains(#[trigger] text::views(a)[k]) by {
        assert(text::views(a)[k] == a[k]@);
    }
    assert(passes(results[i], self_ips));
}

/// Where all resolvers have to agree, a domain passes if every one of them gave
/// an answer that is not empty and names only addresses of this service.
pub proof fn unanimous_resolvers_are_enough(results: Seq<ResolverResult>, self_ips: Seq<Seq<char>>)
    requires
        forall|i: int|
            0 <= i < results.len() ==> (#[trigger] results[i]).addresses is Ok && results[i].addresses->Ok_0@.len() > 0,
        forall|i: int, k: int|
            0 <= i < results.len() && 0 <= k < results[i].addresses->Ok_0@.len() ==> self_ips.contains(
                (#[trigger] results[i].addresses->Ok_0@[k])@,
            ),
    ensures
        accepted(results, self_ips, true),
{
    assert forall|i: int| 0 <= i < results.len() implies passes(#[trigger] results[i], self_ips) by {
        let a = results[i].addresses->Ok_0@;
        assert forall|k: int| 0 <= k < text::views(a).len() implies self_ips.contains(#[trigger] text::views(a)[k]) by {
            assert(text::views(a)[k] == a[k]@);
            assert(self_ips.contains(results[i].addresses->Ok_0@[k]@));
        }
    }
}

/// A resolver that failed, that knows no address, or that names a foreign one
/// confirms nothing: a domain passes only past resolvers that did confirm it,
/// all of them where all have to agree.
pub proof fn a_passed_domain_was_confirmed(
    results: Seq<ResolverResult>,
    self_ips: Seq<Seq<char>>,
    require_all: bool,
) -> (i: int)
    requires
        results.len() > 0,
        accepted(results, self_ips, require_all),
    ensures
        0 <= i < results.len(),
        results[i].addresses is Ok,
        results[i].addresses->Ok_0@.len() > 0,
        forall|k: int|
            0 <= k < results[i].addresses->Ok_0@.len() ==> self_ips.contains(
                (#[trigger] results[i].addresses->Ok_0@[k])@,
            ),
        require_all ==> forall|j: int|
            0 <= j < results.len() ==> (#[trigger] results[j]).addresses is Ok && results[j].addresses->Ok_0@.len() > 0,
        require_all ==> forall|j: int, k: int|
            0 <= j < results.len() && 0 <= k < results[j].addresses->Ok_0@.len() ==> self_ips.contains(
                (#[trigger] results[j].addresses->Ok_0@[k])@,
            ),
{
    let i = if require_all {
        assert(passes(results[0], self_ips));
        0
    } else {
        choose|i: int| 0 <= i < results.len() && passes(#[trigger] results[i], self_ips)
    };
    let a = results[i].addresses->Ok_0@;
    assert forall|k: int| 0 <= k < a.len() implies self_ips.contains((#[trigger] a[k])@) by {
        assert(self_ips.contains(text::views(a)[k]));
    }
    if require_all {
        assert forall|j: int| 0 <= j < results.len() implies (#[trigger] results[j]).addresses is Ok
            && results[j].addresses->Ok_0@.len() > 0 by {
            assert(passes(results[j], self_ips));
        }
        assert forall|j: int, k: int|
            0 <= j < results.len() && 0 <= k < results[j].addresses->Ok_0@.len() implies self_ips.contains(
            (#[trigger] results[j].addresses->Ok_0@[k])@,
        ) by {
            assert(passes(results[j], self_ips));
            let b = results[j].addresses->Ok_0@;
            assert(self_ips.contains(text::views(b)[k]));
        }
    }
    i
}

/// The order of the resolvers does not matter: the same answers in another
/// order come to the same verdict.
pub proof fn the_order_of_resolvers_does_not_matter(
    a: Seq<ResolverResult>,
    b: Seq<ResolverResult>,
    self_ips: Seq<Seq<char>>,
    require_all: bool,
)
    requires
        a.to_multiset() == b.to_multiset(),
    ensures
        accepted(a, self_ips, require_all) == accepted(b, self_ips, require_all),
{
    if accepted(a, self_ips, require_all) {
        lemma_same_answers(a, b, self_ips, require_all);
    }
    if accepted(b, self_ips, require_all) {
        lemma_same_answers(b, a, self_ips, require_all);
    }
}

proof fn lemma_same_answers(
    a: Seq<ResolverResult>,
    b: Seq<ResolverResult>,
    self_ips: Seq<Seq<char>>,
    require_all: bool,
)
    requires
        a.to_multiset() == b.to_multiset(),
        accepted(a, self_ips, require_all),
    ensures
        accepted(b, self_ips, require_all),
{
    broadcast use vstd::seq_lib::group_to_multiset_ensures;

    if require_all {
        assert forall|i: int| 0 <= i < b.len() implies passes(#[trigger] b[i], self_ips) by {
            assert(b.to_multiset().count(b[i]) > 0);
            assert(a.contains(b[i]));
            let k = choose|k: int| 0 <= k < a.len() && a[k] == b[i];
            assert(passes(a[k], self_ips));
        }
    } else {
        let i = choose|i: int| 0 <= i < a.len() && passes(#[trigger] a[i], self_ips);
        assert(a.to_multiset().count(a[i]) > 0);
        assert(b.contains(a[i]));
        let k = choose|k: int| 0 <= k < b.len() && b[k] == a[i];
        assert(passes(b[k], self_ips));
    }
}

/// Why nothing is asked.
#[derive(Debug, Clone, Copy, PartialEq, Eq, Structural)]
pub enum PrerequisiteError {
    NoResolver,
    InvalidSelfIp,
    NoSelfIp,
}

/// What is missing before any resolver can be asked.
pub open spec fn control_problem(control: ControlPlaneConfig, self_ips: Option<Vec<String>>) -> Option<PrerequisiteError> {
    if control.public_resolvers@.len() == 0 {
        Some(PrerequisiteError::NoResolver)
    } else {
        match self_ips {
            None => Some(PrerequisiteError::InvalidSelfIp),
            Some(v) => if v@.len() == 0 {
                Some(PrerequisiteError::NoSelfIp)
            } else {
                None
            },
        }
    }
}

/// Checks what has to be configured before any resolver is asked. `self_ips`
/// are the configured addresses, unless one of them is none.
pub fn check_control(control: &ControlPlaneConfig, self_ips: &Option<Vec<String>>) -> (r: Result<(), PrerequisiteError>)
    ensures
        r == match control_problem(*control, *self_ips) {
            Some(e) => Err::<(), PrerequisiteError>(e),
            None => Ok(()),
        },
{
    if control.public_resolvers.len() == 0 {
        return Err(PrerequisiteError::NoResolver);
    }
    match self_ips {
        None => Err(PrerequisiteError::InvalidSelfIp),
        Some(v) => if v.len() == 0 {
            Err(PrerequisiteError::NoSelfIp)
        } else {
            Ok(())
        },
    }
}

/// Whether `d` is what a resolver's answer on a domain is kept as.
pub open spec fn diagnosed(
    d: DnsDiagnostic,
    certificate_id: Seq<char>,
    domain: Seq<char>,
    r: ResolverResult,
    self_ips: Seq<Seq<char>>,
    checked_at: i64,
) -> bool {
    &&& d.certificate_id@ == certificate_id
    &&& d.domain@ == domain
    &&& d.resolver@ == r.resolver@
    &&& text::views(d.addresses@) == match r.addresses {
        Ok(a) => text::views(a@),
        Err(_) => seq![],
    }
    &&& d.passed == passes(r, self_ips)
    &&& match r.addresses {
        Ok(_) => d.error is None,
        Err(cause) => d.error is Some && d.error->0@ == cause@,
    }
    &&& d.checked_at == Some(checked_at)
}

fn diagnose(certificate_id: &str, domain: &str, r: &ResolverResult, self_ips: &Vec<String>, checked_at: i64) -> (d:
    DnsDiagnostic)
    ensures
        diagnosed(d, certificate_id@, domain@, *r, text::views(self_ips@), checked_at),
{
    let passed = check_answer(r, self_ips);
    let mut addresses: Vec<String> = Vec::new();
    let mut error: Option<String> = None;
    assert(text::views(addresses@) =~= seq![]);
    match &r.addresses {
        Ok(a) => {
            let mut i: usize = 0;
            while i < a.len()
                invariant
                    i <= a@.len(),
                    addresses@.len() == i,
                    forall|k: int| 0 <= k < i ==> (#[trigger] addresses@[k])@ == a@[k]@,
                decreases a@.len() - i,
            {
                addresses.push(a[i].clone());
                i = i + 1;
            }
            assert(text::views(addresses@) =~= text::views(a@));
        },
        Err(cause) => {
            error = Some(cause.clone());
        },
    }
    DnsDiagnostic {
        certificate_id: text::owned(certificate_id),
        domain: text::owned(domain),
        resolver: r.resolver.clone(),
        addresses,
        passed,
        error,
        checked_at: Some(checked_at),
    }
}

/// Why a domain stops the verification.
#[derive(Debug)]
pub enum DomainRefusal {
    /// The text is no domain.
    Invalid,
    /// The resolvers do not agree enough.
    Refused(String),
}

/// Takes in what the resolvers answered on one domain: every answer is kept,
/// and the domain is judged. A text that is no domain is refused before any
/// answer is kept.
pub fn verify_domain(
    kept: &mut Vec<DnsDiagnostic>,
    certificate_id: &str,
    domain: &str,
    self_ips: &Vec<String>,
    results: &Vec<ResolverResult>,
    require_all: bool,
    checked_at: i64,
) -> (r: Result<(), DomainRefusal>)
    ensures
        match acme_challenge::normalized(domain@) {
            None => r matches Err(DomainRefusal::Invalid) && final(kept)@ == old(kept)@,
            Some(d) => {
                &&& final(kept)@.len() == old(kept)@.len() + results@.len()
                &&& forall|i: int| 0 <= i < old(kept)@.len() ==> #[trigger] final(kept)@[i] == old(kept)@[i]
                &&& forall|i: int|
                    0 <= i < results@.len() ==> diagnosed(
                        #[trigger] final(kept)@[old(kept)@.len() + i],
                        certificate_id@,
                        d,
                        results@[i],
                        text::views(self_ips@),
                        checked_at,
                    )
                &&& r is Ok <==> accepted(results@, text::views(self_ips@), require_all)
                &&& r is Err ==> (r matches Err(DomainRefusal::Refused(m)) && m@ == refusal_text(
                    d,
                    text::views(self_ips@),
                    results@,
                ))
            },
        },
{
    let d = match acme_challenge::normalize_domain(domain) {
        Ok(d) => d,
        Err(_) => return Err(DomainRefusal::Invalid),
    };
    let ghost k0 = kept@;
    let mut i: usize = 0;
    while i < results.len()
        invariant
            i <= results@.len(),
            kept@.len() == k0.len() + i,
            forall|k: int| 0 <= k < k0.len() ==> #[trigger] kept@[k] == k0[k],
            forall|k: int|
                0 <= k < i ==> diagnosed(
                    #[trigger] kept@[k0.len() + k],
                    certificate_id@,
                    d@,
                    results@[k],
                    text::views(self_ips@),
                    checked_at,
                ),
        decreases results@.len() - i,
    {
        kept.push(diagnose(certificate_id, d.as_str(), &results[i], self_ips, checked_at));
        i = i + 1;
    }
    match evaluate_domain(d.as_str(), self_ips, results, require_all) {
        Ok(()) => Ok(()),
        Err(m) => Err(DomainRefusal::Refused(m)),
    }
}

/// A verification under way: the domains of a certificate are asked for one
/// after the other, until one of them is refused.
pub struct Verification {
    pub certificate_id: String,
    pub domains: Vec<String>,
    pub self_ips: Vec<String>,
    pub require_all: bool,
    /// How many domains have passed.
    pub passed: usize,
    /// What every resolver answered so far, in the order of the domains.
    pub kept: Vec<DnsDiagnostic>,
    pub refused: Option<DomainRefusal>,
}

/// What a verification does next.
#[derive(Debug)]
pub enum VerifyStep<'a> {
    /// Ask every public resolver for this domain.
    Ask(String),
    /// Every domain points here.
    Passed,
    Refused(&'a DomainRefusal),
}

/// Whether a resolver answered on a domain with addresses of this service and
/// nothing else.
pub open spec fn confirmed(kept: Seq<DnsDiagnostic>, domain: Seq<char>) -> bool {
    exists|k: int| 0 <= k < kept.len() && (#[trigger] kept[k]).passed && kept[k].domain@ == domain
}

/// Whether all that was kept passed.
pub open spec fn all_passed(kept: Seq<DnsDiagnostic>) -> bool {
    forall|k: int| 0 <= k < kept.len() ==> (#[trigger] kept[k]).passed
}

/// Whether `after` is `before` with the answers on a domain behind it.
pub open spec fn answers_kept(
    before: Seq<DnsDiagnostic>,
    after: Seq<DnsDiagnostic>,
    certificate_id: Seq<char>,
    domain: Seq<char>,
    results: Seq<ResolverResult>,
    self_ips: Seq<Seq<char>>,
    checked_at: i64,
) -> bool {
    &&& after.len() == before.len() + results.len()
    &&& forall|i: int| 0 <= i < before.len() ==> #[trigger] after[i] == before[i]
    &&& forall|i: int|
        0 <= i < results.len() ==> diagnosed(
            #[trigger] after[before.len() + i],
            certificate_id,
            domain,
            results[i],
            self_ips,
            checked_at,
        )
}

impl Verification {
    pub open spec fn wf(self) -> bool {
        &&& self.passed <= self.domains@.len()
        &&& self.refused is Some ==> self.passed < self.domains@.len()
        &&& forall|i: int|
            0 <= i < self.passed ==> acme_challenge::normalized((#[trigger] self.domains@[i])@) is Some && confirmed(
                self.kept@,
                acme_challenge::normalized(self.domains@[i]@)->0,
            )
        &&& self.require_all && self.refused is None ==> all_passed(self.kept@)
    }

    /// Begins to verify the domains of a certificate, if what that takes is
    /// configured. `self_ips` are the configured addresses, unless one of them
    /// is none.
    pub fn start(
        certificate_id: String,
        domains: Vec<String>,
        control: &ControlPlaneConfig,
        self_ips: Option<Vec<String>>,
    ) -> (r: Result<Verification, PrerequisiteError>)
        ensures
            match control_problem(*control, self_ips) {
                Some(e) => r matches Err(f) && f == e,
                None => r matches Ok(v) && v == (Verification {
                    certificate_id,
                    domains,
                    self_ips: self_ips->0,
                    require_all: control.require_all_resolvers,
                    passed: 0,
                    kept: v.kept,
                    refused: None,
                }) && v.kept@.len() == 0 && v.wf(),
            },
    {
        match check_control(control, &self_ips) {
            Ok(()) => {},
            Err(e) => return Err(e),
        }
        match self_ips {
            None => Err(PrerequisiteError::InvalidSelfIp),
            Some(self_ips) => Ok(
                Verification {
                    certificate_id,
                    domains,
                    self_ips,
                    require_all: control.require_all_resolvers,
                    passed: 0,
                    kept: Vec::new(),
                    refused: None,
                },
            ),
        }
    }

    /// What to do next. A text that is no domain ends the verification before
    /// any resolver is asked for it.
    pub fn next(&mut self) -> (r: VerifyStep<'_>)
        requires
            old(self).wf(),
        ensures
            final(self).wf(),
            ({
                let s = *old(self);
                if s.refused is Some {
                    r matches VerifyStep::Refused(e) && *e == s.refused->0 && *final(self) == s
                } else if s.passed == s.domains@.len() {
                    r is Passed && *final(self) == s
                } else {
                    match acme_challenge::normalized(s.domains@[s.passed as int]@) {
                        Some(d) => r matches VerifyStep::Ask(domain) && domain@ == d && *final(self) == s,
                        None => r matches VerifyStep::Refused(e) && *e == DomainRefusal::Invalid && *final(self) == (
                        Verification { refused: Some(DomainRefusal::Invalid), ..s }),
                    }
                }
            }),
    {
        if self.refused.is_none() {
            if self.passed == self.domains.len() {
                return VerifyStep::Passed;
            }
            match acme_challenge::normalize_domain(self.domains[self.passed].as_str()) {
                Ok(d) => return VerifyStep::Ask(d),
                Err(_) => {
                    self.refused = Some(DomainRefusal::Invalid);
                },
            }
        }
        match &self.refused {
            Some(e) => VerifyStep::Refused(e),
            None => VerifyStep::Passed,
        }
    }

    /// Takes in what the resolvers answered on the domain that was asked for:
    /// the answers are kept whether or not the domain passes.
    pub fn verify_inner(&mut self, results: &Vec<ResolverResult>, checked_at: i64)
        requires
            old(self).wf(),
            old(self).refused is None,
            old(self).passed < old(self).domains@.len(),
            acme_challenge::normalized(old(self).domains@[old(self).passed as int]@) is Some,
            results@.len() > 0,
        ensures
            final(self).wf(),
            ({
                let s = *old(self);
                let t = *final(self);
                let domain = acme_challenge::normalized(s.domains@[s.passed as int]@)->0;
                let ips = text::views(s.self_ips@);
                &&& answers_kept(s.kept@, t.kept@, s.certificate_id@, domain, results@, ips, checked_at)
                &&& if accepted(results@, ips, s.require_all) {
                    t == (Verification { passed: (s.passed + 1) as usize, kept: t.kept, ..s })
                } else {
                    &&& t == (Verification { kept: t.kept, refused: t.refused, ..s })
                    &&& t.refused matches Some(DomainRefusal::Refused(m)) && m@ == refusal_text(domain, ips, results@)
                }
            }),
    {
        let ghost s = *self;
        let ghost domain = acme_challenge::normalized(self.domains@[self.passed as int]@)->0;
        let ghost ips = text::views(self.self_ips@);
        let judged = verify_domain(
            &mut self.kept,
            self.certificate_id.as_str(),
            self.domains[self.passed].as_str(),
            &self.self_ips,
            results,
            self.require_all,
            checked_at,
        );
        proof {
            lemma_confirmations_stay(s.kept@, self.kept@);
            if accepted(results@, ips, s.require_all) {
                let i = if s.require_all {
                    0
                } else {
                    choose|i: int| 0 <= i < results@.len() && passes(#[trigger] results@[i], ips)
                };
                assert(passes(results@[i], ips));
                let k = s.kept@.len() + i;
                assert(diagnosed(self.kept@[s.kept@.len() + i], s.certificate_id@, domain, results@[i], ips, checked_at));
                assert(self.kept@[k].passed && self.kept@[k].domain@ == domain);
                assert(confirmed(self.kept@, domain));
                if s.require_all {
                    assert forall|k: int| 0 <= k < self.kept@.len() implies (#[trigger] self.kept@[k]).passed by {
                        if k >= s.kept@.len() {
                            let i = k - s.kept@.len();
                            assert(passes(results@[i], ips));
                            assert(diagnosed(
                                self.kept@[s.kept@.len() + i],
                                s.certificate_id@,
                                domain,
                                results@[i],
                                ips,
                                checked_at,
                            ));
                        } else {
                            assert(s.kept@[k].passed);
                        }
                    }
                }
            }
        }
        match judged {
            Ok(()) => {
                assert(self.passed < self.domains.len());
                self.passed = self.passed + 1;
            },
            Err(e) => {
                self.refused = Some(e);
            },
        }
    }
}

proof fn lemma_confirmations_stay(before: Seq<DnsDiagnostic>, after: Seq<DnsDiagnostic>)
    requires
        before.len() <= after.len(),
        forall|i: int| 0 <= i < before.len() ==> #[trigger] after[i] == before[i],
    ensures
        forall|d: Seq<char>| #[trigger] confirmed(before, d) ==> confirmed(after, d),
{
    assert forall|d: Seq<char>| #[trigger] confirmed(before, d) implies confirmed(after, d) by {
        let k = choose|k: int| 0 <= k < before.len() && (#[trigger] before[k]).passed && before[k].domain@ == d;
        assert(after[k] == before[k]);
    }
}

/// A verification passes only if each domain was confirmed by a resolver, and
/// if every resolver is required, only if none of them said otherwise.
pub proof fn a_passed_verification_is_confirmed(v: Verification, i: int)
    requires
        v.wf(),
        v.refused is None,
        v.passed == v.domains@.len(),
        0 <= i < v.domains@.len(),
    ensures
        acme_challenge::normalized(v.domains@[i]@) is Some,
        confirmed(v.kept@, acme_challenge::normalized(v.domains@[i]@)->0),
        v.require_all ==> all_passed(v.kept@),
{
    assert(acme_challenge::normalized(v.domains@[i]@) is Some);
}

/// A domain that one resolver confirms passes, unless all of them have to; every
/// answer is kept, behind those that were kept before.
pub proof fn a_confirmed_domain_passes_and_every_answer_is_kept(
    kept: &mut Vec<DnsDiagnostic>,
    id: &str,
    domain: &str,
    self_ips: Vec<String>,
    results: Vec<ResolverResult>,
    checked_at: i64,
    i: int,
    r: Result<(), DomainRefusal>,
)
    requires
        call_ensures(verify_domain, (kept, id, domain, &self_ips, &results, false, checked_at), r),
        acme_challenge::normalized(domain@) is Some,
        0 <= i < results@.len(),
        results@[i].addresses is Ok,
        results@[i].addresses->Ok_0@.len() > 0,
        forall|k: int|
            0 <= k < results@[i].addresses->Ok_0@.len() ==> text::views(self_ips@).contains(
                (#[trigger] results@[i].addresses->Ok_0@[k])@,
            ),
    ensures
        r is Ok,
        final(kept)@.len() == old(kept)@.len() + results@.len(),
        final(kept)@[old(kept)@.len() + i].passed,
        final(kept)@[old(kept)@.len() + i].resolver@ == results@[i].resolver@,
        forall|k: int| 0 <= k < old(kept)@.len() ==> #[trigger] final(kept)@[k] == old(kept)@[k],
{
    let ips = text::views(self_ips@);
    one_confirming_resolver_is_enough(results@, ips, i);
    let a = results@[i].addresses->Ok_0@;
    assert forall|k: int| 0 <= k < text::views(a).len() implies ips.contains(#[trigger] text::views(a)[k]) by {
        assert(text::views(a)[k] == a[k]@);
    }
    assert(passes(results@[i], ips));
}

/// Domains can be verified exactly if there is a resolver to ask and an address
/// to look for.
pub proof fn a_verification_needs_a_resolver_and_an_address(control: ControlPlaneConfig, self_ips: Option<Vec<String>>)
    ensures
        control_problem(control, self_ips) is None <==> control.public_resolvers@.len() > 0 && self_ips is Some && (
        self_ips->0)@.len() > 0,
        control.public_resolvers@.len() == 0 ==> control_problem(control, self_ips) == Some(
            PrerequisiteError::NoResolver,
        ),
{
}

/// Every domain is asked for in its turn; the verification passes once all of
/// them did, and is over with the first that is refused.
pub proof fn every_domain_is_asked_for(v: &mut Verification, r: VerifyStep<'_>)
    requires
        old(v).wf(),
        call_ensures(Verification::next, (v,), r),
    ensures
        r is Passed <==> old(v).refused is None && old(v).passed == old(v).domains@.len(),
        old(v).refused is Some ==> r is Refused,
        old(v).refused is None && old(v).passed < old(v).domains@.len() ==> (r is Ask <==> acme_challenge::normalized(
            old(v).domains@[old(v).passed as int]@,
        ) is Some),
        final(v).passed == old(v).passed && final(v).domains == old(v).domains,
{
}

} // verus!
