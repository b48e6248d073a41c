//! Managed certificates: what makes a generation usable, and which certificate
//! a server name gets.
use vstd::prelude::*;
use crate::acme_challenge;
use crate::acme_types;
use crate::acme_types::{CertificateGeneration, ManagedCertificate};
use crate::table;
use crate::table::Table;
use crate::text;
use crate::x509;
use crate::x509::{AlternativeName, NameModel};

verus! {

/// Why a generation is not used.
#[derive(Debug, Clone, Copy, PartialEq, Eq, Structural)]
pub enum GenerationError {
    /// It belongs to another managed certificate.
    OtherCertificate,
    /// Its certificates cannot be decoded.
    InvalidPem,
    /// It holds no certificate.
    NoLeaf,
    /// Its key cannot be used or is not the one of its certificate.
    InvalidIdentity,
    /// Its certificate cannot be read.
    InvalidLeaf,
    Expired,
    /// The alternative names cannot be read.
    InvalidAlternativeNames,
    /// There are no alternative names.
    NoAlternativeNames,
    /// A managed domain is none.
    InvalidDomain,
    /// A managed domain is not among the alternative names.
    NotCovered,
}

/// Whether a domain is among the alternative names, in normal form.
pub open spec fn covers(names: Seq<NameModel>, domain: Seq<char>) -> bool {
    exists|i: int| 0 <= i < names.len() && names_domain(#[trigger] names[i], domain)
}

/// Whether an alternative name is a domain, in normal form.
pub open spec fn names_domain(name: NameModel, domain: Seq<char>) -> bool {
    name matches NameModel::Dns(s) && acme_challenge::normalized(s) == Some(domain)
}

/// What is wrong with the first managed domain that is none or is not covered.
pub open spec fn coverage_error(domains: Seq<Seq<char>>, names: Seq<NameModel>) -> Option<GenerationError>
    decreases domains.len(),
{
    if domains.len() == 0 {
        None
    } else {
        match coverage_error(domains.drop_last(), names) {
            Some(e) => Some(e),
            None => match acme_challenge::normalized(domains.last()) {
                None => Some(GenerationError::InvalidDomain),
                Some(d) => if covers(names, d) {
                    None
                } else {
                    Some(GenerationError::NotCovered)
                },
            },
        }
    }
}

/// What is wrong with the leaf of a generation: `not_after` is when it ends to
/// be valid, `names` are its alternative names.
pub open spec fn leaf_error(
    domains: Seq<Seq<char>>,
    not_after: i64,
    names: Option<Option<Seq<NameModel>>>,
    now: i64,
) -> Option<GenerationError> {
    if not_after <= now {
        Some(GenerationError::Expired)
    } else {
        match names {
            None => Some(GenerationError::InvalidAlternativeNames),
            Some(None) => Some(GenerationError::NoAlternativeNames),
            Some(Some(n)) => coverage_error(domains, n),
        }
    }
}

fn is_covered(names: &Vec<AlternativeName>, domain: &str) -> (r: bool)
    ensures
        r == covers(x509::names_of(names@), domain@),
{
    let ghost all = x509::names_of(names@);
    let mut i: usize = 0;
    while i < names.len()
        invariant
            i <= names@.len(),
            all == x509::names_of(names@),
            forall|k: int| 0 <= k < i ==> !names_domain(#[trigger] all[k], domain@),
        decreases names@.len() - i,
    {
        assert(all[i as int] == names@[i as int]@);
        if let AlternativeName::Dns(name) = &names[i] {
            if let Ok(n) = acme_challenge::normalize_domain(name.as_str()) {
                if text::str_eq(n.as_str(), domain) {
                    return true;
                }
            }
        }
        i = i + 1;
    }
    false
}

proof fn lemma_coverage_error(domains: Seq<Seq<char>>, n: int, names: Seq<NameModel>)
    requires
        0 <= n <= domains.len(),
        coverage_error(domains.take(n), names) is Some,
    ensures
        coverage_error(domains, names) == coverage_error(domains.take(n), names),
    decreases domains.len() - n,
{
    if n == domains.len() {
        assert(domains.take(n) =~= domains);
    } else {
        assert(domains.take(n + 1).drop_last() =~= domains.take(n));
        lemma_coverage_error(domains, n + 1, names);
    }
}

/// Checks the leaf of a generation: it is not expired, and its alternative
/// names cover every managed domain.
pub fn check_leaf(
    managed: &ManagedCertificate,
    not_after: i64,
    names: &Option<Option<Vec<AlternativeName>>>,
    now: i64,
) -> (r: Result<(), GenerationError>)
    ensures
        r == match leaf_error(
            text::views(managed.domains@),
            not_after,
            match names {
                None => None,
                Some(None) => Some(None),
                Some(Some(v)) => Some(Some(x509::names_of(v@))),
            },
            now,
        ) {
            Some(e) => Err::<(), GenerationError>(e),
            None => Ok(()),
        },
{
    if not_after <= now {
        return Err(GenerationError::Expired);
    }
    let found = match names {
        None => return Err(GenerationError::InvalidAlternativeNames),
        Some(None) => return Err(GenerationError::NoAlternativeNames),
        Some(Some(v)) => v,
    };
    let ghost all = text::views(managed.domains@);
    let ghost n = x509::names_of(found@);
    let mut i: usize = 0;
    while i < managed.domains.len()
        invariant
            i <= managed.domains@.len(),
            all == text::views(managed.domains@),
            n == x509::names_of(found@),
            names matches Some(Some(v)) && v@ == found@,
            not_after > now,
            coverage_error(all.take(i as int), n) is None,
        decreases managed.domains@.len() - i,
    {
        assert(all.take(i + 1).drop_last() =~= all.take(i as int));
        assert(all.take(i + 1).last() == managed.domains@[i as int]@);
        match acme_challenge::normalize_domain(managed.domains[i].as_str()) {
            Ok(d) => {
                if !is_covered(found, d.as_str()) {
                    proof {
                        lemma_coverage_error(all, i + 1, n);
                    }
                    return Err(GenerationError::NotCovered);
                }
            },
            Err(_) => {
                proof {
                    lemma_coverage_error(all, i + 1, n);
                }
                return Err(GenerationError::InvalidDomain);
            },
        }
        i = i + 1;
    }
    assert(all.take(i as int) =~= all);
    Ok(())
}

/// What is wrong with a generation of a managed certificate, if anything.
pub open spec fn generation_error(managed: ManagedCertificate, g: CertificateGeneration, now: i64) -> Option<GenerationError> {
    let pem = vstd::utf8::encode_utf8(acme_types::full_chain(g.certificate_pem@, g.chain_pem@));
    if g.certificate_id@ != managed.id@ {
        Some(GenerationError::OtherCertificate)
    } else {
        match x509::certificates_of(pem) {
            None => Some(GenerationError::InvalidPem),
            Some(chain) => if chain.len() == 0 {
                Some(GenerationError::NoLeaf)
            } else if !x509::identity_is_consistent(chain, vstd::utf8::encode_utf8(g.private_key_pem@)) {
                Some(GenerationError::InvalidIdentity)
            } else {
                match x509::facts_of(chain[0]) {
                    None => Some(GenerationError::InvalidLeaf),
                    Some(f) => leaf_error(
                        text::views(managed.domains@),
                        f.1,
                        x509::alternative_names_of(chain[0]),
                        now,
                    ),
                }
            },
        }
    }
}

/// Checks that a generation can serve a managed certificate: it belongs to it,
/// its key fits, it is not expired, and it covers every managed domain.
pub fn validate_generation(managed: &ManagedCertificate, generation: &CertificateGeneration, now: i64) -> (r: Result<
    (),
    GenerationError,
>)
    ensures
        r == match generation_error(*managed, *generation, now) {
            Some(e) => Err::<(), GenerationError>(e),
            None => Ok(()),
        },
{
    if !text::str_eq(generation.certificate_id.as_str(), managed.id.as_str()) {
        return Err(GenerationError::OtherCertificate);
    }
    let pem = generation.fullchain_pem();
    let chain = match x509::certificates(pem.as_str().as_bytes()) {
        Some(chain) => chain,
        None => return Err(GenerationError::InvalidPem),
    };
    if chain.len() == 0 {
        return Err(GenerationError::NoLeaf);
    }
    if !x509::is_identity(&chain, generation.private_key_pem.as_str().as_bytes()) {
        return Err(GenerationError::InvalidIdentity);
    }
    assert(x509::ders(chain@)[0] == chain@[0]@);
    let facts = match x509::parse_certificate(chain[0].as_slice()) {
        Some(facts) => facts,
        None => return Err(GenerationError::InvalidLeaf),
    };
    let names = x509::alternative_names(chain[0].as_slice());
    check_leaf(managed, facts.not_after, &names, now)
}

/// A generation that passed covers every domain of its certificate and has not
/// expired.
pub proof fn a_usable_generation_covers_every_domain(
    domains: Seq<Seq<char>>,
    not_after: i64,
    names: Seq<NameModel>,
    now: i64,
    i: int,
)
    requires
        leaf_error(domains, not_after, Some(Some(names)), now) is None,
        0 <= i < domains.len(),
    ensures
        not_after > now,
        acme_challenge::normalized(domains[i]) is Some,
        covers(names, acme_challenge::normalized(domains[i])->0),
    decreases domains.len(),
{
    if i < domains.len() - 1 {
        a_usable_generation_covers_every_domain(domains.drop_last(), not_after, names, now, i);
    }
}

/// Which certificate a server name gets.
#[derive(Debug)]
pub struct CachedCertificate {
    pub certificate_id: String,
    pub generation_id: String,
}

/// A managed certificate as it is loaded: its active generation, if there is
/// one, and whether that is usable.
#[derive(Debug)]
pub struct LoadedCertificate {
    pub managed: ManagedCertificate,
    pub generation_id: Option<String>,
    pub usable: bool,
}

/// A managed certificate with its active generation, as far as that can be
/// used now.
pub fn load_entry(managed: ManagedCertificate, generation: &Option<CertificateGeneration>, now: i64) -> (r: LoadedCertificate)
    ensures
        r.managed == managed,
        match generation {
            None => r.generation_id is None && !r.usable,
            Some(g) => r.generation_id is Some && (r.generation_id->0)@ == g.id@ && r.usable == (generation_error(
                managed,
                *g,
                now,
            ) is None),
        },
{
    match generation {
        None => LoadedCertificate { managed, generation_id: None, usable: false },
        Some(g) => {
            let usable = validate_generation(&managed, g, now).is_ok();
            LoadedCertificate { managed, generation_id: Some(g.id.clone()), usable }
        },
    }
}

/// Whether a certificate is served.
pub open spec fn served(l: LoadedCertificate) -> bool {
    l.managed.enabled && l.generation_id is Some && l.usable
}

/// The server names of one certificate, each bound to it.
pub open spec fn bound(
    m: Map<Seq<char>, (Seq<char>, Seq<char>)>,
    domains: Seq<Seq<char>>,
    entry: (Seq<char>, Seq<char>),
) -> Option<Map<Seq<char>, (Seq<char>, Seq<char>)>>
    decreases domains.len(),
{
    if domains.len() == 0 {
        Some(m)
    } else {
        match (bound(m, domains.drop_last(), entry), acme_challenge::normalized(domains.last())) {
            (Some(done), Some(d)) => Some(done.insert(d, entry)),
            _ => None,
        }
    }
}

/// The server names of every served certificate, a later one before an earlier
/// one. Nothing if a domain is none.
pub open spec fn loaded(s: Seq<LoadedCertificate>) -> Option<Map<Seq<char>, (Seq<char>, Seq<char>)>>
    decreases s.len(),
{
    if s.len() == 0 {
        Some(Map::empty())
    } else {
        match loaded(s.drop_last()) {
            None => None,
            Some(m) => if served(s.last()) {
                bound(m, text::views(s.last().managed.domains@), (s.last().managed.id@, (s.last().generation_id->0)@))
            } else {
                Some(m)
            },
        }
    }
}

pub open spec fn identities(m: Map<Seq<char>, CachedCertificate>) -> Map<Seq<char>, (Seq<char>, Seq<char>)> {
    m.map_values(|c: CachedCertificate| (c.certificate_id@, c.generation_id@))
}

proof fn lemma_bound_none(
    m: Map<Seq<char>, (Seq<char>, Seq<char>)>,
    domains: Seq<Seq<char>>,
    n: int,
    entry: (Seq<char>, Seq<char>),
)
    requires
        0 <= n <= domains.len(),
        bound(m, domains.take(n), entry) is None,
    ensures
        bound(m, domains, entry) is None,
    decreases domains.len() - n,
{
    if n == domains.len() {
        assert(domains.take(n) =~= domains);
    } else {
        assert(domains.take(n + 1).drop_last() =~= domains.take(n));
        lemma_bound_none(m, domains, n + 1, entry);
    }
}

proof fn lemma_loaded_none(s: Seq<LoadedCertificate>, n: int)
    requires
        0 <= n <= s.len(),
        loaded(s.take(n)) is None,
    ensures
        loaded(s) is None,
    decreases s.len() - n,
{
    if n == s.len() {
        assert(s.take(n) =~= s);
    } else {
        assert(s.take(n + 1).drop_last() =~= s.take(n));
        lemma_loaded_none(s, n + 1);
    }
}

/// The certificates by server name.
pub struct ManagedCertificateCache {
    pub entries: Table<String, CachedCertificate>,
}

impl ManagedCertificateCache {
    pub open spec fn wf(self) -> bool {
        self.entries.wf()
    }

    /// The certificate and the generation of each server name.
    pub open spec fn view(self) -> Map<Seq<char>, (Seq<char>, Seq<char>)> {
        identities(self.entries@)
    }

    pub fn new() -> (r: ManagedCertificateCache)
        ensures
            r.wf(),
            r@ == Map::<Seq<char>, (Seq<char>, Seq<char>)>::empty(),
    {
        let r = ManagedCertificateCache { entries: Table::new() };
        assert(r@ =~= Map::<Seq<char>, (Seq<char>, Seq<char>)>::empty());
        r
    }

    /// Replaces the whole cache at once and yields how many server names it
    /// has. A domain that is none leaves the cache as it is.
    pub fn reload(&mut self, rows: &Vec<LoadedCertificate>) -> (r: Result<usize, acme_challenge::InvalidDomain>)
        requires
            old(self).wf(),
        ensures
            final(self).wf(),
            match loaded(rows@) {
                None => r is Err && final(self)@ == old(self)@,
                Some(m) => r matches Ok(count) && final(self)@ == m && count == m.dom().len(),
            },
    {
        let mut entries: Table<String, CachedCertificate> = Table::new();
        let mut i: usize = 0;
        assert(identities(entries@) =~= Map::empty());
        while i < rows.len()
            invariant
                i <= rows@.len(),
                *self == *old(self),
                old(self).wf(),
                entries.wf(),
                loaded(rows@.take(i as int)) == Some(identities(entries@)),
            decreases rows@.len() - i,
        {
            assert(rows@.take(i + 1).drop_last() =~= rows@.take(i as int));
            let row = &rows[i];
            if row.managed.enabled && row.usable {
                if let Some(generation_id) = &row.generation_id {
                    let ghost m0 = identities(entries@);
                    let ghost all = text::views(row.managed.domains@);
                    let ghost entry = (row.managed.id@, generation_id@);
                    let mut j: usize = 0;
                    assert(all.take(0) =~= seq![]);
                    while j < row.managed.domains.len()
                        invariant
                            i < rows@.len(),
                            *row == rows@[i as int],
                            rows@.take(i + 1).drop_last() == rows@.take(i as int),
                            loaded(rows@.take(i as int)) == Some(m0),
                            served(*row),
                            row.generation_id matches Some(g) && g@ == generation_id@,
                            *self == *old(self),
                            old(self).wf(),
                            j <= row.managed.domains@.len(),
                            all == text::views(row.managed.domains@),
                            entry == (row.managed.id@, generation_id@),
                            entries.wf(),
                            bound(m0, all.take(j as int), entry) == Some(identities(entries@)),
                        decreases row.managed.domains@.len() - j,
                    {
                        assert(all.take(j + 1).drop_last() =~= all.take(j as int));
                        assert(all.take(j + 1).last() == row.managed.domains@[j as int]@);
                        match acme_challenge::normalize_domain(row.managed.domains[j].as_str()) {
                            Ok(d) => {
                                let ghost e0 = entries@;
                                let cached = CachedCertificate {
                                    certificate_id: row.managed.id.clone(),
                                    generation_id: generation_id.clone(),
                                };
                                entries.insert(d, cached);
                                assert(identities(e0.insert(d@, cached)) =~= identities(e0).insert(d@, entry));
                            },
                            Err(e) => {
                                proof {
                                    lemma_bound_none(m0, all, j + 1, entry);
                                    assert(rows@.take(i + 1).last() == *row);
                                    assert(loaded(rows@.take(i + 1)) is None);
                                    lemma_loaded_none(rows@, i + 1);
                                }
                                return Err(e);
                            },
                        }
                        j = j + 1;
                    }
                    assert(all.take(j as int) =~= all);
                }
            }
            i = i + 1;
        }
        assert(rows@.take(i as int) =~= rows@);
        let count = entries.len();
        proof {
            assert(identities(entries@).dom() =~= entries@.dom());
        }
        self.entries = entries;
        Ok(count)
    }

    /// The certificate and the generation that a server name gets.
    pub fn identity(&self, sni: &str) -> (r: Option<(String, String)>)
        requires
            self.wf(),
        ensures
            match acme_challenge::normalized(sni@) {
                None => r is None,
                Some(d) => if self@.dom().contains(d) {
                    r matches Some((c, g)) && (c@, g@) == self@[d]
                } else {
                    r is None
                },
            },
    {
        let domain = match acme_challenge::normalize_domain(sni) {
            Ok(d) => d,
            Err(_) => return None,
        };
        match self.entries.get(&domain) {
            Some(c) => Some((c.certificate_id.clone(), c.generation_id.clone())),
            None => None,
        }
    }

    /// Where the certificate for a server name comes from: the managed one,
    /// else as the fallback says.
    pub fn resolve_with_fallback(&self, sni: &str, fallback: CertificateFallbackPolicy) -> (r: CertificateSource)
        requires
            self.wf(),
        ensures
            is_source(r, source_for(*self, sni@, fallback)),
    {
        match self.identity(sni) {
            Some((_, generation_id)) => CertificateSource::Managed { generation_id },
            None => match fallback {
                CertificateFallbackPolicy::LocalCa => CertificateSource::LocalCa,
                CertificateFallbackPolicy::Reject => CertificateSource::Refused,
            },
        }
    }
}

/// What a server name without a managed certificate gets.
#[derive(Debug, Clone, Copy, PartialEq, Eq, Structural)]
pub enum CertificateFallbackPolicy {
    LocalCa,
    Reject,
}

/// Where a certificate comes from.
#[derive(Debug)]
pub enum CertificateSource {
    Managed { generation_id: String },
    LocalCa,
    Refused,
}

/// Where a certificate comes from, as a plain value.
pub enum SourceModel {
    Managed(Seq<char>),
    LocalCa,
    Refused,
}

/// Where the certificate for a server name comes from: the managed one, else
/// as the fallback says.
pub open spec fn source_for(cache: ManagedCertificateCache, sni: Seq<char>, fallback: CertificateFallbackPolicy) -> SourceModel {
    let otherwise = match fallback {
        CertificateFallbackPolicy::LocalCa => SourceModel::LocalCa,
        CertificateFallbackPolicy::Reject => SourceModel::Refused,
    };
    match acme_challenge::normalized(sni) {
        Some(d) => if cache@.dom().contains(d) {
            SourceModel::Managed(cache@[d].1)
        } else {
            otherwise
        },
        None => otherwise,
    }
}

pub open spec fn is_source(s: CertificateSource, m: SourceModel) -> bool {
    match s {
        CertificateSource::Managed { generation_id } => m == SourceModel::Managed(generation_id@),
        CertificateSource::LocalCa => m is LocalCa,
        CertificateSource::Refused => m is Refused,
    }
}

/// A leaf that lasts and whose names cover every domain is usable: no other
/// reason keeps it back.
pub proof fn a_leaf_that_covers_every_domain_is_usable(
    domains: Seq<Seq<char>>,
    not_after: i64,
    names: Seq<NameModel>,
    now: i64,
)
    requires
        now < not_after,
        forall|i: int| 0 <= i < domains.len() ==> acme_challenge::normalized(#[trigger] domains[i]) is Some,
        forall|i: int|
            0 <= i < domains.len() ==> exists|k: int|
                0 <= k < names.len() && ((#[trigger] names[k]) matches NameModel::Dns(s) && acme_challenge::normalized(s)
                    == acme_challenge::normalized(#[trigger] domains[i])),
    ensures
        leaf_error(domains, not_after, Some(Some(names)), now) is None,
    decreases domains.len(),
{
    if domains.len() > 0 {
        let t = domains.drop_last();
        assert forall|i: int| 0 <= i < t.len() implies acme_challenge::normalized(#[trigger] t[i]) is Some by {
            assert(t[i] == domains[i]);
        }
        assert forall|i: int| 0 <= i < t.len() implies exists|k: int|
            0 <= k < names.len() && ((#[trigger] names[k]) matches NameModel::Dns(s) && acme_challenge::normalized(s)
                == acme_challenge::normalized(#[trigger] t[i])) by {
            assert(t[i] == domains[i]);
            let k = choose|k: int|
                0 <= k < names.len() && ((#[trigger] names[k]) matches NameModel::Dns(s) && acme_challenge::normalized(s)
                    == acme_challenge::normalized(domains[i]));
            assert(names[k] is Dns);
        }
        a_leaf_that_covers_every_domain_is_usable(t, not_after, names, now);
        let last = domains[domains.len() - 1];
        let k = choose|k: int|
            0 <= k < names.len() && ((#[trigger] names[k]) matches NameModel::Dns(s) && acme_challenge::normalized(s)
                == acme_challenge::normalized(last));
        assert(names_domain(names[k], acme_challenge::normalized(last)->0));
    }
}

/// A generation is usable exactly if it belongs to its certificate, can be read
/// and used with its key, and its leaf is usable.
pub proof fn a_generation_is_usable_if_nothing_is_wrong(
    managed: ManagedCertificate,
    g: CertificateGeneration,
    chain: Seq<Seq<u8>>,
    now: i64,
)
    requires
        x509::certificates_of(
            vstd::utf8::encode_utf8(acme_types::full_chain(g.certificate_pem@, g.chain_pem@)),
        ) == Some(chain),
    ensures
        generation_error(managed, g, now) is None <==> g.certificate_id@ == managed.id@ && chain.len() > 0
            && x509::identity_is_consistent(chain, vstd::utf8::encode_utf8(g.private_key_pem@)) && (x509::facts_of(
            chain[0],
        ) matches Some(f) && leaf_error(
            text::views(managed.domains@),
            f.1,
            x509::alternative_names_of(chain[0]),
            now,
        ) is None),
{
}

/// Every domain of a certificate that is served finds that certificate, unless
/// a later one is served for it too.
pub proof fn a_served_certificate_is_found_by_its_domains(s: Seq<LoadedCertificate>, i: int, k: int, d: Seq<char>)
    requires
        loaded(s) is Some,
        0 <= i < s.len(),
        s[i].managed.enabled && s[i].generation_id is Some && s[i].usable,
        0 <= k < s[i].managed.domains@.len(),
        acme_challenge::normalized(s[i].managed.domains@[k]@) == Some(d),
        forall|j: int, x: int|
            i < j < s.len() && s[j].managed.enabled && s[j].generation_id is Some && s[j].usable && 0 <= x
                < s[j].managed.domains@.len() ==> acme_challenge::normalized((#[trigger] s[j].managed.domains@[x])@)
                != Some(d),
    ensures
        loaded(s)->0.dom().contains(d),
        loaded(s)->0[d] == (s[i].managed.id@, (s[i].generation_id->0)@),
    decreases s.len(),
{
    let t = s.drop_last();
    let last = s.last();
    let domains = text::views(last.managed.domains@);
    if i < t.len() {
        assert(t[i] == s[i]);
        assert forall|j: int, x: int|
            i < j < t.len() && t[j].managed.enabled && t[j].generation_id is Some && t[j].usable && 0 <= x
                < t[j].managed.domains@.len() implies acme_challenge::normalized(
            (#[trigger] t[j].managed.domains@[x])@,
        ) != Some(d) by {
            assert(t[j] == s[j]);
            assert(acme_challenge::normalized((s[j].managed.domains@[x])@) != Some(d));
        }
        a_served_certificate_is_found_by_its_domains(t, i, k, d);
        if served(last) {
            assert forall|x: int| 0 <= x < domains.len() implies acme_challenge::normalized(#[trigger] domains[x])
                != Some(d) by {
                assert(domains[x] == s[s.len() - 1].managed.domains@[x]@);
            }
            lemma_bound_elsewhere(loaded(t)->0, domains, (last.managed.id@, (last.generation_id->0)@), d);
        }
    } else {
        assert(domains[k] == last.managed.domains@[k]@);
        lemma_bound_here(loaded(t)->0, domains, (last.managed.id@, (last.generation_id->0)@), k, d);
    }
}

proof fn lemma_bound_elsewhere(
    m: Map<Seq<char>, (Seq<char>, Seq<char>)>,
    domains: Seq<Seq<char>>,
    entry: (Seq<char>, Seq<char>),
    d: Seq<char>,
)
    requires
        bound(m, domains, entry) is Some,
        forall|x: int| 0 <= x < domains.len() ==> acme_challenge::normalized(#[trigger] domains[x]) != Some(d),
    ensures
        bound(m, domains, entry)->0.dom().contains(d) == m.dom().contains(d),
        m.dom().contains(d) ==> bound(m, domains, entry)->0[d] == m[d],
    decreases domains.len(),
{
    if domains.len() > 0 {
        let t = domains.drop_last();
        assert forall|x: int| 0 <= x < t.len() implies acme_challenge::normalized(#[trigger] t[x]) != Some(d) by {
            assert(t[x] == domains[x]);
        }
        lemma_bound_elsewhere(m, t, entry, d);
        assert(acme_challenge::normalized(domains[domains.len() - 1]) != Some(d));
    }
}

proof fn lemma_bound_here(
    m: Map<Seq<char>, (Seq<char>, Seq<char>)>,
    domains: Seq<Seq<char>>,
    entry: (Seq<char>, Seq<char>),
    k: int,
    d: Seq<char>,
)
    requires
        bound(m, domains, entry) is Some,
        0 <= k < domains.len(),
        acme_challenge::normalized(domains[k]) == Some(d),
    ensures
        bound(m, domains, entry)->0.dom().contains(d),
        bound(m, domains, entry)->0[d] == entry,
    decreases domains.len(),
{
    let t = domains.drop_last();
    if k < t.len() {
        assert(t[k] == domains[k]);
        lemma_bound_here(m, t, entry, k, d);
    }
}

/// A server name that has a managed certificate gets it, and every other one
/// what the fallback says.
pub proof fn a_managed_name_gets_its_certificate(
    cache: ManagedCertificateCache,
    sni: Seq<char>,
    fallback: CertificateFallbackPolicy,
    d: Seq<char>,
)
    ensures
        acme_challenge::normalized(sni) == Some(d) && cache@.dom().contains(d) ==> source_for(cache, sni, fallback)
            == SourceModel::Managed(cache@[d].1),
        acme_challenge::normalized(sni) is None || (acme_challenge::normalized(sni) == Some(d)
            && !cache@.dom().contains(d)) ==> source_for(cache, sni, fallback) == match fallback {
            CertificateFallbackPolicy::LocalCa => SourceModel::LocalCa,
            CertificateFallbackPolicy::Reject => SourceModel::Refused,
        },
{
}

/// A server name gets the certificate that is bound to it, in whatever form it
/// is asked for, and a name that nothing is bound to gets none.
pub proof fn a_server_name_gets_what_is_bound_to_it(
    cache: ManagedCertificateCache,
    sni: &str,
    domain: Seq<char>,
    r: Option<(String, String)>,
)
    requires
        call_ensures(ManagedCertificateCache::identity, (&cache, sni), r),
        acme_challenge::normalized(sni@) == Some(domain),
    ensures
        r is Some <==> cache@.dom().contains(domain),
        r matches Some((c, g)) ==> cache@[domain] == (c@, g@),
{
}

} // verus!
