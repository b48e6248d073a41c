//! TLS-ALPN-01 challenges: which domains have one pending, and what its
//! certificate has to prove.
use vstd::prelude::*;
use vstd::slice::slice_subrange;
use crate::bytes;
use crate::certificate;
use crate::certificate::{SanModel, SanType};
use crate::crypto;
use crate::issue;
use crate::issue::Issued;
use crate::table::Table;
use crate::text;
use crate::utc;
use crate::x509;

verus! {

/// `acme-tls/1`.
pub open spec fn alpn_protocol() -> Seq<u8> {
    seq![0x61u8, 0x63u8, 0x6du8, 0x65u8, 0x2du8, 0x74u8, 0x6cu8, 0x73u8, 0x2fu8, 0x31u8]
}

/// The protocol name that a validation server offers.
pub fn tls_alpn_protocol() -> (r: Vec<u8>)
    ensures
        r@ == alpn_protocol(),
{
    let r: Vec<u8> = vec![0x61, 0x63, 0x6d, 0x65, 0x2d, 0x74, 0x6c, 0x73, 0x2f, 0x31];
    assert(r@ =~= alpn_protocol());
    r
}

/// Ten minutes, on a clock that counts milliseconds.
pub const DEFAULT_GATE_TTL: u64 = 600000;

/// A domain that no challenge can be for.
#[derive(Debug, Clone, Copy, PartialEq, Eq, Structural)]
pub struct InvalidDomain;

/// The form in which domains are compared: without white space and dots at
/// the end, in lower case. Nothing for a text that is no domain.
pub open spec fn normalized(domain: Seq<char>) -> Option<Seq<char>> {
    let d = text::lower(text::trimmed_end_of(text::trimmed(domain), '.'));
    if d.len() == 0 || d.contains('/') || d.contains('\0') {
        None
    } else {
        Some(d)
    }
}

pub fn normalize_domain(domain: &str) -> (r: Result<String, InvalidDomain>)
    ensures
        match normalized(domain@) {
            Some(d) => r is Ok && r->Ok_0@ == d,
            None => r is Err,
        },
{
    let all = text::chars_of(domain);
    let d = text::to_lower(text::trim_end_of(text::trim(all.as_slice()), '.'));
    if d.len() == 0 || text::find(d.as_slice(), '/') < d.len() || text::find(d.as_slice(), '\0') < d.len() {
        return Err(InvalidDomain);
    }
    Ok(text::string_of(d.as_slice()))
}

proof fn lemma_lower_char_idempotent(c: char)
    ensures
        text::lower_char(text::lower_char(c)) == text::lower_char(c),
        text::is_ws(text::lower_char(c)) == text::is_ws(c),
        text::lower_char(c) == '.' <==> c == '.',
{
}

proof fn lemma_trimmed_start_is_suffix(s: Seq<char>)
    ensures
        text::trimmed_start(s).len() <= s.len(),
        text::trimmed_start(s).len() > 0 ==> !text::is_ws(text::trimmed_start(s)[0]),
    decreases s.len(),
{
    if s.len() > 0 && text::is_ws(s[0]) {
        lemma_trimmed_start_is_suffix(s.drop_first());
    }
}

proof fn lemma_trimmed_end_shape(s: Seq<char>)
    ensures
        text::trimmed_end(s).len() <= s.len(),
        text::trimmed_end(s) == s.take(text::trimmed_end(s).len() as int),
        text::trimmed_end(s).len() > 0 ==> !text::is_ws(text::trimmed_end(s).last()),
    decreases s.len(),
{
    if s.len() > 0 && text::is_ws(s.last()) {
        lemma_trimmed_end_shape(s.drop_last());
        let n = text::trimmed_end(s).len() as int;
        assert(s.take(n) =~= s.drop_last().take(n));
    } else {
        assert(s.take(s.len() as int) =~= s);
    }
}

proof fn lemma_trimmed_dots_shape(s: Seq<char>)
    ensures
        text::trimmed_end_of(s, '.').len() <= s.len(),
        text::trimmed_end_of(s, '.') == s.take(text::trimmed_end_of(s, '.').len() as int),
        text::trimmed_end_of(s, '.').len() > 0 ==> text::trimmed_end_of(s, '.').last() != '.',
    decreases s.len(),
{
    if s.len() > 0 && s.last() == '.' {
        lemma_trimmed_dots_shape(s.drop_last());
        let n = text::trimmed_end_of(s, '.').len() as int;
        assert(s.take(n) =~= s.drop_last().take(n));
    } else {
        assert(s.take(s.len() as int) =~= s);
    }
}

/// A normalized domain that does not end in white space is its own normal
/// form: asking for a domain finds what was stored under it.
pub proof fn normal_form_is_stable(domain: Seq<char>)
    requires
        normalized(domain) is Some,
        !text::is_ws(normalized(domain)->0.last()),
    ensures
        normalized(normalized(domain)->0) == normalized(domain),
{
    let t = text::trimmed(domain);
    let u = text::trimmed_end_of(t, '.');
    let d = text::lower(u);
    lemma_trimmed_start_is_suffix(domain);
    lemma_trimmed_end_shape(text::trimmed_start(domain));
    lemma_trimmed_dots_shape(t);
    lemma_lower_char_idempotent(u[0]);
    lemma_lower_char_idempotent(u.last());
    assert(u[0] == text::trimmed_start(domain)[0]);
    assert(d[0] == text::lower_char(u[0]));
    assert(d.last() == text::lower_char(u.last()));
    assert(text::trimmed_start(d) == d);
    assert(text::trimmed_end(d) == d);
    assert(text::trimmed_end_of(d, '.') == d);
    assert forall|i: int| 0 <= i < d.len() implies text::lower(d)[i] == d[i] by {
        lemma_lower_char_idempotent(u[i]);
    }
    assert(text::lower(d) =~= d);
}

/// A pending challenge: the certificate that answers it, and until when.
pub struct ChallengeEntry<C> {
    pub certificate: C,
    pub expires_at: u64,
    pub nonce: u64,
}

pub struct ChallengeRegistry<C> {
    pub entries: Table<String, ChallengeEntry<C>>,
}

/// Removes exactly the registration it created. A later challenge for the
/// same domain is therefore not accidentally removed by an older task.
#[derive(Debug)]
pub struct ChallengeGuard {
    pub domain: String,
    pub nonce: u64,
}

/// The nonce of the next registration of a domain.
pub open spec fn next_nonce<C>(m: Map<Seq<char>, ChallengeEntry<C>>, domain: Seq<char>) -> u64 {
    if m.dom().contains(domain) {
        if m[domain].nonce == u64::MAX {
            0
        } else {
            (m[domain].nonce + 1) as u64
        }
    } else {
        1
    }
}

/// `m` without the entry of a domain, if it has the nonce.
pub open spec fn released<C>(m: Map<Seq<char>, ChallengeEntry<C>>, domain: Seq<char>, nonce: u64) -> Map<
    Seq<char>,
    ChallengeEntry<C>,
> {
    if m.dom().contains(domain) && m[domain].nonce == nonce {
        m.remove(domain)
    } else {
        m
    }
}

/// `m` without the entries that have expired.
pub open spec fn live<C>(m: Map<Seq<char>, ChallengeEntry<C>>, now: u64) -> Map<Seq<char>, ChallengeEntry<C>> {
    m.restrict(m.dom().filter(|d: Seq<char>| m[d].expires_at > now))
}

impl<C> ChallengeRegistry<C> {
    pub open spec fn wf(self) -> bool {
        self.entries.wf()
    }

    pub open spec fn view(self) -> Map<Seq<char>, ChallengeEntry<C>> {
        self.entries@
    }

    pub fn new() -> (r: ChallengeRegistry<C>)
        ensures
            r.wf(),
            r@ == Map::<Seq<char>, ChallengeEntry<C>>::empty(),
    {
        ChallengeRegistry { entries: Table::new() }
    }

    pub fn len(&self) -> (r: usize)
        requires
            self.wf(),
        ensures
            r == self@.dom().len(),
    {
        self.entries.len()
    }

    /// Makes a challenge certificate available for a domain for `ttl`
    /// milliseconds, in place of an earlier one.
    pub fn register(&mut self, domain: &str, certificate: C, ttl: u64, now: u64) -> (r: Result<
        ChallengeGuard,
        InvalidDomain,
    >)
        requires
            old(self).wf(),
            now + ttl <= u64::MAX,
        ensures
            final(self).wf(),
            match normalized(domain@) {
                None => r is Err && final(self)@ == old(self)@,
                Some(d) => {
                    let nonce = next_nonce(old(self)@, d);
                    &&& r is Ok
                    &&& r->Ok_0.domain@ == d
                    &&& r->Ok_0.nonce == nonce
                    &&& final(self)@ == old(self)@.insert(
                        d,
                        (ChallengeEntry { certificate, expires_at: (now + ttl) as u64, nonce }),
                    )
                },
            },
    {
        let d = match normalize_domain(domain) {
            Ok(d) => d,
            Err(e) => return Err(e),
        };
        let nonce: u64 = match self.entries.get(&d) {
            Some(entry) => if entry.nonce == u64::MAX {
                0
            } else {
                entry.nonce + 1
            },
            None => 1,
        };
        let copy = d.clone();
        self.entries.insert(d, ChallengeEntry { certificate, expires_at: now + ttl, nonce });
        Ok(ChallengeGuard { domain: copy, nonce })
    }

    /// Ends a registration: removes the entry of the guard's domain if it is
    /// still the one that the guard stands for.
    pub fn release(&mut self, guard: &ChallengeGuard)
        requires
            old(self).wf(),
        ensures
            final(self).wf(),
            final(self)@ == released(old(self)@, guard.domain@, guard.nonce),
    {
        let mine = match self.entries.get(&guard.domain) {
            Some(entry) => entry.nonce == guard.nonce,
            None => false,
        };
        if mine {
            let _ = self.entries.remove(&guard.domain);
        }
    }

    /// The certificate of the pending challenge of a domain. One that has
    /// expired is removed and not resolved.
    pub fn resolve(&mut self, domain: &str, now: u64) -> (r: bool)
        requires
            old(self).wf(),
        ensures
            final(self).wf(),
            match normalized(domain@) {
                None => !r && final(self)@ == old(self)@,
                Some(d) => {
                    &&& r == (old(self)@.dom().contains(d) && old(self)@[d].expires_at > now)
                    &&& final(self)@ == if old(self)@.dom().contains(d) && !r {
                        old(self)@.remove(d)
                    } else {
                        old(self)@
                    }
                },
            },
    {
        let d = match normalize_domain(domain) {
            Ok(d) => d,
            Err(_) => return false,
        };
        match self.entries.position(&d) {
            Some(i) => {
                if self.entries.entries[i].1.expires_at <= now {
                    let _ = self.entries.remove(&d);
                    false
                } else {
                    true
                }
            },
            None => false,
        }
    }

    /// The certificate registered for a domain.
    pub fn certificate(&self, domain: &str) -> (r: Option<&C>)
        requires
            self.wf(),
        ensures
            match normalized(domain@) {
                None => r is None,
                Some(d) => match r {
                    Some(c) => self@.dom().contains(d) && *c == self@[d].certificate,
                    None => !self@.dom().contains(d),
                },
            },
    {
        match normalize_domain(domain) {
            Ok(d) => match self.entries.get(&d) {
                Some(entry) => Some(&entry.certificate),
                None => None,
            },
            Err(_) => None,
        }
    }

    /// Drops every entry that has expired.
    pub fn purge_expired(&mut self, now: u64)
        requires
            old(self).wf(),
        ensures
            final(self).wf(),
            final(self)@ == live(old(self)@, now),
    {
        let ghost m0 = self@;
        let mut i: usize = 0;
        proof {
            crate::table::lemma_map_of(self.entries.entries@);
        }
        while i < self.entries.entries.len()
            invariant
                self.wf(),
                i <= self.entries.entries@.len(),
                self@.dom().subset_of(m0.dom()),
                forall|d: Seq<char>| #[trigger] self@.dom().contains(d) ==> self@[d] == m0[d],
                forall|d: Seq<char>| #[trigger]
                    m0.dom().contains(d) && m0[d].expires_at > now ==> self@.dom().contains(d),
                forall|k: int| 0 <= k < i ==> (#[trigger] self.entries.entries@[k]).1.expires_at > now,
            decreases self.entries.entries@.len() - i,
        {
            if self.entries.entries[i].1.expires_at <= now {
                let ghost before = self.entries.entries@;
                let key = self.entries.entries[i].0.clone();
                proof {
                    crate::table::lemma_map_of(before);
                }
                let _ = self.entries.remove(&key);
                proof {
                    let j = choose|j: int|
                        0 <= j < before.len() && crate::table::Key::id(&(#[trigger] before[j]).0)
                            == crate::table::Key::id(&key) && self.entries.entries@ == before.remove(j);
                    assert(j == i) by {
                        if j < i {
                            assert(crate::table::Key::id(&before[j].0) != crate::table::Key::id(&before[i as int].0));
                        } else if i < j {
                            assert(crate::table::Key::id(&before[i as int].0) != crate::table::Key::id(&before[j].0));
                        }
                    }
                }
            } else {
                i = i + 1;
            }
        }
        proof {
            crate::table::lemma_map_of(self.entries.entries@);
            let goal = live(m0, now);
            assert forall|d: Seq<char>| #[trigger] self@.dom().contains(d) <==> goal.dom().contains(d) by {
                if self@.dom().contains(d) {
                    let k = choose|k: int|
                        0 <= k < self.entries.entries@.len() && crate::table::Key::id(
                            &(#[trigger] self.entries.entries@[k]).0,
                        ) == d;
                    assert(self@[d] == self.entries.entries@[k].1);
                }
            }
            assert(self@ =~= goal);
        }
    }
}

/// An older guard does not clear a later registration of its domain, and the
/// later guard does.
pub proof fn a_guard_clears_only_its_own_registration<C>(
    m: Map<Seq<char>, ChallengeEntry<C>>,
    domain: Seq<char>,
    first: ChallengeEntry<C>,
    second: ChallengeEntry<C>,
)
    requires
        first.nonce == next_nonce(m, domain),
        second.nonce == next_nonce(m.insert(domain, first), domain),
    ensures
        ({
            let both = m.insert(domain, first).insert(domain, second);
            &&& released(both, domain, first.nonce) == both
            &&& !released(both, domain, second.nonce).dom().contains(domain)
        }),
{
}

/// The content of the extension that proves a key authorization: the digest
/// as a DER octet string.
pub open spec fn identifier_of(key_authorization: Seq<u8>) -> Seq<u8> {
    seq![0x04u8, 0x20u8] + crypto::sha256_of(key_authorization)
}

/// RFC 8737 requires a critical id-pe-acmeIdentifier extension containing the
/// SHA-256 digest of the key authorization as a DER OCTET STRING.
pub fn acme_identifier(key_authorization: &[u8]) -> (r: Vec<u8>)
    ensures
        r@ == identifier_of(key_authorization@),
        r@.len() == 34,
{
    let mut out: Vec<u8> = vec![0x04, 0x20];
    assert(out@ =~= seq![0x04u8, 0x20u8]);
    let digest = crypto::sha256(key_authorization);
    bytes::push_all(&mut out, digest.as_slice());
    out
}

/// The object identifier of the extension: id-pe-acmeIdentifier.
pub open spec fn identifier_oid() -> Seq<u64> {
    seq![1u64, 3u64, 6u64, 1u64, 5u64, 5u64, 7u64, 1u64, 31u64]
}

/// What the certificate of a challenge is issued with: it is valid from a
/// minute ago for a quarter of an hour.
pub open spec fn challenge_profile(name: SanModel, key_authorization: Seq<u8>, now: i64) -> issue::Profile {
    issue::Profile {
        names: seq![name],
        common_name: issue::DEFAULT_COMMON_NAME@,
        authority: false,
        usages: seq![],
        server: false,
        extension: Some((identifier_oid(), identifier_of(key_authorization))),
        not_before: (now - 60) as i64,
        not_after: (now + 900) as i64,
    }
}

/// The parameters of the certificate of a challenge: for the domain alone, with
/// the extension that proves the key authorization. There are none for a DNS
/// name that is not ASCII.
pub fn challenge_parameters(domain: &str, key_authorization: &[u8], now: i64) -> (r: Option<rcgen::CertificateParams>)
    requires
        utc::MIN_SECONDS + 60 <= now <= utc::MAX_SECONDS - 900,
    ensures
        r is Some <==> issue::is_sayable(certificate::san_of(domain@)),
        r is Some ==> issue::profile_of(r->0) == challenge_profile(
            certificate::san_of(domain@),
            key_authorization@,
            now,
        ),
{
    let mut names: Vec<SanType> = Vec::new();
    names.push(certificate::read_name(domain));
    proof {
        let models = certificate::san_models(names@);
        assert(models =~= seq![certificate::san_of(domain@)]);
        assert(issue::all_sayable(models) <==> issue::is_sayable(models[0]));
    }
    let mut params = match issue::parameters(&names, now - 60, now + 900) {
        Some(params) => params,
        None => return None,
    };
    let oid: Vec<u64> = vec![1, 3, 6, 1, 5, 5, 7, 1, 31];
    assert(oid@ =~= identifier_oid());
    issue::set_extension(&mut params, oid.as_slice(), acme_identifier(key_authorization));
    Some(params)
}

/// Makes the certificate of a challenge: for the domain alone, with the
/// extension that proves the key authorization. There is none for a DNS name
/// that is not ASCII, nor where the system has no randomness for its key or
/// its signature.
pub fn make_challenge_certificate(domain: &str, key_authorization: &[u8], now: i64) -> (r: Option<Issued>)
    requires
        60 <= now <= utc::MAX_SECONDS - 900,
    ensures
        r is Some ==> issue::is_sayable(certificate::san_of(domain@)),
        r is Some ==> issue::fits(
            r->0,
            challenge_profile(certificate::san_of(domain@), key_authorization@, now),
        ),
        r is Some ==> issue::can_sign(r->0.cert_pem@, r->0.key_pem@),
        r is Some ==> proves(r->0.der@, key_authorization@),
{
    match challenge_parameters(domain, key_authorization, now) {
        Some(params) => issue::self_signed(&params),
        None => None,
    }
}

/// Whether a certificate proves a key authorization: it carries the critical
/// extension with its digest.
pub open spec fn proves(der: Seq<u8>, key_authorization: Seq<u8>) -> bool {
    x509::extension_of(der, identifier_oid()) == Some((true, identifier_of(key_authorization)))
}

/// Checks a challenge certificate as a validation server does: that it proves
/// the key authorization.
pub fn is_proof(der: &[u8], key_authorization: &[u8]) -> (r: bool)
    ensures
        r == proves(der@, key_authorization@),
{
    let oid: Vec<u64> = vec![1, 3, 6, 1, 5, 5, 7, 1, 31];
    assert(oid@ =~= identifier_oid());
    match x509::extension(der, oid.as_slice()) {
        Some((critical, content)) => critical && bytes::same(
            content.as_slice(),
            acme_identifier(key_authorization).as_slice(),
        ),
        None => false,
    }
}

/// Why a challenge is not made available.
#[derive(Debug, Clone, Copy, PartialEq, Eq, Structural)]
pub enum ChallengeError {
    InvalidDomain,
    /// Its certificate could not be made.
    NoCertificate,
}

impl ChallengeRegistry<Issued> {
    /// Makes the challenge of a domain available: `clock` counts milliseconds,
    /// and `now` is the time.
    pub fn provision(
        &mut self,
        domain: &str,
        key_authorization: &[u8],
        ttl: u64,
        clock: u64,
        now: i64,
    ) -> (r: Result<ChallengeGuard, ChallengeError>)
        requires
            old(self).wf(),
            clock + ttl <= u64::MAX,
            60 <= now <= utc::MAX_SECONDS - 900,
        ensures
            final(self).wf(),
            match normalized(domain@) {
                None => r matches Err(e) && e == ChallengeError::InvalidDomain && final(self)@ == old(self)@,
                Some(d) => match r {
                    Err(e) => e == ChallengeError::NoCertificate && final(self)@ == old(self)@,
                    Ok(guard) => {
                        &&& guard.domain@ == d
                        &&& guard.nonce == next_nonce(old(self)@, d)
                        &&& final(self)@.dom().contains(d)
                        &&& issue::fits(
                            final(self)@[d].certificate,
                            challenge_profile(certificate::san_of(d), key_authorization@, now),
                        )
                        &&& proves(final(self)@[d].certificate.der@, key_authorization@)
                        &&& final(self)@ == old(self)@.insert(
                            d,
                            (ChallengeEntry {
                                certificate: final(self)@[d].certificate,
                                expires_at: (clock + ttl) as u64,
                                nonce: guard.nonce,
                            }),
                        )
                    },
                },
            },
    {
        let d = match normalize_domain(domain) {
            Ok(d) => d,
            Err(_) => return Err(ChallengeError::InvalidDomain),
        };
        match make_challenge_certificate(d.as_str(), key_authorization, now) {
            None => Err(ChallengeError::NoCertificate),
            Some(certificate) => match self.register(domain, certificate, ttl, clock) {
                Ok(guard) => Ok(guard),
                Err(_) => Err(ChallengeError::InvalidDomain),
            },
        }
    }
}

/// Replays bytes consumed during protocol inspection before reading from the
/// underlying stream. The default listener uses this for both ACME and normal
/// TLS termination so a ClientHello is inspected exactly once at its edge.
pub struct ReplayStream<S> {
    pub prefix: Vec<u8>,
    pub position: usize,
    pub inner: S,
}

impl<S> ReplayStream<S> {
    pub open spec fn wf(self) -> bool {
        self.position <= self.prefix@.len()
    }

    /// The bytes that are still to be replayed.
    pub open spec fn pending(self) -> Seq<u8> {
        self.prefix@.skip(self.position as int)
    }

    pub fn new(prefix: Vec<u8>, inner: S) -> (r: ReplayStream<S>)
        ensures
            r.wf(),
            r.pending() == prefix@,
            r.inner == inner,
    {
        let r = ReplayStream { prefix, position: 0, inner };
        assert(r.pending() =~= prefix@);
        r
    }

    /// The replayed bytes of a read of at most `room` bytes, or nothing if it
    /// has to go to the underlying stream.
    pub fn read_prefix(&mut self, room: usize) -> (r: Option<Vec<u8>>)
        requires
            old(self).wf(),
        ensures
            final(self).wf(),
            final(self).inner == old(self).inner,
            r is None <==> old(self).pending().len() == 0,
            r is None ==> final(self).pending() == old(self).pending(),
            r is Some ==> r->0@ + final(self).pending() == old(self).pending() && r->0@.len() == if room < old(
                self,
            ).pending().len() {
                room as nat
            } else {
                old(self).pending().len()
            },
    {
        let remaining: usize = self.prefix.len() - self.position;
        if remaining == 0 {
            return None;
        }
        let ghost before = self.pending();
        let count = if room < remaining {
            room
        } else {
            remaining
        };
        let part = slice_subrange(self.prefix.as_slice(), self.position, self.position + count);
        let out = bytes::copy_of(part);
        self.position = self.position + count;
        assert(out@ + self.pending() =~= before);
        Some(out)
    }
}

/// Domains are compared without regard to case, to dots at their end and to
/// white space around them.
pub proof fn domains_are_compared_in_normal_form(a: Seq<char>, d: Seq<char>, dots: Seq<char>, b: Seq<char>)
    requires
        forall|i: int| 0 <= i < a.len() ==> text::is_ws(#[trigger] a[i]),
        forall|i: int| 0 <= i < b.len() ==> text::is_ws(#[trigger] b[i]),
        forall|i: int| 0 <= i < dots.len() ==> #[trigger] dots[i] == '.',
        d.len() > 0,
        !text::is_ws(d[0]),
        !text::is_ws(d.last()),
        d.last() != '.',
        !d.contains('/'),
        !d.contains('\0'),
    ensures
        normalized(a + (d + dots) + b) == Some(text::lower(d)),
{
    let s = d + dots;
    if dots.len() > 0 {
        assert(dots[dots.len() - 1] == '.');
    }
    assert(s[0] == d[0]);
    assert(s.last() == if dots.len() > 0 {
        '.'
    } else {
        d.last()
    });
    text::trimming_takes_off_white_space_alone(a, s, b);
    lemma_dots_at_the_end(d, dots);
    let low = text::lower(d);
    assert(!low.contains('/')) by {
        if low.contains('/') {
            let i = choose|i: int| 0 <= i < low.len() && low[i] == '/';
            assert(low[i] == text::lower_char(d[i]));
            assert(d.contains(d[i]));
        }
    }
    assert(!low.contains('\0')) by {
        if low.contains('\0') {
            let i = choose|i: int| 0 <= i < low.len() && low[i] == '\0';
            assert(low[i] == text::lower_char(d[i]));
            assert(d.contains(d[i]));
        }
    }
}

proof fn lemma_dots_at_the_end(d: Seq<char>, dots: Seq<char>)
    requires
        d.len() > 0,
        d.last() != '.',
        forall|i: int| 0 <= i < dots.len() ==> #[trigger] dots[i] == '.',
    ensures
        text::trimmed_end_of(d + dots, '.') == d,
    decreases dots.len(),
{
    if dots.len() > 0 {
        assert(dots[dots.len() - 1] == '.');
        assert((d + dots).drop_last() =~= d + dots.drop_last());
        assert forall|i: int| 0 <= i < dots.drop_last().len() implies #[trigger] dots.drop_last()[i] == '.' by {
            assert(dots.drop_last()[i] == dots[i]);
        }
        lemma_dots_at_the_end(d, dots.drop_last());
    } else {
        assert(d + dots =~= d);
    }
}

/// Exactly the challenges whose time is not up are live.
pub proof fn challenges_live_until_their_time_is_up<C>(m: Map<Seq<char>, ChallengeEntry<C>>, domain: Seq<char>, now: u64)
    ensures
        live(m, now).dom().contains(domain) <==> m.dom().contains(domain) && m[domain].expires_at > now,
        live(m, now).dom().contains(domain) ==> live(m, now)[domain] == m[domain],
{
}

/// A challenge certificate is for its domain alone, proves the digest of its
/// key authorization, and is valid now.
pub proof fn a_challenge_certificate_is_valid_now(name: SanModel, key_authorization: Seq<u8>, now: i64)
    requires
        60 <= now,
        now <= i64::MAX - 900,
    ensures
        ({
            let p = challenge_profile(name, key_authorization, now);
            &&& p.names == seq![name]
            &&& p.not_before <= now < p.not_after
            &&& !p.authority
            &&& p.extension matches Some(e) && e.0 == seq![1u64, 3, 6, 1, 5, 5, 7, 1, 31] && e.1 == seq![4u8, 32u8]
                + crypto::sha256_of(key_authorization)
        }),
{
}

} // verus!
