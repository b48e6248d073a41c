//! The rules of locally issued certificates: when an authority is created,
//! loaded or replaced, and what a leaf is issued for. Times are seconds since
//! the Unix epoch.
use vstd::prelude::*;
use crate::bytes;
use crate::issue;
use crate::issue::{Issued, Usage};
use crate::net;
use crate::text;
use crate::utc;
use crate::x509;

verus! {

pub const CA_VALIDITY_DAYS: i64 = 3650;

/// A name that a certificate is issued for.
#[derive(Debug)]
pub enum SanType {
    DnsName(String),
    /// The octets of an address.
    IpAddress(Vec<u8>),
}

/// What a name is.
pub enum SanModel {
    Dns(Seq<char>),
    Ip(Seq<u8>),
}

impl SanType {
    pub open spec fn view(self) -> SanModel {
        match self {
            SanType::DnsName(s) => SanModel::Dns(s@),
            SanType::IpAddress(b) => SanModel::Ip(b@),
        }
    }
}

/// The name that a text stands for: an address if it reads as one.
pub open spec fn san_of(s: Seq<char>) -> SanModel {
    match net::octets_of(s) {
        Some(b) => SanModel::Ip(b),
        None => SanModel::Dns(s),
    }
}

/// The names that texts stand for.
pub open spec fn named(s: Seq<Seq<char>>) -> Seq<SanModel> {
    s.map_values(|t: Seq<char>| san_of(t))
}

/// The name that a text stands for.
pub fn read_name(s: &str) -> (r: SanType)
    ensures
        r@ == san_of(s@),
        r@ matches SanModel::Ip(b) ==> (b.len() == 4 || b.len() == 16) && net::may_be_address(s@),
{
    match net::address_octets(s) {
        Some(octets) => SanType::IpAddress(octets),
        None => SanType::DnsName(text::owned(s)),
    }
}

/// Whether a text can be a DNS name of a certificate: ASCII alone.
pub open spec fn is_ascii(s: Seq<char>) -> bool {
    forall|i: int| 0 <= i < s.len() ==> ((#[trigger] s[i]) as u32) < 128
}

/// The names of the entries without blank ones, unless one of them is neither
/// an address nor ASCII.
pub open spec fn sans_of(s: Seq<Seq<char>>) -> Option<Seq<SanModel>>
    decreases s.len(),
{
    if s.len() == 0 {
        Some(seq![])
    } else {
        match sans_of(s.drop_last()) {
            None => None,
            Some(done) => {
                let t = text::trimmed(s.last());
                if t.len() == 0 {
                    Some(done)
                } else {
                    match san_of(t) {
                        SanModel::Ip(b) => Some(done.push(SanModel::Ip(b))),
                        SanModel::Dns(_) => if is_ascii(t) {
                            Some(done.push(SanModel::Dns(t)))
                        } else {
                            None
                        },
                    }
                }
            },
        }
    }
}

/// The names that a certificate is issued for: `localhost` if there is none.
pub open spec fn issued_names(s: Seq<Seq<char>>) -> Option<Seq<SanModel>> {
    match sans_of(s) {
        None => None,
        Some(v) => if v.len() == 0 {
            Some(seq![SanModel::Dns("localhost"@)])
        } else {
            Some(v)
        },
    }
}

pub open spec fn san_models(v: Seq<SanType>) -> Seq<SanModel> {
    v.map_values(|t: SanType| t@)
}

fn all_ascii(s: &[char]) -> (r: bool)
    ensures
        r == is_ascii(s@),
{
    let mut i: usize = 0;
    while i < s.len()
        invariant
            i <= s@.len(),
            forall|k: int| 0 <= k < i ==> ((#[trigger] s@[k]) as u32) < 128,
        decreases s@.len() - i,
    {
        if s[i] as u32 >= 128 {
            return false;
        }
        i = i + 1;
    }
    true
}

proof fn lemma_sans_none(s: Seq<Seq<char>>, n: int)
    requires
        0 <= n <= s.len(),
        sans_of(s.take(n)) is None,
    ensures
        sans_of(s) is None,
    decreases s.len() - n,
{
    if n == s.len() {
        assert(s.take(n) =~= s);
    } else {
        assert(s.take(n + 1).drop_last() =~= s.take(n));
        lemma_sans_none(s, n + 1);
    }
}

/// Splits configured entries into DNS names and addresses.
pub fn parse_sans(san: &Vec<String>) -> (r: Option<Vec<SanType>>)
    ensures
        match issued_names(text::views(san@)) {
            Some(v) => r is Some && san_models(r->0@) == v && issue::all_sayable(v),
            None => r is None,
        },
{
    let ghost all = text::views(san@);
    let mut out: Vec<SanType> = Vec::new();
    assert(san_models(out@) =~= seq![]);
    let mut i: usize = 0;
    while i < san.len()
        invariant
            i <= san@.len(),
            all == text::views(san@),
            sans_of(all.take(i as int)) == Some(san_models(out@)),
            issue::all_sayable(san_models(out@)),
        decreases san@.len() - i,
    {
        assert(all.take(i + 1).drop_last() =~= all.take(i as int));
        assert(all.take(i + 1).last() == san@[i as int]@);
        let chars = text::chars_of(san[i].as_str());
        let t = text::trim(chars.as_slice());
        if t.len() > 0 {
            let ghost o0 = san_models(out@);
            let name = read_name(text::string_of(t).as_str());
            if let SanType::DnsName(_) = &name {
                if !all_ascii(t) {
                    proof {
                        lemma_sans_none(all, i + 1);
                    }
                    return None;
                }
            }
            out.push(name);
            assert(san_models(out@) =~= o0.push(name@));
            assert(issue::is_sayable(name@));
        }
        i = i + 1;
    }
    assert(all.take(i as int) =~= all);
    if out.len() == 0 {
        let name = SanType::DnsName(text::owned("localhost"));
        out.push(name);
        proof {
            reveal_strlit("localhost");
            assert(san_models(out@) =~= seq![SanModel::Dns("localhost"@)]);
        }
    }
    Some(out)
}

/// When a certificate ends to be valid.
pub fn certificate_expires_at(cert_der: &[u8]) -> (r: Option<i64>)
    ensures
        r == match x509::facts_of(cert_der@) {
            Some(f) => Some(f.1),
            None => None,
        },
{
    match x509::parse_certificate(cert_der) {
        Some(facts) => Some(facts.not_after),
        None => None,
    }
}

/// What is done about the local authority.
#[derive(Debug, Clone, Copy, PartialEq, Eq, Structural)]
pub enum CaPlan {
    /// There is none: create it.
    Generate,
    /// It is there: load it.
    Load,
    /// Only one half of it is there.
    Incomplete,
}

/// Decides about the local authority by which of its files are there. Half of
/// an authority is never replaced.
pub fn load_or_create_ca(cert_exists: bool, key_exists: bool) -> (r: CaPlan)
    ensures
        r == if cert_exists != key_exists {
            CaPlan::Incomplete
        } else if cert_exists {
            CaPlan::Load
        } else {
            CaPlan::Generate
        },
{
    if cert_exists != key_exists {
        CaPlan::Incomplete
    } else if cert_exists {
        CaPlan::Load
    } else {
        CaPlan::Generate
    }
}

/// What was found out about an authority that was loaded.
#[derive(Debug, Clone, Copy, PartialEq, Eq, Structural)]
pub struct CaFacts {
    pub is_ca: bool,
    pub not_before: i64,
    pub not_after: i64,
    pub key_matches: bool,
    pub self_signed: bool,
}

/// What becomes of an authority that was loaded.
#[derive(Debug, Clone, Copy, PartialEq, Eq, Structural)]
pub enum CaVerdict {
    Use,
    /// It is not valid at the time: create a new one in its place.
    Replace,
    NotAnAuthority,
    KeyMismatch,
    InvalidSignature,
}

/// What becomes of an authority of which this was found out.
pub open spec fn verdict_on(facts: CaFacts, now: i64) -> CaVerdict {
    if !facts.is_ca {
        CaVerdict::NotAnAuthority
    } else if !(facts.not_before <= now <= facts.not_after) {
        CaVerdict::Replace
    } else if !facts.key_matches {
        CaVerdict::KeyMismatch
    } else if !facts.self_signed {
        CaVerdict::InvalidSignature
    } else {
        CaVerdict::Use
    }
}

/// Judges an authority: one that is not valid at the time is replaced, one
/// that is wrong in any other way is refused.
pub fn judge_ca(facts: CaFacts, now: i64) -> (r: CaVerdict)
    ensures
        r == verdict_on(facts, now),
{
    if !facts.is_ca {
        CaVerdict::NotAnAuthority
    } else if now < facts.not_before || now > facts.not_after {
        CaVerdict::Replace
    } else if !facts.key_matches {
        CaVerdict::KeyMismatch
    } else if !facts.self_signed {
        CaVerdict::InvalidSignature
    } else {
        CaVerdict::Use
    }
}

/// Why an authority cannot be judged.
#[derive(Debug, Clone, Copy, PartialEq, Eq, Structural)]
pub enum CaError {
    /// The private key cannot be read.
    Key,
    /// The PEM text cannot be decoded.
    Pem,
    /// The bytes are no certificate.
    Certificate,
}

/// What is found out about the DER bytes of an authority and the public key of
/// its private key, if the bytes are a certificate.
pub open spec fn ca_facts(der: Seq<u8>, public_key: Seq<u8>) -> Option<CaFacts> {
    match (x509::facts_of(der), x509::authority_of(der)) {
        (Some(f), Some(a)) => Some(
            CaFacts {
                is_ca: a.0,
                not_before: f.0,
                not_after: f.1,
                key_matches: a.1 == public_key,
                self_signed: x509::signed_by(der, der),
            },
        ),
        _ => None,
    }
}

/// What becomes of the files of an authority.
pub open spec fn loaded_as(cert_pem: Seq<char>, key_pem: Seq<char>, now: i64) -> Result<CaVerdict, CaError> {
    match x509::public_key_of(key_pem) {
        None => Err(CaError::Key),
        Some(key) => match x509::section_of(vstd::utf8::encode_utf8(cert_pem)) {
            None => Err(CaError::Pem),
            Some(der) => match ca_facts(der, key) {
                None => Err(CaError::Certificate),
                Some(facts) => Ok(verdict_on(facts, now)),
            },
        },
    }
}

/// Judges the files of an authority.
pub fn load_ca(cert_pem: &str, key_pem: &str, now: i64) -> (r: Result<CaVerdict, CaError>)
    ensures
        r == loaded_as(cert_pem@, key_pem@, now),
{
    let key = match x509::public_key(key_pem) {
        Some(key) => key,
        None => return Err(CaError::Key),
    };
    let der = match x509::first_section(cert_pem.as_bytes()) {
        Some(der) => der,
        None => return Err(CaError::Pem),
    };
    let facts = match x509::parse_certificate(der.as_slice()) {
        Some(facts) => facts,
        None => return Err(CaError::Certificate),
    };
    let authority = match x509::authority_facts(der.as_slice()) {
        Some(authority) => authority,
        None => return Err(CaError::Certificate),
    };
    let found = CaFacts {
        is_ca: authority.is_ca,
        not_before: facts.not_before,
        not_after: facts.not_after,
        key_matches: bytes::same(authority.public_key.as_slice(), key.as_slice()),
        self_signed: x509::is_signed_by(der.as_slice(), der.as_slice()),
    };
    Ok(judge_ca(found, now))
}

/// When an authority that is created now is valid: from yesterday for ten
/// years.
pub fn ca_validity(now: i64) -> (r: (i64, i64))
    requires
        utc::MIN_SECONDS + 86400 <= now <= utc::MAX_SECONDS - CA_VALIDITY_DAYS * 86400,
    ensures
        r.0 == now - 86400,
        r.1 == now + CA_VALIDITY_DAYS * 86400,
        utc::MIN_SECONDS <= r.0 < r.1 <= utc::MAX_SECONDS,
{
    (now - 86400, now + CA_VALIDITY_DAYS * 86400)
}

/// When a leaf that is issued now is valid: from an hour ago for so many days,
/// at least one.
pub fn leaf_validity(now: i64, validity_days: u32) -> (r: (i64, i64))
    requires
        utc::MIN_SECONDS + 3600 <= now,
        now + (if validity_days == 0 { 1 } else { validity_days as int }) * 86400 <= utc::MAX_SECONDS,
    ensures
        r.0 == now - 3600,
        r.1 == now + (if validity_days == 0 { 1 } else { validity_days as int }) * 86400,
{
    let days: i64 = if validity_days == 0 {
        1
    } else {
        validity_days as i64
    };
    (now - 3600, now + days * 86400)
}

/// What an authority that is created now is issued with.
pub open spec fn ca_profile(now: i64) -> issue::Profile {
    issue::Profile {
        names: seq![],
        common_name: "TLS Proxy Local CA"@,
        authority: true,
        usages: seq![Usage::KeyCertSign, Usage::CrlSign, Usage::DigitalSignature],
        server: false,
        extension: None,
        not_before: (now - 86400) as i64,
        not_after: (now + CA_VALIDITY_DAYS * 86400) as i64,
    }
}

/// The parameters of an authority that is created now: it may sign
/// certificates and revocation lists, and is valid from yesterday for ten
/// years.
pub fn ca_parameters(now: i64) -> (r: rcgen::CertificateParams)
    requires
        utc::MIN_SECONDS + 86400 <= now <= utc::MAX_SECONDS - CA_VALIDITY_DAYS * 86400,
    ensures
        issue::profile_of(r) == ca_profile(now),
{
    let (not_before, not_after) = ca_validity(now);
    let names: Vec<SanType> = Vec::new();
    assert(san_models(names@) =~= seq![]);
    let mut params = issue::parameters(&names, not_before, not_after).unwrap();
    issue::set_common_name(&mut params, "TLS Proxy Local CA");
    issue::set_authority(&mut params);
    let usages: Vec<Usage> = vec![Usage::KeyCertSign, Usage::CrlSign, Usage::DigitalSignature];
    assert(usages@ =~= seq![Usage::KeyCertSign, Usage::CrlSign, Usage::DigitalSignature]);
    issue::set_usages(&mut params, &usages);
    params
}

/// Creates an authority that is valid from yesterday for ten years. There is
/// none only where the system has no randomness for its key or its signature.
pub fn generate_ca(now: i64) -> (r: Option<Issued>)
    requires
        86400 <= now <= utc::MAX_SECONDS - CA_VALIDITY_DAYS * 86400,
    ensures
        r is Some ==> issue::fits(r->0, ca_profile(now)),
        r is Some ==> issue::can_sign(r->0.cert_pem@, r->0.key_pem@),
        r is Some ==> ca_facts(r->0.der@, x509::public_key_of(r->0.key_pem@)->0) == Some(
            (CaFacts {
                is_ca: true,
                not_before: (now - 86400) as i64,
                not_after: (now + CA_VALIDITY_DAYS * 86400) as i64,
                key_matches: true,
                self_signed: true,
            }),
        ),
        r is Some ==> loaded_as(r->0.cert_pem@, r->0.key_pem@, now) == Ok::<CaVerdict, CaError>(CaVerdict::Use),
{
    let params = ca_parameters(now);
    issue::self_signed(&params)
}

/// An authority that was created is used when it is loaded, as long as it is
/// valid, and replaced from then on.
pub proof fn a_created_authority_loads(cert_pem: Seq<char>, key_pem: Seq<char>, der: Seq<u8>, created: i64, now: i64)
    requires
        x509::section_of(vstd::utf8::encode_utf8(cert_pem)) == Some(der),
        x509::public_key_of(key_pem) is Some,
        ca_facts(der, x509::public_key_of(key_pem)->0) == Some(
            (CaFacts {
                is_ca: true,
                not_before: (created - 86400) as i64,
                not_after: (created + 3650 * 86400) as i64,
                key_matches: true,
                self_signed: true,
            }),
        ),
        86400 <= created <= now,
        created <= utc::MAX_SECONDS - 3650 * 86400,
    ensures
        loaded_as(cert_pem, key_pem, now) == Ok::<CaVerdict, CaError>(
            if now <= created + 3650 * 86400 {
                CaVerdict::Use
            } else {
                CaVerdict::Replace
            },
        ),
{
}

/// A leaf with its chain and its private key.
#[derive(Debug)]
pub struct MintedIdentity {
    /// The leaf, and behind it the certificates of the authority.
    pub chain: Vec<Vec<u8>>,
    pub cert_pem: String,
    pub key_pem: String,
    pub expires_at: i64,
}

/// Why no leaf is issued.
#[derive(Debug, Clone, Copy, PartialEq, Eq, Structural)]
pub enum MintError {
    /// A name is neither an address nor ASCII.
    InvalidName,
    /// The authority cannot be used, or signing failed.
    NotSigned,
    /// The leaf cannot be read.
    Unreadable,
    /// The leaf and its key do not form a TLS identity.
    Inconsistent,
}

/// What a leaf is issued with.
pub open spec fn leaf_profile(names: Seq<SanModel>, common_name: Seq<char>, validity_days: u32, now: i64) -> issue::Profile {
    issue::Profile {
        names,
        common_name,
        authority: false,
        usages: seq![Usage::DigitalSignature, Usage::KeyEncipherment],
        server: true,
        extension: None,
        not_before: (now - 3600) as i64,
        not_after: (now + (if validity_days == 0 { 1 } else { validity_days as int }) * 86400) as i64,
    }
}

/// Whether a leaf is one for these names: it is what was signed, it fits its
/// key, and the authority's chain stands behind it.
pub open spec fn minted_for(
    m: MintedIdentity,
    names: Seq<SanModel>,
    common_name: Seq<char>,
    validity_days: u32,
    now: i64,
    ca_chain: Seq<Seq<u8>>,
) -> bool {
    &&& m.chain@.len() > 0
    &&& issue::fits(
        (Issued { der: m.chain@[0], cert_pem: m.cert_pem, key_pem: m.key_pem }),
        leaf_profile(names, common_name, validity_days, now),
    )
    &&& x509::identity_is_consistent(seq![m.chain@[0]@], vstd::utf8::encode_utf8(m.key_pem@))
    &&& x509::ders(m.chain@) == extended(seq![m.chain@[0]@], ca_chain)
    &&& m.expires_at == leaf_profile(names, common_name, validity_days, now).not_after
}

/// Whether a leaf is signed by an authority, as far as that can sign.
pub open spec fn signed_under(m: MintedIdentity, ca_cert_pem: Seq<char>, ca_key_pem: Seq<char>) -> bool {
    issue::can_sign(ca_cert_pem, ca_key_pem) ==> x509::signed_by(
        m.chain@[0]@,
        x509::section_of(vstd::utf8::encode_utf8(ca_cert_pem))->0,
    )
}

/// An authority that is loaded and used can sign: every leaf that is minted
/// with it carries a signature that its certificate bears out.
pub proof fn a_used_authority_can_sign(cert_pem: Seq<char>, key_pem: Seq<char>, now: i64)
    requires
        loaded_as(cert_pem, key_pem, now) == Ok::<CaVerdict, CaError>(CaVerdict::Use),
    ensures
        issue::can_sign(cert_pem, key_pem),
{
}

/// What becomes of a leaf that was signed, or was not: its chain is extended
/// by the authority's, once it is known to fit its key.
pub fn finish_leaf(issued: Option<Issued>, ca_chain: &Vec<Vec<u8>>) -> (r: Result<MintedIdentity, MintError>)
    ensures
        match issued {
            None => r matches Err(e) && e == MintError::NotSigned,
            Some(c) => match x509::facts_of(c.der@) {
                None => r matches Err(e) && e == MintError::Unreadable,
                Some(f) => if !x509::identity_is_consistent(seq![c.der@], vstd::utf8::encode_utf8(c.key_pem@)) {
                    r matches Err(e) && e == MintError::Inconsistent
                } else {
                    r matches Ok(m) && m.expires_at == f.1 && m.cert_pem@ == c.cert_pem@ && m.key_pem@ == c.key_pem@
                        && m.chain@.len() > 0 && m.chain@[0]@ == c.der@ && x509::ders(m.chain@) == extended(
                        seq![c.der@],
                        x509::ders(ca_chain@),
                    )
                },
            },
        },
{
    let c = match issued {
        Some(c) => c,
        None => return Err(MintError::NotSigned),
    };
    let expires_at: i64 = match certificate_expires_at(c.der.as_slice()) {
        Some(at) => at,
        None => return Err(MintError::Unreadable),
    };
    let ghost der = c.der@;
    let mut chain: Vec<Vec<u8>> = Vec::new();
    chain.push(c.der);
    assert(x509::ders(chain@) =~= seq![der]);
    if !x509::is_identity(&chain, c.key_pem.as_str().as_bytes()) {
        return Err(MintError::Inconsistent);
    }
    extend_chain(&mut chain, ca_chain);
    proof {
        lemma_extended_prefix(seq![der], x509::ders(ca_chain@));
        let all = x509::ders(chain@);
        assert(all.take(1)[0] == der);
        assert(all[0] == chain@[0]@);
    }
    Ok(MintedIdentity { chain, cert_pem: c.cert_pem, key_pem: c.key_pem, expires_at })
}

/// The parameters of a leaf for names: for TLS servers, from an hour ago for so
/// many days, at least one. There are none if a name cannot stand in a
/// certificate.
pub fn leaf_parameters(names: &Vec<SanType>, common_name: &str, validity_days: u32, now: i64) -> (r: Option<
    rcgen::CertificateParams,
>)
    requires
        utc::MIN_SECONDS + 3600 <= now,
        now + (if validity_days == 0 { 1 } else { validity_days as int }) * 86400 <= utc::MAX_SECONDS,
    ensures
        r is Some <==> issue::all_sayable(san_models(names@)),
        r is Some ==> issue::profile_of(r->0) == leaf_profile(san_models(names@), common_name@, validity_days, now),
{
    let (not_before, not_after) = leaf_validity(now, validity_days);
    let mut params = match issue::parameters(names, not_before, not_after) {
        Some(params) => params,
        None => return None,
    };
    issue::set_common_name(&mut params, common_name);
    let usages: Vec<Usage> = vec![Usage::DigitalSignature, Usage::KeyEncipherment];
    assert(usages@ =~= seq![Usage::DigitalSignature, Usage::KeyEncipherment]);
    issue::set_usages(&mut params, &usages);
    issue::set_server(&mut params);
    Some(params)
}

/// Issues a leaf for names: for TLS servers, from an hour ago for so many days,
/// at least one, with the chain of the authority behind it. Whether it can be
/// signed rests on the authority's files and the system's randomness.
pub fn mint_leaf(
    ca_cert_pem: &str,
    ca_key_pem: &str,
    ca_chain: &Vec<Vec<u8>>,
    san: &Vec<String>,
    common_name: &str,
    validity_days: u32,
    now: i64,
) -> (r: Result<MintedIdentity, MintError>)
    requires
        3600 <= now,
        now + (if validity_days == 0 { 1 } else { validity_days as int }) * 86400 <= utc::MAX_SECONDS,
    ensures
        match issued_names(text::views(san@)) {
            None => r matches Err(e) && e == MintError::InvalidName,
            Some(names) => {
                &&& !(r matches Err(MintError::InvalidName))
                &&& r matches Ok(m) ==> minted_for(m, names, common_name@, validity_days, now, x509::ders(ca_chain@))
                &&& r matches Ok(m) ==> signed_under(m, ca_cert_pem@, ca_key_pem@)
            },
        },
{
    let names = match parse_sans(san) {
        Some(names) => names,
        None => return Err(MintError::InvalidName),
    };
    let params = leaf_parameters(&names, common_name, validity_days, now).unwrap();
    let issued = issue::signed_by(&params, ca_cert_pem, ca_key_pem);
    finish_leaf(issued, ca_chain)
}

/// Whether a certificate is that of a TLS server under a common name: its key
/// signs and enciphers, and does nothing else.
pub fn is_server_leaf(der: &[u8], common_name: &str) -> (r: bool)
    ensures
        r == (x509::holder_of(der@) == Some(
            issue::shown_holder(leaf_profile(seq![], common_name@, 0, 0)),
        )),
{
    proof {
        let usages = leaf_profile(seq![], common_name@, 0, 0).usages;
        assert(usages[0] == Usage::DigitalSignature && usages[1] == Usage::KeyEncipherment);
    }
    match x509::holder(der) {
        None => false,
        Some(h) => text::str_eq(h.common_name.as_str(), common_name) && h.digital_signature && h.key_encipherment
            && !h.key_cert_sign && !h.crl_sign && h.server,
    }
}

/// Why certificates or keys cannot be read.
#[derive(Debug, Clone, Copy, PartialEq, Eq, Structural)]
pub enum ReadError {
    /// The text cannot be decoded.
    Invalid,
    /// There is nothing of that sort in it.
    Missing,
}

/// Reads the certificates of a PEM text.
pub fn read_certificates(pem: &[u8]) -> (r: Result<Vec<Vec<u8>>, ReadError>)
    ensures
        match x509::certificates_of(pem@) {
            None => r matches Err(e) && e == ReadError::Invalid,
            Some(all) => if all.len() == 0 {
                r matches Err(e) && e == ReadError::Missing
            } else {
                r matches Ok(v) && x509::ders(v@) == all
            },
        },
{
    match x509::certificates(pem) {
        None => Err(ReadError::Invalid),
        Some(all) => {
            assert(x509::ders(all@).len() == all@.len());
            if all.len() == 0 {
                Err(ReadError::Missing)
            } else {
                Ok(all)
            }
        },
    }
}

/// Reads the private key of a PEM text.
pub fn read_private_key(pem: &[u8]) -> (r: Result<Vec<u8>, ReadError>)
    ensures
        match x509::private_key_of(pem@) {
            None => r matches Err(e) && e == ReadError::Invalid,
            Some(None) => r matches Err(e) && e == ReadError::Missing,
            Some(Some(der)) => r matches Ok(v) && v@ == der,
        },
{
    match x509::first_private_key(pem) {
        None => Err(ReadError::Invalid),
        Some(None) => Err(ReadError::Missing),
        Some(Some(der)) => Ok(der),
    }
}

/// A chain with the certificates that it lacks behind it.
pub open spec fn extended(chain: Seq<Seq<u8>>, more: Seq<Seq<u8>>) -> Seq<Seq<u8>>
    decreases more.len(),
{
    if more.len() == 0 {
        chain
    } else {
        let done = extended(chain, more.drop_last());
        if done.contains(more.last()) {
            done
        } else {
            done.push(more.last())
        }
    }
}

fn holds(chain: &Vec<Vec<u8>>, cert: &Vec<u8>) -> (r: bool)
    ensures
        r == x509::ders(chain@).contains(cert@),
{
    let ghost all = x509::ders(chain@);
    let mut i: usize = 0;
    while i < chain.len()
        invariant
            i <= chain@.len(),
            all == x509::ders(chain@),
            forall|k: int| 0 <= k < i ==> #[trigger] all[k] != cert@,
        decreases chain@.len() - i,
    {
        assert(all[i as int] == chain@[i as int]@);
        if bytes::same(chain[i].as_slice(), cert.as_slice()) {
            return true;
        }
        i = i + 1;
    }
    false
}

/// Appends authority certificates to a served chain, skipping any already
/// present, so clients receive the full chain rather than a bare leaf.
pub fn extend_chain(chain: &mut Vec<Vec<u8>>, ca_chain: &Vec<Vec<u8>>)
    ensures
        x509::ders(final(chain)@) == extended(x509::ders(old(chain)@), x509::ders(ca_chain@)),
{
    let ghost c0 = x509::ders(chain@);
    let ghost all = x509::ders(ca_chain@);
    let mut i: usize = 0;
    while i < ca_chain.len()
        invariant
            i <= ca_chain@.len(),
            all == x509::ders(ca_chain@),
            x509::ders(chain@) == extended(c0, all.take(i as int)),
        decreases ca_chain@.len() - i,
    {
        assert(all.take(i + 1).drop_last() =~= all.take(i as int));
        assert(all.take(i + 1).last() == ca_chain@[i as int]@);
        if !holds(chain, &ca_chain[i]) {
            let ghost d0 = x509::ders(chain@);
            chain.push(bytes::copy_of(ca_chain[i].as_slice()));
            assert(x509::ders(chain@) =~= d0.push(all[i as int]));
        }
        i = i + 1;
    }
    assert(all.take(i as int) =~= all);
}

/// A chain that was extended starts as before and holds every certificate of
/// the authority.
pub proof fn an_extended_chain_is_complete(chain: Seq<Seq<u8>>, more: Seq<Seq<u8>>, i: int)
    requires
        0 <= i < more.len(),
    ensures
        chain.len() <= extended(chain, more).len(),
        extended(chain, more).take(chain.len() as int) == chain,
        extended(chain, more).contains(more[i]),
    decreases more.len(),
{
    lemma_extended_prefix(chain, more);
    let done = extended(chain, more.drop_last());
    let all = extended(chain, more);
    if i < more.len() - 1 {
        an_extended_chain_is_complete(chain, more.drop_last(), i);
        let k = choose|k: int| 0 <= k < done.len() && done[k] == more[i];
        assert(all[k] == more[i]);
    } else if !done.contains(more.last()) {
        assert(all[all.len() - 1] == more[i]);
    }
}

proof fn lemma_extended_prefix(chain: Seq<Seq<u8>>, more: Seq<Seq<u8>>)
    ensures
        chain.len() <= extended(chain, more).len(),
        extended(chain, more).take(chain.len() as int) == chain,
    decreases more.len(),
{
    if more.len() == 0 {
        assert(chain.take(chain.len() as int) =~= chain);
    } else {
        lemma_extended_prefix(chain, more.drop_last());
        let done = extended(chain, more.drop_last());
        assert(done.push(more.last()).take(chain.len() as int) =~= done.take(chain.len() as int));
    }
}

/// An authority is used exactly if it is one, is valid now, belongs to its key
/// and is signed with it; one that is no longer or not yet valid is replaced.
pub proof fn a_sound_authority_is_used(facts: CaFacts, now: i64)
    ensures
        verdict_on(facts, now) == CaVerdict::Use <==> facts.is_ca && facts.not_before <= now && now <= facts.not_after
            && facts.key_matches && facts.self_signed,
        verdict_on(facts, now) == CaVerdict::Replace <==> facts.is_ca && (now < facts.not_before || now > facts.not_after),
{
}

/// Every name that is asked for stands in the certificate, blank ones left out
/// and without white space around it; without any it is for the machine itself.
pub proof fn every_name_that_is_asked_for_is_issued(s: Seq<Seq<char>>, i: int)
    requires
        issued_names(s) is Some,
    ensures
        0 <= i < s.len() && text::trimmed(s[i]).len() > 0 ==> issued_names(s)->0.contains(san_of(text::trimmed(s[i]))),
        (forall|k: int| 0 <= k < s.len() ==> text::trimmed(#[trigger] s[k]).len() == 0) ==> issued_names(s)->0 == seq![
            SanModel::Dns("localhost"@),
        ],
{
    if 0 <= i < s.len() && text::trimmed(s[i]).len() > 0 {
        lemma_sans_of(s, i);
    }
    if forall|k: int| 0 <= k < s.len() ==> text::trimmed(#[trigger] s[k]).len() == 0 {
        lemma_blank_sans(s);
    }
}

proof fn lemma_sans_of(s: Seq<Seq<char>>, i: int)
    requires
        sans_of(s) is Some,
        0 <= i < s.len(),
        text::trimmed(s[i]).len() > 0,
    ensures
        sans_of(s)->0.contains(san_of(text::trimmed(s[i]))),
    decreases s.len(),
{
    let t = s.drop_last();
    let a = sans_of(t)->0;
    let b = sans_of(s)->0;
    if i < t.len() {
        assert(t[i] == s[i]);
        lemma_sans_of(t, i);
        let k = choose|k: int| 0 <= k < a.len() && a[k] == san_of(text::trimmed(s[i]));
        assert(b[k] == a[k]);
    } else {
        assert(b[b.len() - 1] == san_of(text::trimmed(s[i])));
    }
}

proof fn lemma_blank_sans(s: Seq<Seq<char>>)
    requires
        forall|k: int| 0 <= k < s.len() ==> text::trimmed(#[trigger] s[k]).len() == 0,
    ensures
        sans_of(s) == Some(Seq::<SanModel>::empty()),
    decreases s.len(),
{
    if s.len() > 0 {
        let t = s.drop_last();
        assert forall|k: int| 0 <= k < t.len() implies text::trimmed(#[trigger] t[k]).len() == 0 by {
            assert(t[k] == s[k]);
        }
        lemma_blank_sans(t);
        assert(text::trimmed(s[s.len() - 1]).len() == 0);
    }
}

/// A leaf is for a TLS server, is no authority, is valid now, and lasts so many
/// days, at least one.
pub proof fn a_leaf_is_for_a_server_and_valid_now(names: Seq<SanModel>, common_name: Seq<char>, days: u32, now: i64)
    requires
        3600 <= now,
        now + (days + 1) * 86400 <= i64::MAX,
    ensures
        ({
            let p = leaf_profile(names, common_name, days, now);
            &&& p.names == names
            &&& p.common_name == common_name
            &&& p.server && !p.authority
            &&& p.usages.contains(Usage::DigitalSignature) && p.usages.contains(Usage::KeyEncipherment)
            &&& !p.usages.contains(Usage::KeyCertSign)
            &&& p.not_before <= now < p.not_after
            &&& days > 0 ==> p.not_after == now + days * 86400
            &&& days == 0 ==> p.not_after == now + 86400
        }),
{
    let p = leaf_profile(names, common_name, days, now);
    assert(p.usages[0] == Usage::DigitalSignature && p.usages[1] == Usage::KeyEncipherment);
}

/// An authority that is created may sign certificates, and is valid now.
pub proof fn a_created_authority_may_sign(now: i64)
    requires
        86400 <= now <= utc::MAX_SECONDS - 3650 * 86400,
    ensures
        ca_profile(now).authority,
        ca_profile(now).usages.contains(Usage::KeyCertSign),
        ca_profile(now).not_before <= now < ca_profile(now).not_after,
{
    assert(ca_profile(now).usages[0] == Usage::KeyCertSign);
}

/// A chain that was extended holds nothing but itself and the authority's
/// certificates, and none of these twice.
pub proof fn an_extended_chain_holds_nothing_else(chain: Seq<Seq<u8>>, more: Seq<Seq<u8>>, i: int, j: int)
    requires
        0 <= i < extended(chain, more).len(),
    ensures
        chain.contains(extended(chain, more)[i]) || more.contains(extended(chain, more)[i]),
        chain.len() <= j < i ==> extended(chain, more)[i] != extended(chain, more)[j],
    decreases more.len(),
{
    let e = extended(chain, more);
    if more.len() == 0 {
        assert(chain[i] == e[i]);
    } else {
        let t = more.drop_last();
        let d = extended(chain, t);
        if i < d.len() {
            an_extended_chain_holds_nothing_else(chain, t, i, j);
            if t.contains(d[i]) {
                let k = choose|k: int| 0 <= k < t.len() && t[k] == d[i];
                assert(more[k] == e[i]);
            }
        } else {
            assert(more[more.len() - 1] == e[i]);
            if chain.len() <= j < i {
                assert(d.contains(d[j]));
            }
        }
    }
}

/// Names can be issued exactly if every entry that is not blank is an address or
/// ASCII; each of these then is a name, in order.
pub proof fn every_entry_that_can_be_a_name_is_one(s: Seq<Seq<char>>)
    ensures
        sans_of(s) is Some <==> forall|i: int|
            0 <= i < s.len() && text::trimmed(#[trigger] s[i]).len() > 0 ==> net::octets_of(text::trimmed(s[i])) is Some
                || is_ascii(text::trimmed(s[i])),
        sans_of(s) is Some ==> sans_of(s)->0.len() <= s.len(),
        sans_of(s) is Some && (forall|i: int| 0 <= i < s.len() ==> text::trimmed(#[trigger] s[i]).len() > 0)
            ==> sans_of(s)->0.len() == s.len() && forall|i: int|
            0 <= i < s.len() ==> #[trigger] sans_of(s)->0[i] == match net::octets_of(text::trimmed(s[i])) {
                Some(b) => SanModel::Ip(b),
                None => SanModel::Dns(text::trimmed(s[i])),
            },
    decreases s.len(),
{
    if s.len() > 0 {
        let t = s.drop_last();
        every_entry_that_can_be_a_name_is_one(t);
        assert forall|i: int| 0 <= i < t.len() implies t[i] == s[i] by {}
        assert(s[s.len() - 1] == s.last());
        if sans_of(s) is Some {
            assert forall|i: int| 0 <= i < s.len() && text::trimmed(#[trigger] s[i]).len() > 0 implies net::octets_of(
                text::trimmed(s[i]),
            ) is Some || is_ascii(text::trimmed(s[i])) by {
                if i < t.len() {
                    assert(t[i] == s[i]);
                }
            }
        }
        if forall|i: int|
            0 <= i < s.len() && text::trimmed(#[trigger] s[i]).len() > 0 ==> net::octets_of(text::trimmed(s[i])) is Some
                || is_ascii(text::trimmed(s[i])) {
            assert forall|i: int| 0 <= i < t.len() && text::trimmed(#[trigger] t[i]).len() > 0 implies net::octets_of(
                text::trimmed(t[i]),
            ) is Some || is_ascii(text::trimmed(t[i])) by {
                assert(t[i] == s[i]);
            }
        }
        if sans_of(s) is Some && (forall|i: int| 0 <= i < s.len() ==> text::trimmed(#[trigger] s[i]).len() > 0) {
            assert forall|i: int| 0 <= i < t.len() implies text::trimmed(#[trigger] t[i]).len() > 0 by {
                assert(t[i] == s[i]);
            }
            let a = sans_of(t)->0;
            let b = sans_of(s)->0;
            assert forall|i: int| 0 <= i < s.len() implies #[trigger] b[i] == (match net::octets_of(text::trimmed(s[i])) {
                Some(x) => SanModel::Ip(x),
                None => SanModel::Dns(text::trimmed(s[i])),
            }) by {
                if i < t.len() {
                    assert(b[i] == a[i]);
                    assert(t[i] == s[i]);
                }
            }
        }
    }
}

} // verus!
