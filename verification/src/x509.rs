//! Certificates from outside, as functions on plain values.
use vstd::prelude::*;
use rustls::pki_types::pem::PemObject;

verus! {

/// The certificate in the first certificate section of a PEM text, if it
/// decodes.
pub uninterp spec fn first_certificate_of(pem: Seq<u8>) -> Option<Seq<u8>>;

/// `rustls::pki_types::CertificateDer::from_pem_slice`: the DER bytes in the
/// first certificate section, or nothing if there is none or it does not
/// decode.
#[verifier::external_body]
pub(crate) fn first_certificate(pem: &[u8]) -> (r: Option<Vec<u8>>)
    ensures
        match first_certificate_of(pem@) {
            Some(der) => r is Some && r->0@ == der,
            None => r is None,
        },
{
    rustls::pki_types::CertificateDer::from_pem_slice(pem).ok().map(|der| der.to_vec())
}

/// The certificates in the certificate sections of a PEM text, if all decode.
pub uninterp spec fn certificates_of(pem: Seq<u8>) -> Option<Seq<Seq<u8>>>;

pub open spec fn ders(v: Seq<Vec<u8>>) -> Seq<Seq<u8>> {
    v.map_values(|d: Vec<u8>| d@)
}

/// `rustls::pki_types::CertificateDer::pem_slice_iter`: the DER bytes in every
/// certificate section in order, or nothing if a section does not decode.
#[verifier::external_body]
pub(crate) fn certificates(pem: &[u8]) -> (r: Option<Vec<Vec<u8>>>)
    ensures
        match certificates_of(pem@) {
            Some(all) => r is Some && ders(r->0@) == all,
            None => r is None,
        },
{
    let all = rustls::pki_types::CertificateDer::pem_slice_iter(pem).collect::<Result<Vec<_>, _>>();
    all.ok().map(|certs| certs.iter().map(|der| der.to_vec()).collect())
}

/// What a certificate says: when it begins and ends to be valid, in seconds
/// since the Unix epoch, and the encoded names of its issuer and its subject.
#[derive(Debug)]
pub struct CertificateFacts {
    pub not_before: i64,
    pub not_after: i64,
    pub issuer: Vec<u8>,
    pub subject: Vec<u8>,
}

/// What the DER bytes of a certificate say, if they are one: the validity, the
/// issuer and the subject.
pub uninterp spec fn facts_of(der: Seq<u8>) -> Option<(i64, i64, Seq<u8>, Seq<u8>)>;

/// `x509_parser::parse_x509_certificate`: the validity and the names of a
/// certificate, or nothing if the bytes are none.
#[verifier::external_body]
pub(crate) fn parse_certificate(der: &[u8]) -> (r: Option<CertificateFacts>)
    ensures
        match facts_of(der@) {
            Some(f) => r is Some && (r->0.not_before, r->0.not_after, r->0.issuer@, r->0.subject@) == f,
            None => r is None,
        },
{
    let (_, parsed) = x509_parser::parse_x509_certificate(der).ok()?;
    Some(CertificateFacts {
        not_before: parsed.validity().not_before.timestamp(),
        not_after: parsed.validity().not_after.timestamp(),
        issuer: parsed.issuer().as_raw().to_vec(),
        subject: parsed.subject().as_raw().to_vec(),
    })
}

/// An alternative name of a certificate.
#[derive(Debug)]
pub enum AlternativeName {
    Dns(String),
    /// The octets of an address.
    Ip(Vec<u8>),
    Other,
}

/// What an alternative name is.
pub enum NameModel {
    Dns(Seq<char>),
    Ip(Seq<u8>),
    Other,
}

impl AlternativeName {
    pub open spec fn view(self) -> NameModel {
        match self {
            AlternativeName::Dns(s) => NameModel::Dns(s@),
            AlternativeName::Ip(b) => NameModel::Ip(b@),
            AlternativeName::Other => NameModel::Other,
        }
    }
}

/// The alternative names of a certificate: nothing if they cannot be read,
/// nothing inside if there are none.
pub uninterp spec fn alternative_names_of(der: Seq<u8>) -> Option<Option<Seq<NameModel>>>;

pub open spec fn names_of(v: Seq<AlternativeName>) -> Seq<NameModel> {
    v.map_values(|n: AlternativeName| n@)
}

/// `X509Certificate::subject_alternative_name`: the names in the extension in
/// order. Nothing if the bytes are no certificate or the extension is invalid.
#[verifier::external_body]
pub(crate) fn alternative_names(der: &[u8]) -> (r: Option<Option<Vec<AlternativeName>>>)
    ensures
        match alternative_names_of(der@) {
            Some(Some(names)) => r matches Some(Some(v)) && names_of(v@) == names,
            Some(None) => r matches Some(None),
            None => r is None,
        },
{
    let (_, parsed) = x509_parser::parse_x509_certificate(der).ok()?;
    let extension = parsed.subject_alternative_name().ok()?;
    Some(extension.map(|found| found.value.general_names.iter().map(|name| match name {
        x509_parser::extensions::GeneralName::DNSName(value) => AlternativeName::Dns(value.to_string()),
        x509_parser::extensions::GeneralName::IPAddress(octets) => AlternativeName::Ip(octets.to_vec()),
        _ => AlternativeName::Other,
    }).collect()))
}

/// Whether the extension of a certificate with an object identifier is
/// critical, and its content, if there is exactly one.
pub uninterp spec fn extension_of(der: Seq<u8>, oid: Seq<u64>) -> Option<(bool, Seq<u8>)>;

/// `X509Certificate::get_extension_unique`: whether the extension is critical,
/// and its content. Nothing if the bytes are no certificate, the numbers are no
/// object identifier, or there is not exactly one such extension.
#[verifier::external_body]
pub(crate) fn extension(der: &[u8], oid: &[u64]) -> (r: Option<(bool, Vec<u8>)>)
    ensures
        match extension_of(der@, oid@) {
            Some(e) => r matches Some((critical, content)) && (critical, content@) == e,
            None => r is None,
        },
{
    let (_, parsed) = x509_parser::parse_x509_certificate(der).ok()?;
    let wanted = x509_parser::asn1_rs::Oid::from(oid).ok()?;
    let found = parsed.get_extension_unique(&wanted).ok()??;
    Some((found.critical, found.value.to_vec()))
}

/// What a certificate says of its holder: the first common name, and what its
/// key may be used for.
#[derive(Debug)]
pub struct Holder {
    pub common_name: String,
    pub digital_signature: bool,
    pub key_encipherment: bool,
    pub key_cert_sign: bool,
    pub crl_sign: bool,
    /// Whether the key is for TLS servers.
    pub server: bool,
}

/// What a certificate says of its holder, as plain values.
pub struct HolderModel {
    pub common_name: Seq<char>,
    pub digital_signature: bool,
    pub key_encipherment: bool,
    pub key_cert_sign: bool,
    pub crl_sign: bool,
    pub server: bool,
}

impl Holder {
    pub open spec fn view(self) -> HolderModel {
        HolderModel {
            common_name: self.common_name@,
            digital_signature: self.digital_signature,
            key_encipherment: self.key_encipherment,
            key_cert_sign: self.key_cert_sign,
            crl_sign: self.crl_sign,
            server: self.server,
        }
    }
}

/// What the DER bytes of a certificate say of its holder, if they are one with
/// a common name.
pub uninterp spec fn holder_of(der: Seq<u8>) -> Option<HolderModel>;

/// `X509Certificate::subject`, `key_usage` and `extended_key_usage`: the first
/// common name and the usages, none of them where the extension is missing.
/// Nothing if the bytes are no certificate, there is no common name in a plain
/// text, or an extension is invalid.
#[verifier::external_body]
pub(crate) fn holder(der: &[u8]) -> (r: Option<Holder>)
    ensures
        match holder_of(der@) {
            Some(h) => r is Some && r->0@ == h,
            None => r is None,
        },
{
    let (_, parsed) = x509_parser::parse_x509_certificate(der).ok()?;
    let common_name = parsed.subject().iter_common_name().next()?.as_str().ok()?.to_string();
    let usage = parsed.key_usage().ok()?.map(|found| found.value);
    Some(Holder {
        common_name,
        digital_signature: usage.is_some_and(|u| u.digital_signature()),
        key_encipherment: usage.is_some_and(|u| u.key_encipherment()),
        key_cert_sign: usage.is_some_and(|u| u.key_cert_sign()),
        crl_sign: usage.is_some_and(|u| u.crl_sign()),
        server: parsed.extended_key_usage().ok()?.is_some_and(|found| found.value.server_auth),
    })
}

/// Whether a certificate carries a valid signature of another's key.
pub uninterp spec fn signed_by(child: Seq<u8>, issuer: Seq<u8>) -> bool;

/// `X509Certificate::verify_signature` with the issuer's public key: whether
/// the child's signature is the issuer's. Bytes that are no certificate are
/// neither signed nor do they sign.
#[verifier::external_body]
pub(crate) fn is_signed_by(child: &[u8], issuer: &[u8]) -> (r: bool)
    ensures
        r == signed_by(child@, issuer@),
{
    match (x509_parser::parse_x509_certificate(child), x509_parser::parse_x509_certificate(issuer)) {
        (Ok((_, c)), Ok((_, i))) => c.verify_signature(Some(i.public_key())).is_ok(),
        _ => false,
    }
}

/// Whether certificates and a private key in PEM make up a TLS identity.
pub uninterp spec fn identity_is_consistent(chain: Seq<Seq<u8>>, key_pem: Seq<u8>) -> bool;

/// `rustls::sign::CertifiedKey::from_der` and `keys_match` on the key that
/// `PrivateKeyDer::from_pem_slice` reads: whether the key can be used and is
/// the one of the first certificate.
#[verifier::external_body]
pub(crate) fn is_identity(chain: &Vec<Vec<u8>>, key_pem: &[u8]) -> (r: bool)
    ensures
        r == identity_is_consistent(ders(chain@), key_pem@),
{
    let certs = chain.iter().map(|der| rustls::pki_types::CertificateDer::from(der.clone())).collect();
    let provider = rustls::crypto::ring::default_provider();
    match rustls::pki_types::PrivateKeyDer::from_pem_slice(key_pem) {
        Ok(key) => match rustls::sign::CertifiedKey::from_der(certs, key, &provider) {
            Ok(certified) => certified.keys_match().is_ok(),
            Err(_) => false,
        },
        Err(_) => false,
    }
}

/// The contents of the first section of a PEM text, if it decodes.
pub uninterp spec fn section_of(pem: Seq<u8>) -> Option<Seq<u8>>;

/// `x509_parser::pem::parse_x509_pem`: the decoded contents of the first
/// section, or nothing if there is none or it does not decode.
#[verifier::external_body]
pub(crate) fn first_section(pem: &[u8]) -> (r: Option<Vec<u8>>)
    ensures
        match section_of(pem@) {
            Some(b) => r is Some && r->0@ == b,
            None => r is None,
        },
{
    x509_parser::pem::parse_x509_pem(pem).ok().map(|(_, section)| section.contents)
}

/// What a certificate says of its holder as an authority: whether it is one,
/// and its public key.
#[derive(Debug)]
pub struct AuthorityFacts {
    pub is_ca: bool,
    pub public_key: Vec<u8>,
}

/// Whether the DER bytes of a certificate are those of an authority, and its
/// public key, if they are a certificate.
pub uninterp spec fn authority_of(der: Seq<u8>) -> Option<(bool, Seq<u8>)>;

/// `X509Certificate::is_ca` and `public_key`, on what
/// `x509_parser::parse_x509_certificate` reads; nothing if the bytes are no
/// certificate.
#[verifier::external_body]
pub(crate) fn authority_facts(der: &[u8]) -> (r: Option<AuthorityFacts>)
    ensures
        r is Some <==> facts_of(der@) is Some,
        match authority_of(der@) {
            Some(a) => r is Some && (r->0.is_ca, r->0.public_key@) == a,
            None => r is None,
        },
{
    let (_, parsed) = x509_parser::parse_x509_certificate(der).ok()?;
    Some(AuthorityFacts {
        is_ca: parsed.is_ca(),
        public_key: parsed.public_key().subject_public_key.data.to_vec(),
    })
}

/// The public key of a private key in PEM, if it can be read.
pub uninterp spec fn public_key_of(key_pem: Seq<char>) -> Option<Seq<u8>>;

/// `rcgen::KeyPair::from_pem` and `public_key_raw`: the public key of a
/// private key, or nothing if the key cannot be read.
#[verifier::external_body]
pub(crate) fn public_key(key_pem: &str) -> (r: Option<Vec<u8>>)
    ensures
        match public_key_of(key_pem@) {
            Some(b) => r is Some && r->0@ == b,
            None => r is None,
        },
{
    rcgen::KeyPair::from_pem(key_pem).ok().map(|key| key.public_key_raw().to_vec())
}

/// The first private key in a PEM text: nothing if the text cannot be decoded
/// up to there, nothing inside if there is none.
pub uninterp spec fn private_key_of(pem: Seq<u8>) -> Option<Option<Seq<u8>>>;

/// `rustls_pemfile::private_key`: the DER bytes of the first private key.
#[verifier::external_body]
pub(crate) fn first_private_key(pem: &[u8]) -> (r: Option<Option<Vec<u8>>>)
    ensures
        match private_key_of(pem@) {
            Some(Some(der)) => r matches Some(Some(v)) && v@ == der,
            Some(None) => r matches Some(None),
            None => r is None,
        },
{
    let mut rest = pem;
    let found = rustls_pemfile::private_key(&mut rest).ok()?;
    Some(found.map(|key| key.secret_der().to_vec()))
}

} // verus!
