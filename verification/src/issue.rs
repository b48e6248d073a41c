//! Making certificates: the parameters of one are put together field by field,
//! then it is signed. Times are seconds since the Unix epoch.
use vstd::prelude::*;
use rcgen::{BasicConstraints, CertificateParams, CustomExtension, DnType, ExtendedKeyUsagePurpose, IsCa, Issuer, KeyPair, KeyUsagePurpose};
use time::OffsetDateTime;
use crate::certificate;
use crate::certificate::{SanModel, SanType};
use crate::text;
use crate::utc;
use crate::x509;

verus! {

/// What a key may be used for.
#[derive(Debug, Clone, Copy, PartialEq, Eq, Structural)]
pub enum Usage {
    DigitalSignature,
    KeyEncipherment,
    KeyCertSign,
    CrlSign,
}

/// What the parameters of a certificate say.
pub struct Profile {
    pub names: Seq<SanModel>,
    /// The subject's common name.
    pub common_name: Seq<char>,
    pub authority: bool,
    pub usages: Seq<Usage>,
    /// Whether the key is for TLS servers.
    pub server: bool,
    /// The object identifier and the content of a critical extension.
    pub extension: Option<(Seq<u64>, Seq<u8>)>,
    pub not_before: i64,
    pub not_after: i64,
}

#[verifier::external_type_specification]
#[verifier::external_body]
pub struct ExCertificateParams(rcgen::CertificateParams);

/// What the parameters hold.
pub uninterp spec fn profile_of(params: CertificateParams) -> Profile;

/// Whether a name can stand in a certificate: a DNS name is ASCII, and an
/// address has four or sixteen octets.
pub open spec fn is_sayable(name: SanModel) -> bool {
    match name {
        SanModel::Dns(s) => certificate::is_ascii(s),
        SanModel::Ip(b) => b.len() == 4 || b.len() == 16,
    }
}

/// Whether all names can stand in a certificate.
pub open spec fn all_sayable(names: Seq<SanModel>) -> bool {
    forall|i: int| 0 <= i < names.len() ==> is_sayable(#[trigger] names[i])
}

/// The common name of parameters in which none was set.
pub const DEFAULT_COMMON_NAME: &'static str = "rcgen self signed cert";

/// `rcgen::CertificateParams::default` and its fields `not_before` and
/// `not_after`: parameters with this validity, the default common name, and
/// nothing else set. Nothing if a time is out of range.
#[verifier::external_body]
fn valid_for(not_before: i64, not_after: i64) -> (r: Option<CertificateParams>)
    ensures
        r is Some == (utc::MIN_SECONDS <= not_before <= utc::MAX_SECONDS && utc::MIN_SECONDS <= not_after
            <= utc::MAX_SECONDS),
        r is Some ==> profile_of(r->0) == (Profile {
            names: seq![],
            common_name: DEFAULT_COMMON_NAME@,
            authority: false,
            usages: seq![],
            server: false,
            extension: None,
            not_before,
            not_after,
        }),
{
    let mut params = CertificateParams::default();
    params.not_before = OffsetDateTime::from_unix_timestamp(not_before).ok()?;
    params.not_after = OffsetDateTime::from_unix_timestamp(not_after).ok()?;
    Some(params)
}

/// The field `subject_alt_names` of `rcgen::CertificateParams`: these names.
/// The parameters stay as they are if a name cannot stand in a certificate.
#[verifier::external_body]
fn set_names(params: &mut CertificateParams, names: &Vec<SanType>) -> (r: bool)
    ensures
        r == all_sayable(certificate::san_models(names@)),
        profile_of(*final(params)) == if r {
            Profile { names: certificate::san_models(names@), ..profile_of(*old(params)) }
        } else {
            profile_of(*old(params))
        },
{
    let address = rcgen::SanType::IpAddress;
    let all = names.iter().map(|name| match name {
        SanType::DnsName(text) => text.clone().try_into().ok().map(rcgen::SanType::DnsName),
        SanType::IpAddress(octets) => match <[u8; 4]>::try_from(octets.as_slice()) {
            Ok(v4) => Some(address(v4.into())),
            Err(_) => <[u8; 16]>::try_from(octets.as_slice()).ok().map(|v6| address(v6.into())),
        },
    });
    let Some(all) = all.collect() else { return false };
    params.subject_alt_names = all;
    true
}

/// Parameters with these names and this validity, the default common name, and
/// nothing else set. There are none if a name cannot stand in a certificate or
/// a time is out of range.
pub fn parameters(names: &Vec<SanType>, not_before: i64, not_after: i64) -> (r: Option<CertificateParams>)
    ensures
        r is Some <==> all_sayable(certificate::san_models(names@)) && utc::MIN_SECONDS <= not_before
            <= utc::MAX_SECONDS && utc::MIN_SECONDS <= not_after <= utc::MAX_SECONDS,
        r is Some ==> profile_of(r->0) == (Profile {
            names: certificate::san_models(names@),
            common_name: DEFAULT_COMMON_NAME@,
            authority: false,
            usages: seq![],
            server: false,
            extension: None,
            not_before,
            not_after,
        }),
{
    let mut params = match valid_for(not_before, not_after) {
        Some(params) => params,
        None => return None,
    };
    if set_names(&mut params, names) {
        Some(params)
    } else {
        None
    }
}

/// `rcgen::DistinguishedName::push` with a common name.
#[verifier::external_body]
pub(crate) fn set_common_name(params: &mut CertificateParams, common_name: &str)
    ensures
        profile_of(*final(params)) == (Profile { common_name: common_name@, ..profile_of(*old(params)) }),
{
    params.distinguished_name.push(DnType::CommonName, common_name);
}

/// The field `is_ca` of `rcgen::CertificateParams`: an authority without a
/// bound on the length of its chains.
#[verifier::external_body]
pub(crate) fn set_authority(params: &mut CertificateParams)
    ensures
        profile_of(*final(params)) == (Profile { authority: true, ..profile_of(*old(params)) }),
{
    params.is_ca = IsCa::Ca(BasicConstraints::Unconstrained);
}

/// The field `key_usages` of `rcgen::CertificateParams`.
#[verifier::external_body]
pub(crate) fn set_usages(params: &mut CertificateParams, usages: &Vec<Usage>)
    ensures
        profile_of(*final(params)) == (Profile { usages: usages@, ..profile_of(*old(params)) }),
{
    params.key_usages = usages.iter().map(|usage| match usage {
        Usage::DigitalSignature => KeyUsagePurpose::DigitalSignature,
        Usage::KeyEncipherment => KeyUsagePurpose::KeyEncipherment,
        Usage::KeyCertSign => KeyUsagePurpose::KeyCertSign,
        Usage::CrlSign => KeyUsagePurpose::CrlSign,
    }).collect();
}

/// The field `extended_key_usages` of `rcgen::CertificateParams`: TLS servers.
#[verifier::external_body]
pub(crate) fn set_server(params: &mut CertificateParams)
    ensures
        profile_of(*final(params)) == (Profile { server: true, ..profile_of(*old(params)) }),
{
    params.extended_key_usages = vec![ExtendedKeyUsagePurpose::ServerAuth];
}

/// `rcgen::CustomExtension::from_oid_content` and `set_criticality`: a
/// critical extension in place of any other. The first two components of an
/// object identifier are bounded.
#[verifier::external_body]
pub(crate) fn set_extension(params: &mut CertificateParams, oid: &[u64], content: Vec<u8>)
    requires
        oid@.len() >= 2,
        oid@[0] < 2,
        oid@[1] < 40,
    ensures
        profile_of(*final(params)) == (Profile { extension: Some((oid@, content@)), ..profile_of(*old(params)) }),
{
    let mut extension = CustomExtension::from_oid_content(oid, content);
    extension.set_criticality(true);
    params.custom_extensions = vec![extension];
}

/// A certificate that was made, and the key that was made for it.
#[derive(Debug)]
pub struct Issued {
    pub der: Vec<u8>,
    pub cert_pem: String,
    pub key_pem: String,
}

/// A name as a certificate shows it.
pub open spec fn shown_name(n: SanModel) -> x509::NameModel {
    match n {
        SanModel::Dns(s) => x509::NameModel::Dns(s),
        SanModel::Ip(b) => x509::NameModel::Ip(b),
    }
}

/// The alternative names of a certificate with these names.
pub open spec fn shown_names(names: Seq<SanModel>) -> Option<Seq<x509::NameModel>> {
    if names.len() == 0 {
        None
    } else {
        Some(names.map_values(|n: SanModel| shown_name(n)))
    }
}

/// What a certificate with these parameters says of its holder.
pub open spec fn shown_holder(p: Profile) -> x509::HolderModel {
    x509::HolderModel {
        common_name: p.common_name,
        digital_signature: p.usages.contains(Usage::DigitalSignature),
        key_encipherment: p.usages.contains(Usage::KeyEncipherment),
        key_cert_sign: p.usages.contains(Usage::KeyCertSign),
        crl_sign: p.usages.contains(Usage::CrlSign),
        server: p.server,
    }
}

/// Whether a certificate says what the parameters say: its validity, its
/// names, whether it is an authority, who holds it and what for, and the
/// critical extension that was set.
pub open spec fn fits(c: Issued, p: Profile) -> bool {
    &&& x509::first_certificate_of(vstd::utf8::encode_utf8(c.cert_pem@)) == Some(c.der@)
    &&& x509::facts_of(c.der@) matches Some(f) && f.0 == p.not_before && f.1 == p.not_after
    &&& x509::alternative_names_of(c.der@) == Some(shown_names(p.names))
    &&& x509::authority_of(c.der@) matches Some(a) && a.0 == p.authority
    &&& x509::holder_of(c.der@) == Some(shown_holder(p))
    &&& p.extension matches Some(e) ==> x509::extension_of(c.der@, e.0) == Some((true, e.1))
}

/// Whether a certificate in PEM is signed with its own key, which is the one in
/// PEM.
pub open spec fn can_sign(cert_pem: Seq<char>, key_pem: Seq<char>) -> bool {
    x509::section_of(vstd::utf8::encode_utf8(cert_pem)) matches Some(der) && x509::signed_by(der, der) && (x509::authority_of(
        der,
    ) matches Some(a) && x509::public_key_of(key_pem) == Some(a.1))
}

/// `rcgen::KeyPair::generate` and `CertificateParams::self_signed`: a
/// certificate with these parameters for a fresh key, signed with that key, so
/// that its signature can be checked with its own public key. The key depends
/// on chance.
#[verifier::external_body]
pub(crate) fn self_signed(params: &CertificateParams) -> (r: Option<Issued>)
    requires
        0 <= profile_of(*params).not_before <= utc::MAX_SECONDS,
        0 <= profile_of(*params).not_after <= utc::MAX_SECONDS,
    ensures
        r is Some ==> fits(r->0, profile_of(*params)),
        r is Some ==> x509::section_of(vstd::utf8::encode_utf8(r->0.cert_pem@)) == Some(r->0.der@),
        r is Some ==> can_sign(r->0.cert_pem@, r->0.key_pem@),
{
    let key = KeyPair::generate().ok()?;
    let cert = params.self_signed(&key).ok()?;
    Some(Issued { der: cert.der().to_vec(), cert_pem: cert.pem(), key_pem: key.serialize_pem() })
}

/// `rcgen::KeyPair::generate`, `Issuer::from_ca_cert_pem` and
/// `CertificateParams::signed_by`: a certificate with these parameters for a
/// fresh key, signed with the authority's key. Where that is the key of the
/// authority's certificate, and that certificate's own signature can be checked
/// with it, so can the signature of this one. The key depends on chance; the
/// name of the issuer is not stated. Nothing if the authority cannot be read.
#[verifier::external_body]
pub(crate) fn signed_by(params: &CertificateParams, ca_cert_pem: &str, ca_key_pem: &str) -> (r: Option<Issued>)
    requires
        0 <= profile_of(*params).not_before <= utc::MAX_SECONDS,
        0 <= profile_of(*params).not_after <= utc::MAX_SECONDS,
    ensures
        r is Some ==> fits(r->0, profile_of(*params)),
        r is Some && can_sign(ca_cert_pem@, ca_key_pem@) ==> x509::signed_by(
            r->0.der@,
            x509::section_of(vstd::utf8::encode_utf8(ca_cert_pem@))->0,
        ),
{
    let key = KeyPair::generate().ok()?;
    let ca_key = KeyPair::from_pem(ca_key_pem).ok()?;
    let issuer = Issuer::from_ca_cert_pem(ca_cert_pem, ca_key).ok()?;
    let cert = params.signed_by(&key, &issuer).ok()?;
    Some(Issued { der: cert.der().to_vec(), cert_pem: cert.pem(), key_pem: key.serialize_pem() })
}

/// `rcgen::generate_simple_self_signed`: a certificate for these names and a
/// fresh key, signed with that key, so that its signature can be checked with
/// its own public key. A name that reads as an address is one, and any other
/// has to be ASCII. The key depends on chance; the validity is not stated.
#[verifier::external_body]
pub(crate) fn simple_self_signed(names: &Vec<String>) -> (r: Option<Issued>)
    requires
        names@.len() > 0,
    ensures
        r is Some ==> all_sayable(certificate::named(text::views(names@))),
        r matches Some(c) ==> {
            &&& x509::first_certificate_of(vstd::utf8::encode_utf8(c.cert_pem@)) == Some(c.der@)
            &&& x509::section_of(vstd::utf8::encode_utf8(c.cert_pem@)) == Some(c.der@)
            &&& can_sign(c.cert_pem@, c.key_pem@)
            &&& x509::alternative_names_of(c.der@) == Some(
                shown_names(certificate::named(text::views(names@))),
            )
            &&& forall|i: int|
                0 <= i < names@.len() ==> ((#[trigger] certificate::named(text::views(names@))[i]) is Ip
                    ==> crate::net::may_be_address(names@[i]@))
        },
{
    let made = rcgen::generate_simple_self_signed(names.clone()).ok()?;
    Some(Issued { der: made.cert.der().to_vec(), cert_pem: made.cert.pem(), key_pem: made.signing_key.serialize_pem() })
}

} // verus!
