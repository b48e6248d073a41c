//! The records of certificate management. Times are seconds since the Unix
//! epoch.
use vstd::prelude::*;
use crate::text;

verus! {

#[derive(Debug, Clone)]
pub struct ControlPlaneConfig {
    pub hostname: String,
    pub self_ips: Vec<String>,
    pub public_resolvers: Vec<String>,
    pub require_all_resolvers: bool,
    pub provider_id: String,
}

/// Nothing configured.
impl Default for ControlPlaneConfig {
    fn default() -> (r: ControlPlaneConfig)
        ensures
            r.hostname@ == ""@,
            r.self_ips@.len() == 0,
            r.public_resolvers@.len() == 0,
            !r.require_all_resolvers,
            r.provider_id@ == ""@,
    {
        ControlPlaneConfig {
            hostname: text::owned(""),
            self_ips: Vec::new(),
            public_resolvers: Vec::new(),
            require_all_resolvers: false,
            provider_id: text::owned(""),
        }
    }
}

/// The resolvers that are asked where none are configured.
pub fn default_public_resolvers() -> (r: Vec<String>)
    ensures
        text::views(r@) == seq!["1.1.1.1"@, "8.8.8.8"@],
{
    let mut r: Vec<String> = Vec::new();
    r.push(text::owned("1.1.1.1"));
    r.push(text::owned("8.8.8.8"));
    assert(text::views(r@) =~= seq!["1.1.1.1"@, "8.8.8.8"@]);
    r
}

#[derive(Debug, Clone, Copy, PartialEq, Eq, Structural)]
pub struct AcmeSettings {
    pub renew_before_days: u16,
    pub scan_interval_hours: u16,
    pub challenge_ttl_seconds: u16,
}

impl Default for AcmeSettings {
    fn default() -> (r: AcmeSettings)
        ensures
            r.renew_before_days == 15,
            r.scan_interval_hours == 12,
            r.challenge_ttl_seconds == 600,
    {
        AcmeSettings { renew_before_days: 15, scan_interval_hours: 12, challenge_ttl_seconds: 600 }
    }
}

#[derive(Debug, Clone, Default)]
pub struct AcmeProvider {
    pub id: String,
    pub name: String,
    pub directory_url: String,
    pub contacts: Vec<String>,
    pub eab_key_id: Option<String>,
    pub eab_hmac_key: Option<String>,
    pub staging: bool,
    pub is_default: bool,
    /// Optional PEM root used only for private/local ACME directories such as Pebble.
    pub directory_ca_pem: Option<String>,
}

/// Opaque ACME library credentials, as JSON text. These values contain private
/// account key material and must never be returned by administrative list
/// APIs.
#[derive(Debug, Clone, Default)]
pub struct StoredAcmeAccount {
    pub provider_id: String,
    pub credentials: String,
    pub updated_at: Option<i64>,
}

#[derive(Debug, Clone, Copy, Default, PartialEq, Eq, Structural)]
pub struct PublishPolicy {
    pub enabled: bool,
    pub allow_private_key: bool,
}

#[derive(Debug, Clone)]
pub struct ManagedCertificate {
    pub id: String,
    pub domains: Vec<String>,
    pub provider_id: String,
    pub enabled: bool,
    /// Created from a TLS-terminating host route and retained while in use.
    pub automatic: bool,
    pub publish: PublishPolicy,
    pub created_at: Option<i64>,
    pub updated_at: Option<i64>,
}

impl Default for ManagedCertificate {
    fn default() -> (r: ManagedCertificate)
        ensures
            r.id@ == ""@,
            r.domains@.len() == 0,
            r.provider_id@ == ""@,
            r.enabled,
            !r.automatic,
            !r.publish.enabled,
            !r.publish.allow_private_key,
            r.created_at is None,
            r.updated_at is None,
    {
        ManagedCertificate {
            id: text::owned(""),
            domains: Vec::new(),
            provider_id: text::owned(""),
            enabled: true,
            automatic: false,
            publish: PublishPolicy { enabled: false, allow_private_key: false },
            created_at: None,
            updated_at: None,
        }
    }
}

#[derive(Debug, Clone, Default)]
pub struct CertificateGeneration {
    pub id: String,
    pub certificate_id: String,
    pub certificate_pem: String,
    pub chain_pem: String,
    pub private_key_pem: String,
    pub fingerprint_sha256: String,
    pub not_before: Option<i64>,
    pub not_after: Option<i64>,
    pub issued_at: Option<i64>,
}

/// A certificate followed by its chain, if there is one, and a line end.
pub open spec fn full_chain(certificate: Seq<char>, chain: Seq<char>) -> Seq<char> {
    if text::trimmed(chain).len() > 0 {
        text::trimmed_end(certificate) + "\n"@ + text::trimmed(chain) + "\n"@
    } else {
        text::trimmed_end(certificate) + "\n"@
    }
}

impl CertificateGeneration {
    pub fn fullchain_pem(&self) -> (r: String)
        ensures
            r@ == full_chain(self.certificate_pem@, self.chain_pem@),
    {
        let certificate = text::chars_of(self.certificate_pem.as_str());
        let chain = text::chars_of(self.chain_pem.as_str());
        let mut value = text::string_of(text::trim_end(certificate.as_slice()));
        let rest = text::trim(chain.as_slice());
        if rest.len() > 0 {
            value.push_str("\n");
            text::push_chars(&mut value, rest);
        }
        value.push_str("\n");
        value
    }
}

#[derive(Debug, Clone, Default)]
pub struct RenewalState {
    pub certificate_id: String,
    pub last_attempt: Option<i64>,
    pub last_success: Option<i64>,
    pub next_attempt: Option<i64>,
    /// A server-provided retry deadline. Unlike a local retry gate, an
    /// administrator-triggered scan must not clear this value early.
    pub ca_retry_after: Option<i64>,
    pub consecutive_failures: u32,
    pub last_error: Option<String>,
    /// RFC 9773 suggested renewal instant selected from the CA window.
    pub ari_suggested_at: Option<i64>,
    pub ari_explanation_url: Option<String>,
    pub ari_checked_at: Option<i64>,
    pub ari_next_check: Option<i64>,
}

#[derive(Debug, Clone, Default)]
pub struct RetrievalToken {
    pub id: String,
    pub label: String,
    /// SHA-256 of the bearer value, used for constant-time authentication.
    pub token_hash: String,
    /// Recoverable bearer value. This is intentionally persisted so an
    /// administrator can copy an existing retrieval token again.
    pub bearer_token: String,
    /// Empty means every published managed certificate.
    pub certificate_ids: Vec<String>,
    pub allow_private_key: bool,
    pub created_at: Option<i64>,
    pub expires_at: Option<i64>,
    pub disabled: bool,
}

#[derive(Debug, Clone, Default)]
pub struct DnsDiagnostic {
    pub certificate_id: String,
    pub domain: String,
    pub resolver: String,
    pub addresses: Vec<String>,
    pub passed: bool,
    pub error: Option<String>,
    pub checked_at: Option<i64>,
}

} // verus!
