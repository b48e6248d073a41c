//! Changes to the configuration, to listeners, providers and certificates.
use vstd::prelude::*;
use crate::acme_challenge;
use crate::acme_types::{AcmeProvider, ManagedCertificate};
use crate::forward::health;
use crate::runtime_config::DEFAULT_LISTENER_NAME;
use crate::text;

verus! {

/// What an operation on a listener comes to.
#[derive(Debug)]
pub enum ListenerOperation {
    /// There is no such listener.
    NotFound,
    /// The mandatory listener is always running.
    AlwaysRunning,
    /// The mandatory listener cannot be stopped.
    CannotStop,
    /// These are the listeners that are disabled from now on.
    SetDisabled(Vec<String>),
    /// A stopped listener is started, not restarted.
    Stopped,
    /// The listener is cycled in place; nothing is saved.
    Restart,
    /// There is no such operation.
    Unknown,
}

/// Whether a name is that of the mandatory listener.
pub open spec fn is_mandatory(listener: Seq<char>) -> bool {
    listener == "__default__"@ || listener == DEFAULT_LISTENER_NAME@
}

/// The names without one.
pub open spec fn without(names: Seq<Seq<char>>, name: Seq<char>) -> Seq<Seq<char>>
    decreases names.len(),
{
    if names.len() == 0 {
        seq![]
    } else if names.last() == name {
        without(names.drop_last(), name)
    } else {
        without(names.drop_last(), name).push(names.last())
    }
}

/// The names with one.
pub open spec fn with(names: Seq<Seq<char>>, name: Seq<char>) -> Seq<Seq<char>> {
    if names.contains(name) {
        names
    } else {
        names.push(name)
    }
}

fn names_without(names: &Vec<String>, name: &str) -> (r: Vec<String>)
    ensures
        text::views(r@) == without(text::views(names@), name@),
{
    let ghost all = text::views(names@);
    let mut out: Vec<String> = Vec::new();
    assert(text::views(out@) =~= seq![]);
    let mut i: usize = 0;
    while i < names.len()
        invariant
            i <= names@.len(),
            all == text::views(names@),
            text::views(out@) == without(all.take(i as int), name@),
        decreases names@.len() - i,
    {
        assert(all.take(i + 1).drop_last() =~= all.take(i as int));
        assert(all.take(i + 1).last() == names@[i as int]@);
        if !text::str_eq(names[i].as_str(), name) {
            let ghost o0 = text::views(out@);
            out.push(names[i].clone());
            assert(text::views(out@) =~= o0.push(all[i as int]));
        }
        i = i + 1;
    }
    assert(all.take(i as int) =~= all);
    out
}

fn names_with(names: &Vec<String>, name: &str) -> (r: Vec<String>)
    ensures
        text::views(r@) == with(text::views(names@), name@),
{
    let held = health::holds_name(names, name);
    let ghost all = text::views(names@);
    let mut out: Vec<String> = Vec::new();
    let mut i: usize = 0;
    while i < names.len()
        invariant
            i <= names@.len(),
            all == text::views(names@),
            out@.len() == i,
            forall|k: int| 0 <= k < i ==> (#[trigger] out@[k])@ == all[k],
        decreases names@.len() - i,
    {
        out.push(names[i].clone());
        i = i + 1;
    }
    assert(text::views(out@) =~= all);
    if !held {
        out.push(text::owned(name));
        assert(text::views(out@) =~= all.push(name@));
    }
    out
}

/// Decides on an operation. `known` are the additional listeners, `disabled`
/// those that are stopped.
pub fn listener_operation(listener: &str, operation: &str, known: &Vec<String>, disabled: &Vec<String>) -> (r:
    ListenerOperation)
    ensures
        ({
            let mandatory = is_mandatory(listener@);
            let off = text::views(disabled@);
            if !mandatory && !text::views(known@).contains(listener@) {
                r is NotFound
            } else if operation@ == "start"@ {
                if mandatory {
                    r is AlwaysRunning
                } else {
                    r matches ListenerOperation::SetDisabled(d) && text::views(d@) == without(off, listener@)
                }
            } else if operation@ == "stop"@ {
                if mandatory {
                    r is CannotStop
                } else {
                    r matches ListenerOperation::SetDisabled(d) && text::views(d@) == with(off, listener@)
                }
            } else if operation@ == "restart"@ {
                if off.contains(listener@) {
                    r is Stopped
                } else {
                    r is Restart
                }
            } else {
                r is Unknown
            }
        }),
{
    let mandatory = text::str_eq(listener, "__default__") || text::str_eq(listener, DEFAULT_LISTENER_NAME);
    if !mandatory && !health::holds_name(known, listener) {
        return ListenerOperation::NotFound;
    }
    if text::str_eq(operation, "start") {
        if mandatory {
            return ListenerOperation::AlwaysRunning;
        }
        return ListenerOperation::SetDisabled(names_without(disabled, listener));
    }
    if text::str_eq(operation, "stop") {
        if mandatory {
            return ListenerOperation::CannotStop;
        }
        return ListenerOperation::SetDisabled(names_with(disabled, listener));
    }
    if text::str_eq(operation, "restart") {
        if health::holds_name(disabled, listener) {
            return ListenerOperation::Stopped;
        }
        return ListenerOperation::Restart;
    }
    ListenerOperation::Unknown
}

proof fn lemma_without(names: Seq<Seq<char>>, name: Seq<char>, x: Seq<char>)
    ensures
        without(names, name).contains(x) <==> names.contains(x) && x != name,
    decreases names.len(),
{
    if names.len() > 0 {
        let t = names.drop_last();
        lemma_without(t, name, x);
        let w = without(names, name);
        let v = without(t, name);
        if t.contains(x) {
            let i = choose|i: int| 0 <= i < t.len() && t[i] == x;
            assert(names[i] == x);
        }
        if v.contains(x) {
            let i = choose|i: int| 0 <= i < v.len() && v[i] == x;
            assert(w[i] == x);
        }
        if names.last() == x {
            assert(names[names.len() - 1] == x);
            if x != name {
                assert(w[w.len() - 1] == x);
            }
        }
        if names.contains(x) && names.last() != x {
            let i = choose|i: int| 0 <= i < names.len() && names[i] == x;
            assert(t[i] == x);
        }
        if w.contains(x) && !v.contains(x) {
            let i = choose|i: int| 0 <= i < w.len() && w[i] == x;
            if i < v.len() {
                assert(v[i] == x);
            }
        }
    } else {
        assert(!names.contains(x));
    }
}

/// Starting a listener undoes stopping it, and neither touches another one.
pub proof fn starting_undoes_stopping(disabled: Seq<Seq<char>>, listener: Seq<char>, other: Seq<char>)
    requires
        other != listener,
    ensures
        with(disabled, listener).contains(listener),
        !without(with(disabled, listener), listener).contains(listener),
        with(disabled, listener).contains(other) <==> disabled.contains(other),
        without(disabled, listener).contains(other) <==> disabled.contains(other),
{
    lemma_without(with(disabled, listener), listener, listener);
    lemma_without(disabled, listener, other);
    let w = with(disabled, listener);
    if !disabled.contains(listener) {
        assert(w[disabled.len() as int] == listener);
        if disabled.contains(other) {
            let i = choose|i: int| 0 <= i < disabled.len() && disabled[i] == other;
            assert(w[i] == other);
        }
        if w.contains(other) {
            let i = choose|i: int| 0 <= i < w.len() && w[i] == other;
            assert(disabled[i] == other);
        }
    }
}

/// What saving a configuration comes to.
#[derive(Debug, Clone, Copy, PartialEq, Eq, Structural)]
pub enum SaveVerdict {
    /// Nothing is configured yet.
    NotFound,
    /// Somebody else saved in between.
    RevisionChanged,
    /// The mandatory bind address is not changed.
    BindChanged,
    Invalid,
    /// The new control hostname has no managed certificate.
    NoCertificate,
    /// The certificate of the new control hostname was not issued yet.
    NotIssued,
    /// The certificate of the new control hostname cannot be used.
    Unusable,
    Save,
}

/// What is known of the certificate of a control hostname.
#[derive(Debug, Clone, Copy, PartialEq, Eq, Structural)]
pub enum HostnameCertificate {
    Missing,
    NotIssued,
    Unusable,
    Usable,
}

/// What a configuration is compared by.
#[derive(Debug)]
pub struct ConfigFacts {
    pub bind: String,
    pub control_hostname: String,
}

/// Decides on saving a configuration: it is based on the current revision,
/// keeps the mandatory bind address, is valid, and moves the control plane only
/// to a hostname with a usable certificate.
pub fn put_config(
    current: &Option<(u64, ConfigFacts)>,
    revision: u64,
    requested: &ConfigFacts,
    valid: bool,
    certificate: HostnameCertificate,
) -> (r: SaveVerdict)
    ensures
        r == match current {
            None => SaveVerdict::NotFound,
            Some((at, c)) => if *at != revision {
                SaveVerdict::RevisionChanged
            } else if requested.bind@ != c.bind@ {
                SaveVerdict::BindChanged
            } else if !valid {
                SaveVerdict::Invalid
            } else if requested.control_hostname@ == c.control_hostname@ {
                SaveVerdict::Save
            } else {
                match certificate {
                    HostnameCertificate::Missing => SaveVerdict::NoCertificate,
                    HostnameCertificate::NotIssued => SaveVerdict::NotIssued,
                    HostnameCertificate::Unusable => SaveVerdict::Unusable,
                    HostnameCertificate::Usable => SaveVerdict::Save,
                }
            },
        },
{
    let (at, c) = match current {
        Some((at, c)) => (*at, c),
        None => return SaveVerdict::NotFound,
    };
    if at != revision {
        return SaveVerdict::RevisionChanged;
    }
    if !text::str_eq(requested.bind.as_str(), c.bind.as_str()) {
        return SaveVerdict::BindChanged;
    }
    if !valid {
        return SaveVerdict::Invalid;
    }
    if text::str_eq(requested.control_hostname.as_str(), c.control_hostname.as_str()) {
        return SaveVerdict::Save;
    }
    match certificate {
        HostnameCertificate::Missing => SaveVerdict::NoCertificate,
        HostnameCertificate::NotIssued => SaveVerdict::NotIssued,
        HostnameCertificate::Unusable => SaveVerdict::Unusable,
        HostnameCertificate::Usable => SaveVerdict::Save,
    }
}

/// What going back to a revision comes to.
#[derive(Debug, Clone, Copy, PartialEq, Eq, Structural)]
pub enum RollbackVerdict {
    NotFound,
    /// The mandatory bind address is not changed by a rollback.
    BindChanged,
    /// The former control hostname has no usable certificate.
    NoCertificate,
    Save,
}

/// Decides on going back to a former revision.
pub fn rollback_config(previous: &Option<ConfigFacts>, current: &Option<ConfigFacts>, usable: bool) -> (r: RollbackVerdict)
    ensures
        r == match (previous, current) {
            (Some(p), Some(c)) => if p.bind@ != c.bind@ {
                RollbackVerdict::BindChanged
            } else if p.control_hostname@ != c.control_hostname@ && !usable {
                RollbackVerdict::NoCertificate
            } else {
                RollbackVerdict::Save
            },
            _ => RollbackVerdict::NotFound,
        },
{
    let p = match previous {
        Some(p) => p,
        None => return RollbackVerdict::NotFound,
    };
    let c = match current {
        Some(c) => c,
        None => return RollbackVerdict::NotFound,
    };
    if !text::str_eq(p.bind.as_str(), c.bind.as_str()) {
        return RollbackVerdict::BindChanged;
    }
    if !text::str_eq(p.control_hostname.as_str(), c.control_hostname.as_str()) && !usable {
        return RollbackVerdict::NoCertificate;
    }
    RollbackVerdict::Save
}

/// How a saved configuration is put into effect.
#[derive(Debug, Clone, Copy, PartialEq, Eq, Structural)]
pub enum ApplyStep {
    /// The running listeners took it over; it is the last one known to work.
    RememberAsGood,
    /// The runtime is reloaded.
    Reload,
}

/// Decides how a saved configuration is put into effect: a change to listener
/// settings alone is taken over in place, if that works.
pub fn apply_runtime_config(listener_settings_only: bool, hot_applied: bool) -> (r: ApplyStep)
    ensures
        r == if listener_settings_only && hot_applied {
            ApplyStep::RememberAsGood
        } else {
            ApplyStep::Reload
        },
{
    if listener_settings_only && hot_applied {
        ApplyStep::RememberAsGood
    } else {
        ApplyStep::Reload
    }
}

pub const PRODUCTION_PROVIDER: &'static str = "letsencrypt-production";

pub const STAGING_PROVIDER: &'static str = "letsencrypt-staging";

/// Whether a provider is built in.
pub open spec fn is_builtin(id: Seq<char>) -> bool {
    id == PRODUCTION_PROVIDER@ || id == STAGING_PROVIDER@
}

fn builtin(id: &str) -> (r: bool)
    ensures
        r == is_builtin(id@),
{
    text::str_eq(id, PRODUCTION_PROVIDER) || text::str_eq(id, STAGING_PROVIDER)
}

/// A provider as it is shown: without its secret.
#[derive(Debug)]
pub struct PublicProvider {
    pub id: String,
    pub name: String,
    pub directory_url: String,
    pub contacts: Vec<String>,
    pub eab_key_id: Option<String>,
    pub has_eab_hmac_key: bool,
    pub staging: bool,
    pub is_default: bool,
    pub builtin: bool,
    pub directory_ca_pem: Option<String>,
}

/// Shows a provider: that there is a secret, but not the secret.
pub fn public_provider(value: AcmeProvider) -> (r: PublicProvider)
    ensures
        r.id == value.id,
        r.name == value.name,
        r.directory_url == value.directory_url,
        r.contacts == value.contacts,
        r.eab_key_id == value.eab_key_id,
        r.has_eab_hmac_key == (value.eab_hmac_key is Some),
        r.staging == value.staging,
        r.is_default == value.is_default,
        r.builtin == is_builtin(value.id@),
        r.directory_ca_pem == value.directory_ca_pem,
{
    let is_built_in = builtin(value.id.as_str());
    PublicProvider {
        id: value.id,
        name: value.name,
        directory_url: value.directory_url,
        contacts: value.contacts,
        eab_key_id: value.eab_key_id,
        has_eab_hmac_key: value.eab_hmac_key.is_some(),
        staging: value.staging,
        is_default: value.is_default,
        builtin: is_built_in,
        directory_ca_pem: value.directory_ca_pem,
    }
}

/// Whether `r` is what a provider is saved as: a built-in one keeps its name
/// and directory, and a secret that is not given anew stays as it was.
pub open spec fn saved_as(r: AcmeProvider, p: AcmeProvider, existing: Option<AcmeProvider>) -> bool {
    let keep = p.eab_hmac_key is None && existing is Some;
    let ca = if is_builtin(p.id@) {
        None
    } else {
        p.directory_ca_pem
    };
    &&& r.id == p.id
    &&& r.contacts == p.contacts
    &&& r.is_default == p.is_default
    &&& r.name@ == if p.id@ == PRODUCTION_PROVIDER@ {
        "Let's Encrypt Production"@
    } else if p.id@ == STAGING_PROVIDER@ {
        "Let's Encrypt Staging"@
    } else {
        p.name@
    }
    &&& r.directory_url@ == if p.id@ == PRODUCTION_PROVIDER@ {
        "https://acme-v02.api.letsencrypt.org/directory"@
    } else if p.id@ == STAGING_PROVIDER@ {
        "https://acme-staging-v02.api.letsencrypt.org/directory"@
    } else {
        p.directory_url@
    }
    &&& r.staging == if p.id@ == PRODUCTION_PROVIDER@ {
        false
    } else if p.id@ == STAGING_PROVIDER@ {
        true
    } else {
        p.staging
    }
    &&& r.eab_hmac_key == if keep {
        (existing->0).eab_hmac_key
    } else {
        p.eab_hmac_key
    }
    &&& r.eab_key_id == if keep && p.eab_key_id is None {
        (existing->0).eab_key_id
    } else {
        p.eab_key_id
    }
    &&& r.directory_ca_pem == if keep && ca is None {
        (existing->0).directory_ca_pem
    } else {
        ca
    }
}

/// What a provider is saved as.
pub fn save_provider(provider: AcmeProvider, existing: Option<AcmeProvider>) -> (r: AcmeProvider)
    ensures
        saved_as(r, provider, existing),
{
    let mut p = provider;
    if text::str_eq(p.id.as_str(), PRODUCTION_PROVIDER) {
        p.name = text::owned("Let's Encrypt Production");
        p.directory_url = text::owned("https://acme-v02.api.letsencrypt.org/directory");
        p.staging = false;
        p.directory_ca_pem = None;
    } else if text::str_eq(p.id.as_str(), STAGING_PROVIDER) {
        p.name = text::owned("Let's Encrypt Staging");
        p.directory_url = text::owned("https://acme-staging-v02.api.letsencrypt.org/directory");
        p.staging = true;
        p.directory_ca_pem = None;
    }
    proof {
        reveal_strlit("letsencrypt-production");
        reveal_strlit("letsencrypt-staging");
    }
    if p.eab_hmac_key.is_none() {
        if let Some(e) = existing {
            p.eab_hmac_key = e.eab_hmac_key;
            if p.eab_key_id.is_none() {
                p.eab_key_id = e.eab_key_id;
            }
            if p.directory_ca_pem.is_none() {
                p.directory_ca_pem = e.directory_ca_pem;
            }
        }
    }
    p
}

/// What deleting a provider comes to.
#[derive(Debug, Clone, Copy, PartialEq, Eq, Structural)]
pub enum DeleteVerdict {
    Builtin,
    NotFound,
    /// The control plane's certificate uses it.
    UsedByControlPlane,
    /// A managed certificate uses it.
    UsedByCertificate,
    Delete,
}

/// Whether a certificate uses a provider.
pub open spec fn is_used(certificates: Seq<ManagedCertificate>, id: Seq<char>) -> bool {
    exists|i: int| 0 <= i < certificates.len() && (#[trigger] certificates[i]).provider_id@ == id
}

/// Decides on deleting a provider: one that is built in or used stays.
/// `control_provider` is the one of the control plane, if anything is
/// configured.
pub fn delete_provider(id: &str, control_provider: &Option<String>, certificates: &Vec<ManagedCertificate>) -> (r: DeleteVerdict)
    ensures
        r == if is_builtin(id@) {
            DeleteVerdict::Builtin
        } else {
            match control_provider {
                None => DeleteVerdict::NotFound,
                Some(p) => if p@ == id@ {
                    DeleteVerdict::UsedByControlPlane
                } else if is_used(certificates@, id@) {
                    DeleteVerdict::UsedByCertificate
                } else {
                    DeleteVerdict::Delete
                },
            }
        },
{
    if builtin(id) {
        return DeleteVerdict::Builtin;
    }
    match control_provider {
        None => return DeleteVerdict::NotFound,
        Some(p) => {
            if text::str_eq(p.as_str(), id) {
                return DeleteVerdict::UsedByControlPlane;
            }
        },
    }
    let mut i: usize = 0;
    while i < certificates.len()
        invariant
            i <= certificates@.len(),
            !is_builtin(id@),
            control_provider matches Some(p) && p@ != id@,
            forall|k: int| 0 <= k < i ==> (#[trigger] certificates@[k]).provider_id@ != id@,
        decreases certificates@.len() - i,
    {
        if text::str_eq(certificates[i].provider_id.as_str(), id) {
            return DeleteVerdict::UsedByCertificate;
        }
        i = i + 1;
    }
    DeleteVerdict::Delete
}

/// What a certificate is saved as by an administrator: it is no automatic one,
/// and one with a single domain is named after it.
pub fn save_certificate(certificate: ManagedCertificate) -> (r: Result<ManagedCertificate, acme_challenge::InvalidDomain>)
    ensures
        ({
            let single = certificate.domains@.len() == 1;
            let domain = acme_challenge::normalized(certificate.domains@[0]@);
            if single && domain is None {
                r is Err
            } else {
                r matches Ok(c) && {
                    &&& !c.automatic
                    &&& c.provider_id == certificate.provider_id
                    &&& c.enabled == certificate.enabled
                    &&& c.publish == certificate.publish
                    &&& c.created_at == certificate.created_at
                    &&& c.updated_at == certificate.updated_at
                    &&& single ==> c.id@ == domain->0 && text::views(c.domains@) == seq![domain->0]
                    &&& !single ==> c.id == certificate.id && c.domains == certificate.domains
                }
            }
        }),
{
    let mut c = certificate;
    c.automatic = false;
    if c.domains.len() == 1 {
        match acme_challenge::normalize_domain(c.domains[0].as_str()) {
            Ok(d) => {
                let mut one: Vec<String> = Vec::new();
                one.push(d.clone());
                assert(text::views(one@) =~= seq![d@]);
                c.id = d;
                c.domains = one;
            },
            Err(e) => return Err(e),
        }
    }
    Ok(c)
}

/// Whether an import clears what is there.
pub fn import_mode(mode: &str) -> (r: Option<bool>)
    ensures
        r == if mode@ == "merge"@ {
            Some(false)
        } else if mode@ == "clear_and_import"@ {
            Some(true)
        } else {
            None
        },
{
    if text::str_eq(mode, "merge") {
        Some(false)
    } else if text::str_eq(mode, "clear_and_import") {
        Some(true)
    } else {
        None
    }
}

/// Saving a provider keeps what was given, and a secret that was not given anew;
/// the built-in ones keep their names and addresses.
pub proof fn a_saved_provider_keeps_its_secret(r: AcmeProvider, p: AcmeProvider, old: AcmeProvider)
    requires
        saved_as(r, p, Some(old)),
    ensures
        p.eab_hmac_key is None ==> r.eab_hmac_key == old.eab_hmac_key,
        p.eab_hmac_key is Some ==> r.eab_hmac_key == p.eab_hmac_key && r.eab_key_id == p.eab_key_id,
        p.eab_key_id is Some ==> r.eab_key_id == p.eab_key_id,
        p.id@ != PRODUCTION_PROVIDER@ && p.id@ != STAGING_PROVIDER@ ==> r.name@ == p.name@ && r.directory_url@
            == p.directory_url@ && r.staging == p.staging,
        p.id@ == PRODUCTION_PROVIDER@ ==> !r.staging && r.directory_url@
            == "https://acme-v02.api.letsencrypt.org/directory"@,
        r.contacts == p.contacts && r.is_default == p.is_default,
{
}

/// A provider is in use exactly if a certificate names it, whichever one.
pub proof fn a_provider_is_used_if_a_certificate_names_it(certificates: Seq<ManagedCertificate>, id: Seq<char>, i: int)
    ensures
        0 <= i < certificates.len() && certificates[i].provider_id@ == id ==> is_used(certificates, id),
        is_used(certificates, id) ==> exists|k: int|
            0 <= k < certificates.len() && (#[trigger] certificates[k]).provider_id@ == id,
{
}

/// A valid configuration that is based on the current revision and keeps the
/// bind address is saved, and no other is: with the same hostname, or with one
/// that has a usable certificate.
pub proof fn a_valid_configuration_is_saved(
    at: u64,
    current: ConfigFacts,
    revision: u64,
    requested: ConfigFacts,
    valid: bool,
    certificate: HostnameCertificate,
    r: SaveVerdict,
)
    requires
        call_ensures(put_config, (&Some((at, current)), revision, &requested, valid, certificate), r),
    ensures
        r == SaveVerdict::Save <==> at == revision && requested.bind@ == current.bind@ && valid && (
        requested.control_hostname@ == current.control_hostname@ || certificate == HostnameCertificate::Usable),
        r == SaveVerdict::RevisionChanged <==> at != revision,
        at == revision && requested.bind@ != current.bind@ ==> r == SaveVerdict::BindChanged,
{
}

/// A former configuration comes back exactly if it has the same bind address,
/// and the same hostname or one with a usable certificate.
pub proof fn a_former_configuration_comes_back(
    previous: ConfigFacts,
    current: ConfigFacts,
    usable: bool,
    r: RollbackVerdict,
)
    requires
        call_ensures(rollback_config, (&Some(previous), &Some(current), usable), r),
    ensures
        r == RollbackVerdict::Save <==> previous.bind@ == current.bind@ && (previous.control_hostname@
            == current.control_hostname@ || usable),
        r == RollbackVerdict::BindChanged <==> previous.bind@ != current.bind@,
{
}

/// A provider goes exactly if it is not built in and neither the control plane
/// nor any certificate uses it.
pub proof fn an_unused_provider_is_deleted(
    id: &str,
    control_provider: String,
    certificates: Vec<ManagedCertificate>,
    r: DeleteVerdict,
)
    requires
        call_ensures(delete_provider, (id, &Some(control_provider), &certificates), r),
    ensures
        r == DeleteVerdict::Delete <==> id@ != PRODUCTION_PROVIDER@ && id@ != STAGING_PROVIDER@ && control_provider@
            != id@ && forall|i: int|
            0 <= i < certificates@.len() ==> (#[trigger] certificates@[i]).provider_id@ != id@,
        id@ == PRODUCTION_PROVIDER@ || id@ == STAGING_PROVIDER@ ==> r == DeleteVerdict::Builtin,
{
}

/// A known listener that is started is no longer disabled, and one that is
/// stopped is, whatever the others are; both change nothing for the others. The
/// mandatory listener is neither started nor stopped. A listener is restarted
/// exactly if it is not stopped.
pub proof fn a_listener_is_started_and_stopped(
    listener: &str,
    operation: &str,
    known: Vec<String>,
    disabled: Vec<String>,
    other: Seq<char>,
    r: ListenerOperation,
)
    requires
        call_ensures(listener_operation, (listener, operation, &known, &disabled), r),
        text::views(known@).contains(listener@),
        other != listener@,
    ensures
        !(r is NotFound),
        operation@ == "start"@ && !is_mandatory(listener@) ==> (r matches ListenerOperation::SetDisabled(d)
            && !text::views(d@).contains(listener@) && text::views(d@).contains(other) == text::views(
            disabled@,
        ).contains(other)),
        operation@ == "stop"@ && !is_mandatory(listener@) ==> (r matches ListenerOperation::SetDisabled(d)
            && text::views(d@).contains(listener@) && text::views(d@).contains(other) == text::views(
            disabled@,
        ).contains(other)),
        operation@ == "start"@ && is_mandatory(listener@) ==> r is AlwaysRunning,
        operation@ == "stop"@ && is_mandatory(listener@) ==> r is CannotStop,
        operation@ == "restart"@ ==> (r is Restart <==> !text::views(disabled@).contains(listener@)),
{
    reveal_strlit("start");
    reveal_strlit("stop");
    reveal_strlit("restart");
    assert("start"@.len() == 5 && "stop"@.len() == 4 && "restart"@.len() == 7);
    let off = text::views(disabled@);
    lemma_without(off, listener@, listener@);
    lemma_without(off, listener@, other);
    if !off.contains(listener@) {
        let on = off.push(listener@);
        assert(on[off.len() as int] == listener@);
        if off.contains(other) {
            let k = choose|k: int| 0 <= k < off.len() && off[k] == other;
            assert(on[k] == other);
        }
        if on.contains(other) {
            let k = choose|k: int| 0 <= k < on.len() && on[k] == other;
            assert(off[k] == other);
        }
    }
}

/// A certificate that an administrator saves is never an automatic one. One with
/// a single domain is known by that domain; one with several keeps its name.
pub proof fn a_saved_certificate_is_known_by_its_domain(
    certificate: ManagedCertificate,
    r: Result<ManagedCertificate, acme_challenge::InvalidDomain>,
)
    requires
        call_ensures(save_certificate, (certificate,), r),
    ensures
        certificate.domains@.len() != 1 ==> r is Ok && (r->Ok_0).id == certificate.id && (r->Ok_0).domains
            == certificate.domains,
        certificate.domains@.len() == 1 ==> (r is Ok <==> acme_challenge::normalized(
            certificate.domains@[0]@,
        ) is Some),
        certificate.domains@.len() == 1 && r is Ok ==> acme_challenge::normalized(certificate.domains@[0]@) == Some(
            (r->Ok_0).id@,
        ),
        r is Ok ==> !(r->Ok_0).automatic && (r->Ok_0).enabled == certificate.enabled && (r->Ok_0).provider_id
            == certificate.provider_id,
{
}

/// A secret of a provider is never shown, only whether there is one.
pub proof fn a_shown_provider_tells_whether_it_has_a_secret(value: AcmeProvider, r: PublicProvider)
    requires
        call_ensures(public_provider, (value,), r),
    ensures
        r.has_eab_hmac_key <==> value.eab_hmac_key is Some,
        r.builtin <==> value.id@ == PRODUCTION_PROVIDER@ || value.id@ == STAGING_PROVIDER@,
        r.id@ == value.id@,
{
}

/// A configuration is remembered as good without a reload exactly if it changed
/// nothing but listener settings and these were taken over.
pub proof fn listener_settings_are_taken_over_in_place(listener_settings_only: bool, hot_applied: bool, r: ApplyStep)
    requires
        call_ensures(apply_runtime_config, (listener_settings_only, hot_applied), r),
    ensures
        listener_settings_only && hot_applied ==> r == ApplyStep::RememberAsGood,
        !listener_settings_only || !hot_applied ==> r == ApplyStep::Reload,
{
}

/// The built-in providers are what they are: their directories cannot be changed,
/// and neither can the authorities of these; every other provider has its own.
pub proof fn a_saved_provider_has_its_directory(r: AcmeProvider, p: AcmeProvider)
    requires
        saved_as(r, p, None),
    ensures
        p.id@ == STAGING_PROVIDER@ ==> r.staging && r.directory_url@
            == "https://acme-staging-v02.api.letsencrypt.org/directory"@,
        p.id@ == PRODUCTION_PROVIDER@ || p.id@ == STAGING_PROVIDER@ ==> r.directory_ca_pem is None,
        p.id@ != PRODUCTION_PROVIDER@ && p.id@ != STAGING_PROVIDER@ ==> r.directory_ca_pem == p.directory_ca_pem
            && r.directory_url@ == p.directory_url@ && r.name@ == p.name@,
        r.eab_hmac_key == p.eab_hmac_key && r.eab_key_id == p.eab_key_id,
{
    reveal_strlit("letsencrypt-production");
    reveal_strlit("letsencrypt-staging");
    assert("letsencrypt-production"@.len() == 22 && "letsencrypt-staging"@.len() == 19);
}

} // verus!
