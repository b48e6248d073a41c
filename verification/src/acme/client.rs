//! Issuance using the TLS-ALPN-01 challenge: what an order asks for, how its
//! authorizations are answered, and what is made of the issued certificate.
use vstd::prelude::*;
use crate::acme::backend::AriSuggestion;
use crate::acme_challenge;
use crate::acme_types::{AcmeProvider, CertificateGeneration, ManagedCertificate};
use crate::crypto;
use crate::text;
use crate::x509;

verus! {

/// Why no account is created.
#[derive(Debug, Clone, Copy, PartialEq, Eq, Structural)]
pub enum AccountError {
    /// There is no directory.
    NoDirectory,
    /// The HMAC key is no base64url.
    InvalidKey,
    /// Only one half of an external account binding is there.
    HalfBinding,
}

/// The external account binding of a provider: its id and its key.
#[derive(Debug)]
pub struct ExternalBinding {
    pub key_id: String,
    pub key: Vec<u8>,
}

/// The bytes of a key in base64url, without or with padding.
pub open spec fn key_bytes(unpadded: Option<Seq<u8>>, padded: Option<Seq<u8>>) -> Option<Seq<u8>> {
    match unpadded {
        Some(b) => Some(b),
        None => padded,
    }
}

fn decode_key(value: &str) -> (r: Option<Vec<u8>>)
    ensures
        match key_bytes(crypto::base64_url_unpadded(value@), crypto::base64_url_padded(value@)) {
            Some(b) => r is Some && r->0@ == b,
            None => r is None,
        },
{
    match crypto::base64_url_unpadded_decode(value) {
        Some(b) => Some(b),
        None => crypto::base64_url_padded_decode(value),
    }
}

/// What an account is created with: nothing without a directory, and an
/// external account binding only as a whole. `key` is the decoded HMAC key.
pub fn account_binding(provider: &AcmeProvider, key: Option<Vec<u8>>) -> (r: Result<Option<ExternalBinding>, AccountError>)
    ensures
        text::trimmed(provider.directory_url@).len() == 0 ==> r == Err::<Option<ExternalBinding>, AccountError>(
            AccountError::NoDirectory,
        ),
        text::trimmed(provider.directory_url@).len() > 0 ==> match (provider.eab_key_id, provider.eab_hmac_key) {
            (Some(id), Some(_)) => match key {
                Some(k) => r matches Ok(Some(b)) && b.key_id@ == id@ && b.key@ == k@,
                None => r == Err::<Option<ExternalBinding>, AccountError>(AccountError::InvalidKey),
            },
            (None, None) => r matches Ok(None),
            _ => r == Err::<Option<ExternalBinding>, AccountError>(AccountError::HalfBinding),
        },
{
    let url = text::chars_of(provider.directory_url.as_str());
    if text::trim(url.as_slice()).len() == 0 {
        return Err(AccountError::NoDirectory);
    }
    match (&provider.eab_key_id, &provider.eab_hmac_key) {
        (Some(id), Some(_)) => match key {
            Some(k) => Ok(Some(ExternalBinding { key_id: id.clone(), key: k })),
            None => Err(AccountError::InvalidKey),
        },
        (None, None) => Ok(None),
        _ => Err(AccountError::HalfBinding),
    }
}

/// What an account of a provider is created with: its id and its key, if it
/// has a binding.
pub open spec fn binding_of(provider: AcmeProvider) -> Result<Option<(Seq<char>, Seq<u8>)>, AccountError> {
    if text::trimmed(provider.directory_url@).len() == 0 {
        Err(AccountError::NoDirectory)
    } else {
        match (provider.eab_key_id, provider.eab_hmac_key) {
            (Some(id), Some(value)) => match key_bytes(
                crypto::base64_url_unpadded(value@),
                crypto::base64_url_padded(value@),
            ) {
                Some(k) => Ok(Some((id@, k))),
                None => Err(AccountError::InvalidKey),
            },
            (None, None) => Ok(None),
            _ => Err(AccountError::HalfBinding),
        }
    }
}

pub open spec fn is_binding(b: Option<ExternalBinding>, m: Option<(Seq<char>, Seq<u8>)>) -> bool {
    match (b, m) {
        (Some(b), Some(m)) => b.key_id@ == m.0 && b.key@ == m.1,
        (None, None) => true,
        _ => false,
    }
}

/// What an account of a provider is created with.
pub fn create_account(provider: &AcmeProvider) -> (r: Result<Option<ExternalBinding>, AccountError>)
    ensures
        match binding_of(*provider) {
            Ok(b) => r matches Ok(binding) && is_binding(binding, b),
            Err(e) => r matches Err(f) && f == e,
        },
{
    let key = match &provider.eab_hmac_key {
        Some(value) => decode_key(value.as_str()),
        None => None,
    };
    account_binding(provider, key)
}

/// Why a certificate is not issued.
#[derive(Debug, Clone, Copy, PartialEq, Eq, Structural)]
pub enum IssueError {
    NoDomains,
    InvalidDomain,
    DuplicateDomains,
    /// An authorization is neither pending nor valid.
    UnexpectedStatus,
    /// The server offers no TLS-ALPN challenge.
    NoTlsAlpn,
    /// An authorization is for something that is no domain.
    UnsupportedIdentifier,
    /// The order was not created.
    NotPlaced,
    /// An authorization could not be fetched.
    NoAuthorization,
    /// The challenge certificate of a domain was not made.
    NotProvisioned,
    /// The authority was not told that a challenge is ready.
    NotAnnounced,
    /// The authorizations could not be waited for.
    NotPolled,
    /// The order did not become ready.
    NotReady,
    NotFinalized,
    NotDownloaded,
    /// The response holds no certificate.
    NoCertificate,
    /// A certificate cannot be read.
    InvalidCertificate,
    /// The chain is not ordered by issuer.
    NotOrdered,
    /// A certificate is not signed by the next one.
    InvalidSignature,
}

/// The normalized domains of a certificate, unless one of them is none.
pub open spec fn normalized_all(domains: Seq<Seq<char>>) -> Option<Seq<Seq<char>>>
    decreases domains.len(),
{
    if domains.len() == 0 {
        Some(seq![])
    } else {
        match (normalized_all(domains.drop_last()), acme_challenge::normalized(domains.last())) {
            (Some(done), Some(d)) => Some(done.push(d)),
            _ => None,
        }
    }
}

proof fn lemma_normalized_none(domains: Seq<Seq<char>>, n: int)
    requires
        0 <= n <= domains.len(),
        normalized_all(domains.take(n)) is None,
    ensures
        normalized_all(domains) is None,
    decreases domains.len() - n,
{
    if n == domains.len() {
        assert(domains.take(n) =~= domains);
    } else {
        assert(domains.take(n + 1).drop_last() =~= domains.take(n));
        lemma_normalized_none(domains, n + 1);
    }
}

/// No text occurs twice.
pub open spec fn all_distinct(s: Seq<Seq<char>>) -> bool {
    forall|i: int, j: int| 0 <= i < j < s.len() ==> #[trigger] s[i] != #[trigger] s[j]
}

/// What an order asks for, or why there is none.
pub open spec fn ordered_domains(domains: Seq<Seq<char>>) -> Result<Seq<Seq<char>>, IssueError> {
    if domains.len() == 0 {
        Err(IssueError::NoDomains)
    } else {
        match normalized_all(domains) {
            None => Err(IssueError::InvalidDomain),
            Some(d) => if all_distinct(d) {
                Ok(d)
            } else {
                Err(IssueError::DuplicateDomains)
            },
        }
    }
}

fn is_distinct(list: &Vec<String>) -> (r: bool)
    ensures
        r == all_distinct(text::views(list@)),
{
    let ghost all = text::views(list@);
    let mut j: usize = 0;
    while j < list.len()
        invariant
            j <= list@.len(),
            all == text::views(list@),
            forall|a: int, b: int| 0 <= a < b < j ==> #[trigger] all[a] != #[trigger] all[b],
        decreases list@.len() - j,
    {
        let mut i: usize = 0;
        while i < j
            invariant
                i <= j < list@.len(),
                all == text::views(list@),
                forall|a: int| 0 <= a < i ==> #[trigger] all[a] != all[j as int],
            decreases j - i,
        {
            if text::str_eq(list[i].as_str(), list[j].as_str()) {
                assert(all[i as int] == all[j as int]);
                return false;
            }
            assert(all[i as int] == list@[i as int]@ && all[j as int] == list@[j as int]@);
            i = i + 1;
        }
        j = j + 1;
    }
    true
}

/// The domains that an order for a certificate asks for, in normal form: there
/// has to be one, and none may occur twice.
pub fn order_domains(managed: &ManagedCertificate) -> (r: Result<Vec<String>, IssueError>)
    ensures
        match ordered_domains(text::views(managed.domains@)) {
            Ok(d) => r is Ok && text::views(r->Ok_0@) == d,
            Err(e) => r is Err && r->Err_0 == e,
        },
{
    if managed.domains.len() == 0 {
        return Err(IssueError::NoDomains);
    }
    let ghost all = text::views(managed.domains@);
    let mut out: Vec<String> = Vec::new();
    assert(text::views(out@) =~= seq![]);
    let mut i: usize = 0;
    while i < managed.domains.len()
        invariant
            i <= managed.domains@.len(),
            all == text::views(managed.domains@),
            all.len() > 0,
            normalized_all(all.take(i as int)) == Some(text::views(out@)),
        decreases managed.domains@.len() - i,
    {
        assert(all.take(i + 1).drop_last() =~= all.take(i as int));
        assert(all.take(i + 1).last() == managed.domains@[i as int]@);
        match acme_challenge::normalize_domain(managed.domains[i].as_str()) {
            Ok(d) => {
                let ghost o0 = text::views(out@);
                out.push(d);
                assert(text::views(out@) =~= o0.push(d@));
            },
            Err(_) => {
                proof {
                    lemma_normalized_none(all, i + 1);
                }
                return Err(IssueError::InvalidDomain);
            },
        }
        i = i + 1;
    }
    assert(all.take(i as int) =~= all);
    if !is_distinct(&out) {
        return Err(IssueError::DuplicateDomains);
    }
    Ok(out)
}

/// The state of an authorization.
#[derive(Debug, Clone, Copy, PartialEq, Eq, Structural)]
pub enum AuthorizationState {
    Valid,
    Pending,
    Other,
}

/// What an authorization takes: nothing, or the challenge certificate of a
/// domain.
pub open spec fn authorization(state: AuthorizationState, offers_tls_alpn: bool, identifier: Option<Seq<char>>) -> Result<
    Option<Seq<char>>,
    IssueError,
> {
    match state {
        AuthorizationState::Valid => Ok(None),
        AuthorizationState::Other => Err(IssueError::UnexpectedStatus),
        AuthorizationState::Pending => if !offers_tls_alpn {
            Err(IssueError::NoTlsAlpn)
        } else {
            match identifier {
                None => Err(IssueError::UnsupportedIdentifier),
                Some(d) => match acme_challenge::normalized(d) {
                    Some(n) => Ok(Some(n)),
                    None => Err(IssueError::InvalidDomain),
                },
            }
        },
    }
}

/// The text that is there, if any is.
pub open spec fn text_of(s: Option<String>) -> Option<Seq<char>> {
    match s {
        Some(t) => Some(t@),
        None => None,
    }
}

/// Decides on an authorization: a valid one needs nothing; a pending one needs
/// the challenge certificate of its domain. `identifier` is the domain that the
/// authorization is for, if it is for one.
pub fn authorize(state: AuthorizationState, offers_tls_alpn: bool, identifier: &Option<String>) -> (r: Result<
    Option<String>,
    IssueError,
>)
    ensures
        match authorization(state, offers_tls_alpn, text_of(*identifier)) {
            Ok(None) => r matches Ok(None),
            Ok(Some(d)) => r matches Ok(Some(v)) && v@ == d,
            Err(e) => r matches Err(f) && f == e,
        },
{
    match state {
        AuthorizationState::Valid => Ok(None),
        AuthorizationState::Other => Err(IssueError::UnexpectedStatus),
        AuthorizationState::Pending => {
            if !offers_tls_alpn {
                return Err(IssueError::NoTlsAlpn);
            }
            match identifier {
                None => Err(IssueError::UnsupportedIdentifier),
                Some(d) => match acme_challenge::normalize_domain(d.as_str()) {
                    Ok(n) => Ok(Some(n)),
                    Err(_) => Err(IssueError::InvalidDomain),
                },
            }
        },
    }
}

pub const BEGIN: &'static str = "-----BEGIN CERTIFICATE-----";

pub const END: &'static str = "-----END CERTIFICATE-----";

/// Where the search for certificate blocks stands: the blocks so far, the
/// lines of the block that was begun, if one was.
pub struct BlockSearch {
    pub blocks: Seq<Seq<char>>,
    pub current: Option<Seq<Seq<char>>>,
}

/// Takes in one line: a begin line starts a block anew, an end line ends it.
pub open spec fn block_step(s: BlockSearch, line: Seq<char>) -> BlockSearch {
    let begun = if text::trimmed(line) == BEGIN@ {
        Some(Seq::<Seq<char>>::empty())
    } else {
        s.current
    };
    match begun {
        None => BlockSearch { blocks: s.blocks, current: None },
        Some(lines) => if text::trimmed(line) == END@ {
            BlockSearch { blocks: s.blocks.push(text::joined(lines.push(line), "\n"@) + "\n"@), current: None }
        } else {
            BlockSearch { blocks: s.blocks, current: Some(lines.push(line)) }
        },
    }
}

pub open spec fn block_search(lines: Seq<Seq<char>>) -> BlockSearch
    decreases lines.len(),
{
    if lines.len() == 0 {
        BlockSearch { blocks: seq![], current: None }
    } else {
        block_step(block_search(lines.drop_last()), lines.last())
    }
}

/// The complete certificate blocks of a PEM text.
pub open spec fn blocks_of(pem: Seq<char>) -> Seq<Seq<char>> {
    block_search(text::text_lines(pem)).blocks
}

/// The complete certificate blocks of a PEM text, in order. What stands
/// between them, and a block without an end, is left out.
pub fn certificate_blocks(pem: &str) -> (r: Vec<String>)
    ensures
        text::views(r@) == blocks_of(pem@),
{
    let s = text::chars_of(pem);
    let lines = text::split_text_lines(s.as_slice());
    let ghost all = text::text_lines(pem@);
    let mut blocks: Vec<String> = Vec::new();
    let mut current: Vec<String> = Vec::new();
    let mut inside = false;
    assert(text::views(blocks@) =~= seq![]);
    let mut i: usize = 0;
    while i < lines.len()
        invariant
            i <= lines@.len(),
            all == text::text_lines(pem@),
            lines@.len() == all.len(),
            forall|k: int| 0 <= k < lines@.len() ==> (#[trigger] lines@[k])@ == all[k],
            block_search(all.take(i as int)).blocks == text::views(blocks@),
            block_search(all.take(i as int)).current == if inside {
                Some(text::views(current@))
            } else {
                None
            },
        decreases lines@.len() - i,
    {
        assert(all.take(i + 1).drop_last() =~= all.take(i as int));
        assert(all.take(i + 1).last() == lines@[i as int]@);
        let t = text::trim(lines[i]);
        if text::is(t, BEGIN) {
            current = Vec::new();
            inside = true;
            assert(text::views(current@) =~= Seq::<Seq<char>>::empty());
        }
        if inside {
            let ghost c0 = text::views(current@);
            current.push(text::string_of(lines[i]));
            assert(text::views(current@) =~= c0.push(all[i as int]));
            if text::is(t, END) {
                let ghost b0 = text::views(blocks@);
                let mut block = text::join(&current, "\n");
                block.push_str("\n");
                blocks.push(block);
                assert(text::views(blocks@) =~= b0.push(block@));
                current = Vec::new();
                inside = false;
            }
        }
        i = i + 1;
    }
    assert(all.take(i as int) =~= all);
    blocks
}

/// What a block holds: its certificate and what that says.
pub open spec fn block_facts(block: Seq<char>) -> Option<(Seq<u8>, (i64, i64, Seq<u8>, Seq<u8>))> {
    match x509::first_certificate_of(vstd::utf8::encode_utf8(block)) {
        None => None,
        Some(der) => match x509::facts_of(der) {
            None => None,
            Some(f) => Some((der, f)),
        },
    }
}

/// Whether every block holds a certificate.
pub open spec fn all_read(blocks: Seq<Seq<char>>) -> bool {
    forall|i: int| 0 <= i < blocks.len() ==> block_facts(#[trigger] blocks[i]) is Some
}

/// What is wrong between a certificate and the next one of its chain.
pub open spec fn link_error(child: Seq<char>, issuer: Seq<char>) -> Option<IssueError> {
    let c = block_facts(child)->0;
    let i = block_facts(issuer)->0;
    if c.1.2 != i.1.3 {
        Some(IssueError::NotOrdered)
    } else if !x509::signed_by(c.0, i.0) {
        Some(IssueError::InvalidSignature)
    } else {
        None
    }
}

/// What is wrong with the first broken link of a chain from `from` on.
pub open spec fn chain_error(blocks: Seq<Seq<char>>, from: int) -> Option<IssueError>
    decreases blocks.len() - from,
{
    if from < 0 || from + 1 >= blocks.len() {
        None
    } else {
        match link_error(blocks[from], blocks[from + 1]) {
            Some(e) => Some(e),
            None => chain_error(blocks, from + 1),
        }
    }
}

/// A certificate in DER and what it says.
struct ReadBlock {
    der: Vec<u8>,
    facts: x509::CertificateFacts,
}

fn read_block(block: &str) -> (r: Option<ReadBlock>)
    ensures
        match block_facts(block@) {
            Some(f) => r matches Some(b) && (b.der@, (
                b.facts.not_before,
                b.facts.not_after,
                b.facts.issuer@,
                b.facts.subject@,
            )) == f,
            None => r is None,
        },
{
    let der = match x509::first_certificate(block.as_bytes()) {
        Some(der) => der,
        None => return None,
    };
    match x509::parse_certificate(der.as_slice()) {
        Some(facts) => Some(ReadBlock { der, facts }),
        None => None,
    }
}

/// Validates the chain of an issued certificate: every block is a certificate,
/// each is issued and signed by the next.
pub fn validate_issuer_chain(blocks: &Vec<String>) -> (r: Result<(), IssueError>)
    ensures
        !all_read(text::views(blocks@)) ==> r == Err::<(), IssueError>(IssueError::InvalidCertificate),
        all_read(text::views(blocks@)) ==> r == match chain_error(text::views(blocks@), 0) {
            Some(e) => Err::<(), IssueError>(e),
            None => Ok(()),
        },
{
    let ghost all = text::views(blocks@);
    let mut read: Vec<ReadBlock> = Vec::new();
    let mut i: usize = 0;
    while i < blocks.len()
        invariant
            i <= blocks@.len(),
            all == text::views(blocks@),
            read@.len() == i,
            forall|k: int|
                0 <= k < i ==> block_facts(#[trigger] all[k]) == Some(
                    (
                        read@[k].der@,
                        (
                            read@[k].facts.not_before,
                            read@[k].facts.not_after,
                            read@[k].facts.issuer@,
                            read@[k].facts.subject@,
                        ),
                    ),
                ),
        decreases blocks@.len() - i,
    {
        assert(all[i as int] == blocks@[i as int]@);
        match read_block(blocks[i].as_str()) {
            Some(b) => read.push(b),
            None => {
                assert(block_facts(all[i as int]) is None);
                return Err(IssueError::InvalidCertificate);
            },
        }
        i = i + 1;
    }
    let mut j: usize = 0;
    while j < read.len() && read.len() - j > 1
        invariant
            j <= read@.len(),
            all == text::views(blocks@),
            all_read(all),
            read@.len() == all.len(),
            forall|k: int|
                0 <= k < read@.len() ==> block_facts(#[trigger] all[k]) == Some(
                    (
                        read@[k].der@,
                        (
                            read@[k].facts.not_before,
                            read@[k].facts.not_after,
                            read@[k].facts.issuer@,
                            read@[k].facts.subject@,
                        ),
                    ),
                ),
            chain_error(all, 0) == chain_error(all, j as int),
        decreases read@.len() - j,
    {
        let child = &read[j];
        let issuer = &read[j + 1];
        assert(block_facts(all[j as int]) is Some && block_facts(all[j + 1]) is Some);
        if !crate::bytes::same(child.facts.issuer.as_slice(), issuer.facts.subject.as_slice()) {
            return Err(IssueError::NotOrdered);
        }
        if !x509::is_signed_by(child.der.as_slice(), issuer.der.as_slice()) {
            return Err(IssueError::InvalidSignature);
        }
        j = j + 1;
    }
    Ok(())
}

/// The PEM text of the chain above the leaf.
pub open spec fn chain_text(blocks: Seq<Seq<char>>) -> Seq<char> {
    text::joined(blocks.skip(1), "\n"@)
}

/// Whether `r` is what is made of an issued chain and its key.
pub open spec fn generation_is(
    r: Result<CertificateGeneration, IssueError>,
    certificate_id: Seq<char>,
    fullchain_pem: Seq<char>,
    private_key_pem: Seq<char>,
    now: i64,
) -> bool {
    let blocks = blocks_of(fullchain_pem);
    if blocks.len() == 0 {
        r matches Err(e) && e == IssueError::NoCertificate
    } else if !all_read(blocks) {
        r matches Err(e) && e == IssueError::InvalidCertificate
    } else if chain_error(blocks, 0) is Some {
        r matches Err(e) && e == chain_error(blocks, 0)->0
    } else {
        let leaf = block_facts(blocks[0])->0;
        r matches Ok(g) && {
            &&& g.id@.len() == 32
            &&& g.certificate_id@ == certificate_id
            &&& g.certificate_pem@ == blocks[0]
            &&& g.chain_pem@ == chain_text(blocks)
            &&& g.private_key_pem@ == private_key_pem
            &&& g.fingerprint_sha256@ == crypto::hex_of(crypto::sha256_of(leaf.0))
            &&& g.not_before == Some(leaf.1.0)
            &&& g.not_after == Some(leaf.1.1)
            &&& g.issued_at == Some(now)
        }
    }
}

/// Makes a generation of what an authority issued: the first block is the
/// certificate, the others are its chain. The id is random.
pub fn generation_from_pem(certificate_id: &str, fullchain_pem: &str, private_key_pem: &str, now: i64) -> (r: Result<
    CertificateGeneration,
    IssueError,
>)
    ensures
        generation_is(r, certificate_id@, fullchain_pem@, private_key_pem@, now),
{
    let blocks = certificate_blocks(fullchain_pem);
    let ghost all = text::views(blocks@);
    if blocks.len() == 0 {
        return Err(IssueError::NoCertificate);
    }
    assert(all[0] == blocks@[0]@);
    let leaf = match read_block(blocks[0].as_str()) {
        Some(b) => b,
        None => {
            assert(block_facts(all[0]) is None);
            return Err(IssueError::InvalidCertificate);
        },
    };
    match validate_issuer_chain(&blocks) {
        Ok(()) => {},
        Err(e) => return Err(e),
    }
    let mut rest: Vec<String> = Vec::new();
    let mut i: usize = 1;
    while i < blocks.len()
        invariant
            1 <= i <= blocks@.len(),
            all == text::views(blocks@),
            rest@.len() == i - 1,
            forall|k: int| 0 <= k < i - 1 ==> (#[trigger] rest@[k])@ == all[k + 1],
        decreases blocks@.len() - i,
    {
        assert(all[i as int] == blocks@[i as int]@);
        rest.push(blocks[i].clone());
        i = i + 1;
    }
    assert(text::views(rest@) =~= all.skip(1));
    let id_bytes = crypto::random_bytes(16);
    proof {
        crypto::lemma_hex_length(id_bytes@);
    }
    Ok(
        CertificateGeneration {
            id: crypto::hex_encode(id_bytes.as_slice()),
            certificate_id: text::owned(certificate_id),
            certificate_pem: blocks[0].clone(),
            chain_pem: text::join(&rest, "\n"),
            private_key_pem: text::owned(private_key_pem),
            fingerprint_sha256: crypto::hex_encode(crypto::sha256(leaf.der.as_slice()).as_slice()),
            not_before: Some(leaf.facts.not_before),
            not_after: Some(leaf.facts.not_after),
            issued_at: Some(now),
        },
    )
}

/// The point in a suggested window at which a certificate is renewed: `offset`
/// seconds into it, where an empty window has only its start.
pub open spec fn window_span(start: i64, end: i64) -> int {
    if end > start {
        end - start
    } else {
        0
    }
}

/// Picks a random point in the window that an authority suggests.
pub fn suggested_renewal(start: i64, end: i64) -> (r: i64)
    requires
        crate::utc::MIN_SECONDS <= start <= crate::utc::MAX_SECONDS,
        crate::utc::MIN_SECONDS <= end <= crate::utc::MAX_SECONDS,
    ensures
        start <= r <= start + window_span(start, end),
{
    if end <= start {
        return start;
    }
    let offset = crypto::random_between(0, end - start);
    start + offset
}

/// What an authority answers when it is asked when to renew.
#[derive(Debug)]
pub enum RenewalAnswer {
    /// Renew between `start` and `end`; ask again after so many seconds.
    Window { start: i64, end: i64, explanation_url: Option<String>, retry_after_seconds: u64 },
    /// The authority makes no suggestions.
    Unsupported,
    Failed,
}

/// What an authority suggests: a random time of its window, or nothing where it
/// makes no suggestions.
pub fn renewal_information(answer: RenewalAnswer) -> (r: Result<Option<AriSuggestion>, ()>)
    requires
        answer matches RenewalAnswer::Window { start, end, .. } ==> crate::utc::MIN_SECONDS <= start
            <= crate::utc::MAX_SECONDS && crate::utc::MIN_SECONDS <= end <= crate::utc::MAX_SECONDS,
    ensures
        match answer {
            RenewalAnswer::Window { start, end, explanation_url, retry_after_seconds } => r matches Ok(Some(s)) && start
                <= s.suggested_at <= start + window_span(start, end) && s.explanation_url == explanation_url
                && s.retry_after_seconds == retry_after_seconds,
            RenewalAnswer::Unsupported => r matches Ok(None),
            RenewalAnswer::Failed => r is Err,
        },
{
    match answer {
        RenewalAnswer::Window { start, end, explanation_url, retry_after_seconds } => Ok(
            Some(AriSuggestion { suggested_at: suggested_renewal(start, end), explanation_url, retry_after_seconds }),
        ),
        RenewalAnswer::Unsupported => Ok(None),
        RenewalAnswer::Failed => Err(()),
    }
}

/// An order asks for every domain of its certificate, each in normal form and
/// in order. It is refused only without a domain, for a text that is none, or
/// for one that occurs twice.
pub proof fn an_order_asks_for_every_domain(domains: Seq<Seq<char>>, i: int)
    ensures
        ordered_domains(domains) is Ok <==> domains.len() > 0 && (forall|k: int|
            0 <= k < domains.len() ==> acme_challenge::normalized(#[trigger] domains[k]) is Some) && (forall|a: int, b: int|
            0 <= a < b < domains.len() ==> acme_challenge::normalized(#[trigger] domains[a])
                != acme_challenge::normalized(#[trigger] domains[b])),
        ordered_domains(domains) matches Ok(v) ==> v.len() == domains.len() && (0 <= i < domains.len() ==> Some(v[i])
            == acme_challenge::normalized(domains[i])),
{
    lemma_normalized_all(domains);
    if normalized_all(domains) is Some {
        let v = normalized_all(domains)->0;
        if all_distinct(v) {
            assert forall|a: int, b: int| 0 <= a < b < domains.len() implies acme_challenge::normalized(
                #[trigger] domains[a],
            ) != acme_challenge::normalized(#[trigger] domains[b]) by {
                assert(v[a] != v[b]);
            }
        }
        if forall|a: int, b: int|
            0 <= a < b < domains.len() ==> acme_challenge::normalized(#[trigger] domains[a])
                != acme_challenge::normalized(#[trigger] domains[b]) {
            assert forall|a: int, b: int| 0 <= a < b < v.len() implies #[trigger] v[a] != #[trigger] v[b] by {
                assert(acme_challenge::normalized(domains[a]) != acme_challenge::normalized(domains[b]));
            }
        }
    }
}

proof fn lemma_normalized_all(domains: Seq<Seq<char>>)
    ensures
        normalized_all(domains) is Some <==> forall|k: int|
            0 <= k < domains.len() ==> acme_challenge::normalized(#[trigger] domains[k]) is Some,
        normalized_all(domains) matches Some(v) ==> v.len() == domains.len() && forall|k: int|
            0 <= k < domains.len() ==> acme_challenge::normalized(#[trigger] domains[k]) == Some(v[k]),
    decreases domains.len(),
{
    if domains.len() > 0 {
        let t = domains.drop_last();
        lemma_normalized_all(t);
        assert(domains[domains.len() - 1] == domains.last());
        if normalized_all(domains) is Some {
            let v = normalized_all(domains)->0;
            assert forall|k: int| 0 <= k < domains.len() implies acme_challenge::normalized(#[trigger] domains[k])
                == Some(v[k]) by {
                if k < t.len() {
                    assert(t[k] == domains[k]);
                }
            }
        }
        if forall|k: int| 0 <= k < domains.len() ==> acme_challenge::normalized(#[trigger] domains[k]) is Some {
            assert forall|k: int| 0 <= k < t.len() implies acme_challenge::normalized(#[trigger] t[k]) is Some by {
                assert(t[k] == domains[k]);
            }
        }
    }
}

/// A pending authorization for a domain gets that domain's challenge as soon as
/// the authority offers one; a valid one needs nothing.
pub proof fn a_pending_authorization_gets_its_challenge(domain: Seq<char>)
    requires
        acme_challenge::normalized(domain) is Some,
    ensures
        authorization(AuthorizationState::Pending, true, Some(domain)) == Ok::<Option<Seq<char>>, IssueError>(
            acme_challenge::normalized(domain),
        ),
        authorization(AuthorizationState::Valid, false, None) == Ok::<Option<Seq<char>>, IssueError>(None),
        authorization(AuthorizationState::Pending, false, Some(domain)) == Err::<Option<Seq<char>>, IssueError>(
            IssueError::NoTlsAlpn,
        ),
        authorization(AuthorizationState::Other, true, Some(domain)) is Err,
{
}

/// A chain is good exactly if every certificate names the next one as its
/// issuer and carries its signature.
pub proof fn a_chain_is_good_link_by_link(blocks: Seq<Seq<char>>, from: int)
    requires
        0 <= from,
    ensures
        chain_error(blocks, from) is None <==> forall|i: int|
            from <= i && i + 1 < blocks.len() ==> ({
                let c = block_facts(#[trigger] blocks[i])->0;
                let n = block_facts(blocks[i + 1])->0;
                c.1.2 == n.1.3 && x509::signed_by(c.0, n.0)
            }),
    decreases blocks.len() - from,
{
    if from + 1 < blocks.len() {
        a_chain_is_good_link_by_link(blocks, from + 1);
        if chain_error(blocks, from) is None {
            assert(link_error(blocks[from], blocks[from + 1]) is None);
        }
    }
}

/// What is issued becomes a generation exactly if it holds a certificate, all of
/// its certificates can be read, and its chain is good.
pub proof fn a_good_chain_becomes_a_generation(
    r: Result<CertificateGeneration, IssueError>,
    certificate_id: Seq<char>,
    fullchain_pem: Seq<char>,
    private_key_pem: Seq<char>,
    now: i64,
)
    requires
        generation_is(r, certificate_id, fullchain_pem, private_key_pem, now),
    ensures
        ({
            let blocks = blocks_of(fullchain_pem);
            r is Ok <==> blocks.len() > 0 && all_read(blocks) && chain_error(blocks, 0) is None
        }),
        r matches Ok(g) ==> g.certificate_id@ == certificate_id && g.private_key_pem@ == private_key_pem
            && g.certificate_pem@ == blocks_of(fullchain_pem)[0] && g.issued_at == Some(now),
{
}

/// An account is bound to an external one exactly if its provider gives both an
/// id and a key that can be read; half a binding is refused.
pub proof fn an_account_is_bound_if_its_provider_says_so(provider: AcmeProvider)
    requires
        text::trimmed(provider.directory_url@).len() > 0,
    ensures
        provider.eab_key_id is None && provider.eab_hmac_key is None ==> binding_of(provider) == Ok::<
            Option<(Seq<char>, Seq<u8>)>,
            AccountError,
        >(None),
        provider.eab_key_id is Some != provider.eab_hmac_key is Some ==> binding_of(provider) == Err::<
            Option<(Seq<char>, Seq<u8>)>,
            AccountError,
        >(AccountError::HalfBinding),
        provider.eab_key_id is Some && provider.eab_hmac_key is Some && crypto::base64_url_unpadded(
            (provider.eab_hmac_key->0)@,
        ) is Some ==> binding_of(provider) == Ok::<Option<(Seq<char>, Seq<u8>)>, AccountError>(
            Some(((provider.eab_key_id->0)@, crypto::base64_url_unpadded((provider.eab_hmac_key->0)@)->0)),
        ),
{
}

/// A complete block is found whatever stands around it: from its begin line to
/// its end line, line by line.
pub proof fn a_complete_block_is_found(before: Seq<Seq<char>>, body: Seq<Seq<char>>, begin: Seq<char>, end: Seq<char>)
    requires
        text::trimmed(begin) == BEGIN@,
        text::trimmed(end) == END@,
        forall|i: int| 0 <= i < body.len() ==> text::trimmed(#[trigger] body[i]) != BEGIN@ && text::trimmed(body[i]) != END@,
    ensures
        ({
            let found = block_search(before.push(begin) + body.push(end)).blocks;
            &&& found.len() == block_search(before).blocks.len() + 1
            &&& found.last() == text::joined((seq![begin] + body).push(end), "\n"@) + "\n"@
        }),
{
    reveal_strlit("-----BEGIN CERTIFICATE-----");
    reveal_strlit("-----END CERTIFICATE-----");
    assert(BEGIN@[5] == 'B' && END@[5] == 'E');
    lemma_block_body(before, begin, body);
    let lines = before.push(begin) + body.push(end);
    assert(lines.drop_last() =~= before.push(begin) + body);
    assert(lines.last() == end);
}

proof fn lemma_block_body(before: Seq<Seq<char>>, begin: Seq<char>, body: Seq<Seq<char>>)
    requires
        text::trimmed(begin) == BEGIN@,
        BEGIN@ != END@,
        forall|i: int| 0 <= i < body.len() ==> text::trimmed(#[trigger] body[i]) != BEGIN@ && text::trimmed(body[i]) != END@,
    ensures
        ({
            let s = block_search(before.push(begin) + body);
            s.blocks == block_search(before).blocks && s.current == Some(seq![begin] + body)
        }),
    decreases body.len(),
{
    let lines = before.push(begin) + body;
    if body.len() == 0 {
        assert(lines =~= before.push(begin));
        assert(lines.drop_last() =~= before);
        assert(Seq::<Seq<char>>::empty().push(begin) =~= seq![begin] + body);
    } else {
        let t = body.drop_last();
        assert forall|i: int| 0 <= i < t.len() implies text::trimmed(#[trigger] t[i]) != BEGIN@ && text::trimmed(t[i])
            != END@ by {
            assert(t[i] == body[i]);
        }
        lemma_block_body(before, begin, t);
        assert(lines.drop_last() =~= before.push(begin) + t);
        assert(lines.last() == body.last());
        assert(body[body.len() - 1] == body.last());
        assert((seq![begin] + t).push(body.last()) =~= seq![begin] + body);
    }
}

} // verus!
