//! Handing out published certificates to holders of retrieval tokens. Token
//! times are seconds since the Unix epoch; the throttle counts milliseconds.
use vstd::prelude::*;
use vstd::slice::slice_subrange;
use crate::acme_types::{CertificateGeneration, ManagedCertificate, RetrievalToken};
use crate::auth;
use crate::crypto;
use crate::managed_tls;
use crate::text;
use crate::throttle;
use crate::throttle::Throttle;

verus! {

/// One minute.
pub const RETRIEVAL_WINDOW: u64 = 60000;

pub const RETRIEVAL_LIMIT: u32 = 60;

/// The key under which requests without a valid token are counted.
pub const UNAUTHORIZED_KEY: &'static str = "unauthorized";

/// The counts after a retrieval with a key.
pub open spec fn after_retrieval(m: Map<Seq<char>, (u32, u64)>, key: Seq<char>, now: u64) -> Map<Seq<char>, (u32, u64)> {
    throttle::counted(throttle::current(m, now, RETRIEVAL_WINDOW), key, now)
}

/// Whether a retrieval with a key is one too many.
pub open spec fn is_limited(m: Map<Seq<char>, (u32, u64)>, key: Seq<char>, now: u64) -> bool {
    throttle::count_of(after_retrieval(m, key, now), key) > RETRIEVAL_LIMIT
}

/// Counts a retrieval and yields whether it is one too many.
pub fn retrieval_rate_limited(attempts: &mut Throttle, key: &String, now: u64) -> (r: bool)
    requires
        old(attempts).wf(),
    ensures
        final(attempts).wf(),
        final(attempts)@ == after_retrieval(old(attempts)@, key@, now),
        r == is_limited(old(attempts)@, key@, now),
{
    attempts.prune(now, RETRIEVAL_WINDOW);
    attempts.add_attempt(key, now);
    attempts.count(key) > RETRIEVAL_LIMIT
}

/// The bearer value of an `Authorization` header.
pub open spec fn bearer_of(authorization: Option<Seq<char>>) -> Option<Seq<char>> {
    match authorization {
        Some(v) => if text::begins(v, "Bearer "@) {
            Some(v.skip("Bearer "@.len() as int))
        } else {
            None
        },
        None => None,
    }
}

/// The bearer value of an `Authorization` header; its hash is what a token is
/// found by.
pub fn bearer_token(authorization: &Option<String>) -> (r: Option<String>)
    ensures
        match bearer_of(match authorization { Some(a) => Some(a@), None => None }) {
            Some(b) => r is Some && r->0@ == b,
            None => r is None,
        },
{
    match authorization {
        Some(a) => {
            let v = text::chars_of(a.as_str());
            match text::strip_prefix(v.as_slice(), text::chars_of("Bearer ").as_slice()) {
                Some(rest) => Some(text::string_of(rest)),
                None => None,
            }
        },
        None => None,
    }
}

/// Whether a token is good at a time.
pub open spec fn token_is_good(t: RetrievalToken, now: i64) -> bool {
    !t.disabled && match t.expires_at {
        Some(at) => at > now,
        None => true,
    }
}

/// Whether a token covers a certificate: an empty list covers all of them.
pub open spec fn in_scope(t: RetrievalToken, certificate_id: Seq<char>) -> bool {
    t.certificate_ids@.len() == 0 || text::views(t.certificate_ids@).contains(certificate_id)
}

/// What a retrieval comes to, without what is handed out.
#[derive(Debug, Clone, Copy, PartialEq, Eq, Structural)]
pub enum PublishVerdict {
    /// There is no bearer value.
    MissingToken,
    /// The bearer value is that of no good token.
    InvalidToken,
    /// Too many requests were made.
    RateLimited,
    /// The domain has no published certificate.
    NotPublished,
    /// The token does not cover the certificate.
    ScopeDenied,
    /// The private key is not handed out.
    KeyDenied,
    /// There is no usable generation.
    NoGeneration,
    /// The holder has the current generation.
    NotModified,
    Published,
}

impl PublishVerdict {
    pub open spec fn code(self) -> u16 {
        match self {
            PublishVerdict::MissingToken => 401,
            PublishVerdict::InvalidToken => 401,
            PublishVerdict::RateLimited => 429,
            PublishVerdict::NotPublished => 404,
            PublishVerdict::ScopeDenied => 403,
            PublishVerdict::KeyDenied => 403,
            PublishVerdict::NoGeneration => 404,
            PublishVerdict::NotModified => 304,
            PublishVerdict::Published => 200,
        }
    }

    /// The HTTP status of the verdict.
    pub fn status(self) -> (r: u16)
        ensures
            r == self.code(),
    {
        match self {
            PublishVerdict::MissingToken => 401,
            PublishVerdict::InvalidToken => 401,
            PublishVerdict::RateLimited => 429,
            PublishVerdict::NotPublished => 404,
            PublishVerdict::ScopeDenied => 403,
            PublishVerdict::KeyDenied => 403,
            PublishVerdict::NoGeneration => 404,
            PublishVerdict::NotModified => 304,
            PublishVerdict::Published => 200,
        }
    }

    pub open spec fn audit_text(self) -> Option<Seq<char>> {
        match self {
            PublishVerdict::MissingToken => Some("missing_token"@),
            PublishVerdict::InvalidToken => Some("invalid_token"@),
            PublishVerdict::RateLimited => Some("rate_limited"@),
            PublishVerdict::NotPublished => Some("not_published"@),
            PublishVerdict::ScopeDenied => Some("scope_denied"@),
            PublishVerdict::KeyDenied => Some("key_denied"@),
            PublishVerdict::NoGeneration => None,
            PublishVerdict::NotModified => Some("not_modified"@),
            PublishVerdict::Published => Some("published"@),
        }
    }

    /// How the verdict is audited, if it is.
    pub fn audit_outcome(self) -> (r: Option<&'static str>)
        ensures
            match self.audit_text() {
                Some(t) => r is Some && r->0@ == t,
                None => r is None,
            },
    {
        match self {
            PublishVerdict::MissingToken => Some("missing_token"),
            PublishVerdict::InvalidToken => Some("invalid_token"),
            PublishVerdict::RateLimited => Some("rate_limited"),
            PublishVerdict::NotPublished => Some("not_published"),
            PublishVerdict::ScopeDenied => Some("scope_denied"),
            PublishVerdict::KeyDenied => Some("key_denied"),
            PublishVerdict::NoGeneration => None,
            PublishVerdict::NotModified => Some("not_modified"),
            PublishVerdict::Published => Some("published"),
        }
    }

    /// Whether the audit counts the retrieval as accepted.
    pub fn accepted(self) -> (r: bool)
        ensures
            r == (self == PublishVerdict::NotModified || self == PublishVerdict::Published),
    {
        match self {
            PublishVerdict::NotModified => true,
            PublishVerdict::Published => true,
            _ => false,
        }
    }
}

/// The entity tag of what is handed out.
pub open spec fn etag_of(certificate_id: Seq<char>, generation_id: Seq<char>, private_key: bool) -> Seq<char> {
    "\""@ + certificate_id + ":"@ + generation_id + ":"@ + (if private_key {
        "true"@
    } else {
        "false"@
    }) + "\""@
}

fn make_etag(certificate_id: &str, generation_id: &str, private_key: bool) -> (r: String)
    ensures
        r@ == etag_of(certificate_id@, generation_id@, private_key),
{
    let mut out = text::owned("\"");
    out.push_str(certificate_id);
    out.push_str(":");
    out.push_str(generation_id);
    out.push_str(":");
    out.push_str(
        if private_key {
            "true"
        } else {
            "false"
        },
    );
    out.push_str("\"");
    out
}

/// The key under which a token's requests are counted.
pub open spec fn token_key(id: Seq<char>) -> Seq<char> {
    "token:"@ + id
}

/// What a request asks for.
#[derive(Debug)]
pub struct PublishRequest {
    pub authorization: Option<String>,
    pub private_key: bool,
    pub if_none_match: Option<String>,
}

/// The key under which a request is counted.
pub open spec fn counting_key(request: PublishRequest, token: Option<RetrievalToken>, now: i64) -> Seq<char> {
    match (bearer_of(match request.authorization { Some(a) => Some(a@), None => None }), token) {
        (Some(_), Some(t)) => if token_is_good(t, now) {
            token_key(t.id@)
        } else {
            UNAUTHORIZED_KEY@
        },
        _ => UNAUTHORIZED_KEY@,
    }
}

/// What is found out before any generation is looked at: `limited` is whether
/// the request is one too many under its key.
pub open spec fn gate(
    request: PublishRequest,
    token: Option<RetrievalToken>,
    managed: Option<ManagedCertificate>,
    limited: bool,
    now: i64,
) -> Option<PublishVerdict> {
    let bearer = bearer_of(match request.authorization { Some(a) => Some(a@), None => None });
    if limited {
        Some(PublishVerdict::RateLimited)
    } else if bearer is None {
        Some(PublishVerdict::MissingToken)
    } else {
        match token {
            None => Some(PublishVerdict::InvalidToken),
            Some(t) => if !token_is_good(t, now) {
                Some(PublishVerdict::InvalidToken)
            } else {
                match managed {
                    None => Some(PublishVerdict::NotPublished),
                    Some(m) => if !(m.enabled && m.publish.enabled) {
                        Some(PublishVerdict::NotPublished)
                    } else if !in_scope(t, m.id@) {
                        Some(PublishVerdict::ScopeDenied)
                    } else if request.private_key && !(t.allow_private_key && m.publish.allow_private_key) {
                        Some(PublishVerdict::KeyDenied)
                    } else {
                        None
                    },
                }
            },
        }
    }
}

/// What a request comes to: `usable` is whether the active generation can be
/// handed out.
pub open spec fn verdict(
    request: PublishRequest,
    token: Option<RetrievalToken>,
    managed: Option<ManagedCertificate>,
    generation: Option<CertificateGeneration>,
    usable: bool,
    limited: bool,
    now: i64,
) -> PublishVerdict {
    match gate(request, token, managed, limited, now) {
        Some(v) => v,
        None => match generation {
            None => PublishVerdict::NoGeneration,
            Some(g) => if !usable {
                PublishVerdict::NoGeneration
            } else if request.if_none_match is Some && (request.if_none_match->0)@ == etag_of(
                (managed->0).id@,
                g.id@,
                request.private_key,
            ) {
                PublishVerdict::NotModified
            } else {
                PublishVerdict::Published
            },
        },
    }
}

/// What is handed out.
#[derive(Debug)]
pub struct PublishedCertificate {
    pub certificate_id: String,
    pub generation_id: String,
    pub domains: Vec<String>,
    pub certificate_pem: String,
    pub chain_pem: String,
    pub private_key_pem: Option<String>,
    pub fingerprint_sha256: String,
    pub not_before: Option<i64>,
    pub not_after: Option<i64>,
}

/// Whether `p` is what is handed out of a generation.
pub open spec fn body_is(p: PublishedCertificate, m: ManagedCertificate, g: CertificateGeneration, private_key: bool) -> bool {
    &&& p.certificate_id@ == m.id@
    &&& p.generation_id@ == g.id@
    &&& text::views(p.domains@) == text::views(m.domains@)
    &&& p.certificate_pem@ == g.certificate_pem@
    &&& p.chain_pem@ == g.chain_pem@
    &&& match p.private_key_pem {
        Some(k) => private_key && k@ == g.private_key_pem@,
        None => !private_key,
    }
    &&& p.fingerprint_sha256@ == g.fingerprint_sha256@
    &&& p.not_before == g.not_before
    &&& p.not_after == g.not_after
}

/// The answer to a request.
#[derive(Debug)]
pub struct PublishAnswer {
    pub verdict: PublishVerdict,
    /// The id of the token that was used, once it is known to be good.
    pub token_id: Option<String>,
    /// The tag, where there is something to tag.
    pub etag: Option<String>,
    pub body: Option<PublishedCertificate>,
}

/// Whether an answer is the one that a verdict leads to.
pub open spec fn answer_is(
    a: PublishAnswer,
    v: PublishVerdict,
    request: PublishRequest,
    token: Option<RetrievalToken>,
    managed: Option<ManagedCertificate>,
    generation: Option<CertificateGeneration>,
    now: i64,
) -> bool {
    &&& a.verdict == v
    &&& a.token_id is Some <==> token_key_is_used(request, token, now)
    &&& a.token_id is Some ==> (a.token_id->0)@ == (token->0).id@
    &&& a.etag is Some <==> v == PublishVerdict::NotModified || v == PublishVerdict::Published
    &&& a.etag is Some ==> (a.etag->0)@ == etag_of((managed->0).id@, (generation->0).id@, request.private_key)
    &&& a.body is Some <==> v == PublishVerdict::Published
    &&& a.body is Some ==> body_is(a.body->0, managed->0, generation->0, request.private_key)
}

/// Whether a request comes with a good token.
pub open spec fn token_key_is_used(request: PublishRequest, token: Option<RetrievalToken>, now: i64) -> bool {
    bearer_of(match request.authorization { Some(a) => Some(a@), None => None }) is Some && match token {
        Some(t) => token_is_good(t, now),
        None => false,
    }
}

fn scope_holds(t: &RetrievalToken, certificate_id: &str) -> (r: bool)
    ensures
        r == in_scope(*t, certificate_id@),
{
    t.certificate_ids.len() == 0 || crate::forward::health::holds_name(&t.certificate_ids, certificate_id)
}

fn hand_out(m: &ManagedCertificate, g: &CertificateGeneration, private_key: bool) -> (r: PublishedCertificate)
    ensures
        body_is(r, *m, *g, private_key),
{
    let mut domains: Vec<String> = Vec::new();
    let mut i: usize = 0;
    while i < m.domains.len()
        invariant
            i <= m.domains@.len(),
            domains@.len() == i,
            forall|k: int| 0 <= k < i ==> (#[trigger] domains@[k])@ == m.domains@[k]@,
        decreases m.domains@.len() - i,
    {
        domains.push(m.domains[i].clone());
        i = i + 1;
    }
    assert(text::views(domains@) =~= text::views(m.domains@));
    PublishedCertificate {
        certificate_id: m.id.clone(),
        generation_id: g.id.clone(),
        domains,
        certificate_pem: g.certificate_pem.clone(),
        chain_pem: g.chain_pem.clone(),
        private_key_pem: if private_key {
            Some(g.private_key_pem.clone())
        } else {
            None
        },
        fingerprint_sha256: g.fingerprint_sha256.clone(),
        not_before: g.not_before,
        not_after: g.not_after,
    }
}

/// Answers a request for a published certificate. `token` is the one that the
/// bearer value's hash names, `managed` the certificate of the domain,
/// `generation` its active generation, and `usable` whether that can be handed
/// out. Every request is counted, under its token once that is known to be
/// good.
pub fn publish(
    attempts: &mut Throttle,
    request: &PublishRequest,
    token: &Option<RetrievalToken>,
    managed: &Option<ManagedCertificate>,
    generation: &Option<CertificateGeneration>,
    usable: bool,
    now: i64,
    clock: u64,
) -> (r: PublishAnswer)
    requires
        old(attempts).wf(),
    ensures
        final(attempts).wf(),
        final(attempts)@ == after_retrieval(old(attempts)@, counting_key(*request, *token, now), clock),
        answer_is(
            r,
            verdict(
                *request,
                *token,
                *managed,
                *generation,
                usable,
                is_limited(old(attempts)@, counting_key(*request, *token, now), clock),
                now,
            ),
            *request,
            *token,
            *managed,
            *generation,
            now,
        ),
{
    let bearer = bearer_token(&request.authorization);
    let good = match (&bearer, token) {
        (Some(_), Some(t)) => !t.disabled && match t.expires_at {
            Some(at) => at > now,
            None => true,
        },
        _ => false,
    };
    if !good {
        let limited = retrieval_rate_limited(attempts, &text::owned(UNAUTHORIZED_KEY), clock);
        let verdict = if limited {
            PublishVerdict::RateLimited
        } else if bearer.is_none() {
            PublishVerdict::MissingToken
        } else {
            PublishVerdict::InvalidToken
        };
        return PublishAnswer { verdict, token_id: None, etag: None, body: None };
    }
    let t = match token {
        Some(t) => t,
        None => return PublishAnswer { verdict: PublishVerdict::InvalidToken, token_id: None, etag: None, body: None },
    };
    let token_id = Some(t.id.clone());
    let mut key = text::owned("token:");
    key.push_str(t.id.as_str());
    if retrieval_rate_limited(attempts, &key, clock) {
        return PublishAnswer { verdict: PublishVerdict::RateLimited, token_id, etag: None, body: None };
    }
    let m = match managed {
        Some(m) => m,
        None => return PublishAnswer { verdict: PublishVerdict::NotPublished, token_id, etag: None, body: None },
    };
    if !(m.enabled && m.publish.enabled) {
        return PublishAnswer { verdict: PublishVerdict::NotPublished, token_id, etag: None, body: None };
    }
    if !scope_holds(t, m.id.as_str()) {
        return PublishAnswer { verdict: PublishVerdict::ScopeDenied, token_id, etag: None, body: None };
    }
    if request.private_key && !(t.allow_private_key && m.publish.allow_private_key) {
        return PublishAnswer { verdict: PublishVerdict::KeyDenied, token_id, etag: None, body: None };
    }
    let g = match generation {
        Some(g) => g,
        None => return PublishAnswer { verdict: PublishVerdict::NoGeneration, token_id, etag: None, body: None },
    };
    if !usable {
        return PublishAnswer { verdict: PublishVerdict::NoGeneration, token_id, etag: None, body: None };
    }
    let etag = make_etag(m.id.as_str(), g.id.as_str(), request.private_key);
    if let Some(tag) = &request.if_none_match {
        if text::str_eq(tag.as_str(), etag.as_str()) {
            return PublishAnswer { verdict: PublishVerdict::NotModified, token_id, etag: Some(etag), body: None };
        }
    }
    let body = hand_out(m, g, request.private_key);
    PublishAnswer { verdict: PublishVerdict::Published, token_id, etag: Some(etag), body: Some(body) }
}

/// Answers a request for a published certificate; a generation is handed out
/// only if it is valid for the certificate.
pub fn publish_certificate(
    attempts: &mut Throttle,
    request: &PublishRequest,
    token: &Option<RetrievalToken>,
    managed: &Option<ManagedCertificate>,
    generation: &Option<CertificateGeneration>,
    now: i64,
    clock: u64,
) -> (r: PublishAnswer)
    requires
        old(attempts).wf(),
    ensures
        final(attempts).wf(),
        final(attempts)@ == after_retrieval(old(attempts)@, counting_key(*request, *token, now), clock),
        ({
            let usable = match (managed, generation) {
                (Some(m), Some(g)) => managed_tls::generation_error(*m, *g, now) is None,
                _ => false,
            };
            answer_is(
                r,
                verdict(
                    *request,
                    *token,
                    *managed,
                    *generation,
                    usable,
                    is_limited(old(attempts)@, counting_key(*request, *token, now), clock),
                    now,
                ),
                *request,
                *token,
                *managed,
                *generation,
                now,
            )
        }),
{
    let usable = match (managed, generation) {
        (Some(m), Some(g)) => managed_tls::validate_generation(m, g, now).is_ok(),
        _ => false,
    };
    publish(attempts, request, token, managed, generation, usable, now, clock)
}

/// A private key is handed out only if it was asked for, and both the token
/// and the certificate allow it; a certificate only if the token covers it.
pub proof fn private_keys_need_both_permissions(
    request: PublishRequest,
    token: Option<RetrievalToken>,
    managed: Option<ManagedCertificate>,
    generation: Option<CertificateGeneration>,
    usable: bool,
    limited: bool,
    now: i64,
    a: PublishAnswer,
)
    requires
        answer_is(
            a,
            verdict(request, token, managed, generation, usable, limited, now),
            request,
            token,
            managed,
            generation,
            now,
        ),
        a.body is Some,
    ensures
        token is Some && token_is_good(token->0, now),
        managed is Some && (managed->0).enabled && (managed->0).publish.enabled,
        in_scope(token->0, (managed->0).id@),
        (a.body->0).private_key_pem is Some ==> request.private_key && (token->0).allow_private_key
            && (managed->0).publish.allow_private_key,
{
}

/// Why a token is not created.
#[derive(Debug)]
pub enum TokenRefusal {
    /// The label is blank or the expiry is not in the future.
    LabelOrExpiry,
    /// The token is to cover a certificate that is not there.
    UnknownCertificate(String),
}

/// The certificate that a token is to cover and that is not there, if any.
pub open spec fn first_unknown(ids: Seq<Seq<char>>, known: Seq<Seq<char>>) -> Option<Seq<char>>
    decreases ids.len(),
{
    if ids.len() == 0 {
        None
    } else if first_unknown(ids.drop_last(), known) is Some {
        first_unknown(ids.drop_last(), known)
    } else if known.contains(ids.last()) {
        None
    } else {
        Some(ids.last())
    }
}

proof fn lemma_first_unknown(ids: Seq<Seq<char>>, n: int, known: Seq<Seq<char>>)
    requires
        0 <= n <= ids.len(),
        first_unknown(ids.take(n), known) is Some,
    ensures
        first_unknown(ids, known) == first_unknown(ids.take(n), known),
    decreases ids.len() - n,
{
    if n == ids.len() {
        assert(ids.take(n) =~= ids);
    } else {
        assert(ids.take(n + 1).drop_last() =~= ids.take(n));
        lemma_first_unknown(ids, n + 1, known);
    }
}

/// The id of a token: the first twelve bytes of its hash.
pub open spec fn token_id_of(bearer: Seq<char>) -> Seq<char> {
    crypto::hex_of(crypto::sha256_of(vstd::utf8::encode_utf8(bearer)).take(12))
}

/// Whether `t` is the token of a bearer value.
pub open spec fn token_is(
    t: RetrievalToken,
    bearer: Seq<char>,
    label: Seq<char>,
    certificate_ids: Seq<Seq<char>>,
    allow_private_key: bool,
    expires_at: Option<i64>,
    now: i64,
) -> bool {
    &&& t.id@ == token_id_of(bearer)
    &&& t.label@ == label
    &&& t.token_hash@ == auth::hash_of_token(bearer)
    &&& t.bearer_token@ == bearer
    &&& text::views(t.certificate_ids@) == certificate_ids
    &&& t.allow_private_key == allow_private_key
    &&& t.created_at == Some(now)
    &&& t.expires_at == expires_at
    &&& !t.disabled
}

/// The token of a bearer value.
pub fn token_for(
    bearer: String,
    label: String,
    certificate_ids: Vec<String>,
    allow_private_key: bool,
    expires_at: Option<i64>,
    now: i64,
) -> (r: RetrievalToken)
    ensures
        token_is(r, bearer@, label@, text::views(certificate_ids@), allow_private_key, expires_at, now),
{
    let digest = crypto::sha256(bearer.as_str().as_bytes());
    let short = slice_subrange(digest.as_slice(), 0, 12);
    assert(short@ =~= digest@.take(12));
    RetrievalToken {
        id: crypto::hex_encode(short),
        label,
        token_hash: auth::token_hash(bearer.as_str()),
        bearer_token: bearer,
        certificate_ids,
        allow_private_key,
        created_at: Some(now),
        expires_at,
        disabled: false,
    }
}

/// Creates a token with a fresh bearer value, for certificates that are there.
pub fn create_retrieval_token(
    label: String,
    certificate_ids: Vec<String>,
    allow_private_key: bool,
    expires_at: Option<i64>,
    known: &Vec<String>,
    now: i64,
) -> (r: Result<RetrievalToken, TokenRefusal>)
    ensures
        ({
            let bad = text::trimmed(label@).len() == 0 || match expires_at {
                Some(at) => at <= now,
                None => false,
            };
            let unknown = first_unknown(text::views(certificate_ids@), text::views(known@));
            if bad {
                r matches Err(TokenRefusal::LabelOrExpiry)
            } else if unknown is Some {
                r matches Err(TokenRefusal::UnknownCertificate(id)) && id@ == unknown->0
            } else {
                r matches Ok(t) && token_is(
                    t,
                    t.bearer_token@,
                    label@,
                    text::views(certificate_ids@),
                    allow_private_key,
                    expires_at,
                    now,
                ) && auth::is_token(t.bearer_token@)
            }
        }),
{
    let l = text::chars_of(label.as_str());
    let past = match expires_at {
        Some(at) => at <= now,
        None => false,
    };
    if text::trim(l.as_slice()).len() == 0 || past {
        return Err(TokenRefusal::LabelOrExpiry);
    }
    let ghost all = text::views(certificate_ids@);
    let mut i: usize = 0;
    while i < certificate_ids.len()
        invariant
            i <= certificate_ids@.len(),
            all == text::views(certificate_ids@),
            first_unknown(all.take(i as int), text::views(known@)) is None,
            text::trimmed(label@).len() > 0,
            match expires_at {
                Some(at) => at > now,
                None => true,
            },
        decreases certificate_ids@.len() - i,
    {
        assert(all.take(i + 1).drop_last() =~= all.take(i as int));
        assert(all.take(i + 1).last() == certificate_ids@[i as int]@);
        if !crate::forward::health::holds_name(known, certificate_ids[i].as_str()) {
            proof {
                lemma_first_unknown(all, i + 1, text::views(known@));
            }
            return Err(TokenRefusal::UnknownCertificate(certificate_ids[i].clone()));
        }
        i = i + 1;
    }
    assert(all.take(i as int) =~= all);
    let bearer = auth::random_token();
    Ok(token_for(bearer, label, certificate_ids, allow_private_key, expires_at, now))
}

/// Takes the hashes out of tokens before they are listed.
pub fn list_retrieval_tokens(tokens: &mut Vec<RetrievalToken>)
    ensures
        final(tokens)@.len() == old(tokens)@.len(),
        forall|i: int|
            0 <= i < final(tokens)@.len() ==> (#[trigger] final(tokens)@[i]).token_hash@ == ""@ && final(tokens)@[i] == (
            RetrievalToken { token_hash: final(tokens)@[i].token_hash, ..old(tokens)@[i] }),
{
    let mut i: usize = 0;
    while i < tokens.len()
        invariant
            i <= tokens@.len(),
            tokens@.len() == old(tokens)@.len(),
            forall|k: int|
                0 <= k < i ==> (#[trigger] tokens@[k]).token_hash@ == ""@ && tokens@[k] == (RetrievalToken {
                    token_hash: tokens@[k].token_hash,
                    ..old(tokens)@[k]
                }),
            forall|k: int| i <= k < tokens@.len() ==> #[trigger] tokens@[k] == old(tokens)@[k],
        decreases tokens@.len() - i,
    {
        tokens[i].token_hash = text::owned("");
        i = i + 1;
    }
}

/// A good token that covers a published certificate gets it: a request that is
/// not one too many is answered with the certificate, or with 304 if it is the
/// one that the client has. The private key comes along if it was asked for and
/// both allow it.
pub proof fn a_good_token_gets_its_certificate(
    request: PublishRequest,
    t: RetrievalToken,
    m: ManagedCertificate,
    g: CertificateGeneration,
    bearer: Seq<char>,
    now: i64,
)
    requires
        request.authorization is Some && (request.authorization->0)@ == "Bearer "@ + bearer,
        !t.disabled,
        t.expires_at is None || (t.expires_at->0) > now,
        m.enabled && m.publish.enabled,
        t.certificate_ids@.len() == 0 || exists|i: int|
            0 <= i < t.certificate_ids@.len() && (#[trigger] t.certificate_ids@[i])@ == m.id@,
        request.private_key ==> t.allow_private_key && m.publish.allow_private_key,
    ensures
        ({
            let v = verdict(request, Some(t), Some(m), Some(g), true, false, now);
            &&& v == PublishVerdict::Published || v == PublishVerdict::NotModified
            &&& request.if_none_match is None ==> v == PublishVerdict::Published
            &&& v == PublishVerdict::NotModified <==> (request.if_none_match matches Some(tag) && tag@ == etag_of(
                m.id@,
                g.id@,
                request.private_key,
            ))
        }),
{
    let a = (request.authorization->0)@;
    assert(a.take("Bearer "@.len() as int) =~= "Bearer "@);
    if t.certificate_ids@.len() > 0 {
        let i = choose|i: int| 0 <= i < t.certificate_ids@.len() && (#[trigger] t.certificate_ids@[i])@ == m.id@;
        assert(text::views(t.certificate_ids@)[i] == m.id@);
    }
}

/// Each reason to refuse a retrieval comes out as itself, the first of them
/// first: too many requests, no token, no good token, not published, not
/// covered, no right to the key, nothing to hand out.
pub proof fn every_refused_retrieval_says_why(
    request: PublishRequest,
    token: Option<RetrievalToken>,
    managed: Option<ManagedCertificate>,
    generation: Option<CertificateGeneration>,
    usable: bool,
    limited: bool,
    now: i64,
)
    ensures
        ({
            let v = verdict(request, token, managed, generation, usable, limited, now);
            let bearer = bearer_of(match request.authorization { Some(a) => Some(a@), None => None });
            let good = token matches Some(t) && !t.disabled && (t.expires_at matches Some(at) ==> at > now);
            let published = managed matches Some(m) && m.enabled && m.publish.enabled;
            &&& limited <==> v == PublishVerdict::RateLimited
            &&& v == PublishVerdict::MissingToken <==> !limited && bearer is None
            &&& v == PublishVerdict::InvalidToken <==> !limited && bearer is Some && !good
            &&& v == PublishVerdict::NotPublished <==> !limited && bearer is Some && good && !published
            &&& v == PublishVerdict::NoGeneration ==> generation is None || !usable
        }),
{
}

/// The bearer value is what stands behind the scheme.
pub proof fn a_bearer_value_reads_back(value: Seq<char>)
    ensures
        bearer_of(Some("Bearer "@ + value)) == Some(value),
        bearer_of(None) is None,
{
    assert(("Bearer "@ + value).take("Bearer "@.len() as int) =~= "Bearer "@);
    assert(("Bearer "@ + value).skip("Bearer "@.len() as int) =~= value);
}

/// A key may be used so many times in a window, and then no more until the
/// window is over.
pub proof fn a_key_is_limited_once_its_requests_are_used_up(m: Map<Seq<char>, (u32, u64)>, key: Seq<char>, now: u64)
    ensures
        !m.dom().contains(key) ==> !is_limited(m, key, now),
        m.dom().contains(key) && !throttle::is_over(m[key].1, now, 60_000) ==> (is_limited(m, key, now) <==> m[key].0
            >= 60),
        m.dom().contains(key) && throttle::is_over(m[key].1, now, 60_000) ==> !is_limited(m, key, now),
{
}

/// A token may be made for certificates that are there, and only for these.
pub proof fn a_token_covers_known_certificates(ids: Seq<Seq<char>>, known: Seq<Seq<char>>)
    ensures
        first_unknown(ids, known) is None <==> forall|i: int| 0 <= i < ids.len() ==> known.contains(#[trigger] ids[i]),
        first_unknown(ids, known) matches Some(id) ==> ids.contains(id) && !known.contains(id),
    decreases ids.len(),
{
    if ids.len() > 0 {
        let t = ids.drop_last();
        a_token_covers_known_certificates(t, known);
        assert(ids[ids.len() - 1] == ids.last());
        if first_unknown(t, known) is Some {
            let id = first_unknown(t, known)->0;
            let k = choose|k: int| 0 <= k < t.len() && t[k] == id;
            assert(ids[k] == id);
        } else {
            assert forall|i: int| 0 <= i < t.len() implies known.contains(#[trigger] ids[i]) by {
                assert(t[i] == ids[i]);
            }
        }
    }
}

/// A good token gets no certificate that it does not cover, no private key
/// without both permissions, and nothing while there is nothing to hand out;
/// each of these is said exactly when it is so.
pub proof fn a_good_token_is_held_to_its_scope(
    request: PublishRequest,
    t: RetrievalToken,
    m: ManagedCertificate,
    generation: Option<CertificateGeneration>,
    usable: bool,
    bearer: Seq<char>,
    now: i64,
)
    requires
        request.authorization is Some && (request.authorization->0)@ == "Bearer "@ + bearer,
        !t.disabled,
        t.expires_at is None || (t.expires_at->0) > now,
        m.enabled && m.publish.enabled,
    ensures
        ({
            let v = verdict(request, Some(t), Some(m), generation, usable, false, now);
            let covered = t.certificate_ids@.len() == 0 || exists|i: int|
                0 <= i < t.certificate_ids@.len() && (#[trigger] t.certificate_ids@[i])@ == m.id@;
            let key = !request.private_key || (t.allow_private_key && m.publish.allow_private_key);
            &&& v == PublishVerdict::ScopeDenied <==> !covered
            &&& v == PublishVerdict::KeyDenied <==> covered && !key
            &&& v == PublishVerdict::NoGeneration <==> covered && key && (generation is None || !usable)
        }),
{
    a_bearer_value_reads_back(bearer);
    let ids = text::views(t.certificate_ids@);
    if in_scope(t, m.id@) && t.certificate_ids@.len() > 0 {
        assert(ids.contains(m.id@));
        let i = choose|i: int| 0 <= i < ids.len() && ids[i] == m.id@;
        assert(t.certificate_ids@[i]@ == m.id@);
    }
    if exists|i: int| 0 <= i < t.certificate_ids@.len() && (#[trigger] t.certificate_ids@[i])@ == m.id@ {
        let i = choose|i: int| 0 <= i < t.certificate_ids@.len() && (#[trigger] t.certificate_ids@[i])@ == m.id@;
        assert(ids[i] == m.id@);
    }
}

/// Requests with a good token are counted for the token, and all others
/// together.
pub proof fn requests_are_counted_by_token(request: PublishRequest, t: RetrievalToken, bearer: Seq<char>, now: i64)
    requires
        request.authorization is Some && (request.authorization->0)@ == "Bearer "@ + bearer,
    ensures
        !t.disabled && (t.expires_at is None || (t.expires_at->0) > now) ==> counting_key(request, Some(t), now)
            == token_key(t.id@),
        t.disabled || (t.expires_at is Some && (t.expires_at->0) <= now) ==> counting_key(request, Some(t), now)
            == UNAUTHORIZED_KEY@,
        counting_key(request, None, now) == UNAUTHORIZED_KEY@,
{
    a_bearer_value_reads_back(bearer);
}

/// A status tells what came of a request: that something is handed out or has
/// not changed, that the client has to prove who it is, that it may not, that
/// there is nothing, or that it asked too often.
pub proof fn a_status_tells_what_came_of_a_request(v: PublishVerdict)
    ensures
        v.code() == 200 <==> v == PublishVerdict::Published,
        v.code() == 304 <==> v == PublishVerdict::NotModified,
        v.code() == 401 <==> v == PublishVerdict::MissingToken || v == PublishVerdict::InvalidToken,
        v.code() == 403 <==> v == PublishVerdict::ScopeDenied || v == PublishVerdict::KeyDenied,
        v.code() == 404 <==> v == PublishVerdict::NotPublished || v == PublishVerdict::NoGeneration,
        v.code() == 429 <==> v == PublishVerdict::RateLimited,
{
}

/// What is handed out is the generation as it is: certificate and chain, and the
/// key if it was asked for.
pub proof fn a_published_certificate_is_the_generation(
    a: PublishAnswer,
    request: PublishRequest,
    token: Option<RetrievalToken>,
    m: ManagedCertificate,
    g: CertificateGeneration,
    now: i64,
)
    requires
        answer_is(a, PublishVerdict::Published, request, token, Some(m), Some(g), now),
    ensures
        a.body is Some && a.etag is Some,
        (a.body->0).certificate_pem@ == g.certificate_pem@,
        (a.body->0).chain_pem@ == g.chain_pem@,
        request.private_key <==> (a.body->0).private_key_pem is Some,
        request.private_key ==> ((a.body->0).private_key_pem->0)@ == g.private_key_pem@,
        text::views((a.body->0).domains@) == text::views(m.domains@),
        (a.body->0).not_after == g.not_after,
{
}

/// A good token gets its certificate as long as it did not ask too often: the
/// request is answered with what there is.
pub proof fn a_good_request_is_answered(
    attempts: &mut Throttle,
    request: PublishRequest,
    t: RetrievalToken,
    m: ManagedCertificate,
    g: CertificateGeneration,
    bearer: Seq<char>,
    now: i64,
    clock: u64,
    r: PublishAnswer,
)
    requires
        call_ensures(publish_certificate, (attempts, &request, &Some(t), &Some(m), &Some(g), now, clock), r),
        request.authorization is Some && (request.authorization->0)@ == "Bearer "@ + bearer,
        request.if_none_match is None,
        !request.private_key,
        !t.disabled,
        t.expires_at is None || (t.expires_at->0) > now,
        m.enabled && m.publish.enabled,
        t.certificate_ids@.len() == 0,
        managed_tls::generation_error(m, g, now) is None,
        !old(attempts)@.dom().contains(token_key(t.id@)),
    ensures
        r.verdict == PublishVerdict::Published,
        r.body is Some && (r.body->0).certificate_pem@ == g.certificate_pem@ && (r.body->0).private_key_pem is None,
        r.token_id is Some && (r.token_id->0)@ == t.id@,
{
    a_good_token_gets_its_certificate(request, t, m, g, bearer, now);
    requests_are_counted_by_token(request, t, bearer, now);
    a_key_is_limited_once_its_requests_are_used_up(old(attempts)@, token_key(t.id@), clock);
    a_bearer_value_reads_back(bearer);
}

/// A token is made exactly if it has a label, an end that is ahead if it has
/// one, and certificates that are there; it can be used from then on.
pub proof fn a_token_is_made_for_known_certificates(
    label: String,
    ids: Vec<String>,
    allow_private_key: bool,
    expires_at: Option<i64>,
    known: Vec<String>,
    now: i64,
    r: Result<RetrievalToken, TokenRefusal>,
)
    requires
        call_ensures(create_retrieval_token, (label, ids, allow_private_key, expires_at, &known, now), r),
    ensures
        r is Ok <==> text::trimmed(label@).len() > 0 && (expires_at is None || expires_at->0 > now) && forall|i: int|
            0 <= i < ids@.len() ==> text::views(known@).contains((#[trigger] ids@[i])@),
        r matches Ok(t) ==> {
            &&& !t.disabled
            &&& t.expires_at == expires_at
            &&& t.allow_private_key == allow_private_key
            &&& t.token_hash@ == auth::hash_of_token(t.bearer_token@)
            &&& text::views(t.certificate_ids@) == text::views(ids@)
        },
{
    let rows = text::views(ids@);
    a_token_covers_known_certificates(rows, text::views(known@));
    if forall|i: int| 0 <= i < ids@.len() ==> text::views(known@).contains((#[trigger] ids@[i])@) {
        assert forall|i: int| 0 <= i < rows.len() implies text::views(known@).contains(#[trigger] rows[i]) by {
            assert(rows[i] == ids@[i]@);
        }
    }
    if first_unknown(rows, text::views(known@)) is None {
        assert forall|i: int| 0 <= i < ids@.len() implies text::views(known@).contains((#[trigger] ids@[i])@) by {
            assert(rows[i] == ids@[i]@);
        }
    }
}

} // verus!
