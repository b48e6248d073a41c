//! An order for a certificate, from its creation to the downloaded chain. The
//! conversation with the authority is led from outside: an order says what to
//! ask next and takes in what came back.
use vstd::prelude::*;
use crate::acme::client::{self, AuthorizationState, IssueError};
use crate::acme_challenge::{self, ChallengeEntry, ChallengeError, ChallengeGuard, ChallengeRegistry};
use crate::acme_types::{CertificateGeneration, ManagedCertificate};
use crate::certificate;
use crate::issue::{self, Issued};
use crate::text;
use crate::utc;
use crate::x509;

verus! {

/// How long the authority is given, in seconds.
pub const POLL_SECONDS: u64 = 180;

/// The first pause between two questions, in milliseconds.
pub const POLL_PAUSE_MS: u64 = 500;

/// How far an order got.
#[derive(Debug, Clone, Copy, PartialEq, Eq, Structural)]
pub enum IssueStage {
    /// The order is created.
    Placing,
    /// The next authorization is fetched.
    Authorizing,
    /// The challenge of an authorization is available, and the authority is
    /// told so.
    Announcing,
    /// The authorizations are waited for.
    Polling,
    /// The order is finalized.
    Finalizing,
    /// The certificate is downloaded.
    Downloading,
    Issued,
    Failed(IssueError),
}

/// What an order does next.
#[derive(Debug, Clone, Copy, PartialEq, Eq, Structural)]
pub enum IssueAction {
    PlaceOrder,
    NextAuthorization,
    Announce,
    /// Wait until the order is ready, at most so long.
    Poll { pause_ms: u64, seconds: u64 },
    Finalize,
    /// Wait for the certificate, at most so long.
    Download { pause_ms: u64, seconds: u64 },
    Finish,
    GiveUp(IssueError),
}

/// What came back.
#[derive(Debug)]
pub enum IssueReply {
    Done,
    /// An authorization: the domain that it is for, if it is for one, and what
    /// the challenge proves.
    Authorization {
        state: AuthorizationState,
        offers_tls_alpn: bool,
        identifier: Option<String>,
        key_authorization: Vec<u8>,
    },
    NoMoreAuthorizations,
    Status { ready: bool },
    PrivateKey(String),
    Chain(String),
    Failed,
}

/// An order under way.
pub struct Issuance {
    pub certificate_id: String,
    /// What is ordered, in normal form.
    pub domains: Vec<String>,
    /// The certificate that the ordered one takes the place of.
    pub replaces: Option<Vec<u8>>,
    /// How long a challenge stays available, in milliseconds.
    pub challenge_ttl: u64,
    pub stage: IssueStage,
    /// The challenges that are available.
    pub guards: Vec<ChallengeGuard>,
    pub private_key: String,
    pub issued: Option<CertificateGeneration>,
}

pub type Challenges = Map<Seq<char>, ChallengeEntry<Issued>>;

/// Whether the registration that a guard stands for is there.
pub open spec fn stands(m: Challenges, g: ChallengeGuard) -> bool {
    m.dom().contains(g.domain@) && m[g.domain@].nonce == g.nonce
}

/// `m` without the registrations that the guards stand for.
pub open spec fn without(m: Challenges, guards: Seq<ChallengeGuard>) -> Challenges
    decreases guards.len(),
{
    if guards.len() == 0 {
        m
    } else {
        acme_challenge::released(without(m, guards.drop_last()), guards.last().domain@, guards.last().nonce)
    }
}

/// What is done at a stage.
pub open spec fn action_of(stage: IssueStage) -> IssueAction {
    match stage {
        IssueStage::Placing => IssueAction::PlaceOrder,
        IssueStage::Authorizing => IssueAction::NextAuthorization,
        IssueStage::Announcing => IssueAction::Announce,
        IssueStage::Polling => IssueAction::Poll { pause_ms: POLL_PAUSE_MS, seconds: POLL_SECONDS },
        IssueStage::Finalizing => IssueAction::Finalize,
        IssueStage::Downloading => IssueAction::Download { pause_ms: POLL_PAUSE_MS, seconds: POLL_SECONDS },
        IssueStage::Issued => IssueAction::Finish,
        IssueStage::Failed(e) => IssueAction::GiveUp(e),
    }
}

/// Why an order fails if what is asked at a stage does not come back.
pub open spec fn failure_at(stage: IssueStage) -> IssueError {
    match stage {
        IssueStage::Placing => IssueError::NotPlaced,
        IssueStage::Authorizing => IssueError::NoAuthorization,
        IssueStage::Announcing => IssueError::NotAnnounced,
        IssueStage::Polling => IssueError::NotPolled,
        IssueStage::Finalizing => IssueError::NotFinalized,
        _ => IssueError::NotDownloaded,
    }
}

/// Whether an order came to an end with its challenges taken away.
pub open spec fn cleared(s: Issuance, stage: IssueStage, m: Challenges, t: Issuance, n: Challenges) -> bool {
    &&& t == (Issuance { stage, guards: t.guards, ..s })
    &&& t.guards@.len() == 0
    &&& n == without(m, s.guards@)
}

/// Whether the challenge of a domain was made available.
pub open spec fn provisioned(
    s: Issuance,
    domain: Seq<char>,
    key_authorization: Seq<u8>,
    clock: u64,
    now: i64,
    m: Challenges,
    t: Issuance,
    n: Challenges,
) -> bool {
    let nonce = acme_challenge::next_nonce(m, domain);
    &&& t == (Issuance { stage: IssueStage::Announcing, guards: t.guards, ..s })
    &&& t.guards@.len() == s.guards@.len() + 1
    &&& t.guards@.drop_last() == s.guards@
    &&& t.guards@.last().domain@ == domain
    &&& t.guards@.last().nonce == nonce
    &&& n.dom().contains(domain)
    &&& issue::fits(n[domain].certificate, acme_challenge::challenge_profile(certificate::san_of(domain), key_authorization, now))
    &&& acme_challenge::proves(n[domain].certificate.der@, key_authorization)
    &&& n == m.insert(
        domain,
        (ChallengeEntry {
            certificate: n[domain].certificate,
            expires_at: (clock + s.challenge_ttl) as u64,
            nonce,
        }),
    )
}

/// Whether an order `s` with the challenges `m` became `t` with `n` by a reply.
pub open spec fn reply_taken(
    s: Issuance,
    m: Challenges,
    reply: IssueReply,
    clock: u64,
    now: i64,
    t: Issuance,
    n: Challenges,
) -> bool {
    match (s.stage, reply) {
        (IssueStage::Issued, _) => t == s && n == m,
        (IssueStage::Failed(_), _) => t == s && n == m,
        (IssueStage::Placing, IssueReply::Done) => t == (Issuance { stage: IssueStage::Authorizing, ..s }) && n == m,
        (
            IssueStage::Authorizing,
            IssueReply::Authorization { state, offers_tls_alpn, identifier, key_authorization },
        ) => match client::authorization(state, offers_tls_alpn, client::text_of(identifier)) {
            Err(e) => cleared(s, IssueStage::Failed(e), m, t, n),
            Ok(None) => t == s && n == m,
            Ok(Some(d)) => match acme_challenge::normalized(d) {
                None => cleared(s, IssueStage::Failed(IssueError::InvalidDomain), m, t, n),
                Some(domain) => {
                    ||| provisioned(s, domain, key_authorization@, clock, now, m, t, n)
                    ||| cleared(s, IssueStage::Failed(IssueError::NotProvisioned), m, t, n)
                },
            },
        },
        (IssueStage::Authorizing, IssueReply::NoMoreAuthorizations) => t == (Issuance {
            stage: IssueStage::Polling,
            ..s
        }) && n == m,
        (IssueStage::Announcing, IssueReply::Done) => t == (Issuance { stage: IssueStage::Authorizing, ..s }) && n == m,
        (IssueStage::Polling, IssueReply::Status { ready }) => if ready {
            cleared(s, IssueStage::Finalizing, m, t, n)
        } else {
            cleared(s, IssueStage::Failed(IssueError::NotReady), m, t, n)
        },
        (IssueStage::Finalizing, IssueReply::PrivateKey(key)) => t == (Issuance {
            stage: IssueStage::Downloading,
            private_key: key,
            ..s
        }) && n == m,
        (IssueStage::Downloading, IssueReply::Chain(chain)) => match t.stage {
            IssueStage::Issued => {
                &&& t == (Issuance { stage: IssueStage::Issued, issued: t.issued, ..s })
                &&& t.issued is Some
                &&& client::generation_is(Ok(t.issued->0), s.certificate_id@, chain@, s.private_key@, now)
                &&& n == m
            },
            IssueStage::Failed(e) => {
                &&& cleared(s, IssueStage::Failed(e), m, t, n)
                &&& client::generation_is(Err(e), s.certificate_id@, chain@, s.private_key@, now)
            },
            _ => false,
        },
        _ => cleared(s, IssueStage::Failed(failure_at(s.stage)), m, t, n),
    }
}

impl Issuance {
    /// Challenges are available only while authorizations are pending.
    pub open spec fn wf(self) -> bool {
        self.guards@.len() > 0 ==> self.stage == IssueStage::Authorizing || self.stage == IssueStage::Announcing
            || self.stage == IssueStage::Polling
    }

    /// An order for the domains of a certificate: there has to be one, and
    /// none may occur twice. `previous` is the generation that is to be
    /// replaced, if there is one.
    pub fn new(managed: &ManagedCertificate, challenge_ttl: u64, previous: &Option<CertificateGeneration>) -> (r: Result<
        Issuance,
        IssueError,
    >)
        ensures
            match client::ordered_domains(text::views(managed.domains@)) {
                Err(e) => r matches Err(f) && f == e,
                Ok(domains) => r matches Ok(s) && {
                    &&& s.wf()
                    &&& s.certificate_id@ == managed.id@
                    &&& text::views(s.domains@) == domains
                    &&& match previous {
                        None => s.replaces is None,
                        Some(g) => match x509::first_certificate_of(vstd::utf8::encode_utf8(g.certificate_pem@)) {
                            Some(der) => s.replaces is Some && (s.replaces->0)@ == der,
                            None => s.replaces is None,
                        },
                    }
                    &&& s.challenge_ttl == challenge_ttl
                    &&& s.stage == IssueStage::Placing
                    &&& s.guards@.len() == 0
                    &&& s.issued is None
                },
            },
    {
        let domains = match client::order_domains(managed) {
            Ok(domains) => domains,
            Err(e) => return Err(e),
        };
        let replaces = match previous {
            Some(g) => x509::first_certificate(g.certificate_pem.as_str().as_bytes()),
            None => None,
        };
        Ok(
            Issuance {
                certificate_id: managed.id.clone(),
                domains,
                replaces,
                challenge_ttl,
                stage: IssueStage::Placing,
                guards: Vec::new(),
                private_key: text::owned(""),
                issued: None,
            },
        )
    }

    /// What to ask next.
    pub fn action(&self) -> (r: IssueAction)
        ensures
            r == action_of(self.stage),
    {
        match self.stage {
            IssueStage::Placing => IssueAction::PlaceOrder,
            IssueStage::Authorizing => IssueAction::NextAuthorization,
            IssueStage::Announcing => IssueAction::Announce,
            IssueStage::Polling => IssueAction::Poll { pause_ms: POLL_PAUSE_MS, seconds: POLL_SECONDS },
            IssueStage::Finalizing => IssueAction::Finalize,
            IssueStage::Downloading => IssueAction::Download { pause_ms: POLL_PAUSE_MS, seconds: POLL_SECONDS },
            IssueStage::Issued => IssueAction::Finish,
            IssueStage::Failed(e) => IssueAction::GiveUp(e),
        }
    }

    /// Takes the challenges away and goes on to a stage.
    fn clear(&mut self, registry: &mut ChallengeRegistry<Issued>, stage: IssueStage)
        requires
            old(registry).wf(),
        ensures
            final(registry).wf(),
            cleared(*old(self), stage, old(registry)@, *final(self), final(registry)@),
    {
        let ghost m = registry@;
        let mut i: usize = 0;
        while i < self.guards.len()
            invariant
                i <= self.guards@.len(),
                *self == *old(self),
                m == old(registry)@,
                registry.wf(),
                registry@ == without(m, self.guards@.take(i as int)),
            decreases self.guards@.len() - i,
        {
            registry.release(&self.guards[i]);
            assert(self.guards@.take(i + 1).drop_last() =~= self.guards@.take(i as int));
            i = i + 1;
        }
        assert(self.guards@.take(i as int) =~= self.guards@);
        self.guards = Vec::new();
        self.stage = stage;
    }

    /// Takes in what came back. However an order ends, the challenges that it
    /// made available are taken away, and they are gone before it is
    /// finalized.
    pub fn issue(&mut self, registry: &mut ChallengeRegistry<Issued>, reply: IssueReply, clock: u64, now: i64) -> (r:
        IssueAction)
        requires
            old(self).wf(),
            old(registry).wf(),
            clock + old(self).challenge_ttl <= u64::MAX,
            60 <= now <= utc::MAX_SECONDS - 900,
        ensures
            final(self).wf(),
            final(registry).wf(),
            reply_taken(*old(self), old(registry)@, reply, clock, now, *final(self), final(registry)@),
            r == action_of(final(self).stage),
    {
        match (self.stage, reply) {
            (IssueStage::Issued, _) => {},
            (IssueStage::Failed(_), _) => {},
            (IssueStage::Placing, IssueReply::Done) => {
                self.stage = IssueStage::Authorizing;
            },
            (
                IssueStage::Authorizing,
                IssueReply::Authorization { state, offers_tls_alpn, identifier, key_authorization },
            ) => match client::authorize(state, offers_tls_alpn, &identifier) {
                Err(e) => self.clear(registry, IssueStage::Failed(e)),
                Ok(None) => {},
                Ok(Some(domain)) => match registry.provision(
                    domain.as_str(),
                    key_authorization.as_slice(),
                    self.challenge_ttl,
                    clock,
                    now,
                ) {
                    Ok(guard) => {
                        self.guards.push(guard);
                        assert(self.guards@.drop_last() =~= old(self).guards@);
                        self.stage = IssueStage::Announcing;
                    },
                    Err(ChallengeError::InvalidDomain) => self.clear(registry, IssueStage::Failed(IssueError::InvalidDomain)),
                    Err(ChallengeError::NoCertificate) => self.clear(registry, IssueStage::Failed(IssueError::NotProvisioned)),
                },
            },
            (IssueStage::Authorizing, IssueReply::NoMoreAuthorizations) => {
                self.stage = IssueStage::Polling;
            },
            (IssueStage::Announcing, IssueReply::Done) => {
                self.stage = IssueStage::Authorizing;
            },
            (IssueStage::Polling, IssueReply::Status { ready }) => if ready {
                self.clear(registry, IssueStage::Finalizing)
            } else {
                self.clear(registry, IssueStage::Failed(IssueError::NotReady))
            },
            (IssueStage::Finalizing, IssueReply::PrivateKey(key)) => {
                self.private_key = key;
                self.stage = IssueStage::Downloading;
            },
            (IssueStage::Downloading, IssueReply::Chain(chain)) => match client::generation_from_pem(
                self.certificate_id.as_str(),
                chain.as_str(),
                self.private_key.as_str(),
                now,
            ) {
                Ok(generation) => {
                    self.issued = Some(generation);
                    self.stage = IssueStage::Issued;
                },
                Err(e) => self.clear(registry, IssueStage::Failed(e)),
            },
            (IssueStage::Placing, _) => self.clear(registry, IssueStage::Failed(IssueError::NotPlaced)),
            (IssueStage::Authorizing, _) => self.clear(registry, IssueStage::Failed(IssueError::NoAuthorization)),
            (IssueStage::Announcing, _) => self.clear(registry, IssueStage::Failed(IssueError::NotAnnounced)),
            (IssueStage::Polling, _) => self.clear(registry, IssueStage::Failed(IssueError::NotPolled)),
            (IssueStage::Finalizing, _) => self.clear(registry, IssueStage::Failed(IssueError::NotFinalized)),
            (IssueStage::Downloading, _) => self.clear(registry, IssueStage::Failed(IssueError::NotDownloaded)),
        }
        self.action()
    }
}

proof fn lemma_without(m: Challenges, guards: Seq<ChallengeGuard>)
    ensures
        forall|k: Seq<char>| #[trigger] without(m, guards).dom().contains(k) ==> m.dom().contains(k) && without(m, guards)[k]
            == m[k],
        forall|k: Seq<char>| #[trigger]
            m.dom().contains(k) && !without(m, guards).dom().contains(k) ==> exists|i: int|
                0 <= i < guards.len() && (#[trigger] guards[i]).domain@ == k && guards[i].nonce == m[k].nonce,
        forall|i: int| 0 <= i < guards.len() ==> !stands(without(m, guards), #[trigger] guards[i]),
    decreases guards.len(),
{
    if guards.len() > 0 {
        let g = guards.drop_last();
        let w = without(m, g);
        lemma_without(m, g);
        assert forall|k: Seq<char>| #[trigger]
            m.dom().contains(k) && !without(m, guards).dom().contains(k) implies exists|i: int|
            0 <= i < guards.len() && (#[trigger] guards[i]).domain@ == k && guards[i].nonce == m[k].nonce by {
            if w.dom().contains(k) {
                assert(guards[guards.len() - 1].domain@ == k);
            } else {
                let i = choose|i: int|
                    0 <= i < g.len() && (#[trigger] g[i]).domain@ == k && g[i].nonce == m[k].nonce;
                assert(guards[i] == g[i]);
            }
        }
        assert forall|i: int| 0 <= i < guards.len() implies !stands(without(m, guards), #[trigger] guards[i]) by {
            if i < guards.len() - 1 {
                assert(!stands(w, g[i]));
            }
        }
    }
}

/// No challenge outlives its order: once an order is past its authorizations,
/// whether it goes on or has failed, none of the challenges that it made
/// available is there any more, and no other challenge was touched by that.
pub proof fn no_challenge_outlives_its_order(
    s: Issuance,
    m: Challenges,
    reply: IssueReply,
    clock: u64,
    now: i64,
    t: Issuance,
    n: Challenges,
)
    requires
        s.wf(),
        t.wf(),
        reply_taken(s, m, reply, clock, now, t, n),
        t.stage is Finalizing || t.stage is Downloading || t.stage is Issued || t.stage is Failed,
    ensures
        forall|i: int| 0 <= i < s.guards@.len() ==> !stands(n, #[trigger] s.guards@[i]),
        forall|k: Seq<char>| #[trigger]
            m.dom().contains(k) && !(exists|i: int|
                0 <= i < s.guards@.len() && (#[trigger] s.guards@[i]).domain@ == k && s.guards@[i].nonce == m[k].nonce)
                ==> n.dom().contains(k) && n[k] == m[k],
{
    lemma_without(m, s.guards@);
}

/// An order is finalized only after the authority found it ready.
pub proof fn only_a_ready_order_is_finalized(
    s: Issuance,
    m: Challenges,
    reply: IssueReply,
    clock: u64,
    now: i64,
    t: Issuance,
    n: Challenges,
)
    requires
        reply_taken(s, m, reply, clock, now, t, n),
        t.stage is Finalizing,
    ensures
        s.stage is Polling,
        reply == (IssueReply::Status { ready: true }),
{
}

/// A certificate is issued only from a chain that holds together.
pub proof fn an_issued_chain_is_valid(
    s: Issuance,
    m: Challenges,
    reply: IssueReply,
    clock: u64,
    now: i64,
    t: Issuance,
    n: Challenges,
)
    requires
        reply_taken(s, m, reply, clock, now, t, n),
        !(s.stage is Issued),
        t.stage is Issued,
    ensures
        s.stage is Downloading,
        reply matches IssueReply::Chain(chain) && client::blocks_of(chain@).len() > 0 && client::all_read(
            client::blocks_of(chain@),
        ) && client::chain_error(client::blocks_of(chain@), 0) is None,
{
}

/// An order of which every step succeeds ends issued: it is placed, each of its
/// authorizations is met, it is polled until it is ready, finalized and
/// downloaded, one step after the other.
pub proof fn an_order_that_succeeds_is_issued(
    s: Issuance,
    m: Challenges,
    reply: IssueReply,
    clock: u64,
    now: i64,
    t: Issuance,
    n: Challenges,
)
    requires
        reply_taken(s, m, reply, clock, now, t, n),
    ensures
        s.stage is Placing && reply is Done ==> t.stage is Authorizing,
        s.stage is Authorizing && reply is NoMoreAuthorizations ==> t.stage is Polling && n == m,
        s.stage is Authorizing && (reply matches IssueReply::Authorization { state, .. } && state
            == client::AuthorizationState::Valid) ==> t == s && n == m,
        s.stage is Announcing && reply is Done ==> t.stage is Authorizing && n == m,
        s.stage is Polling && reply == (IssueReply::Status { ready: true }) ==> t.stage is Finalizing,
        s.stage is Finalizing && reply is PrivateKey ==> t.stage is Downloading && reply == IssueReply::PrivateKey(
            t.private_key,
        ),
        s.stage is Downloading && (reply matches IssueReply::Chain(chain) && ({
            let blocks = client::blocks_of(chain@);
            blocks.len() > 0 && client::all_read(blocks) && client::chain_error(blocks, 0) is None
        })) ==> t.stage is Issued,
        reply is Failed && !(s.stage is Issued) ==> t.stage is Failed,
{
}

/// What is done at a stage belongs to that stage.
pub proof fn each_stage_has_its_action(stage: IssueStage)
    ensures
        stage is Placing <==> action_of(stage) is PlaceOrder,
        stage is Authorizing <==> action_of(stage) is NextAuthorization,
        stage is Announcing <==> action_of(stage) is Announce,
        stage is Polling <==> action_of(stage) is Poll,
        stage is Finalizing <==> action_of(stage) is Finalize,
        stage is Downloading <==> action_of(stage) is Download,
        stage is Issued <==> action_of(stage) is Finish,
        stage matches IssueStage::Failed(e) ==> action_of(stage) == IssueAction::GiveUp(e),
{
}

/// The authority is asked twice a second for three minutes at most.
pub proof fn an_order_is_polled_for_three_minutes(stage: IssueStage)
    ensures
        stage is Polling ==> action_of(stage) == (IssueAction::Poll { pause_ms: 500, seconds: 180 }),
        stage is Downloading ==> action_of(stage) == (IssueAction::Download { pause_ms: 500, seconds: 180 }),
{
}

} // verus!
