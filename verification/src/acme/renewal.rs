//! The renewal of one certificate, from the candidate that a scan found to the
//! generation that takes over. What has to be loaded, asked and stored is done
//! outside: a renewal says how far it got and takes in what came back.
use vstd::prelude::*;
use crate::acme::backend::{self, AriSuggestion, RenewRefusal};
use crate::acme::scheduler::RenewalCandidate;
use crate::acme_types::{CertificateGeneration, ManagedCertificate, RenewalState};
use crate::managed_tls::{self, GenerationError};
use crate::text;
use crate::utc;

verus! {

/// How far a renewal got.
#[derive(Debug, Clone, Copy, PartialEq, Eq, Structural)]
pub enum RenewStage {
    /// The managed certificate is loaded.
    Loading,
    /// The public addresses of its domains are verified.
    Verifying,
    /// The provider's account is opened.
    OpeningAccount,
    /// The active generation is loaded.
    LoadingPrevious,
    /// The certificate is ordered.
    Issuing,
    /// The authority is asked when to renew next.
    Suggesting,
    /// The new generation takes over.
    Activating,
    Renewed,
    Failed,
}

/// What came back.
#[derive(Debug)]
pub enum RenewReply {
    Done,
    Managed(Option<ManagedCertificate>),
    Previous(Option<CertificateGeneration>),
    Issued(CertificateGeneration),
    /// What the authority suggests, if it suggests anything.
    Suggestion(Option<AriSuggestion>),
    /// What was asked for could not be done.
    Failed(String),
}

/// Why a renewal failed.
#[derive(Debug)]
pub enum RenewalFailure {
    /// The candidate is no longer what the scan found.
    Refused(RenewRefusal),
    /// What was issued cannot be used.
    Unusable(GenerationError),
    /// Something outside failed.
    Outside(String),
}

/// The renewal of a certificate.
pub struct Renewal {
    pub candidate: RenewalCandidate,
    pub stage: RenewStage,
    pub managed: Option<ManagedCertificate>,
    pub previous: Option<CertificateGeneration>,
    /// What was issued and validated, and when.
    pub generation: Option<CertificateGeneration>,
    pub validated_at: i64,
    /// What is recorded with the new generation.
    pub state: Option<RenewalState>,
    pub failure: Option<RenewalFailure>,
}

/// A renewal that ended with a failure.
pub open spec fn failed_with(s: Renewal, failure: RenewalFailure) -> Renewal {
    Renewal { stage: RenewStage::Failed, failure: Some(failure), ..s }
}

/// Whether a renewal ended because something outside failed.
pub open spec fn failed_outside(s: Renewal, t: Renewal, reply: RenewReply) -> bool {
    &&& t == (Renewal { stage: RenewStage::Failed, failure: t.failure, ..s })
    &&& t.failure matches Some(RenewalFailure::Outside(text)) && match reply {
        RenewReply::Failed(cause) => text == cause,
        _ => text@.len() == 0,
    }
}

/// What the authority suggested, if it did.
pub open spec fn suggestion_in(reply: RenewReply) -> Option<AriSuggestion> {
    match reply {
        RenewReply::Suggestion(s) => s,
        _ => None,
    }
}

/// Whether a renewal `s` became `t` by a reply.
pub open spec fn reply_taken(s: Renewal, reply: RenewReply, now: i64, t: Renewal) -> bool {
    match (s.stage, reply) {
        (RenewStage::Renewed, _) => t == s,
        (RenewStage::Failed, _) => t == s,
        (RenewStage::Loading, RenewReply::Managed(m)) => match backend::refusal_of(m, s.candidate) {
            Some(e) => t == failed_with(s, RenewalFailure::Refused(e)),
            None => t == (Renewal { stage: RenewStage::Verifying, managed: m, ..s }),
        },
        (RenewStage::Verifying, RenewReply::Done) => t == (Renewal { stage: RenewStage::OpeningAccount, ..s }),
        (RenewStage::OpeningAccount, RenewReply::Done) => t == (Renewal { stage: RenewStage::LoadingPrevious, ..s }),
        (RenewStage::LoadingPrevious, RenewReply::Previous(p)) => t == (Renewal {
            stage: RenewStage::Issuing,
            previous: p,
            ..s
        }),
        (RenewStage::Issuing, RenewReply::Issued(g)) => match managed_tls::generation_error(s.managed->0, g, now) {
            Some(e) => t == failed_with(s, RenewalFailure::Unusable(e)),
            None => t == (Renewal { stage: RenewStage::Suggesting, generation: Some(g), validated_at: now, ..s }),
        },
        (RenewStage::Suggesting, _) => {
            &&& t == (Renewal { stage: RenewStage::Activating, state: t.state, ..s })
            &&& t.state is Some
            &&& backend::success_is(t.state->0, (s.managed->0).id@, suggestion_in(reply), now)
        },
        (RenewStage::Activating, RenewReply::Done) => t == (Renewal { stage: RenewStage::Renewed, ..s }),
        _ => failed_outside(s, t, reply),
    }
}

/// Whether a renewal is past having loaded its certificate.
pub open spec fn is_checked(stage: RenewStage) -> bool {
    !(stage is Loading) && !(stage is Failed)
}

/// Whether a renewal is past having validated what was issued.
pub open spec fn is_validated(stage: RenewStage) -> bool {
    stage is Suggesting || stage is Activating || stage is Renewed
}

impl Renewal {
    pub open spec fn wf(self) -> bool {
        &&& is_checked(self.stage) ==> self.managed is Some && backend::refusal_of(self.managed, self.candidate) is None
        &&& is_validated(self.stage) ==> self.generation is Some && managed_tls::generation_error(
            self.managed->0,
            self.generation->0,
            self.validated_at,
        ) is None
        &&& self.stage is Activating || self.stage is Renewed ==> self.state is Some && (self.state->0).certificate_id@
            == (self.managed->0).id@ && (self.state->0).consecutive_failures == 0
        &&& self.stage is Failed <==> self.failure is Some
    }

    /// Begins to renew a candidate.
    pub fn new(candidate: RenewalCandidate) -> (r: Renewal)
        ensures
            r.wf(),
            r == (Renewal {
                candidate,
                stage: RenewStage::Loading,
                managed: None,
                previous: None,
                generation: None,
                validated_at: 0,
                state: None,
                failure: None,
            }),
    {
        Renewal {
            candidate,
            stage: RenewStage::Loading,
            managed: None,
            previous: None,
            generation: None,
            validated_at: 0,
            state: None,
            failure: None,
        }
    }

    fn fail(&mut self, failure: RenewalFailure)
        ensures
            *final(self) == failed_with(*old(self), failure),
    {
        self.stage = RenewStage::Failed;
        self.failure = Some(failure);
    }

    /// Takes in what came back. Any failure ends the renewal, except that a
    /// suggestion which cannot be had is done without.
    pub fn renew_inner(&mut self, reply: RenewReply, now: i64) -> (r: RenewStage)
        requires
            old(self).wf(),
            utc::MIN_SECONDS <= now <= utc::MAX_SECONDS - backend::ARI_UNSUPPORTED_RETRY,
        ensures
            final(self).wf(),
            reply_taken(*old(self), reply, now, *final(self)),
            r == final(self).stage,
    {
        proof {
            reveal_strlit("");
        }
        match (self.stage, reply) {
            (RenewStage::Renewed, _) => {},
            (RenewStage::Failed, _) => {},
            (RenewStage::Loading, RenewReply::Managed(m)) => match backend::check_candidate(&m, &self.candidate) {
                Err(e) => self.fail(RenewalFailure::Refused(e)),
                Ok(()) => {
                    self.managed = m;
                    self.stage = RenewStage::Verifying;
                },
            },
            (RenewStage::Verifying, RenewReply::Done) => {
                self.stage = RenewStage::OpeningAccount;
            },
            (RenewStage::OpeningAccount, RenewReply::Done) => {
                self.stage = RenewStage::LoadingPrevious;
            },
            (RenewStage::LoadingPrevious, RenewReply::Previous(p)) => {
                self.previous = p;
                self.stage = RenewStage::Issuing;
            },
            (RenewStage::Issuing, RenewReply::Issued(g)) => {
                if let Some(m) = &self.managed {
                    match managed_tls::validate_generation(m, &g, now) {
                        Err(e) => self.fail(RenewalFailure::Unusable(e)),
                        Ok(()) => {
                            self.generation = Some(g);
                            self.validated_at = now;
                            self.stage = RenewStage::Suggesting;
                        },
                    }
                }
            },
            (RenewStage::Suggesting, reply) => {
                let suggestion = match reply {
                    RenewReply::Suggestion(s) => s,
                    _ => None,
                };
                if let Some(m) = &self.managed {
                    self.state = Some(backend::success_state(m.id.as_str(), &suggestion, now));
                    self.stage = RenewStage::Activating;
                }
            },
            (RenewStage::Activating, RenewReply::Done) => {
                self.stage = RenewStage::Renewed;
            },
            (_, RenewReply::Failed(cause)) => self.fail(RenewalFailure::Outside(cause)),
            (_, _) => self.fail(RenewalFailure::Outside(text::owned(""))),
        }
        self.stage
    }
}

/// What takes over was issued for the candidate that the scan found, and was
/// found usable for it: the certificate is enabled, its provider and its
/// domains are those of the candidate, and the generation passed every check.
pub proof fn only_a_validated_generation_takes_over(s: Renewal)
    requires
        s.wf(),
        s.stage is Activating || s.stage is Renewed,
    ensures
        s.managed is Some,
        s.generation is Some,
        s.state is Some,
        (s.managed->0).enabled,
        (s.managed->0).provider_id@ == s.candidate.provider_id@,
        text::views((s.managed->0).domains@) == text::views(s.candidate.domains@),
        managed_tls::generation_error(s.managed->0, s.generation->0, s.validated_at) is None,
{
}

/// No authority is contacted before the public addresses of the domains were
/// verified: a renewal gets past its verification only if that succeeded.
pub proof fn verification_comes_first(s: Renewal, reply: RenewReply, now: i64, t: Renewal)
    requires
        reply_taken(s, reply, now, t),
        t.stage is OpeningAccount,
    ensures
        s.stage is Verifying,
        reply is Done,
{
}

/// A renewal always moves on or is over, so that it ends after finitely many
/// replies.
pub proof fn a_renewal_moves_on(s: Renewal, reply: RenewReply, now: i64, t: Renewal)
    requires
        reply_taken(s, reply, now, t),
    ensures
        s.stage is Renewed || s.stage is Failed || rank(t.stage) > rank(s.stage),
{
}

/// How far a stage is from the start.
pub open spec fn rank(stage: RenewStage) -> int {
    match stage {
        RenewStage::Loading => 0,
        RenewStage::Verifying => 1,
        RenewStage::OpeningAccount => 2,
        RenewStage::LoadingPrevious => 3,
        RenewStage::Issuing => 4,
        RenewStage::Suggesting => 5,
        RenewStage::Activating => 6,
        RenewStage::Renewed => 7,
        RenewStage::Failed => 7,
    }
}

/// A renewal of which every step succeeds ends renewed: the certificate is
/// loaded, verified, ordered, found usable, and takes over, one step after the
/// other.
pub proof fn a_renewal_that_succeeds_takes_over(s: Renewal, reply: RenewReply, now: i64, t: Renewal)
    requires
        reply_taken(s, reply, now, t),
    ensures
        s.stage is Loading && (reply matches RenewReply::Managed(m) && backend::refusal_of(m, s.candidate) is None)
            ==> t.stage is Verifying && RenewReply::Managed(t.managed) == reply,
        s.stage is Verifying && reply is Done ==> t.stage is OpeningAccount,
        s.stage is OpeningAccount && reply is Done ==> t.stage is LoadingPrevious,
        s.stage is LoadingPrevious && reply is Previous ==> t.stage is Issuing,
        s.stage is Issuing && (reply matches RenewReply::Issued(g) && managed_tls::generation_error(s.managed->0, g, now) is None)
            ==> t.stage is Suggesting && reply == RenewReply::Issued(t.generation->0),
        s.stage is Suggesting ==> t.stage is Activating,
        s.stage is Activating && reply is Done ==> t.stage is Renewed,
        !(s.stage is Suggesting) && reply is Failed ==> t.stage is Failed || t.stage is Renewed,
{
}

} // verus!
