//! Scans for certificates that are due, and the renewals of a scan one after
//! the other.
use vstd::prelude::*;

verus! {

/// Twelve hours.
pub const DEFAULT_SCAN_INTERVAL: u64 = 43200000;

/// Five minutes.
pub const DEFAULT_RENEWAL_DEADLINE: u64 = 300000;

#[derive(Debug)]
pub struct RenewalCandidate {
    pub certificate_id: String,
    pub domains: Vec<String>,
    pub provider_id: String,
}

#[derive(Debug, Clone, Copy, PartialEq, Eq, Structural)]
pub enum ScanTrigger {
    Startup,
    Scheduled,
    Manual,
}

impl ScanTrigger {
    pub open spec fn text(self) -> Seq<char> {
        match self {
            ScanTrigger::Startup => "startup"@,
            ScanTrigger::Scheduled => "scheduled"@,
            ScanTrigger::Manual => "manual"@,
        }
    }

    pub fn as_str(self) -> (r: &'static str)
        ensures
            r@ == self.text(),
    {
        match self {
            ScanTrigger::Startup => "startup",
            ScanTrigger::Scheduled => "scheduled",
            ScanTrigger::Manual => "manual",
        }
    }
}

#[derive(Debug, Clone, Copy, PartialEq, Eq, Structural)]
pub struct ScanSummary {
    pub due: usize,
    pub renewed: usize,
    pub failed: usize,
    pub timed_out: usize,
}

impl Default for ScanSummary {
    fn default() -> (r: ScanSummary)
        ensures
            r == (ScanSummary { due: 0, renewed: 0, failed: 0, timed_out: 0 }),
    {
        ScanSummary { due: 0, renewed: 0, failed: 0, timed_out: 0 }
    }
}

/// What a renewal came to.
#[derive(Debug, Clone, Copy, PartialEq, Eq, Structural)]
pub enum RenewalOutcome {
    Renewed,
    Failed,
    /// The deadline passed.
    TimedOut,
}

/// What a scheduler is made with. Times are in milliseconds.
#[derive(Debug, Clone, Copy, PartialEq, Eq, Structural)]
pub struct RenewalScheduler {
    pub scan_interval: u64,
    pub renewal_deadline: u64,
}

impl RenewalScheduler {
    pub open spec fn wf(self) -> bool {
        self.scan_interval > 0 && self.renewal_deadline > 0
    }

    pub fn new() -> (r: RenewalScheduler)
        ensures
            r.wf(),
            r.scan_interval == DEFAULT_SCAN_INTERVAL,
            r.renewal_deadline == DEFAULT_RENEWAL_DEADLINE,
    {
        RenewalScheduler::with_timing(DEFAULT_SCAN_INTERVAL, DEFAULT_RENEWAL_DEADLINE)
    }

    pub fn with_timing(scan_interval: u64, renewal_deadline: u64) -> (r: RenewalScheduler)
        requires
            scan_interval > 0,
            renewal_deadline > 0,
        ensures
            r.wf(),
            r.scan_interval == scan_interval,
            r.renewal_deadline == renewal_deadline,
    {
        RenewalScheduler { scan_interval, renewal_deadline }
    }
}

/// When the next scan is made. A request while a scan is under way is kept,
/// but only one.
#[derive(Debug, Clone, Copy, PartialEq, Eq, Structural)]
pub struct ScanQueue {
    pub started: bool,
    pub requested: bool,
}

impl ScanQueue {
    pub fn new() -> (r: ScanQueue)
        ensures
            r == (ScanQueue { started: false, requested: false }),
    {
        ScanQueue { started: false, requested: false }
    }

    /// Asks for a scan as soon as none is under way.
    pub fn request_scan(&mut self)
        ensures
            *final(self) == (ScanQueue { requested: true, ..*old(self) }),
    {
        self.requested = true;
    }

    /// The scan to make now: one at the start, one on request, and one at
    /// every tick of the interval. The first scan does not wait for a tick.
    pub fn next_scan(&mut self, ticked: bool) -> (r: Option<ScanTrigger>)
        ensures
            !old(self).started ==> r == Some(ScanTrigger::Startup) && *final(self) == (ScanQueue {
                started: true,
                ..*old(self)
            }),
            old(self).started && ticked ==> r == Some(ScanTrigger::Scheduled) && *final(self) == *old(self),
            old(self).started && !ticked && old(self).requested ==> r == Some(ScanTrigger::Manual) && *final(self) == (
            ScanQueue { requested: false, ..*old(self) }),
            old(self).started && !ticked && !old(self).requested ==> r is None && *final(self) == *old(self),
    {
        if !self.started {
            self.started = true;
            return Some(ScanTrigger::Startup);
        }
        if ticked {
            return Some(ScanTrigger::Scheduled);
        }
        if self.requested {
            self.requested = false;
            return Some(ScanTrigger::Manual);
        }
        None
    }
}

/// How many of the outcomes are as given.
pub open spec fn count(outcomes: Seq<RenewalOutcome>, o: RenewalOutcome) -> nat
    decreases outcomes.len(),
{
    if outcomes.len() == 0 {
        0
    } else {
        count(outcomes.drop_last(), o) + (if outcomes.last() == o {
            1nat
        } else {
            0nat
        })
    }
}

/// Whether `s` sums up the outcomes of so many candidates.
pub open spec fn summarizes(s: ScanSummary, due: nat, outcomes: Seq<RenewalOutcome>) -> bool {
    &&& s.due == due
    &&& s.renewed == count(outcomes, RenewalOutcome::Renewed)
    &&& s.failed == count(outcomes, RenewalOutcome::Failed) + count(outcomes, RenewalOutcome::TimedOut)
    &&& s.timed_out == count(outcomes, RenewalOutcome::TimedOut)
}

proof fn lemma_counts(outcomes: Seq<RenewalOutcome>)
    ensures
        count(outcomes, RenewalOutcome::Renewed) + count(outcomes, RenewalOutcome::Failed) + count(
            outcomes,
            RenewalOutcome::TimedOut,
        ) == outcomes.len(),
    decreases outcomes.len(),
{
    if outcomes.len() > 0 {
        lemma_counts(outcomes.drop_last());
    }
}

/// A scan under way: its candidates are renewed one after the other.
pub struct Scan {
    pub candidates: Vec<RenewalCandidate>,
    pub outcomes: Vec<RenewalOutcome>,
    pub summary: ScanSummary,
}

/// What a scan does next.
#[derive(Debug)]
pub enum ScanStep<'a> {
    /// Renew this candidate within so many milliseconds.
    Renew { candidate: &'a RenewalCandidate, deadline: u64 },
    /// The scan is over.
    Finished(ScanSummary),
}

impl Scan {
    pub open spec fn wf(self) -> bool {
        &&& self.outcomes@.len() <= self.candidates@.len()
        &&& summarizes(self.summary, self.candidates@.len(), self.outcomes@)
    }

    /// Begins a scan with the certificates that are due.
    pub fn start(candidates: Vec<RenewalCandidate>) -> (r: Scan)
        ensures
            r.wf(),
            r.candidates == candidates,
            r.outcomes@.len() == 0,
    {
        let due = candidates.len();
        Scan {
            candidates,
            outcomes: Vec::new(),
            summary: ScanSummary { due, renewed: 0, failed: 0, timed_out: 0 },
        }
    }

    /// The next candidate, or the summary once every candidate has had its
    /// turn.
    pub fn run_once(&self, scheduler: &RenewalScheduler) -> (r: ScanStep<'_>)
        requires
            self.wf(),
            scheduler.wf(),
        ensures
            self.outcomes@.len() < self.candidates@.len() ==> (r matches ScanStep::Renew { candidate, deadline } && *candidate
                == self.candidates@[self.outcomes@.len() as int] && deadline == scheduler.renewal_deadline),
            self.outcomes@.len() == self.candidates@.len() ==> (r matches ScanStep::Finished(s) && s == self.summary),
    {
        if self.outcomes.len() < self.candidates.len() {
            ScanStep::Renew {
                candidate: &self.candidates[self.outcomes.len()],
                deadline: scheduler.renewal_deadline,
            }
        } else {
            ScanStep::Finished(self.summary)
        }
    }

    /// Takes in what the renewal came to; whatever it was, the scan goes on.
    /// Yields whether the timeout has to be recorded with the certificate.
    pub fn record(&mut self, outcome: RenewalOutcome) -> (r: bool)
        requires
            old(self).wf(),
            old(self).outcomes@.len() < old(self).candidates@.len(),
        ensures
            final(self).wf(),
            final(self).candidates == old(self).candidates,
            final(self).outcomes@ == old(self).outcomes@.push(outcome),
            r == (outcome == RenewalOutcome::TimedOut),
    {
        proof {
            lemma_counts(self.outcomes@);
            assert(self.outcomes@.push(outcome).drop_last() =~= self.outcomes@);
        }
        match outcome {
            RenewalOutcome::Renewed => {
                self.summary.renewed = self.summary.renewed + 1;
            },
            RenewalOutcome::Failed => {
                self.summary.failed = self.summary.failed + 1;
            },
            RenewalOutcome::TimedOut => {
                self.summary.failed = self.summary.failed + 1;
                self.summary.timed_out = self.summary.timed_out + 1;
            },
        }
        self.outcomes.push(outcome);
        outcome == RenewalOutcome::TimedOut
    }
}

/// At the end of a scan every due certificate was renewed or failed, and a
/// timeout is a failure.
pub proof fn every_candidate_is_accounted_for(s: Scan)
    requires
        s.wf(),
        s.outcomes@.len() == s.candidates@.len(),
    ensures
        s.summary.due == s.summary.renewed + s.summary.failed,
        s.summary.timed_out <= s.summary.failed,
{
    lemma_counts(s.outcomes@);
}

/// Every outcome is counted once, for what it is.
pub proof fn every_outcome_counts_once(outcomes: Seq<RenewalOutcome>, o: RenewalOutcome, p: RenewalOutcome)
    ensures
        count(Seq::empty(), p) == 0,
        count(outcomes.push(p), p) == count(outcomes, p) + 1,
        o != p ==> count(outcomes.push(o), p) == count(outcomes, p),
{
    assert(outcomes.push(p).drop_last() =~= outcomes);
    assert(outcomes.push(o).drop_last() =~= outcomes);
}

/// The first scan does not wait; afterwards every tick brings a scan, and a
/// request brings one, once.
pub proof fn a_requested_scan_is_made_once(
    first: &mut ScanQueue,
    second: &mut ScanQueue,
    third: &mut ScanQueue,
    r: Option<ScanTrigger>,
    s: Option<ScanTrigger>,
)
    requires
        call_ensures(ScanQueue::request_scan, (first,), ()),
        *old(second) == *final(first),
        call_ensures(ScanQueue::next_scan, (second, false), r),
        *old(third) == *final(second),
        call_ensures(ScanQueue::next_scan, (third, false), s),
    ensures
        old(first).started ==> r == Some(ScanTrigger::Manual) && s is None,
        !old(first).started ==> r == Some(ScanTrigger::Startup) && s == Some(ScanTrigger::Manual),
{
}

/// Every tick of the interval brings a scan, and leaves a request for one to come.
pub proof fn every_tick_brings_a_scan(queue: &mut ScanQueue, r: Option<ScanTrigger>)
    requires
        call_ensures(ScanQueue::next_scan, (queue, true), r),
    ensures
        r is Some,
        old(queue).started ==> r == Some(ScanTrigger::Scheduled) && final(queue).requested == old(queue).requested,
{
}

/// Candidates have their turn one by one, each with the whole deadline, until
/// all have had it.
pub proof fn every_candidate_has_its_turn(scan: Scan, scheduler: RenewalScheduler, r: ScanStep<'_>)
    requires
        scan.wf(),
        call_ensures(Scan::run_once, (&scan, &scheduler), r),
    ensures
        r is Finished <==> scan.outcomes@.len() == scan.candidates@.len(),
        r matches ScanStep::Renew { candidate, deadline } ==> *candidate == scan.candidates@[scan.outcomes@.len() as int]
            && deadline == scheduler.renewal_deadline,
{
}

/// Certificates are looked at every twelve hours, and a renewal has five
/// minutes, unless it is said otherwise.
pub proof fn scans_are_twelve_hours_apart(r: RenewalScheduler)
    requires
        call_ensures(RenewalScheduler::new, (), r),
    ensures
        r.scan_interval == 12 * 3600 * 1000,
        r.renewal_deadline == 5 * 60 * 1000,
{
}

} // verus!
