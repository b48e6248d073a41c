//! The manager of the listeners: starting and stopping them all, and what is
//! known of each.
use vstd::prelude::*;
use crate::active_tracker;
use crate::active_tracker::{ActiveConnection, ActiveTracker};
use crate::table::Table;
use crate::text;

verus! {

#[derive(Debug, Clone, Copy, PartialEq, Eq, Structural)]
pub enum Status {
    STARTING,
    STARTED,
    STOPPING,
    STOPPED,
}

impl Status {
    pub open spec fn text(self) -> Seq<char> {
        match self {
            Status::STARTING => "STARTING"@,
            Status::STARTED => "STARTED"@,
            Status::STOPPING => "STOPPING"@,
            Status::STOPPED => "STOPPED"@,
        }
    }

    pub fn name(self) -> (r: &'static str)
        ensures
            r@ == self.text(),
    {
        match self {
            Status::STARTING => "STARTING",
            Status::STARTED => "STARTED",
            Status::STOPPING => "STOPPING",
            Status::STOPPED => "STOPPED",
        }
    }
}

#[derive(Debug)]
pub struct ManagerStatusSerde {
    pub status: String,
    pub uptime_ms: Option<u64>,
}

/// Why the manager does not start.
#[derive(Debug, Clone, Copy, PartialEq, Eq, Structural)]
pub enum StartError {
    StillRunning,
    NoListener,
}

impl StartError {
    pub open spec fn text(self) -> Seq<char> {
        match self {
            StartError::StillRunning => "failed to start, still running"@,
            StartError::NoListener => "failed to start, no listener"@,
        }
    }

    pub fn message(self) -> (r: &'static str)
        ensures
            r@ == self.text(),
    {
        match self {
            StartError::StillRunning => "failed to start, still running",
            StartError::NoListener => "failed to start, no listener",
        }
    }
}

/// The state of the manager. Times are in milliseconds.
pub struct Manager {
    pub status: Status,
    pub started_at: Option<u64>,
    /// The listeners that run.
    pub listeners: Vec<String>,
    /// What became of the start of each listener: nothing, or why it failed.
    pub listener_status: Table<String, Option<String>>,
}

/// What became of the listeners' starts: for each, why it failed, if it did.
pub open spec fn outcomes(m: Map<Seq<char>, Option<String>>) -> Map<Seq<char>, Option<Seq<char>>> {
    m.map_values(
        |v: Option<String>|
            match v {
                Some(cause) => Some(cause@),
                None => None,
            },
    )
}

/// Why there was no start.
#[derive(Debug)]
pub enum StartFailure {
    Refused(StartError),
    /// The certificate authority is not available.
    NoAuthority(String),
}

/// Why a start with so many listeners is refused, if it is.
pub open spec fn start_error(m: Manager, listener_count: nat) -> Option<StartError> {
    if m.status != Status::STOPPED {
        Some(StartError::StillRunning)
    } else if listener_count == 0 {
        Some(StartError::NoListener)
    } else {
        None
    }
}

/// What became of each listener by the reports.
pub open spec fn reported(reports: Seq<(String, Option<String>)>) -> Map<Seq<char>, Option<String>>
    decreases reports.len(),
{
    if reports.len() == 0 {
        Map::empty()
    } else {
        reported(reports.drop_last()).insert(reports.last().0@, reports.last().1)
    }
}

/// The listeners that run by the reports, in order.
pub open spec fn running(reports: Seq<(String, Option<String>)>) -> Seq<Seq<char>>
    decreases reports.len(),
{
    if reports.len() == 0 {
        seq![]
    } else if reports.last().1 is None {
        running(reports.drop_last()).push(reports.last().0@)
    } else {
        running(reports.drop_last())
    }
}

impl Manager {
    pub open spec fn wf(self) -> bool {
        self.listener_status.wf()
    }

    pub fn new() -> (r: Manager)
        ensures
            r.wf(),
            r.status == Status::STOPPED,
            r.started_at is None,
            r.listeners@.len() == 0,
            r.listener_status@.dom() == Set::<Seq<char>>::empty(),
    {
        Manager {
            status: Status::STOPPED,
            started_at: None,
            listeners: Vec::new(),
            listener_status: Table::new(),
        }
    }

    /// Begins a start: only a stopped manager starts, and only with listeners.
    /// No connection is known from then on.
    pub fn begin_start(&mut self, listener_count: usize, tracker: &mut ActiveTracker) -> (r: Result<(), StartError>)
        requires
            old(self).wf(),
            old(tracker).wf(),
        ensures
            final(self).wf(),
            final(tracker).wf(),
            r is Err ==> *final(tracker) == *old(tracker),
            r is Ok ==> final(tracker)@ == Map::<(usize, Seq<char>), ActiveConnection>::empty(),
            old(self).status != Status::STOPPED ==> r == Err::<(), StartError>(StartError::StillRunning) && *final(self)
                == *old(self),
            old(self).status == Status::STOPPED && listener_count == 0 ==> r == Err::<(), StartError>(
                StartError::NoListener,
            ) && *final(self) == *old(self),
            old(self).status == Status::STOPPED && listener_count > 0 ==> {
                &&& r == Ok::<(), StartError>(())
                &&& final(self).status == Status::STARTING
                &&& final(self).started_at == old(self).started_at
                &&& final(self).listeners@.len() == 0
                &&& final(self).listener_status@.dom() == Set::<Seq<char>>::empty()
            },
    {
        if self.status != Status::STOPPED {
            return Err(StartError::StillRunning);
        }
        if listener_count == 0 {
            return Err(StartError::NoListener);
        }
        self.listeners.clear();
        self.listener_status.clear();
        self.status = Status::STARTING;
        active_tracker::reset(tracker);
        Ok(())
    }

    /// Gives up a start because the certificate authority is not available.
    pub fn abandon_start(&mut self)
        requires
            old(self).wf(),
        ensures
            final(self).wf(),
            *final(self) == (Manager { status: Status::STOPPED, ..*old(self) }),
    {
        self.status = Status::STOPPED;
    }

    /// Records what became of the start of a listener.
    pub fn listener_started(&mut self, name: String, failure: Option<String>)
        requires
            old(self).wf(),
        ensures
            final(self).wf(),
            final(self).status == old(self).status,
            final(self).started_at == old(self).started_at,
            final(self).listener_status@ == old(self).listener_status@.insert(name@, failure),
            text::views(final(self).listeners@) == if failure is None {
                text::views(old(self).listeners@).push(name@)
            } else {
                text::views(old(self).listeners@)
            },
    {
        if failure.is_none() {
            let ghost l0 = text::views(self.listeners@);
            self.listeners.push(name.clone());
            assert(text::views(self.listeners@) =~= l0.push(name@));
        }
        self.listener_status.insert(name, failure);
    }

    /// Ends a start once every listener has reported.
    pub fn finish_start(&mut self, now: u64)
        requires
            old(self).wf(),
        ensures
            final(self).wf(),
            *final(self) == (Manager { status: Status::STARTED, started_at: Some(now), ..*old(self) }),
    {
        self.status = Status::STARTED;
        self.started_at = Some(now);
    }

    /// A whole start: `authority` says whether the certificate authority is
    /// available, and `reports` what became of each listener, in the order in
    /// which they reported. Yields what became of each.
    pub fn start(
        &mut self,
        tracker: &mut ActiveTracker,
        authority: Result<(), String>,
        reports: Vec<(String, Option<String>)>,
        now: u64,
    ) -> (r: Result<Table<String, Option<String>>, StartFailure>)
        requires
            old(self).wf(),
            old(tracker).wf(),
        ensures
            final(self).wf(),
            final(tracker).wf(),
            match start_error(*old(self), reports@.len()) {
                Some(e) => r matches Err(StartFailure::Refused(f)) && f == e && *final(self) == *old(self)
                    && *final(tracker) == *old(tracker),
                None => final(tracker)@ == Map::<(usize, Seq<char>), ActiveConnection>::empty() && match authority {
                    Err(cause) => {
                        &&& r == Err::<Table<String, Option<String>>, StartFailure>(StartFailure::NoAuthority(cause))
                        &&& final(self).status == Status::STOPPED
                        &&& final(self).started_at == old(self).started_at
                        &&& final(self).listeners@.len() == 0
                        &&& final(self).listener_status@.dom() == Set::<Seq<char>>::empty()
                    },
                    Ok(()) => {
                        &&& r matches Ok(all) && all.wf() && outcomes(all@) == outcomes(reported(reports@))
                        &&& final(self).status == Status::STARTED
                        &&& final(self).started_at == Some(now)
                        &&& text::views(final(self).listeners@) == running(reports@)
                        &&& final(self).listener_status@ == reported(reports@)
                    },
                },
            },
    {
        match self.begin_start(reports.len(), tracker) {
            Ok(()) => {},
            Err(e) => return Err(StartFailure::Refused(e)),
        }
        match authority {
            Ok(()) => {},
            Err(cause) => {
                self.abandon_start();
                return Err(StartFailure::NoAuthority(cause));
            },
        }
        assert(text::views(self.listeners@) =~= running(reports@.take(0)));
        assert(self.listener_status@ =~= reported(reports@.take(0)));
        for report in it: reports
            invariant
                it.seq() == reports@,
                self.wf(),
                text::views(self.listeners@) == running(reports@.take(it.index())),
                self.listener_status@ == reported(reports@.take(it.index())),
        {
            assert(reports@.take(it.index() + 1).drop_last() =~= reports@.take(it.index()));
            self.listener_started(report.0, report.1);
        }
        assert(reports@.take(reports@.len() as int) =~= reports@);
        self.finish_start(now);
        Ok(self.get_listener_status())
    }

    /// Stops and forgets every connection; a stopped manager stays as it is.
    /// Yields whether there was anything to stop.
    pub fn stop(&mut self, tracker: &mut ActiveTracker) -> (r: bool)
        requires
            old(self).wf(),
            old(tracker).wf(),
        ensures
            final(self).wf(),
            final(tracker).wf(),
            !r ==> *final(tracker) == *old(tracker),
            r ==> final(tracker)@ == Map::<(usize, Seq<char>), ActiveConnection>::empty(),
            r == (old(self).status != Status::STOPPED),
            final(self).status == Status::STOPPED,
            !r ==> *final(self) == *old(self),
            r ==> final(self).started_at is None && final(self).listeners@.len() == 0
                && final(self).listener_status@.dom() == Set::<Seq<char>>::empty(),
    {
        if self.status == Status::STOPPED {
            return false;
        }
        self.started_at = None;
        self.listeners.clear();
        self.listener_status.clear();
        active_tracker::reset(tracker);
        self.status = Status::STOPPED;
        true
    }

    /// Whether a listener runs.
    pub fn is_running(&self, name: &str) -> (r: bool)
        ensures
            r == text::views(self.listeners@).contains(name@),
    {
        let ghost all = text::views(self.listeners@);
        let mut i: usize = 0;
        while i < self.listeners.len()
            invariant
                i <= self.listeners@.len(),
                all == text::views(self.listeners@),
                forall|k: int| 0 <= k < i ==> #[trigger] all[k] != name@,
            decreases self.listeners@.len() - i,
        {
            assert(all[i as int] == self.listeners@[i as int]@);
            if text::str_eq(self.listeners[i].as_str(), name) {
                return true;
            }
            i = i + 1;
        }
        false
    }

    pub fn get_run_status(&self) -> (r: Status)
        ensures
            r == self.status,
    {
        self.status
    }

    /// The status by name, and for how long the manager has been up.
    pub fn get_manager_status(&self, now: u64) -> (r: ManagerStatusSerde)
        ensures
            r.status@ == self.status.text(),
            r.uptime_ms == match self.started_at {
                Some(t) => Some(
                    if now > t {
                        (now - t) as u64
                    } else {
                        0
                    },
                ),
                None => None,
            },
    {
        let uptime_ms = match self.started_at {
            Some(t) => Some(now.saturating_sub(t)),
            None => None,
        };
        ManagerStatusSerde { status: text::owned(self.status.name()), uptime_ms }
    }

    /// What became of each listener's start.
    pub fn get_listener_status(&self) -> (r: Table<String, Option<String>>)
        requires
            self.wf(),
        ensures
            r.wf(),
            outcomes(r@) == outcomes(self.listener_status@),
    {
        let mut out: Table<String, Option<String>> = Table::new();
        let ghost s = self.listener_status.entries@;
        let mut i: usize = 0;
        assert(outcomes(out@) =~= outcomes(crate::table::map_of(s.take(0))));
        while i < self.listener_status.entries.len()
            invariant
                i <= self.listener_status.entries@.len(),
                s == self.listener_status.entries@,
                out.wf(),
                outcomes(out@) == outcomes(crate::table::map_of(s.take(i as int))),
            decreases self.listener_status.entries@.len() - i,
        {
            let ghost o0 = out@;
            assert(s.take(i + 1).drop_last() =~= s.take(i as int));
            let value = match &self.listener_status.entries[i].1 {
                Some(cause) => Some(cause.clone()),
                None => None,
            };
            out.insert(self.listener_status.entries[i].0.clone(), value);
            proof {
                let k = s[i as int].0@;
                let shown = match s[i as int].1 {
                    Some(cause) => Some(cause@),
                    None => None,
                };
                let m = crate::table::map_of(s.take(i as int));
                assert(outcomes(o0.insert(k, value)) =~= outcomes(o0).insert(k, shown));
                assert(outcomes(m.insert(k, s[i as int].1)) =~= outcomes(m).insert(k, shown));
                assert(crate::table::map_of(s.take(i + 1)) == m.insert(k, s[i as int].1));
            }
            i = i + 1;
        }
        assert(s.take(i as int) =~= s);
        out
    }
}

/// A listener runs if and only if its start did not fail, as long as every
/// listener reports once: one that fails does not keep the others from running.
pub proof fn the_listeners_that_started_run(reports: Seq<(String, Option<String>)>, name: Seq<char>)
    requires
        forall|i: int, j: int| 0 <= i < j < reports.len() ==> (#[trigger] reports[i]).0@ != (#[trigger] reports[j]).0@,
    ensures
        running(reports).contains(name) <==> reported(reports).dom().contains(name) && reported(reports)[name] is None,
        reported(reports).dom().contains(name) ==> exists|i: int|
            0 <= i < reports.len() && (#[trigger] reports[i]).0@ == name,
    decreases reports.len(),
{
    if reports.len() > 0 {
        let before = reports.drop_last();
        let last = reports.last();
        let r0 = running(before);
        let r = running(reports);
        the_listeners_that_started_run(before, name);
        if reported(before).dom().contains(name) {
            let i = choose|i: int| 0 <= i < before.len() && (#[trigger] before[i]).0@ == name;
            assert(reports[i].0@ == name);
            assert(reports[reports.len() - 1].0@ != name);
        }
        if name == last.0@ {
            assert(reports[reports.len() - 1].0@ == name);
        }
        if r0.contains(name) {
            let k = choose|k: int| 0 <= k < r0.len() && r0[k] == name;
            assert(r[k] == name);
        }
        if r.contains(name) {
            let k = choose|k: int| 0 <= k < r.len() && r[k] == name;
            if k < r0.len() {
                assert(r0[k] == name);
            }
        }
        if last.1 is None && name == last.0@ {
            assert(r[r.len() - 1] == name);
        }
    }
}

/// A manager that is stopped starts with any listener, and only without one, or
/// while it runs, it does not.
pub proof fn a_stopped_manager_starts(m: Manager, listener_count: nat)
    ensures
        start_error(m, listener_count) is None <==> m.status == Status::STOPPED && listener_count > 0,
        m.status != Status::STOPPED ==> start_error(m, listener_count) == Some(StartError::StillRunning),
{
}

/// A stopped manager with an authority starts whatever becomes of its listeners:
/// those that started run, and what became of each is known.
pub proof fn a_manager_starts_whatever_becomes_of_its_listeners(
    m: &mut Manager,
    tracker: &mut ActiveTracker,
    reports: Vec<(String, Option<String>)>,
    now: u64,
    r: Result<Table<String, Option<String>>, StartFailure>,
)
    requires
        call_ensures(Manager::start, (m, tracker, Ok(()), reports, now), r),
        old(m).status == Status::STOPPED,
        reports@.len() > 0,
    ensures
        r is Ok,
        final(m).status == Status::STARTED,
        final(m).started_at == Some(now),
        text::views(final(m).listeners@) == running(reports@),
        final(tracker)@.dom() == Set::<(usize, Seq<char>)>::empty(),
{
    assert(final(tracker)@.dom() =~= Set::<(usize, Seq<char>)>::empty());
}

/// A manager that is stopped can be started again, and has forgotten what it
/// knew.
pub proof fn a_stopped_manager_can_start_again(
    m: &mut Manager,
    tracker: &mut ActiveTracker,
    stopped: bool,
    again: Manager,
    status: ManagerStatusSerde,
    now: u64,
)
    requires
        call_ensures(Manager::stop, (m, tracker), stopped),
        again == *final(m),
        call_ensures(Manager::get_manager_status, (&again, now), status),
    ensures
        stopped <==> old(m).status != Status::STOPPED,
        start_error(again, 1) is None,
        stopped ==> status.uptime_ms is None,
        again.started_at matches Some(t) ==> (now >= t ==> status.uptime_ms == Some((now - t) as u64)),
{
}

} // verus!
