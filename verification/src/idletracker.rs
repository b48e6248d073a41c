//! Idle tracking of a connection, on a clock that counts nanoseconds.
use vstd::prelude::*;

verus! {

/// Ten minutes.
pub const DEFAULT_MAX_IDLE: u64 = 600000000000;

/// Idle tracker tracks the connection should still be active or not
pub struct IdleTracker {
    /// Marker for last activity happened on this tracker
    pub last_active: u64,
    /// Max duration for idle. If last_active is more than max_idle ago, the tracker should be considered as expired
    pub max_idle: u64,
}

/// The time since `then`; nothing if the clock has not reached it.
pub open spec fn elapsed(then: u64, now: u64) -> int {
    if now >= then {
        now - then
    } else {
        0
    }
}

impl IdleTracker {
    /// Create a new IdleTracker with idle duration of `max_idle`. The `last_active` is set to `now`
    pub fn new(max_idle: u64, now: u64) -> (r: IdleTracker)
        ensures
            r.last_active == now,
            r.max_idle == max_idle,
    {
        IdleTracker { last_active: now, max_idle }
    }

    /// A tracker that was just active and expires after ten minutes.
    pub fn with_defaults(now: u64) -> (r: IdleTracker)
        ensures
            r.last_active == now,
            r.max_idle == DEFAULT_MAX_IDLE,
    {
        IdleTracker { last_active: now, max_idle: DEFAULT_MAX_IDLE }
    }

    /// Mark this `IdleTracker` as just used and yield when it was used before.
    pub fn mark(&mut self, now: u64) -> (r: u64)
        ensures
            r == old(self).last_active,
            final(self).last_active == now,
            final(self).max_idle == old(self).max_idle,
    {
        let result = self.last_active;
        self.last_active = now;
        result
    }

    /// Get the internal max_idle for this tracker
    pub fn max_idle(&self) -> (r: u64)
        ensures
            r == self.max_idle,
    {
        self.max_idle
    }

    /// Return if the tracker is expired (e.g. most recent activity was more than max_idle ago)
    pub fn is_expired(&self, now: u64) -> (r: bool)
        ensures
            r == (elapsed(self.last_active, now) > self.max_idle),
    {
        now.saturating_sub(self.last_active) > self.max_idle
    }

    /// Get the idled duration of the tracker
    pub fn idled_for(&self, now: u64) -> (r: u64)
        ensures
            r == elapsed(self.last_active, now),
    {
        now.saturating_sub(self.last_active)
    }
}

/// A connection expires only once it has been idle for longer than it may be;
/// every use starts the time anew, and a clock that went back counts as no time.
pub proof fn a_used_connection_does_not_expire(
    tracker: &mut IdleTracker,
    used: u64,
    before: u64,
    marked: IdleTracker,
    now: u64,
    expired: bool,
)
    requires
        call_ensures(IdleTracker::mark, (tracker, used), before),
        marked == *final(tracker),
        call_ensures(IdleTracker::is_expired, (&marked, now), expired),
    ensures
        before == old(tracker).last_active,
        now <= used ==> !expired,
        now > used ==> (expired <==> now - used > old(tracker).max_idle),
{
}

/// A connection may be idle for ten minutes unless it is said otherwise.
pub proof fn a_connection_may_idle_for_ten_minutes(now: u64, r: IdleTracker)
    requires
        call_ensures(IdleTracker::with_defaults, (now,), r),
    ensures
        r.last_active == now,
        r.max_idle == 600 * 1_000_000_000,
{
}

} // verus!
