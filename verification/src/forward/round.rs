//! Rounds of health checks: which groups are left, what their targets resolve
//! to, which endpoints answer, and what is kept of that.
use vstd::prelude::*;
use crate::forward::Forwarding;
use crate::forward::group;
use crate::forward::group::{GroupKey, MonitorGroup};
use crate::forward::health;
use crate::forward::health::{HealthCheckTarget, ProbeJob, ProbeResult};
use crate::forward::maintain;
use crate::forward::select;
use crate::order;
use crate::table;
use crate::table::{Key, Table};
use crate::text;

verus! {

/// How long a round waits for the answers, in milliseconds.
pub const ROUND_DEADLINE_MS: u64 = 5000;

/// The pause between two rounds, in milliseconds.
pub const ROUND_PAUSE_MS: u64 = 5000;

/// Whether `after` holds the groups of `before` that have not expired.
pub open spec fn unexpired(before: select::Groups, after: select::Groups, now: u128) -> bool {
    &&& forall|k: (Seq<char>, bool, bool)| #[trigger]
        after.dom().contains(k) <==> before.dom().contains(k) && !before[k].is_expired(now)
    &&& forall|k: (Seq<char>, bool, bool)| #[trigger] after.dom().contains(k) ==> after[k] == before[k]
}

/// The groups of a table without those over the cap.
pub open spec fn within_cap(groups: Table<GroupKey, MonitorGroup>) -> select::Groups {
    groups@.remove_keys(maintain::first_ids(maintain::evicted(maintain::runtime_rows(groups.entries@))).to_set())
}

/// Whether `after` holds the groups that are left of `before` at the start of a
/// round: those that expired go first, then those over the cap.
pub open spec fn left(before: select::Groups, after: select::Groups, now: u128) -> bool {
    exists|mid: Table<GroupKey, MonitorGroup>| mid.wf() && unexpired(before, mid@, now) && after == #[trigger] within_cap(mid)
}

/// The groups after one of them took over what its target resolves to now.
pub open spec fn reconciled_groups(
    m: select::Groups,
    k: (Seq<char>, bool, bool),
    resolved: Seq<Seq<char>>,
    now: u128,
    after: select::Groups,
) -> bool {
    if m.dom().contains(k) {
        &&& after == m.insert(k, after[k])
        &&& after[k] == (MonitorGroup { endpoints: after[k].endpoints, ..m[k] })
        &&& group::reconciled(after[k].endpoints@, m[k].endpoints@, resolved, now)
    } else {
        after == m
    }
}

/// What is kept of an endpoint whose state is known.
#[derive(Debug)]
pub struct HealthCheckSample {
    pub listener: String,
    pub host: String,
    pub path: String,
    pub backend: String,
    pub endpoint: String,
    pub transport: String,
    pub load_balancing: String,
    pub online: bool,
    pub checked_at: i64,
}

/// Whether `s` is what is kept of `t`.
pub open spec fn sample_is(s: HealthCheckSample, t: HealthCheckTarget, checked_at: i64) -> bool {
    &&& s.listener == t.listener
    &&& s.host == t.host
    &&& s.path == t.path
    &&& s.backend == t.backend
    &&& s.endpoint == t.endpoint
    &&& s.transport == t.transport
    &&& s.load_balancing == t.load_balancing
    &&& Some(s.online) == t.online
    &&& s.checked_at == checked_at
}

/// The endpoints whose state is known.
pub open spec fn known(s: Seq<HealthCheckTarget>) -> Seq<HealthCheckTarget>
    decreases s.len(),
{
    if s.len() == 0 {
        seq![]
    } else if s.last().online is Some {
        known(s.drop_last()).push(s.last())
    } else {
        known(s.drop_last())
    }
}

/// What is kept of a round: the endpoints whose state is known, in order.
pub fn health_samples(targets: Vec<HealthCheckTarget>, checked_at: i64) -> (r: Vec<HealthCheckSample>)
    ensures
        r@.len() == known(targets@).len(),
        forall|i: int| 0 <= i < r@.len() ==> sample_is(#[trigger] r@[i], known(targets@)[i], checked_at),
{
    let mut out: Vec<HealthCheckSample> = Vec::new();
    for t in it: targets
        invariant
            it.seq() == targets@,
            out@.len() == known(targets@.take(it.index())).len(),
            forall|i: int|
                0 <= i < out@.len() ==> sample_is(#[trigger] out@[i], known(targets@.take(it.index()))[i], checked_at),
    {
        assert(targets@.take(it.index() + 1).drop_last() =~= targets@.take(it.index()));
        if let Some(online) = t.online {
            out.push(
                HealthCheckSample {
                    listener: t.listener,
                    host: t.host,
                    path: t.path,
                    backend: t.backend,
                    endpoint: t.endpoint,
                    transport: t.transport,
                    load_balancing: t.load_balancing,
                    online,
                    checked_at,
                },
            );
        }
    }
    assert(targets@.take(targets@.len() as int) =~= targets@);
    out
}

impl Forwarding {
    /// Begins a round: drops the groups that nobody uses any more, and yields
    /// the keys of those that are left.
    pub fn begin_round(&mut self, now: u128) -> (r: Vec<GroupKey>)
        requires
            old(self).wf(),
        ensures
            final(self).wf(),
            left(old(self).groups@, final(self).groups@, now),
            table::ids(r@) == final(self).groups.entries@.map_values(|e: (GroupKey, MonitorGroup)| Key::id(&e.0)),
            *final(self) == (Forwarding { groups: final(self).groups, ..*old(self) }),
    {
        let ghost before = self.groups@;
        maintain::evict_expired_runtime_groups(&mut self.groups, now);
        let ghost mid = self.groups;
        maintain::evict_excess_runtime_groups(&mut self.groups);
        assert(unexpired(before, mid@, now) && self.groups@ == within_cap(mid));
        let mut keys: Vec<GroupKey> = Vec::new();
        let mut i: usize = 0;
        while i < self.groups.entries.len()
            invariant
                i <= self.groups.entries@.len(),
                keys@.len() == i,
                forall|k: int| 0 <= k < i ==> Key::id(&#[trigger] keys@[k]) == Key::id(&self.groups.entries@[k].0),
            decreases self.groups.entries@.len() - i,
        {
            keys.push(self.groups.entries[i].0.copy());
            i = i + 1;
        }
        assert(table::ids(keys@) =~= self.groups.entries@.map_values(|e: (GroupKey, MonitorGroup)| Key::id(&e.0)));
        keys
    }

    /// Takes over what the target of a group resolves to now. A group that is
    /// gone changes nothing.
    pub fn reconcile_group(&mut self, key: &GroupKey, resolved: &Vec<String>, now: u128)
        requires
            old(self).wf(),
        ensures
            final(self).wf(),
            reconciled_groups(old(self).groups@, Key::id(key), text::views(resolved@), now, final(self).groups@),
            *final(self) == (Forwarding { groups: final(self).groups, ..*old(self) }),
    {
        let ghost m = self.groups@;
        if let Some(g) = self.groups.remove(key) {
            let mut g = g;
            g.reconcile_endpoints(resolved, now);
            self.groups.insert(key.copy(), g);
            proof {
                let k = Key::id(key);
                assert(m.remove(k).insert(k, g) =~= m.insert(k, g));
            }
        }
    }

    /// Ends a round: records what the probes found, an endpoint that did not
    /// answer in time as down, and publishes the statuses anew.
    pub fn end_round(&mut self, jobs: &Vec<ProbeJob>, results: &Vec<ProbeResult>, now: u128)
        requires
            old(self).wf(),
        ensures
            final(self).wf(),
            health::all_recorded(old(self).groups@, health::verdicts(jobs@, results@), now, final(self).groups@),
            maintain::published(final(self).backends@, final(self).groups@, final(self).listeners@, now),
            *final(self) == (Forwarding {
                groups: final(self).groups,
                backends: final(self).backends,
                ..*old(self)
            }),
    {
        health::check_jobs(&mut self.groups, jobs, results, now);
        self.backends = maintain::publish_configured_statuses(&self.groups, &self.listeners, now);
    }
}

/// A group that came from configuration is never dropped for its age or for
/// the number of groups.
pub proof fn configured_groups_stay(before: select::Groups, after: select::Groups, now: u128, k: (Seq<char>, bool, bool))
    requires
        left(before, after, now),
        before.dom().contains(k),
        before[k].owner == group::Owner::Configured,
    ensures
        after.dom().contains(k),
        after[k] == before[k],
{
    let mid = choose|mid: Table<GroupKey, MonitorGroup>|
        mid.wf() && unexpired(before, mid@, now) && after == #[trigger] within_cap(mid);
    assert(mid@.dom().contains(k));
    table::lemma_map_of(mid.entries@);
    let rows = maintain::runtime_rows(mid.entries@);
    let gone = maintain::evicted(rows);
    let ids = maintain::first_ids(gone);
    if ids.contains(k) {
        let i = choose|i: int| 0 <= i < ids.len() && ids[i] == k;
        order::sorted_is_an_ordered_permutation(rows);
        order::sorted_keeps_elements(rows, gone[i]);
        lemma_runtime_rows(mid.entries@);
        assert(order::sorted(rows)[i] == gone[i]);
        assert(rows.contains(gone[i]));
        let j = choose|j: int| 0 <= j < rows.len() && rows[j] == gone[i];
        assert(came_from_traffic(mid.entries@, rows[j].0));
        let e = choose|e: int|
            0 <= e < mid.entries@.len() && (#[trigger] mid.entries@[e]).0 == rows[j].0 && mid.entries@[e].1.owner
                == group::Owner::Runtime;
        assert(mid@[k] == mid.entries@[e].1);
    }
}

/// Whether a key is that of a group that came from traffic.
spec fn came_from_traffic(s: Seq<(GroupKey, MonitorGroup)>, key: GroupKey) -> bool {
    exists|e: int| 0 <= e < s.len() && (#[trigger] s[e]).0 == key && s[e].1.owner == group::Owner::Runtime
}

proof fn lemma_runtime_rows(s: Seq<(GroupKey, MonitorGroup)>)
    ensures
        forall|j: int|
            0 <= j < maintain::runtime_rows(s).len() ==> came_from_traffic(
                s,
                (#[trigger] maintain::runtime_rows(s)[j]).0,
            ),
    decreases s.len(),
{
    if s.len() > 0 {
        let t = s.drop_last();
        lemma_runtime_rows(t);
        let rows = maintain::runtime_rows(s);
        let r0 = maintain::runtime_rows(t);
        assert forall|j: int| 0 <= j < rows.len() implies came_from_traffic(s, (#[trigger] rows[j]).0) by {
            if j < r0.len() {
                assert(r0[j] == rows[j]);
                assert(came_from_traffic(t, r0[j].0));
                let e = choose|e: int|
                    0 <= e < t.len() && (#[trigger] t[e]).0 == r0[j].0 && t[e].1.owner == group::Owner::Runtime;
                assert(s[e] == t[e]);
            } else {
                assert(s[s.len() - 1].0 == rows[j].0);
            }
        }
    }
}

/// A group that was used in the last ten minutes is not dropped while there are
/// no more than a thousand.
pub proof fn a_group_in_use_stays(before: select::Groups, after: select::Groups, now: u128, k: (Seq<char>, bool, bool))
    requires
        left(before, after, now),
        before.dom().finite(),
        before.dom().len() <= 1000,
        before.dom().contains(k),
        now <= before[k].last_activity_ms + 600000,
    ensures
        after.dom().contains(k),
        after[k] == before[k],
{
    let mid = choose|mid: Table<GroupKey, MonitorGroup>|
        mid.wf() && unexpired(before, mid@, now) && after == #[trigger] within_cap(mid);
    table::lemma_map_of(mid.entries@);
    assert(mid@.dom().contains(k)) by {
        assert(!before[k].is_expired(now));
    }
    assert(mid@.dom().subset_of(before.dom())) by {
        assert forall|x: (Seq<char>, bool, bool)| mid@.dom().contains(x) implies before.dom().contains(x) by {}
    }
    vstd::set_lib::lemma_len_subset(mid@.dom(), before.dom());
    let rows = maintain::runtime_rows(mid.entries@);
    maintain::only_traffic_counts_towards_the_cap(mid.entries@, 0);
    assert(maintain::evicted(rows).len() == 0) by {
        order::sorted_is_an_ordered_permutation(rows);
    }
    let gone = maintain::first_ids(maintain::evicted(rows));
    assert(gone.len() == 0);
    assert(!gone.to_set().contains(k));
}

/// A group that came from traffic and was idle for more than ten minutes is
/// dropped.
pub proof fn an_idle_group_goes(before: select::Groups, after: select::Groups, now: u128, k: (Seq<char>, bool, bool))
    requires
        left(before, after, now),
        before.dom().contains(k),
        before[k].owner == group::Owner::Runtime,
        now > before[k].last_activity_ms + 600000,
    ensures
        !after.dom().contains(k),
{
    let mid = choose|mid: Table<GroupKey, MonitorGroup>|
        mid.wf() && unexpired(before, mid@, now) && after == #[trigger] within_cap(mid);
    assert(before[k].is_expired(now));
    assert(!mid@.dom().contains(k));
}

/// Every endpoint whose state is known is kept as a sample, and no other.
pub proof fn known_states_are_sampled(s: Seq<HealthCheckTarget>, i: int)
    ensures
        0 <= i < s.len() && s[i].online is Some ==> known(s).contains(s[i]),
        0 <= i < known(s).len() ==> known(s)[i].online is Some && s.contains(known(s)[i]),
    decreases s.len(),
{
    if s.len() > 0 {
        let t = s.drop_last();
        let a = known(t);
        let b = known(s);
        known_states_are_sampled(t, i);
        if 0 <= i < t.len() && s[i].online is Some {
            assert(t[i] == s[i]);
            let k = choose|k: int| 0 <= k < a.len() && a[k] == s[i];
            assert(b[k] == a[k]);
        }
        if i == t.len() && s[i].online is Some {
            assert(b[b.len() - 1] == s[i]);
        }
        if 0 <= i < b.len() {
            if i < a.len() {
                let k = choose|k: int| 0 <= k < t.len() && t[k] == a[i];
                assert(s[k] == b[i]);
            } else {
                assert(s[s.len() - 1] == b[i]);
            }
        }
    }
}

} // verus!
