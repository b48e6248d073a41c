//! Keeping the table of groups small: expired, excess and unreferenced groups.
use vstd::prelude::*;
use crate::forward::group::{BackendStatusSerde, GroupKey, MonitorGroup, Owner};
use crate::forward::health::HealthBinding;
use crate::forward::select;
use crate::order;
use crate::order::Ranked;
use crate::table;
use crate::table::{Key, Table};

verus! {

/// How many groups that came from traffic are kept.
pub const RUNTIME_GROUP_MAX: usize = 1000;

/// The keys of expired groups among the entries.
pub open spec fn expired_ids(s: Seq<(GroupKey, MonitorGroup)>, now: u128) -> Seq<(Seq<char>, bool, bool)>
    decreases s.len(),
{
    if s.len() == 0 {
        seq![]
    } else if s.last().1.is_expired(now) {
        expired_ids(s.drop_last(), now).push(Key::id(&s.last().0))
    } else {
        expired_ids(s.drop_last(), now)
    }
}

/// Drops the groups that came from traffic and have been idle for too long.
pub fn evict_expired_runtime_groups(groups: &mut Table<GroupKey, MonitorGroup>, now: u128)
    requires
        old(groups).wf(),
    ensures
        final(groups).wf(),
        forall|k: (Seq<char>, bool, bool)| #[trigger]
            final(groups)@.dom().contains(k) <==> old(groups)@.dom().contains(k) && !old(groups)@[k].is_expired(now),
        forall|k: (Seq<char>, bool, bool)| #[trigger]
            final(groups)@.dom().contains(k) ==> final(groups)@[k] == old(groups)@[k],
{
    let mut keys: Vec<GroupKey> = Vec::new();
    let mut i: usize = 0;
    assert(table::ids(keys@) =~= seq![]);
    while i < groups.entries.len()
        invariant
            i <= groups.entries@.len(),
            *groups == *old(groups),
            table::ids(keys@) == expired_ids(groups.entries@.take(i as int), now),
        decreases groups.entries@.len() - i,
    {
        assert(groups.entries@.take(i + 1).drop_last() =~= groups.entries@.take(i as int));
        if groups.entries[i].1.expired(now) {
            let ghost k0 = table::ids(keys@);
            keys.push(groups.entries[i].0.copy());
            assert(table::ids(keys@) =~= k0.push(Key::id(&groups.entries@[i as int].0)));
        }
        i = i + 1;
    }
    assert(groups.entries@.take(i as int) =~= groups.entries@);
    proof {
        lemma_expired_ids(groups.entries@, now);
        table::lemma_map_of(groups.entries@);
    }
    groups.remove_all(&keys);
    proof {
        let s = old(groups).entries@;
        let m = old(groups)@;
        let gone = expired_ids(s, now);
        assert forall|k: (Seq<char>, bool, bool)| #[trigger] groups@.dom().contains(k) <==> m.dom().contains(k)
            && !m[k].is_expired(now) by {
            if m.dom().contains(k) {
                let i = choose|i: int| 0 <= i < s.len() && Key::id(&(#[trigger] s[i]).0) == k;
                if gone.contains(k) {
                    let j = choose|j: int| 0 <= j < s.len() && Key::id(&(#[trigger] s[j]).0) == k && s[j].1.is_expired(now);
                    assert(i == j);
                }
            }
        }
    }
}

proof fn lemma_expired_ids(s: Seq<(GroupKey, MonitorGroup)>, now: u128)
    ensures
        forall|k: (Seq<char>, bool, bool)| #[trigger]
            expired_ids(s, now).contains(k) <==> exists|j: int|
                0 <= j < s.len() && Key::id(&(#[trigger] s[j]).0) == k && s[j].1.is_expired(now),
    decreases s.len(),
{
    if s.len() > 0 {
        let t = s.drop_last();
        lemma_expired_ids(t, now);
        let e = expired_ids(s, now);
        let d = expired_ids(t, now);
        assert forall|k: (Seq<char>, bool, bool)| #[trigger] e.contains(k) <==> exists|j: int|
            0 <= j < s.len() && Key::id(&(#[trigger] s[j]).0) == k && s[j].1.is_expired(now) by {
            if e.contains(k) {
                let n = choose|n: int| 0 <= n < e.len() && e[n] == k;
                if n < d.len() {
                    assert(d[n] == k);
                    assert(d.contains(k));
                    let j = choose|j: int| 0 <= j < t.len() && Key::id(&(#[trigger] t[j]).0) == k && t[j].1.is_expired(now);
                    assert(s[j] == t[j]);
                } else {
                    assert(Key::id(&s[s.len() - 1].0) == k);
                }
            }
            if exists|j: int| 0 <= j < s.len() && Key::id(&(#[trigger] s[j]).0) == k && s[j].1.is_expired(now) {
                let j = choose|j: int| 0 <= j < s.len() && Key::id(&(#[trigger] s[j]).0) == k && s[j].1.is_expired(now);
                if j < t.len() {
                    assert(t[j] == s[j]);
                    assert(d.contains(k));
                    let n = choose|n: int| 0 <= n < d.len() && d[n] == k;
                    assert(e[n] == k);
                } else {
                    assert(e[e.len() - 1] == k);
                }
            }
        }
    }
}

impl Ranked for (GroupKey, u128) {
    /// The group that has been idle for longer comes first.
    open spec fn ranks_before(self, other: Self) -> bool {
        self.1 <= other.1
    }

    proof fn total(a: Self, b: Self) {
    }

    proof fn transitive(a: Self, b: Self, c: Self) {
    }

    fn not_after(&self, other: &Self) -> (r: bool) {
        self.1 <= other.1
    }
}

/// How many of `n` groups are over the cap.
pub open spec fn excess(n: int) -> int {
    if n > RUNTIME_GROUP_MAX {
        n - RUNTIME_GROUP_MAX
    } else {
        0
    }
}

/// The groups over the cap: those used longest ago.
pub open spec fn evicted(s: Seq<(GroupKey, u128)>) -> Seq<(GroupKey, u128)> {
    order::sorted(s).take(excess(s.len() as int))
}

pub open spec fn first_ids(s: Seq<(GroupKey, u128)>) -> Seq<(Seq<char>, bool, bool)> {
    s.map_values(|e: (GroupKey, u128)| Key::id(&e.0))
}

/// The keys of the groups to drop so that no more than the cap remain.
pub fn excess_runtime_groups_to_evict(runtime_groups: Vec<(GroupKey, u128)>) -> (r: Vec<GroupKey>)
    ensures
        table::ids(r@) == first_ids(evicted(runtime_groups@)),
{
    let mut keys: Vec<GroupKey> = Vec::new();
    if runtime_groups.len() <= RUNTIME_GROUP_MAX {
        assert(table::ids(keys@) =~= first_ids(evicted(runtime_groups@)));
        return keys;
    }
    let count = runtime_groups.len() - RUNTIME_GROUP_MAX;
    proof {
        order::sorted_is_an_ordered_permutation(runtime_groups@);
    }
    let ranked = order::sort_vec(runtime_groups);
    let mut i: usize = 0;
    while i < count
        invariant
            i <= count <= ranked@.len(),
            table::ids(keys@) == first_ids(ranked@.take(i as int)),
        decreases count - i,
    {
        let ghost k0 = table::ids(keys@);
        keys.push(ranked[i].0.copy());
        assert(table::ids(keys@) =~= k0.push(Key::id(&ranked@[i as int].0)));
        assert(first_ids(ranked@.take(i + 1)) =~= first_ids(ranked@.take(i as int)).push(Key::id(&ranked@[i as int].0)));
        i = i + 1;
    }
    keys
}

/// Eviction keeps no more than the cap, keeps the cap if there are as many,
/// and what it keeps was used no earlier than anything that it drops.
pub proof fn eviction_keeps_the_most_recent(s: Seq<(GroupKey, u128)>, i: int, j: int)
    ensures
        s.len() - evicted(s).len() <= 1000,
        evicted(s).len() > 0 ==> s.len() - evicted(s).len() == 1000,
        order::sorted(s) == evicted(s) + order::sorted(s).skip(excess(s.len() as int)),
        order::sorted(s).to_multiset() == s.to_multiset(),
        0 <= i < evicted(s).len() && 0 <= j < s.len() - evicted(s).len() ==> evicted(s)[i].1 <= order::sorted(s).skip(
            excess(s.len() as int),
        )[j].1,
{
    order::sorted_is_an_ordered_permutation(s);
    let n = excess(s.len() as int);
    assert(order::sorted(s) =~= order::sorted(s).take(n) + order::sorted(s).skip(n));
    if 0 <= i < evicted(s).len() && 0 <= j < s.len() - evicted(s).len() {
        assert(order::sorted(s)[i].ranks_before(order::sorted(s)[n + j]));
    }
}

/// The groups that came from traffic, with the time of their last use.
pub open spec fn runtime_rows(s: Seq<(GroupKey, MonitorGroup)>) -> Seq<(GroupKey, u128)>
    decreases s.len(),
{
    if s.len() == 0 {
        seq![]
    } else if s.last().1.owner == Owner::Runtime {
        runtime_rows(s.drop_last()).push((s.last().0, s.last().1.last_activity_ms))
    } else {
        runtime_rows(s.drop_last())
    }
}

/// Drops the groups that came from traffic and are over the cap.
pub fn evict_excess_runtime_groups(groups: &mut Table<GroupKey, MonitorGroup>)
    requires
        old(groups).wf(),
    ensures
        final(groups).wf(),
        final(groups)@ == old(groups)@.remove_keys(first_ids(evicted(runtime_rows(old(groups).entries@))).to_set()),
{
    let mut rows: Vec<(GroupKey, u128)> = Vec::new();
    let mut i: usize = 0;
    while i < groups.entries.len()
        invariant
            i <= groups.entries@.len(),
            *groups == *old(groups),
            rows@ == runtime_rows(groups.entries@.take(i as int)),
        decreases groups.entries@.len() - i,
    {
        assert(groups.entries@.take(i + 1).drop_last() =~= groups.entries@.take(i as int));
        if groups.entries[i].1.owner == Owner::Runtime {
            rows.push((groups.entries[i].0.copy(), groups.entries[i].1.last_activity_ms));
        }
        i = i + 1;
    }
    assert(groups.entries@.take(i as int) =~= groups.entries@);
    let keys = excess_runtime_groups_to_evict(rows);
    groups.remove_all(&keys);
}

/// Whether a listener or a health check refers to a group.
pub open spec fn referenced(
    listeners: Seq<(String, Vec<GroupKey>)>,
    bindings: Seq<HealthBinding>,
    id: (Seq<char>, bool, bool),
) -> bool {
    ||| exists|l: int| 0 <= l < listeners.len() && table::ids((#[trigger] listeners[l]).1@).contains(id)
    ||| exists|b: int| 0 <= b < bindings.len() && Key::id(&(#[trigger] bindings[b]).group) == id
}

fn holds_key(keys: &Vec<GroupKey>, key: &GroupKey) -> (r: bool)
    ensures
        r == table::ids(keys@).contains(Key::id(key)),
{
    let ghost all = table::ids(keys@);
    let mut i: usize = 0;
    while i < keys.len()
        invariant
            i <= keys@.len(),
            all == table::ids(keys@),
            forall|k: int| 0 <= k < i ==> #[trigger] all[k] != Key::id(key),
        decreases keys@.len() - i,
    {
        assert(all[i as int] == Key::id(&keys@[i as int]));
        if keys[i].same_key(key) {
            return true;
        }
        i = i + 1;
    }
    false
}

fn is_referenced(listeners: &Table<String, Vec<GroupKey>>, bindings: &Vec<HealthBinding>, key: &GroupKey) -> (r: bool)
    ensures
        r == referenced(listeners.entries@, bindings@, Key::id(key)),
{
    let mut l: usize = 0;
    while l < listeners.entries.len()
        invariant
            l <= listeners.entries@.len(),
            forall|k: int|
                0 <= k < l ==> !table::ids((#[trigger] listeners.entries@[k]).1@).contains(Key::id(key)),
        decreases listeners.entries@.len() - l,
    {
        if holds_key(&listeners.entries[l].1, key) {
            assert(table::ids(listeners.entries@[l as int].1@).contains(Key::id(key)));
            return true;
        }
        l = l + 1;
    }
    let mut b: usize = 0;
    while b < bindings.len()
        invariant
            b <= bindings@.len(),
            forall|k: int| 0 <= k < b ==> Key::id(&(#[trigger] bindings@[k]).group) != Key::id(key),
            !exists|l: int|
                0 <= l < listeners.entries@.len() && table::ids((#[trigger] listeners.entries@[l]).1@).contains(
                    Key::id(key),
                ),
        decreases bindings@.len() - b,
    {
        if bindings[b].group.same_key(key) {
            return true;
        }
        b = b + 1;
    }
    false
}

/// Whether a group stays: it came from traffic, or something refers to it.
pub open spec fn stays(
    listeners: Seq<(String, Vec<GroupKey>)>,
    bindings: Seq<HealthBinding>,
    id: (Seq<char>, bool, bool),
    g: MonitorGroup,
) -> bool {
    g.owner == Owner::Runtime || referenced(listeners, bindings, id)
}

/// Drops the configured groups that no listener and no health check refers to.
pub fn prune_unreferenced_configured_groups(
    groups: &mut Table<GroupKey, MonitorGroup>,
    listeners: &Table<String, Vec<GroupKey>>,
    bindings: &Vec<HealthBinding>,
)
    requires
        old(groups).wf(),
    ensures
        final(groups).wf(),
        forall|k: (Seq<char>, bool, bool)| #[trigger]
            final(groups)@.dom().contains(k) <==> old(groups)@.dom().contains(k) && stays(
                listeners.entries@,
                bindings@,
                k,
                old(groups)@[k],
            ),
        forall|k: (Seq<char>, bool, bool)| #[trigger]
            final(groups)@.dom().contains(k) ==> final(groups)@[k] == old(groups)@[k],
{
    let ghost s = groups.entries@;
    let mut keys: Vec<GroupKey> = Vec::new();
    let mut i: usize = 0;
    while i < groups.entries.len()
        invariant
            i <= groups.entries@.len(),
            *groups == *old(groups),
            s == groups.entries@,
            forall|k: int|
                0 <= k < i && !stays(listeners.entries@, bindings@, Key::id(&s[k].0), s[k].1) ==> table::ids(
                    keys@,
                ).contains(Key::id(&(#[trigger] s[k]).0)),
            forall|n: int| #![trigger table::ids(keys@)[n]]
                0 <= n < keys@.len() ==> exists|k: int|
                    0 <= k < i && Key::id(&(#[trigger] s[k]).0) == table::ids(keys@)[n] && !stays(
                        listeners.entries@,
                        bindings@,
                        Key::id(&s[k].0),
                        s[k].1,
                    ),
        decreases groups.entries@.len() - i,
    {
        let keep = groups.entries[i].1.owner == Owner::Runtime || is_referenced(
            listeners,
            bindings,
            &groups.entries[i].0,
        );
        if !keep {
            let ghost k0 = keys@;
            keys.push(groups.entries[i].0.copy());
            proof {
                assert(table::ids(keys@) =~= table::ids(k0).push(Key::id(&s[i as int].0)));
                let new = table::ids(keys@);
                assert forall|k: int|
                    0 <= k < i + 1 && !stays(listeners.entries@, bindings@, Key::id(&s[k].0), s[k].1) implies new.contains(
                    Key::id(&(#[trigger] s[k]).0),
                ) by {
                    if k < i {
                        let n = choose|n: int| 0 <= n < k0.len() && table::ids(k0)[n] == Key::id(&s[k].0);
                        assert(new[n] == Key::id(&s[k].0));
                    } else {
                        assert(new[k0.len() as int] == Key::id(&s[k].0));
                    }
                }
                assert forall|n: int| #![trigger new[n]] 0 <= n < keys@.len() implies exists|k: int|
                    0 <= k < i + 1 && Key::id(&(#[trigger] s[k]).0) == new[n] && !stays(
                        listeners.entries@,
                        bindings@,
                        Key::id(&s[k].0),
                        s[k].1,
                    ) by {
                    if n < k0.len() {
                        assert(new[n] == table::ids(k0)[n]);
                        let k = choose|k: int|
                            0 <= k < i && Key::id(&(#[trigger] s[k]).0) == table::ids(k0)[n] && !stays(
                                listeners.entries@,
                                bindings@,
                                Key::id(&s[k].0),
                                s[k].1,
                            );
                        assert(Key::id(&s[k].0) == new[n]);
                    } else {
                        assert(Key::id(&s[i as int].0) == new[n]);
                    }
                }
            }
        }
        i = i + 1;
    }
    proof {
        table::lemma_map_of(s);
    }
    groups.remove_all(&keys);
    proof {
        let m = old(groups)@;
        let gone = table::ids(keys@);
        assert forall|k: (Seq<char>, bool, bool)| #[trigger] groups@.dom().contains(k) <==> m.dom().contains(k) && stays(
            listeners.entries@,
            bindings@,
            k,
            m[k],
        ) by {
            if m.dom().contains(k) {
                let a = choose|a: int| 0 <= a < s.len() && Key::id(&(#[trigger] s[a]).0) == k;
                assert(m[k] == s[a].1);
                if gone.contains(k) {
                    let n = choose|n: int| 0 <= n < gone.len() && gone[n] == k;
                    let b = choose|b: int|
                        0 <= b < s.len() && Key::id(&(#[trigger] s[b]).0) == gone[n] && !stays(
                            listeners.entries@,
                            bindings@,
                            Key::id(&s[b].0),
                            s[b].1,
                        );
                    assert(m[k] == s[b].1);
                }
            }
        }
    }
}

/// What the status of a group says: its target, whether it is up, and since
/// when.
pub open spec fn status_model(s: BackendStatusSerde) -> (Seq<char>, Option<bool>, u128) {
    (s.name@, s.online, s.since_ms)
}

/// The statuses of a listener's groups, in the order of its targets.
pub open spec fn status_rows(m: select::Groups, keys: Seq<(Seq<char>, bool, bool)>, now: u128) -> Seq<
    (Seq<char>, Option<bool>, u128),
>
    decreases keys.len(),
{
    if keys.len() == 0 {
        seq![]
    } else if m.dom().contains(keys.last()) {
        status_rows(m, keys.drop_last(), now).push(m[keys.last()].status_at(now))
    } else {
        status_rows(m, keys.drop_last(), now)
    }
}

pub open spec fn status_models(s: Seq<BackendStatusSerde>) -> Seq<(Seq<char>, Option<bool>, u128)> {
    s.map_values(|b: BackendStatusSerde| status_model(b))
}

/// The statuses of the groups of a listener.
pub fn listener_statuses(groups: &Table<GroupKey, MonitorGroup>, keys: &Vec<GroupKey>, now: u128) -> (r: Vec<
    BackendStatusSerde,
>)
    requires
        groups.wf(),
    ensures
        status_models(r@) == status_rows(groups@, table::ids(keys@), now),
{
    let ghost all = table::ids(keys@);
    let mut out: Vec<BackendStatusSerde> = Vec::new();
    assert(status_models(out@) =~= seq![]);
    let mut i: usize = 0;
    while i < keys.len()
        invariant
            i <= keys@.len(),
            all == table::ids(keys@),
            groups.wf(),
            status_models(out@) == status_rows(groups@, all.take(i as int), now),
        decreases keys@.len() - i,
    {
        assert(all.take(i + 1).drop_last() =~= all.take(i as int));
        assert(all.take(i + 1).last() == Key::id(&keys@[i as int]));
        if let Some(g) = groups.get(&keys[i]) {
            let ghost o0 = status_models(out@);
            let s = g.status(now);
            out.push(s);
            assert(status_models(out@) =~= o0.push(status_model(s)));
        }
        i = i + 1;
    }
    assert(all.take(i as int) =~= all);
    out
}

/// Whether a published table holds, for every listener, the statuses of its
/// groups.
pub open spec fn published(
    r: Map<Seq<char>, Vec<BackendStatusSerde>>,
    m: select::Groups,
    listeners: Map<Seq<char>, Vec<GroupKey>>,
    now: u128,
) -> bool {
    &&& r.dom() == listeners.dom()
    &&& forall|name: Seq<char>| #[trigger]
        r.dom().contains(name) ==> status_models(r[name]@) == status_rows(m, table::ids(listeners[name]@), now)
}

/// The statuses of every listener's groups.
pub fn publish_configured_statuses(
    groups: &Table<GroupKey, MonitorGroup>,
    listeners: &Table<String, Vec<GroupKey>>,
    now: u128,
) -> (r: Table<String, Vec<BackendStatusSerde>>)
    requires
        groups.wf(),
        listeners.wf(),
    ensures
        r.wf(),
        published(r@, groups@, listeners@, now),
{
    let mut out: Table<String, Vec<BackendStatusSerde>> = Table::new();
    let ghost s = listeners.entries@;
    let mut i: usize = 0;
    while i < listeners.entries.len()
        invariant
            i <= listeners.entries@.len(),
            s == listeners.entries@,
            groups.wf(),
            listeners.wf(),
            out.wf(),
            published(out@, groups@, table::map_of(s.take(i as int)), now),
        decreases listeners.entries@.len() - i,
    {
        assert(s.take(i + 1).drop_last() =~= s.take(i as int));
        let rows = listener_statuses(groups, &listeners.entries[i].1, now);
        out.insert(listeners.entries[i].0.clone(), rows);
        assert(out@.dom() =~= table::map_of(s.take(i + 1)).dom());
        i = i + 1;
    }
    assert(s.take(i as int) =~= s);
    out
}

/// A group that came from traffic expires once it was idle for more than ten
/// minutes, and not before; one that was configured never does.
pub proof fn idle_groups_expire(s: Seq<(GroupKey, MonitorGroup)>, now: u128, i: int)
    requires
        0 <= i < s.len(),
    ensures
        s[i].1.owner == Owner::Runtime && now > s[i].1.last_activity_ms + 600000 ==> expired_ids(s, now).contains(
            Key::id(&s[i].0),
        ),
        s[i].1.owner == Owner::Configured || now <= s[i].1.last_activity_ms + 600000 ==> !s[i].1.is_expired(now),
        0 <= i < expired_ids(s, now).len() ==> exists|k: int|
            0 <= k < s.len() && (#[trigger] s[k]).1.owner == Owner::Runtime && now > s[k].1.last_activity_ms + 600000
                && Key::id(&s[k].0) == expired_ids(s, now)[i],
    decreases s.len(),
{
    let t = s.drop_last();
    let a = expired_ids(t, now);
    let b = expired_ids(s, now);
    if t.len() > 0 {
        idle_groups_expire(t, now, if i < t.len() {
            i
        } else {
            0
        });
    }
    if i < t.len() {
        assert(t[i] == s[i]);
        if a.contains(Key::id(&s[i].0)) {
            let k = choose|k: int| 0 <= k < a.len() && a[k] == Key::id(&s[i].0);
            assert(b[k] == a[k]);
        }
    } else if s[i].1.is_expired(now) {
        assert(b[b.len() - 1] == Key::id(&s[i].0));
    }
    if 0 <= i < b.len() {
        if i < a.len() {
            lemma_expired_within(t, now);
            assert(i < t.len());
            let k = choose|k: int|
                0 <= k < t.len() && (#[trigger] t[k]).1.owner == Owner::Runtime && now > t[k].1.last_activity_ms + 600000
                    && Key::id(&t[k].0) == a[i];
            assert(s[k] == t[k]);
        } else {
            assert(s[s.len() - 1] == s.last());
        }
    }
}

proof fn lemma_expired_within(s: Seq<(GroupKey, MonitorGroup)>, now: u128)
    ensures
        expired_ids(s, now).len() <= s.len(),
    decreases s.len(),
{
    if s.len() > 0 {
        lemma_expired_within(s.drop_last(), now);
    }
}

/// Exactly the groups that came from traffic can be evicted, each with the time
/// of its last use.
pub proof fn only_traffic_counts_towards_the_cap(s: Seq<(GroupKey, MonitorGroup)>, i: int)
    ensures
        runtime_rows(s).len() <= s.len(),
        0 <= i < s.len() && s[i].1.owner == Owner::Runtime ==> runtime_rows(s).contains(
            (s[i].0, s[i].1.last_activity_ms),
        ),
        0 <= i < runtime_rows(s).len() ==> exists|k: int|
            0 <= k < s.len() && (#[trigger] s[k]).1.owner == Owner::Runtime && runtime_rows(s)[i] == (
                s[k].0,
                s[k].1.last_activity_ms,
            ),
    decreases s.len(),
{
    if s.len() > 0 {
        let t = s.drop_last();
        let a = runtime_rows(t);
        let b = runtime_rows(s);
        only_traffic_counts_towards_the_cap(t, i);
        if 0 <= i < t.len() && s[i].1.owner == Owner::Runtime {
            assert(t[i] == s[i]);
            let k = choose|k: int| 0 <= k < a.len() && a[k] == (s[i].0, s[i].1.last_activity_ms);
            assert(b[k] == a[k]);
        }
        if i == t.len() && s[i].1.owner == Owner::Runtime {
            assert(b[b.len() - 1] == (s[i].0, s[i].1.last_activity_ms));
        }
        if 0 <= i < b.len() {
            if i < a.len() {
                let k = choose|k: int|
                    0 <= k < t.len() && (#[trigger] t[k]).1.owner == Owner::Runtime && a[i] == (
                        t[k].0,
                        t[k].1.last_activity_ms,
                    );
                assert(s[k] == t[k]);
            } else {
                assert(s[s.len() - 1] == s.last());
            }
        }
    }
}

/// A configured group stays as long as a listener or a health check names it,
/// and goes once nothing does; one from traffic does not need to be named.
pub proof fn a_named_group_stays(
    listeners: Seq<(String, Vec<GroupKey>)>,
    bindings: Seq<HealthBinding>,
    id: (Seq<char>, bool, bool),
    g: MonitorGroup,
    l: int,
    k: int,
)
    ensures
        g.owner == Owner::Runtime ==> stays(listeners, bindings, id, g),
        0 <= l < listeners.len() && 0 <= k < listeners[l].1@.len() && Key::id(&listeners[l].1@[k]) == id ==> stays(
            listeners,
            bindings,
            id,
            g,
        ),
        0 <= l < bindings.len() && Key::id(&bindings[l].group) == id ==> stays(listeners, bindings, id, g),
        g.owner == Owner::Configured && (forall|x: int, y: int|
            0 <= x < listeners.len() && 0 <= y < listeners[x].1@.len() ==> Key::id(
                &(#[trigger] listeners[x].1@[y]),
            ) != id) && (forall|x: int| 0 <= x < bindings.len() ==> Key::id(&(#[trigger] bindings[x]).group) != id)
            ==> !stays(listeners, bindings, id, g),
{
    if 0 <= l < listeners.len() && 0 <= k < listeners[l].1@.len() && Key::id(&listeners[l].1@[k]) == id {
        assert(table::ids(listeners[l].1@)[k] == id);
    }
    if exists|x: int| 0 <= x < listeners.len() && table::ids((#[trigger] listeners[x]).1@).contains(id) {
        let x = choose|x: int| 0 <= x < listeners.len() && table::ids((#[trigger] listeners[x]).1@).contains(id);
        let y = choose|y: int| 0 <= y < table::ids(listeners[x].1@).len() && table::ids(listeners[x].1@)[y] == id;
        assert(Key::id(&listeners[x].1@[y]) == id);
    }
}

} // verus!
