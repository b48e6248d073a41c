//! Selecting an upstream from one group, from a listener's groups or from a
//! route's pool.
use vstd::prelude::*;
use crate::forward::group;
use crate::forward::group::{GroupKey, MonitorGroup, Owner, SelectedTarget};
use crate::hostutil;
use crate::hostutil::HostAndPort;
use crate::runtime_config::HttpLoadBalancing;
use crate::table;
use crate::table::{Key, Table};
use crate::text;

verus! {

/// The groups by key.
pub type Groups = Map<(Seq<char>, bool, bool), MonitorGroup>;

/// A selected endpoint and the server name for it.
pub open spec fn selection(s: SelectedTarget) -> (Seq<char>, Seq<char>) {
    (s.endpoint@, s.tls_server_name@)
}

/// What a group with endpoints hands out next.
pub open spec fn offered(g: MonitorGroup) -> (Seq<char>, Seq<char>) {
    let e = group::eligible(g.endpoints@);
    let random = group::next_state(g.rng_state);
    (e[(random as usize) as int % e.len() as int].endpoint@, g.tls_server_name@)
}

/// A group after it handed out an endpoint.
pub open spec fn advanced(g: MonitorGroup) -> MonitorGroup {
    MonitorGroup { rng_state: group::next_state(g.rng_state), ..g }
}

pub open spec fn has_endpoints(m: Groups, k: (Seq<char>, bool, bool)) -> bool {
    m.dom().contains(k) && m[k].endpoints@.len() > 0
}

/// The position that load balancing picks among `len` candidates.
pub open spec fn picked(balancing: HttpLoadBalancing, client_hash: u64, cursor: u64, len: int) -> int {
    match balancing {
        HttpLoadBalancing::ClientIpHash => (client_hash as usize) as int % len,
        HttpLoadBalancing::RoundRobin => (cursor as usize) as int % len,
    }
}

/// The cursor of a route after a pick.
pub open spec fn next_cursor(balancing: HttpLoadBalancing, cursor: u64) -> u64 {
    match balancing {
        HttpLoadBalancing::ClientIpHash => cursor,
        HttpLoadBalancing::RoundRobin => if cursor == u64::MAX {
            0
        } else {
            (cursor + 1) as u64
        },
    }
}

/// Picks one of `len` candidates: by the client's address, or in turn.
pub fn pick(balancing: HttpLoadBalancing, client_hash: u64, cursor: &mut u64, len: usize) -> (r: usize)
    requires
        len > 0,
    ensures
        r == picked(balancing, client_hash, *old(cursor), len as int),
        r < len,
        *final(cursor) == next_cursor(balancing, *old(cursor)),
{
    match balancing {
        HttpLoadBalancing::ClientIpHash => (#[verifier::truncate] (client_hash as usize)) % len,
        HttpLoadBalancing::RoundRobin => {
            let index = (#[verifier::truncate] (*cursor as usize)) % len;
            *cursor = if *cursor == u64::MAX {
                0
            } else {
                *cursor + 1
            };
            index
        },
    }
}

/// Round robin visits every one of `len` candidates in `len` picks, as long as
/// the cursor neither wraps nor exceeds a machine word.
pub proof fn round_robin_is_fair(cursor: u64, len: int, k: int)
    requires
        0 < len,
        cursor + len <= usize::MAX,
        cursor + len <= u64::MAX,
        0 <= k < len,
    ensures
        exists|step: int|
            0 <= step < len && #[trigger] picked(HttpLoadBalancing::RoundRobin, 0, (cursor + step) as u64, len) == k,
{
    let c = cursor as int;
    let step = (k - c) % len;
    vstd::arithmetic::div_mod::lemma_mod_bound(k - c, len);
    vstd::arithmetic::div_mod::lemma_add_mod_noop(c, k - c, len);
    vstd::arithmetic::div_mod::lemma_add_mod_noop_right(c, k - c, len);
    vstd::arithmetic::div_mod::lemma_small_mod(k as nat, len as nat);
    assert((c + step) % len == (c + (k - c)) % len);
    assert(((cursor + step) as u64) as usize as int == c + step);
    assert(picked(HttpLoadBalancing::RoundRobin, 0, (cursor + step) as u64, len) == k);
}

/// The groups and selections after every key that has endpoints was drawn
/// from, in order.
pub open spec fn drawn(m: Groups, keys: Seq<(Seq<char>, bool, bool)>) -> (Groups, Seq<(Seq<char>, Seq<char>)>)
    decreases keys.len(),
{
    if keys.len() == 0 {
        (m, seq![])
    } else {
        let (done, selected) = drawn(m, keys.drop_last());
        let k = keys.last();
        if has_endpoints(done, k) {
            (done.insert(k, advanced(done[k])), selected.push(offered(done[k])))
        } else {
            (done, selected)
        }
    }
}

/// Draws one endpoint from a group of the table.
fn draw(groups: &mut Table<GroupKey, MonitorGroup>, key: &GroupKey) -> (r: Option<SelectedTarget>)
    requires
        old(groups).wf(),
    ensures
        final(groups).wf(),
        has_endpoints(old(groups)@, Key::id(key)) ==> {
            let g = old(groups)@[Key::id(key)];
            r is Some && selection(r->0) == offered(g) && final(groups)@ == old(groups)@.insert(
                Key::id(key),
                advanced(g),
            )
        },
        !has_endpoints(old(groups)@, Key::id(key)) ==> r is None && final(groups)@ == old(groups)@,
{
    let ghost m0 = groups@;
    match groups.remove(key) {
        Some(g) => {
            let mut g = g;
            let r = g.choose_endpoint();
            groups.insert(key.copy(), g);
            proof {
                let k = Key::id(key);
                assert(m0.remove(k).insert(k, g) =~= m0.insert(k, g));
                if !has_endpoints(m0, k) {
                    assert(m0.insert(k, g) =~= m0);
                }
            }
            r
        },
        None => None,
    }
}

/// Chooses an endpoint for a connection on a listener: every group of the
/// listener offers one, and load balancing picks among the offers.
pub fn choose_online(
    groups: &mut Table<GroupKey, MonitorGroup>,
    keys: &Vec<GroupKey>,
    balancing: HttpLoadBalancing,
    client_hash: u64,
    cursor: &mut u64,
) -> (r: Option<SelectedTarget>)
    requires
        old(groups).wf(),
    ensures
        final(groups).wf(),
        ({
            let (after, offers) = drawn(old(groups)@, table::ids(keys@));
            &&& final(groups)@ == after
            &&& offers.len() == 0 ==> r is None && *final(cursor) == *old(cursor)
            &&& offers.len() > 0 ==> r is Some && selection(r->0) == offers[picked(
                balancing,
                client_hash,
                *old(cursor),
                offers.len() as int,
            )] && *final(cursor) == next_cursor(balancing, *old(cursor))
        }),
{
    let ghost all = table::ids(keys@);
    let ghost m0 = groups@;
    let mut offers: Vec<SelectedTarget> = Vec::new();
    let ghost f = |s: SelectedTarget| selection(s);
    let mut i: usize = 0;
    assert(offers@.map_values(f) =~= seq![]);
    while i < keys.len()
        invariant
            i <= keys@.len(),
            all == table::ids(keys@),
            groups.wf(),
            f == (|s: SelectedTarget| selection(s)),
            drawn(m0, all.take(i as int)) == (groups@, offers@.map_values(f)),
        decreases keys@.len() - i,
    {
        assert(all.take(i + 1).drop_last() =~= all.take(i as int));
        let ghost o0 = offers@.map_values(f);
        if let Some(s) = draw(groups, &keys[i]) {
            offers.push(s);
            assert(offers@.map_values(f) =~= o0.push(selection(s)));
        }
        i = i + 1;
    }
    assert(all.take(i as int) =~= all);
    if offers.len() == 0 {
        return None;
    }
    let index = pick(balancing, client_hash, cursor, offers.len());
    let chosen = &offers[index];
    assert(offers@.map_values(f)[index as int] == selection(*chosen));
    Some(SelectedTarget { endpoint: chosen.endpoint.clone(), tls_server_name: chosen.tls_server_name.clone() })
}

/// The groups after the groups of the keys were marked as used.
pub open spec fn touched(m: Groups, keys: Seq<(Seq<char>, bool, bool)>, now: u128) -> Groups
    decreases keys.len(),
{
    if keys.len() == 0 {
        m
    } else {
        let done = touched(m, keys.drop_last(), now);
        let k = keys.last();
        if done.dom().contains(k) {
            done.insert(k, (MonitorGroup { last_activity_ms: now, ..done[k] }))
        } else {
            done
        }
    }
}

/// Whether some endpoint of a group is up or has not been probed yet.
pub open spec fn hopeful(g: MonitorGroup) -> bool {
    exists|i: int| 0 <= i < g.endpoints@.len() && (#[trigger] g.endpoints@[i]).online != Some(false)
}

/// The keys of hopeful groups.
pub open spec fn preferred(m: Groups, keys: Seq<(Seq<char>, bool, bool)>) -> Seq<(Seq<char>, bool, bool)>
    decreases keys.len(),
{
    if keys.len() == 0 {
        seq![]
    } else if m.dom().contains(keys.last()) && hopeful(m[keys.last()]) {
        preferred(m, keys.drop_last()).push(keys.last())
    } else {
        preferred(m, keys.drop_last())
    }
}

/// The keys of groups that have endpoints, all of them down.
pub open spec fn fallback(m: Groups, keys: Seq<(Seq<char>, bool, bool)>) -> Seq<(Seq<char>, bool, bool)>
    decreases keys.len(),
{
    if keys.len() == 0 {
        seq![]
    } else if has_endpoints(m, keys.last()) && !hopeful(m[keys.last()]) {
        fallback(m, keys.drop_last()).push(keys.last())
    } else {
        fallback(m, keys.drop_last())
    }
}

/// The keys that a pool selects from: hopeful groups, or those that are down
/// if there is no other.
pub open spec fn available(m: Groups, keys: Seq<(Seq<char>, bool, bool)>, allow_down: bool) -> Seq<
    (Seq<char>, bool, bool),
> {
    if preferred(m, keys).len() > 0 || !allow_down {
        preferred(m, keys)
    } else {
        fallback(m, keys)
    }
}

proof fn lemma_available_have_endpoints(m: Groups, keys: Seq<(Seq<char>, bool, bool)>)
    ensures
        forall|i: int| 0 <= i < preferred(m, keys).len() ==> has_endpoints(m, #[trigger] preferred(m, keys)[i]),
        forall|i: int| 0 <= i < fallback(m, keys).len() ==> has_endpoints(m, #[trigger] fallback(m, keys)[i]),
    decreases keys.len(),
{
    if keys.len() > 0 {
        lemma_available_have_endpoints(m, keys.drop_last());
        let p = preferred(m, keys.drop_last());
        let q = fallback(m, keys.drop_last());
        assert forall|i: int| 0 <= i < preferred(m, keys).len() implies has_endpoints(
            m,
            #[trigger] preferred(m, keys)[i],
        ) by {
            if i < p.len() {
                assert(has_endpoints(m, p[i]));
            }
        }
        assert forall|i: int| 0 <= i < fallback(m, keys).len() implies has_endpoints(
            m,
            #[trigger] fallback(m, keys)[i],
        ) by {
            if i < q.len() {
                assert(has_endpoints(m, q[i]));
            }
        }
    }
}

fn is_hopeful(g: &MonitorGroup) -> (r: bool)
    ensures
        r == hopeful(*g),
{
    let mut i: usize = 0;
    while i < g.endpoints.len()
        invariant
            i <= g.endpoints@.len(),
            forall|k: int| 0 <= k < i ==> (#[trigger] g.endpoints@[k]).online == Some(false),
        decreases g.endpoints@.len() - i,
    {
        if !group::same_state(g.endpoints[i].online, Some(false)) {
            assert(g.endpoints@[i as int].online != Some(false));
            return true;
        }
        i = i + 1;
    }
    false
}

fn touch_all(groups: &mut Table<GroupKey, MonitorGroup>, keys: &Vec<GroupKey>, now: u128)
    requires
        old(groups).wf(),
    ensures
        final(groups).wf(),
        final(groups)@ == touched(old(groups)@, table::ids(keys@), now),
{
    let ghost all = table::ids(keys@);
    let ghost m0 = groups@;
    let mut i: usize = 0;
    while i < keys.len()
        invariant
            i <= keys@.len(),
            all == table::ids(keys@),
            groups.wf(),
            groups@ == touched(m0, all.take(i as int), now),
        decreases keys@.len() - i,
    {
        assert(all.take(i + 1).drop_last() =~= all.take(i as int));
        let ghost m = groups@;
        if let Some(g) = groups.remove(&keys[i]) {
            let mut g = g;
            g.touch(now);
            groups.insert(keys[i].copy(), g);
            assert(m.remove(all[i as int]).insert(all[i as int], g) =~= m.insert(all[i as int], g));
        }
        i = i + 1;
    }
    assert(all.take(i as int) =~= all);
}

fn select_keys(groups: &Table<GroupKey, MonitorGroup>, keys: &Vec<GroupKey>, allow_down: bool) -> (r: Vec<GroupKey>)
    requires
        groups.wf(),
    ensures
        table::ids(r@) == available(groups@, table::ids(keys@), allow_down),
{
    let ghost all = table::ids(keys@);
    let mut first: Vec<GroupKey> = Vec::new();
    let mut second: Vec<GroupKey> = Vec::new();
    assert(table::ids(first@) =~= seq![]);
    assert(table::ids(second@) =~= seq![]);
    let mut i: usize = 0;
    while i < keys.len()
        invariant
            i <= keys@.len(),
            all == table::ids(keys@),
            groups.wf(),
            table::ids(first@) == preferred(groups@, all.take(i as int)),
            table::ids(second@) == fallback(groups@, all.take(i as int)),
        decreases keys@.len() - i,
    {
        assert(all.take(i + 1).drop_last() =~= all.take(i as int));
        if let Some(g) = groups.get(&keys[i]) {
            if is_hopeful(g) {
                let ghost f0 = table::ids(first@);
                first.push(keys[i].copy());
                assert(table::ids(first@) =~= f0.push(all[i as int]));
            } else if g.endpoints.len() > 0 {
                let ghost s0 = table::ids(second@);
                second.push(keys[i].copy());
                assert(table::ids(second@) =~= s0.push(all[i as int]));
            }
        }
        i = i + 1;
    }
    assert(all.take(i as int) =~= all);
    if first.len() > 0 || !allow_down {
        first
    } else {
        second
    }
}

/// What a pool hands out: which group is picked and what it offers.
pub open spec fn pool_result(
    m: Groups,
    keys: Seq<(Seq<char>, bool, bool)>,
    allow_down: bool,
    balancing: HttpLoadBalancing,
    client_hash: u64,
    cursor: u64,
) -> Option<(Seq<char>, bool, bool)> {
    let open = available(m, keys, allow_down);
    if open.len() == 0 {
        None
    } else {
        Some(open[picked(balancing, client_hash, cursor, open.len() as int)])
    }
}

fn select_pool(
    groups: &mut Table<GroupKey, MonitorGroup>,
    keys: &Vec<GroupKey>,
    allow_down: bool,
    balancing: HttpLoadBalancing,
    client_hash: u64,
    cursor: &mut u64,
    now: u128,
) -> (r: Option<(GroupKey, SelectedTarget)>)
    requires
        old(groups).wf(),
    ensures
        final(groups).wf(),
        ({
            let m = touched(old(groups)@, table::ids(keys@), now);
            match pool_result(m, table::ids(keys@), allow_down, balancing, client_hash, *old(cursor)) {
                None => r is None && final(groups)@ == m && *final(cursor) == *old(cursor),
                Some(k) => r matches Some((key, s)) && Key::id(&key) == k && has_endpoints(m, k) && selection(s)
                    == offered(m[k]) && final(groups)@ == m.insert(k, advanced(m[k])) && *final(cursor)
                    == next_cursor(balancing, *old(cursor)),
            }
        }),
{
    touch_all(groups, keys, now);
    let open = select_keys(groups, keys, allow_down);
    if open.len() == 0 {
        return None;
    }
    let ghost m = groups@;
    let index = pick(balancing, client_hash, cursor, open.len());
    proof {
        lemma_available_have_endpoints(m, table::ids(keys@));
        assert(table::ids(open@)[index as int] == Key::id(&open@[index as int]));
        assert(has_endpoints(m, available(m, table::ids(keys@), allow_down)[index as int]));
    }
    let key = open[index].copy();
    match draw(groups, &key) {
        Some(s) => Some((key, s)),
        None => None,
    }
}

/// Selects from a Layer-4 route pool. Groups with an endpoint that is up or
/// unknown come first; groups that are down are used only if there is no
/// other. The upstream server name is the host that the client asked for.
pub fn select_routed_pool(
    groups: &mut Table<GroupKey, MonitorGroup>,
    keys: &Vec<GroupKey>,
    sni_host: &str,
    balancing: HttpLoadBalancing,
    client_hash: u64,
    cursor: &mut u64,
    now: u128,
) -> (r: Option<SelectedTarget>)
    requires
        old(groups).wf(),
    ensures
        final(groups).wf(),
        ({
            let m = touched(old(groups)@, table::ids(keys@), now);
            match pool_result(m, table::ids(keys@), true, balancing, client_hash, *old(cursor)) {
                None => r is None && final(groups)@ == m && *final(cursor) == *old(cursor),
                Some(k) => r matches Some(s) && has_endpoints(m, k) && s.endpoint@ == offered(m[k]).0
                    && s.tls_server_name@ == sni_host@ && final(groups)@ == m.insert(k, advanced(m[k]))
                    && *final(cursor) == next_cursor(balancing, *old(cursor)),
            }
        }),
{
    match select_pool(groups, keys, true, balancing, client_hash, cursor, now) {
        Some((_, s)) => Some(SelectedTarget { endpoint: s.endpoint, tls_server_name: text::owned(sni_host) }),
        None => None,
    }
}

/// Selects a healthy endpoint from a reverse-proxy route's backend pool; the
/// second result says whether the backend speaks TLS. Backends that are down
/// are never used.
pub fn select_http_backend(
    groups: &mut Table<GroupKey, MonitorGroup>,
    keys: &Vec<GroupKey>,
    balancing: HttpLoadBalancing,
    client_hash: u64,
    cursor: &mut u64,
    now: u128,
) -> (r: Option<(SelectedTarget, bool)>)
    requires
        old(groups).wf(),
    ensures
        final(groups).wf(),
        ({
            let m = touched(old(groups)@, table::ids(keys@), now);
            match pool_result(m, table::ids(keys@), false, balancing, client_hash, *old(cursor)) {
                None => r is None && final(groups)@ == m && *final(cursor) == *old(cursor),
                Some(k) => r matches Some((s, tls)) && has_endpoints(m, k) && selection(s) == offered(m[k]) && tls == k.1
                    && final(groups)@ == m.insert(k, advanced(m[k])) && *final(cursor) == next_cursor(
                    balancing,
                    *old(cursor),
                ),
            }
        }),
{
    match select_pool(groups, keys, false, balancing, client_hash, cursor, now) {
        Some((key, s)) => Some((s, key.upstream_tls)),
        None => None,
    }
}

/// Whether `r` is drawn from the group of a key, which is thereby used.
pub open spec fn runtime_selected(
    before: Groups,
    k: (Seq<char>, bool, bool),
    tls_server_name: Seq<char>,
    now: u128,
    r: Option<SelectedTarget>,
    after: Groups,
) -> bool {
    let m = touched(before, seq![k], now);
    if has_endpoints(m, k) {
        r matches Some(s) && s.endpoint@ == offered(m[k]).0 && s.tls_server_name@ == tls_server_name && after == m.insert(
            k,
            advanced(m[k]),
        )
    } else {
        r is None && after == m
    }
}

/// Selects an endpoint of one group for a host that traffic asked for; the
/// server name is the given one.
pub fn select_runtime_target(
    groups: &mut Table<GroupKey, MonitorGroup>,
    key: &GroupKey,
    tls_server_name: &str,
    now: u128,
) -> (r: Option<SelectedTarget>)
    requires
        old(groups).wf(),
    ensures
        final(groups).wf(),
        runtime_selected(old(groups)@, Key::id(key), tls_server_name@, now, r, final(groups)@),
{
    let mut keys: Vec<GroupKey> = Vec::new();
    keys.push(key.copy());
    assert(table::ids(keys@) =~= seq![Key::id(key)]);
    touch_all(groups, &keys, now);
    match draw(groups, key) {
        Some(s) => Some(SelectedTarget { endpoint: s.endpoint, tls_server_name: text::owned(tls_server_name) }),
        None => None,
    }
}

/// The key of the group for a target.
pub open spec fn key_for(effective: HostAndPort, upstream_tls: bool, http_health: bool) -> (Seq<char>, bool, bool) {
    (hostutil::shown(effective.host@, effective.port), upstream_tls, http_health)
}

/// Whether `g` is a group that was just made for a target.
pub open spec fn is_new_group(
    g: MonitorGroup,
    requested_target: Seq<char>,
    effective: HostAndPort,
    upstream_tls: bool,
    http_health: bool,
    tls_server_name: Seq<char>,
    owner: Owner,
    resolved: Seq<Seq<char>>,
    now: u128,
) -> bool {
    &&& Key::id(&g.key) == key_for(effective, upstream_tls, http_health)
    &&& g.requested_target@ == requested_target
    &&& g.effective_host@ == effective.host@
    &&& g.effective_port == effective.port
    &&& g.tls_server_name@ == tls_server_name
    &&& g.owner == owner
    &&& group::reconciled(g.endpoints@, seq![], resolved, now)
    &&& g.last_activity_ms == now
    &&& g.rng_state == now as u64
}

/// Whether there is a group for a target: one that is there stays, and counts
/// as used where traffic asked for it; else there is a new one.
pub open spec fn ensured(
    before: Groups,
    k: (Seq<char>, bool, bool),
    requested_target: Seq<char>,
    effective: HostAndPort,
    upstream_tls: bool,
    http_health: bool,
    tls_server_name: Seq<char>,
    owner: Owner,
    resolved: Seq<Seq<char>>,
    now: u128,
    after: Groups,
) -> bool {
    if before.dom().contains(k) {
        match owner {
            Owner::Configured => after == before,
            Owner::Runtime => after == touched(before, seq![k], now),
        }
    } else {
        after == before.insert(k, after[k]) && is_new_group(
            after[k],
            requested_target,
            effective,
            upstream_tls,
            http_health,
            tls_server_name,
            owner,
            resolved,
            now,
        )
    }
}

/// Makes sure that there is a group for a target. A group that is there stays;
/// it is marked as used if traffic asks for it.
pub fn ensure_group(
    groups: &mut Table<GroupKey, MonitorGroup>,
    requested_target: String,
    effective: &HostAndPort,
    upstream_tls: bool,
    http_health: bool,
    tls_server_name: String,
    owner: Owner,
    resolved: &Vec<String>,
    now: u128,
) -> (r: GroupKey)
    requires
        old(groups).wf(),
    ensures
        final(groups).wf(),
        Key::id(&r) == key_for(*effective, upstream_tls, http_health),
        ensured(
            old(groups)@,
            Key::id(&r),
            requested_target@,
            *effective,
            upstream_tls,
            http_health,
            tls_server_name@,
            owner,
            text::views(resolved@),
            now,
            final(groups)@,
        ),
{
    let key = GroupKey { target: effective.to_string(), upstream_tls, http_health };
    if groups.contains_key(&key) {
        if owner == Owner::Runtime {
            let mut keys: Vec<GroupKey> = Vec::new();
            keys.push(key.copy());
            assert(table::ids(keys@) =~= seq![Key::id(&key)]);
            touch_all(groups, &keys, now);
        }
        return key;
    }
    let g = MonitorGroup::new(
        requested_target,
        effective,
        upstream_tls,
        http_health,
        tls_server_name,
        owner,
        resolved,
        now,
    );
    groups.insert(key.copy(), g);
    key
}

/// A pool hands out an endpoint exactly if one of its groups has any: groups
/// that are down are a last resort, not an obstacle.
pub proof fn a_pool_with_endpoints_is_never_blocked(
    m: Groups,
    keys: Seq<(Seq<char>, bool, bool)>,
    balancing: HttpLoadBalancing,
    client_hash: u64,
    cursor: u64,
)
    ensures
        pool_result(m, keys, true, balancing, client_hash, cursor) is Some <==> exists|i: int|
            0 <= i < keys.len() && has_endpoints(m, #[trigger] keys[i]),
    decreases keys.len(),
{
    lemma_available_have_endpoints(m, keys);
    if keys.len() > 0 {
        a_pool_with_endpoints_is_never_blocked(m, keys.drop_last(), balancing, client_hash, cursor);
        let k = keys.last();
        if exists|i: int| 0 <= i < keys.len() && has_endpoints(m, #[trigger] keys[i]) {
            let i = choose|i: int| 0 <= i < keys.len() && has_endpoints(m, #[trigger] keys[i]);
            if i < keys.len() - 1 {
                assert(has_endpoints(m, keys.drop_last()[i]));
            } else {
                assert(keys[i] == k);
            }
        }
        if exists|i: int| 0 <= i < keys.drop_last().len() && has_endpoints(m, #[trigger] keys.drop_last()[i]) {
            let i = choose|i: int| 0 <= i < keys.drop_last().len() && has_endpoints(m, #[trigger] keys.drop_last()[i]);
            assert(has_endpoints(m, keys[i]));
        }
        if m.dom().contains(k) && hopeful(m[k]) {
            assert(has_endpoints(m, k));
            assert(has_endpoints(m, keys[keys.len() - 1]));
        }
        if has_endpoints(m, k) {
            assert(has_endpoints(m, keys[keys.len() - 1]));
        }
    }
}

/// Whether a group has an endpoint that is up or was not probed yet.
spec fn usable(m: Groups, k: (Seq<char>, bool, bool)) -> bool {
    m.dom().contains(k) && exists|e: int|
        0 <= e < m[k].endpoints@.len() && ((#[trigger] m[k].endpoints@[e]).online == Some(true)
            || m[k].endpoints@[e].online is None)
}

proof fn lemma_preferred(m: Groups, keys: Seq<(Seq<char>, bool, bool)>)
    ensures
        forall|i: int| 0 <= i < preferred(m, keys).len() ==> usable(m, #[trigger] preferred(m, keys)[i]) && keys.contains(
            preferred(m, keys)[i],
        ),
        forall|i: int| 0 <= i < keys.len() && usable(m, #[trigger] keys[i]) ==> preferred(m, keys).contains(keys[i]),
    decreases keys.len(),
{
    if keys.len() > 0 {
        let t = keys.drop_last();
        let k = keys.last();
        lemma_preferred(m, t);
        if m.dom().contains(k) && hopeful(m[k]) {
            let e = choose|e: int|
                0 <= e < m[k].endpoints@.len() && (#[trigger] m[k].endpoints@[e]).online != Some(false);
            assert(m[k].endpoints@[e].online == Some(true) || m[k].endpoints@[e].online is None);
            assert(usable(m, k));
        }
        if usable(m, k) {
            let e = choose|e: int|
                0 <= e < m[k].endpoints@.len() && ((#[trigger] m[k].endpoints@[e]).online == Some(true)
                    || m[k].endpoints@[e].online is None);
            assert(m[k].endpoints@[e].online != Some(false));
            assert(hopeful(m[k]));
        }
        let p = preferred(m, keys);
        let q = preferred(m, t);
        assert forall|i: int| 0 <= i < p.len() implies usable(m, #[trigger] p[i]) && keys.contains(p[i]) by {
            if i < q.len() {
                assert(usable(m, q[i]) && t.contains(q[i]));
                let j = choose|j: int| 0 <= j < t.len() && t[j] == q[i];
                assert(keys[j] == p[i]);
            } else {
                assert(keys[keys.len() - 1] == p[i]);
            }
        }
        assert forall|i: int| 0 <= i < keys.len() && usable(m, #[trigger] keys[i]) implies p.contains(keys[i]) by {
            if i < t.len() {
                assert(t[i] == keys[i]);
                let j = choose|j: int| 0 <= j < q.len() && q[j] == keys[i];
                assert(p[j] == keys[i]);
            } else {
                assert(p[p.len() - 1] == keys[i]);
            }
        }
    }
}

proof fn lemma_picked_bounds(balancing: HttpLoadBalancing, client_hash: u64, cursor: u64, len: int)
    requires
        len > 0,
    ensures
        0 <= picked(balancing, client_hash, cursor, len) < len,
{
    vstd::arithmetic::div_mod::lemma_mod_bound((client_hash as usize) as int, len);
    vstd::arithmetic::div_mod::lemma_mod_bound((cursor as usize) as int, len);
}

/// A pool hands out a backend whenever some group of it has an endpoint that is
/// up or was not probed yet, and the group that it picks then has one. Groups
/// whose endpoints were all found down are left out of a reverse proxy's pool
/// for good, and of a route's pool as long as there is another.
pub proof fn a_backend_that_is_not_known_to_be_down_is_used(
    m: Groups,
    keys: Seq<(Seq<char>, bool, bool)>,
    allow_down: bool,
    balancing: HttpLoadBalancing,
    client_hash: u64,
    cursor: u64,
    i: int,
    e: int,
)
    requires
        0 <= i < keys.len(),
        m.dom().contains(keys[i]),
        0 <= e < m[keys[i]].endpoints@.len(),
        m[keys[i]].endpoints@[e].online == Some(true) || m[keys[i]].endpoints@[e].online is None,
    ensures
        pool_result(m, keys, allow_down, balancing, client_hash, cursor) matches Some(k) && keys.contains(k)
            && m.dom().contains(k) && exists|x: int|
            0 <= x < m[k].endpoints@.len() && ((#[trigger] m[k].endpoints@[x]).online == Some(true)
                || m[k].endpoints@[x].online is None),
{
    lemma_preferred(m, keys);
    assert(usable(m, keys[i]));
    assert(preferred(m, keys).contains(keys[i]));
    let open = preferred(m, keys);
    lemma_picked_bounds(balancing, client_hash, cursor, open.len() as int);
    let p = picked(balancing, client_hash, cursor, open.len() as int);
    assert(usable(m, open[p]));
}

/// A reverse proxy's pool hands out nothing where every endpoint of every group
/// was found down.
pub proof fn a_backend_that_is_down_is_never_used(
    m: Groups,
    keys: Seq<(Seq<char>, bool, bool)>,
    balancing: HttpLoadBalancing,
    client_hash: u64,
    cursor: u64,
)
    requires
        forall|i: int, e: int|
            0 <= i < keys.len() && m.dom().contains(keys[i]) && 0 <= e < m[keys[i]].endpoints@.len() ==> (
            #[trigger] m[keys[i]].endpoints@[e]).online == Some(false),
    ensures
        pool_result(m, keys, false, balancing, client_hash, cursor) is None,
{
    lemma_preferred(m, keys);
    let open = preferred(m, keys);
    if open.len() > 0 {
        assert(usable(m, open[0]) && keys.contains(open[0]));
        let i = choose|i: int| 0 <= i < keys.len() && keys[i] == open[0];
        let e = choose|e: int|
            0 <= e < m[open[0]].endpoints@.len() && ((#[trigger] m[open[0]].endpoints@[e]).online == Some(true)
                || m[open[0]].endpoints@[e].online is None);
        assert(m[keys[i]].endpoints@[e].online == Some(false));
    }
}

/// Under round robin every group that is not known to be down gets its turn,
/// and the next connection moves on to the next one.
pub proof fn every_usable_group_gets_its_turn(
    m: Groups,
    keys: Seq<(Seq<char>, bool, bool)>,
    allow_down: bool,
    client_hash: u64,
    i: int,
    e: int,
) -> (cursor: u64)
    requires
        0 <= i < keys.len(),
        keys.len() <= u32::MAX,
        m.dom().contains(keys[i]),
        0 <= e < m[keys[i]].endpoints@.len(),
        m[keys[i]].endpoints@[e].online == Some(true) || m[keys[i]].endpoints@[e].online is None,
    ensures
        cursor < keys.len(),
        pool_result(m, keys, allow_down, HttpLoadBalancing::RoundRobin, client_hash, cursor) == Some(keys[i]),
        next_cursor(HttpLoadBalancing::RoundRobin, cursor) == cursor + 1,
{
    lemma_preferred(m, keys);
    lemma_preferred_length(m, keys);
    assert(usable(m, keys[i]));
    let open = preferred(m, keys);
    let j = choose|j: int| 0 <= j < open.len() && open[j] == keys[i];
    vstd::arithmetic::div_mod::lemma_small_mod(j as nat, open.len() as nat);
    assert((j as u64) as usize as int == j);
    j as u64
}

proof fn lemma_preferred_length(m: Groups, keys: Seq<(Seq<char>, bool, bool)>)
    ensures
        preferred(m, keys).len() <= keys.len(),
    decreases keys.len(),
{
    if keys.len() > 0 {
        lemma_preferred_length(m, keys.drop_last());
    }
}

/// Under hashing a client stays with its backend: which group it gets does not
/// depend on how many connections there were.
pub proof fn a_client_stays_with_its_backend(
    m: Groups,
    keys: Seq<(Seq<char>, bool, bool)>,
    allow_down: bool,
    client_hash: u64,
    a: u64,
    b: u64,
)
    ensures
        pool_result(m, keys, allow_down, HttpLoadBalancing::ClientIpHash, client_hash, a) == pool_result(
            m,
            keys,
            allow_down,
            HttpLoadBalancing::ClientIpHash,
            client_hash,
            b,
        ),
        next_cursor(HttpLoadBalancing::ClientIpHash, a) == a,
{
}

/// Every group that a connection asks for counts as used now; the others, and
/// all else of these, stay as they are.
pub proof fn groups_that_are_asked_for_count_as_used(
    m: Groups,
    keys: Seq<(Seq<char>, bool, bool)>,
    now: u128,
    k: (Seq<char>, bool, bool),
)
    ensures
        touched(m, keys, now).dom() == m.dom(),
        m.dom().contains(k) && keys.contains(k) ==> touched(m, keys, now)[k] == (MonitorGroup {
            last_activity_ms: now,
            ..m[k]
        }),
        m.dom().contains(k) && !keys.contains(k) ==> touched(m, keys, now)[k] == m[k],
    decreases keys.len(),
{
    if keys.len() > 0 {
        let t = keys.drop_last();
        groups_that_are_asked_for_count_as_used(m, t, now, k);
        groups_that_are_asked_for_count_as_used(m, t, now, keys.last());
        assert(touched(m, keys, now).dom() =~= m.dom());
        if keys.contains(k) && k != keys.last() {
            let i = choose|i: int| 0 <= i < keys.len() && keys[i] == k;
            assert(t[i] == k);
        }
        if t.contains(k) {
            let i = choose|i: int| 0 <= i < t.len() && t[i] == k;
            assert(keys[i] == k);
        }
        assert(keys[keys.len() - 1] == keys.last());
    }
}

/// What a group hands out is one of its endpoints, with its server name; one
/// that is down only if all of its endpoints are.
pub proof fn a_group_offers_one_of_its_endpoints(g: MonitorGroup) -> (i: int)
    requires
        g.endpoints@.len() > 0,
    ensures
        0 <= i < g.endpoints@.len(),
        offered(g).0 == g.endpoints@[i].endpoint@,
        offered(g).1 == g.tls_server_name@,
        (exists|k: int| 0 <= k < g.endpoints@.len() && (#[trigger] g.endpoints@[k]).online == Some(true))
            ==> g.endpoints@[i].online == Some(true),
        (exists|k: int| 0 <= k < g.endpoints@.len() && (#[trigger] g.endpoints@[k]).online is None)
            ==> g.endpoints@[i].online != Some(false),
{
    group::a_group_with_endpoints_is_never_blocked(g.endpoints@);
    let e = group::eligible(g.endpoints@);
    let r = (group::next_state(g.rng_state) as usize) as int;
    vstd::arithmetic::div_mod::lemma_mod_bound(r, e.len() as int);
    let j = r % e.len() as int;
    assert(g.endpoints@.contains(e[j]));
    let i = choose|i: int| 0 <= i < g.endpoints@.len() && g.endpoints@[i] == e[j];
    if exists|k: int| 0 <= k < g.endpoints@.len() && (#[trigger] g.endpoints@[k]).online == Some(true) {
        let k = choose|k: int| 0 <= k < g.endpoints@.len() && (#[trigger] g.endpoints@[k]).online == Some(true);
        group::the_best_known_endpoints_are_eligible(g.endpoints@, k, j);
    }
    if exists|k: int| 0 <= k < g.endpoints@.len() && (#[trigger] g.endpoints@[k]).online is None {
        let k = choose|k: int| 0 <= k < g.endpoints@.len() && (#[trigger] g.endpoints@[k]).online is None;
        group::the_best_known_endpoints_are_eligible(g.endpoints@, k, j);
    }
    i
}

/// A target that is asked for has a group from then on, and the groups of other
/// targets stay as they are.
pub proof fn a_target_has_a_group_once_it_is_asked_for(
    before: Groups,
    k: (Seq<char>, bool, bool),
    requested_target: Seq<char>,
    effective: HostAndPort,
    upstream_tls: bool,
    http_health: bool,
    tls_server_name: Seq<char>,
    owner: Owner,
    resolved: Seq<Seq<char>>,
    now: u128,
    after: Groups,
    other: (Seq<char>, bool, bool),
)
    requires
        ensured(
            before,
            k,
            requested_target,
            effective,
            upstream_tls,
            http_health,
            tls_server_name,
            owner,
            resolved,
            now,
            after,
        ),
    ensures
        after.dom().contains(k),
        !before.dom().contains(k) ==> after[k].effective_host@ == effective.host@ && after[k].effective_port
            == effective.port && after[k].tls_server_name@ == tls_server_name && after[k].owner == owner
            && after[k].last_activity_ms == now && after[k].requested_target@ == requested_target,
        before.dom().contains(k) ==> after[k].endpoints == before[k].endpoints && after[k].owner == before[k].owner,
        before.dom().contains(k) && owner == Owner::Runtime ==> after[k].last_activity_ms == now,
        before.dom().contains(k) && owner == Owner::Configured ==> after[k].last_activity_ms
            == before[k].last_activity_ms,
        other != k ==> after.dom().contains(other) == before.dom().contains(other) && (before.dom().contains(other)
            ==> after[other] == before[other]),
{
    reveal_with_fuel(touched, 3);
    assert(seq![k].drop_last() =~= seq![]);
}

} // verus!
