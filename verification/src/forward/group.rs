//! Monitored groups of endpoints.
use vstd::prelude::*;
use vstd::slice::slice_subrange;
use crate::hostutil;
use crate::hostutil::HostAndPort;
use crate::table::Key;
use crate::text;

verus! {

pub const RUNTIME_TTL_MS: u128 = 600000;

/// What tells one group from another.
#[derive(Debug)]
pub struct GroupKey {
    pub target: String,
    pub upstream_tls: bool,
    pub http_health: bool,
}

impl Key for GroupKey {
    type Id = (Seq<char>, bool, bool);

    open spec fn id(&self) -> (Seq<char>, bool, bool) {
        (self.target@, self.upstream_tls, self.http_health)
    }

    fn same_key(&self, other: &Self) -> (r: bool) {
        self.upstream_tls == other.upstream_tls && self.http_health == other.http_health && text::str_eq(
            self.target.as_str(),
            other.target.as_str(),
        )
    }
}

impl GroupKey {
    pub fn copy(&self) -> (r: GroupKey)
        ensures
            r == *self,
    {
        GroupKey { target: self.target.clone(), upstream_tls: self.upstream_tls, http_health: self.http_health }
    }
}

/// Whether a group comes from the configuration or from traffic.
#[derive(Debug, Clone, Copy, PartialEq, Eq, Structural)]
pub enum Owner {
    Configured,
    Runtime,
}

#[derive(Debug)]
pub struct EndpointState {
    pub endpoint: String,
    /// Some(true) = up, Some(false) = down, None = not probed yet.
    pub online: Option<bool>,
    pub since_ms: u128,
    pub last_checked_ms: u128,
}

impl EndpointState {
    pub fn copy(&self) -> (r: EndpointState)
        ensures
            r == *self,
    {
        EndpointState {
            endpoint: self.endpoint.clone(),
            online: self.online,
            since_ms: self.since_ms,
            last_checked_ms: self.last_checked_ms,
        }
    }
}

#[derive(Debug)]
pub struct BackendStatusSerde {
    pub name: String,
    /// Some(true) = up, Some(false) = down, None = not probed yet.
    pub online: Option<bool>,
    pub since_ms: u128,
}

#[derive(Debug)]
pub struct SelectedTarget {
    pub endpoint: String,
    pub tls_server_name: String,
}

#[derive(Debug)]
pub struct MonitorGroup {
    pub key: GroupKey,
    pub requested_target: String,
    pub effective_host: String,
    pub effective_port: u16,
    pub tls_server_name: String,
    pub owner: Owner,
    pub endpoints: Vec<EndpointState>,
    pub last_activity_ms: u128,
    pub rng_state: u64,
}

/// One to three digits without a leading zero, up to 255.
pub open spec fn is_octet(s: Seq<char>) -> bool {
    &&& 1 <= s.len() <= 3
    &&& text::all_digits(s)
    &&& text::digits_value(s) <= 255
    &&& s[0] == '0' ==> s.len() == 1
}

/// Four octets between dots.
pub open spec fn is_ipv4(s: Seq<char>) -> bool {
    let p = text::pieces(s, '.');
    p.len() == 4 && is_octet(p[0]) && is_octet(p[1]) && is_octet(p[2]) && is_octet(p[3])
}

/// Whether an endpoint is an IPv4 address with a port.
pub open spec fn is_v4_endpoint(s: Seq<char>) -> bool {
    let k = text::last_at(s, ':');
    &&& k >= 0
    &&& is_ipv4(s.take(k))
    &&& s.skip(k + 1).len() > 0
    &&& text::all_digits(s.skip(k + 1))
    &&& text::digits_value(s.skip(k + 1)) <= u16::MAX
}

fn octet(s: &[char]) -> (r: bool)
    ensures
        r == is_octet(s@),
{
    if s.len() == 0 || s.len() > 3 {
        return false;
    }
    if s[0] == '0' && s.len() > 1 {
        return false;
    }
    let mut i: usize = 0;
    while i < s.len()
        invariant
            i <= s@.len(),
            forall|k: int| 0 <= k < i ==> text::is_digit(#[trigger] s@[k]),
        decreases s@.len() - i,
    {
        if !text::is_ascii_digit(s[i]) {
            assert(!text::is_digit(s@[i as int]));
            return false;
        }
        i = i + 1;
    }
    assert(text::is_digit(s@[0]));
    match text::parse_u64(s) {
        Some(v) => v <= 255,
        None => false,
    }
}

pub fn endpoint_is_ipv4(endpoint: &str) -> (r: bool)
    ensures
        r == is_v4_endpoint(endpoint@),
{
    let s = text::chars_of(endpoint);
    let k = match text::rfind(s.as_slice(), ':') {
        Some(k) => k,
        None => return false,
    };
    let host = slice_subrange(s.as_slice(), 0, k);
    let port = slice_subrange(s.as_slice(), k + 1, s.len());
    assert(host@ =~= endpoint@.take(k as int));
    assert(port@ =~= endpoint@.skip(k + 1));
    let parts = text::split(host, '.');
    if parts.len() != 4 || !octet(parts[0]) || !octet(parts[1]) || !octet(parts[2]) || !octet(parts[3]) {
        return false;
    }
    if port.len() == 0 {
        return false;
    }
    let mut i: usize = 0;
    while i < port.len()
        invariant
            i <= port@.len(),
            port@ == endpoint@.skip(k + 1),
            k == text::last_at(endpoint@, ':'),
            forall|j: int| 0 <= j < i ==> text::is_digit(#[trigger] port@[j]),
        decreases port@.len() - i,
    {
        if !text::is_ascii_digit(port[i]) {
            assert(!text::is_digit(endpoint@.skip(k + 1)[i as int]));
            return false;
        }
        i = i + 1;
    }
    assert(text::is_digit(port@[0]));
    text::parse_u16(port).is_some()
}

/// The endpoints in a state.
pub open spec fn in_state(s: Seq<EndpointState>, online: Option<bool>) -> Seq<EndpointState>
    decreases s.len(),
{
    if s.len() == 0 {
        seq![]
    } else if s.last().online == online {
        in_state(s.drop_last(), online).push(s.last())
    } else {
        in_state(s.drop_last(), online)
    }
}

/// The IPv4 endpoints.
pub open spec fn v4_only(s: Seq<EndpointState>) -> Seq<EndpointState>
    decreases s.len(),
{
    if s.len() == 0 {
        seq![]
    } else if is_v4_endpoint(s.last().endpoint@) {
        v4_only(s.drop_last()).push(s.last())
    } else {
        v4_only(s.drop_last())
    }
}

/// The endpoints that a connection may be sent to: those that are up; else
/// those of unknown state, or all if every one is down, and of these the IPv4
/// ones if there are any.
pub open spec fn eligible(s: Seq<EndpointState>) -> Seq<EndpointState> {
    let up = in_state(s, Some(true));
    let unknown = in_state(s, None);
    let fallback = if unknown.len() > 0 {
        unknown
    } else {
        s
    };
    if up.len() > 0 {
        up
    } else if v4_only(fallback).len() > 0 {
        v4_only(fallback)
    } else {
        fallback
    }
}

/// The next state of a group's random numbers.
pub open spec fn next_state(v: u64) -> u64 {
    let a = v ^ (v << 13u64);
    let b = a ^ (a >> 7u64);
    let c = b ^ (b << 17u64);
    if c == 0 {
        0x9e37_79b9_7f4a_7c15
    } else {
        c
    }
}

fn collect_state(s: &Vec<EndpointState>, online: Option<bool>) -> (r: Vec<EndpointState>)
    ensures
        r@ == in_state(s@, online),
{
    let mut out: Vec<EndpointState> = Vec::new();
    let mut i: usize = 0;
    while i < s.len()
        invariant
            i <= s@.len(),
            out@ == in_state(s@.take(i as int), online),
        decreases s@.len() - i,
    {
        assert(s@.take(i + 1).drop_last() =~= s@.take(i as int));
        if same_state(s[i].online, online) {
            out.push(s[i].copy());
        }
        i = i + 1;
    }
    assert(s@.take(i as int) =~= s@);
    out
}

fn collect_v4(s: &Vec<EndpointState>) -> (r: Vec<EndpointState>)
    ensures
        r@ == v4_only(s@),
{
    let mut out: Vec<EndpointState> = Vec::new();
    let mut i: usize = 0;
    while i < s.len()
        invariant
            i <= s@.len(),
            out@ == v4_only(s@.take(i as int)),
        decreases s@.len() - i,
    {
        assert(s@.take(i + 1).drop_last() =~= s@.take(i as int));
        if endpoint_is_ipv4(s[i].endpoint.as_str()) {
            out.push(s[i].copy());
        }
        i = i + 1;
    }
    assert(s@.take(i as int) =~= s@);
    out
}

pub fn same_state(a: Option<bool>, b: Option<bool>) -> (r: bool)
    ensures
        r == (a == b),
{
    match (a, b) {
        (Some(x), Some(y)) => x == y,
        (None, None) => true,
        _ => false,
    }
}

fn copy_all(s: &Vec<EndpointState>) -> (r: Vec<EndpointState>)
    ensures
        r@ == s@,
{
    let mut out: Vec<EndpointState> = Vec::new();
    let mut i: usize = 0;
    while i < s.len()
        invariant
            i <= s@.len(),
            out@ == s@.take(i as int),
        decreases s@.len() - i,
    {
        out.push(s[i].copy());
        assert(out@ =~= s@.take(i + 1));
        i = i + 1;
    }
    assert(s@.take(i as int) =~= s@);
    out
}

/// The position of the last state of an endpoint.
pub open spec fn state_of(s: Seq<EndpointState>, endpoint: Seq<char>) -> Option<int>
    decreases s.len(),
{
    if s.len() == 0 {
        None
    } else if s.last().endpoint@ == endpoint {
        Some(s.len() - 1)
    } else {
        state_of(s.drop_last(), endpoint)
    }
}

/// Whether `n` is what a freshly resolved endpoint starts with: its old state
/// if it had one, else unknown since now.
pub open spec fn carried_over(n: EndpointState, old: Seq<EndpointState>, endpoint: Seq<char>, now: u128) -> bool {
    match state_of(old, endpoint) {
        Some(k) => n == old[k],
        None => n.endpoint@ == endpoint && n.online is None && n.since_ms == now && n.last_checked_ms == 0,
    }
}

/// Whether `new` are the states of the resolved endpoints, in their order.
pub open spec fn reconciled(
    new: Seq<EndpointState>,
    old: Seq<EndpointState>,
    resolved: Seq<Seq<char>>,
    now: u128,
) -> bool {
    &&& new.len() == resolved.len()
    &&& forall|i: int| 0 <= i < new.len() ==> carried_over(#[trigger] new[i], old, resolved[i], now)
}

proof fn lemma_state_of(s: Seq<EndpointState>, endpoint: Seq<char>)
    ensures
        state_of(s, endpoint) is Some ==> 0 <= state_of(s, endpoint)->0 < s.len() && s[state_of(
            s,
            endpoint,
        )->0].endpoint@ == endpoint,
        state_of(s, endpoint) is None ==> forall|i: int| 0 <= i < s.len() ==> (#[trigger] s[i]).endpoint@ != endpoint,
    decreases s.len(),
{
    if s.len() > 0 && s.last().endpoint@ != endpoint {
        lemma_state_of(s.drop_last(), endpoint);
        if state_of(s, endpoint) is None {
            assert forall|i: int| 0 <= i < s.len() implies (#[trigger] s[i]).endpoint@ != endpoint by {
                if i < s.len() - 1 {
                    assert(s.drop_last()[i] == s[i]);
                }
            }
        }
    }
}

fn find_state(s: &Vec<EndpointState>, endpoint: &str) -> (r: Option<usize>)
    ensures
        match state_of(s@, endpoint@) {
            Some(k) => r is Some && r->0 == k && r->0 < s@.len(),
            None => r is None,
        },
{
    let mut n: usize = s.len();
    assert(s@.take(n as int) =~= s@);
    while n > 0
        invariant
            n <= s@.len(),
            state_of(s@, endpoint@) == state_of(s@.take(n as int), endpoint@),
        decreases n,
    {
        assert(s@.take(n as int).drop_last() =~= s@.take(n - 1));
        if text::str_eq(s[n - 1].endpoint.as_str(), endpoint) {
            return Some(n - 1);
        }
        n = n - 1;
    }
    None
}

/// The position of the first state of an endpoint.
pub open spec fn first_state_of(s: Seq<EndpointState>, endpoint: Seq<char>) -> Option<int>
    decreases s.len(),
{
    if s.len() == 0 {
        None
    } else if first_state_of(s.drop_last(), endpoint) is Some {
        first_state_of(s.drop_last(), endpoint)
    } else if s.last().endpoint@ == endpoint {
        Some(s.len() - 1)
    } else {
        None
    }
}

pub proof fn lemma_first_state_of(s: Seq<EndpointState>, endpoint: Seq<char>)
    ensures
        first_state_of(s, endpoint) is Some ==> 0 <= first_state_of(s, endpoint)->0 < s.len() && s[first_state_of(
            s,
            endpoint,
        )->0].endpoint@ == endpoint,
    decreases s.len(),
{
    if s.len() > 0 {
        lemma_first_state_of(s.drop_last(), endpoint);
    }
}

proof fn lemma_first_state_prefix(s: Seq<EndpointState>, n: int, endpoint: Seq<char>)
    requires
        0 <= n <= s.len(),
        first_state_of(s.take(n), endpoint) is Some,
    ensures
        first_state_of(s, endpoint) == first_state_of(s.take(n), endpoint),
    decreases s.len() - n,
{
    if n == s.len() {
        assert(s.take(n) =~= s);
    } else {
        assert(s.take(n + 1).drop_last() =~= s.take(n));
        lemma_first_state_prefix(s, n + 1, endpoint);
    }
}

/// What a probe makes of an endpoint's state: checked now, and changed now if
/// the result is news.
pub open spec fn probed(e: EndpointState, online: bool, now: u128) -> EndpointState {
    if e.online == Some(online) {
        EndpointState { last_checked_ms: now, ..e }
    } else {
        EndpointState { last_checked_ms: now, online: Some(online), since_ms: now, ..e }
    }
}

/// Up if any endpoint is up; unknown while unprobed endpoints could still turn
/// out up; down only when every endpoint is confirmed down (or DNS resolution
/// produced no endpoints at all).
pub open spec fn group_online(s: Seq<EndpointState>) -> Option<bool> {
    if in_state(s, Some(true)).len() > 0 {
        Some(true)
    } else if in_state(s, None).len() > 0 {
        None
    } else {
        Some(false)
    }
}

/// The earliest change among the endpoints.
pub open spec fn earliest(s: Seq<EndpointState>) -> Option<u128>
    decreases s.len(),
{
    if s.len() == 0 {
        None
    } else {
        match earliest(s.drop_last()) {
            None => Some(s.last().since_ms),
            Some(t) => if s.last().since_ms < t {
                Some(s.last().since_ms)
            } else {
                Some(t)
            },
        }
    }
}

proof fn lemma_in_state_within(s: Seq<EndpointState>, online: Option<bool>)
    ensures
        in_state(s, online).len() <= s.len(),
        forall|i: int| 0 <= i < in_state(s, online).len() ==> s.contains(#[trigger] in_state(s, online)[i]),
    decreases s.len(),
{
    if s.len() > 0 {
        let t = s.drop_last();
        lemma_in_state_within(t, online);
        assert forall|i: int| 0 <= i < in_state(s, online).len() implies s.contains(#[trigger] in_state(s, online)[i]) by {
            if i < in_state(t, online).len() {
                let x = in_state(t, online)[i];
                assert(t.contains(x));
                let k = choose|k: int| 0 <= k < t.len() && t[k] == x;
                assert(s[k] == x);
            } else {
                assert(s[s.len() - 1] == s.last());
            }
        }
    }
}

proof fn lemma_v4_within(s: Seq<EndpointState>)
    ensures
        v4_only(s).len() <= s.len(),
        forall|i: int| 0 <= i < v4_only(s).len() ==> s.contains(#[trigger] v4_only(s)[i]),
    decreases s.len(),
{
    if s.len() > 0 {
        let t = s.drop_last();
        lemma_v4_within(t);
        assert forall|i: int| 0 <= i < v4_only(s).len() implies s.contains(#[trigger] v4_only(s)[i]) by {
            if i < v4_only(t).len() {
                let x = v4_only(t)[i];
                assert(t.contains(x));
                let k = choose|k: int| 0 <= k < t.len() && t[k] == x;
                assert(s[k] == x);
            } else {
                assert(s[s.len() - 1] == s.last());
            }
        }
    }
}

/// Stale states never block a group: as long as it has an endpoint, one is
/// eligible, and every eligible endpoint is one of the group's.
pub proof fn a_group_with_endpoints_is_never_blocked(s: Seq<EndpointState>)
    ensures
        eligible(s).len() == 0 <==> s.len() == 0,
        forall|i: int| 0 <= i < eligible(s).len() ==> s.contains(#[trigger] eligible(s)[i]),
{
    lemma_in_state_within(s, Some(true));
    lemma_in_state_within(s, None);
    let unknown = in_state(s, None);
    let fallback = if unknown.len() > 0 {
        unknown
    } else {
        s
    };
    lemma_v4_within(fallback);
    assert forall|i: int| 0 <= i < eligible(s).len() implies s.contains(#[trigger] eligible(s)[i]) by {
        let x = eligible(s)[i];
        if in_state(s, Some(true)).len() > 0 {
        } else if v4_only(fallback).len() > 0 {
            assert(fallback.contains(x));
            let k = choose|k: int| 0 <= k < fallback.len() && fallback[k] == x;
            assert(fallback[k] == x);
            if unknown.len() > 0 {
                assert(s.contains(unknown[k]));
            }
        } else if unknown.len() > 0 {
            assert(s.contains(unknown[i]));
        } else {
            assert(s[i] == x);
        }
    }
}

proof fn lemma_in_state(s: Seq<EndpointState>, online: Option<bool>)
    ensures
        forall|i: int| 0 <= i < in_state(s, online).len() ==> (#[trigger] in_state(s, online)[i]).online == online,
        forall|i: int| 0 <= i < s.len() && (#[trigger] s[i]).online == online ==> in_state(s, online).contains(s[i]),
    decreases s.len(),
{
    if s.len() > 0 {
        let t = s.drop_last();
        lemma_in_state(t, online);
        assert forall|i: int| 0 <= i < s.len() && (#[trigger] s[i]).online == online implies in_state(
            s,
            online,
        ).contains(s[i]) by {
            if i < t.len() {
                assert(t[i] == s[i]);
                let k = choose|k: int| 0 <= k < in_state(t, online).len() && in_state(t, online)[k] == s[i];
                assert(in_state(s, online)[k] == s[i]);
            } else {
                assert(in_state(s, online)[in_state(s, online).len() - 1] == s[i]);
            }
        }
        assert forall|i: int| 0 <= i < in_state(s, online).len() implies (#[trigger] in_state(s, online)[i]).online
            == online by {
            if i < in_state(t, online).len() {
                assert(in_state(t, online)[i].online == online);
            }
        }
    }
}

proof fn lemma_v4_only(s: Seq<EndpointState>)
    ensures
        forall|i: int| 0 <= i < v4_only(s).len() ==> is_v4_endpoint((#[trigger] v4_only(s)[i]).endpoint@),
        forall|i: int|
            0 <= i < s.len() && is_v4_endpoint((#[trigger] s[i]).endpoint@) ==> v4_only(s).contains(s[i]),
    decreases s.len(),
{
    if s.len() > 0 {
        let t = s.drop_last();
        lemma_v4_only(t);
        assert forall|i: int| 0 <= i < s.len() && is_v4_endpoint((#[trigger] s[i]).endpoint@) implies v4_only(
            s,
        ).contains(s[i]) by {
            if i < t.len() {
                assert(t[i] == s[i]);
                let k = choose|k: int| 0 <= k < v4_only(t).len() && v4_only(t)[k] == s[i];
                assert(v4_only(s)[k] == s[i]);
            } else {
                assert(v4_only(s)[v4_only(s).len() - 1] == s[i]);
            }
        }
        assert forall|i: int| 0 <= i < v4_only(s).len() implies is_v4_endpoint(
            (#[trigger] v4_only(s)[i]).endpoint@,
        ) by {
            if i < v4_only(t).len() {
                assert(is_v4_endpoint(v4_only(t)[i].endpoint@));
            }
        }
    }
}

/// A connection goes to an endpoint that is up as long as there is one, to one
/// of unknown state as long as none is up and one is unknown, and to one that
/// is down only if all are. Every endpoint that is up can be hit.
pub proof fn the_best_known_endpoints_are_eligible(s: Seq<EndpointState>, i: int, j: int)
    requires
        0 <= i < s.len(),
        0 <= j < eligible(s).len(),
    ensures
        s[i].online == Some(true) ==> eligible(s)[j].online == Some(true) && eligible(s).contains(s[i]),
        s[i].online is None ==> eligible(s)[j].online != Some(false),
        eligible(s)[j].online == Some(false) ==> s[i].online == Some(false),
{
    lemma_in_state(s, Some(true));
    lemma_in_state(s, None);
    let up = in_state(s, Some(true));
    let unknown = in_state(s, None);
    let fallback = if unknown.len() > 0 {
        unknown
    } else {
        s
    };
    lemma_v4_within(fallback);
    if s[i].online == Some(true) {
        assert(up.contains(s[i]));
    }
    if s[i].online is None {
        assert(unknown.contains(s[i]));
    }
    let e = eligible(s)[j];
    if up.len() > 0 {
        assert(up[j].online == Some(true));
    } else {
        assert(fallback.contains(e)) by {
            if v4_only(fallback).len() > 0 {
                assert(fallback.contains(v4_only(fallback)[j]));
            } else {
                assert(fallback[j] == e);
            }
        }
        let k = choose|k: int| 0 <= k < fallback.len() && fallback[k] == e;
        if unknown.len() > 0 {
            assert(unknown[k].online is None);
        } else if s[i].online != Some(false) {
            assert(s[i].online is None || s[i].online == Some(true));
        }
    }
}

/// While no endpoint is up, an IPv4 endpoint comes before others of its state,
/// and every endpoint of the best state and kind can be hit.
pub proof fn ipv4_comes_first_while_nothing_is_up(s: Seq<EndpointState>, i: int, j: int)
    requires
        0 <= i < s.len(),
        0 <= j < eligible(s).len(),
        forall|k: int| 0 <= k < s.len() ==> (#[trigger] s[k]).online != Some(true),
        s[i].online is None || forall|k: int| 0 <= k < s.len() ==> (#[trigger] s[k]).online == Some(false),
    ensures
        is_v4_endpoint(s[i].endpoint@) ==> is_v4_endpoint(eligible(s)[j].endpoint@) && eligible(s).contains(s[i]),
        !is_v4_endpoint(eligible(s)[j].endpoint@) ==> eligible(s).contains(s[i]),
{
    lemma_in_state(s, Some(true));
    lemma_in_state(s, None);
    lemma_in_state_within(s, Some(true));
    let up = in_state(s, Some(true));
    if up.len() > 0 {
        assert(up[0].online == Some(true));
        assert(s.contains(up[0]));
        let k = choose|k: int| 0 <= k < s.len() && s[k] == up[0];
        assert(s[k].online != Some(true));
    }
    let unknown = in_state(s, None);
    if s[i].online is None {
        assert(unknown.contains(s[i]));
    } else if unknown.len() > 0 {
        lemma_in_state_within(s, None);
        assert(s.contains(unknown[0]));
        let k = choose|k: int| 0 <= k < s.len() && s[k] == unknown[0];
        assert(s[k].online == Some(false));
        assert(unknown[0].online is None);
    }
    let fallback = if unknown.len() > 0 {
        unknown
    } else {
        s
    };
    assert(fallback.contains(s[i]));
    lemma_v4_only(fallback);
    let m = choose|m: int| 0 <= m < fallback.len() && fallback[m] == s[i];
    assert(fallback[m] == s[i]);
    if v4_only(fallback).len() > 0 {
        assert(is_v4_endpoint(v4_only(fallback)[j].endpoint@));
    }
}

/// What a probe found is what the endpoint's state says from then on, whatever
/// it said before; the time of the change moves exactly if the state changed,
/// and nothing else of the endpoint does.
pub proof fn a_probe_sets_the_state(e: EndpointState, online: bool, now: u128)
    ensures
        probed(e, online, now).online == Some(online),
        probed(e, online, now).endpoint == e.endpoint,
        probed(e, online, now).last_checked_ms == now,
        e.online == Some(online) ==> probed(e, online, now).since_ms == e.since_ms,
        e.online != Some(online) ==> probed(e, online, now).since_ms == now,
{
}

/// A group is up if one endpoint is, down if all were found down, and else
/// unknown.
pub proof fn a_group_is_up_if_an_endpoint_is(s: Seq<EndpointState>)
    ensures
        group_online(s) == Some(true) <==> exists|i: int| 0 <= i < s.len() && (#[trigger] s[i]).online == Some(true),
        group_online(s) == Some(false) <==> forall|i: int|
            0 <= i < s.len() ==> (#[trigger] s[i]).online == Some(false),
{
    lemma_in_state(s, Some(true));
    lemma_in_state(s, None);
    lemma_in_state_within(s, Some(true));
    lemma_in_state_within(s, None);
    let up = in_state(s, Some(true));
    let unknown = in_state(s, None);
    if up.len() > 0 {
        assert(s.contains(up[0]) && up[0].online == Some(true));
    }
    if unknown.len() > 0 {
        assert(s.contains(unknown[0]) && unknown[0].online is None);
    }
    assert forall|i: int| 0 <= i < s.len() && up.len() == 0 && unknown.len() == 0 implies (#[trigger] s[i]).online
        == Some(false) by {
        if s[i].online == Some(true) {
            assert(up.contains(s[i]));
        }
        if s[i].online is None {
            assert(unknown.contains(s[i]));
        }
    }
    if exists|i: int| 0 <= i < s.len() && (#[trigger] s[i]).online == Some(true) {
        let i = choose|i: int| 0 <= i < s.len() && (#[trigger] s[i]).online == Some(true);
        assert(up.contains(s[i]));
    }
}

/// The earliest time is one of the times, and none is earlier.
pub proof fn nothing_is_earlier_than_the_earliest(s: Seq<EndpointState>, i: int)
    requires
        0 <= i < s.len(),
    ensures
        earliest(s) is Some,
        earliest(s)->0 <= s[i].since_ms,
        exists|k: int| 0 <= k < s.len() && (#[trigger] s[k]).since_ms == earliest(s)->0,
    decreases s.len(),
{
    let t = s.drop_last();
    if t.len() > 0 {
        nothing_is_earlier_than_the_earliest(t, if i < t.len() {
            i
        } else {
            0
        });
        let k = choose|k: int| 0 <= k < t.len() && (#[trigger] t[k]).since_ms == earliest(t)->0;
        assert(s[k] == t[k]);
        if i < t.len() {
            assert(s[i] == t[i]);
        }
    } else {
        assert(earliest(t) is None);
    }
    assert(s[s.len() - 1] == s.last());
}

/// An endpoint that a target still resolves to keeps its state; one that is new
/// starts unknown; one that is gone is forgotten.
pub proof fn known_endpoints_keep_their_state(
    new: Seq<EndpointState>,
    old: Seq<EndpointState>,
    resolved: Seq<Seq<char>>,
    now: u128,
    i: int,
)
    requires
        reconciled(new, old, resolved, now),
        0 <= i < resolved.len(),
    ensures
        new.len() == resolved.len(),
        new[i].endpoint@ == resolved[i],
        (forall|k: int| 0 <= k < old.len() ==> (#[trigger] old[k]).endpoint@ != resolved[i]) ==> new[i].online is None
            && new[i].since_ms == now,
        (exists|k: int| 0 <= k < old.len() && (#[trigger] old[k]).endpoint@ == resolved[i]) ==> exists|k: int|
            0 <= k < old.len() && (#[trigger] old[k]).endpoint@ == resolved[i] && new[i] == old[k],
{
    lemma_state_of(old, resolved[i]);
    assert(carried_over(new[i], old, resolved[i], now));
    if exists|k: int| 0 <= k < old.len() && (#[trigger] old[k]).endpoint@ == resolved[i] {
        let k = state_of(old, resolved[i])->0;
        assert(old[k].endpoint@ == resolved[i] && new[i] == old[k]);
    }
}

impl MonitorGroup {
    /// A group for a target, with the endpoints that it resolved to.
    pub fn new(
        requested_target: String,
        effective: &HostAndPort,
        upstream_tls: bool,
        http_health: bool,
        tls_server_name: String,
        owner: Owner,
        resolved: &Vec<String>,
        now: u128,
    ) -> (r: MonitorGroup)
        ensures
            Key::id(&r.key) == (hostutil::shown(effective.host@, effective.port), upstream_tls, http_health),
            r.requested_target@ == requested_target@,
            r.effective_host@ == effective.host@,
            r.effective_port == effective.port,
            r.tls_server_name@ == tls_server_name@,
            r.owner == owner,
            reconciled(r.endpoints@, seq![], text::views(resolved@), now),
            r.last_activity_ms == now,
            r.rng_state == now as u64,
    {
        let mut group = MonitorGroup {
            key: GroupKey { target: effective.to_string(), upstream_tls, http_health },
            requested_target,
            effective_host: effective.host.clone(),
            effective_port: effective.port,
            tls_server_name,
            owner,
            endpoints: Vec::new(),
            last_activity_ms: now,
            rng_state: #[verifier::truncate] (now as u64),
        };
        group.reconcile_endpoints(resolved, now);
        group
    }

    pub fn touch(&mut self, now: u128)
        ensures
            *final(self) == (MonitorGroup { last_activity_ms: now, ..*old(self) }),
    {
        self.last_activity_ms = now;
    }

    pub open spec fn is_expired(self, now: u128) -> bool {
        self.owner == Owner::Runtime && now > self.last_activity_ms && now - self.last_activity_ms > RUNTIME_TTL_MS
    }

    /// Whether a group that came from traffic has been idle for too long.
    pub fn expired(&self, now: u128) -> (r: bool)
        ensures
            r == self.is_expired(now),
    {
        self.owner == Owner::Runtime && now.saturating_sub(self.last_activity_ms) > RUNTIME_TTL_MS
    }

    /// Advances the group's random numbers and yields the next one.
    pub fn next_random(&mut self) -> (r: u64)
        ensures
            r == next_state(old(self).rng_state),
            *final(self) == (MonitorGroup { rng_state: r, ..*old(self) }),
    {
        let v = self.rng_state;
        let a = v ^ (v << 13u64);
        let b = a ^ (a >> 7u64);
        let c = b ^ (b << 17u64);
        let next = if c == 0 {
            0x9e37_79b9_7f4a_7c15
        } else {
            c
        };
        self.rng_state = next;
        next
    }

    /// One of the eligible endpoints, at random; none only if the group has no
    /// endpoint.
    pub fn choose_endpoint(&mut self) -> (r: Option<SelectedTarget>)
        ensures
            old(self).endpoints@.len() == 0 ==> r is None && *final(self) == *old(self),
            old(self).endpoints@.len() > 0 ==> {
                let e = eligible(old(self).endpoints@);
                let random = next_state(old(self).rng_state);
                &&& r is Some
                &&& e.len() > 0
                &&& r->0.endpoint@ == e[(random as usize) as int % e.len() as int].endpoint@
                &&& r->0.tls_server_name@ == old(self).tls_server_name@
                &&& *final(self) == (MonitorGroup { rng_state: random, ..*old(self) })
            },
    {
        if self.endpoints.len() == 0 {
            return None;
        }
        proof {
            a_group_with_endpoints_is_never_blocked(self.endpoints@);
        }
        let up = collect_state(&self.endpoints, Some(true));
        let chosen = if up.len() > 0 {
            up
        } else {
            let unknown = collect_state(&self.endpoints, None);
            let fallback = if unknown.len() > 0 {
                unknown
            } else {
                copy_all(&self.endpoints)
            };
            let v4 = collect_v4(&fallback);
            if v4.len() > 0 {
                v4
            } else {
                fallback
            }
        };
        assert(chosen@ == eligible(self.endpoints@));
        let random = self.next_random();
        let index: usize = (#[verifier::truncate] (random as usize)) % chosen.len();
        Some(
            SelectedTarget { endpoint: chosen[index].endpoint.clone(), tls_server_name: self.tls_server_name.clone() },
        )
    }

    /// Takes over the endpoints that the target resolves to now; endpoints
    /// that stay keep their state.
    pub fn reconcile_endpoints(&mut self, resolved: &Vec<String>, now: u128)
        ensures
            reconciled(final(self).endpoints@, old(self).endpoints@, text::views(resolved@), now),
            *final(self) == (MonitorGroup { endpoints: final(self).endpoints, ..*old(self) }),
    {
        let mut new: Vec<EndpointState> = Vec::new();
        let mut i: usize = 0;
        while i < resolved.len()
            invariant
                i <= resolved@.len(),
                *self == *old(self),
                new@.len() == i,
                forall|k: int|
                    0 <= k < i ==> carried_over(
                        #[trigger] new@[k],
                        old(self).endpoints@,
                        text::views(resolved@)[k],
                        now,
                    ),
            decreases resolved@.len() - i,
        {
            match find_state(&self.endpoints, resolved[i].as_str()) {
                Some(k) => new.push(self.endpoints[k].copy()),
                None => new.push(
                    EndpointState {
                        endpoint: resolved[i].clone(),
                        online: None,
                        since_ms: now,
                        last_checked_ms: 0,
                    },
                ),
            }
            i = i + 1;
        }
        self.endpoints = new;
    }

    /// Records a probe's result for an endpoint. Yields the state before if it
    /// changed; an unknown endpoint changes nothing.
    pub fn set_endpoint_state(&mut self, endpoint: &str, online: bool, now: u128) -> (r: Option<Option<bool>>)
        ensures
            match first_state_of(old(self).endpoints@, endpoint@) {
                None => r is None && *final(self) == *old(self),
                Some(k) => {
                    let before = old(self).endpoints@[k];
                    &&& 0 <= k < old(self).endpoints@.len()
                    &&& before.endpoint@ == endpoint@
                    &&& final(self).endpoints@ == old(self).endpoints@.update(k, probed(before, online, now))
                    &&& *final(self) == (MonitorGroup { endpoints: final(self).endpoints, ..*old(self) })
                    &&& r == if before.online == Some(online) {
                        None
                    } else {
                        Some(before.online)
                    }
                },
            },
    {
        let mut i: usize = 0;
        while i < self.endpoints.len()
            invariant
                i <= self.endpoints@.len(),
                *self == *old(self),
                first_state_of(self.endpoints@.take(i as int), endpoint@) is None,
            decreases self.endpoints@.len() - i,
        {
            assert(self.endpoints@.take(i + 1).drop_last() =~= self.endpoints@.take(i as int));
            if text::str_eq(self.endpoints[i].endpoint.as_str(), endpoint) {
                proof {
                    lemma_first_state_prefix(self.endpoints@, i + 1, endpoint@);
                }
                let before = self.endpoints[i].online;
                let news = !same_state(before, Some(online));
                self.endpoints[i].last_checked_ms = now;
                if news {
                    self.endpoints[i].online = Some(online);
                    self.endpoints[i].since_ms = now;
                    assert(self.endpoints@ =~= old(self).endpoints@.update(
                        i as int,
                        probed(old(self).endpoints@[i as int], online, now),
                    ));
                    return Some(before);
                }
                assert(self.endpoints@ =~= old(self).endpoints@.update(
                    i as int,
                    probed(old(self).endpoints@[i as int], online, now),
                ));
                return None;
            }
            i = i + 1;
        }
        assert(self.endpoints@.take(i as int) =~= self.endpoints@);
        None
    }

    /// The group's target, its state and since when it holds.
    pub open spec fn status_at(self, now: u128) -> (Seq<char>, Option<bool>, u128) {
        let online = group_online(self.endpoints@);
        let since = match earliest(in_state(self.endpoints@, online)) {
            Some(t) => t,
            None => now,
        };
        (self.requested_target@, online, since)
    }

    /// The group's state and since when it holds.
    pub fn status(&self, now: u128) -> (r: BackendStatusSerde)
        ensures
            (r.name@, r.online, r.since_ms) == self.status_at(now),
    {
        let up = collect_state(&self.endpoints, Some(true));
        let unknown = collect_state(&self.endpoints, None);
        let down = collect_state(&self.endpoints, Some(false));
        let (online, rows) = if up.len() > 0 {
            (Some(true), up)
        } else if unknown.len() > 0 {
            (None, unknown)
        } else {
            (Some(false), down)
        };
        let mut since: Option<u128> = None;
        let mut i: usize = 0;
        while i < rows.len()
            invariant
                i <= rows@.len(),
                since == earliest(rows@.take(i as int)),
            decreases rows@.len() - i,
        {
            assert(rows@.take(i + 1).drop_last() =~= rows@.take(i as int));
            since = match since {
                None => Some(rows[i].since_ms),
                Some(t) => if rows[i].since_ms < t {
                    Some(rows[i].since_ms)
                } else {
                    Some(t)
                },
            };
            i = i + 1;
        }
        assert(rows@.take(i as int) =~= rows@);
        let since_ms = match since {
            Some(t) => t,
            None => now,
        };
        BackendStatusSerde { name: self.requested_target.clone(), online, since_ms }
    }
}

pub open spec fn state_text(online: Option<bool>) -> Seq<char> {
    match online {
        Some(true) => "up"@,
        Some(false) => "down"@,
        None => "unknown"@,
    }
}

pub fn state_name(online: Option<bool>) -> (r: &'static str)
    ensures
        r@ == state_text(online),
{
    match online {
        Some(true) => "up",
        Some(false) => "down",
        None => "unknown",
    }
}

/// A group is known by the target that was asked for. Its state holds since the
/// first of the endpoints in that state came to be in it; without one, since
/// now.
pub proof fn a_state_holds_since_its_first_endpoint(g: MonitorGroup, now: u128, i: int)
    ensures
        g.status_at(now).0 == g.requested_target@,
        g.endpoints@.len() == 0 ==> g.status_at(now).1 == Some(false) && g.status_at(now).2 == now,
        0 <= i < g.endpoints@.len() && g.endpoints@[i].online == g.status_at(now).1 ==> g.status_at(now).2
            <= g.endpoints@[i].since_ms,
{
    let online = group_online(g.endpoints@);
    if 0 <= i < g.endpoints@.len() && g.endpoints@[i].online == online {
        lemma_earliest_in_state(g.endpoints@, online, i);
    }
}

proof fn lemma_earliest_in_state(s: Seq<EndpointState>, online: Option<bool>, i: int)
    requires
        0 <= i < s.len(),
        s[i].online == online,
    ensures
        earliest(in_state(s, online)) is Some,
        earliest(in_state(s, online))->0 <= s[i].since_ms,
    decreases s.len(),
{
    let t = s.drop_last();
    if i < t.len() {
        assert(t[i] == s[i]);
        lemma_earliest_in_state(t, online, i);
    }
    if s.last().online == online {
        assert(in_state(s, online).drop_last() =~= in_state(t, online));
    }
}

/// A probe's result is recorded for the endpoint that was probed, wherever it
/// stands, and for no other; it is told exactly if it is news.
pub proof fn a_probes_result_is_recorded_and_told(
    g: &mut MonitorGroup,
    endpoint: &str,
    online: bool,
    now: u128,
    k: int,
    r: Option<Option<bool>>,
)
    requires
        call_ensures(MonitorGroup::set_endpoint_state, (g, endpoint, online, now), r),
        0 <= k < old(g).endpoints@.len(),
        old(g).endpoints@[k].endpoint@ == endpoint@,
        forall|i: int| 0 <= i < k ==> (#[trigger] old(g).endpoints@[i]).endpoint@ != endpoint@,
    ensures
        final(g).endpoints@.len() == old(g).endpoints@.len(),
        final(g).endpoints@[k].online == Some(online),
        final(g).endpoints@[k].last_checked_ms == now,
        forall|i: int|
            0 <= i < old(g).endpoints@.len() && i != k ==> #[trigger] final(g).endpoints@[i] == old(g).endpoints@[i],
        r is Some <==> old(g).endpoints@[k].online != Some(online),
        r is Some ==> r->0 == old(g).endpoints@[k].online,
{
    lemma_first_state(old(g).endpoints@, endpoint@, k);
}

proof fn lemma_first_state(s: Seq<EndpointState>, endpoint: Seq<char>, k: int)
    requires
        forall|i: int| 0 <= i < k && i < s.len() ==> (#[trigger] s[i]).endpoint@ != endpoint,
        0 <= k < s.len() ==> s[k].endpoint@ == endpoint,
        0 <= k,
    ensures
        first_state_of(s, endpoint) == if k < s.len() {
            Some(k)
        } else {
            None
        },
    decreases s.len(),
{
    if s.len() > 0 {
        let t = s.drop_last();
        assert forall|i: int| 0 <= i < k && i < t.len() implies (#[trigger] t[i]).endpoint@ != endpoint by {
            assert(t[i] == s[i]);
        }
        if k < t.len() {
            assert(t[k] == s[k]);
        }
        lemma_first_state(t, endpoint, k);
        if k >= s.len() {
            assert(s[s.len() - 1].endpoint@ != endpoint);
        }
    }
}

} // verus!
