//! The cache of resolved endpoints.
use vstd::prelude::*;
use crate::hostutil;
use crate::hostutil::HostAndPort;
use crate::order;
use crate::order::Ranked;
use crate::table::Table;
use crate::text;

verus! {

pub const DNS_CACHE_TTL_MS: u128 = 60000;

pub const DNS_NEGATIVE_CACHE_TTL_MS: u128 = 5000;

/// The endpoints that a name resolved to.
#[derive(Debug)]
pub struct CachedDns {
    pub endpoints: Vec<String>,
    pub expires_at_ms: u128,
}

/// The key under which a target is cached.
pub open spec fn cache_key(host: Seq<char>, port: u16) -> (Seq<char>, u16) {
    (text::lower(host), port)
}

/// The endpoints that the cache still holds for a target.
pub open spec fn fresh(m: Map<(Seq<char>, u16), CachedDns>, host: Seq<char>, port: u16, now: u128) -> Option<
    Seq<Seq<char>>,
> {
    let k = cache_key(host, port);
    if m.dom().contains(k) && m[k].expires_at_ms > now {
        Some(text::views(m[k].endpoints@))
    } else {
        None
    }
}

/// Where the endpoints of a target come from.
#[derive(Debug)]
pub enum Lookup {
    /// They are known.
    Known(Vec<String>),
    /// The resolver has to be asked for this name and port.
    Ask(String),
}

fn copy_texts(v: &Vec<String>) -> (r: Vec<String>)
    ensures
        text::views(r@) == text::views(v@),
{
    let mut out: Vec<String> = Vec::new();
    let mut i: usize = 0;
    while i < v.len()
        invariant
            i <= v@.len(),
            out@.len() == i,
            forall|k: int| 0 <= k < i ==> (#[trigger] out@[k])@ == v@[k]@,
        decreases v@.len() - i,
    {
        out.push(v[i].clone());
        i = i + 1;
    }
    assert(text::views(out@) =~= text::views(v@));
    out
}

/// Finds the endpoints of a target without asking: `literal` is the endpoint
/// of a host that is an address itself; otherwise a cached answer is taken
/// until it expires.
pub fn lookup(cache: &Table<(String, u16), CachedDns>, literal: Option<String>, host: &str, port: u16, now: u128) -> (r:
    Lookup)
    requires
        cache.wf(),
    ensures
        match (literal, fresh(cache@, host@, port, now)) {
            (Some(address), _) => r matches Lookup::Known(v) && text::views(v@) == seq![address@],
            (None, Some(known)) => r matches Lookup::Known(v) && text::views(v@) == known,
            (None, None) => r matches Lookup::Ask(name) && name@ == hostutil::shown(host@, port),
        },
{
    if let Some(address) = literal {
        let mut one: Vec<String> = Vec::new();
        one.push(address);
        assert(text::views(one@) =~= seq![address@]);
        return Lookup::Known(one);
    }
    let low = text::to_lower(text::chars_of(host).as_slice());
    let key = (text::string_of(low.as_slice()), port);
    if let Some(entry) = cache.get(&key) {
        if entry.expires_at_ms > now {
            return Lookup::Known(copy_texts(&entry.endpoints));
        }
    }
    Lookup::Ask(HostAndPort::new(text::owned(host), port).to_string())
}

/// An address that the resolver gave.
#[derive(Debug)]
pub struct ResolvedAddress {
    pub v4: bool,
    pub endpoint: String,
}

impl Ranked for ResolvedAddress {
    /// IPv4 addresses come first.
    open spec fn ranks_before(self, other: Self) -> bool {
        self.v4 || !other.v4
    }

    proof fn total(a: Self, b: Self) {
    }

    proof fn transitive(a: Self, b: Self, c: Self) {
    }

    fn not_after(&self, other: &Self) -> (r: bool) {
        self.v4 || !other.v4
    }
}

pub open spec fn endpoints_of(s: Seq<ResolvedAddress>) -> Seq<Seq<char>> {
    s.map_values(|a: ResolvedAddress| a.endpoint@)
}

/// The endpoints of the resolved addresses: IPv4 first, otherwise in the order
/// of the answer.
pub fn order_endpoints(addresses: Vec<ResolvedAddress>) -> (r: Vec<String>)
    ensures
        text::views(r@) == endpoints_of(order::sorted(addresses@)),
{
    let ranked = order::sort_vec(addresses);
    let mut out: Vec<String> = Vec::new();
    let mut i: usize = 0;
    while i < ranked.len()
        invariant
            i <= ranked@.len(),
            out@.len() == i,
            forall|k: int| 0 <= k < i ==> (#[trigger] out@[k])@ == ranked@[k].endpoint@,
        decreases ranked@.len() - i,
    {
        out.push(ranked[i].endpoint.clone());
        i = i + 1;
    }
    assert(text::views(out@) =~= endpoints_of(ranked@));
    out
}

/// When an answer with this many endpoints expires.
pub open spec fn expiry(count: nat, now: u128) -> u128 {
    let ttl = if count == 0 {
        DNS_NEGATIVE_CACHE_TTL_MS
    } else {
        DNS_CACHE_TTL_MS
    };
    if now + ttl > u128::MAX {
        u128::MAX
    } else {
        (now + ttl) as u128
    }
}

/// Caches an answer; one without endpoints for a shorter time.
pub fn remember(cache: &mut Table<(String, u16), CachedDns>, host: &str, port: u16, endpoints: &Vec<String>, now: u128)
    requires
        old(cache).wf(),
    ensures
        final(cache).wf(),
        final(cache)@ == old(cache)@.insert(cache_key(host@, port), final(cache)@[cache_key(host@, port)]),
        text::views(final(cache)@[cache_key(host@, port)].endpoints@) == text::views(endpoints@),
        final(cache)@[cache_key(host@, port)].expires_at_ms == expiry(endpoints@.len(), now),
{
    let low = text::to_lower(text::chars_of(host).as_slice());
    let key = (text::string_of(low.as_slice()), port);
    let ttl = if endpoints.len() == 0 {
        DNS_NEGATIVE_CACHE_TTL_MS
    } else {
        DNS_CACHE_TTL_MS
    };
    let entry = CachedDns { endpoints: copy_texts(endpoints), expires_at_ms: now.saturating_add(ttl) };
    cache.insert(key, entry);
}

/// A remembered answer is served, for the host in any letter case, until its
/// time is up, and no longer.
pub proof fn answers_are_served_until_they_expire(
    m: Map<(Seq<char>, u16), CachedDns>,
    host: Seq<char>,
    again: Seq<char>,
    port: u16,
    entry: CachedDns,
    stored: u128,
    now: u128,
)
    requires
        text::lower(host) == text::lower(again),
        entry.expires_at_ms == expiry(entry.endpoints@.len(), stored),
        stored + 60_000 <= u128::MAX,
    ensures
        ({
            let after = m.insert(cache_key(host, port), entry);
            let ttl: u128 = if entry.endpoints@.len() == 0 {
                5000
            } else {
                60_000
            };
            fresh(after, again, port, now) == if now < stored + ttl {
                Some(text::views(entry.endpoints@))
            } else {
                None
            }
        }),
{
}

/// An answer with addresses is kept for a minute, an empty one for five
/// seconds.
pub proof fn answers_are_kept_for_a_minute(count: nat, now: u128)
    requires
        now + 60000 <= u128::MAX,
    ensures
        count > 0 ==> expiry(count, now) == now + 60000,
        count == 0 ==> expiry(count, now) == now + 5000,
{
}

/// IPv4 addresses come before others, whatever order they were found in, and
/// none is lost.
pub proof fn ipv4_addresses_come_first(s: Seq<ResolvedAddress>, i: int, j: int)
    requires
        0 <= i < j < s.len(),
    ensures
        order::sorted(s).len() == s.len(),
        order::sorted(s)[j].v4 ==> order::sorted(s)[i].v4,
        order::sorted(s).to_multiset() == s.to_multiset(),
{
    order::sorted_is_an_ordered_permutation(s);
    assert(order::sorted(s)[i].ranks_before(order::sorted(s)[j]));
}

} // verus!
