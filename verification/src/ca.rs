//! The local certificate authority: which names it issues for, and the leaves
//! that it keeps at hand. Times are seconds since the Unix epoch.
use vstd::prelude::*;
use crate::certificate;
use crate::certificate::{MintError, MintedIdentity, ReadError, SanModel};
use crate::text;
use crate::utc;
use crate::x509;

verus! {

pub const LEAF_VALIDITY_DAYS: u32 = 365;

pub const EVICT_WITHIN_HOURS: i64 = 72;

/// One hour, in milliseconds.
pub const EVICTION_INTERVAL: u64 = 3600000;

pub const CACHE_CAPACITY: usize = 10000;

/// What stands for a character in a file name.
pub open spec fn file_char(c: char) -> char {
    if text::is_alnum(c) || c == '.' || c == '-' || c == '_' {
        c
    } else {
        '_'
    }
}

pub open spec fn file_name(s: Seq<char>) -> Seq<char> {
    s.map_values(|c: char| file_char(c))
}

/// A name as it can stand in a file name: every other character becomes an
/// underscore.
pub fn sanitize_name(name: &str) -> (r: String)
    ensures
        r@ == file_name(name@),
{
    let s = text::chars_of(name);
    let mut out: Vec<char> = Vec::new();
    let mut i: usize = 0;
    while i < s.len()
        invariant
            i <= s@.len(),
            out@ == file_name(s@.take(i as int)),
        decreases s@.len() - i,
    {
        let c = s[i];
        if text::is_ascii_alphanumeric(c) || c == '.' || c == '-' || c == '_' {
            out.push(c);
        } else {
            out.push('_');
        }
        assert(out@ =~= file_name(s@.take(i + 1)));
        i = i + 1;
    }
    assert(s@.take(i as int) =~= s@);
    text::string_of(out.as_slice())
}

/// Why no certificate is issued for a name.
#[derive(Debug, Clone, Copy, PartialEq, Eq, Structural)]
pub enum HostnameError {
    Empty,
    TooLong,
    Invalid,
}

/// Whether a character can stand in a host name.
pub open spec fn host_char(c: char) -> bool {
    text::is_alnum(c) || c == '-' || c == '.'
}

/// The form in which a host name is used: trimmed, without dots at the end, in
/// lower case.
pub open spec fn plain_host(s: Seq<char>) -> Seq<char> {
    text::lower(text::trimmed_end_of(text::trimmed(s), '.'))
}

/// The host name that a certificate is issued for, or why there is none.
pub open spec fn sanitized(s: Seq<char>) -> Result<Seq<char>, HostnameError> {
    let h = plain_host(s);
    if h.len() == 0 {
        Err(HostnameError::Empty)
    } else if vstd::utf8::encode_utf8(h).len() > 253 {
        Err(HostnameError::TooLong)
    } else if exists|i: int| 0 <= i < h.len() && !host_char(#[trigger] h[i]) {
        Err(HostnameError::Invalid)
    } else {
        Ok(h)
    }
}

impl HostnameError {
    /// What is said of a name that no certificate is issued for.
    pub open spec fn text(self, hostname: Seq<char>) -> Seq<char> {
        match self {
            HostnameError::Empty => "empty SNI hostname"@,
            HostnameError::TooLong => "SNI hostname is too long"@,
            HostnameError::Invalid => "invalid SNI hostname `"@ + plain_host(hostname) + "`"@,
        }
    }

    pub fn message(self, hostname: &str) -> (r: String)
        ensures
            r@ == self.text(hostname@),
    {
        match self {
            HostnameError::Empty => text::owned("empty SNI hostname"),
            HostnameError::TooLong => text::owned("SNI hostname is too long"),
            HostnameError::Invalid => {
                let all = text::chars_of(hostname);
                let h = text::to_lower(text::trim_end_of(text::trim(all.as_slice()), '.'));
                let mut out = text::owned("invalid SNI hostname `");
                text::push_chars(&mut out, h.as_slice());
                out.push_str("`");
                out
            },
        }
    }
}

pub fn sanitize_hostname(hostname: &str) -> (r: Result<String, HostnameError>)
    ensures
        match sanitized(hostname@) {
            Ok(h) => r is Ok && r->Ok_0@ == h,
            Err(e) => r is Err && r->Err_0 == e,
        },
{
    let all = text::chars_of(hostname);
    let h = text::to_lower(text::trim_end_of(text::trim(all.as_slice()), '.'));
    if h.len() == 0 {
        return Err(HostnameError::Empty);
    }
    let s = text::string_of(h.as_slice());
    if s.as_str().as_bytes().len() > 253 {
        return Err(HostnameError::TooLong);
    }
    let mut i: usize = 0;
    while i < h.len()
        invariant
            i <= h@.len(),
            h@ == plain_host(hostname@),
            h@.len() > 0,
            vstd::utf8::encode_utf8(h@).len() <= 253,
            forall|k: int| 0 <= k < i ==> host_char(#[trigger] h@[k]),
        decreases h@.len() - i,
    {
        let c = h[i];
        if !(text::is_ascii_alphanumeric(c) || c == '-' || c == '.') {
            assert(!host_char(h@[i as int]));
            return Err(HostnameError::Invalid);
        }
        i = i + 1;
    }
    Ok(s)
}

/// The hasher of the cache.
#[verifier::external_type_specification]
#[verifier::external_body]
pub struct ExDefaultHasher(lru::DefaultHasher);

/// A cache that drops what was not used for longest.
#[verifier::external_type_specification]
#[verifier::external_body]
#[verifier::reject_recursive_types(K)]
#[verifier::reject_recursive_types(V)]
#[verifier::reject_recursive_types(S)]
pub struct ExLruCache<K, V, S>(lru::LruCache<K, V, S>);

/// The leaves in a cache by host name, the most recently used first: which
/// leaf, and when it expires.
pub uninterp spec fn leaf_order(c: lru::LruCache<String, (u64, i64)>) -> Seq<(Seq<char>, (u64, i64))>;

/// How many leaves a cache holds at most.
pub uninterp spec fn leaf_capacity(c: lru::LruCache<String, (u64, i64)>) -> nat;

/// The position of a host name among the leaves.
pub open spec fn place(s: Seq<(Seq<char>, (u64, i64))>, host: Seq<char>) -> Option<int>
    decreases s.len(),
{
    if s.len() == 0 {
        None
    } else if s.last().0 == host {
        Some(s.len() - 1)
    } else {
        place(s.drop_last(), host)
    }
}

/// No host name occurs twice.
pub open spec fn hosts_distinct(s: Seq<(Seq<char>, (u64, i64))>) -> bool {
    forall|i: int, j: int| 0 <= i < j < s.len() ==> (#[trigger] s[i]).0 != (#[trigger] s[j]).0
}

/// The leaves once a host name was looked up: what was found is in front.
pub open spec fn looked_up(s: Seq<(Seq<char>, (u64, i64))>, host: Seq<char>) -> Seq<(Seq<char>, (u64, i64))> {
    match place(s, host) {
        Some(i) => seq![s[i]] + s.remove(i),
        None => s,
    }
}

/// The leaves once one was put in front: it takes the place of the former one
/// for the host name, or of the last one if the cache is full.
pub open spec fn put_first(s: Seq<(Seq<char>, (u64, i64))>, capacity: nat, host: Seq<char>, leaf: (u64, i64)) -> Seq<
    (Seq<char>, (u64, i64)),
> {
    match place(s, host) {
        Some(i) => seq![(host, leaf)] + s.remove(i),
        None => if s.len() == capacity {
            seq![(host, leaf)] + s.drop_last()
        } else {
            seq![(host, leaf)] + s
        },
    }
}

/// The leaves without the one for a host name.
pub open spec fn taken_out(s: Seq<(Seq<char>, (u64, i64))>, host: Seq<char>) -> Seq<(Seq<char>, (u64, i64))> {
    match place(s, host) {
        Some(i) => s.remove(i),
        None => s,
    }
}

/// `lru::LruCache::new`: an empty cache of that capacity. Room for every entry
/// is set aside at once, so the capacity is bounded.
#[verifier::external_body]
fn lru_new(capacity: usize) -> (r: lru::LruCache<String, (u64, i64)>)
    requires
        0 < capacity <= CACHE_CAPACITY,
    ensures
        leaf_order(r).len() == 0,
        leaf_capacity(r) == capacity,
{
    lru::LruCache::new(std::num::NonZeroUsize::new(capacity).unwrap())
}

/// `lru::LruCache::get`: the value of a key, which becomes the most recently
/// used one.
#[verifier::external_body]
fn lru_get(c: &mut lru::LruCache<String, (u64, i64)>, host: &str) -> (r: Option<(u64, i64)>)
    ensures
        leaf_order(*final(c)) == looked_up(leaf_order(*old(c)), host@),
        leaf_capacity(*final(c)) == leaf_capacity(*old(c)),
        r == match place(leaf_order(*old(c)), host@) {
            Some(i) => Some(leaf_order(*old(c))[i].1),
            None => None,
        },
{
    c.get(host).copied()
}

/// `lru::LruCache::put`: binds a key to a value and makes it the most recently
/// used one; a full cache drops its least recently used key for a new one.
#[verifier::external_body]
fn lru_put(c: &mut lru::LruCache<String, (u64, i64)>, host: String, leaf: (u64, i64))
    requires
        leaf_order(*old(c)).len() <= leaf_capacity(*old(c)),
        leaf_capacity(*old(c)) > 0,
    ensures
        leaf_order(*final(c)) == put_first(leaf_order(*old(c)), leaf_capacity(*old(c)), host@, leaf),
        leaf_capacity(*final(c)) == leaf_capacity(*old(c)),
{
    c.put(host, leaf);
}

/// `lru::LruCache::pop`: unbinds a key.
#[verifier::external_body]
fn lru_pop(c: &mut lru::LruCache<String, (u64, i64)>, host: &str)
    ensures
        leaf_order(*final(c)) == taken_out(leaf_order(*old(c)), host@),
        leaf_capacity(*final(c)) == leaf_capacity(*old(c)),
{
    c.pop(host);
}

pub open spec fn rows(v: Seq<(String, (u64, i64))>) -> Seq<(Seq<char>, (u64, i64))> {
    v.map_values(|e: (String, (u64, i64))| (e.0@, e.1))
}

/// `lru::LruCache::iter`: the keys with their values, the most recently used
/// first.
#[verifier::external_body]
fn lru_rows(c: &lru::LruCache<String, (u64, i64)>) -> (r: Vec<(String, (u64, i64))>)
    ensures
        rows(r@) == leaf_order(*c),
{
    c.iter().map(|(host, leaf)| (host.clone(), *leaf)).collect()
}

/// Whether a leaf is too close to its end to be served.
pub open spec fn expiring(expires_at: i64, now: i64) -> bool {
    expires_at - now <= EVICT_WITHIN_HOURS * 3600
}

fn is_expiring(expires_at: i64, now: i64) -> (r: bool)
    requires
        crate::utc::MIN_SECONDS <= now <= crate::utc::MAX_SECONDS,
    ensures
        r == expiring(expires_at, now),
{
    expires_at <= now + EVICT_WITHIN_HOURS * 3600
}

/// The leaves that are not expiring.
pub open spec fn lasting(s: Seq<(Seq<char>, (u64, i64))>, now: i64) -> Seq<(Seq<char>, (u64, i64))>
    decreases s.len(),
{
    if s.len() == 0 {
        seq![]
    } else if expiring(s.last().1.1, now) {
        lasting(s.drop_last(), now)
    } else {
        lasting(s.drop_last(), now).push(s.last())
    }
}

proof fn lemma_place(s: Seq<(Seq<char>, (u64, i64))>, host: Seq<char>)
    ensures
        place(s, host) is Some ==> 0 <= place(s, host)->0 < s.len() && s[place(s, host)->0].0 == host,
        place(s, host) is None ==> forall|i: int| 0 <= i < s.len() ==> (#[trigger] s[i]).0 != host,
    decreases s.len(),
{
    if s.len() > 0 && s.last().0 != host {
        lemma_place(s.drop_last(), host);
        if place(s, host) is None {
            assert forall|i: int| 0 <= i < s.len() implies (#[trigger] s[i]).0 != host by {
                if i < s.len() - 1 {
                    assert(s.drop_last()[i] == s[i]);
                }
            }
        }
    }
}

proof fn lemma_removed_distinct(s: Seq<(Seq<char>, (u64, i64))>, i: int)
    requires
        hosts_distinct(s),
        0 <= i < s.len(),
    ensures
        hosts_distinct(s.remove(i)),
        forall|k: int| 0 <= k < s.len() - 1 ==> (#[trigger] s.remove(i)[k]).0 != s[i].0,
{
    let t = s.remove(i);
    assert forall|a: int, b: int| 0 <= a < b < t.len() implies (#[trigger] t[a]).0 != (#[trigger] t[b]).0 by {
        let x = if a < i { a } else { a + 1 };
        let y = if b < i { b } else { b + 1 };
        assert(t[a] == s[x] && t[b] == s[y]);
    }
    assert forall|k: int| 0 <= k < s.len() - 1 implies (#[trigger] t[k]).0 != s[i].0 by {
        let x = if k < i { k } else { k + 1 };
        assert(t[k] == s[x]);
        if x < i {
            assert(s[x].0 != s[i].0);
        } else {
            assert(s[i].0 != s[x].0);
        }
    }
}

proof fn lemma_front_distinct(s: Seq<(Seq<char>, (u64, i64))>, e: (Seq<char>, (u64, i64)))
    requires
        hosts_distinct(s),
        forall|k: int| 0 <= k < s.len() ==> (#[trigger] s[k]).0 != e.0,
    ensures
        hosts_distinct(seq![e] + s),
{
    let t = seq![e] + s;
    assert forall|a: int, b: int| 0 <= a < b < t.len() implies (#[trigger] t[a]).0 != (#[trigger] t[b]).0 by {
        assert(t[b] == s[b - 1]);
        if a > 0 {
            assert(t[a] == s[a - 1]);
        }
    }
}

/// The cache of leaves.
pub struct LeafCache {
    pub leaves: lru::LruCache<String, (u64, i64)>,
}

/// What a host name needs.
#[derive(Debug)]
pub enum Resolved {
    /// This leaf is at hand.
    Cached(u64),
    /// A leaf has to be issued for this host name.
    Mint(String),
}

impl LeafCache {
    pub open spec fn wf(self) -> bool {
        &&& hosts_distinct(leaf_order(self.leaves))
        &&& leaf_order(self.leaves).len() <= leaf_capacity(self.leaves)
        &&& leaf_capacity(self.leaves) > 0
    }

    /// The leaves, the most recently used first.
    pub open spec fn view(self) -> Seq<(Seq<char>, (u64, i64))> {
        leaf_order(self.leaves)
    }

    pub fn new() -> (r: LeafCache)
        ensures
            r.wf(),
            r@.len() == 0,
            leaf_capacity(r.leaves) == CACHE_CAPACITY,
    {
        LeafCache { leaves: lru_new(CACHE_CAPACITY) }
    }

    /// The leaf for a host name, which becomes the most recently used one. A
    /// leaf that is close to its end is dropped instead.
    pub fn get_cached(&mut self, host: &str, now: i64) -> (r: Option<u64>)
        requires
            old(self).wf(),
            crate::utc::MIN_SECONDS <= now <= crate::utc::MAX_SECONDS,
        ensures
            final(self).wf(),
            leaf_capacity(final(self).leaves) == leaf_capacity(old(self).leaves),
            match place(old(self)@, host@) {
                None => r is None && final(self)@ == old(self)@,
                Some(i) => if expiring(old(self)@[i].1.1, now) {
                    r is None && final(self)@ == old(self)@.remove(i)
                } else {
                    r == Some(old(self)@[i].1.0) && final(self)@ == seq![old(self)@[i]] + old(self)@.remove(i)
                },
            },
    {
        let ghost s = self@;
        proof {
            lemma_place(s, host@);
        }
        let found = lru_get(&mut self.leaves, host);
        proof {
            if place(s, host@) is Some {
                let i = place(s, host@)->0;
                lemma_removed_distinct(s, i);
                lemma_front_distinct(s.remove(i), s[i]);
            }
        }
        match found {
            None => None,
            Some((leaf, expires_at)) => {
                if is_expiring(expires_at, now) {
                    let ghost t = self@;
                    lru_pop(&mut self.leaves, host);
                    proof {
                        let i = place(s, host@)->0;
                        lemma_place(t, host@);
                        let k = place(t, host@)->0;
                        assert(t[0].0 == host@);
                        if k > 0 {
                            assert(t[0].0 != t[k].0);
                        }
                        assert(t.remove(0) =~= s.remove(i));
                    }
                    None
                } else {
                    Some(leaf)
                }
            },
        }
    }

    /// What a host name needs: the leaf at hand, or a new one for the
    /// sanitized name.
    pub fn resolve(&mut self, hostname: &str, now: i64) -> (r: Result<Resolved, HostnameError>)
        requires
            old(self).wf(),
            crate::utc::MIN_SECONDS <= now <= crate::utc::MAX_SECONDS,
        ensures
            final(self).wf(),
            leaf_capacity(final(self).leaves) == leaf_capacity(old(self).leaves),
            match sanitized(hostname@) {
                Err(e) => r matches Err(f) && f == e && final(self)@ == old(self)@,
                Ok(host) => match place(old(self)@, host) {
                    None => r matches Ok(Resolved::Mint(h)) && h@ == host && final(self)@ == old(self)@,
                    Some(i) => if expiring(old(self)@[i].1.1, now) {
                        r matches Ok(Resolved::Mint(h)) && h@ == host && final(self)@ == old(self)@.remove(i)
                    } else {
                        r matches Ok(Resolved::Cached(leaf)) && leaf == old(self)@[i].1.0 && final(self)@ == seq![
                            old(self)@[i],
                        ] + old(self)@.remove(i)
                    },
                },
            },
    {
        let host = match sanitize_hostname(hostname) {
            Ok(host) => host,
            Err(e) => return Err(e),
        };
        match self.get_cached(host.as_str(), now) {
            Some(leaf) => Ok(Resolved::Cached(leaf)),
            None => Ok(Resolved::Mint(host)),
        }
    }

    /// Keeps a leaf that was issued for a host name.
    pub fn remember(&mut self, host: String, leaf: u64, expires_at: i64)
        requires
            old(self).wf(),
        ensures
            final(self).wf(),
            leaf_capacity(final(self).leaves) == leaf_capacity(old(self).leaves),
            final(self)@ == put_first(old(self)@, leaf_capacity(old(self).leaves), host@, (leaf, expires_at)),
    {
        let ghost s = self@;
        proof {
            lemma_place(s, host@);
            let e = (host@, (leaf, expires_at));
            match place(s, host@) {
                Some(i) => {
                    lemma_removed_distinct(s, i);
                    lemma_front_distinct(s.remove(i), e);
                },
                None => {
                    if s.len() > 0 {
                        assert forall|a: int, b: int| 0 <= a < b < s.len() - 1 implies (#[trigger] s.drop_last()[a]).0 != (
                        #[trigger] s.drop_last()[b]).0 by {
                            assert(s[a].0 != s[b].0);
                        }
                        lemma_front_distinct(s.drop_last(), e);
                    }
                    lemma_front_distinct(s, e);
                },
            }
        }
        lru_put(&mut self.leaves, host, (leaf, expires_at));
    }

    /// Drops every leaf that is close to its end.
    pub fn evict_expiring(&mut self, now: i64)
        requires
            old(self).wf(),
            crate::utc::MIN_SECONDS <= now <= crate::utc::MAX_SECONDS,
        ensures
            final(self).wf(),
            leaf_capacity(final(self).leaves) == leaf_capacity(old(self).leaves),
            final(self)@ == lasting(old(self)@, now),
    {
        let all = lru_rows(&self.leaves);
        let ghost s = self@;
        let mut n: usize = all.len();
        assert(s.skip(n as int) =~= seq![]);
        assert(lasting(s.skip(n as int), now) =~= seq![]);
        assert(s.take(n as int) =~= s);
        assert(self@ =~= s.take(n as int) + lasting(s.skip(n as int), now));
        while n > 0
            invariant
                n <= all@.len(),
                rows(all@) == s,
                s == old(self)@,
                hosts_distinct(s),
                self.wf(),
                leaf_capacity(self.leaves) == leaf_capacity(old(self).leaves),
                crate::utc::MIN_SECONDS <= now <= crate::utc::MAX_SECONDS,
                self@ == s.take(n as int) + lasting(s.skip(n as int), now),
            decreases n,
        {
            let i: usize = n - 1;
            let ghost before = self@;
            let ghost tail = lasting(s.skip(n as int), now);
            proof {
                assert(rows(all@)[i as int] == (all@[i as int].0@, all@[i as int].1));
                lemma_lasting_front(s.skip(i as int), now);
                assert(s.skip(i as int).drop_first() =~= s.skip(n as int));
                lemma_place(before, s[i as int].0);
            }
            if is_expiring(all[i].1.1, now) {
                lru_pop(&mut self.leaves, all[i].0.as_str());
                proof {
                    assert(before[i as int] == s[i as int]);
                    let k = place(before, s[i as int].0)->0;
                    if k < i {
                        assert(before[k].0 != before[i as int].0);
                    } else if k > i {
                        assert(before[i as int].0 != before[k].0);
                    }
                    lemma_removed_distinct(before, i as int);
                    assert(self@ =~= s.take(i as int) + tail);
                }
            } else {
                assert(self@ =~= s.take(i as int) + (seq![s[i as int]] + tail));
            }
            n = i;
        }
        assert(s.skip(0) =~= s);
        assert(self@ =~= lasting(s, now));
    }
}

proof fn lemma_lasting_front(s: Seq<(Seq<char>, (u64, i64))>, now: i64)
    requires
        s.len() > 0,
    ensures
        lasting(s, now) == if expiring(s[0].1.1, now) {
            lasting(s.drop_first(), now)
        } else {
            seq![s[0]] + lasting(s.drop_first(), now)
        },
    decreases s.len(),
{
    if s.len() == 1 {
        reveal_with_fuel(lasting, 2);
        assert(s.drop_last() =~= seq![]);
        assert(s.drop_first() =~= seq![]);
        assert(lasting(s, now) =~= if expiring(s[0].1.1, now) {
            seq![]
        } else {
            seq![s[0]]
        });
    } else {
        lemma_lasting_front(s.drop_last(), now);
        assert(s.drop_first().drop_last() =~= s.drop_last().drop_first());
        assert(lasting(s, now) =~= if expiring(s[0].1.1, now) {
            lasting(s.drop_first(), now)
        } else {
            seq![s[0]] + lasting(s.drop_first(), now)
        });
    }
}

/// After an eviction no leaf is left that is close to its end, so that every
/// leaf that is served lasts for longer than three days.
pub proof fn no_leaf_is_left_expiring(s: Seq<(Seq<char>, (u64, i64))>, now: i64, i: int)
    requires
        0 <= i < lasting(s, now).len(),
    ensures
        !expiring(lasting(s, now)[i].1.1, now),
    decreases s.len(),
{
    if s.len() > 0 {
        let t = s.drop_last();
        if i < lasting(t, now).len() {
            no_leaf_is_left_expiring(t, now, i);
        }
    }
}

/// The parts of a path that name something.
pub open spec fn named_parts(parts: Seq<Seq<char>>) -> Seq<Seq<char>>
    decreases parts.len(),
{
    if parts.len() == 0 {
        seq![]
    } else if parts.last().len() == 0 || parts.last() == "."@ || parts.last() == ".."@ {
        named_parts(parts.drop_last())
    } else {
        named_parts(parts.drop_last()).push(parts.last())
    }
}

/// A path below the directory that it is taken from: without a root, and
/// without steps up.
pub open spec fn relative(path: Seq<char>) -> Seq<char> {
    text::joined(named_parts(text::pieces(path, '/')), "/"@)
}

pub fn force_relative(path: &str) -> (r: String)
    ensures
        r@ == relative(path@),
{
    let s = text::chars_of(path);
    let parts = text::split(s.as_slice(), '/');
    let ghost all = text::pieces(path@, '/');
    let mut out: Vec<String> = Vec::new();
    assert(text::views(out@) =~= seq![]);
    let mut i: usize = 0;
    while i < parts.len()
        invariant
            i <= parts@.len(),
            all == text::pieces(path@, '/'),
            parts@.len() == all.len(),
            forall|k: int| 0 <= k < parts@.len() ==> (#[trigger] parts@[k])@ == all[k],
            text::views(out@) == named_parts(all.take(i as int)),
        decreases parts@.len() - i,
    {
        assert(all.take(i + 1).drop_last() =~= all.take(i as int));
        let p = parts[i];
        if !(p.len() == 0 || text::is(p, ".") || text::is(p, "..")) {
            let ghost o0 = text::views(out@);
            out.push(text::string_of(p));
            assert(text::views(out@) =~= o0.push(p@));
        }
        i = i + 1;
    }
    assert(all.take(i as int) =~= all);
    text::join(&out, "/")
}

proof fn lemma_single_name(s: Seq<Seq<char>>, host: Seq<char>)
    requires
        s == seq![host],
        text::trimmed(host) == host,
        host.len() > 0,
        certificate::is_ascii(host),
    ensures
        certificate::issued_names(s) == Some(seq![certificate::san_of(host)]),
{
    let name = certificate::san_of(host);
    assert(s.drop_last() =~= seq![]);
    reveal_with_fuel(certificate::sans_of, 2);
    assert(certificate::sans_of(s) == Some(Seq::<SanModel>::empty().push(name)));
    assert(Seq::<SanModel>::empty().push(name) =~= seq![name]);
}

proof fn lemma_sanitized_is_plain(hostname: Seq<char>)
    ensures
        sanitized(hostname) matches Ok(host) ==> text::trimmed(host) == host && host.len() > 0 && certificate::is_ascii(host),
{
    if let Ok(host) = sanitized(hostname) {
        assert(forall|i: int| 0 <= i < host.len() ==> host_char(#[trigger] host[i]));
        assert(host_char(host[0]));
        assert(host_char(host.last()));
        assert(text::trimmed_start(host) == host);
        assert(text::trimmed_end(host) == host);
        assert forall|i: int| 0 <= i < host.len() implies ((#[trigger] host[i]) as u32) < 128 by {
            assert(host_char(host[i]));
        }
    }
}

/// The local authority with the leaves that it keeps at hand. A leaf is known
/// by a number.
pub struct LocalCa {
    pub cert_pem: String,
    pub key_pem: String,
    /// The authority's certificates, which every served chain ends with.
    pub chain: Vec<Vec<u8>>,
    pub cache: LeafCache,
    pub next_leaf: u64,
}

/// A leaf for a host name.
#[derive(Debug)]
pub enum Leaf {
    /// The leaf with this number is at hand.
    Cached(u64),
    /// This leaf was issued, and is at hand from now on.
    Minted(u64, MintedIdentity),
}

/// Why there is no leaf for a host name.
#[derive(Debug, Clone, Copy, PartialEq, Eq, Structural)]
pub enum LeafError {
    Hostname(HostnameError),
    Mint(MintError),
}

/// The common name of every leaf.
pub const LEAF_NAME: &'static str = "TLS Proxy Local Leaf";

/// The leaves once a host name was looked up and its leaf was close to its
/// end, or there was none.
pub open spec fn after_miss(s: Seq<(Seq<char>, (u64, i64))>, host: Seq<char>) -> Seq<(Seq<char>, (u64, i64))> {
    match place(s, host) {
        Some(i) => s.remove(i),
        None => s,
    }
}

/// Whether a fresh leaf is at hand.
pub open spec fn at_hand(s: Seq<(Seq<char>, (u64, i64))>, host: Seq<char>, now: i64) -> bool {
    match place(s, host) {
        Some(i) => !expiring(s[i].1.1, now),
        None => false,
    }
}

/// The number of the leaf minted after leaf `n`.
pub open spec fn after_leaf(n: u64) -> u64 {
    if n == u64::MAX {
        0
    } else {
        (n + 1) as u64
    }
}

impl LocalCa {
    pub open spec fn wf(self) -> bool {
        self.cache.wf()
    }

    /// An authority that was loaded or created, with nothing at hand.
    pub fn new(cert_pem: String, key_pem: String) -> (r: Result<LocalCa, ReadError>)
        ensures
            match x509::certificates_of(vstd::utf8::encode_utf8(cert_pem@)) {
                None => r matches Err(e) && e == ReadError::Invalid,
                Some(all) => if all.len() == 0 {
                    r matches Err(e) && e == ReadError::Missing
                } else {
                    r matches Ok(ca) && ca.wf() && ca.cache@.len() == 0 && x509::ders(ca.chain@) == all && ca.cert_pem == cert_pem
                        && ca.key_pem == key_pem
                },
            },
    {
        match certificate::read_certificates(cert_pem.as_str().as_bytes()) {
            Ok(chain) => Ok(LocalCa { cert_pem, key_pem, chain, cache: LeafCache::new(), next_leaf: 0 }),
            Err(e) => Err(e),
        }
    }

    /// Takes in what became of a leaf for a host name: one that was minted gets
    /// the next number and is at hand from now on.
    pub fn take_minted(&mut self, host: String, minted: Result<MintedIdentity, MintError>) -> (r: Result<Leaf, LeafError>)
        requires
            old(self).wf(),
        ensures
            final(self).wf(),
            final(self).cert_pem == old(self).cert_pem,
            final(self).key_pem == old(self).key_pem,
            final(self).chain == old(self).chain,
            leaf_capacity(final(self).cache.leaves) == leaf_capacity(old(self).cache.leaves),
            match minted {
                Err(e) => r == Err::<Leaf, LeafError>(LeafError::Mint(e)) && final(self).cache@ == old(self).cache@
                    && final(self).next_leaf == old(self).next_leaf,
                Ok(m) => {
                    &&& r == Ok::<Leaf, LeafError>(Leaf::Minted(old(self).next_leaf, m))
                    &&& final(self).next_leaf == after_leaf(old(self).next_leaf)
                    &&& final(self).cache@ == put_first(
                        old(self).cache@,
                        leaf_capacity(old(self).cache.leaves),
                        host@,
                        (old(self).next_leaf, m.expires_at),
                    )
                },
            },
    {
        match minted {
            Err(e) => Err(LeafError::Mint(e)),
            Ok(m) => {
                let leaf: u64 = self.next_leaf;
                self.next_leaf = if leaf == u64::MAX {
                    0
                } else {
                    leaf + 1
                };
                self.cache.remember(host, leaf, m.expires_at);
                Ok(Leaf::Minted(leaf, m))
            },
        }
    }

    /// The leaf for a host name: the one at hand, or else a new one.
    pub fn resolve_or_mint(&mut self, hostname: &str, now: i64) -> (r: Result<Leaf, LeafError>)
        requires
            old(self).wf(),
            3600 <= now <= utc::MAX_SECONDS - LEAF_VALIDITY_DAYS * 86400,
        ensures
            final(self).wf(),
            final(self).cert_pem == old(self).cert_pem,
            final(self).key_pem == old(self).key_pem,
            final(self).chain == old(self).chain,
            final(self).next_leaf == (if r matches Ok(Leaf::Minted(_, _)) {
                after_leaf(old(self).next_leaf)
            } else {
                old(self).next_leaf
            }),
            match sanitized(hostname@) {
                Err(e) => r matches Err(f) && f == LeafError::Hostname(e) && final(self).cache@ == old(self).cache@,
                Ok(host) => if at_hand(old(self).cache@, host, now) {
                    r matches Ok(Leaf::Cached(leaf)) && leaf == old(self).cache@[place(old(self).cache@, host)->0].1.0
                        && final(self).cache@ == seq![old(self).cache@[place(old(self).cache@, host)->0]] + after_miss(
                        old(self).cache@,
                        host,
                    )
                } else {
                    match r {
                        Ok(Leaf::Minted(n, m)) => {
                            &&& n == old(self).next_leaf
                            &&& certificate::minted_for(
                                m,
                                seq![certificate::san_of(host)],
                                LEAF_NAME@,
                                LEAF_VALIDITY_DAYS,
                                now,
                                x509::ders(old(self).chain@),
                            )
                            &&& certificate::signed_under(m, old(self).cert_pem@, old(self).key_pem@)
                            &&& final(self).cache@ == put_first(
                                after_miss(old(self).cache@, host),
                                leaf_capacity(old(self).cache.leaves),
                                host,
                                (n, m.expires_at),
                            )
                        },
                        Err(LeafError::Mint(_)) => final(self).cache@ == after_miss(old(self).cache@, host),
                        _ => false,
                    }
                },
            },
    {
        let host = match self.cache.resolve(hostname, now) {
            Err(e) => return Err(LeafError::Hostname(e)),
            Ok(Resolved::Cached(leaf)) => return Ok(Leaf::Cached(leaf)),
            Ok(Resolved::Mint(host)) => host,
        };
        let mut san: Vec<String> = Vec::new();
        san.push(host.clone());
        proof {
            assert(text::views(san@) =~= seq![host@]);
            lemma_sanitized_is_plain(hostname@);
            lemma_single_name(text::views(san@), host@);
        }
        let minted = certificate::mint_leaf(
            self.cert_pem.as_str(),
            self.key_pem.as_str(),
            &self.chain,
            &san,
            LEAF_NAME,
            LEAF_VALIDITY_DAYS,
            now,
        );
        self.take_minted(host, minted)
    }

    /// The leaf at hand for a host name, without issuing one.
    pub fn resolve_cached(&mut self, hostname: &str, now: i64) -> (r: Option<u64>)
        requires
            old(self).wf(),
            utc::MIN_SECONDS <= now <= utc::MAX_SECONDS,
        ensures
            final(self).wf(),
            final(self).cert_pem == old(self).cert_pem,
            final(self).key_pem == old(self).key_pem,
            final(self).chain == old(self).chain,
            final(self).next_leaf == old(self).next_leaf,
            match sanitized(hostname@) {
                Err(_) => r is None && final(self).cache@ == old(self).cache@,
                Ok(host) => if at_hand(old(self).cache@, host, now) {
                    r == Some(old(self).cache@[place(old(self).cache@, host)->0].1.0) && final(self).cache@ == seq![
                        old(self).cache@[place(old(self).cache@, host)->0],
                    ] + after_miss(old(self).cache@, host)
                } else {
                    r is None && final(self).cache@ == after_miss(old(self).cache@, host)
                },
            },
    {
        match self.cache.resolve(hostname, now) {
            Ok(Resolved::Cached(leaf)) => Some(leaf),
            _ => None,
        }
    }
}

/// A name of letters, digits, hyphens and dots gets a certificate, in lower
/// case, whatever white space and dots at its end it came with.
pub proof fn a_plain_name_gets_a_certificate(a: Seq<char>, name: Seq<char>, dots: Seq<char>, b: Seq<char>)
    requires
        forall|i: int| 0 <= i < a.len() ==> text::is_ws(#[trigger] a[i]),
        forall|i: int| 0 <= i < b.len() ==> text::is_ws(#[trigger] b[i]),
        forall|i: int| 0 <= i < dots.len() ==> #[trigger] dots[i] == '.',
        name.len() > 0,
        name.last() != '.',
        forall|i: int|
            0 <= i < name.len() ==> ('a' <= (#[trigger] name[i]) <= 'z') || ('A' <= name[i] <= 'Z') || ('0' <= name[i]
                <= '9') || name[i] == '-' || name[i] == '.',
        vstd::utf8::encode_utf8(text::lower(name)).len() <= 253,
    ensures
        sanitized(a + (name + dots) + b) == Ok::<Seq<char>, HostnameError>(text::lower(name)),
{
    let s = name + dots;
    if dots.len() > 0 {
        assert(dots[dots.len() - 1] == '.');
    }
    assert(s[0] == name[0]);
    assert(s.last() == if dots.len() > 0 {
        '.'
    } else {
        name.last()
    });
    assert(!text::is_ws(name[0]) && !text::is_ws(name[name.len() - 1]));
    text::trimming_takes_off_white_space_alone(a, s, b);
    lemma_trailing_dots(name, dots);
    let h = text::lower(name);
    assert forall|i: int| 0 <= i < h.len() implies host_char(#[trigger] h[i]) by {
        assert(h[i] == text::lower_char(name[i]));
    }
}

proof fn lemma_trailing_dots(name: Seq<char>, dots: Seq<char>)
    requires
        name.len() > 0,
        name.last() != '.',
        forall|i: int| 0 <= i < dots.len() ==> #[trigger] dots[i] == '.',
    ensures
        text::trimmed_end_of(name + dots, '.') == name,
    decreases dots.len(),
{
    if dots.len() > 0 {
        assert(dots[dots.len() - 1] == '.');
        assert((name + dots).drop_last() =~= name + dots.drop_last());
        assert forall|i: int| 0 <= i < dots.drop_last().len() implies #[trigger] dots.drop_last()[i] == '.' by {
            assert(dots.drop_last()[i] == dots[i]);
        }
        lemma_trailing_dots(name, dots.drop_last());
    } else {
        assert(name + dots =~= name);
    }
}

/// A leaf that was put into the cache is at hand while it lasts for more than
/// three days, and no longer; it is the most recent one.
pub proof fn a_cached_leaf_is_at_hand(
    s: Seq<(Seq<char>, (u64, i64))>,
    capacity: nat,
    host: Seq<char>,
    leaf: (u64, i64),
    now: i64,
)
    requires
        hosts_distinct(s),
        s.len() <= capacity,
        capacity > 0,
    ensures
        put_first(s, capacity, host, leaf)[0] == (host, leaf),
        at_hand(put_first(s, capacity, host, leaf), host, now) <==> leaf.1 - now > 3 * 24 * 3600,
        put_first(s, capacity, host, leaf).len() <= capacity,
{
    let t = put_first(s, capacity, host, leaf);
    lemma_place(s, host);
    lemma_place(t, host);
    let i = place(t, host);
    if i is None {
        assert(t[0].0 == host);
    } else {
        let k = i->0;
        if k > 0 {
            match place(s, host) {
                Some(j) => {
                    assert(t[k] == s.remove(j)[k - 1]);
                    if k - 1 < j {
                        assert(s[k - 1].0 == host && s[j].0 == host);
                    } else {
                        assert(s[k].0 == host && s[j].0 == host);
                    }
                },
                None => {
                    assert(t[k] == s[k - 1]);
                },
            }
        }
    }
}

/// A full cache gives up the leaf that was used longest ago, and only that one;
/// one that is not full gives up none.
pub proof fn a_full_cache_gives_up_the_oldest_leaf(
    s: Seq<(Seq<char>, (u64, i64))>,
    capacity: nat,
    host: Seq<char>,
    leaf: (u64, i64),
    i: int,
)
    requires
        0 <= i < s.len() <= capacity,
        s[i].0 != host,
    ensures
        s.len() < capacity || i < s.len() - 1 ==> put_first(s, capacity, host, leaf).contains(s[i]),
{
    let t = put_first(s, capacity, host, leaf);
    lemma_place(s, host);
    match place(s, host) {
        Some(j) => {
            if i < j {
                assert(t[i + 1] == s[i]);
            } else {
                assert(t[i] == s[i]);
            }
        },
        None => {
            if s.len() < capacity || i < s.len() - 1 {
                assert(t[i + 1] == s[i]);
            }
        },
    }
}

/// Looking a leaf up puts it in front and loses none.
pub proof fn a_leaf_that_is_used_stays_longest(s: Seq<(Seq<char>, (u64, i64))>, host: Seq<char>, i: int)
    requires
        hosts_distinct(s),
        0 <= i < s.len(),
    ensures
        looked_up(s, host).len() == s.len(),
        looked_up(s, host).contains(s[i]),
        s[i].0 == host ==> looked_up(s, host)[0] == s[i],
{
    lemma_place(s, host);
    match place(s, host) {
        Some(j) => {
            let t = looked_up(s, host);
            if i < j {
                assert(t[i + 1] == s[i]);
            } else if i > j {
                assert(t[i] == s[i]);
            } else {
                assert(t[0] == s[i]);
            }
        },
        None => {
            assert(looked_up(s, host)[i] == s[i]);
        },
    }
}

/// An eviction keeps every leaf that lasts for more than three days.
pub proof fn a_leaf_that_lasts_is_kept(s: Seq<(Seq<char>, (u64, i64))>, now: i64, i: int)
    requires
        0 <= i < s.len(),
        s[i].1.1 - now > 3 * 24 * 3600,
    ensures
        lasting(s, now).contains(s[i]),
    decreases s.len(),
{
    let t = s.drop_last();
    let a = lasting(t, now);
    let b = lasting(s, now);
    if i < t.len() {
        assert(t[i] == s[i]);
        a_leaf_that_lasts_is_kept(t, now, i);
        let k = choose|k: int| 0 <= k < a.len() && a[k] == s[i];
        assert(b[k] == a[k]);
    } else {
        assert(b[b.len() - 1] == s[i]);
    }
}

/// Every character of a name that a file name can hold stays, and every other
/// one becomes an underscore.
pub proof fn a_file_name_keeps_plain_characters(s: Seq<char>, i: int)
    requires
        0 <= i < s.len(),
    ensures
        file_name(s).len() == s.len(),
        ('a' <= s[i] <= 'z') || ('A' <= s[i] <= 'Z') || ('0' <= s[i] <= '9') || s[i] == '.' || s[i] == '-' || s[i] == '_'
            ==> file_name(s)[i] == s[i],
        s[i] == '/' || s[i] == ':' || s[i] == '*' || s[i] == '\\' || s[i] == ' ' ==> file_name(s)[i] == '_',
{
}

/// A path below a directory keeps the parts that name something, in order.
pub proof fn a_relative_path_keeps_its_names(parts: Seq<Seq<char>>, i: int)
    ensures
        0 <= i < parts.len() && parts[i].len() > 0 && parts[i] != "."@ && parts[i] != ".."@ ==> named_parts(
            parts,
        ).contains(parts[i]),
        0 <= i < named_parts(parts).len() ==> parts.contains(named_parts(parts)[i]) && named_parts(parts)[i].len() > 0
            && named_parts(parts)[i] != "."@ && named_parts(parts)[i] != ".."@,
    decreases parts.len(),
{
    if parts.len() > 0 {
        let t = parts.drop_last();
        let a = named_parts(t);
        let b = named_parts(parts);
        a_relative_path_keeps_its_names(t, i);
        if 0 <= i < t.len() && parts[i].len() > 0 && parts[i] != "."@ && parts[i] != ".."@ {
            assert(t[i] == parts[i]);
            let k = choose|k: int| 0 <= k < a.len() && a[k] == parts[i];
            assert(b[k] == a[k]);
        }
        if i == t.len() && parts[i].len() > 0 && parts[i] != "."@ && parts[i] != ".."@ {
            assert(b[b.len() - 1] == parts[i]);
        }
        if 0 <= i < b.len() {
            if i < a.len() {
                let k = choose|k: int| 0 <= k < t.len() && t[k] == a[i];
                assert(parts[k] == b[i]);
            } else {
                assert(parts[parts.len() - 1] == b[i]);
            }
        }
    }
}

/// A name gets a certificate exactly if something is left of it without white
/// space and dots around it, no more than 253 bytes, and every character of it
/// is a letter, a digit, a hyphen or a dot.
pub proof fn only_plain_names_get_certificates(s: Seq<char>)
    ensures
        ({
            let h = text::lower(text::trimmed_end_of(text::trimmed(s), '.'));
            &&& sanitized(s) == Ok::<Seq<char>, HostnameError>(h) <==> h.len() > 0 && vstd::utf8::encode_utf8(h).len()
                <= 253 && forall|i: int|
                0 <= i < h.len() ==> text::is_digit(#[trigger] h[i]) || text::is_lower(h[i]) || text::is_upper(h[i])
                    || h[i] == '-' || h[i] == '.'
            &&& sanitized(s) is Ok ==> sanitized(s) == Ok::<Seq<char>, HostnameError>(h)
        }),
{
    let h = plain_host(s);
    if forall|i: int|
        0 <= i < h.len() ==> text::is_digit(#[trigger] h[i]) || text::is_lower(h[i]) || text::is_upper(h[i]) || h[i]
            == '-' || h[i] == '.' {
        assert forall|i: int| 0 <= i < h.len() implies host_char(#[trigger] h[i]) by {}
    }
    if sanitized(s) is Ok {
        assert forall|i: int| 0 <= i < h.len() implies text::is_digit(#[trigger] h[i]) || text::is_lower(h[i])
            || text::is_upper(h[i]) || h[i] == '-' || h[i] == '.' by {
            assert(host_char(h[i]));
        }
    }
}

/// A leaf that was minted is used again for the same host, as long as it lasts
/// for more than three days.
pub proof fn a_minted_leaf_is_used_again(
    a: &mut LocalCa,
    b: &mut LocalCa,
    hostname: &str,
    again: &str,
    now: i64,
    later: i64,
    r: Result<Leaf, LeafError>,
    s: Result<Leaf, LeafError>,
)
    requires
        old(a).wf(),
        call_ensures(LocalCa::resolve_or_mint, (a, hostname, now), r),
        r matches Ok(Leaf::Minted(_, _)),
        *old(b) == *final(a),
        sanitized(again@) == sanitized(hostname@),
        call_ensures(LocalCa::resolve_or_mint, (b, again, later), s),
    ensures
        r matches Ok(Leaf::Minted(n, m)) && (m.expires_at - later > 3 * 24 * 3600 ==> s == Ok::<Leaf, LeafError>(
            Leaf::Cached(n),
        )),
        r matches Ok(Leaf::Minted(n, m)) && (m.expires_at - later <= 3 * 24 * 3600 ==> !(s matches Ok(
            Leaf::Cached(_),
        ))),
{
    let host = sanitized(hostname@)->Ok_0;
    let before = after_miss(old(a).cache@, host);
    let capacity = leaf_capacity(old(a).cache.leaves);
    match r {
        Ok(Leaf::Minted(n, m)) => {
            lemma_place(old(a).cache@, host);
            assert(hosts_distinct(before)) by {
                match place(old(a).cache@, host) {
                    Some(i) => {
                        assert forall|x: int, y: int| 0 <= x < y < before.len() implies (#[trigger] before[x]).0 != (
                        #[trigger] before[y]).0 by {
                            let p = if x < i {
                                x
                            } else {
                                x + 1
                            };
                            let q = if y < i {
                                y
                            } else {
                                y + 1
                            };
                            assert(before[x] == old(a).cache@[p] && before[y] == old(a).cache@[q]);
                        }
                    },
                    None => {},
                }
            }
            a_cached_leaf_is_at_hand(before, capacity, host, (n, m.expires_at), later);
            let after = put_first(before, capacity, host, (n, m.expires_at));
            assert(after == old(b).cache@);
            lemma_place(after, host);
            if place(after, host) is Some {
                let k = place(after, host)->0;
                if k > 0 {
                    assert(after[0].0 == host && after[k].0 == host);
                    assert(hosts_distinct(old(b).cache@));
                }
            }
        },
        _ => {},
    }
}

} // verus!
