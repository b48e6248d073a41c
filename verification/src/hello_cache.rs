//! Tracks identifiers this proxy has recently sent upstream: the ClientHello
//! randoms of forwarded/originated TLS connections, and the request tokens
//! injected into proxied plaintext HTTP requests. An inbound connection
//! carrying one of these identifiers is our own forwarded bytes arriving back
//! at a listener, a self-connection loop, and must be closed.
//!
//! Entries only need to outlive the time a forwarded identifier could take to
//! loop back, which is far shorter than the proxied connection itself. Expired
//! entries are evicted lazily on insert; no background task is needed.
//!
//! The deque tracks insertion order. With a constant lifetime, insertion order
//! equals expiry order, so eviction only ever pops from the front. Entries
//! consumed by a hit leave a stale deque node behind that is skipped when it
//! reaches the front.
use vstd::prelude::*;
use std::collections::VecDeque;
use crate::bytes;
use crate::table::Table;

verus! {

/// Ten seconds, on a clock that counts milliseconds.
pub const DEFAULT_TTL: u64 = 10000;

pub struct Cache {
    pub by_key: Table<Vec<u8>, u64>,
    pub by_insertion: VecDeque<(Vec<u8>, u64)>,
}

/// The keys and expiries of a row of nodes.
pub open spec fn nodes(q: Seq<(Vec<u8>, u64)>) -> Seq<(Seq<u8>, u64)> {
    Seq::new(q.len(), |i: int| (q[i].0@, q[i].1))
}

/// `m` without the entry of a node, unless the entry is a later one.
pub open spec fn released(m: Map<Seq<u8>, u64>, node: (Seq<u8>, u64)) -> Map<Seq<u8>, u64> {
    if m.dom().contains(node.0) && m[node.0] == node.1 {
        m.remove(node.0)
    } else {
        m
    }
}

/// What is left of the entries once the expired nodes in front are gone.
pub open spec fn unexpired(m: Map<Seq<u8>, u64>, q: Seq<(Seq<u8>, u64)>, now: u64) -> Map<Seq<u8>, u64>
    decreases q.len(),
{
    if q.len() > 0 && q[0].1 <= now {
        unexpired(released(m, q[0]), q.drop_first(), now)
    } else {
        m
    }
}

/// The nodes behind the expired ones in front.
pub open spec fn pending(q: Seq<(Seq<u8>, u64)>, now: u64) -> Seq<(Seq<u8>, u64)>
    decreases q.len(),
{
    if q.len() > 0 && q[0].1 <= now {
        pending(q.drop_first(), now)
    } else {
        q
    }
}

/// Every entry has the node that it was inserted with.
pub open spec fn noted(m: Map<Seq<u8>, u64>, q: Seq<(Seq<u8>, u64)>) -> bool {
    forall|k: Seq<u8>| #[trigger] m.dom().contains(k) ==> q.contains((k, m[k]))
}

proof fn lemma_unexpired(m: Map<Seq<u8>, u64>, q: Seq<(Seq<u8>, u64)>, now: u64)
    ensures
        forall|k: Seq<u8>| #[trigger]
            unexpired(m, q, now).dom().contains(k) ==> m.dom().contains(k) && unexpired(m, q, now)[k] == m[k],
        forall|k: Seq<u8>| #[trigger] m.dom().contains(k) && m[k] > now ==> unexpired(m, q, now).dom().contains(k),
        noted(m, q) ==> noted(unexpired(m, q, now), pending(q, now)),
    decreases q.len(),
{
    if q.len() > 0 && q[0].1 <= now {
        let m1 = released(m, q[0]);
        let q1 = q.drop_first();
        if noted(m, q) {
            assert forall|k: Seq<u8>| #[trigger] m1.dom().contains(k) implies q1.contains((k, m1[k])) by {
                let i = choose|i: int| 0 <= i < q.len() && q[i] == (k, m[k]);
                assert(i != 0);
                assert(q1[i - 1] == (k, m1[k]));
            }
        }
        lemma_unexpired(m1, q1, now);
        assert forall|k: Seq<u8>| #[trigger] unexpired(m, q, now).dom().contains(k) implies m.dom().contains(k)
            && unexpired(m, q, now)[k] == m[k] by {
            assert(m1.dom().contains(k));
        }
        assert forall|k: Seq<u8>| #[trigger] m.dom().contains(k) && m[k] > now implies unexpired(
            m,
            q,
            now,
        ).dom().contains(k) by {
            assert(m1.dom().contains(k));
        }
    }
}

/// Eviction drops no entry that has not expired, not even one whose key was
/// inserted before with an older expiry.
pub proof fn fresh_entries_survive_eviction(m: Map<Seq<u8>, u64>, q: Seq<(Seq<u8>, u64)>, now: u64, key: Seq<u8>)
    requires
        m.dom().contains(key),
        m[key] > now,
    ensures
        unexpired(m, q, now).dom().contains(key),
        unexpired(m, q, now)[key] == m[key],
{
    lemma_unexpired(m, q, now);
}

/// Where insertion order is expiry order, eviction drops every expired entry.
pub proof fn expired_entries_are_evicted(m: Map<Seq<u8>, u64>, q: Seq<(Seq<u8>, u64)>, now: u64, key: Seq<u8>)
    requires
        noted(m, q),
        forall|i: int, j: int| 0 <= i < j < q.len() ==> (#[trigger] q[i]).1 <= (#[trigger] q[j]).1,
        unexpired(m, q, now).dom().contains(key),
    ensures
        unexpired(m, q, now)[key] > now,
    decreases q.len(),
{
    lemma_unexpired(m, q, now);
    if q.len() > 0 && q[0].1 <= now {
        let m1 = released(m, q[0]);
        let q1 = q.drop_first();
        assert forall|k: Seq<u8>| #[trigger] m1.dom().contains(k) implies q1.contains((k, m1[k])) by {
            let i = choose|i: int| 0 <= i < q.len() && q[i] == (k, m[k]);
            assert(i != 0);
            assert(q1[i - 1] == (k, m1[k]));
        }
        assert forall|i: int, j: int| 0 <= i < j < q1.len() implies (#[trigger] q1[i]).1 <= (#[trigger] q1[j]).1 by {
            assert(q1[i] == q[i + 1]);
            assert(q1[j] == q[j + 1]);
        }
        expired_entries_are_evicted(m1, q1, now, key);
    } else {
        let i = choose|i: int| 0 <= i < q.len() && q[i] == (key, m[key]);
        if i > 0 {
            assert(q[0].1 <= q[i].1);
        }
    }
}

impl Cache {
    /// Keys are distinct, and every entry has its node.
    pub open spec fn wf(self) -> bool {
        self.by_key.wf() && noted(self.by_key@, nodes(self.by_insertion@))
    }

    pub fn new() -> (r: Cache)
        ensures
            r.wf(),
            r.by_key@ == Map::<Seq<u8>, u64>::empty(),
            nodes(r.by_insertion@) == Seq::<(Seq<u8>, u64)>::empty(),
    {
        let r = Cache { by_key: Table::new(), by_insertion: VecDeque::new() };
        assert(nodes(r.by_insertion@) =~= Seq::<(Seq<u8>, u64)>::empty());
        r
    }

    /// Records a key for `ttl` milliseconds and drops what has expired.
    pub fn insert(&mut self, key: Vec<u8>, ttl: u64, now: u64)
        requires
            old(self).wf(),
            now + ttl <= u64::MAX,
        ensures
            final(self).wf(),
            final(self).by_key@ == unexpired(old(self).by_key@, nodes(old(self).by_insertion@), now).insert(
                key@,
                (now + ttl) as u64,
            ),
            nodes(final(self).by_insertion@) == pending(nodes(old(self).by_insertion@), now).push(
                (key@, (now + ttl) as u64),
            ),
    {
        self.evict_expired(now);
        let expires_at = now + ttl;
        let ghost m = self.by_key@;
        let ghost q = nodes(self.by_insertion@);
        let copy = bytes::copy_of(key.as_slice());
        self.by_key.insert(copy, expires_at);
        self.by_insertion.push_back((key, expires_at));
        proof {
            let q1 = nodes(self.by_insertion@);
            assert(q1 =~= q.push((key@, expires_at)));
            assert forall|k: Seq<u8>| #[trigger] self.by_key@.dom().contains(k) implies q1.contains(
                (k, self.by_key@[k]),
            ) by {
                if k == key@ {
                    assert(q1[q.len() as int] == (k, expires_at));
                } else {
                    assert(m.dom().contains(k));
                    let i = choose|i: int| 0 <= i < q.len() && q[i] == (k, m[k]);
                    assert(q1[i] == (k, m[k]));
                }
            }
        }
    }

    /// Whether the key was recorded and has not expired. A hit consumes the
    /// entry, and so does a lookup of an expired one.
    pub fn is_looped(&mut self, key: &Vec<u8>, now: u64) -> (r: bool)
        requires
            old(self).wf(),
        ensures
            final(self).wf(),
            r == (old(self).by_key@.dom().contains(key@) && old(self).by_key@[key@] > now),
            final(self).by_key@ == old(self).by_key@.remove(key@),
            nodes(final(self).by_insertion@) == nodes(old(self).by_insertion@),
    {
        let ghost m = self.by_key@;
        let found = self.by_key.remove(key);
        proof {
            assert(self.by_key@ =~= m.remove(key@));
        }
        match found {
            Some(expires_at) => expires_at > now,
            None => false,
        }
    }

    pub fn evict_expired(&mut self, now: u64)
        requires
            old(self).wf(),
        ensures
            final(self).wf(),
            final(self).by_key@ == unexpired(old(self).by_key@, nodes(old(self).by_insertion@), now),
            nodes(final(self).by_insertion@) == pending(nodes(old(self).by_insertion@), now),
    {
        let ghost m0 = self.by_key@;
        let ghost q0 = nodes(self.by_insertion@);
        while self.by_insertion.len() > 0 && self.by_insertion[0].1 <= now
            invariant
                self.by_key.wf(),
                unexpired(self.by_key@, nodes(self.by_insertion@), now) == unexpired(m0, q0, now),
                pending(nodes(self.by_insertion@), now) == pending(q0, now),
            decreases self.by_insertion@.len(),
        {
            let ghost q = nodes(self.by_insertion@);
            if let Some((key, expires_at)) = self.by_insertion.pop_front() {
                proof {
                    assert(q[0] == (key@, expires_at));
                    assert(nodes(self.by_insertion@) =~= q.drop_first());
                }
                let mine = match self.by_key.get(&key) {
                    Some(e) => *e == expires_at,
                    None => false,
                };
                // only drop the map entry if it still belongs to this deque node
                if mine {
                    let _ = self.by_key.remove(&key);
                }
            }
        }
        proof {
            lemma_unexpired(m0, q0, now);
            let q = nodes(self.by_insertion@);
            if q.len() > 0 {
                assert(q[0].1 == self.by_insertion@[0].1);
            }
        }
    }
}

/// A key that was just recorded is found until its lifetime is over, and only
/// once.
pub proof fn a_recorded_key_is_detected_once(before: Map<Seq<u8>, u64>, after: Map<Seq<u8>, u64>, key: Seq<u8>, expires: u64, now: u64)
    requires
        after == before.insert(key, expires),
        now < expires,
    ensures
        after.dom().contains(key) && after[key] > now,
        !after.remove(key).dom().contains(key),
{
}

/// Records a ClientHello random that is about to be forwarded upstream.
pub fn insert(seen: &mut Cache, random: Vec<u8>, now: u64)
    requires
        old(seen).wf(),
        now + DEFAULT_TTL <= u64::MAX,
    ensures
        final(seen).wf(),
        final(seen).by_key@ == unexpired(old(seen).by_key@, nodes(old(seen).by_insertion@), now).insert(
            random@,
            (now + DEFAULT_TTL) as u64,
        ),
        nodes(final(seen).by_insertion@) == pending(nodes(old(seen).by_insertion@), now).push(
            (random@, (now + DEFAULT_TTL) as u64),
        ),
{
    seen.insert(random, DEFAULT_TTL, now);
}

/// Returns true when this proxy recently forwarded a ClientHello with this
/// random, meaning the inbound connection is a self-connection loop.
/// A hit consumes the entry.
pub fn is_looped(seen: &mut Cache, random: &Vec<u8>, now: u64) -> (r: bool)
    requires
        old(seen).wf(),
    ensures
        final(seen).wf(),
        r == (old(seen).by_key@.dom().contains(random@) && old(seen).by_key@[random@] > now),
        final(seen).by_key@ == old(seen).by_key@.remove(random@),
        nodes(final(seen).by_insertion@) == nodes(old(seen).by_insertion@),
{
    seen.is_looped(random, now)
}

/// Records a request token injected into a proxied plaintext HTTP request.
pub fn insert_request_token(seen: &mut Cache, token: &str, now: u64)
    requires
        old(seen).wf(),
        now + DEFAULT_TTL <= u64::MAX,
    ensures
        final(seen).wf(),
        final(seen).by_key@ == unexpired(old(seen).by_key@, nodes(old(seen).by_insertion@), now).insert(
            vstd::utf8::encode_utf8(token@),
            (now + DEFAULT_TTL) as u64,
        ),
        nodes(final(seen).by_insertion@) == pending(nodes(old(seen).by_insertion@), now).push(
            (vstd::utf8::encode_utf8(token@), (now + DEFAULT_TTL) as u64),
        ),
{
    seen.insert(bytes::copy_of(token.as_bytes()), DEFAULT_TTL, now);
}

/// Returns true when this proxy recently injected this token into an
/// upstream HTTP request, meaning the inbound request is a self-connection
/// loop. A hit consumes the entry.
pub fn request_token_is_looped(seen: &mut Cache, token: &str, now: u64) -> (r: bool)
    requires
        old(seen).wf(),
    ensures
        final(seen).wf(),
        r == (old(seen).by_key@.dom().contains(vstd::utf8::encode_utf8(token@)) && old(
            seen,
        ).by_key@[vstd::utf8::encode_utf8(token@)] > now),
        final(seen).by_key@ == old(seen).by_key@.remove(vstd::utf8::encode_utf8(token@)),
        nodes(final(seen).by_insertion@) == nodes(old(seen).by_insertion@),
{
    seen.is_looped(&bytes::copy_of(token.as_bytes()), now)
}

/// A token that was sent on is recognized for ten seconds, once.
pub proof fn a_token_that_was_sent_on_is_recognized(
    first: &mut Cache,
    second: &mut Cache,
    third: &mut Cache,
    token: &str,
    now: u64,
    later: u64,
    r: bool,
    s: bool,
)
    requires
        now + 10_000 <= u64::MAX,
        call_ensures(insert_request_token, (first, token, now), ()),
        *old(second) == *final(first),
        call_ensures(request_token_is_looped, (second, token, later), r),
        *old(third) == *final(second),
        call_ensures(request_token_is_looped, (third, token, later), s),
    ensures
        r <==> later < now + 10_000,
        !s,
{
}

} // verus!
