//! Counting attempts by key in windows of time. Times are in milliseconds.
use vstd::prelude::*;
use crate::table;
use crate::table::{Key, Table};

verus! {

/// How many attempts were made with a key since its window began.
pub struct Throttle {
    pub attempts: Table<String, (u32, u64)>,
}

/// Whether a window that began at `start` is over.
pub open spec fn is_over(start: u64, now: u64, window: u64) -> bool {
    now >= start && now - start >= window
}

/// The counts whose windows are not over.
pub open spec fn current(m: Map<Seq<char>, (u32, u64)>, now: u64, window: u64) -> Map<Seq<char>, (u32, u64)> {
    m.restrict(Set::new(|k: Seq<char>| m.dom().contains(k) && !is_over(m[k].1, now, window)))
}

/// The counts after one more attempt with a key.
pub open spec fn counted(m: Map<Seq<char>, (u32, u64)>, key: Seq<char>, now: u64) -> Map<Seq<char>, (u32, u64)> {
    if m.dom().contains(key) {
        m.insert(
            key,
            (
                if m[key].0 == u32::MAX {
                    u32::MAX
                } else {
                    (m[key].0 + 1) as u32
                },
                m[key].1,
            ),
        )
    } else {
        m.insert(key, (1, now))
    }
}

/// How many attempts were made with a key.
pub open spec fn count_of(m: Map<Seq<char>, (u32, u64)>, key: Seq<char>) -> u32 {
    if m.dom().contains(key) {
        m[key].0
    } else {
        0
    }
}

impl Throttle {
    pub open spec fn wf(self) -> bool {
        self.attempts.wf()
    }

    pub open spec fn view(self) -> Map<Seq<char>, (u32, u64)> {
        self.attempts@
    }

    pub fn new() -> (r: Throttle)
        ensures
            r.wf(),
            r@ == Map::<Seq<char>, (u32, u64)>::empty(),
    {
        Throttle { attempts: Table::new() }
    }

    /// Forgets the counts whose windows are over.
    pub fn prune(&mut self, now: u64, window: u64)
        requires
            old(self).wf(),
        ensures
            final(self).wf(),
            final(self)@ == current(old(self)@, now, window),
    {
        let ghost s = self.attempts.entries@;
        let mut gone: Vec<String> = Vec::new();
        let mut i: usize = 0;
        while i < self.attempts.entries.len()
            invariant
                i <= self.attempts.entries@.len(),
                *self == *old(self),
                s == self.attempts.entries@,
                forall|k: int|
                    0 <= k < i && is_over((#[trigger] s[k]).1.1, now, window) ==> table::ids(gone@).contains(s[k].0@),
                forall|n: int| #![trigger table::ids(gone@)[n]]
                    0 <= n < gone@.len() ==> exists|k: int|
                        0 <= k < i && (#[trigger] s[k]).0@ == table::ids(gone@)[n] && is_over(s[k].1.1, now, window),
            decreases self.attempts.entries@.len() - i,
        {
            let start = self.attempts.entries[i].1.1;
            if now >= start && now - start >= window {
                let ghost g0 = table::ids(gone@);
                gone.push(self.attempts.entries[i].0.clone());
                proof {
                    let g = table::ids(gone@);
                    assert(g =~= g0.push(s[i as int].0@));
                    assert forall|k: int| 0 <= k < i + 1 && is_over((#[trigger] s[k]).1.1, now, window) implies g.contains(
                        s[k].0@,
                    ) by {
                        if k < i {
                            let n = choose|n: int| 0 <= n < g0.len() && g0[n] == s[k].0@;
                            assert(g[n] == s[k].0@);
                        } else {
                            assert(g[g0.len() as int] == s[k].0@);
                        }
                    }
                    assert forall|n: int| #![trigger g[n]] 0 <= n < gone@.len() implies exists|k: int|
                        0 <= k < i + 1 && (#[trigger] s[k]).0@ == g[n] && is_over(s[k].1.1, now, window) by {
                        if n < g0.len() {
                            assert(g[n] == g0[n]);
                            let k = choose|k: int|
                                0 <= k < i && (#[trigger] s[k]).0@ == g0[n] && is_over(s[k].1.1, now, window);
                            assert(s[k].0@ == g[n]);
                        } else {
                            assert(s[i as int].0@ == g[n]);
                        }
                    }
                }
            }
            i = i + 1;
        }
        proof {
            table::lemma_map_of(s);
        }
        self.attempts.remove_all(&gone);
        proof {
            let m = old(self)@;
            let g = table::ids(gone@);
            let want = current(m, now, window);
            assert forall|k: Seq<char>| #[trigger] m.remove_keys(g.to_set()).dom().contains(k) <==> want.dom().contains(k) by {
                if m.dom().contains(k) {
                    let a = choose|a: int| 0 <= a < s.len() && Key::id(&(#[trigger] s[a]).0) == k;
                    assert(m[k] == s[a].1);
                    if g.contains(k) {
                        let n = choose|n: int| 0 <= n < g.len() && g[n] == k;
                        let b = choose|b: int|
                            0 <= b < s.len() && (#[trigger] s[b]).0@ == g[n] && is_over(s[b].1.1, now, window);
                        assert(Key::id(&s[b].0) == k);
                        assert(m[k] == s[b].1);
                    }
                }
            }
            assert(self@ =~= want);
        }
    }

    /// How many attempts were made with a key.
    pub fn count(&self, key: &String) -> (r: u32)
        requires
            self.wf(),
        ensures
            r == count_of(self@, key@),
    {
        match self.attempts.get(key) {
            Some(e) => e.0,
            None => 0,
        }
    }

    /// Counts an attempt; the first one with a key begins its window.
    pub fn add_attempt(&mut self, key: &String, now: u64)
        requires
            old(self).wf(),
        ensures
            final(self).wf(),
            final(self)@ == counted(old(self)@, key@, now),
    {
        let next = match self.attempts.get(key) {
            Some(e) => (e.0.saturating_add(1), e.1),
            None => (1, now),
        };
        self.attempts.insert(key.clone(), next);
    }

    /// Forgets the attempts with a key.
    pub fn forget(&mut self, key: &String)
        requires
            old(self).wf(),
        ensures
            final(self).wf(),
            final(self)@ == old(self)@.remove(key@),
    {
        let ghost m = self@;
        let _ = self.attempts.remove(key);
        proof {
            assert(m.remove(key@) =~= self@);
        }
    }
}

/// Attempts with one key never count against another, and a window that is
/// over counts for nothing.
pub proof fn keys_are_counted_apart(m: Map<Seq<char>, (u32, u64)>, key: Seq<char>, other: Seq<char>, now: u64, window: u64)
    requires
        key != other,
    ensures
        count_of(counted(m, key, now), other) == count_of(m, other),
        m.dom().contains(key) && is_over(m[key].1, now, window) ==> count_of(current(m, now, window), key) == 0,
        m.dom().contains(key) && !is_over(m[key].1, now, window) ==> count_of(current(m, now, window), key) == m[key].0,
{
}

/// Every attempt within a window counts one more, from one on, and the window
/// begins with the first of them. It is over once it lasted its time, not
/// before.
pub proof fn every_attempt_counts_once(m: Map<Seq<char>, (u32, u64)>, key: Seq<char>, now: u64, later: u64, window: u64)
    requires
        now <= later,
        window > 0,
    ensures
        !m.dom().contains(key) ==> count_of(counted(m, key, now), key) == 1 && counted(m, key, now)[key].1 == now,
        m.dom().contains(key) && m[key].0 < u32::MAX ==> count_of(counted(m, key, now), key) == count_of(m, key) + 1
            && counted(m, key, now)[key].1 == m[key].1,
        !m.dom().contains(key) && later - now < window ==> count_of(
            current(counted(m, key, now), later, window),
            key,
        ) == 1,
        !m.dom().contains(key) && later - now >= window ==> count_of(
            current(counted(m, key, now), later, window),
            key,
        ) == 0,
{
}

} // verus!
