//! A map from keys with an equality of their own to values, in the order of
//! insertion.
use vstd::prelude::*;

verus! {

/// A value that can be told from others of its type.
pub trait Key: Sized {
    /// What a key is.
    type Id;

    spec fn id(&self) -> Self::Id;

    fn same_key(&self, other: &Self) -> (r: bool)
        ensures
            r == (self.id() == other.id()),
    ;
}

impl Key for String {
    type Id = Seq<char>;

    open spec fn id(&self) -> Seq<char> {
        self@
    }

    fn same_key(&self, other: &Self) -> (r: bool) {
        crate::text::str_eq(self.as_str(), other.as_str())
    }
}

impl Key for Vec<u8> {
    type Id = Seq<u8>;

    open spec fn id(&self) -> Seq<u8> {
        self@
    }

    fn same_key(&self, other: &Self) -> (r: bool) {
        crate::bytes::same(self.as_slice(), other.as_slice())
    }
}

impl Key for (String, u16) {
    type Id = (Seq<char>, u16);

    open spec fn id(&self) -> (Seq<char>, u16) {
        (self.0@, self.1)
    }

    fn same_key(&self, other: &Self) -> (r: bool) {
        self.1 == other.1 && crate::text::str_eq(self.0.as_str(), other.0.as_str())
    }
}

/// The map that a row of entries denotes.
pub open spec fn map_of<K: Key, V>(s: Seq<(K, V)>) -> Map<K::Id, V>
    decreases s.len(),
{
    if s.len() == 0 {
        Map::empty()
    } else {
        map_of(s.drop_last()).insert(s.last().0.id(), s.last().1)
    }
}

/// No two entries have the same key.
pub open spec fn distinct<K: Key, V>(s: Seq<(K, V)>) -> bool {
    forall|i: int, j: int| 0 <= i < j < s.len() ==> (#[trigger] s[i]).0.id() != (#[trigger] s[j]).0.id()
}

pub proof fn lemma_map_of<K: Key, V>(s: Seq<(K, V)>)
    requires
        distinct(s),
    ensures
        forall|i: int|
            0 <= i < s.len() ==> map_of(s).dom().contains((#[trigger] s[i]).0.id()) && map_of(s)[s[i].0.id()] == s[i].1,
        forall|id: K::Id| #[trigger]
            map_of(s).dom().contains(id) ==> exists|i: int| 0 <= i < s.len() && (#[trigger] s[i]).0.id() == id,
        map_of(s).dom().finite(),
        map_of(s).dom().len() == s.len(),
    decreases s.len(),
{
    if s.len() > 0 {
        let t = s.drop_last();
        lemma_map_of(t);
        assert forall|i: int| 0 <= i < s.len() implies map_of(s).dom().contains((#[trigger] s[i]).0.id()) && map_of(s)[s[i].0.id()] == s[i].1 by {
            if i < t.len() {
                assert(t[i] == s[i]);
            }
        }
        assert forall|id: K::Id| #[trigger] map_of(s).dom().contains(id) implies exists|i: int|
            0 <= i < s.len() && (#[trigger] s[i]).0.id() == id by {
            if id == s.last().0.id() {
                assert(s[s.len() - 1].0.id() == id);
            } else {
                assert(map_of(t).dom().contains(id));
                let i = choose|i: int| 0 <= i < t.len() && (#[trigger] t[i]).0.id() == id;
                assert(s[i].0.id() == id);
            }
        }
        assert(!map_of(t).dom().contains(s.last().0.id())) by {
            if map_of(t).dom().contains(s.last().0.id()) {
                let i = choose|i: int| 0 <= i < t.len() && (#[trigger] t[i]).0.id() == s.last().0.id();
                assert(s[i].0.id() == s[s.len() - 1].0.id());
            }
        }
    }
}

proof fn lemma_map_without<K: Key, V>(s: Seq<(K, V)>, i: int)
    requires
        distinct(s),
        0 <= i < s.len(),
    ensures
        distinct(s.remove(i)),
        map_of(s.remove(i)) == map_of(s).remove(s[i].0.id()),
{
    let t = s.remove(i);
    assert forall|j: int, k: int| 0 <= j < k < t.len() implies (#[trigger] t[j]).0.id() != (#[trigger] t[k]).0.id() by {
        let a = if j < i { j } else { j + 1 };
        let b = if k < i { k } else { k + 1 };
        assert(t[j] == s[a]);
        assert(t[k] == s[b]);
    }
    lemma_map_of(s);
    lemma_map_of(t);
    let m = map_of(s).remove(s[i].0.id());
    assert forall|id: K::Id| #[trigger] map_of(t).dom().contains(id) <==> m.dom().contains(id) by {
        if map_of(t).dom().contains(id) {
            let j = choose|j: int| 0 <= j < t.len() && (#[trigger] t[j]).0.id() == id;
            let a = if j < i { j } else { j + 1 };
            assert(t[j] == s[a]);
            assert(s[a].0.id() == id);
        }
        if m.dom().contains(id) {
            assert(map_of(s).dom().contains(id));
            let a = choose|a: int| 0 <= a < s.len() && (#[trigger] s[a]).0.id() == id;
            let j = if a < i { a } else { a - 1 };
            assert(t[j] == s[a]);
            assert(t[j].0.id() == id);
        }
    }
    assert forall|id: K::Id| #[trigger] map_of(t).dom().contains(id) implies map_of(t)[id] == m[id] by {
        let j = choose|j: int| 0 <= j < t.len() && (#[trigger] t[j]).0.id() == id;
        let a = if j < i { j } else { j + 1 };
        assert(t[j] == s[a]);
    }
    assert(map_of(t) =~= m);
}

proof fn lemma_map_updated<K: Key, V>(s: Seq<(K, V)>, t: Seq<(K, V)>, i: int)
    requires
        distinct(s),
        0 <= i < s.len(),
        t.len() == s.len(),
        t[i].0.id() == s[i].0.id(),
        forall|j: int| 0 <= j < s.len() && j != i ==> t[j] == s[j],
    ensures
        distinct(t),
        map_of(t) == map_of(s).insert(s[i].0.id(), t[i].1),
{
    assert forall|j: int, k: int| 0 <= j < k < t.len() implies (#[trigger] t[j]).0.id() != (#[trigger] t[k]).0.id() by {
        assert(s[j].0.id() != s[k].0.id());
    }
    lemma_map_of(s);
    lemma_map_of(t);
    let m = map_of(s).insert(s[i].0.id(), t[i].1);
    assert forall|id: K::Id| #[trigger] map_of(t).dom().contains(id) <==> m.dom().contains(id) by {
        if map_of(t).dom().contains(id) {
            let j = choose|j: int| 0 <= j < t.len() && (#[trigger] t[j]).0.id() == id;
            assert(s[j].0.id() == id);
        }
        if m.dom().contains(id) && id != s[i].0.id() {
            let j = choose|j: int| 0 <= j < s.len() && (#[trigger] s[j]).0.id() == id;
            assert(t[j].0.id() == id);
        }
    }
    assert forall|id: K::Id| #[trigger] map_of(t).dom().contains(id) implies map_of(t)[id] == m[id] by {
        let j = choose|j: int| 0 <= j < t.len() && (#[trigger] t[j]).0.id() == id;
        if j != i {
            assert(s[j].0.id() != s[i].0.id());
        }
    }
    assert(map_of(t) =~= m);
}

/// The identities of a row of keys.
pub open spec fn ids<K: Key>(keys: Seq<K>) -> Seq<K::Id> {
    keys.map_values(|k: K| k.id())
}

/// A map with distinct keys.
pub struct Table<K: Key, V> {
    pub entries: Vec<(K, V)>,
}

impl<K: Key, V> Table<K, V> {
    pub open spec fn wf(self) -> bool {
        distinct(self.entries@)
    }

    pub open spec fn view(self) -> Map<K::Id, V> {
        map_of(self.entries@)
    }

    pub fn new() -> (r: Self)
        ensures
            r.wf(),
            r@ == Map::<K::Id, V>::empty(),
            r.entries@.len() == 0,
    {
        Table { entries: Vec::new() }
    }

    pub fn len(&self) -> (r: usize)
        requires
            self.wf(),
        ensures
            r == self@.dom().len(),
            r == self.entries@.len(),
    {
        proof {
            lemma_map_of(self.entries@);
        }
        self.entries.len()
    }

    /// The position of the entry with a key.
    pub fn position(&self, key: &K) -> (r: Option<usize>)
        requires
            self.wf(),
        ensures
            match r {
                Some(i) => i < self.entries@.len() && self.entries@[i as int].0.id() == key.id()
                    && self@.dom().contains(key.id()) && self@[key.id()] == self.entries@[i as int].1,
                None => !self@.dom().contains(key.id()),
            },
    {
        proof {
            lemma_map_of(self.entries@);
        }
        let mut i: usize = 0;
        while i < self.entries.len()
            invariant
                i <= self.entries@.len(),
                forall|j: int| 0 <= j < i ==> (#[trigger] self.entries@[j]).0.id() != key.id(),
                forall|j: int|
                    0 <= j < self.entries@.len() ==> self@.dom().contains((#[trigger] self.entries@[j]).0.id())
                        && self@[self.entries@[j].0.id()] == self.entries@[j].1,
            decreases self.entries@.len() - i,
        {
            if self.entries[i].0.same_key(key) {
                return Some(i);
            }
            i = i + 1;
        }
        proof {
            lemma_map_of(self.entries@);
            if self@.dom().contains(key.id()) {
                let j = choose|j: int| 0 <= j < self.entries@.len() && (#[trigger] self.entries@[j]).0.id() == key.id();
                assert(false);
            }
        }
        None
    }

    pub fn contains_key(&self, key: &K) -> (r: bool)
        requires
            self.wf(),
        ensures
            r == self@.dom().contains(key.id()),
    {
        self.position(key).is_some()
    }

    pub fn get(&self, key: &K) -> (r: Option<&V>)
        requires
            self.wf(),
        ensures
            match r {
                Some(v) => self@.dom().contains(key.id()) && *v == self@[key.id()],
                None => !self@.dom().contains(key.id()),
            },
    {
        match self.position(key) {
            Some(i) => Some(&self.entries[i].1),
            None => None,
        }
    }

    /// Binds a key to a value, whether or not it was bound before.
    pub fn insert(&mut self, key: K, value: V)
        requires
            old(self).wf(),
        ensures
            final(self).wf(),
            final(self)@ == old(self)@.insert(key.id(), value),
            !old(self)@.dom().contains(key.id()) ==> final(self).entries@ == old(self).entries@.push((key, value)),
    {
        let ghost before = self.entries@;
        match self.position(&key) {
            Some(i) => {
                self.entries.set(i, (key, value));
                proof {
                    lemma_map_updated(before, self.entries@, i as int);
                }
            },
            None => {
                self.entries.push((key, value));
                proof {
                    let s = self.entries@;
                    assert(s.drop_last() =~= before);
                    lemma_map_of(before);
                    assert forall|j: int, k: int| 0 <= j < k < s.len() implies (#[trigger] s[j]).0.id() != (#[trigger] s[k]).0.id() by {
                        assert(before[j] == s[j]);
                        if k < before.len() {
                            assert(before[k] == s[k]);
                        } else {
                            assert(map_of(before).dom().contains(before[j].0.id()));
                        }
                    }
                }
            },
        }
    }

    /// Replaces the value at a position.
    pub fn put_at(&mut self, i: usize, value: V)
        requires
            old(self).wf(),
            i < old(self).entries@.len(),
        ensures
            final(self).wf(),
            final(self)@ == old(self)@.insert(old(self).entries@[i as int].0.id(), value),
            final(self).entries@.len() == old(self).entries@.len(),
            forall|j: int| 0 <= j < old(self).entries@.len() ==> (#[trigger] final(self).entries@[j]).0 == old(self).entries@[j].0,
    {
        let ghost before = self.entries@;
        self.entries[i].1 = value;
        proof {
            lemma_map_updated(before, self.entries@, i as int);
        }
    }

    /// Unbinds a key and yields what it was bound to.
    pub fn remove(&mut self, key: &K) -> (r: Option<V>)
        requires
            old(self).wf(),
        ensures
            final(self).wf(),
            match r {
                Some(v) => old(self)@.dom().contains(key.id()) && v == old(self)@[key.id()] && final(self)@ == old(
                    self,
                )@.remove(key.id()) && exists|i: int|
                    0 <= i < old(self).entries@.len() && (#[trigger] old(self).entries@[i]).0.id() == key.id()
                        && final(self).entries@ == old(self).entries@.remove(i),
                None => !old(self)@.dom().contains(key.id()) && final(self)@ == old(self)@ && final(self).entries@
                    == old(self).entries@,
            },
    {
        match self.position(key) {
            Some(i) => {
                proof {
                    lemma_map_without(self.entries@, i as int);
                }
                let (_, v) = self.entries.remove(i);
                Some(v)
            },
            None => None,
        }
    }

    /// Unbinds every one of the keys.
    pub fn remove_all(&mut self, keys: &Vec<K>)
        requires
            old(self).wf(),
        ensures
            final(self).wf(),
            final(self)@ == old(self)@.remove_keys(ids(keys@).to_set()),
    {
        let ghost all = ids(keys@);
        let ghost m0 = self@;
        let mut i: usize = 0;
        assert(m0.remove_keys(all.take(0).to_set()) =~= m0);
        while i < keys.len()
            invariant
                i <= keys@.len(),
                all == ids(keys@),
                self.wf(),
                self@ == m0.remove_keys(all.take(i as int).to_set()),
            decreases keys@.len() - i,
        {
            let ghost m = self@;
            let _ = self.remove(&keys[i]);
            proof {
                let k = all[i as int];
                let before = all.take(i as int);
                let after = all.take(i + 1);
                assert(after =~= before.push(k));
                assert forall|id: K::Id| #[trigger] after.to_set().contains(id) <==> before.to_set().contains(id) || id == k by {
                    if before.contains(id) {
                        let n = choose|n: int| 0 <= n < before.len() && before[n] == id;
                        assert(after[n] == id);
                    }
                    if id == k {
                        assert(after[i as int] == id);
                    }
                    if after.contains(id) && id != k {
                        let n = choose|n: int| 0 <= n < after.len() && after[n] == id;
                        assert(before[n] == id);
                    }
                }
                assert(m.remove(k) =~= m0.remove_keys(after.to_set()));
                if !m.dom().contains(k) {
                    assert(m =~= m.remove(k));
                }
            }
            i = i + 1;
        }
        assert(all.take(i as int) =~= all);
    }

    pub fn clear(&mut self)
        ensures
            final(self).wf(),
            final(self)@ == Map::<K::Id, V>::empty(),
    {
        self.entries.clear();
    }
}

} // verus!
