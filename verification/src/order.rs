//! A stable sort for values with a total order of their own.
use vstd::prelude::*;
use std::collections::VecDeque;

verus! {

/// A total preorder on the values of a type.
pub trait Ranked: Sized {
    /// Whether `self` does not come after `other`.
    spec fn ranks_before(self, other: Self) -> bool;

    /// Any two values are comparable.
    proof fn total(a: Self, b: Self)
        ensures
            a.ranks_before(b) || b.ranks_before(a),
    ;

    proof fn transitive(a: Self, b: Self, c: Self)
        requires
            a.ranks_before(b),
            b.ranks_before(c),
        ensures
            a.ranks_before(c),
    ;

    fn not_after(&self, other: &Self) -> (r: bool)
        ensures
            r == self.ranks_before(*other),
    ;
}

/// No element comes after a later one.
pub open spec fn is_sorted<T: Ranked>(s: Seq<T>) -> bool {
    forall|i: int, j: int| 0 <= i < j < s.len() ==> (#[trigger] s[i]).ranks_before(#[trigger] s[j])
}

/// `s` with `x` behind every element that does not come after it, looking
/// from the end.
pub open spec fn inserted<T: Ranked>(s: Seq<T>, x: T) -> Seq<T>
    decreases s.len(),
{
    if s.len() == 0 || s.last().ranks_before(x) {
        s.push(x)
    } else {
        inserted(s.drop_last(), x).push(s.last())
    }
}

/// The elements of `s` in order, equal ones as they stood in `s`.
pub open spec fn sorted<T: Ranked>(s: Seq<T>) -> Seq<T>
    decreases s.len(),
{
    if s.len() == 0 {
        s
    } else {
        inserted(sorted(s.drop_last()), s.last())
    }
}

/// Two sorted rows in one, elements of `a` before equal ones of `b`.
spec fn merged<T: Ranked>(a: Seq<T>, b: Seq<T>) -> Seq<T>
    decreases a.len() + b.len(),
{
    if a.len() == 0 {
        b
    } else if b.len() == 0 {
        a
    } else if a.last().ranks_before(b.last()) {
        merged(a, b.drop_last()).push(b.last())
    } else {
        merged(a.drop_last(), b).push(a.last())
    }
}

proof fn lemma_inserted<T: Ranked>(s: Seq<T>, x: T)
    requires
        is_sorted(s),
    ensures
        is_sorted(inserted(s, x)),
        inserted(s, x).to_multiset() == s.to_multiset().insert(x),
        inserted(s, x).len() == s.len() + 1,
        forall|i: int|
            0 <= i < inserted(s, x).len() ==> #[trigger] inserted(s, x)[i] == x || s.contains(inserted(s, x)[i]),
    decreases s.len(),
{
    broadcast use vstd::seq_lib::group_to_multiset_ensures;

    if s.len() == 0 || s.last().ranks_before(x) {
        let r = s.push(x);
        assert forall|i: int, j: int| 0 <= i < j < r.len() implies (#[trigger] r[i]).ranks_before(#[trigger] r[j]) by {
            if j == s.len() && i < s.len() - 1 {
                T::transitive(s[i], s.last(), x);
            }
        }
    } else {
        let t = s.drop_last();
        lemma_inserted(t, x);
        let u = inserted(t, x);
        let r = u.push(s.last());
        assert(s =~= t.push(s.last()));
        T::total(s.last(), x);
        assert forall|i: int, j: int| 0 <= i < j < r.len() implies (#[trigger] r[i]).ranks_before(#[trigger] r[j]) by {
            if j == u.len() {
                if u[i] != x {
                    let k = choose|k: int| 0 <= k < t.len() && t[k] == u[i];
                    assert(s[k] == u[i]);
                }
            }
        }
        assert forall|i: int| 0 <= i < r.len() implies #[trigger] r[i] == x || s.contains(r[i]) by {
            if i < u.len() {
                if u[i] != x {
                    let k = choose|k: int| 0 <= k < t.len() && t[k] == u[i];
                    assert(s[k] == u[i]);
                }
            } else {
                assert(s[s.len() - 1] == r[i]);
            }
        }
        assert(r.to_multiset() =~= s.to_multiset().insert(x));
    }
}

/// Sorting yields the same elements in order.
pub proof fn sorted_is_an_ordered_permutation<T: Ranked>(s: Seq<T>)
    ensures
        is_sorted(sorted(s)),
        sorted(s).to_multiset() == s.to_multiset(),
        sorted(s).len() == s.len(),
    decreases s.len(),
{
    broadcast use vstd::seq_lib::group_to_multiset_ensures;

    if s.len() > 0 {
        sorted_is_an_ordered_permutation(s.drop_last());
        lemma_inserted(sorted(s.drop_last()), s.last());
        assert(s =~= s.drop_last().push(s.last()));
    }
}

/// An element of a sorted row is an element of the row, and the other way
/// round.
pub proof fn sorted_keeps_elements<T: Ranked>(s: Seq<T>, x: T)
    ensures
        sorted(s).contains(x) <==> s.contains(x),
{
    broadcast use vstd::seq_lib::group_to_multiset_ensures;

    sorted_is_an_ordered_permutation(s);
    assert(sorted(s).contains(x) <==> sorted(s).to_multiset().count(x) > 0);
    assert(s.contains(x) <==> s.to_multiset().count(x) > 0);
}

proof fn lemma_merge_insert<T: Ranked>(a: Seq<T>, b: Seq<T>, x: T)
    requires
        is_sorted(a),
        is_sorted(b),
    ensures
        merged(a, inserted(b, x)) == inserted(merged(a, b), x),
    decreases a.len() + b.len(),
{
    let m = merged(a, b);
    if a.len() == 0 {
    } else if b.len() == 0 {
        let bx = inserted(b, x);
        assert(bx =~= seq![x]);
        assert(bx.last() == x);
        if a.last().ranks_before(x) {
            assert(bx.drop_last() =~= b);
            assert(merged(a, bx) =~= a.push(x));
        } else {
            lemma_merge_insert(a.drop_last(), b, x);
            assert(merged(a.drop_last(), b) == a.drop_last());
        }
    } else if b.last().ranks_before(x) {
        let bx = b.push(x);
        assert(bx.drop_last() =~= b);
        assert(bx.last() == x);
        if a.last().ranks_before(b.last()) {
            T::transitive(a.last(), b.last(), x);
            assert(m.last() == b.last());
            assert(merged(a, bx) == m.push(x));
        } else {
            assert(m.last() == a.last());
            if a.last().ranks_before(x) {
                assert(merged(a, bx) == m.push(x));
            } else {
                lemma_merge_insert(a.drop_last(), b, x);
                assert(m.drop_last() =~= merged(a.drop_last(), b));
            }
        }
    } else {
        let t = b.drop_last();
        let bx = inserted(t, x).push(b.last());
        assert(bx.drop_last() =~= inserted(t, x));
        assert(bx.last() == b.last());
        assert(is_sorted(t));
        if a.last().ranks_before(b.last()) {
            lemma_merge_insert(a, t, x);
            assert(m.last() == b.last());
            assert(m.drop_last() =~= merged(a, t));
        } else {
            lemma_merge_insert(a.drop_last(), b, x);
            assert(m.last() == a.last());
            assert(m.drop_last() =~= merged(a.drop_last(), b));
            T::total(a.last(), b.last());
            if a.last().ranks_before(x) {
                T::total(b.last(), x);
                T::transitive(b.last(), a.last(), x);
            }
        }
    }
}

proof fn lemma_sorted_concat<T: Ranked>(a: Seq<T>, b: Seq<T>)
    ensures
        sorted(a + b) == merged(sorted(a), sorted(b)),
    decreases b.len(),
{
    if b.len() == 0 {
        assert(a + b =~= a);
        sorted_is_an_ordered_permutation(a);
        assert(sorted(b) =~= b);
        if sorted(a).len() == 0 {
            assert(sorted(a) =~= b);
        }
    } else {
        let t = b.drop_last();
        assert((a + b).drop_last() =~= a + t);
        lemma_sorted_concat(a, t);
        sorted_is_an_ordered_permutation(a);
        sorted_is_an_ordered_permutation(t);
        lemma_merge_insert(sorted(a), sorted(t), b.last());
    }
}

fn merge<T: Ranked>(a: VecDeque<T>, b: VecDeque<T>) -> (r: VecDeque<T>)
    ensures
        r@ == merged(a@, b@),
{
    let mut left = a;
    let mut right = b;
    let mut out: VecDeque<T> = VecDeque::new();
    assert(merged(a@, b@) =~= merged(left@, right@) + out@);
    while left.len() > 0 && right.len() > 0
        invariant
            merged(a@, b@) == merged(left@, right@) + out@,
        decreases left@.len() + right@.len(),
    {
        let ghost l0 = left@;
        let ghost r0 = right@;
        let ghost o0 = out@;
        let x = left.pop_back();
        let y = right.pop_back();
        if let (Some(x), Some(y)) = (x, y) {
            assert(l0 =~= l0.drop_last().push(x));
            assert(r0 =~= r0.drop_last().push(y));
            if x.not_after(&y) {
                left.push_back(x);
                assert(left@ =~= l0);
                assert(right@ =~= r0.drop_last());
                out.push_front(y);
                assert(merged(l0, r0) + o0 =~= merged(left@, right@) + out@);
            } else {
                right.push_back(y);
                assert(right@ =~= r0);
                assert(left@ =~= l0.drop_last());
                out.push_front(x);
                assert(merged(l0, r0) + o0 =~= merged(left@, right@) + out@);
            }
        }
    }
    let ghost l0 = left@;
    let ghost r0 = right@;
    let ghost o0 = out@;
    left.append(&mut right);
    left.append(&mut out);
    proof {
        assert(left@ =~= l0 + r0 + o0);
        if l0.len() == 0 {
            assert(l0 + r0 =~= r0);
        } else {
            assert(l0 + r0 =~= l0);
        }
    }
    left
}

/// Sorts `v`; equal elements keep their order.
pub fn sort<T: Ranked>(v: VecDeque<T>) -> (r: VecDeque<T>)
    ensures
        r@ == sorted(v@),
    decreases v@.len(),
{
    let mut left = v;
    let n = left.len();
    if n <= 1 {
        proof {
            if n == 1 {
                reveal_with_fuel(sorted, 2);
                assert(left@ =~= left@.drop_last().push(left@.last()));
            }
        }
        return left;
    }
    let right = left.split_off(n / 2);
    proof {
        assert(v@ =~= left@ + right@);
        lemma_sorted_concat(left@, right@);
    }
    merge(sort(left), sort(right))
}

/// Sorts `v`; equal elements keep their order.
pub fn sort_vec<T: Ranked>(v: Vec<T>) -> (r: Vec<T>)
    ensures
        r@ == sorted(v@),
{
    let mut source = v;
    let mut queue: VecDeque<T> = VecDeque::new();
    let mut n: usize = source.len();
    while n > 0
        invariant
            n == source@.len(),
            source@ + queue@ == v@,
        decreases n,
    {
        let ghost s0 = source@;
        let ghost q0 = queue@;
        if let Some(x) = source.pop() {
            queue.push_front(x);
            assert(source@ + queue@ =~= s0 + q0);
        }
        n = n - 1;
    }
    assert(queue@ =~= v@);
    let mut rest = sort(queue);
    let mut out: Vec<T> = Vec::new();
    let ghost all = rest@;
    let mut m: usize = rest.len();
    while m > 0
        invariant
            m == rest@.len(),
            out@ + rest@ == all,
        decreases m,
    {
        let ghost r0 = rest@;
        let ghost o0 = out@;
        if let Some(x) = rest.pop_front() {
            out.push(x);
            assert(out@ + rest@ =~= o0 + r0);
        }
        m = m - 1;
    }
    assert(out@ =~= all);
    out
}

/// A row that is in order stays as it is, and so do elements that rank the same.
pub proof fn a_sorted_row_stays_as_it_is<T: Ranked>(s: Seq<T>)
    requires
        is_sorted(s),
    ensures
        sorted(s) == s,
    decreases s.len(),
{
    if s.len() > 0 {
        let t = s.drop_last();
        assert forall|i: int, j: int| 0 <= i < j < t.len() implies (#[trigger] t[i]).ranks_before(#[trigger] t[j]) by {
            assert(s[i].ranks_before(s[j]));
        }
        a_sorted_row_stays_as_it_is(t);
        if t.len() > 0 {
            assert(s[t.len() - 1].ranks_before(s[s.len() - 1]));
        }
        assert(t.push(s.last()) =~= s);
    }
}

} // verus!
