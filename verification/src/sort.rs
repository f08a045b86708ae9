//! Sorting by a total preorder.

use crate::seqs::reversed;
use vstd::multiset::Multiset;
use vstd::prelude::*;
use vstd::relations::sorted_by;

verus! {

/// Any two elements can be compared, and the comparison is transitive.
pub open spec fn total_preorder<T>(leq: spec_fn(T, T) -> bool) -> bool {
    &&& forall|a: T, b: T| #[trigger] leq(a, b) || leq(b, a)
    &&& forall|a: T, b: T, c: T| #[trigger] leq(a, b) && #[trigger] leq(b, c) ==> leq(a, c)
}

/// Every element of `x` comes before every element of `y`, or with it.
spec fn all_before<T>(x: Seq<T>, y: Seq<T>, leq: spec_fn(T, T) -> bool) -> bool {
    forall|i: int, j: int|
        0 <= i < x.len() && 0 <= j < y.len() ==> leq(#[trigger] x[i], #[trigger] y[j])
}

/// Sorted from the largest to the smallest.
spec fn sorted_down<T>(s: Seq<T>, leq: spec_fn(T, T) -> bool) -> bool {
    forall|i: int, j: int| 0 <= i < j < s.len() ==> leq(#[trigger] s[j], #[trigger] s[i])
}

proof fn lemma_multiset_pop<T>(s: Seq<T>)
    requires
        s.len() > 0,
    ensures
        s.to_multiset() == s.drop_last().to_multiset().insert(s.last()),
{
    assert(s.drop_last().push(s.last()) =~= s);
    vstd::seq_lib::to_multiset_build(s.drop_last(), s.last());
}

proof fn lemma_multiset_reverse<T>(s: Seq<T>)
    ensures
        s.reverse().to_multiset() == s.to_multiset(),
    decreases s.len(),
{
    broadcast use vstd::multiset::group_multiset_axioms;

    if s.len() == 0 {
        assert(s.reverse() =~= s);
    } else {
        let t = s.drop_last();
        lemma_multiset_reverse(t);
        lemma_multiset_pop(s);
        assert(s.reverse() =~= seq![s.last()] + t.reverse());
        vstd::seq_lib::lemma_multiset_commutative(seq![s.last()], t.reverse());
        vstd::seq_lib::to_multiset_build(Seq::<T>::empty(), s.last());
        assert(Seq::<T>::empty().push(s.last()) =~= seq![s.last()]);
        vstd::seq_lib::to_multiset_len(Seq::<T>::empty());
        assert(s.reverse().to_multiset() =~= s.to_multiset());
    }
}

/// The two sorted sequences as one sorted sequence; both are given from the
/// largest to the smallest.
fn merge<T, F: Fn(&T, &T) -> bool>(
    a: Vec<T>,
    b: Vec<T>,
    le: &F,
    Ghost(leq): Ghost<spec_fn(T, T) -> bool>,
) -> (r: Vec<T>)
    requires
        total_preorder(leq),
        forall|x: &T, y: &T| le.requires((x, y)),
        forall|x: &T, y: &T, z: bool| le.ensures((x, y), z) ==> z == leq(*x, *y),
        sorted_down(a@, leq),
        sorted_down(b@, leq),
    ensures
        sorted_by(r@, leq),
        r@.to_multiset() == a@.to_multiset().add(b@.to_multiset()),
{
    broadcast use vstd::multiset::group_multiset_axioms;

    let ghost total = a@.to_multiset().add(b@.to_multiset());
    let mut a = a;
    let mut b = b;
    let mut out: Vec<T> = Vec::new();
    proof {
        vstd::seq_lib::to_multiset_len(out@);
        assert(out@.to_multiset() =~= Multiset::empty());
        assert(total =~= out@.to_multiset().add(a@.to_multiset()).add(b@.to_multiset()));
    }
    while a.len() > 0 || b.len() > 0
        invariant
            total_preorder(leq),
            forall|x: &T, y: &T| le.requires((x, y)),
            forall|x: &T, y: &T, z: bool| le.ensures((x, y), z) ==> z == leq(*x, *y),
            sorted_down(a@, leq),
            sorted_down(b@, leq),
            sorted_by(out@, leq),
            all_before(out@, a@, leq),
            all_before(out@, b@, leq),
            total == out@.to_multiset().add(a@.to_multiset()).add(b@.to_multiset()),
        decreases a.len() + b.len(),
    {
        let ghost old_out = out@;
        let ghost old_a = a@;
        let ghost old_b = b@;
        let from_a = if a.len() == 0 {
            false
        } else if b.len() == 0 {
            true
        } else {
            le(&a[a.len() - 1], &b[b.len() - 1])
        };
        let next = if from_a {
            a.pop()
        } else {
            b.pop()
        };
        match next {
            Some(x) => {
                proof {
                    if from_a {
                        lemma_multiset_pop(old_a);
                        assert(leq(x, x));
                        assert forall|j: int| 0 <= j < old_b.len() implies leq(
                            x,
                            #[trigger] old_b[j],
                        ) by {
                            assert(leq(x, old_b.last()));
                            if j < old_b.len() - 1 {
                                assert(leq(old_b[old_b.len() - 1], old_b[j]));
                            }
                        }
                    } else {
                        lemma_multiset_pop(old_b);
                        assert(leq(x, x));
                        assert forall|j: int| 0 <= j < old_a.len() implies leq(
                            x,
                            #[trigger] old_a[j],
                        ) by {
                            assert(leq(x, old_a.last()));
                            if j < old_a.len() - 1 {
                                assert(leq(old_a[old_a.len() - 1], old_a[j]));
                            }
                        }
                    }
                    vstd::seq_lib::to_multiset_build(old_out, x);
                }
                out.push(x);
                assert(total =~= out@.to_multiset().add(a@.to_multiset()).add(b@.to_multiset()));
            },
            None => {},
        }
    }
    proof {
        vstd::seq_lib::to_multiset_len(a@);
        vstd::seq_lib::to_multiset_len(b@);
        assert(a@.to_multiset() =~= Multiset::empty());
        assert(b@.to_multiset() =~= Multiset::empty());
        assert(total =~= out@.to_multiset());
    }
    out
}

/// The elements in the order that `le` gives.
pub fn sort_vec<T, F: Fn(&T, &T) -> bool>(
    v: Vec<T>,
    le: &F,
    Ghost(leq): Ghost<spec_fn(T, T) -> bool>,
) -> (r: Vec<T>)
    requires
        total_preorder(leq),
        forall|x: &T, y: &T| le.requires((x, y)),
        forall|x: &T, y: &T, z: bool| le.ensures((x, y), z) ==> z == leq(*x, *y),
    ensures
        sorted_by(r@, leq),
        r@.to_multiset() == v@.to_multiset(),
    decreases v.len(),
{
    if v.len() <= 1 {
        return v;
    }
    let ghost all = v@;
    let mut left = v;
    let half: usize = left.len() / 2;
    let right = left.split_off(half);
    proof {
        assert(left@ + right@ =~= all);
        vstd::seq_lib::lemma_multiset_commutative(left@, right@);
    }
    let a = sort_vec(left, le, Ghost(leq));
    let b = sort_vec(right, le, Ghost(leq));
    proof {
        lemma_multiset_reverse(a@);
        lemma_multiset_reverse(b@);
    }
    merge(reversed(a), reversed(b), le, Ghost(leq))
}

/// What is sorted is determined by its elements, where no two different ones
/// are ranked alike.
pub proof fn lemma_sorted_is_unique<T>(x: Seq<T>, y: Seq<T>, leq: spec_fn(T, T) -> bool)
    requires
        sorted_by(x, leq),
        sorted_by(y, leq),
        x.to_multiset() == y.to_multiset(),
        forall|a: T, b: T|
            x.contains(a) && x.contains(b) && #[trigger] leq(a, b) && #[trigger] leq(b, a) ==> a
                == b,
    ensures
        x == y,
    decreases x.len(),
{
    broadcast use vstd::multiset::group_multiset_axioms;

    vstd::seq_lib::to_multiset_len(x);
    vstd::seq_lib::to_multiset_len(y);
    assert(x.len() == y.len());
    if x.len() == 0 {
        assert(x =~= y);
    } else {
        let a = x.last();
        let b = y.last();
        vstd::seq_lib::to_multiset_contains(x, a);
        vstd::seq_lib::to_multiset_contains(y, a);
        vstd::seq_lib::to_multiset_contains(x, b);
        vstd::seq_lib::to_multiset_contains(y, b);
        assert(x[x.len() - 1] == a);
        assert(y[y.len() - 1] == b);
        let i = choose|i: int| 0 <= i < y.len() && y[i] == a;
        let j = choose|j: int| 0 <= j < x.len() && x[j] == b;
        assert(a == b) by {
            if i < y.len() - 1 && j < x.len() - 1 {
                assert(leq(y[i], y[y.len() - 1]));
                assert(leq(x[j], x[x.len() - 1]));
            }
        }
        lemma_multiset_pop(x);
        lemma_multiset_pop(y);
        let p = x.drop_last();
        let q = y.drop_last();
        assert(p.to_multiset() =~= q.to_multiset()) by {
            assert(p.to_multiset() =~= x.to_multiset().remove(a));
            assert(q.to_multiset() =~= y.to_multiset().remove(a));
        }
        assert forall|c: T, d: T|
            p.contains(c) && p.contains(d) && #[trigger] leq(c, d) && #[trigger] leq(
                d,
                c,
            ) implies c == d by {
            let k = choose|k: int| 0 <= k < p.len() && p[k] == c;
            let l = choose|l: int| 0 <= l < p.len() && p[l] == d;
            assert(x[k] == c && x[l] == d);
        }
        lemma_sorted_is_unique(p, q, leq);
        assert(x =~= p.push(a));
        assert(y =~= q.push(b));
    }
}

} // verus!
