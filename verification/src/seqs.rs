//! Small operations on vectors, and facts about sequences.

use vstd::prelude::*;

verus! {

/// The elements in the opposite order.
pub fn reversed<T>(v: Vec<T>) -> (r: Vec<T>)
    ensures
        r@ == v@.reverse(),
{
    let ghost all = v@;
    let mut rest = v;
    let mut out: Vec<T> = Vec::new();
    while rest.len() > 0
        invariant
            rest.len() <= all.len(),
            rest@ == all.take(rest.len() as int),
            out.len() == all.len() - rest.len(),
            forall|i: int| 0 <= i < out.len() ==> #[trigger] out@[i] == all[all.len() - 1 - i],
        decreases rest.len(),
    {
        match rest.pop() {
            Some(x) => out.push(x),
            None => {},
        }
        assert(rest@ =~= all.take(rest.len() as int));
    }
    assert(out@ =~= all.reverse());
    out
}

/// What a filter keeps of one element more.
pub proof fn lemma_filter_take<T>(s: Seq<T>, i: int, keep: spec_fn(T) -> bool)
    requires
        0 <= i < s.len(),
    ensures
        s.take(i + 1).filter(keep) == (if keep(s[i]) {
            s.take(i).filter(keep).push(s[i])
        } else {
            s.take(i).filter(keep)
        }),
{
    reveal(Seq::filter);
    assert(s.take(i + 1).drop_last() =~= s.take(i));
}

/// A filter keeps nothing of nothing, and everything is the first `len`
/// elements.
pub proof fn lemma_filter_ends<T>(s: Seq<T>, keep: spec_fn(T) -> bool)
    ensures
        s.take(0).filter(keep) == Seq::<T>::empty(),
        s.take(s.len() as int) == s,
{
    reveal(Seq::filter);
    assert(s.take(0) =~= Seq::<T>::empty());
    assert(s.take(s.len() as int) =~= s);
}

/// What a filter keeps are the elements that meet it.
pub proof fn lemma_filter_contains<T>(s: Seq<T>, keep: spec_fn(T) -> bool, x: T)
    ensures
        s.filter(keep).contains(x) <==> s.contains(x) && keep(x),
    decreases s.len(),
{
    reveal(Seq::filter);
    if s.len() > 0 {
        let t = s.drop_last();
        lemma_filter_contains(t, keep, x);
        assert(s =~= t.push(s.last()));
        if s.contains(x) {
            let i = choose|i: int| 0 <= i < s.len() && s[i] == x;
            if i < t.len() {
                assert(t[i] == x);
            }
        }
        if t.contains(x) {
            let i = choose|i: int| 0 <= i < t.len() && t[i] == x;
            assert(s[i] == x);
        }
        assert(s[s.len() - 1] == s.last());
        let f = t.filter(keep);
        if keep(s.last()) {
            assert(s.filter(keep) == f.push(s.last()));
            assert(f.push(s.last())[f.len() as int] == s.last());
            if f.contains(x) {
                let i = choose|i: int| 0 <= i < f.len() && f[i] == x;
                assert(f.push(s.last())[i] == x);
            }
        }
    }
}

/// A filter that every element meets keeps everything.
pub proof fn lemma_filter_all<T>(s: Seq<T>, keep: spec_fn(T) -> bool)
    requires
        forall|i: int| 0 <= i < s.len() ==> keep(#[trigger] s[i]),
    ensures
        s.filter(keep) == s,
    decreases s.len(),
{
    reveal(Seq::filter);
    if s.len() > 0 {
        let t = s.drop_last();
        assert forall|i: int| 0 <= i < t.len() implies keep(#[trigger] t[i]) by {
            assert(t[i] == s[i]);
        }
        lemma_filter_all(t, keep);
        assert(s =~= t.push(s.last()));
    } else {
        assert(s =~= Seq::empty());
    }
}

/// Of two filters, one after the other, the stricter one decides.
pub proof fn lemma_filter_twice<T>(s: Seq<T>, p: spec_fn(T) -> bool, q: spec_fn(T) -> bool)
    requires
        forall|x: T| #[trigger] q(x) ==> p(x),
    ensures
        s.filter(p).filter(q) == s.filter(q),
    decreases s.len(),
{
    reveal(Seq::filter);
    if s.len() > 0 {
        let t = s.drop_last();
        lemma_filter_twice(t, p, q);
        if p(s.last()) {
            let f = t.filter(p);
            assert(s.filter(p) == f.push(s.last()));
            assert(f.push(s.last()).drop_last() =~= f);
        }
    } else {
        assert(s.filter(p) =~= Seq::empty());
    }
}

/// The elements at the wanted places, in their order.
pub open spec fn selected<T>(s: Seq<T>, wanted: spec_fn(int) -> bool) -> Seq<T>
    decreases s.len(),
{
    if s.len() == 0 {
        Seq::empty()
    } else {
        let before = selected(s.drop_last(), wanted);
        if wanted(s.len() - 1) {
            before.push(s.last())
        } else {
            before
        }
    }
}

/// What is selected are the elements at the wanted places.
pub proof fn lemma_selected_contains<T>(s: Seq<T>, wanted: spec_fn(int) -> bool, x: T)
    ensures
        selected(s, wanted).contains(x) <==> exists|i: int|
            0 <= i < s.len() && #[trigger] s[i] == x && wanted(i),
    decreases s.len(),
{
    if s.len() > 0 {
        let t = s.drop_last();
        let before = selected(t, wanted);
        let after = selected(s, wanted);
        let last = s.len() - 1;
        lemma_selected_contains(t, wanted, x);
        if after.contains(x) {
            let k = choose|k: int| 0 <= k < after.len() && after[k] == x;
            if k < before.len() {
                assert(before[k] == x);
                let i = choose|i: int| 0 <= i < t.len() && #[trigger] t[i] == x && wanted(i);
                assert(s[i] == x);
            } else {
                assert(s[last] == x);
            }
        }
        if exists|i: int| 0 <= i < s.len() && #[trigger] s[i] == x && wanted(i) {
            let i = choose|i: int| 0 <= i < s.len() && #[trigger] s[i] == x && wanted(i);
            if i < last {
                assert(t[i] == x);
                let k = choose|k: int| 0 <= k < before.len() && before[k] == x;
                assert(after[k] == x);
            } else {
                assert(after[before.len() as int] == x);
            }
        }
    }
}

/// The place that each selected element comes from.
pub proof fn lemma_selected_places<T>(s: Seq<T>, wanted: spec_fn(int) -> bool) -> (places: Seq<int>)
    ensures
        places.len() == selected(s, wanted).len(),
        forall|k: int|
            0 <= k < places.len() ==> 0 <= #[trigger] places[k] < s.len() && wanted(places[k])
                && s[places[k]] == selected(s, wanted)[k],
        forall|k: int, l: int| 0 <= k < l < places.len() ==> places[k] < places[l],
    decreases s.len(),
{
    if s.len() == 0 {
        Seq::empty()
    } else {
        let t = s.drop_last();
        let before = lemma_selected_places(t, wanted);
        if wanted(s.len() - 1) {
            before.push(s.len() - 1)
        } else {
            before
        }
    }
}

} // verus!
