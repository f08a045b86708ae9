//! How well an approximate search agrees with an exact one.

use crate::sort::sort_vec;
use vstd::prelude::*;
use vstd::relations::sorted_by;

verus! {

/// What was counted over some queries.
#[derive(Debug, Clone, Copy, PartialEq, Eq, Structural)]
pub struct Recall {
    /// Results that are among the exact ones.
    pub hits: usize,
    /// Exact results.
    pub total: usize,
    /// Queries whose first result is the exact first one.
    pub top1: usize,
}

impl Recall {
    /// Nothing counted yet.
    pub fn new() -> (r: Recall)
        ensures
            r == (Recall { hits: 0, total: 0, top1: 0 }),
    {
        Recall { hits: 0, total: 0, top1: 0 }
    }

    /// Counts one more query, with its exact results and those that were got.
    pub fn count(&mut self, truth: &[u64], got: &[u64])
        requires
            got@.len() > 0 ==> truth@.len() > 0,
            old(self).hits + got@.len() <= usize::MAX,
            old(self).total + truth@.len() <= usize::MAX,
            old(self).top1 < usize::MAX,
        ensures
            final(self).hits == old(self).hits + got@.filter(
                |id: u64| truth@.contains(id),
            ).len(),
            final(self).total == old(self).total + truth@.len(),
            final(self).top1 == old(self).top1 + (if got@.len() > 0 && got@[0] == truth@[0] {
                1int
            } else {
                0
            }),
    {
        let ghost exact = |id: u64| truth@.contains(id);
        let ghost start = self.hits;
        if got.len() > 0 && got[0] == truth[0] {
            self.top1 = self.top1 + 1;
        }
        let mut i: usize = 0;
        proof {
            crate::seqs::lemma_filter_ends(got@, exact);
        }
        while i < got.len()
            invariant
                i <= got.len(),
                start + got@.len() <= usize::MAX,
                exact == (|id: u64| truth@.contains(id)),
                start <= self.hits <= start + i,
                self.hits == start + got@.take(i as int).filter(exact).len(),
                self.total == old(self).total,
                self.top1 == old(self).top1 + (if got@.len() > 0 && got@[0] == truth@[0] {
                    1int
                } else {
                    0
                }),
            decreases got.len() - i,
        {
            proof {
                crate::seqs::lemma_filter_take(got@, i as int, exact);
            }
            if contains_id(truth, got[i]) {
                self.hits = self.hits + 1;
            }
            i += 1;
        }
        proof {
            crate::seqs::lemma_filter_ends(got@, exact);
        }
        self.total = self.total + truth.len();
    }
}

fn contains_id(list: &[u64], id: u64) -> (r: bool)
    ensures
        r == list@.contains(id),
{
    let mut i: usize = 0;
    while i < list.len()
        invariant
            i <= list.len(),
            forall|j: int| 0 <= j < i ==> list@[j] != id,
        decreases list.len() - i,
    {
        if list[i] == id {
            assert(list@[i as int] == id);
            return true;
        }
        i += 1;
    }
    false
}

/// Whether an item comes before another one, or is it: by its score from the
/// greatest down, and of equal scores by its number.
pub open spec fn ranks_before(a: (i64, u64), b: (i64, u64)) -> bool {
    a.0 > b.0 || (a.0 == b.0 && a.1 <= b.1)
}

/// The order in which items are ranked.
pub open spec fn ranking() -> spec_fn((i64, u64), (i64, u64)) -> bool {
    |a: (i64, u64), b: (i64, u64)| ranks_before(a, b)
}

/// The items with their scores.
pub open spec fn scored(scores: Seq<i64>) -> Seq<(i64, u64)> {
    Seq::new(scores.len(), |i: int| (scores[i], i as u64))
}

/// Whether `order` is the items from the best down.
pub open spec fn is_ranking(scores: Seq<i64>, order: Seq<(i64, u64)>) -> bool {
    sorted_by(order, ranking()) && order.to_multiset() == scored(scores).to_multiset()
}

/// There is only one order of items from the best down.
pub proof fn a_ranking_is_unique(scores: Seq<i64>, a: Seq<(i64, u64)>, b: Seq<(i64, u64)>)
    requires
        is_ranking(scores, a),
        is_ranking(scores, b),
    ensures
        a == b,
{
    let leq = ranking();
    assert forall|x: (i64, u64), y: (i64, u64)|
        a.contains(x) && a.contains(y) && #[trigger] leq(x, y) && #[trigger] leq(y, x) implies x
        == y by {}
    crate::sort::lemma_sorted_is_unique(a, b, leq);
}

/// The numbers of the `k` best items, from the best down. The scores are given
/// as integers in the same order.
pub fn exact_topk(scores: &[i64], k: usize) -> (r: Vec<u64>)
    ensures
        exists|order: Seq<(i64, u64)>| #[trigger]
            is_ranking(scores@, order) && r@.len() == (if k <= scores@.len() {
                k as int
            } else {
                scores@.len() as int
            }) && forall|i: int| 0 <= i < r@.len() ==> #[trigger] r@[i] == order[i].1,
{
    let mut items: Vec<(i64, u64)> = Vec::new();
    let mut i: usize = 0;
    while i < scores.len()
        invariant
            i <= scores.len(),
            items@ == scored(scores@).take(i as int),
        decreases scores.len() - i,
    {
        items.push((scores[i], i as u64));
        assert(items@ =~= scored(scores@).take(i + 1));
        i += 1;
    }
    assert(items@ =~= scored(scores@));
    let le = |a: &(i64, u64), b: &(i64, u64)| -> (r: bool)
        ensures
            r == ranks_before(*a, *b),
        { a.0 > b.0 || (a.0 == b.0 && a.1 <= b.1) };
    let sorted = sort_vec(items, &le, Ghost(ranking()));
    let ghost order = sorted@;
    proof {
        vstd::seq_lib::to_multiset_len(order);
        vstd::seq_lib::to_multiset_len(scored(scores@));
    }
    let mut out: Vec<u64> = Vec::new();
    let mut j: usize = 0;
    while j < sorted.len() && j < k
        invariant
            j <= sorted.len(),
            j <= k,
            out@.len() == j,
            forall|i: int| 0 <= i < j ==> #[trigger] out@[i] == sorted@[i].1,
        decreases sorted.len() - j,
    {
        out.push(sorted[j].1);
        j += 1;
    }
    assert(is_ranking(scores@, order));
    out
}

} // verus!
