//! Descending ranking of scored items.
//!
//! Scores enter as order keys: unsigned integers whose order agrees with the
//! order of the original scores.  Ranking returns a permutation of the item
//! indices, sorted by key descending, ties broken by ascending index, which
//! makes the result unique.

use vstd::prelude::*;
use vstd::multiset::Multiset;
use vstd::seq_lib::to_multiset_build;
use vstd::seq_lib::to_multiset_insert;

verus! {

/// Item `a` comes strictly before item `b`: its key is larger, or the keys
/// are equal and `a` is the smaller index.
pub open spec fn strictly_precedes(keys: Seq<u64>, a: int, b: int) -> bool {
    keys[a] > keys[b] || (keys[a] == keys[b] && a < b)
}

/// The sequence of indices `0, 1, ..., n-1`.
pub open spec fn index_seq(n: nat) -> Seq<usize> {
    Seq::new(n, |i: int| i as usize)
}

/// `order` ranks all of `keys`: it is a permutation of the item indices,
/// sorted so that scores never increase, equal scores keeping index order.
pub open spec fn ranking_of(keys: Seq<u64>, order: Seq<usize>) -> bool {
    &&& order.len() == keys.len()
    &&& forall|i: int| 0 <= i < order.len() ==> (#[trigger] order[i]) < keys.len()
    &&& forall|i: int, j: int|
        #![trigger order[i], order[j]]
        0 <= i < j < order.len() ==> strictly_precedes(keys, order[i] as int, order[j] as int)
    &&& order.to_multiset() == index_seq(keys.len()).to_multiset()
}

/// How often `k` occurs among the indices `0..n`: once if `k < n`, else never.
pub proof fn lemma_index_seq_count(n: nat, k: usize)
    requires
        n <= usize::MAX,
    ensures
        index_seq(n).to_multiset().count(k) == if (k as nat) < n {
            1nat
        } else {
            0nat
        },
    decreases n,
{
    broadcast use vstd::multiset::group_multiset_axioms;
    broadcast use vstd::seq_lib::group_to_multiset_ensures;

    if n == 0 {
        assert(index_seq(0) =~= Seq::<usize>::empty());
        assert(index_seq(0).to_multiset().len() == 0);
        assert(index_seq(0).to_multiset().count(k) == 0);
    } else {
        lemma_index_seq_count((n - 1) as nat, k);
        assert(index_seq(n) =~= index_seq((n - 1) as nat).push((n - 1) as usize));
        to_multiset_build(index_seq((n - 1) as nat), (n - 1) as usize);
        assert(index_seq(n).to_multiset() =~= index_seq((n - 1) as nat).to_multiset().insert(
            (n - 1) as usize,
        ));
        if k as nat == n - 1 {
            assert(index_seq(n).to_multiset().count(k) == index_seq(
                (n - 1) as nat,
            ).to_multiset().count(k) + 1);
        } else {
            assert(index_seq(n).to_multiset().count(k) == index_seq(
                (n - 1) as nat,
            ).to_multiset().count(k));
        }
    }
}

/// Every item index appears in a ranking, and it appears only once.
pub proof fn lemma_ranking_is_permutation(keys: Seq<u64>, order: Seq<usize>)
    requires
        ranking_of(keys, order),
        keys.len() <= usize::MAX,
    ensures
        forall|k: usize| (k as int) < keys.len() ==> order.contains(k),
        forall|i: int, j: int| 0 <= i < j < order.len() ==> order[i] != order[j],
{
    broadcast use vstd::multiset::group_multiset_axioms;
    broadcast use vstd::seq_lib::group_to_multiset_ensures;

    assert forall|k: usize| (k as int) < keys.len() implies order.contains(k) by {
        lemma_index_seq_count(keys.len(), k);
        assert(order.to_multiset().count(k) == 1);
    }
    assert forall|i: int, j: int| 0 <= i < j < order.len() implies order[i] != order[j] by {
        if order[i] == order[j] {
            assert(strictly_precedes(keys, order[i] as int, order[j] as int));
        }
    }
}

/// Rank every item of `keys` by key descending, equal keys by index ascending.
///
/// The result lists each item index exactly once; walking it visits the
/// scores in non-increasing order.
pub fn rank_descending(keys: &Vec<u64>) -> (order: Vec<usize>)
    ensures
        ranking_of(keys@, order@),
{
    broadcast use to_multiset_build;
    broadcast use to_multiset_insert;

    let n = keys.len();
    let mut order: Vec<usize> = Vec::new();
    assert(order@.to_multiset() =~= index_seq(0).to_multiset()) by {
        assert(index_seq(0) =~= Seq::<usize>::empty());
        assert(order@ =~= Seq::<usize>::empty());
    }
    for idx in 0..n
        invariant
            n == keys@.len(),
            order@.len() == idx,
            forall|i: int| 0 <= i < order@.len() ==> (#[trigger] order@[i]) < idx,
            forall|i: int, j: int|
                #![trigger order@[i], order@[j]]
                0 <= i < j < order@.len() ==> strictly_precedes(
                    keys@,
                    order@[i] as int,
                    order@[j] as int,
                ),
            order@.to_multiset() == index_seq(idx as nat).to_multiset(),
    {
        let ghost prev = order@;
        let mut p: usize = 0;
        while p < order.len() && keys[order[p]] >= keys[idx]
            invariant
                n == keys@.len(),
                idx < n,
                order@ == prev,
                order@.len() == idx,
                forall|i: int| 0 <= i < order@.len() ==> (#[trigger] order@[i]) < idx,
                0 <= p <= order@.len(),
                forall|q: int| 0 <= q < p ==> keys@[#[trigger] order@[q] as int] >= keys@[idx as int],
            decreases order@.len() - p,
        {
            p = p + 1;
        }
        order.insert(p, idx);
        proof {
            assert(order@ == prev.insert(p as int, idx));
            assert(index_seq((idx + 1) as nat) =~= index_seq(idx as nat).push(idx));
            to_multiset_insert(prev, p as int, idx);
            to_multiset_build(index_seq(idx as nat), idx);
            assert(order@.to_multiset() =~= index_seq((idx + 1) as nat).to_multiset());
            assert forall|i: int, j: int|
                #![trigger order@[i], order@[j]]
                0 <= i < j < order@.len() implies strictly_precedes(
                keys@,
                order@[i] as int,
                order@[j] as int,
            ) by {
                if i < p && j == p {
                    assert(order@[i] == prev[i]);
                    assert(keys@[prev[i] as int] >= keys@[idx as int]);
                    assert(prev[i] < idx);
                } else if i == p && j > p {
                    assert(order@[j] == prev[j - 1]);
                    assert(keys@[idx as int] > keys@[prev[p as int] as int]);
                    if j - 1 > p {
                        assert(strictly_precedes(keys@, prev[p as int] as int, prev[j - 1] as int));
                    }
                } else if i < p && j > p {
                    assert(order@[i] == prev[i] && order@[j] == prev[j - 1]);
                    assert(strictly_precedes(keys@, prev[i] as int, prev[j - 1] as int));
                } else if j < p || (i > p && j > p) {
                    assert(order@[i] == prev[i] || order@[i] == prev[i - 1]);
                }
            }
        }
    }
    order
}

/// Sort monotonicity: along any ranking, the scores never increase — a
/// later entry never carries a larger key, and equal keys keep index order.
pub proof fn lemma_ranking_scores_nonincreasing(keys: Seq<u64>, order: Seq<usize>)
    requires
        ranking_of(keys, order),
    ensures
        forall|i: int, j: int|
            #![trigger order[i], order[j]]
            0 <= i < j < order.len() ==> keys[order[i] as int] >= keys[order[j] as int],
{
}

/// Result size of a rerank: the response ranks every document, no more and
/// no fewer — one entry per scored document.
pub proof fn lemma_rerank_result_size(keys: Seq<u64>, order: Seq<usize>)
    requires
        ranking_of(keys, order),
    ensures
        order.len() == keys.len(),
{
}

/// The first `top_k` entries of a ranking, or all of it when it is shorter.
pub fn select_top_k(order: &Vec<usize>, top_k: usize) -> (r: Vec<usize>)
    ensures
        r@.len() == if top_k <= order@.len() {
            top_k as int
        } else {
            order@.len() as int
        },
        r@ == order@.subrange(0, r@.len() as int),
{
    let take = if top_k <= order.len() {
        top_k
    } else {
        order.len()
    };
    let mut r: Vec<usize> = Vec::new();
    for i in 0..take
        invariant
            take <= order@.len(),
            r@ =~= order@.subrange(0, i as int),
    {
        r.push(order[i]);
        assert(r@ =~= order@.subrange(0, i + 1 as int));
    }
    r
}

/// Map a ranking of candidate positions back to the indices the candidates
/// stand for: entry `i` of the result is the candidate picked by `order[i]`.
pub fn compose_ranking(candidates: &Vec<usize>, order: &Vec<usize>) -> (r: Vec<usize>)
    requires
        forall|i: int| 0 <= i < order@.len() ==> (#[trigger] order@[i]) < candidates@.len(),
    ensures
        r@.len() == order@.len(),
        forall|i: int| 0 <= i < r@.len() ==> #[trigger] r@[i] == candidates@[order@[i] as int],
{
    let mut r: Vec<usize> = Vec::new();
    for i in 0..order.len()
        invariant
            forall|k: int| 0 <= k < order@.len() ==> (#[trigger] order@[k]) < candidates@.len(),
            r@.len() == i,
            forall|k: int| 0 <= k < i ==> #[trigger] r@[k] == candidates@[order@[k] as int],
    {
        r.push(candidates[order[i]]);
    }
    r
}

/// Start and end of each chunk when `n` items are worked through `chunk_size`
/// at a time: chunks cover `0..n` in order, each at most `chunk_size` long.
pub fn chunk_bounds(n: usize, chunk_size: usize) -> (chunks: Vec<(usize, usize)>)
    requires
        chunk_size >= 1,
    ensures
        chunks@.len() > 0 ==> chunks@[0].0 == 0,
        chunks@.len() > 0 ==> chunks@[chunks@.len() - 1].1 == n,
        n == 0 ==> chunks@.len() == 0,
        n > 0 ==> chunks@.len() > 0,
        forall|i: int| 0 <= i < chunks@.len() ==> (#[trigger] chunks@[i]).0 < chunks@[i].1,
        forall|i: int| 0 <= i < chunks@.len() ==> (#[trigger] chunks@[i]).1 <= n,
        forall|i: int|
            0 <= i < chunks@.len() ==> (#[trigger] chunks@[i]).1 - chunks@[i].0 <= chunk_size,
        forall|i: int|
            0 <= i < chunks@.len() - 1 ==> (#[trigger] chunks@[i]).1 - chunks@[i].0 == chunk_size,
        forall|i: int|
            0 < i < chunks@.len() ==> (#[trigger] chunks@[i]).0 == chunks@[i - 1].1,
{
    let mut chunks: Vec<(usize, usize)> = Vec::new();
    let mut start: usize = 0;
    while start < n
        invariant
            chunk_size >= 1,
            start <= n,
            start < n ==> (chunks@.len() > 0 ==> chunks@[chunks@.len() - 1].1 == start),
            start == n ==> (chunks@.len() > 0 ==> chunks@[chunks@.len() - 1].1 == n),
            chunks@.len() > 0 ==> chunks@[0].0 == 0,
            chunks@.len() > 0 ==> chunks@[chunks@.len() - 1].1 == start,
            start == 0 ==> chunks@.len() == 0,
            start > 0 ==> chunks@.len() > 0,
            forall|i: int| 0 <= i < chunks@.len() ==> (#[trigger] chunks@[i]).0 < chunks@[i].1,
            forall|i: int| 0 <= i < chunks@.len() ==> (#[trigger] chunks@[i]).1 <= n,
            forall|i: int|
                0 <= i < chunks@.len() ==> (#[trigger] chunks@[i]).1 - chunks@[i].0 <= chunk_size,
            forall|i: int|
                0 <= i < chunks@.len() - 1 ==> (#[trigger] chunks@[i]).1 - chunks@[i].0
                    == chunk_size,
            start < n ==> (forall|i: int|
                0 <= i < chunks@.len() ==> (#[trigger] chunks@[i]).1 - chunks@[i].0 == chunk_size),
            forall|i: int|
                0 < i < chunks@.len() ==> (#[trigger] chunks@[i]).0 == chunks@[i - 1].1,
        decreases n - start,
    {
        let end = if n - start <= chunk_size {
            n
        } else {
            start + chunk_size
        };
        chunks.push((start, end));
        start = end;
    }
    chunks
}

} // verus!
