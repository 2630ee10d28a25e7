use vstd::prelude::*;

verus! {

/// The sign bit of a 64-bit floating-point number.
pub const SIGN: u64 = 0x8000_0000_0000_0000;

/// The value by which a score is ordered. A score is given as the 64 bits of
/// a floating-point number: a sign bit above 63 bits of magnitude. Among
/// numbers the order of these values is the numeric order, and both zeros
/// have the value 0. Every bit pattern has a value, so any two scores compare.
pub open spec fn signed_magnitude(bits: u64) -> int {
    if bits < SIGN {
        bits as int
    } else {
        -(bits - SIGN)
    }
}

/// A key that grows with the score.
pub fn score_key(bits: u64) -> (key: u64)
    ensures
        key == SIGN + signed_magnitude(bits),
{
    if bits < SIGN {
        bits + SIGN
    } else {
        SIGN - (bits - SIGN)
    }
}

/// Document `i` comes before document `j`: its score is higher, or the scores
/// are equal and it stands earlier in the corpus.
pub open spec fn precedes(scores: Seq<u64>, i: int, j: int) -> bool {
    signed_magnitude(scores[i]) > signed_magnitude(scores[j]) || (signed_magnitude(scores[i])
        == signed_magnitude(scores[j]) && i < j)
}

/// `order` lists document ids, each of them before all that follow it.
pub open spec fn in_rank_order(scores: Seq<u64>, order: Seq<int>) -> bool {
    &&& forall|k: int| 0 <= k < order.len() ==> 0 <= #[trigger] order[k] < scores.len()
    &&& forall|a: int, b: int|
        0 <= a < b < order.len() ==> precedes(scores, #[trigger] order[a], #[trigger] order[b])
}

/// `order` ranks all documents: by score from high to low, documents with
/// equal scores in corpus order.
pub open spec fn is_ranking(scores: Seq<u64>, order: Seq<int>) -> bool {
    order.len() == scores.len() && in_rank_order(scores, order)
}

/// The ranking of the documents with the given scores.
pub open spec fn ranking(scores: Seq<u64>) -> Seq<int> {
    choose|order: Seq<int>| is_ranking(scores, order)
}

/// Document ids as integers.
pub open spec fn ids_view(ids: Seq<usize>) -> Seq<int> {
    Seq::new(ids.len(), |k: int| ids[k] as int)
}

/// Merges two ranked runs, the first over ids below `mid`, the second over
/// ids from `mid` on.
fn merge_runs(
    scores: &Vec<u64>,
    left: &Vec<usize>,
    right: &Vec<usize>,
    lo: usize,
    mid: usize,
    hi: usize,
) -> (out: Vec<usize>)
    requires
        lo <= mid <= hi <= scores.len(),
        in_rank_order(scores@, ids_view(left@)),
        in_rank_order(scores@, ids_view(right@)),
        forall|k: int| 0 <= k < left.len() ==> lo <= #[trigger] left[k] < mid,
        forall|k: int| 0 <= k < right.len() ==> mid <= #[trigger] right[k] < hi,
    ensures
        out.len() == left.len() + right.len(),
        in_rank_order(scores@, ids_view(out@)),
        forall|k: int| 0 <= k < out.len() ==> lo <= #[trigger] out[k] < hi,
{
    let mut out: Vec<usize> = Vec::new();
    let mut a: usize = 0;
    let mut b: usize = 0;
    while a < left.len() || b < right.len()
        invariant
            lo <= mid <= hi <= scores.len(),
            in_rank_order(scores@, ids_view(left@)),
            in_rank_order(scores@, ids_view(right@)),
            forall|k: int| 0 <= k < left.len() ==> lo <= #[trigger] left[k] < mid,
            forall|k: int| 0 <= k < right.len() ==> mid <= #[trigger] right[k] < hi,
            a <= left.len(),
            b <= right.len(),
            out.len() == a + b,
            in_rank_order(scores@, ids_view(out@)),
            forall|k: int| 0 <= k < out.len() ==> lo <= #[trigger] out[k] < hi,
            forall|k: int, x: int|
                0 <= k < out.len() && a <= x < left.len() ==> precedes(
                    scores@,
                    #[trigger] out[k] as int,
                    #[trigger] left[x] as int,
                ),
            forall|k: int, y: int|
                0 <= k < out.len() && b <= y < right.len() ==> precedes(
                    scores@,
                    #[trigger] out[k] as int,
                    #[trigger] right[y] as int,
                ),
        decreases left.len() - a + right.len() - b,
    {
        let ghost before = out@;
        let take_left = if a >= left.len() {
            false
        } else if b >= right.len() {
            true
        } else {
            score_key(scores[left[a]]) >= score_key(scores[right[b]])
        };
        if take_left {
            let id = left[a];
            proof {
                assert forall|x: int| a < x < left.len() implies precedes(
                    scores@,
                    id as int,
                    #[trigger] left[x] as int,
                ) by {
                    assert(precedes(scores@, ids_view(left@)[a as int], ids_view(left@)[x]));
                }
                assert forall|y: int| b <= y < right.len() implies precedes(
                    scores@,
                    id as int,
                    #[trigger] right[y] as int,
                ) by {
                    if b < y {
                        assert(precedes(scores@, ids_view(right@)[b as int], ids_view(right@)[y]));
                    }
                }
            }
            out.push(id);
            a += 1;
        } else {
            let id = right[b];
            proof {
                assert forall|y: int| b < y < right.len() implies precedes(
                    scores@,
                    id as int,
                    #[trigger] right[y] as int,
                ) by {
                    assert(precedes(scores@, ids_view(right@)[b as int], ids_view(right@)[y]));
                }
                assert forall|x: int| a <= x < left.len() implies precedes(
                    scores@,
                    id as int,
                    #[trigger] left[x] as int,
                ) by {
                    if a < x {
                        assert(precedes(scores@, ids_view(left@)[a as int], ids_view(left@)[x]));
                    }
                }
            }
            out.push(id);
            b += 1;
        }
        proof {
            let now = ids_view(out@);
            assert forall|p: int, q: int| 0 <= p < q < now.len() implies precedes(
                scores@,
                #[trigger] now[p],
                #[trigger] now[q],
            ) by {
                if q < before.len() {
                    assert(precedes(scores@, ids_view(before)[p], ids_view(before)[q]));
                } else {
                    assert(out[p] == before[p]);
                }
            }
            assert forall|k: int| 0 <= k < now.len() implies 0 <= #[trigger] now[k]
                < scores.len() by {
                assert(lo <= out[k] < hi);
            }
        }
    }
    out
}

/// Ranks the documents `lo` up to `hi`.
fn rank_range(scores: &Vec<u64>, lo: usize, hi: usize) -> (out: Vec<usize>)
    requires
        lo <= hi <= scores.len(),
    ensures
        out.len() == hi - lo,
        in_rank_order(scores@, ids_view(out@)),
        forall|k: int| 0 <= k < out.len() ==> lo <= #[trigger] out[k] < hi,
    decreases hi - lo,
{
    if hi - lo == 0 {
        Vec::new()
    } else if hi - lo == 1 {
        let mut out: Vec<usize> = Vec::new();
        out.push(lo);
        out
    } else {
        let mid = lo + (hi - lo) / 2;
        let left = rank_range(scores, lo, mid);
        let right = rank_range(scores, mid, hi);
        merge_runs(scores, &left, &right, lo, mid, hi)
    }
}

/// The ids of all documents, ranked by their scores.
pub fn ranked_order(scores: &Vec<u64>) -> (order: Vec<usize>)
    ensures
        ids_view(order@) == ranking(scores@),
{
    let order = rank_range(scores, 0, scores.len());
    proof {
        assert(is_ranking(scores@, ids_view(order@)));
        law_ranking_unique(scores@, ids_view(order@), ranking(scores@));
    }
    order
}

/// A ranking lists every document once: none is left out and none is
/// repeated.
pub proof fn law_ranking_is_permutation(scores: Seq<u64>, order: Seq<int>)
    requires
        is_ranking(scores, order),
    ensures
        order.no_duplicates(),
        forall|i: int| 0 <= i < scores.len() ==> order.contains(i),
{
    assert forall|a: int, b: int| 0 <= a < order.len() && 0 <= b < order.len() && a
        != b implies order[a] != order[b] by {
        if a < b {
            assert(precedes(scores, order[a], order[b]));
        } else {
            assert(precedes(scores, order[b], order[a]));
        }
    }
    let all = vstd::set_lib::set_int_range(0, scores.len() as int);
    vstd::set_lib::lemma_int_range(0, scores.len() as int);
    order.unique_seq_to_set();
    vstd::seq_lib::seq_to_set_is_finite(order);
    assert(order.to_set().subset_of(all)) by {
        assert forall|i: int| order.to_set().contains(i) implies all.contains(i) by {
            let k = choose|k: int| 0 <= k < order.len() && order[k] == i;
            assert(0 <= order[k] < scores.len());
        }
    }
    vstd::set_lib::lemma_subset_equality(order.to_set(), all);
    assert forall|i: int| 0 <= i < scores.len() implies order.contains(i) by {
        assert(all.contains(i));
        assert(order.to_set().contains(i));
    }
}

/// The ranking of any scores has one entry per document and lists every
/// document exactly once.
pub proof fn law_ranking_lists_every_document(scores: Seq<u64>)
    ensures
        ranking(scores).len() == scores.len(),
        ranking(scores).no_duplicates(),
        forall|i: int| 0 <= i < scores.len() ==> ranking(scores).contains(i),
{
    law_ranking_exists(scores);
    law_ranking_is_permutation(scores, ranking(scores));
}

/// Documents that all have the same score are ranked in corpus order.
pub proof fn law_equal_scores_keep_corpus_order(scores: Seq<u64>)
    requires
        forall|i: int, j: int|
            0 <= i < scores.len() && 0 <= j < scores.len() ==> signed_magnitude(scores[i])
                == signed_magnitude(scores[j]),
    ensures
        ranking(scores) == Seq::new(scores.len(), |i: int| i),
{
    let corpus_order = Seq::new(scores.len(), |i: int| i);
    assert(is_ranking(scores, corpus_order));
    law_ranking_exists(scores);
    law_ranking_unique(scores, corpus_order, ranking(scores));
}

/// Scores determine their ranking: two rankings of the same scores are equal.
pub proof fn law_ranking_unique(scores: Seq<u64>, first: Seq<int>, second: Seq<int>)
    requires
        is_ranking(scores, first),
        is_ranking(scores, second),
    ensures
        first == second,
{
    law_ranking_is_permutation(scores, first);
    law_ranking_is_permutation(scores, second);
    assert forall|k: int| 0 <= k < first.len() implies first[k] == second[k] by {
        lemma_same_up_to(scores, first, second, k);
    }
    assert(first =~= second);
}

/// `order` with `id` put behind the last entry that comes before it.
spec fn placed(scores: Seq<u64>, order: Seq<int>, id: int) -> Seq<int>
    decreases order.len(),
{
    if order.len() == 0 || precedes(scores, order.last(), id) {
        order.push(id)
    } else {
        placed(scores, order.drop_last(), id).push(order.last())
    }
}

proof fn lemma_placed(scores: Seq<u64>, order: Seq<int>, id: int)
    requires
        in_rank_order(scores, order),
        0 <= id < scores.len(),
        forall|k: int| 0 <= k < order.len() ==> order[k] != id,
    ensures
        in_rank_order(scores, placed(scores, order, id)),
        placed(scores, order, id).len() == order.len() + 1,
        forall|k: int|
            0 <= k < placed(scores, order, id).len() ==> (#[trigger] placed(scores, order, id)[k])
                == id || order.contains(placed(scores, order, id)[k]),
    decreases order.len(),
{
    let out = placed(scores, order, id);
    if order.len() == 0 || precedes(scores, order.last(), id) {
        assert forall|a: int, b: int| 0 <= a < b < out.len() implies precedes(
            scores,
            #[trigger] out[a],
            #[trigger] out[b],
        ) by {
            if b == order.len() && a < order.len() - 1 {
                assert(precedes(scores, order[a], order[order.len() - 1]));
            }
        }
        assert forall|k: int| 0 <= k < out.len() implies (#[trigger] out[k]) == id
            || order.contains(out[k]) by {
            if k < order.len() {
                assert(order[k] == out[k]);
            }
        }
    } else {
        let init = order.drop_last();
        let last = order.last();
        let inner = placed(scores, init, id);
        assert(in_rank_order(scores, init)) by {
            assert forall|a: int, b: int| 0 <= a < b < init.len() implies precedes(
                scores,
                #[trigger] init[a],
                #[trigger] init[b],
            ) by {
                assert(precedes(scores, order[a], order[b]));
            }
        }
        lemma_placed(scores, init, id);
        assert(order[order.len() - 1] != id);
        assert forall|k: int| 0 <= k < inner.len() implies precedes(
            scores,
            #[trigger] inner[k],
            last,
        ) by {
            if inner[k] != id {
                let p = choose|p: int| 0 <= p < init.len() && init[p] == inner[k];
                assert(precedes(scores, order[p], order[order.len() - 1]));
            }
        }
        assert forall|k: int| 0 <= k < out.len() implies (#[trigger] out[k]) == id
            || order.contains(out[k]) by {
            if k < inner.len() {
                if inner[k] != id {
                    let p = choose|p: int| 0 <= p < init.len() && init[p] == inner[k];
                    assert(order[p] == out[k]);
                }
            } else {
                assert(order[order.len() - 1] == out[k]);
            }
        }
    }
}

/// The first `n` documents, ranked among themselves.
spec fn ranked_up_to(scores: Seq<u64>, n: nat) -> Seq<int>
    decreases n,
{
    if n == 0 {
        Seq::empty()
    } else {
        placed(scores, ranked_up_to(scores, (n - 1) as nat), n - 1)
    }
}

proof fn lemma_ranked_up_to(scores: Seq<u64>, n: nat)
    requires
        n <= scores.len(),
    ensures
        in_rank_order(scores, ranked_up_to(scores, n)),
        ranked_up_to(scores, n).len() == n,
        forall|k: int| 0 <= k < n ==> #[trigger] ranked_up_to(scores, n)[k] < n,
    decreases n,
{
    if n > 0 {
        let below = ranked_up_to(scores, (n - 1) as nat);
        lemma_ranked_up_to(scores, (n - 1) as nat);
        lemma_placed(scores, below, n - 1);
        let out = ranked_up_to(scores, n);
        assert forall|k: int| 0 <= k < n implies #[trigger] out[k] < n by {
            if out[k] != n - 1 {
                let p = choose|p: int| 0 <= p < below.len() && below[p] == out[k];
                assert(below[p] < n - 1);
            }
        }
    }
}

/// Whatever the scores, the documents have a ranking.
pub proof fn law_ranking_exists(scores: Seq<u64>)
    ensures
        is_ranking(scores, ranking(scores)),
{
    lemma_ranked_up_to(scores, scores.len());
    assert(is_ranking(scores, ranked_up_to(scores, scores.len())));
}

proof fn lemma_same_up_to(scores: Seq<u64>, first: Seq<int>, second: Seq<int>, k: int)
    requires
        is_ranking(scores, first),
        is_ranking(scores, second),
        forall|i: int| 0 <= i < scores.len() ==> first.contains(i),
        forall|i: int| 0 <= i < scores.len() ==> second.contains(i),
        0 <= k < first.len(),
    ensures
        first[k] == second[k],
    decreases k,
{
    let x = first[k];
    let y = second[k];
    if x != y {
        assert(0 <= x < scores.len() && 0 <= y < scores.len());
        if precedes(scores, x, y) {
            assert(second.contains(x));
            let p = choose|p: int| 0 <= p < second.len() && second[p] == x;
            if p > k {
                assert(precedes(scores, second[k], second[p]));
            } else {
                lemma_same_up_to(scores, first, second, p);
                assert(precedes(scores, first[p], first[k]));
            }
        } else {
            assert(first.contains(y));
            let q = choose|q: int| 0 <= q < first.len() && first[q] == y;
            if q > k {
                assert(precedes(scores, first[k], first[q]));
            } else {
                lemma_same_up_to(scores, first, second, q);
                assert(precedes(scores, second[q], second[k]));
            }
        }
    }
}

} // verus!
