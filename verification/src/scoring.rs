use crate::ranking::signed_magnitude;
use vstd::prelude::*;

verus! {

/// A weighting kernel takes every term frequency of at least one together
/// with a document frequency that is at least one and below the number of
/// documents. It is never asked about a term that a document lacks, nor
/// about one that every document holds.
pub open spec fn weigh_accepts<W: Fn(usize, u64, usize) -> u64>(weigh: W) -> bool {
    forall|tf: usize, df: u64, n: usize|
        1 <= tf && 1 <= df < n ==> #[trigger] call_requires(weigh, (tf, df, n))
}

/// A similarity kernel takes every two weight vectors of one length neither
/// of which is a zero vector.
pub open spec fn cosine_accepts<C: Fn(&Vec<u64>, &Vec<u64>) -> u64>(cosine: C) -> bool {
    forall|query: Vec<u64>, doc: Vec<u64>|
        query.len() == doc.len() && !is_zero_vector(query@) && !is_zero_vector(doc@)
            ==> #[trigger] call_requires(cosine, (&query, &doc))
}

/// `weight` is the weight of a term that occurs `tf` times where `df` of `n`
/// documents hold it: zero if it does not occur, zero if every document
/// holds it, and otherwise what the kernel gives.
pub open spec fn cell_weighted<W: Fn(usize, u64, usize) -> u64>(
    weigh: W,
    tf: nat,
    df: nat,
    n: nat,
    weight: u64,
) -> bool {
    if tf == 0 || df == n {
        weight == 0
    } else {
        call_ensures(weigh, (tf as usize, df as u64, n as usize), weight)
    }
}

/// Every entry of `v` is zero, of either sign: the vector has no length.
pub open spec fn is_zero_vector(v: Seq<u64>) -> bool {
    forall|i: int| 0 <= i < v.len() ==> signed_magnitude(#[trigger] v[i]) == 0
}

/// `score` is the similarity of `query` and `doc`: zero if either is a zero
/// vector, and otherwise what the kernel gives.
pub open spec fn similar<C: Fn(&Vec<u64>, &Vec<u64>) -> u64>(
    cosine: C,
    query: Vec<u64>,
    doc: Vec<u64>,
    score: u64,
) -> bool {
    if is_zero_vector(query@) || is_zero_vector(doc@) {
        score == 0
    } else {
        call_ensures(cosine, (&query, &doc), score)
    }
}

/// Whether every entry of `v` is zero, of either sign.
pub fn zero_vector(v: &Vec<u64>) -> (zero: bool)
    ensures
        zero == is_zero_vector(v@),
{
    for i in 0..v.len()
        invariant
            forall|j: int| 0 <= j < i ==> signed_magnitude(#[trigger] v[j]) == 0,
    {
        if v[i] != 0 && v[i] != crate::ranking::SIGN {
            assert(signed_magnitude(v[i as int]) != 0);
            return false;
        }
    }
    true
}

} // verus!
