//! Broadphase: O(n²) candidate-pair generation with bounding-box rejection.
//!
//! The bounding-box test itself is floating point and is made by the caller;
//! this module decides which pairs are examined, in which order, and which
//! of them go on to the narrowphase.
use vstd::prelude::*;

verus! {

/// `p` comes before `q` in row-major (lexicographic) order.
pub open spec fn pair_before(p: (usize, usize), q: (usize, usize)) -> bool {
    p.0 < q.0 || (p.0 == q.0 && p.1 < q.1)
}

/// `overlap` is an `n × n` table of bounding-box overlap results for `n`
/// bodies: `overlap[i][j]` says whether the boxes of bodies `i` and `j`
/// overlap.
pub open spec fn is_overlap_table(overlap: Seq<Vec<bool>>) -> bool {
    forall|i: int| 0 <= i < overlap.len() ==> #[trigger] overlap[i]@.len() == overlap.len()
}

/// The pair `(i, j)` is a candidate: `i < j`, both name bodies, and their
/// boxes overlap.
pub open spec fn is_candidate(overlap: Seq<Vec<bool>>, p: (usize, usize)) -> bool {
    &&& p.0 < p.1
    &&& p.1 < overlap.len()
    &&& overlap[p.0 as int]@[p.1 as int]
}

/// `pairs` lists exactly the candidate pairs of `overlap`, each once, in
/// row-major order.
pub open spec fn lists_candidates(overlap: Seq<Vec<bool>>, pairs: Seq<(usize, usize)>) -> bool {
    &&& forall|k: int| 0 <= k < pairs.len() ==> is_candidate(overlap, #[trigger] pairs[k])
    &&& forall|k1: int, k2: int|
        0 <= k1 < k2 < pairs.len() ==> pair_before(#[trigger] pairs[k1], #[trigger] pairs[k2])
    &&& forall|p: (usize, usize)| is_candidate(overlap, p) ==> #[trigger] pairs.contains(p)
}

/// All body-index pairs `(i, j)` with `i < j` whose bounding boxes overlap,
/// in row-major order. Pure: reads `overlap` only.
pub fn candidate_pairs(overlap: &Vec<Vec<bool>>) -> (pairs: Vec<(usize, usize)>)
    requires
        is_overlap_table(overlap@),
    ensures
        lists_candidates(overlap@, pairs@),
{
    let n = overlap.len();
    let mut pairs: Vec<(usize, usize)> = Vec::new();
    let mut i: usize = 0;
    while i < n
        invariant
            n == overlap@.len(),
            is_overlap_table(overlap@),
            i <= n,
            forall|k: int| 0 <= k < pairs@.len() ==> is_candidate(overlap@, #[trigger] pairs@[k]),
            forall|k: int| 0 <= k < pairs@.len() ==> (#[trigger] pairs@[k]).0 < i,
            forall|k1: int, k2: int|
                0 <= k1 < k2 < pairs@.len() ==> pair_before(
                    #[trigger] pairs@[k1],
                    #[trigger] pairs@[k2],
                ),
            forall|p: (usize, usize)|
                is_candidate(overlap@, p) && p.0 < i ==> #[trigger] pairs@.contains(p),
        decreases n - i,
    {
        let row = &overlap[i];
        assert(row@.len() == n);
        let mut j: usize = i + 1;
        while j < n
            invariant
                n == overlap@.len(),
                is_overlap_table(overlap@),
                i < n,
                i + 1 <= j <= n,
                row@ == overlap@[i as int]@,
                forall|k: int|
                    0 <= k < pairs@.len() ==> is_candidate(overlap@, #[trigger] pairs@[k]),
                forall|k: int|
                    0 <= k < pairs@.len() ==> pair_before(#[trigger] pairs@[k], (i, j)),
                forall|k1: int, k2: int|
                    0 <= k1 < k2 < pairs@.len() ==> pair_before(
                        #[trigger] pairs@[k1],
                        #[trigger] pairs@[k2],
                    ),
                forall|p: (usize, usize)|
                    is_candidate(overlap@, p) && pair_before(p, (i, j))
                        ==> #[trigger] pairs@.contains(p),
            decreases n - j,
        {
            if row[j] {
                let ghost before = pairs@;
                pairs.push((i, j));
                assert forall|p: (usize, usize)|
                    is_candidate(overlap@, p) && pair_before(p, (i, (j + 1) as usize))
                        implies #[trigger] pairs@.contains(p) by {
                    if p == (i, j) {
                        assert(pairs@[before.len() as int] == p);
                    } else {
                        assert(before.contains(p));
                        let k = choose|k: int| 0 <= k < before.len() && before[k] == p;
                        assert(pairs@[k] == p);
                    }
                }
            }
            j += 1;
        }
        i += 1;
    }
    pairs
}

} // verus!
