use vstd::prelude::*;

verus! {

/// `i` holds the first strictly positive maximum of `scores`: no score exceeds it,
/// and every score before it is strictly smaller.
pub open spec fn is_first_best(scores: Seq<u64>, i: int) -> bool {
    &&& 0 <= i < scores.len()
    &&& scores[i] > 0
    &&& forall|j: int| 0 <= j < scores.len() ==> #[trigger] scores[j] <= scores[i]
    &&& forall|j: int| 0 <= j < i ==> #[trigger] scores[j] < scores[i]
}

/// Picks the cell with the largest score in scan order, the earliest one on ties.
/// A score of zero marks a cell without posterior mass; scores of non-negative
/// posteriors are their bit patterns, which order as the values do.
pub fn select_best(scores: &Vec<u64>) -> (r: Option<usize>)
    ensures
        r is None <==> forall|j: int| 0 <= j < scores.len() ==> #[trigger] scores@[j] == 0,
        r matches Some(i) ==> is_first_best(scores@, i as int),
{
    let mut best: Option<usize> = None;
    let mut best_score: u64 = 0;
    let mut k: usize = 0;
    while k < scores.len()
        invariant
            k <= scores.len(),
            best is None <==> best_score == 0,
            best is None ==> forall|j: int| 0 <= j < k ==> #[trigger] scores@[j] == 0,
            best matches Some(i) ==> i < k && scores@[i as int] == best_score,
            forall|j: int| 0 <= j < k ==> #[trigger] scores@[j] <= best_score,
            best matches Some(i) ==> forall|j: int| 0 <= j < i ==> #[trigger] scores@[j]
                < best_score,
        decreases scores.len() - k,
    {
        if scores[k] > best_score {
            best = Some(k);
            best_score = scores[k];
        }
        k += 1;
    }
    best
}

/// Ties are broken one way only: a sequence of scores has at most one first
/// strictly positive maximum, so the chosen cell is reproducible.
pub proof fn lemma_first_best_unique(scores: Seq<u64>, i: int, j: int)
    requires
        is_first_best(scores, i),
        is_first_best(scores, j),
    ensures
        i == j,
{
    if i < j {
        assert(scores[i] < scores[j]);
        assert(scores[i] >= scores[j]);
    } else if j < i {
        assert(scores[j] < scores[i]);
        assert(scores[j] >= scores[i]);
    }
}

} // verus!
