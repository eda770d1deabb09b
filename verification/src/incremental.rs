//! Decisions of a mini-batch k-means update.

use vstd::prelude::*;
use crate::float_order::{float_lt, is_nan, lt, lemma_not_lt_transitive};
use crate::assignment::no_nan;

verus! {

/// The scan that keeps the lower of the current best and the next candidate,
/// moving to the candidate unless the current best is strictly lower (ties
/// and incomparable values go to the later candidate). Covers the first `k`
/// candidates, `k >= 1`.
pub open spec fn lowest_last_scan(inertias: Seq<u64>, k: nat) -> (int, u64)
    decreases k,
{
    if k <= 1 {
        (0, inertias[0])
    } else {
        let prev = lowest_last_scan(inertias, (k - 1) as nat);
        if !float_lt(prev.1, inertias[k - 1]) {
            (k - 1, inertias[k - 1])
        } else {
            prev
        }
    }
}

/// The index the selection of initial centroids picks.
pub open spec fn lowest_last_index(inertias: Seq<u64>) -> int {
    lowest_last_scan(inertias, inertias.len()).0
}

/// What the scan returns: an index in range with its own inertia; and, when no
/// inertia is NaN, a minimum of the scanned prefix that every later candidate
/// strictly exceeds (among equal minima the last one is picked).
pub proof fn lemma_lowest_last_scan(inertias: Seq<u64>, k: nat)
    requires
        1 <= k <= inertias.len(),
    ensures
        0 <= lowest_last_scan(inertias, k).0 < k,
        lowest_last_scan(inertias, k).1 == inertias[lowest_last_scan(inertias, k).0],
        no_nan(inertias) ==> forall|j: int|
            0 <= j < k ==> !float_lt(#[trigger] inertias[j], lowest_last_scan(inertias, k).1),
        no_nan(inertias) ==> forall|j: int|
            lowest_last_scan(inertias, k).0 < j < k ==> float_lt(
                lowest_last_scan(inertias, k).1,
                #[trigger] inertias[j],
            ),
    decreases k,
{
    if k > 1 {
        lemma_lowest_last_scan(inertias, (k - 1) as nat);
        let prev = lowest_last_scan(inertias, (k - 1) as nat);
        let cur = lowest_last_scan(inertias, k);
        if no_nan(inertias) {
            if !float_lt(prev.1, inertias[k - 1]) {
                assert forall|j: int| 0 <= j < k implies !float_lt(#[trigger] inertias[j], cur.1) by {
                    if j < k - 1 {
                        lemma_not_lt_transitive(inertias[j], prev.1, inertias[k - 1]);
                    }
                }
            } else {
                assert forall|j: int| 0 <= j < k implies !float_lt(#[trigger] inertias[j], cur.1) by {
                    if j == k - 1 {
                        assert(!is_nan(inertias[j]));
                    }
                }
            }
        }
    }
}

/// An initialisation run with an inertia strictly below all others is the
/// one selected.
pub proof fn lemma_strictly_lowest_is_selected(inertias: Seq<u64>, j: int)
    requires
        0 <= j < inertias.len(),
        forall|k: int| 0 <= k < inertias.len() && k != j ==> float_lt(inertias[j], #[trigger] inertias[k]),
    ensures
        lowest_last_index(inertias) == j,
{
    lemma_lowest_last_scan(inertias, inertias.len());
    if inertias.len() > 1 {
        assert(no_nan(inertias)) by {
            assert forall|k: int| 0 <= k < inertias.len() implies !is_nan(#[trigger] inertias[k]) by {
                if k != j {
                    assert(float_lt(inertias[j], inertias[k]));
                } else {
                    let other = if j == 0 { 1int } else { 0int };
                    assert(float_lt(inertias[j], inertias[other]));
                }
            }
        }
        let r = lowest_last_index(inertias);
        if r != j {
            assert(!float_lt(inertias[j], inertias[r]));
        }
    }
}

/// The selected run, NaNs included: every later inertia is strictly above
/// the selected one (else the selection would have moved on).
pub proof fn lemma_lowest_last_later(inertias: Seq<u64>)
    requires
        inertias.len() > 0,
    ensures
        0 <= lowest_last_index(inertias) < inertias.len(),
        forall|j: int|
            lowest_last_index(inertias) < j < inertias.len() ==> float_lt(
                inertias[lowest_last_index(inertias)],
                #[trigger] inertias[j],
            ),
{
    lemma_lowest_last_general(inertias, inertias.len());
}

proof fn lemma_lowest_last_general(inertias: Seq<u64>, k: nat)
    requires
        1 <= k <= inertias.len(),
    ensures
        0 <= lowest_last_scan(inertias, k).0 < k,
        lowest_last_scan(inertias, k).1 == inertias[lowest_last_scan(inertias, k).0],
        forall|j: int|
            lowest_last_scan(inertias, k).0 < j < k ==> float_lt(lowest_last_scan(inertias, k).1, #[trigger] inertias[j]),
    decreases k,
{
    if k > 1 {
        lemma_lowest_last_general(inertias, (k - 1) as nat);
    }
}

/// Picks, among the inertias of the initialisation runs, the run whose
/// centroids start the mini-batch model: the lowest inertia, the last one
/// among equals.
pub fn select_initial_run(inertias: &Vec<u64>) -> (best: usize)
    requires
        inertias.len() > 0,
    ensures
        best as int == lowest_last_index(inertias@),
        best < inertias.len(),
        no_nan(inertias@) ==> forall|j: int|
            0 <= j < inertias.len() ==> !float_lt(#[trigger] inertias@[j], inertias@[best as int]),
        no_nan(inertias@) ==> forall|j: int|
            best < j < inertias.len() ==> float_lt(inertias@[best as int], #[trigger] inertias@[j]),
{
    let n = inertias.len();
    let mut best: usize = 0;
    let mut lowest: u64 = inertias[0];
    let mut j: usize = 1;
    while j < n
        invariant
            n == inertias.len(),
            1 <= j <= n,
            (best as int, lowest) == lowest_last_scan(inertias@, j as nat),
        decreases n - j,
    {
        let candidate = inertias[j];
        if !lt(lowest, candidate) {
            best = j;
            lowest = candidate;
        }
        j = j + 1;
    }
    proof {
        lemma_lowest_last_scan(inertias@, inertias@.len());
    }
    best
}

/// Where the centroids of a new mini-batch model come from.
#[derive(Clone, Copy, Debug, PartialEq, Eq, Structural)]
pub enum InitialCentroids {
    /// The precomputed centroids, taken as they are.
    Precomputed,
    /// The centroids of this initialisation run.
    Drawn(usize),
}

/// Decides the centroids of a new mini-batch model: precomputed centroids are
/// used as they are; otherwise the initialisation run with the lowest
/// inertia on the batch (the last among equals) is taken.
pub fn choose_initial_centroids(precomputed: bool, drawn_inertias: &Vec<u64>) -> (choice: InitialCentroids)
    requires
        precomputed || drawn_inertias.len() > 0,
    ensures
        precomputed ==> choice == InitialCentroids::Precomputed,
        !precomputed ==> choice == InitialCentroids::Drawn(lowest_last_index(drawn_inertias@) as usize),
        choice matches InitialCentroids::Drawn(k) ==> k < drawn_inertias.len(),
{
    if precomputed {
        InitialCentroids::Precomputed
    } else {
        InitialCentroids::Drawn(select_initial_run(drawn_inertias))
    }
}

/// The cluster counts of a new mini-batch model: zero for each cluster.
pub fn new_model_counts(n_clusters: usize) -> (counts: Vec<u64>)
    ensures
        counts@ == Seq::new(n_clusters as nat, |_k: int| 0u64),
{
    let mut counts: Vec<u64> = Vec::new();
    for k in 0..n_clusters
        invariant
            counts@ =~= Seq::new(k as nat, |_j: int| 0u64),
    {
        counts.push(0);
    }
    counts
}

} // verus!
