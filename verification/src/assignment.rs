//! The assignment step: every observation goes to the centroid it is closest to.
//!
//! A distance matrix is given row by row: `dists[i][c]` is the bit pattern of the
//! squared euclidean distance between observation `i` and centroid `c`.

use vstd::prelude::*;
use crate::float_order::{float_lt, is_nan, lt, lemma_lt_transitive, lemma_lt_not_lt};

verus! {

/// The scan over the first `k` candidates of a row: it starts with candidate 0
/// and moves to candidate `j` whenever `row[j] < current minimum` (IEEE `<`).
/// Returns the chosen index and its distance.
pub open spec fn closest_scan(row: Seq<u64>, k: nat) -> (int, u64)
    decreases k,
{
    if k == 0 {
        (0, row[0])
    } else {
        let prev = closest_scan(row, (k - 1) as nat);
        if float_lt(row[k - 1], prev.1) {
            (k - 1, row[k - 1])
        } else {
            prev
        }
    }
}

/// Index of the closest centroid for a row of distances.
pub open spec fn closest_index(row: Seq<u64>) -> int {
    closest_scan(row, row.len()).0
}

/// Distance to the closest centroid for a row of distances.
pub open spec fn closest_distance(row: Seq<u64>) -> u64 {
    closest_scan(row, row.len()).1
}

/// Whether no entry of the row is a NaN.
pub open spec fn no_nan(row: Seq<u64>) -> bool {
    forall|j: int| 0 <= j < row.len() ==> !is_nan(#[trigger] row[j])
}

/// Whether every row holds at least one distance.
pub open spec fn rows_nonempty(rows: Seq<Vec<u64>>) -> bool {
    forall|i: int| 0 <= i < rows.len() ==> (#[trigger] rows[i])@.len() > 0
}

/// What the scan returns: an index in range together with its own distance;
/// and, when no distance is NaN, that distance is a minimum of the scanned
/// prefix, and every earlier index is strictly farther (ties go to the first).
pub proof fn lemma_closest_scan(row: Seq<u64>, k: nat)
    requires
        row.len() > 0,
        k <= row.len(),
    ensures
        0 <= closest_scan(row, k).0 < row.len(),
        closest_scan(row, k).0 == 0 || closest_scan(row, k).0 < k,
        closest_scan(row, k).1 == row[closest_scan(row, k).0],
        no_nan(row) ==> forall|j: int|
            0 <= j < k ==> !float_lt(#[trigger] row[j], closest_scan(row, k).1),
        no_nan(row) ==> forall|j: int|
            0 <= j < closest_scan(row, k).0 ==> float_lt(closest_scan(row, k).1, #[trigger] row[j]),
    decreases k,
{
    if k > 0 {
        lemma_closest_scan(row, (k - 1) as nat);
        let prev = closest_scan(row, (k - 1) as nat);
        let cur = closest_scan(row, k);
        if no_nan(row) {
            if float_lt(row[k - 1], prev.1) {
                assert forall|j: int| 0 <= j < k implies !float_lt(#[trigger] row[j], cur.1) by {
                    if j < k - 1 && float_lt(row[j], cur.1) {
                        lemma_lt_transitive(row[j], row[k - 1], prev.1);
                    }
                }
                assert forall|j: int| 0 <= j < cur.0 implies float_lt(cur.1, #[trigger] row[j]) by {
                    assert(!is_nan(row[j]));
                    lemma_lt_not_lt(row[k - 1], prev.1, row[j]);
                }
            } else {
                assert forall|j: int| 0 <= j < k implies !float_lt(#[trigger] row[j], cur.1) by {
                    if j == k - 1 {
                    }
                }
            }
        }
    }
}

/// The distance reported for an observation is its distance to the centroid
/// it is assigned to: summing the distances of the assigned centroids gives
/// the same inertia as summing the minimum distances.
pub proof fn lemma_assigned_distance_is_min_distance(rows: Seq<Vec<u64>>)
    requires
        rows_nonempty(rows),
    ensures
        forall|i: int|
            0 <= i < rows.len() ==> 0 <= closest_index(#[trigger] rows[i]@) < rows[i]@.len()
                && rows[i]@[closest_index(rows[i]@)] == closest_distance(rows[i]@),
{
    assert forall|i: int| 0 <= i < rows.len() implies 0 <= closest_index(#[trigger] rows[i]@) < rows[i]@.len()
        && rows[i]@[closest_index(rows[i]@)] == closest_distance(rows[i]@) by {
        lemma_closest_scan(rows[i]@, rows[i]@.len());
    }
}

/// Each observation goes to a nearest centroid: when no distance is NaN, no
/// centroid is strictly closer than the chosen one, and every centroid before
/// it is strictly farther.
pub proof fn lemma_closest_is_nearest(row: Seq<u64>)
    requires
        row.len() > 0,
        no_nan(row),
    ensures
        forall|j: int| 0 <= j < row.len() ==> !float_lt(#[trigger] row[j], closest_distance(row)),
        forall|j: int| 0 <= j < closest_index(row) ==> float_lt(closest_distance(row), #[trigger] row[j]),
{
    lemma_closest_scan(row, row.len());
}

/// A centroid strictly closer than all others is the one chosen, whatever
/// the order of the centroids.
pub proof fn lemma_strictly_nearest_is_chosen(row: Seq<u64>, j: int)
    requires
        0 <= j < row.len(),
        forall|k: int| 0 <= k < row.len() && k != j ==> float_lt(row[j], #[trigger] row[k]),
    ensures
        closest_index(row) == j,
{
    lemma_closest_scan(row, row.len());
    if row.len() > 1 {
        assert(no_nan(row)) by {
            assert forall|k: int| 0 <= k < row.len() implies !is_nan(#[trigger] row[k]) by {
                if k != j {
                    assert(float_lt(row[j], row[k]));
                } else {
                    let other = if j == 0 { 1int } else { 0int };
                    assert(float_lt(row[j], row[other]));
                }
            }
        }
    }
    let r = closest_index(row);
    if r != j {
        assert(!float_lt(row[j], row[r]));
    }
}

/// Which centroid is chosen, stated without the scan and NaNs included: a
/// NaN in the first place is kept (nothing compares below it); otherwise the
/// chosen distance is no NaN, no later distance is strictly below it, and
/// every earlier distance that is no NaN is strictly above it. Exactly one
/// index satisfies this (together with: a later choice than the first needs
/// a first distance that is no NaN), so the choice is determined by it.
pub proof fn lemma_closest_choice(row: Seq<u64>)
    requires
        row.len() > 0,
    ensures
        is_nan(row[0]) ==> closest_index(row) == 0,
        closest_index(row) > 0 ==> !is_nan(row[closest_index(row)]),
        forall|j: int| closest_index(row) < j < row.len() ==> !float_lt(#[trigger] row[j], row[closest_index(row)]),
        forall|j: int| 0 <= j < closest_index(row) ==> !is_nan(#[trigger] row[j]) ==> float_lt(row[closest_index(row)], row[j]),
        forall|r: int| #![trigger row[r]] 0 <= r < row.len() && (r == 0 || (!is_nan(row[r]) && !is_nan(row[0])))
            && (forall|j: int| r < j < row.len() ==> !float_lt(#[trigger] row[j], row[r]))
            && (forall|j: int| 0 <= j < r ==> !is_nan(#[trigger] row[j]) ==> float_lt(row[r], row[j]))
            ==> r == closest_index(row),
{
    lemma_closest_scan_general(row, row.len());
    let c = closest_index(row);
    assert forall|r: int| #![trigger row[r]] 0 <= r < row.len() && (r == 0 || (!is_nan(row[r]) && !is_nan(row[0])))
        && (forall|j: int| r < j < row.len() ==> !float_lt(#[trigger] row[j], row[r]))
        && (forall|j: int| 0 <= j < r ==> !is_nan(#[trigger] row[j]) ==> float_lt(row[r], row[j]))
        implies r == c by {
        if r < c {
            assert(!is_nan(row[c]));
            if is_nan(row[r]) {
                assert(r == 0);
            } else {
                assert(float_lt(row[c], row[r]));
                assert(!float_lt(row[c], row[r]));
            }
        } else if c < r {
            assert(!is_nan(row[r]));
            assert(!is_nan(row[0]));
            assert(c > 0 ==> !is_nan(row[c]));
            assert(!is_nan(row[c]));
            assert(float_lt(row[r], row[c]));
            assert(!float_lt(row[r], row[c]));
        }
    }
}

proof fn lemma_closest_scan_general(row: Seq<u64>, k: nat)
    requires
        row.len() > 0,
        k <= row.len(),
    ensures
        0 <= closest_scan(row, k).0 < row.len(),
        closest_scan(row, k).0 == 0 || closest_scan(row, k).0 < k,
        closest_scan(row, k).1 == row[closest_scan(row, k).0],
        is_nan(row[0]) ==> closest_scan(row, k).0 == 0,
        closest_scan(row, k).0 > 0 ==> !is_nan(closest_scan(row, k).1),
        forall|j: int| closest_scan(row, k).0 < j < k ==> !float_lt(#[trigger] row[j], closest_scan(row, k).1),
        forall|j: int| 0 <= j < closest_scan(row, k).0 ==> !is_nan(#[trigger] row[j]) ==> float_lt(closest_scan(row, k).1, row[j]),
    decreases k,
{
    if k > 0 {
        lemma_closest_scan_general(row, (k - 1) as nat);
        let prev = closest_scan(row, (k - 1) as nat);
        let cur = closest_scan(row, k);
        if float_lt(row[k - 1], prev.1) {
            if k - 1 > 0 {
                assert forall|j: int| 0 <= j < cur.0 && !is_nan(#[trigger] row[j]) implies float_lt(cur.1, row[j]) by {
                    {
                        if j == prev.0 {
                        } else if j < prev.0 {
                            lemma_lt_transitive(row[k - 1], prev.1, row[j]);
                        } else {
                            // prev.0 < j < k - 1: row[j] is not below prev.1
                            lemma_lt_not_lt(row[k - 1], prev.1, row[j]);
                        }
                    }
                }
            }
        }
    }
}

/// Returns the index of the closest centroid and its distance, scanning the
/// row from the first centroid and moving only on a strictly smaller distance.
pub fn closest_centroid(row: &Vec<u64>) -> (res: (usize, u64))
    requires
        row.len() > 0,
    ensures
        res.0 as int == closest_index(row@),
        res.1 == closest_distance(row@),
        res.0 < row.len(),
        res.1 == row@[res.0 as int],
        no_nan(row@) ==> forall|j: int| 0 <= j < row.len() ==> !float_lt(#[trigger] row@[j], res.1),
        no_nan(row@) ==> forall|j: int| 0 <= j < res.0 ==> float_lt(res.1, #[trigger] row@[j]),
{
    let mut closest: usize = 0;
    let mut minimum: u64 = row[0];
    let n = row.len();
    let mut j: usize = 0;
    while j < n
        invariant
            n == row.len(),
            n > 0,
            j <= n,
            (closest as int, minimum) == closest_scan(row@, j as nat),
        decreases n - j,
    {
        let d = row[j];
        if lt(d, minimum) {
            closest = j;
            minimum = d;
        }
        j = j + 1;
    }
    proof {
        lemma_closest_scan(row@, row@.len());
    }
    (closest, minimum)
}

/// Returns, for each row, the index of its closest centroid.
pub fn compute_cluster_memberships(rows: &Vec<Vec<u64>>) -> (memberships: Vec<usize>)
    requires
        rows_nonempty(rows@),
    ensures
        memberships.len() == rows.len(),
        forall|i: int| 0 <= i < rows.len() ==> memberships@[i] as int == closest_index(#[trigger] rows@[i]@),
{
    let mut memberships: Vec<usize> = Vec::new();
    let n = rows.len();
    for i in 0..n
        invariant
            n == rows.len(),
            rows_nonempty(rows@),
            memberships.len() == i,
            forall|k: int| 0 <= k < i ==> memberships@[k] as int == closest_index(#[trigger] rows@[k]@),
    {
        let (c, _d) = closest_centroid(&rows[i]);
        memberships.push(c);
    }
    memberships
}

/// Overwrites each membership with the index of the closest centroid of its row.
pub fn update_cluster_memberships(rows: &Vec<Vec<u64>>, memberships: &mut Vec<usize>)
    requires
        rows_nonempty(rows@),
        old(memberships).len() == rows.len(),
    ensures
        final(memberships).len() == rows.len(),
        forall|i: int| 0 <= i < rows.len() ==> final(memberships)@[i] as int == closest_index(#[trigger] rows@[i]@),
{
    let n = rows.len();
    for i in 0..n
        invariant
            n == rows.len(),
            rows_nonempty(rows@),
            memberships.len() == n,
            forall|k: int| 0 <= k < i ==> memberships@[k] as int == closest_index(#[trigger] rows@[k]@),
    {
        let (c, _d) = closest_centroid(&rows[i]);
        memberships.set(i, c);
    }
}

/// Overwrites each distance with the distance of its row to the closest centroid.
pub fn update_min_dists(rows: &Vec<Vec<u64>>, dists: &mut Vec<u64>)
    requires
        rows_nonempty(rows@),
        old(dists).len() == rows.len(),
    ensures
        final(dists).len() == rows.len(),
        forall|i: int| 0 <= i < rows.len() ==> final(dists)@[i] == closest_distance(#[trigger] rows@[i]@),
{
    let n = rows.len();
    for i in 0..n
        invariant
            n == rows.len(),
            rows_nonempty(rows@),
            dists.len() == n,
            forall|k: int| 0 <= k < i ==> dists@[k] == closest_distance(#[trigger] rows@[k]@),
    {
        let (_c, d) = closest_centroid(&rows[i]);
        dists.set(i, d);
    }
}

/// Both updates at once: each membership gets the closest centroid's index and
/// each distance the distance to it.
pub fn update_memberships_and_dists(
    rows: &Vec<Vec<u64>>,
    memberships: &mut Vec<usize>,
    dists: &mut Vec<u64>,
)
    requires
        rows_nonempty(rows@),
        old(memberships).len() == rows.len(),
        old(dists).len() == rows.len(),
    ensures
        final(memberships).len() == rows.len(),
        final(dists).len() == rows.len(),
        forall|i: int| 0 <= i < rows.len() ==> final(memberships)@[i] as int == closest_index(#[trigger] rows@[i]@),
        forall|i: int| 0 <= i < rows.len() ==> final(dists)@[i] == closest_distance(#[trigger] rows@[i]@),
{
    let n = rows.len();
    for i in 0..n
        invariant
            n == rows.len(),
            rows_nonempty(rows@),
            memberships.len() == n,
            dists.len() == n,
            forall|k: int| 0 <= k < i ==> memberships@[k] as int == closest_index(#[trigger] rows@[k]@),
            forall|k: int| 0 <= k < i ==> dists@[k] == closest_distance(#[trigger] rows@[k]@),
    {
        let (c, d) = closest_centroid(&rows[i]);
        memberships.set(i, c);
        dists.set(i, d);
    }
}

} // verus!
