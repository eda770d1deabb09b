//! How many observations each cluster holds, as the update steps need it.

use vstd::prelude::*;
use crate::assignment::{closest_index, compute_cluster_memberships, lemma_assigned_distance_is_min_distance, rows_nonempty};

verus! {

/// Number of positions of `s` that hold the cluster index `k`.
pub open spec fn occurrences(s: Seq<usize>, k: int) -> nat
    decreases s.len(),
{
    if s.len() == 0 {
        0
    } else {
        occurrences(s.drop_last(), k) + (if s.last() == k { 1nat } else { 0nat })
    }
}

/// Sum of a sequence of counts.
pub open spec fn total(s: Seq<u64>) -> int
    decreases s.len(),
{
    if s.len() == 0 {
        0
    } else {
        total(s.drop_last()) + s.last()
    }
}

/// Whether every membership names one of `n_clusters` clusters.
pub open spec fn memberships_below(memberships: Seq<usize>, n_clusters: int) -> bool {
    forall|i: int| 0 <= i < memberships.len() ==> (#[trigger] memberships[i]) < n_clusters
}

/// `occurrences` counts exactly the positions holding `k`: it is the length
/// of the subsequence of elements equal to `k`.
pub proof fn lemma_occurrences_is_filter_len(s: Seq<usize>, k: int)
    ensures
        occurrences(s, k) == s.filter(|x: usize| x == k).len(),
    decreases s.len(),
{
    reveal_with_fuel(Seq::filter, 1);
    if s.len() > 0 {
        lemma_occurrences_is_filter_len(s.drop_last(), k);
    }
}

/// A prefix one longer counts one more occurrence of its last element.
pub proof fn lemma_occurrences_push(s: Seq<usize>, i: int, k: int)
    requires
        0 <= i < s.len(),
    ensures
        occurrences(s.take(i + 1), k) == occurrences(s.take(i), k) + (if s[i] == k { 1nat } else { 0nat }),
{
    assert(s.take(i + 1).drop_last() =~= s.take(i));
}

/// No value occurs more often than the sequence is long.
pub proof fn lemma_occurrences_bound(s: Seq<usize>, k: int)
    ensures
        occurrences(s, k) <= s.len(),
    decreases s.len(),
{
    if s.len() > 0 {
        lemma_occurrences_bound(s.drop_last(), k);
    }
}

/// Changing one entry changes the total by the difference.
pub proof fn lemma_total_update(s: Seq<u64>, k: int, v: u64)
    requires
        0 <= k < s.len(),
    ensures
        total(s.update(k, v)) == total(s) - s[k] + v,
    decreases s.len(),
{
    let t = s.update(k, v);
    if k == s.len() - 1 {
        assert(t.drop_last() =~= s.drop_last());
    } else {
        assert(t.drop_last() =~= s.drop_last().update(k, v));
        lemma_total_update(s.drop_last(), k, v);
    }
}

/// The total of `n` copies of `v`.
pub proof fn lemma_total_constant(n: nat, v: u64)
    ensures
        total(Seq::new(n, |_k: int| v)) == n * v,
    decreases n,
{
    if n > 0 {
        let s = Seq::new(n, |_k: int| v);
        assert(s.drop_last() =~= Seq::new((n - 1) as nat, |_k: int| v));
        lemma_total_constant((n - 1) as nat, v);
        assert(s.last() == v);
        assert(total(s) == total(s.drop_last()) + s.last());
        assert(n * v == (n - 1) * v + v) by (nonlinear_arith);
    } else {
        assert(n * v == 0) by (nonlinear_arith)
            requires
                n == 0,
        ;
    }
}

/// Adds one to each entry of `counts` named by a membership. Returns, for each
/// membership in order, the count of its cluster just after that membership
/// was added.
fn add_memberships(counts: &mut Vec<u64>, memberships: &Vec<usize>) -> (running: Vec<u64>)
    requires
        memberships_below(memberships@, old(counts).len() as int),
        forall|k: int| 0 <= k < old(counts).len() ==> #[trigger] old(counts)@[k] + memberships.len() <= u64::MAX,
    ensures
        final(counts).len() == old(counts).len(),
        forall|k: int|
            0 <= k < old(counts).len() ==> #[trigger] final(counts)@[k] == old(counts)@[k] + occurrences(memberships@, k),
        running.len() == memberships.len(),
        forall|i: int|
            0 <= i < memberships.len() ==> #[trigger] running@[i] == old(counts)@[memberships@[i] as int]
                + occurrences(memberships@.take(i + 1), memberships@[i] as int),
        total(final(counts)@) == total(old(counts)@) + memberships.len(),
{
    let ghost start = counts@;
    let mut running: Vec<u64> = Vec::new();
    let n = memberships.len();
    for i in 0..n
        invariant
            n == memberships.len(),
            counts.len() == start.len(),
            memberships_below(memberships@, start.len() as int),
            forall|k: int| 0 <= k < start.len() ==> #[trigger] start[k] + memberships.len() <= u64::MAX,
            forall|k: int|
                0 <= k < start.len() ==> #[trigger] counts@[k] == start[k] + occurrences(memberships@.take(i as int), k),
            running.len() == i,
            forall|j: int|
                0 <= j < i ==> #[trigger] running@[j] == start[memberships@[j] as int]
                    + occurrences(memberships@.take(j + 1), memberships@[j] as int),
            total(counts@) == total(start) + i,
    {
        let c = memberships[i];
        proof {
            lemma_occurrences_bound(memberships@.take(i as int), c as int);
            assert forall|k: int| 0 <= k < start.len() implies #[trigger] counts@[k] + (if memberships@[i as int] == k { 1int } else { 0int })
                == start[k] + occurrences(memberships@.take(i + 1), k) by {
                lemma_occurrences_push(memberships@, i as int, k);
            }
            lemma_total_update(counts@, c as int, (counts@[c as int] + 1) as u64);
        }
        let updated = counts[c] + 1;
        counts.set(c, updated);
        running.push(updated);
    }
    assert(memberships@.take(n as int) =~= memberships@);
    running
}

/// The number of observations in each of `n_clusters` clusters.
pub fn count_memberships(memberships: &Vec<usize>, n_clusters: usize) -> (counts: Vec<u64>)
    requires
        memberships_below(memberships@, n_clusters as int),
    ensures
        counts.len() == n_clusters,
        forall|k: int| 0 <= k < n_clusters ==> #[trigger] counts@[k] == occurrences(memberships@, k),
        total(counts@) == memberships.len(),
{
    let mut counts: Vec<u64> = Vec::new();
    for k in 0..n_clusters
        invariant
            counts@ =~= Seq::new(k as nat, |_j: int| 0u64),
    {
        counts.push(0);
    }
    proof {
        lemma_total_constant(n_clusters as nat, 0);
    }
    let _running = add_memberships(&mut counts, memberships);
    counts
}

/// The divisors of the m_k-means update: each cluster's observation count plus
/// one, since the old centroid is averaged in as one more point.
pub fn centroid_counts(memberships: &Vec<usize>, n_clusters: usize) -> (counts: Vec<u64>)
    requires
        memberships_below(memberships@, n_clusters as int),
        memberships.len() < u64::MAX,
    ensures
        counts.len() == n_clusters,
        forall|k: int| 0 <= k < n_clusters ==> #[trigger] counts@[k] == 1 + occurrences(memberships@, k),
        total(counts@) == memberships.len() + n_clusters,
{
    let mut counts: Vec<u64> = Vec::new();
    for k in 0..n_clusters
        invariant
            counts@ =~= Seq::new(k as nat, |_j: int| 1u64),
    {
        counts.push(1);
    }
    proof {
        lemma_total_constant(n_clusters as nat, 1);
    }
    let _running = add_memberships(&mut counts, memberships);
    counts
}

/// The count bookkeeping of a mini-batch update: adds each membership to its
/// cluster's running count and returns, for each observation in order, the
/// count its cluster has just after it, which is the weight the observation
/// gets in that cluster's moving average.
pub fn update_counts_incremental(counts: &mut Vec<u64>, memberships: &Vec<usize>) -> (divisors: Vec<u64>)
    requires
        memberships_below(memberships@, old(counts).len() as int),
        forall|k: int| 0 <= k < old(counts).len() ==> #[trigger] old(counts)@[k] + memberships.len() <= u64::MAX,
    ensures
        final(counts).len() == old(counts).len(),
        forall|k: int|
            0 <= k < old(counts).len() ==> #[trigger] final(counts)@[k] == old(counts)@[k] + occurrences(memberships@, k),
        forall|k: int| 0 <= k < old(counts).len() ==> #[trigger] final(counts)@[k] >= old(counts)@[k],
        divisors.len() == memberships.len(),
        forall|i: int|
            0 <= i < memberships.len() ==> #[trigger] divisors@[i] == old(counts)@[memberships@[i] as int]
                + occurrences(memberships@.take(i + 1), memberships@[i] as int),
        total(final(counts)@) == total(old(counts)@) + memberships.len(),
{
    add_memberships(counts, memberships)
}

/// The cluster each row of distances is assigned to: its closest centroid.
pub open spec fn assigned_clusters(rows: Seq<Vec<u64>>) -> Seq<usize> {
    Seq::new(rows.len(), |i: int| closest_index(rows[i]@) as usize)
}

/// The number of observations whose closest centroid is each of `n_clusters`
/// centroids, given the distances of the observations (rows) to the centroids
/// (columns).
pub fn count_assignments(rows: &Vec<Vec<u64>>, n_clusters: usize) -> (counts: Vec<u64>)
    requires
        rows_nonempty(rows@),
        forall|i: int| 0 <= i < rows.len() ==> (#[trigger] rows@[i])@.len() <= n_clusters,
    ensures
        counts.len() == n_clusters,
        forall|k: int| 0 <= k < n_clusters ==> #[trigger] counts@[k] == occurrences(assigned_clusters(rows@), k),
        total(counts@) == rows.len(),
{
    let memberships = compute_cluster_memberships(rows);
    proof {
        lemma_assigned_distance_is_min_distance(rows@);
        assert(memberships@ =~= assigned_clusters(rows@));
        assert forall|i: int| 0 <= i < memberships.len() implies (#[trigger] memberships@[i]) < n_clusters by {
            assert(memberships@[i] as int == closest_index(rows@[i]@));
        }
    }
    count_memberships(&memberships, n_clusters)
}

} // verus!
