use linfa_clustering::assignment::{
    closest_centroid, compute_cluster_memberships, update_cluster_memberships, update_memberships_and_dists,
    update_min_dists,
};

fn bits(row: &[f64]) -> Vec<u64> {
    row.iter().map(|x| x.to_bits()).collect()
}

#[test]
fn closest_centroid_picks_smallest() {
    let (i, d) = closest_centroid(&bits(&[4.0, 1.0, 3.0, 2.0]));
    assert_eq!(i, 1);
    assert_eq!(f64::from_bits(d), 1.0);
}

#[test]
fn closest_centroid_keeps_first_of_ties() {
    let (i, d) = closest_centroid(&bits(&[4.0, 2.0, 3.0, 2.0, 2.0]));
    assert_eq!(i, 1);
    assert_eq!(f64::from_bits(d), 2.0);
}

#[test]
fn closest_centroid_zeros_tie() {
    let (i, _) = closest_centroid(&bits(&[1.0, 0.0, -0.0]));
    assert_eq!(i, 1);
}

#[test]
fn closest_centroid_single_centroid() {
    assert_eq!(closest_centroid(&bits(&[7.5])), (0, 7.5f64.to_bits()));
}

#[test]
fn closest_centroid_leading_nan_is_kept() {
    // Nothing compares below NaN, so a NaN in the first position stays chosen.
    let (i, d) = closest_centroid(&bits(&[f64::NAN, 1.0, 0.5]));
    assert_eq!(i, 0);
    assert!(f64::from_bits(d).is_nan());
}

#[test]
fn closest_centroid_skips_later_nan() {
    let (i, _) = closest_centroid(&bits(&[3.0, f64::NAN, 0.5]));
    assert_eq!(i, 2);
}

#[test]
fn memberships_and_dists_agree() {
    let rows = vec![bits(&[5.0, 1.0, 9.0]), bits(&[0.0, 2.0, 0.0]), bits(&[8.0, 8.0, 7.0])];
    let memberships = compute_cluster_memberships(&rows);
    assert_eq!(memberships, vec![1, 0, 2]);

    let mut m2 = vec![9usize; 3];
    update_cluster_memberships(&rows, &mut m2);
    assert_eq!(m2, memberships);

    let mut d = vec![0u64; 3];
    update_min_dists(&rows, &mut d);
    assert_eq!(d, bits(&[1.0, 0.0, 7.0]));

    let mut m3 = vec![0usize; 3];
    let mut d3 = vec![0u64; 3];
    update_memberships_and_dists(&rows, &mut m3, &mut d3);
    assert_eq!(m3, memberships);
    assert_eq!(d3, d);
    // The inertia of the assigned centroids equals the sum of the minimum distances.
    let assigned: f64 = (0..3).map(|i| f64::from_bits(rows[i][m3[i]])).sum();
    let minimum: f64 = d3.iter().map(|x| f64::from_bits(*x)).sum();
    assert_eq!(assigned, minimum);
}

#[test]
fn memberships_of_no_observations() {
    let rows: Vec<Vec<u64>> = vec![];
    assert_eq!(compute_cluster_memberships(&rows), Vec::<usize>::new());
}
