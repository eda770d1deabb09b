use linfa_clustering::counting::{centroid_counts, count_memberships, update_counts_incremental};

#[test]
fn count_memberships_counts_each_cluster() {
    assert_eq!(count_memberships(&vec![0, 2, 2, 1, 2], 4), vec![1, 1, 3, 0]);
}

#[test]
fn count_memberships_empty() {
    assert_eq!(count_memberships(&vec![], 3), vec![0, 0, 0]);
    assert_eq!(count_memberships(&vec![], 0), Vec::<u64>::new());
}

#[test]
fn centroid_counts_add_one_per_cluster() {
    assert_eq!(centroid_counts(&vec![0, 2, 2, 1, 2], 4), vec![2, 2, 4, 1]);
    assert_eq!(centroid_counts(&vec![], 2), vec![1, 1]);
}

#[test]
fn incremental_counts_report_running_counts() {
    let mut counts = vec![3u64, 0, 1];
    let divisors = update_counts_incremental(&mut counts, &vec![0, 0, 1, 1]);
    assert_eq!(counts, vec![5, 2, 1]);
    assert_eq!(divisors, vec![4, 5, 1, 2]);
}

#[test]
fn incremental_counts_interleaved() {
    let mut counts = vec![10u64, 0];
    let divisors = update_counts_incremental(&mut counts, &vec![1, 0, 1, 0, 1]);
    assert_eq!(counts, vec![12, 3]);
    assert_eq!(divisors, vec![1, 11, 2, 12, 3]);
}
