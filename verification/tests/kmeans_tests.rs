use linfa_clustering::assignment::{compute_cluster_memberships, update_memberships_and_dists, update_min_dists};
use linfa_clustering::counting::{centroid_counts, count_assignments, count_memberships, update_counts_incremental};
use linfa_clustering::fit::{FitControl, FitEvent, FitNext};
use linfa_clustering::float_order::lt;
use ndarray::{concatenate, Array, Array1, Array2, Axis, Zip};
use ndarray_rand::rand::{Rng, SeedableRng};
use ndarray_rand::rand_distr::Uniform;
use ndarray_rand::RandomExt;
use rand_isaac::Isaac64Rng;

fn mat(rows: &[&[f64]]) -> Array2<f64> {
    let ncols = rows[0].len();
    let flat: Vec<f64> = rows.iter().flat_map(|r| r.iter().copied()).collect();
    Array2::from_shape_vec((rows.len(), ncols), flat).unwrap()
}

fn sq_dist(a: ndarray::ArrayView1<f64>, b: ndarray::ArrayView1<f64>) -> f64 {
    a.iter().zip(b.iter()).map(|(x, y)| (x - y) * (x - y)).sum()
}

fn distance_rows(centroids: &Array2<f64>, observations: &Array2<f64>) -> Vec<Vec<u64>> {
    observations
        .rows()
        .into_iter()
        .map(|o| centroids.rows().into_iter().map(|c| sq_dist(c, o).to_bits()).collect())
        .collect()
}

fn assert_close(a: &Array2<f64>, b: &Array2<f64>, eps: f64) {
    assert_eq!(a.dim(), b.dim());
    for (x, y) in a.iter().zip(b.iter()) {
        assert!((x - y).abs() <= eps, "{} vs {}", x, y);
    }
}

/// The m_k-means update: sums of the members plus the old centroid, divided by
/// the counts the library computes.
fn compute_centroids(old: &Array2<f64>, observations: &Array2<f64>, memberships: &Vec<usize>) -> Array2<f64> {
    let counts = centroid_counts(memberships, old.nrows());
    let mut centroids = old.clone();
    for (i, o) in observations.rows().into_iter().enumerate() {
        let mut row = centroids.row_mut(memberships[i]);
        row += &o;
    }
    for (k, mut row) in centroids.rows_mut().into_iter().enumerate() {
        row /= counts[k] as f64;
    }
    centroids
}

/// The mini-batch update: moving averages weighted by the running counts.
fn compute_centroids_incremental(
    observations: &Array2<f64>,
    memberships: &Vec<usize>,
    old: &Array2<f64>,
    counts: &mut Vec<u64>,
) -> Array2<f64> {
    let divisors = update_counts_incremental(counts, memberships);
    let mut centroids = old.clone();
    for (i, o) in observations.rows().into_iter().enumerate() {
        let c = memberships[i];
        let shift = (&o - &centroids.row(c)) / divisors[i] as f64;
        let mut row = centroids.row_mut(c);
        row += &shift;
    }
    centroids
}

fn function_test_1d(x: &Array2<f64>) -> Array2<f64> {
    let mut y = Array2::zeros(x.dim());
    Zip::from(&mut y).and(x).for_each(|yi, &xi| {
        if xi < 0.4 {
            *yi = xi * xi;
        } else if xi >= 0.4 && xi < 0.8 {
            *yi = 3. * xi + 1.;
        } else {
            *yi = f64::sin(10. * xi);
        }
    });
    y
}

/// A batch fit driven by the library's run control, with random rows as
/// initial centroids.
fn fit(data: &Array2<f64>, n_clusters: usize, n_runs: usize, rng: &mut Isaac64Rng) -> Array2<f64> {
    let n = data.nrows();
    let (mut control, mut action) = FitControl::new(n_runs, 300, 1e-4f64.to_bits());
    let mut centroids = Array2::<f64>::zeros((n_clusters, data.ncols()));
    let mut best: Option<Array2<f64>> = None;
    let mut memberships = vec![0usize; n];
    let mut dists = vec![0u64; n];
    loop {
        if action.keep_centroids {
            best = Some(centroids.clone());
        }
        match action.next {
            FitNext::InitRun => {
                let rows: Vec<usize> = (0..n_clusters).map(|_| rng.gen_range(0..n)).collect();
                centroids = data.select(Axis(0), &rows);
                action = control.step(FitEvent::RunInitialised);
            }
            FitNext::Iterate => {
                let rows = distance_rows(&centroids, data);
                update_memberships_and_dists(&rows, &mut memberships, &mut dists);
                let new_centroids = compute_centroids(&centroids, data, &memberships);
                let inertia: f64 = dists.iter().map(|d| f64::from_bits(*d)).sum();
                let shift: f64 =
                    centroids.iter().zip(new_centroids.iter()).map(|(a, b)| (a - b) * (a - b)).sum::<f64>().sqrt();
                centroids = new_centroids;
                action = control.step(FitEvent::IterationDone { inertia: inertia.to_bits(), shift: shift.to_bits() });
            }
            FitNext::Finished(r) => {
                r.expect("KMeans fitted");
                return best.unwrap();
            }
        }
    }
}

fn inertia_and_total_dist(centroids: &Array2<f64>, data: &Array2<f64>) -> (f64, f64) {
    let rows = distance_rows(centroids, data);
    let memberships = compute_cluster_memberships(&rows);
    let inertia: f64 = (0..rows.len()).map(|i| sq_dist(centroids.row(memberships[i]), data.row(i))).sum();
    let mut dists = vec![0u64; rows.len()];
    update_min_dists(&rows, &mut dists);
    let total: f64 = dists.iter().map(|d| f64::from_bits(*d)).sum();
    (inertia, total)
}

#[test]
fn test_n_runs() {
    let mut rng = Isaac64Rng::seed_from_u64(42);
    let xt = Array::random_using(100, Uniform::new(0., 1.0), &mut rng).insert_axis(Axis(1));
    let yt = function_test_1d(&xt);
    let data = concatenate(Axis(1), &[xt.view(), yt.view()]).unwrap();

    // First clustering with one run
    let centroids = fit(&data, 3, 1, &mut rng.clone());
    let (inertia, total_dist) = inertia_and_total_dist(&centroids, &data);
    assert!((inertia - total_dist).abs() <= 1e-10);

    // Second clustering with 10 runs, starting from the same random state
    let centroids2 = fit(&data, 3, 10, &mut rng.clone());
    let (inertia2, total_dist2) = inertia_and_total_dist(&centroids2, &data);
    assert!((inertia2 - total_dist2).abs() <= 1e-10);

    assert!(inertia2 <= inertia);
}

#[test]
fn compute_centroids_works() {
    let cluster_size = 100;
    let n_features = 4;

    let cluster_1: Array2<f64> = Array::random((cluster_size, n_features), Uniform::new(-100., 100.));
    let memberships_1 = Array1::<usize>::zeros(cluster_size);
    let expected_centroid_1 = cluster_1.sum_axis(Axis(0)) / (cluster_size + 1) as f64;

    let cluster_2: Array2<f64> = Array::random((cluster_size, n_features), Uniform::new(-100., 100.));
    let memberships_2 = Array1::<usize>::ones(cluster_size);
    let expected_centroid_2 = cluster_2.sum_axis(Axis(0)) / (cluster_size + 1) as f64;

    let observations = concatenate(Axis(0), &[cluster_1.view(), cluster_2.view()]).unwrap();
    let memberships = concatenate(Axis(0), &[memberships_1.view(), memberships_2.view()]).unwrap().to_vec();

    let old_centroids = Array2::zeros((2, n_features));
    let centroids = compute_centroids(&old_centroids, &observations, &memberships);
    for (a, b) in centroids.row(0).iter().zip(expected_centroid_1.iter()) {
        assert!((a - b).abs() <= 1e-5);
    }
    for (a, b) in centroids.row(1).iter().zip(expected_centroid_2.iter()) {
        assert!((a - b).abs() <= 1e-5);
    }
    assert_eq!(centroids.len_of(Axis(0)), 2);
}

#[test]
fn test_compute_extra_centroids() {
    let observations = mat(&[&[1.0, 2.0]]);
    let memberships = vec![0];
    // Should return an average of 0 for empty clusters
    let old_centroids = Array2::ones((2, 2));
    let centroids = compute_centroids(&old_centroids, &observations, &memberships);
    assert_close(&centroids, &mat(&[&[1.0, 1.5], &[1.0, 1.0]]), 1e-12);
}

#[test]
fn nothing_is_closer_than_self() {
    let n_centroids = 20;
    let n_features = 5;
    let mut rng = Isaac64Rng::seed_from_u64(42);
    let centroids: Array2<f64> =
        Array::random_using((n_centroids, n_features), Uniform::new(-100., 100.), &mut rng);

    let expected_memberships: Vec<usize> = (0..n_centroids).collect();
    assert_eq!(compute_cluster_memberships(&distance_rows(&centroids, &centroids)), expected_memberships);
}

#[test]
fn oracle_test_for_closest_centroid() {
    let centroids = mat(&[&[0., 0.], &[1., 2.], &[20., 0.], &[0., 20.]]);
    let observations = mat(&[&[1., 0.5], &[20., 2.], &[20., 0.], &[7., 20.]]);
    let memberships = vec![0, 2, 2, 3];

    assert_eq!(compute_cluster_memberships(&distance_rows(&centroids, &observations)), memberships);
}

#[test]
fn test_compute_centroids_incremental() {
    let observations = mat(&[&[-1.0, -3.0], &[0., 0.], &[3., 5.], &[5., 5.]]);
    let memberships = vec![0, 0, 1, 1];
    let centroids = mat(&[&[-1., -1.], &[3., 4.], &[7., 8.]]);
    let mut counts = vec![3u64, 0, 1];
    let centroids = compute_centroids_incremental(&observations, &memberships, &centroids, &mut counts);

    assert_close(&centroids, &mat(&[&[-4. / 5., -6. / 5.], &[4., 5.], &[7., 8.]]), 1e-12);
    assert_eq!(counts, vec![5, 2, 1]);
}

/// One mini-batch step on a model; returns the new centroids, counts and
/// whether the centroid shift is below the tolerance.
fn fit_with(
    centroids: &Array2<f64>,
    counts: &mut Vec<u64>,
    batch: &Array2<f64>,
    tolerance: f64,
) -> (Array2<f64>, bool) {
    let rows = distance_rows(centroids, batch);
    let mut memberships = vec![0usize; batch.nrows()];
    let mut dists = vec![0u64; batch.nrows()];
    update_memberships_and_dists(&rows, &mut memberships, &mut dists);
    let new_centroids = compute_centroids_incremental(batch, &memberships, centroids, counts);
    let shift: f64 = centroids.iter().zip(new_centroids.iter()).map(|(a, b)| (a - b) * (a - b)).sum::<f64>().sqrt();
    (new_centroids, lt(shift.to_bits(), tolerance.to_bits()))
}

#[test]
fn test_incremental_kmeans() {
    let dataset1 = mat(&[&[-1.0, -3.0], &[0., 0.], &[3., 5.], &[5., 5.]]);
    let dataset2 = mat(&[&[-5.0, -5.0], &[0., 0.], &[10., 10.]]);
    let centroids = mat(&[&[-1., -1.], &[3., 4.], &[7., 8.]]);
    let mut counts = vec![0u64, 0, 0];

    let (centroids, converged) = fit_with(&centroids, &mut counts, &dataset1, 100.0);
    assert_close(&centroids, &mat(&[&[-0.5, -1.5], &[4., 5.], &[7., 8.]]), 1e-12);
    assert!(converged);

    let (centroids, converged) = fit_with(&centroids, &mut counts, &dataset2, 100.0);
    assert_close(&centroids, &mat(&[&[-6. / 4., -8. / 4.], &[4., 5.], &[10., 10.]]), 1e-12);
    assert!(converged);
}

#[test]
fn cluster_counts_of_a_fit() {
    let memberships = compute_cluster_memberships(&distance_rows(
        &mat(&[&[0., 0.], &[10., 10.]]),
        &mat(&[&[1., 1.], &[9., 9.], &[0., 2.], &[11., 10.], &[12., 12.]]),
    ));
    assert_eq!(count_memberships(&memberships, 2), vec![2, 3]);
}

#[test]
fn cluster_counts_of_returned_centroids() {
    let rows = distance_rows(
        &mat(&[&[0., 0.], &[10., 10.], &[100., 100.]]),
        &mat(&[&[1., 1.], &[9., 9.], &[0., 2.], &[11., 10.], &[12., 12.]]),
    );
    assert_eq!(count_assignments(&rows, 3), vec![2, 3, 0]);
    assert_eq!(count_assignments(&rows, 4), vec![2, 3, 0, 0]);
}
