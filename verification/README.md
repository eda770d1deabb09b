# linfa-clustering (k-means core)

K-means clustering (Lloyd's algorithm in its m_k-means form, and mini-batch
k-means), split in two:

- `src/` is the verified core. It never holds a floating-point value: each
  distance, inertia or tolerance is passed as the bit pattern of a binary64
  value and compared with the exact semantics of `f64`'s `<`
  (`float_order`). On top of that it decides which centroid each observation
  is closest to (`assignment`), how many observations each cluster holds and
  the weights of the centroid updates (`counting`), the run control of a
  batch fit with its outcome (`fit`), and the choice of initial centroids of
  a mini-batch model (`incremental`).
- `app/` does the floating-point arithmetic on `ndarray` matrices (squared
  distances, sums, means) and drives the core.

The tests under `tests/` exercise the core, comparing the bit-pattern order
with `f64` and replaying the k-means scenarios on small matrices.
