//! Verified core of k-means clustering: the comparisons, assignments, counts
//! and run-control decisions of Lloyd's algorithm (m_k-means variant) and of
//! its mini-batch form.
//!
//! Floating-point values never appear here: every distance, inertia and
//! tolerance is handed over as the bit pattern of an IEEE-754 binary64 value
//! (`f64::to_bits`), and compared with exactly the semantics of `<` on `f64`.

pub mod float_order;
pub mod assignment;
pub mod counting;
pub mod fit;
pub mod incremental;
