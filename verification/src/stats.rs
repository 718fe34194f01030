//! What a series of measured times comes to.
use crate::double::Double;
use vstd::prelude::*;

verus! {

/// A summary of measured times, in microseconds.
#[derive(Clone, Copy, Debug)]
pub struct LatencyStats {
    pub count: usize,
    pub min_us: u64,
    pub max_us: u64,
    pub avg_us: u64,
    pub stddev_us: u64,
    pub p50_us: u64,
    pub p95_us: u64,
    pub p99_us: u64,
    pub p99_9_us: u64,
    /// The standard deviation in percent of the average.
    pub cv_pct: Double,
    pub trimmed_avg_us: u64,
    pub outlier_count: usize,
    pub throughput_ops: u64,
    pub ci95_us: u64,
    pub mad_us: u64,
}

} // verus!
