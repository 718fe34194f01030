//! Histograms of measured times.
use dhp::histogram::{auto_buckets, build_buckets, percentile_frac};

#[test]
fn auto_buckets_values() {
    assert_eq!(auto_buckets(1), 1);
    assert_eq!(auto_buckets(2), 4);
    assert_eq!(auto_buckets(1000), 11);
    assert_eq!(auto_buckets(10_000), 15);
}

#[test]
fn percentile_frac_p999() {
    let sorted: Vec<u64> = (1..=1000).collect();
    let p999 = percentile_frac(&sorted, 999, 1000);
    assert_eq!(p999, 999);
}

#[test]
fn build_buckets_single_value() {
    let sorted = vec![42; 10];
    let buckets = build_buckets(&sorted, 42, 42, 5);
    assert_eq!(buckets.len(), 1);
    assert_eq!(buckets[0].count, 10);
    assert!(buckets[0].is_last);
}

#[test]
fn build_buckets_spread() {
    let sorted: Vec<u64> = (0..100).collect();
    let buckets = build_buckets(&sorted, 0, 99, 10);
    assert_eq!(buckets.len(), 10);
    let total: usize = buckets.iter().map(|b| b.count).sum();
    assert_eq!(total, 100);
    assert!(buckets.last().unwrap().is_last);
}
