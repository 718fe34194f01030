//! The aging run's state and limits.
use dhp::aging::limit::{parse_hold_limit, HoldLimit};
use dhp::aging::state::{should_stop, AgingState};
use dhp::double::Double;
use dhp::stats::LatencyStats;

fn stats(count: usize, min: u64, max: u64, avg: u64, p50: u64, p95: u64, p99: u64) -> LatencyStats {
    LatencyStats {
        count,
        min_us: min,
        max_us: max,
        avg_us: avg,
        stddev_us: 0,
        p50_us: p50,
        p95_us: p95,
        p99_us: p99,
        p99_9_us: p99,
        cv_pct: Double::from_int(0),
        trimmed_avg_us: avg,
        outlier_count: 0,
        throughput_ops: 1_000_000 / avg,
        ci95_us: 0,
        mad_us: 0,
    }
}

fn fresh() -> AgingState {
    AgingState::new(HoldLimit::Count(1000), &["system".to_string()])
}

#[test]
fn should_stop_iteration_limit() {
    let mut state = fresh();
    state.total_iters = 10;
    assert!(should_stop(&mut state, false, false, Some(10)));
}

#[test]
fn should_stop_running_false() {
    let mut state = fresh();
    state.running = false;
    assert!(should_stop(&mut state, false, false, None));
}

#[test]
fn reporter_updates_cumulative_stats() {
    let mut state = fresh();
    state.interval_latencies.extend_from_slice(&[10, 20, 30, 40, 50]);
    state.interval_latencies.clear();
    let first = stats(5, 10, 50, 30, 30, 50, 50);
    state.update_cumulative(&first);

    assert!(!state.baseline_ready);
    assert_eq!(state.baseline_intervals, 1);
    assert_eq!(state.baseline_sum, first.avg_us * first.count as u64);
    assert_eq!(state.baseline_count, first.count as u64);
    assert_eq!(state.peak_p99, first.p99_us);

    state.interval_latencies.extend_from_slice(&[100, 200, 300, 400, 500]);
    state.interval_latencies.clear();
    let second = stats(5, 100, 500, 300, 300, 500, 500);
    state.update_cumulative(&second);

    assert_eq!(
        state.baseline_sum,
        first.avg_us * first.count as u64 + second.avg_us * second.count as u64
    );
    assert_eq!(state.final_interval_avg, second.avg_us);
    assert!(state.peak_p99 >= second.p99_us);
}

#[test]
fn cumulative_stats_accuracy() {
    let mut state = fresh();
    state.update_cumulative(&stats(10, 5, 100, 50, 45, 90, 95));
    state.update_cumulative(&stats(20, 3, 200, 60, 55, 180, 190));

    let cum = state.cumulative_stats().unwrap();
    assert_eq!(cum.count, 30);
    assert_eq!(cum.avg_us, 56);
    assert_eq!(cum.max_us, 200);
    assert_eq!(cum.p99_us, 190);
    assert_eq!(state.baseline_sum, 1700);
    assert_eq!(state.baseline_count, 30);
    assert_eq!(state.final_interval_avg, 60);
}

#[test]
fn parse_hold_limit_disabled() {
    assert_eq!(parse_hold_limit("0").unwrap(), HoldLimit::Disabled);
}

#[test]
fn parse_hold_limit_count() {
    assert_eq!(parse_hold_limit("100").unwrap(), HoldLimit::Count(100));
    assert_eq!(parse_hold_limit("10000").unwrap(), HoldLimit::Count(10000));
}

#[test]
fn parse_hold_limit_bytes_short() {
    assert_eq!(parse_hold_limit("512K").unwrap(), HoldLimit::Bytes(512 * 1024));
    assert_eq!(parse_hold_limit("64M").unwrap(), HoldLimit::Bytes(64 * 1024 * 1024));
    assert_eq!(parse_hold_limit("1G").unwrap(), HoldLimit::Bytes(1024 * 1024 * 1024));
}

#[test]
fn parse_hold_limit_bytes_long() {
    assert_eq!(parse_hold_limit("512KiB").unwrap(), HoldLimit::Bytes(512 * 1024));
    assert_eq!(parse_hold_limit("64MiB").unwrap(), HoldLimit::Bytes(64 * 1024 * 1024));
    assert_eq!(parse_hold_limit("2GiB").unwrap(), HoldLimit::Bytes(2 * 1024 * 1024 * 1024));
}

#[test]
fn parse_hold_limit_case_insensitive() {
    assert_eq!(parse_hold_limit("512m").unwrap(), HoldLimit::Bytes(512 * 1024 * 1024));
    assert_eq!(parse_hold_limit("1gib").unwrap(), HoldLimit::Bytes(1024 * 1024 * 1024));
}

#[test]
fn parse_hold_limit_invalid() {
    assert!(parse_hold_limit("abc").is_err());
    assert!(parse_hold_limit("512X").is_err());
    assert!(parse_hold_limit("").is_err());
}
