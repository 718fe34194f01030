//! The environment of a benchmark.
use dhp::bench_env::date::{epoch_days_to_date, iso8601};
use dhp::bench_env::env::{BenchEnv, BenchEnvConfig, HostState};
use dhp::bench_env::host::parse_cpu_range;

#[test]
fn parse_cpu_range_simple() {
    assert_eq!(parse_cpu_range("0-3"), vec![0, 1, 2, 3]);
}

#[test]
fn parse_cpu_range_multi() {
    assert_eq!(parse_cpu_range("0-3,6-7"), vec![0, 1, 2, 3, 6, 7]);
}

#[test]
fn parse_cpu_range_single() {
    assert_eq!(parse_cpu_range("5"), vec![5]);
}

#[test]
fn parse_cpu_range_mixed() {
    assert_eq!(parse_cpu_range("0,2-4,7"), vec![0, 2, 3, 4, 7]);
}

#[test]
fn parse_cpu_range_empty() {
    assert_eq!(parse_cpu_range(""), Vec::<u32>::new());
}

#[test]
fn epoch_days_to_date_known() {
    let (y, m, d) = epoch_days_to_date(20560);
    assert_eq!(y, 2026);
    assert_eq!(m, 4);
    assert_eq!(d, 17);
}

#[test]
fn bench_env_setup_noop() {
    let host = HostState { fastest_core: None, governor: None, nice: 0 };
    let env = BenchEnv::setup(&BenchEnvConfig { cpu: Some(0), enabled: false }, &host);
    assert_eq!(env.bench_cpu(), 0);
}

#[test]
fn now_iso8601_format() {
    let now = std::time::SystemTime::now()
        .duration_since(std::time::UNIX_EPOCH)
        .unwrap()
        .as_secs();
    let ts = iso8601(Some(now));
    assert!(ts.contains('T'), "missing T separator: {ts}");
    assert!(ts.ends_with('Z'), "missing Z suffix: {ts}");
    assert!(ts.len() >= 20, "too short: {ts}");
}

#[test]
fn iso8601_of_known_points() {
    assert_eq!(iso8601(Some(0)), "1970-01-01T00:00:00Z");
    assert_eq!(iso8601(Some(1_776_429_296)), "2026-04-17T12:34:56Z");
    assert_eq!(iso8601(Some(951_868_799)), "2000-02-29T23:59:59Z");
    assert_eq!(iso8601(None), "unknown");
}
