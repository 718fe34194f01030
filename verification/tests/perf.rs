//! Benchmarks and their reports.
use dhp::backend::ioctl::Errno;
use dhp::backend::mock::MockBackend;
use dhp::backend::model::SimConfig;
use dhp::bench::allocation::{
    alloc_report, prefix_lengths, AllocTimes, Bimodal, Correlation, Drift, Findings, Fit, Prefix,
    Shape,
};
use dhp::bench::depth::{
    estimate_from_knee, estimate_pool_depth, probe_done, PoolEstimateSource,
};
use dhp::bench::report::{Line, Signed};
use dhp::bench::reports::{
    boundary_report, close_report, frag_report, pipeline_report, switch_report, warmup_report,
    CloseTimes, Effect, Phase, PipelineTimes,
};
use dhp::bench::rows::{BenchConfig, SizeStats, ORDER_BOUNDARY_SIZES};
use dhp::bench::score::{quality_scorecard, score_threshold, Threshold};
use dhp::bench::steps::{detect_inversions, detect_order_steps};
use dhp::double::Double;
use dhp::info::types::HeapCaps;
use dhp::stats::LatencyStats;
use dhp::workload::benches::{
    bench_alloc_only, bench_close, bench_full_pipeline, bench_order_boundary, run,
};
use dhp::workload::perf::{bench_internal_frag, probe_pool_depth};
use dhp::workload::reuse::{test_pool_warmup, test_size_switch};

fn whole(n: u64) -> Double {
    Double::from_int(n)
}

fn ratio(n: u64, d: u64) -> Double {
    whole(n).divided_by(whole(d))
}

fn plain_stats(avg: u64) -> LatencyStats {
    LatencyStats {
        count: 100,
        min_us: 10,
        max_us: 12,
        avg_us: avg,
        stddev_us: 0,
        p50_us: 11,
        p95_us: 12,
        p99_us: 12,
        p99_9_us: 12,
        cv_pct: whole(1),
        trimmed_avg_us: 11,
        outlier_count: 0,
        throughput_ops: 90909,
        ci95_us: 0,
        mad_us: 0,
    }
}

fn tenths(d: Double) -> String {
    let mut s = String::new();
    d.push_one_decimal(&mut s);
    s
}

#[test]
fn scorecard_excellent() {
    let qc = quality_scorecard(&[plain_stats(11)], whole(0), true);
    assert_eq!(qc.rating, "EXCELLENT");
    assert!(qc.total >= 90);
    assert!(qc.details.is_empty(), "no recommendations for excellent");
}

#[test]
fn scorecard_noisy() {
    let stats = LatencyStats {
        count: 100,
        min_us: 1,
        max_us: 1000,
        avg_us: 50,
        stddev_us: 200,
        p50_us: 20,
        p95_us: 500,
        p99_us: 900,
        p99_9_us: 1000,
        cv_pct: whole(400),
        trimmed_avg_us: 20,
        outlier_count: 30,
        throughput_ops: 20000,
        ci95_us: 40,
        mad_us: 100,
    };
    let qc = quality_scorecard(&[stats], whole(50), false);
    assert_eq!(qc.rating, "NOISY");
    assert!(qc.total < 50);
    assert!(!qc.details.is_empty(), "should have recommendations");
}

#[test]
fn score_threshold_basic() {
    let low = Threshold { limit: whole(5), score: 25 };
    let high = Threshold { limit: whole(10), score: 20 };
    let (s, r) = score_threshold(whole(3), &[low, high], 0, &[], "bad");
    assert_eq!(s, 25);
    assert!(r.is_none());
    let (s, r) = score_threshold(whole(99), &[low], 0, &[], "bad");
    assert_eq!(s, 0);
    assert_eq!(r, Some("bad"));
}

#[test]
fn order_steps_empty() {
    assert!(detect_order_steps(&[], whole(20)).is_empty());
    assert!(detect_order_steps(&[(4096, 10)], whole(20)).is_empty());
}

#[test]
fn order_steps_no_significant_jump() {
    let points = vec![(4096, 10), (8192, 11), (16384, 12)];
    assert!(detect_order_steps(&points, whole(20)).is_empty());
}

#[test]
fn order_steps_detects_jump() {
    let points = vec![(4096, 10), (8192, 10), (65536, 20)];
    let steps = detect_order_steps(&points, whole(20));
    assert_eq!(steps.len(), 1);
    assert_eq!(steps[0].size_from, 8192);
    assert_eq!(steps[0].size_to, 65536);
    assert_eq!(tenths(steps[0].increase_pct), "100.0");
    assert_eq!(steps[0].order, 4);
}

#[test]
fn order_steps_sorted_by_magnitude() {
    let points = vec![(4096, 10), (8192, 15), (65536, 50), (1_048_576, 60)];
    let steps = detect_order_steps(&points, whole(20));
    assert!(steps.len() >= 2);
    assert!(!steps[0].increase_pct.is_less(steps[1].increase_pct));
}

#[test]
fn order_steps_buddy_order_calc() {
    let points = vec![(4096, 5), (8192, 20)];
    let steps = detect_order_steps(&points, whole(20));
    assert_eq!(steps.len(), 1);
    assert_eq!(steps[0].order, 1);
}

#[test]
fn inversion_none_for_monotonic() {
    let points = vec![(4096, 10), (8192, 15), (65536, 30)];
    assert!(detect_inversions(&points).is_empty());
}

#[test]
fn inversion_detects_decrease() {
    let points = vec![(49152, 20), (65536, 10)];
    let inv = detect_inversions(&points);
    assert_eq!(inv.len(), 1);
    assert_eq!(inv[0].smaller_size, 49152);
    assert_eq!(inv[0].larger_size, 65536);
    assert_eq!(tenths(inv[0].decrease_pct), "50.0");
}

#[test]
fn inversion_ignores_small_decrease() {
    let points = vec![(4096, 100), (8192, 95)];
    assert!(detect_inversions(&points).is_empty());
}

fn test_cfg(sizes: &[u64]) -> BenchConfig<'_> {
    BenchConfig {
        sizes,
        iterations: 10,
        warmup: 2,
        heap_w: 6,
        pool_bypass: false,
        drain_count: None,
    }
}

fn all_caps() -> HeapCaps {
    HeapCaps {
        name: "system".to_string(),
        can_alloc: true,
        can_mmap: true,
        can_sync: true,
        can_write: true,
        can_llseek: true,
        can_sync_file: true,
        can_dup: true,
        alloc_granularity: 4096,
    }
}

#[test]
fn alloc_only_runs() {
    let mut b = MockBackend::new();
    let run = bench_alloc_only(&mut b, "system", &test_cfg(&[4096]), &[0]);
    run.result.unwrap();
    assert_eq!(run.marks.iter().filter(|m| m.channel == 1).count(), 10);
}

#[test]
fn full_pipeline_runs() {
    let mut b = MockBackend::new();
    let run = bench_full_pipeline(&mut b, "system", &test_cfg(&[4096]), &[0]);
    run.result.unwrap();
    for channel in 1..6 {
        assert_eq!(run.marks.iter().filter(|m| m.channel == channel).count(), 10);
    }
}

#[test]
fn close_runs() {
    let mut b = MockBackend::new();
    let run = bench_close(&mut b, "system", &test_cfg(&[4096]), &[0]);
    run.result.unwrap();
    assert_eq!(run.marks.iter().filter(|m| m.channel == 2).count(), 10);
}

#[test]
fn order_boundary_runs() {
    let mut b = MockBackend::new();
    let cfg = BenchConfig { iterations: 5, warmup: 1, ..test_cfg(&[]) };
    let drains = vec![0u32; ORDER_BOUNDARY_SIZES.len()];
    bench_order_boundary(&mut b, "system", &cfg, &drains).result.unwrap();
}

#[test]
fn internal_frag_runs() {
    let mut b = MockBackend::new();
    let sizes = bench_internal_frag(&mut b, "system").unwrap();
    assert_eq!(sizes, vec![4096, 4096, 8192, 65536, 69632, 102_400]);
}

#[test]
fn perf_pool_warmup_runs() {
    test_pool_warmup(&mut MockBackend::new(), "system").result.unwrap();
}

#[test]
fn perf_size_switch_runs() {
    test_size_switch(&mut MockBackend::new(), "system").result.unwrap();
}

#[test]
fn pool_warmup_no_leak() {
    let mut b = MockBackend::new();
    test_pool_warmup(&mut b, "system").result.unwrap();
    assert_eq!(b.buffer_count(), 0);
}

fn no_findings() -> Findings {
    Findings {
        regression: None,
        shape: None,
        entropy: None,
        drift: None,
        warmup_ok: true,
        correlation: None,
        samples: 5,
        prefixes: Vec::new(),
        pool: None,
    }
}

fn times(size: u64, avg: u64) -> AllocTimes {
    AllocTimes { size, stats: plain_stats(avg), p99_lo: 11, p99_hi: 12, bimodal: None }
}

#[test]
fn perf_run_passes() {
    let mut b = MockBackend::new();
    let cfg = BenchConfig { iterations: 5, warmup: 1, ..test_cfg(&[4096]) };
    let drains = vec![0u32; ORDER_BOUNDARY_SIZES.len()];
    let (results, err, runs) = run(&mut b, "system", &cfg, &all_caps(), &[0], &drains);
    assert!(err.is_none());
    assert!(results.iter().all(|t| t.passed));
    assert_eq!(results.len(), 7);
    assert!(runs.full_pipeline.is_some());
    let (_, a) = alloc_report(&[times(4096, 11)], &no_findings());
    assert_eq!(a.stats.len(), 1);
    assert_eq!(a.stats[0].size, 4096);
    assert!(a.quality_score > 0);
}

#[test]
fn pipeline_is_skipped_without_mappings() {
    let mut b = MockBackend::new();
    let cfg = BenchConfig { iterations: 2, warmup: 0, ..test_cfg(&[4096]) };
    let mut caps = all_caps();
    caps.can_mmap = false;
    let drains = vec![0u32; ORDER_BOUNDARY_SIZES.len()];
    let (results, err, runs) = run(&mut b, "system", &cfg, &caps, &[0], &drains);
    assert!(err.is_none());
    assert!(results[1].skipped && results[1].passed);
    assert!(runs.full_pipeline.is_none());
}

#[test]
fn failing_benchmarks_are_told() {
    let mut b = MockBackend::with_sim(SimConfig { enomem_threshold: Some(0), ..Default::default() });
    let cfg = test_cfg(&[4096]);
    let drains = vec![0u32; ORDER_BOUNDARY_SIZES.len()];
    let (results, err, runs) = run(&mut b, "system", &cfg, &all_caps(), &[0], &drains);
    assert!(results.iter().all(|t| !t.passed));
    assert!(err.is_some());
    assert_eq!(runs.alloc_only.result, Err(Errno::ENOMEM));
}

#[test]
fn estimate_pool_depth_override() {
    let est = estimate_pool_depth(4096, Some(100), None, None);
    assert!(est.depth_buffers >= 32);
    assert_eq!(est.source, PoolEstimateSource::Fallback);
    assert_eq!(estimate_pool_depth(4096, Some(3), None, None).depth_buffers, 32);
}

#[test]
fn estimate_pool_depth_fallback() {
    let mut b = MockBackend::new();
    let probed = probe_pool_depth(&mut b, "system", 4096);
    assert_eq!(b.buffer_count(), 0);
    assert!(probed.is_some());
    let est = estimate_pool_depth(4096, None, None, None);
    assert!(est.depth_buffers >= 32);
    assert!(est.source == PoolEstimateSource::Probed || est.source == PoolEstimateSource::Fallback);
}

#[test]
fn knee_of_a_pool() {
    let mut latencies = vec![10u64; 40];
    assert!(!probe_done(&latencies));
    latencies.extend_from_slice(&[100; 20]);
    let est = estimate_from_knee(&latencies, 40, 4096);
    assert_eq!(est.source, PoolEstimateSource::Probed);
    assert_eq!(est.knee_index, Some(40));
    assert_eq!(est.fast_avg_us, Some(10));
    assert_eq!(est.slow_avg_us, Some(100));
}

#[test]
fn run_with_pool_bypass() {
    let mut b = MockBackend::new();
    let cfg = BenchConfig {
        iterations: 3,
        warmup: 1,
        pool_bypass: true,
        drain_count: Some(32),
        ..test_cfg(&[4096])
    };
    let est = estimate_pool_depth(4096, cfg.drain_count, None, None);
    let drains = vec![est.depth_buffers; ORDER_BOUNDARY_SIZES.len()];
    let (results, err, _) =
        run(&mut b, "system", &cfg, &all_caps(), &[est.depth_buffers], &drains);
    assert!(err.is_none());
    assert!(results.iter().all(|t| t.passed));
    assert_eq!(b.buffer_count(), 0);
    let mut findings = no_findings();
    findings.pool = Some(est);
    let (_, a) = alloc_report(&[times(4096, 11)], &findings);
    assert!(a.pool_estimate.is_some());
    assert_eq!(a.pool_estimate.unwrap().depth_buffers, 32);
}

fn line_text(line: &Line) -> String {
    match line {
        Line::Values { name, fields } => {
            let mut s = name.clone();
            for f in fields {
                s.push_str(&format!(" {}={}", f.name, f.value));
            }
            s
        }
        Line::Table { name, unit, header, rows } => {
            let mut s = format!("{} {:?} {}", name, unit, header.join("|"));
            for row in rows {
                s.push_str(&format!(" / {}", row.join("|")));
            }
            s
        }
    }
}

fn texts(lines: &[Line]) -> Vec<String> {
    lines.iter().map(line_text).collect()
}

fn signed(negative: bool, n: u64, d: u64) -> Signed {
    Signed { negative, size: ratio(n, d) }
}

#[test]
fn report_of_allocations() {
    let mut first = times(4096, 11);
    first.bimodal = Some(Bimodal {
        fast_us: 5,
        slow_us: 90,
        fast_part: ratio(3, 4),
        valley: ratio(1, 8),
    });
    let mut second = times(65536, 20);
    second.stats.throughput_ops = 45454;
    let findings = Findings {
        regression: Some(Fit {
            base_us: signed(true, 5, 2),
            us_per_byte: signed(false, 1, 1024),
            r_squared: signed(false, 7, 8),
        }),
        shape: Some(Shape { skew: signed(true, 3, 4), kurtosis: signed(false, 1, 4) }),
        entropy: Some(ratio(1, 2)),
        drift: Some(Drift { pct: signed(false, 25, 2), first_us: 10, second_us: 12 }),
        warmup_ok: false,
        correlation: Some(Correlation { lag: signed(true, 1, 4), ess: ratio(101, 2) }),
        samples: 100,
        prefixes: vec![
            Prefix { count: 25, avg_us: 10, ci95_us: 4 },
            Prefix { count: 50, avg_us: 11, ci95_us: 3 },
            Prefix { count: 75, avg_us: 11, ci95_us: 2 },
            Prefix { count: 100, avg_us: 11, ci95_us: 1 },
        ],
        pool: None,
    };
    let (lines, kept) = alloc_report(&[first, second], &findings);
    assert_eq!(
        texts(&lines),
        vec![
            "perf::bimodal@4K fast=5us (75%) slow=90us valley=12%",
            "perf::alloc_only Some(\"(us)\") size|min|avg\u{b1}ci95|tavg|sd|p50|p95|p99[ci95]|p99.9|max|Kops/s|out / 4K|10|11\u{b1}0|11|0|11|12|12[11-12]|12|12|90|0 / 64K|10|20\u{b1}0|11|0|11|12|12[11-12]|12|12|45|0",
            "perf::alloc_model base_us=-2.5 us/KB=1.000 R\u{b2}=0.875",
            "perf::scaling None size|Kops/s|eff%|MB/s / 4K|90|100.0|355 / 64K|45|50.0|2841",
            "perf::distribution skew=-0.75 kurtosis=0.25 shape=left-skewed",
            "perf::entropy H=0.50 predict=moderate",
            "perf::drift_warn (degrading) drift=+12.5% 1st_half=10 2nd_half=12",
            "perf::warmup_warn hint=first 10% differs from rest: increase --warmup",
            "perf::autocorr lag1_r=-0.250 N=100 ESS=51",
            "perf::ci_convergence Some(\"(us)\") N|avg|ci95 / 25|10|\u{b1}4 / 50|11|\u{b1}3 / 75|11|\u{b1}2 / 100|11|\u{b1}1",
            "perf::quality score=64/100 rating=FAIR",
            "perf::quality  stationarity=4/20 hint=drift>10%: increase --warmup or shorten test",
            "perf::quality  warmup=0/20 hint=warmup insufficient: increase --warmup",
        ]
    );
    assert_eq!(kept.quality_score, 64);
    assert_eq!(kept.quality_rating, "FAIR");
    assert_eq!(kept.stats.len(), 2);
    assert!(kept.autocorr_r.is_some());
}

#[test]
fn small_findings_are_not_told() {
    let mut findings = no_findings();
    findings.drift = Some(Drift { pct: signed(true, 10, 1), first_us: 10, second_us: 9 });
    findings.correlation = Some(Correlation { lag: signed(false, 1, 10), ess: whole(5) });
    let (lines, kept) = alloc_report(&[times(4096, 11)], &findings);
    let told = texts(&lines);
    assert_eq!(told.len(), 3);
    assert!(told[0].starts_with("perf::alloc_only"));
    assert_eq!(told[1], "perf::quality score=84/100 rating=GOOD");
    assert_eq!(
        told[2],
        "perf::quality  stationarity=4/20 hint=drift>10%: increase --warmup or shorten test"
    );
    assert!(kept.drift_pct.negative);
}

#[test]
fn prefixes_of_a_run() {
    assert!(prefix_lengths(19).is_empty());
    assert_eq!(prefix_lengths(20), vec![5, 10, 15, 20]);
    assert_eq!(prefix_lengths(103), vec![25, 51, 77, 103]);
}

#[test]
fn report_of_the_pipeline() {
    let whole = SizeStats { size: 4096, latency: plain_stats(20) };
    let t = PipelineTimes { whole, alloc_us: 5, mmap_us: 5, sync_w_us: 3, write_us: 5, sync_r_us: 2 };
    assert_eq!(
        texts(&pipeline_report(&[t])),
        vec![
            "perf::pipeline_breakdown@4K Some(\"(us)\") stage|avg|% / alloc|5|25.0 / mmap|5|25.0 / sync_w|3|15.0 / write|5|25.0 / sync_r|2|10.0",
            "perf::full_pipeline Some(\"(us)\") size|avg|sd|p50|p95|p99|p99.9 / 4K|20|0|11|12|12|12",
        ]
    );
}

#[test]
fn report_of_releases() {
    let close = SizeStats { size: 8192, latency: plain_stats(30) };
    assert_eq!(
        texts(&close_report(&[CloseTimes { close, alloc_us: 10 }])),
        vec![
            "perf::close Some(\"(us)\") size|avg|sd|p50|p95|p99|p99.9 / 8K|30|0|11|12|12|12",
            "perf::close_ratio None size|alloc|close|ratio|verdict / 8K|10|30|3.00|expensive",
        ]
    );
    assert_eq!(close_report(&[]).len(), 1);
}

#[test]
fn report_of_a_sweep() {
    let points = [(4096, 10), (8192, 15), (16384, 60), (32768, 30)];
    let stats: Vec<SizeStats> = points
        .iter()
        .map(|&(size, avg)| SizeStats { size, latency: plain_stats(avg) })
        .collect();
    let told = texts(&boundary_report(&stats));
    assert_eq!(
        told[1..],
        [
            "perf::order_step (order 2) from=8K to=16K avg=15\u{2192}60us +%=300.0",
            "perf::order_step (order 1) from=4K to=8K avg=10\u{2192}15us +%=50.0",
            "perf::inversion larger=32K smaller=16K avg=60\u{2192}30us -%=50.0",
        ]
    );
}

#[test]
fn report_of_a_filled_pool() {
    let e = Effect {
        t_stat: signed(false, 5, 2),
        cohens_d: signed(true, 1, 2),
        sig: "*",
        effect: "medium",
    };
    assert_eq!(
        texts(&warmup_report(&plain_stats(1), &plain_stats(2), &Some(e))),
        vec![
            "perf::pool_warmup cold_p50=11 cold_p95=12 warm_p50=11 warm_p95=12",
            "perf::pool_effect t=2.50 d=-0.50 sig=* effect=medium",
        ]
    );
    assert_eq!(warmup_report(&plain_stats(1), &plain_stats(2), &None).len(), 1);
}

#[test]
fn report_of_a_change_of_size() {
    let p = Phase { number: 1, size: 65536, first_us: 9, last_us: 7 };
    assert_eq!(
        texts(&switch_report(&[p], Some((10, 12)), None, Some(40))),
        vec![
            "perf::size_switch None ph|size|first10_p50|last10_p50 / 1|64K|9|7",
            "perf::hysteresis ph1_avg=10 ph3_avg=12 ratio=1.20 verdict=degraded",
            "perf::converge_ph3 after=40 allocs",
        ]
    );
    assert_eq!(switch_report(&[], Some((0, 12)), None, None).len(), 1);
}

#[test]
fn report_of_odd_sizes() {
    let told = texts(&frag_report(&[4096, 4096, 8192], 4096));
    assert_eq!(
        told,
        vec![
            "perf::internal_frag None req|actual|expected|frag% / 1|4096|4096|* / 4095|4096|4096|* / 4097|8192|8192|100.0",
        ]
    );
}
