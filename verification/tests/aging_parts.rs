//! The pieces of the aging run: sizes, patterns, latencies and the lines of its summary.
use dhp::aging::fill::{even_pages, fill_plan, interior_count, random_pages, sparse_fill, Run};
use dhp::aging::fuzz::{
    build_weighted_table, capped_size, pattern_byte, pick, random_size, random_sync_flags,
    random_write_pattern, select_pipeline, Pipeline, WritePattern, FUZZ_SIZES,
};
use dhp::aging::latency::OpLatency;
use dhp::aging::limit::{parse_size, HoldLimit};
use dhp::aging::result::OpResult;
use dhp::aging::state::{
    compute_delta_kb, compute_delta_mb, high_order_free_sum, mark_init_error, AgingState,
};
use dhp::aging::summary::{
    end_interval, fmt_delta, fmt_elapsed, fmt_num, fmt_op_per_4k, fmt_op_us, print_aligned_table,
    Progress,
};
use dhp::double::Double;
use dhp::info::types::{BuddyInfoEntry, HeapCaps};
use dhp::stats::LatencyStats;
use rand::rngs::SmallRng;
use rand::SeedableRng;

fn caps(mmap: bool, write: bool, dup: bool, llseek: bool, sync_file: bool) -> HeapCaps {
    HeapCaps {
        name: "system".to_string(),
        can_alloc: true,
        can_mmap: mmap,
        can_sync: true,
        can_write: write,
        can_llseek: llseek,
        can_sync_file: sync_file,
        can_dup: dup,
        alloc_granularity: 4096,
    }
}

#[test]
fn sizes_with_and_without_a_unit() {
    assert_eq!(parse_size("4096"), Ok(4096));
    assert_eq!(parse_size(" 64K "), Ok(65_536));
    assert_eq!(parse_size("2MiB"), Ok(2_097_152));
    assert_eq!(parse_size("1g"), Ok(1_073_741_824));
}

#[test]
fn sizes_that_are_refused() {
    assert_eq!(parse_size(""), Err("invalid size: ".to_string()));
    assert_eq!(parse_size("K"), Err("invalid number in size: K".to_string()));
    assert_eq!(
        parse_size("4X"),
        Err("unknown size suffix 'X' in: 4X".to_string())
    );
    assert_eq!(
        parse_size("99999999999999G"),
        Err("size overflow: 99999999999999G".to_string())
    );
    assert_eq!(
        parse_size("99999999999999999999"),
        Err("invalid size: 99999999999999999999".to_string())
    );
}

#[test]
fn interior_pages_grow_with_the_buffer() {
    assert_eq!(interior_count(4096), 0);
    assert_eq!(interior_count(2 * 4096), 0);
    assert_eq!(interior_count(3 * 4096), 1);
    assert_eq!(interior_count(10 * 4096), 2);
    assert_eq!(interior_count(8 << 20), 3);
}

#[test]
fn even_pages_are_spread() {
    assert_eq!(even_pages(256 * 4096), vec![1, 85, 170]);
    assert_eq!(even_pages(3 * 4096), vec![1]);
    assert!(even_pages(100).is_empty());
}

#[test]
fn random_pages_stay_inside() {
    let mut rng = SmallRng::seed_from_u64(7);
    let mut seen = Vec::new();
    for _ in 0..20 {
        let pages = random_pages(256 * 4096, &mut rng);
        assert_eq!(pages.len(), 3);
        for p in pages {
            assert!(p >= 1 && p < 255);
            seen.push(p);
        }
    }
    seen.sort();
    seen.dedup();
    assert!(seen.len() > 1);
}

#[test]
fn small_buffers_are_filled_whole() {
    assert_eq!(fill_plan(200, &[]), vec![Run { at: 0, len: 200 }]);
    let mut data = vec![0u8; 200];
    sparse_fill(&mut data, 0xA5, &[]);
    assert!(data.iter().all(|&b| b == 0xA5));
}

#[test]
fn large_buffers_are_filled_at_both_ends_and_between() {
    let size = 4 * 4096;
    let mut data = vec![0u8; size];
    sparse_fill(&mut data, 0x5A, &[2]);
    for (i, &b) in data.iter().enumerate() {
        let filled = i < 64 || i >= size - 64 || (i >= 8192 && i < 8192 + 64);
        assert_eq!(b, if filled { 0x5A } else { 0 }, "byte {i}");
    }
}

#[test]
fn pipelines_a_bare_heap_can_do() {
    let table = build_weighted_table(&caps(false, false, false, false, false));
    assert_eq!(
        table,
        vec![(Pipeline::AllocClose, 10), (Pipeline::AllocHold, 20)]
    );
}

#[test]
fn pipelines_a_full_heap_can_do() {
    let table = build_weighted_table(&caps(true, true, true, true, true));
    assert_eq!(table.len(), 11);
    assert_eq!(table.iter().map(|(_, w)| w).sum::<u32>(), 95);
    let none_to_write = build_weighted_table(&caps(true, false, false, true, false));
    assert_eq!(
        none_to_write,
        vec![
            (Pipeline::AllocClose, 10),
            (Pipeline::AllocHold, 20),
            (Pipeline::AllocMmapClose, 5),
            (Pipeline::PartialMmap, 5),
        ]
    );
}

#[test]
fn pick_walks_the_weights() {
    let table = [(Pipeline::AllocClose, 10), (Pipeline::AllocHold, 20)];
    assert_eq!(pick(&table, 0), Pipeline::AllocClose);
    assert_eq!(pick(&table, 9), Pipeline::AllocClose);
    assert_eq!(pick(&table, 10), Pipeline::AllocHold);
    assert_eq!(pick(&table, 29), Pipeline::AllocHold);
    assert_eq!(pick(&table, 30), Pipeline::AllocClose);
    assert_eq!(pick(&[], 0), Pipeline::AllocClose);
}

#[test]
fn every_pipeline_of_the_table_is_drawn() {
    let mut rng = SmallRng::seed_from_u64(42);
    let table = build_weighted_table(&caps(true, true, true, true, true));
    let mut drawn = Vec::new();
    for _ in 0..2000 {
        let p = select_pipeline(&table, &mut rng);
        if !drawn.contains(&p) {
            drawn.push(p);
        }
    }
    assert_eq!(drawn.len(), 11);
    assert_eq!(select_pipeline(&[], &mut rng), Pipeline::AllocClose);
}

#[test]
fn every_direction_and_pattern_is_drawn() {
    let mut rng = SmallRng::seed_from_u64(42);
    let (mut read, mut write, mut both) = (0, 0, 0);
    let (mut zero, mut ones, mut other) = (0, 0, Vec::new());
    for _ in 0..300 {
        match random_sync_flags(&mut rng) {
            1 => read += 1,
            2 => write += 1,
            3 => both += 1,
            f => panic!("flags {f}"),
        }
        match random_write_pattern(&mut rng) {
            WritePattern::Zero => zero += 1,
            WritePattern::AllOnes => ones += 1,
            WritePattern::Pattern(b) => other.push(b),
        }
    }
    assert!(read > 0 && write > 0 && both > 0);
    assert!(zero > 0 && ones > 0);
    other.sort();
    other.dedup();
    assert!(other.len() > 10);
}

#[test]
fn bytes_of_the_patterns() {
    assert_eq!(pattern_byte(WritePattern::Zero), 0x00);
    assert_eq!(pattern_byte(WritePattern::AllOnes), 0xFF);
    assert_eq!(pattern_byte(WritePattern::Pattern(0x3C)), 0x3C);
}

#[test]
fn drawn_sizes_are_of_the_list() {
    let mut rng = SmallRng::seed_from_u64(1);
    let mut seen = Vec::new();
    for _ in 0..500 {
        let s = random_size(&mut rng);
        assert!(FUZZ_SIZES.contains(&s));
        if !seen.contains(&s) {
            seen.push(s);
        }
    }
    assert_eq!(seen.len(), FUZZ_SIZES.len());
}

#[test]
fn same_seed_same_draws() {
    let mut a = SmallRng::seed_from_u64(9);
    let mut b = SmallRng::seed_from_u64(9);
    for _ in 0..50 {
        assert_eq!(random_size(&mut a), random_size(&mut b));
    }
}

#[test]
fn sizes_are_capped() {
    assert_eq!(capped_size(8192, Some(4096)), 4096);
    assert_eq!(capped_size(1024, Some(4096)), 1024);
    assert_eq!(capped_size(8192, None), 8192);
}

#[test]
fn latencies_go_to_their_buckets() {
    let mut lat = OpLatency::new();
    assert_eq!(lat.percentile(50), 0);
    assert_eq!(lat.avg_us(), 0);
    for us in [0, 1, 9, 10, 99, 100, 5000, 2_000_000] {
        lat.record(us, 4096);
    }
    assert_eq!(lat.count, 8);
    assert_eq!(lat.min_us, 0);
    assert_eq!(lat.max_us, 2_000_000);
    assert_eq!(lat.size_sum, 8 * 4096);
    assert_eq!(lat.buckets, [1, 2, 2, 1, 1, 0, 0, 1]);
    assert_eq!(lat.avg_us(), 2_005_219 / 8);
}

#[test]
fn percentiles_are_upper_bounds_of_buckets() {
    let mut lat = OpLatency::new();
    for _ in 0..98 {
        lat.record(5, 4096);
    }
    lat.record(50, 4096);
    lat.record(3_000_000, 4096);
    assert_eq!(lat.percentile(0), 1);
    assert_eq!(lat.percentile(50), 10);
    assert_eq!(lat.percentile(98), 10);
    assert_eq!(lat.percentile(99), 100);
    assert_eq!(lat.percentile(100), u64::MAX);
}

fn op_of(lat: &OpLatency) -> OpResult {
    OpResult::from_op_latency(lat)
}

#[test]
fn latency_per_four_kib() {
    let mut lat = OpLatency::new();
    assert_eq!(fmt_op_per_4k(&op_of(&lat)), "-");
    lat.record(10, 8192);
    assert_eq!(fmt_op_per_4k(&op_of(&lat)), "5.000 us");
    lat.record(1, 4096);
    assert_eq!(fmt_op_per_4k(&op_of(&lat)), "3.667 us");
}

#[test]
fn microseconds_of_an_operation() {
    assert_eq!(fmt_op_us(17, 3), "17 us");
    assert_eq!(fmt_op_us(17, 0), "-");
}

#[test]
fn numbers_in_groups_of_three() {
    assert_eq!(fmt_num(0), "0");
    assert_eq!(fmt_num(999), "999");
    assert_eq!(fmt_num(1000), "1,000");
    assert_eq!(fmt_num(1_234_567), "1,234,567");
    assert_eq!(fmt_num(u64::MAX), "18,446,744,073,709,551,615");
}

#[test]
fn elapsed_time() {
    assert_eq!(fmt_elapsed(0), "0s");
    assert_eq!(fmt_elapsed(59), "59s");
    assert_eq!(fmt_elapsed(60), "1m 0s");
    assert_eq!(fmt_elapsed(3725), "62m 5s");
}

#[test]
fn changes_with_a_sign() {
    assert_eq!(fmt_delta(Some(5), "MB"), "+5 MB");
    assert_eq!(fmt_delta(Some(0), "MB"), "+0 MB");
    assert_eq!(fmt_delta(Some(-7), "KB"), "-7 KB");
    assert_eq!(fmt_delta(None, "KB"), "-");
}

#[test]
fn tables_are_aligned_to_the_right() {
    let mut out = String::new();
    let rows = vec![
        vec!["system".to_string(), "1".to_string()],
        vec!["a".to_string(), "12345".to_string()],
    ];
    print_aligned_table(&mut out, &["heap", "n"], &rows);
    assert_eq!(
        out,
        "      heap      n\n    system      1\n         a  12345\n"
    );
}

#[test]
fn changes_of_memory() {
    assert_eq!(compute_delta_kb(Some(100), Some(40)), Some(-60));
    assert_eq!(compute_delta_kb(None, Some(40)), None);
    assert_eq!(compute_delta_mb(Some(0), Some(2047)), Some(1));
    assert_eq!(compute_delta_mb(Some(2047), Some(0)), Some(-1));
    assert_eq!(compute_delta_mb(Some(2047), None), None);
}

#[test]
fn high_orders_are_summed() {
    let entry = |free_counts: Vec<u64>| BuddyInfoEntry {
        node: 0,
        zone: "Normal".to_string(),
        free_counts,
    };
    let entries = vec![
        entry(vec![100, 100, 100, 100, 4, 3]),
        entry(vec![1, 2, 3]),
        entry(vec![0, 0, 0, 0, 1]),
    ];
    assert_eq!(high_order_free_sum(&entries), 4 * 16 + 3 * 32 + 16);
    assert_eq!(high_order_free_sum(&[]), 0);
}

#[test]
fn a_failed_start_stops_the_run() {
    let mut state = AgingState::new(HoldLimit::Disabled, &["system".to_string()]);
    mark_init_error(&mut state);
    assert_eq!(state.total_errors, 1);
    assert!(!state.running);
}

fn interval(count: usize, avg_us: u64, p99_us: u64) -> LatencyStats {
    LatencyStats {
        count,
        min_us: 1,
        max_us: p99_us,
        avg_us,
        stddev_us: 0,
        p50_us: avg_us,
        p95_us: p99_us,
        p99_us,
        p99_9_us: p99_us,
        cv_pct: Double::from_int(0),
        trimmed_avg_us: avg_us,
        outlier_count: 0,
        throughput_ops: 0,
        ci95_us: 0,
        mad_us: 0,
    }
}

#[test]
fn progress_counts_from_line_to_line() {
    let mut state = AgingState::new(HoldLimit::Disabled, &["system".to_string()]);
    let mut progress = Progress::new();
    state.total_iters = 10;
    state.total_allocs = 8;
    state.total_frees = 6;
    state.interval_latencies = vec![5, 7];
    assert_eq!(state.take_interval(), vec![5, 7]);
    assert!(state.interval_latencies.is_empty());
    let shown = |fields: Vec<dhp::aging::summary::Field>| -> Vec<String> {
        fields.iter().map(|f| format!("{}={}", f.name, f.value)).collect()
    };
    let first = progress.report(&mut state, &Some(interval(2, 6, 7)), 3, false);
    assert_eq!(
        shown(first),
        vec![
            "elapsed=3s",
            "iters=10",
            "\u{2191}=8",
            "\u{2193}=6",
            "avg=6us",
            "p99=7us",
            "err=0",
            "held=0(0 B)",
            "trend=1.0x",
        ]
    );
    assert_eq!(state.cum_count, 2);
    assert_eq!(state.cum_sum, 12);
    state.total_allocs = 10;
    let second = progress.report(&mut state, &None, 4, true);
    assert_eq!(
        shown(second),
        vec![
            "elapsed=4s",
            "iters=10",
            "\u{2191}=2",
            "\u{2193}=0",
            "err=0",
            "held=0(0 B)",
            "trend=1.0x",
        ]
    );
    assert_eq!(state.cum_count, 2);
    end_interval(&mut state, &Some(interval(3, 4, 9)));
    assert_eq!(state.cum_count, 5);
    assert_eq!(state.peak_p99, 9);
}
