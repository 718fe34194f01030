//! The lines and decisions around the runs: pressure, environment, follow mode, scenarios,
//! histograms and containers.
use dhp::backend::delay::{delay_with, sim_delay};
use dhp::backend::mock::{page_align, MockBackend};
use dhp::bench::observe::{
    buddyinfo_summary, fragmentation_sequence, pagetypeinfo_summary, recovery_pct,
    sync_file_sequence,
};
use dhp::bench::op::{size_row, Op};
use dhp::bench::pressure::{
    adjusted_allocs, after_worker, concurrent_line, exhaust_line, exit_message, exit_outcome,
    extract_test_name, killed_message, killed_outcome, next_attempt, parse_worker_output,
    recovery_line, Followed, Next, WorkerEnd,
};
use dhp::bench::rows::{close_row, frag_pct, latency_row, scaling_row, stage_row};
use dhp::bench::steps::buddy_order;
use dhp::bench_env::env::{BenchEnv, BenchEnvConfig, Control, HostState};
use dhp::bench_env::host::{
    cmdline_cma, cpu_model, cpufreq_path, file_line, frequency, is_thermal_zone, sorted_zones,
    thermal_zone, ThermalZone,
};
use dhp::cli::HistMode;
use dhp::config::{
    default_configs, resolve_all_defaults, resolve_codec, resolve_display, resolve_gpu,
};
use dhp::double::Double;
use dhp::histogram::{average, bucket_choice, print_histogram, print_sequence};
use dhp::info::aggregate::{filter_buffers, filter_holdings};
use dhp::info::collect::{
    buffer_totals, format_permissions, report, reported_areas, sort_heaps, sort_holdings,
    written_line, Found, Wanted,
};
use dhp::info::follow::{
    activity_line, clock, format_size_signed, heap_usage, sample, status_line, turn,
    FollowSnapshot, VmStatDelta,
};
use dhp::info::format::{format_row, format_size_kb, Align};
use dhp::info::types::{
    memory_context, BuddyInfoEntry, CmaAreaStats, DebugfsBufEntry, DmaBufInfo, HeapCaps,
    HeapEntry, PageTypeInfoEntry, ProcessBufEntry, VmStat,
};
use dhp::scenario::camera::{self, CameraConfig};
use dhp::scenario::display::{layer_size, turned_size, DisplayConfig};
use dhp::scenario::gpu::{evict_count, evicted_slots, GpuConfig};
use dhp::scenario::npu::{self, chunk_params, NpuConfig};
use dhp::scenario::pipeline::{argb_size, Scene};
use dhp::stats::LatencyStats;
use dhp::workload::container::{
    merge_close_lifecycle, merge_flatten_container, merge_llseek_combined_size,
    merge_mmap_read_write, merge_single_buf, merge_sync, merge_two_bufs,
    neg_merge_closed_buf, neg_merge_invalid_fd, neg_merge_over_max, neg_merge_zero_count,
    neg_ops_after_close, primary_heap, set_get_mask_roundtrip,
};
use dhp::workload::edge::{failed_workers, worker_alloc};
use dhp::workload::pools::run_alloc_free;

fn stats() -> LatencyStats {
    LatencyStats {
        count: 10,
        min_us: 1,
        max_us: 9,
        avg_us: 4,
        stddev_us: 2,
        p50_us: 3,
        p95_us: 7,
        p99_us: 8,
        p99_9_us: 9,
        cv_pct: Double::from_int(50),
        trimmed_avg_us: 4,
        outlier_count: 0,
        throughput_ops: 250_000,
        ci95_us: 1,
        mad_us: 1,
    }
}

// Pressure.

#[test]
fn fewer_allocations_at_a_smaller_share() {
    assert_eq!(adjusted_allocs(500, 100), 500);
    assert_eq!(adjusted_allocs(505, 90), 454);
    assert_eq!(adjusted_allocs(0, 70), 0);
}

#[test]
fn what_follows_the_end_of_a_worker() {
    assert_eq!(next_attempt(WorkerEnd::Exit(0), 100), Next::Read);
    assert_eq!(next_attempt(WorkerEnd::Exit(3), 100), Next::ReportExit(3));
    assert_eq!(next_attempt(WorkerEnd::Killed, 100), Next::Retry(90));
    assert_eq!(next_attempt(WorkerEnd::Killed, 80), Next::Retry(70));
    assert_eq!(next_attempt(WorkerEnd::Killed, 70), Next::ReportKilled);
}

#[test]
fn messages_on_a_worker() {
    assert_eq!(exit_message(3), "worker exit code 3");
    assert_eq!(exit_message(-1), "worker exit code -1");
    assert_eq!(
        killed_message(70, 350),
        "worker OOM killed even at 70% (350 allocs)"
    );
}

#[test]
fn outcomes_of_a_worker() {
    let r = killed_outcome(70, 350);
    assert_eq!(r.name, "pressure_subprocess");
    assert!(!r.passed && !r.skipped);
    assert_eq!(r.error.as_deref(), Some("worker OOM killed even at 70% (350 allocs)"));
    let r = exit_outcome(2);
    assert_eq!(r.name, "pressure_subprocess");
    assert!(!r.passed && !r.skipped);
    assert_eq!(r.error.as_deref(), Some("worker exit code 2"));
}

#[test]
fn four_workers_that_are_killed() {
    let mut asked = Vec::new();
    let mut ratio = 100;
    let (results, error) = loop {
        asked.push(adjusted_allocs(505, ratio));
        match after_worker(WorkerEnd::Killed, "", 505, ratio) {
            Followed::Again(smaller) => ratio = smaller,
            Followed::Told(results, error) => break (results, error),
        }
    };
    assert_eq!(asked, [505, 454, 404, 353]);
    assert!(error.is_none());
    assert_eq!(results.len(), 1);
    assert_eq!(results[0].name, "pressure_subprocess");
    assert!(!results[0].passed);
    assert_eq!(
        results[0].error.as_deref(),
        Some("worker OOM killed even at 70% (353 allocs)")
    );
}

#[test]
fn a_worker_that_ends_by_itself() {
    let out = "[system] [PASS] pressure::recovery 12 us\n";
    match after_worker(WorkerEnd::Exit(0), out, 100, 90) {
        Followed::Told(results, None) => {
            assert_eq!(results.len(), 1);
            assert_eq!(results[0].name, "recovery");
            assert!(results[0].passed);
            assert_eq!(results[0].error.as_deref(), Some("at 90% capacity"));
        }
        other => panic!("{other:?}"),
    }
    match after_worker(WorkerEnd::Exit(3), out, 100, 90) {
        Followed::Told(results, None) => {
            assert_eq!(results.len(), 1);
            assert_eq!(results[0].error.as_deref(), Some("worker exit code 3"));
        }
        other => panic!("{other:?}"),
    }
}

#[test]
fn names_of_tests_in_a_workers_output() {
    assert_eq!(
        extract_test_name("[system] [PASS] pressure::recovery 12 us"),
        "recovery"
    );
    assert_eq!(extract_test_name("[system] [PASS] recovery"), "unknown");
    assert_eq!(extract_test_name("pressure::"), "unknown");
}

#[test]
fn a_workers_output_is_read() {
    let out = "starting\n  [system] [PASS] pressure::gradual_exhaust\n[system] [FAIL] pressure::recovery ENOMEM  \ndone\n";
    let full = parse_worker_output(out, 100);
    assert_eq!(full.len(), 2);
    assert_eq!(full[0].name, "gradual_exhaust");
    assert!(full[0].passed);
    assert_eq!(full[0].error, None);
    assert_eq!(full[1].name, "recovery");
    assert!(!full[1].passed);
    assert_eq!(
        full[1].error,
        Some("[system] [FAIL] pressure::recovery ENOMEM".to_string())
    );
    let less = parse_worker_output(out, 80);
    assert_eq!(less[0].error, Some("at 80% capacity".to_string()));
    assert!(parse_worker_output("", 100).is_empty());
}

#[test]
fn lines_on_pressure() {
    assert_eq!(
        exhaust_line("system", 300, 1 << 20, 12),
        "[system] pressure::gradual_exhaust count=300 total_mb=300 avg_latency_us=12"
    );
    assert_eq!(
        recovery_line("system", 300, 150, 150, 9),
        "[system] pressure::recovery total_before=300 released=150 recovered=150 avg_recovery_us=9"
    );
    assert_eq!(
        concurrent_line("system", 4, 25, 0),
        "[system] pressure::pressure_concurrent workers=4 allocs_per_worker=25 unexpected_failures=0"
    );
}

// Benchmarks.

#[test]
fn operations_a_heap_can_do() {
    let caps = HeapCaps {
        name: "system".to_string(),
        can_alloc: true,
        can_mmap: false,
        can_sync: false,
        can_write: false,
        can_llseek: true,
        can_sync_file: false,
        can_dup: true,
        alloc_granularity: 4096,
    };
    assert!(Op::Alloc.supported(&caps));
    assert!(Op::Close.supported(&caps));
    assert!(Op::Dup.supported(&caps));
    assert!(Op::Llseek.supported(&caps));
    assert!(!Op::Mmap.supported(&caps));
    assert!(!Op::SyncStartW.supported(&caps));
    assert!(!Op::ExportSyncFile.supported(&caps));
    assert!(!Op::Pipeline.supported(&caps));
}

#[test]
fn flags_of_measured_synchronisation() {
    assert_eq!(Op::SyncStartW.sync_flags(), Some((2, 6)));
    assert_eq!(Op::SyncEndW.sync_flags(), Some((6, 2)));
    assert_eq!(Op::SyncStartR.sync_flags(), Some((1, 5)));
    assert_eq!(Op::SyncEndRw.sync_flags(), Some((7, 3)));
    assert_eq!(Op::Mmap.sync_flags(), None);
}

#[test]
fn rows_of_tables() {
    assert_eq!(
        size_row(65_536, &stats()),
        vec!["64K", "4", "2", "3", "7", "8", "9", "250000"]
    );
    assert_eq!(
        latency_row(1 << 20, &stats()),
        vec!["1M", "4", "2", "3", "7", "8", "9"]
    );
    assert_eq!(
        close_row(4096, 10, 4),
        vec!["4K", "10", "4", "0.40", "fast"]
    );
    assert_eq!(stage_row("mmap", 1, 3), vec!["mmap", "1", "33.3"]);
    assert_eq!(stage_row("mmap", 0, 0), vec!["mmap", "0", "0.0"]);
    let scaled = scaling_row(1 << 20, 500, 1000);
    assert_eq!(scaled[0], "1M");
    assert_eq!(scaled[2], "50.0");
    assert_eq!(scaled[3], "500");
}

#[test]
fn orders_of_sizes() {
    assert_eq!(buddy_order(0), 0);
    assert_eq!(buddy_order(1), 0);
    assert_eq!(buddy_order(4096), 0);
    assert_eq!(buddy_order(4097), 1);
    assert_eq!(buddy_order(65_536), 4);
    assert_eq!(buddy_order(65_537), 5);
}

#[test]
fn surplus_of_buffers() {
    assert_eq!(frag_pct(100, 4096, 4096), "*");
    assert_eq!(frag_pct(4096, 4096, 4096), "0.0");
    assert_eq!(frag_pct(4096, 8192, 4096), "100.0");
    assert_eq!(frag_pct(8192, 4096, 4096), "-50.0");
}

#[test]
fn released_memory_that_came_back() {
    assert_eq!(recovery_pct(1000, 1500, 1000), "50.0");
    assert_eq!(recovery_pct(1500, 1000, 1000), "0.0");
    assert_eq!(recovery_pct(1000, 1500, 0), "0.0");
}

fn zone(free_counts: Vec<u64>) -> BuddyInfoEntry {
    BuddyInfoEntry {
        node: 0,
        zone: "Normal".to_string(),
        free_counts,
    }
}

#[test]
fn lines_on_free_blocks() {
    assert_eq!(
        buddyinfo_summary("before", &[zone(vec![1, 1, 1, 1, 2, 3])]),
        "fragmentation: buddyinfo label=before node=0 zone=Normal high_order_free=128\n"
    );
    let of = |page_type: &str| PageTypeInfoEntry {
        node: 0,
        zone: "DMA".to_string(),
        page_type: page_type.to_string(),
        free_counts: vec![0, 0, 0, 0, 7],
    };
    assert_eq!(
        pagetypeinfo_summary("after", &[of("CMA"), of("Isolate")]),
        "fragmentation: pagetypeinfo label=after node=0 zone=DMA page_type=CMA high_order_free=112\n"
    );
}

#[test]
fn plans_that_are_told() {
    let s = fragmentation_sequence("system", "sequential");
    assert!(s.starts_with("fragmentation sequence:\n  heap: system\n  pattern: sequential\n"));
    assert!(s.contains("free first half"));
    assert!(fragmentation_sequence("system", "interleaved").contains("free even indices"));
    assert!(sync_file_sequence("cma").starts_with("sync_file sequence:\n  heap: cma\n"));
}

// The environment of a benchmark.

#[test]
fn text_of_small_files() {
    assert_eq!(file_line(" schedutil\n"), Some("schedutil".to_string()));
    assert_eq!(file_line(" \n"), None);
    assert_eq!(frequency("1800000\n"), Some(1_800_000));
    assert_eq!(frequency("fast\n"), None);
    assert_eq!(
        cmdline_cma("root=/dev/sda cma=256M quiet cma=1M"),
        Some("cma=256M".to_string())
    );
    assert_eq!(cmdline_cma("quiet"), None);
    assert_eq!(
        cpu_model("processor : 0\nmodel name\t: Example 9000\n"),
        Some("Example 9000".to_string())
    );
    assert_eq!(
        cpu_model("Hardware\t: Board\nmodel name: Other\n"),
        Some("Board".to_string())
    );
    assert_eq!(cpu_model("processor : 0\n"), None);
    assert_eq!(
        cpufreq_path(4, "scaling_governor"),
        "/sys/devices/system/cpu/cpu4/cpufreq/scaling_governor"
    );
}

#[test]
fn zones_of_heat() {
    assert!(is_thermal_zone("thermal_zone0"));
    assert!(!is_thermal_zone("cooling_device0"));
    let z = thermal_zone("cpu-thermal\n", Some("45000\n")).unwrap();
    assert_eq!(z.zone_type, "cpu-thermal");
    assert_eq!(z.temp_mc, 45_000);
    assert_eq!(thermal_zone("gpu", None).unwrap().temp_mc, 0);
    assert_eq!(thermal_zone("gpu", Some("hot")).unwrap().temp_mc, 0);
    assert_eq!(thermal_zone("gpu", Some("-5000")).unwrap().temp_mc, -5000);
    let of = |zone_type: &str, temp_mc: i32| ThermalZone {
        zone_type: zone_type.to_string(),
        temp_mc,
    };
    let sorted = sorted_zones(vec![of("gpu", 1), of("cpu", 3), of("cpu", 2)]);
    let shown: Vec<(&str, i32)> = sorted
        .iter()
        .map(|z| (z.zone_type.as_str(), z.temp_mc))
        .collect();
    assert_eq!(shown, vec![("cpu", 3), ("cpu", 2), ("gpu", 1)]);
}

fn shown(v: &[Control]) -> Vec<String> {
    v.iter()
        .map(|c| match c {
            Control::Affinity(cpu) => format!("affinity {cpu}"),
            Control::Governor(cpu, g) => format!("governor {cpu} {g}"),
            Control::Nice(n) => format!("nice {n}"),
        })
        .collect()
}

#[test]
fn what_was_set_is_set_back() {
    let config = BenchEnvConfig {
        cpu: None,
        enabled: true,
    };
    let host = HostState {
        fastest_core: Some(7),
        governor: Some("schedutil".to_string()),
        nice: 5,
    };
    let mut env = BenchEnv::setup(&config, &host);
    assert_eq!(env.bench_cpu(), 7);
    let controls = env.controls(true);
    assert_eq!(
        shown(&controls),
        vec!["affinity 7", "governor 7 performance", "nice -20"]
    );
    for c in &controls {
        env.applied(c, true);
    }
    assert_eq!(env.env_control().nice_value, -20);
    assert_eq!(shown(&env.restore()), vec!["governor 7 schedutil", "nice 5"]);
}

#[test]
fn what_was_not_set_is_not_set_back() {
    let config = BenchEnvConfig {
        cpu: Some(2),
        enabled: true,
    };
    let host = HostState {
        fastest_core: Some(7),
        governor: None,
        nice: 0,
    };
    let mut env = BenchEnv::setup(&config, &host);
    assert_eq!(env.bench_cpu(), 2);
    let controls = env.controls(true);
    assert_eq!(shown(&controls), vec!["affinity 2", "nice -20"]);
    for c in &controls {
        env.applied(c, false);
    }
    assert!(env.restore().is_empty());
    assert!(env.controls(false).is_empty());
}

// The simulated device.

#[test]
fn delays_grow_with_the_size() {
    assert_eq!(delay_with(8192, 1000, 1, 2, 1000), 1000);
    assert_eq!(delay_with(8193, 1000, 1, 2, 1300), 1950);
    assert_eq!(delay_with(4096, 1000, 1, 1, 700), 700);
    assert_eq!(delay_with(4096, 0, 1, 1, 700), 0);
}

#[test]
fn jitter_stays_within_its_bounds() {
    let mut seen = Vec::new();
    for _ in 0..200 {
        let d = sim_delay(4096, 1000, 1, 1);
        assert!((700..=1300).contains(&d), "{d}");
        if !seen.contains(&d) {
            seen.push(d);
        }
    }
    assert!(seen.len() > 1);
    assert_eq!(sim_delay(4096, 0, 1, 1), 0);
}

#[test]
fn sizes_are_rounded_up_to_pages() {
    assert_eq!(page_align(0), Some(0));
    assert_eq!(page_align(1), Some(4096));
    assert_eq!(page_align(4096), Some(4096));
    assert_eq!(page_align(u64::MAX), None);
}

#[test]
fn heaps_of_the_simulated_device() {
    let many = MockBackend::new_multi_heap();
    let names = many.available_heaps();
    assert!(names.contains(&"system".to_string()));
    assert!(names.len() > 1);
    let realistic = MockBackend::new_multi_heap_realistic();
    assert_eq!(realistic.available_heaps(), names);
    assert_eq!(many.buffer_count(), 0);
}

// Containers.

#[test]
fn containers_on_the_simulated_device() {
    let mut b = MockBackend::new();
    assert!(merge_two_bufs(&mut b, "system").is_ok());
    assert!(merge_single_buf(&mut b, "system").is_ok());
    assert!(merge_close_lifecycle(&mut b, "system").is_ok());
    assert!(set_get_mask_roundtrip(&mut b, "system").is_ok());
    assert!(neg_merge_zero_count(&mut b, "system").is_ok());
    assert!(neg_merge_over_max(&mut b, "system").is_ok());
    assert!(neg_merge_invalid_fd(&mut b, "system").is_ok());
    assert!(neg_merge_closed_buf(&mut b, "system").is_ok());
    assert!(neg_ops_after_close(&mut b, "system").is_ok());
    assert_eq!(b.buffer_count(), 0);
}

/// The simulated device opens no container: its data cannot be reached.
#[test]
fn closed_containers_on_the_simulated_device() {
    let mut b = MockBackend::new();
    assert!(merge_flatten_container(&mut b, "system").is_err());
    assert!(merge_mmap_read_write(&mut b, "system").is_err());
    assert!(merge_llseek_combined_size(&mut b, "system").is_err());
    assert!(merge_sync(&mut b, "system").is_err());
    assert_eq!(b.buffer_count(), 0);
}

#[test]
fn the_heap_that_containers_are_made_of() {
    let of = |v: &[&str]| -> Vec<String> { v.iter().map(|s| s.to_string()).collect() };
    assert_eq!(primary_heap(&of(&["cma", "system"])), "system");
    assert_eq!(primary_heap(&of(&["cma", "reserved"])), "cma");
    assert_eq!(primary_heap(&[]), "system");
}

#[test]
fn workers_one_after_the_other() {
    let mut b = MockBackend::new();
    assert!(worker_alloc(&mut b, "system", 0x42).is_ok());
    assert_eq!(failed_workers(&mut b, "system", 4), 0);
    assert_eq!(failed_workers(&mut b, "", 3), 3);
    assert_eq!(b.buffer_count(), 0);
}

#[test]
fn buffers_taken_and_let_go() {
    let mut b = MockBackend::new();
    let run = run_alloc_free(&mut b, "system", 4096, 5);
    assert!(run.result.is_ok());
    assert_eq!(b.buffer_count(), 0);
}

// Follow mode and the report's parts.

fn vmstat(direct: u64, stolen: u64, kswapd: u64, stall: u64) -> VmStat {
    VmStat {
        pgscan_direct: Some(direct),
        pgsteal_direct: Some(stolen),
        pgscan_kswapd: Some(kswapd),
        compact_stall: Some(stall),
        ..VmStat::default()
    }
}

#[test]
fn activity_between_two_samples() {
    let a = vmstat(10, 5, 100, 1);
    let b = vmstat(15, 8, 90, 4);
    let d = VmStatDelta::compute(Some(&a), Some(&b)).unwrap();
    assert_eq!(d.pgscan_direct, 5);
    assert_eq!(d.pgsteal_direct, 3);
    assert_eq!(d.pgscan_kswapd, 0);
    assert_eq!(d.compact_stall, 3);
    assert!(d.has_activity());
    assert_eq!(
        activity_line(&d),
        "           direct_reclaim: +5/+3  compact: +3"
    );
    assert!(!VmStatDelta::compute(Some(&a), Some(&a)).unwrap().has_activity());
    assert!(VmStatDelta::compute(None, Some(&b)).is_none());
}

#[test]
fn all_sorts_of_activity() {
    let d = VmStatDelta {
        pgscan_direct: 1,
        pgsteal_direct: 2,
        pgscan_kswapd: 3,
        compact_stall: 4,
        allocstall_normal: 5,
        oom_kill: 6,
    };
    assert_eq!(
        activity_line(&d),
        "           direct_reclaim: +1/+2  kswapd: +3  compact: +4  alloc_stall: +5  oom_kill: +6"
    );
}

#[test]
fn signed_sizes_and_the_clock() {
    assert_eq!(format_size_signed(0), "+0 B");
    assert_eq!(format_size_signed(-2048), "-2.0 KiB");
    assert_eq!(format_size_signed(3 << 20), "+3.0 MiB");
    assert_eq!(format_size_signed(i64::MIN), "-8589934592.0 GiB");
    assert_eq!(format_size_kb(2048), "2.0 MiB");
    assert_eq!(clock(0), "00:00:00");
    assert_eq!(clock(86_400 + 3 * 3600 + 4 * 60 + 5), "03:04:05");
}

#[test]
fn status_lines() {
    let first = FollowSnapshot {
        total_buffers: 2,
        total_size: 8192,
        mem_available_kb: Some(1024),
        vmstat: None,
        psi_mem_avg10: None,
        pool_kb: None,
    };
    assert_eq!(
        status_line(3661, 2, &None, &first),
        "[01:01:01] heaps=2 bufs=2 size=8.0 KiB mem_avail=1.0 MiB"
    );
    assert_eq!(
        status_line(0, 2, &Some(first), &first),
        "[00:00:00] heaps=2 bufs=2 size=8.0 KiB mem_avail=1.0 MiB  (no change)"
    );
    let second = FollowSnapshot {
        total_buffers: 1,
        total_size: 4096,
        mem_available_kb: None,
        vmstat: None,
        psi_mem_avg10: Some(150),
        pool_kb: Some(64),
    };
    assert_eq!(
        status_line(0, 2, &Some(first), &second),
        "[00:00:00] heaps=2 bufs=1 size=4.0 KiB mem_avail=N/A psi=1.5% pool=64.0 KiB  (-1 bufs, -4.0 KiB)"
    );
}

fn buffer(exp: &str, size: u64) -> DebugfsBufEntry {
    DebugfsBufEntry {
        size,
        flags: 0,
        mode: 0,
        count: 1,
        exp_name: exp.to_string(),
        ino: 1,
        name: String::new(),
        attached_devices: Vec::new(),
    }
}

fn holding(pid: u32, fd: u32, exp: &str) -> ProcessBufEntry {
    ProcessBufEntry {
        pid,
        comm: "app".to_string(),
        fd,
        size: 4096,
        count: 1,
        exp_name: exp.to_string(),
        name: None,
    }
}

#[test]
fn buffers_of_one_heap() {
    let v = [buffer("system", 4096), buffer("cma", 1024), buffer("system", 4096)];
    assert_eq!(heap_usage(&v, "system", false), "  system: 2 bufs 8.0 KiB");
    assert_eq!(heap_usage(&v, "system", true), "  system: 2 bufs 8.0 KiB (2)");
    assert_eq!(heap_usage(&v, "other", false), "  other: 0 bufs 0 B");
}

#[test]
fn entries_are_filtered_by_heap() {
    let only = ["cma".to_string()];
    let kept = filter_buffers(vec![buffer("system", 1), buffer("cma", 2)], &only);
    assert_eq!(kept.len(), 1);
    assert_eq!(kept[0].exp_name, "cma");
    assert_eq!(filter_buffers(vec![buffer("system", 1)], &[]).len(), 0);
    let held = filter_holdings(vec![holding(1, 3, "system"), holding(2, 3, "cma")], &only);
    assert_eq!(held.len(), 1);
    assert_eq!(held[0].pid, 2);
}

#[test]
fn turns_of_follow_mode() {
    let listed = Some(vec![buffer("system", 4096), buffer("cma", 1024)]);
    let first = sample(&listed, &Vec::new(), None, Some(vmstat(1, 0, 0, 0)), None, None);
    assert_eq!((first.total_buffers, first.total_size), (2, 5120));
    let second = sample(&listed, &Vec::new(), None, Some(vmstat(3, 1, 0, 0)), None, None);
    let heaps = ["cma".to_string(), "system".to_string()];
    assert_eq!(
        turn(0, 2, &None, &first, &listed, false, &heaps),
        "[00:00:00] heaps=2 bufs=2 size=5.0 KiB mem_avail=N/A\n"
    );
    assert_eq!(
        turn(1, 2, &Some(first), &second, &listed, true, &heaps),
        "[00:00:01] heaps=2 bufs=2 size=5.0 KiB mem_avail=N/A  (no change)\n           direct_reclaim: +2/+1\n  cma: 1 bufs 1.0 KiB (1)  system: 1 bufs 4.0 KiB (1)\n"
    );
    assert_eq!(
        turn(1, 2, &Some(first), &first, &None, true, &heaps),
        "[00:00:01] heaps=2 bufs=2 size=5.0 KiB mem_avail=N/A  (no change)\n"
    );
}

fn found() -> Found {
    Found {
        heaps: Vec::new(),
        debugfs: Some(vec![buffer("system", 4096), buffer("cma", 1024)]),
        sysfs: Vec::new(),
        holdings: Some(vec![holding(1, 3, "system"), holding(2, 3, "cma")]),
        meminfo: None,
        vmstat: None,
        vm_params: None,
        zones: Some(Vec::new()),
        buddyinfo: Some(vec![zone(vec![1])]),
        pagetypeinfo: None,
        heap_caps: Some(Vec::new()),
        cma_areas: Vec::new(),
        dma_heap_pool_kb: Some(64),
        psi_memory: None,
        psi_io: None,
    }
}

#[test]
fn a_report_holds_what_is_asked_for() {
    let plain = Wanted {
        detail: false,
        filter: None,
        procfs: false,
        probe: false,
    };
    let r = report(found(), &plain);
    assert_eq!((r.total_buffers, r.total_buffer_size_bytes), (2, 5120));
    assert!(r.buffers.is_none() && r.process_usage.is_none());
    assert!(r.zones.is_none() && r.buddyinfo.is_none() && r.heap_caps.is_none());
    assert_eq!(r.dma_heap_pool_kb, Some(64));
    assert_eq!(
        written_line("out.json", &r),
        "Info report written to out.json (0 heaps, 2 buffers, 5.0 KiB)"
    );
    let all = Wanted {
        detail: true,
        filter: Some(vec!["cma".to_string()]),
        procfs: true,
        probe: true,
    };
    let r = report(found(), &all);
    assert_eq!(r.total_buffers, 2);
    assert_eq!(r.buffers.unwrap().len(), 1);
    assert_eq!(r.process_usage.unwrap()[0].pid, 2);
    assert_eq!(r.buddyinfo.unwrap().len(), 1);
    assert!(r.heap_caps.is_some() && r.cma_areas.is_none());
}

#[test]
fn permissions_of_a_device() {
    assert_eq!(format_permissions(0o020_644), "crw-r--r--");
    assert_eq!(format_permissions(0o060_751), "brwxr-x--x");
    assert_eq!(format_permissions(0o100_000), "----------");
}

#[test]
fn lists_are_sorted() {
    let heap = |name: &str| HeapEntry {
        name: name.to_string(),
        path: String::new(),
        accessible: true,
        permissions: None,
    };
    let names: Vec<String> = sort_heaps(vec![heap("system"), heap("cma"), heap("reserved")])
        .into_iter()
        .map(|h| h.name)
        .collect();
    assert_eq!(names, vec!["cma", "reserved", "system"]);
    let order: Vec<(u32, u32)> = sort_holdings(vec![
        holding(2, 1, "a"),
        holding(1, 9, "a"),
        ProcessBufEntry {
            size: 8192,
            ..holding(7, 3, "a")
        },
        holding(1, 3, "a"),
    ])
    .into_iter()
    .map(|h| (h.pid, h.fd))
    .collect();
    assert_eq!(order, vec![(7, 3), (1, 9), (1, 3), (2, 1)]);
}

#[test]
fn totals_come_from_the_better_source() {
    let sysfs = vec![DmaBufInfo {
        ino: 1,
        size: 100,
        exporter_name: "cma".to_string(),
    }];
    let (summary, count, size) = buffer_totals(&None, &sysfs);
    assert_eq!((summary.len(), count, size), (1, 1, 100));
    assert_eq!(summary[0].exporter_name, "cma");
    let debugfs = Some(vec![buffer("system", 4096), buffer("system", 1)]);
    let (summary, count, size) = buffer_totals(&debugfs, &sysfs);
    assert_eq!((summary.len(), count, size), (1, 2, 4097));
    assert_eq!(summary[0].exporter_name, "system");
}

#[test]
fn areas_are_reported_where_there_are_any() {
    assert!(reported_areas(Vec::new()).is_none());
    let area = CmaAreaStats {
        name: "linux,cma".to_string(),
        alloc_pages_success: 1,
        alloc_pages_fail: 0,
        release_pages_success: 1,
    };
    assert_eq!(reported_areas(vec![area]).unwrap().len(), 1);
    assert!(memory_context(None, Some(VmStat::default())).is_none());
}

#[test]
fn rows_are_padded() {
    assert_eq!(
        format_row(&[6, 4], &[Align::Left, Align::Right], &["ab", "12"]),
        "  ab        12"
    );
}

// Scenarios.

#[test]
fn the_camera_tells() {
    let s = camera::sequence("system", &CameraConfig::default());
    assert!(s.starts_with("scenario camera sequence:\n  heap: system\n  preview: "));
    assert_eq!(
        camera::preview_line(3_110_400, 4, &stats()),
        "scenario camera: preview buf_size=3110400 pool_size=4 p50_us=3 p95_us=7"
    );
    assert_eq!(
        camera::capture_line(100, 10, &stats()),
        "scenario camera: capture capture_size=100 burst_count=10 p50_us=3 p95_us=7 max_us=9"
    );
    assert_eq!(
        camera::capture_release_line(77),
        "scenario camera: capture_release close_us=77"
    );
    assert_eq!(
        camera::switch_line(0, 1920, 1080, 3_110_400, 55, &stats()),
        "scenario camera: switch phase=1 width=1920 height=1080 buf_size=3110400 alloc_us=55 p50_us=3"
    );
    assert_eq!(
        camera::stream_line(1, 30, &stats()),
        "scenario camera: multi_stream stream_id=1 frames=30 p50_us=3 p95_us=7"
    );
}

#[test]
fn the_inference_unit_tells() {
    assert_eq!(chunk_params(100, 30), (4, 30));
    assert_eq!(chunk_params(90, 30), (3, 30));
    assert_eq!(chunk_params(100, 0), (1, 100));
    let s = npu::sequence("system", &NpuConfig::default());
    assert!(s.starts_with("scenario npu sequence:\n  heap: system\n  model_size: "));
    assert_eq!(
        npu::load_line(4, 30, 99, &stats()),
        "scenario npu: model_load chunks=4 chunk_size=30 total_alloc_us=99 p50_us=3 p95_us=7"
    );
    assert_eq!(
        npu::probe_line(4096, Some(5)),
        "scenario npu: model_load_probe_ok probe_size=4096 probe_us=5"
    );
    assert_eq!(
        npu::probe_line(4096, None),
        "scenario npu: model_load_probe_enomem probe_size=4096"
    );
    assert_eq!(
        npu::loop_line(100, &stats()),
        "scenario npu: inference_loop iterations=100 p50_us=3 p95_us=7 p99_us=8"
    );
    assert_eq!(
        npu::client_line(2, 25, &stats()),
        "scenario npu: concurrent_client client_id=2 iterations=25 p50_us=3 p95_us=7"
    );
    let times: Vec<u64> = (0..120).collect();
    let windows = npu::snapshot_windows(&times);
    assert_eq!(windows.len(), 2);
    assert_eq!(windows[0], (50, (0..50).collect()));
    assert_eq!(windows[1], (100, (50..100).collect()));
    assert!(npu::snapshot_windows(&times[..49]).is_empty());
    assert_eq!(
        npu::first_model_line(8),
        "scenario npu: model_switch_phase1 chunks=8"
    );
    assert_eq!(
        npu::next_model_line(2, 16, 700, &stats()),
        "scenario npu: model_switch_phase2 chunks=16 total_us=700 p50_us=3"
    );
    assert_eq!(
        npu::model_released_line(12),
        "scenario npu: model_switch_phase3 release_us=12"
    );
    assert_eq!(
        npu::snapshot_line(50, 50, &stats()),
        "scenario npu: sustained_snapshot iteration=50 window_size=50 p50_us=3 p95_us=7 p99_us=8"
    );
}

#[test]
fn sizes_of_screens() {
    let c = DisplayConfig {
        width: 1080,
        height: 1920,
        ..DisplayConfig::default()
    };
    assert_eq!(layer_size(&c, 0), 1080 * 1920 * 4);
    assert_eq!(layer_size(&c, 3), 1080 * 240 * 4);
    assert_eq!(turned_size(&c, 0), turned_size(&c, 1));
    assert_eq!(argb_size(1080, 1920), 1080 * 1920 * 4);
    assert_eq!(Scene::VideoCall.parts().len(), 4);
    assert_eq!(Scene::AiCamera.parts()[1].size, 602_112);
}

#[test]
fn textures_are_evicted_in_turn() {
    let c = GpuConfig {
        pool_size: 10,
        evict_pct: 25,
        ..GpuConfig::default()
    };
    assert_eq!(evict_count(&c), 2);
    assert_eq!(evicted_slots(10, 0, 2), vec![0, 3]);
    assert_eq!(evicted_slots(10, 1, 9), vec![2, 5, 8]);
    assert_eq!(evicted_slots(10, 2, 0), Vec::<usize>::new());
}

#[test]
fn settings_of_the_command_line_win() {
    let d = resolve_display(None, Some(100), None, Some(7));
    let plain = DisplayConfig::default();
    assert_eq!((d.width, d.height, d.frames), (100, plain.height, 7));
    let c = resolve_codec(None, None, Some(50), None);
    assert_eq!(c.height, 50);
    let file = GpuConfig {
        buffer_count: 5,
        ..GpuConfig::default()
    };
    assert_eq!(resolve_gpu(Some(&file), None, Some(1)).buffer_count, 5);
    assert_eq!(resolve_gpu(Some(&file), Some(6), None).buffer_count, 6);
    let all = resolve_all_defaults(Some(&default_configs()));
    assert_eq!(all.gpu.buffer_count, GpuConfig::default().buffer_count);
    assert_eq!(all.npu.iterations, NpuConfig::default().iterations);
}

// Histograms.

#[test]
fn a_histogram_of_one_value() {
    let expected = format!(
        "--- system @ 4096 bytes (alloc-only) ---\n\n  [ 42,  42] |    10 100.0% 100.0% {}\n\n  percentiles (us):\n    p1=42 p5=42 p10=42 p25=42 p50=42 p75=42 p90=42 p95=42 p99=42 p99.9=42\n  summary: count=10 min=42 avg=42 max=42\n\n",
        "#".repeat(50)
    );
    assert_eq!(
        print_histogram("system", 4096, HistMode::AllocOnly, &[42; 10], 5),
        expected
    );
}

#[test]
fn a_histogram_of_two_values() {
    let s = print_histogram("system", 4096, HistMode::CloseOnly, &[3, 1, 1], 2);
    assert!(s.starts_with("--- system @ 4096 bytes (close-only) ---\n\n"), "{s}");
    assert!(s.contains("  [  1,   2) |     2  66.7%  66.7% "), "{s}");
    assert!(s.contains("  [  2,   3] |     1  33.3% 100.0% #################\n"), "{s}");
    assert!(s.contains("  summary: count=3 min=1 avg=1 max=3\n"), "{s}");
    assert_eq!(average(&[3, 1, 1]), 1);
}

#[test]
fn the_choice_of_buckets_is_told() {
    assert_eq!(bucket_choice(0, 1000), (11, "auto"));
    assert_eq!(bucket_choice(8, 1000), (8, "manual"));
    let s = print_sequence(
        &["system".to_string()],
        &[4096, 65_536],
        HistMode::FullPipeline,
        100,
        10,
        8,
        "manual",
    );
    assert!(s.contains("  samples: 100 (warmup: 10)\n  buckets: 8 (manual)\n"), "{s}");
    assert!(s.contains("  mode: full-pipeline\n"), "{s}");
}
