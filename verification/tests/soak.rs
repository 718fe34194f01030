//! Runs that go on for long, on the simulated device.
use dhp::aging::limit::HoldLimit;
use dhp::aging::pool::{HoldPool, ENOMEM_SHRINK_THRESHOLD, MIN_HOLD_SIZE, RECOVERY_THRESHOLD};
use dhp::aging::result::{build_result, AgingResult};
use dhp::aging::state::{
    per_thread_pool_limits, should_stop, take_snapshot, AgingState, SystemSnapshot,
};
use dhp::aging::summary::{complete_fields, print_summary, progress_fields};
use dhp::backend::mock::MockBackend;
use dhp::backend::model::SimConfig;
use dhp::bench::pressure::SubTestResult;
use dhp::info::types::HeapCaps;
use dhp::workload::soak::{soak, start_soaker, tell_run, Style};
use dhp::workload::worker::Turn;

fn caps(name: &str) -> HeapCaps {
    HeapCaps {
        name: name.to_string(),
        can_alloc: true,
        can_mmap: true,
        can_sync: true,
        can_write: true,
        can_llseek: true,
        can_sync_file: true,
        can_dup: true,
        alloc_granularity: 4096,
    }
}

fn fresh() -> AgingState {
    AgingState::new(HoldLimit::Count(1000), &["system".to_string()])
}

/// Runs workers, one after the other, for a number of iterations in all.
fn run_workers(
    b: &mut MockBackend,
    style: Style,
    threads: u32,
    state: &mut AgingState,
    iterations: u64,
    max_size: usize,
    seed: u64,
) {
    for number in 0..threads {
        let share = iterations * (u64::from(number) + 1) / u64::from(threads);
        let started = soak(
            b,
            &["system"],
            &[caps("system")],
            style,
            (max_size, 0),
            seed,
            number,
            state,
            Some(share),
            100_000,
        );
        assert!(started);
        state.running = true;
    }
}

fn nothing() -> SystemSnapshot {
    take_snapshot(None, None, None)
}

fn run(
    b: &mut MockBackend,
    size: Option<u64>,
    threads: u32,
    iterations: u64,
    fuzz: bool,
    limit: HoldLimit,
    seed: u64,
) -> (Vec<SubTestResult>, Option<String>, AgingResult) {
    let (count, _) = per_thread_pool_limits(limit, threads);
    let mut state = AgingState::new(limit, &["system".to_string()]);
    let style = if fuzz {
        Style::Fuzz { cap: size }
    } else {
        Style::Normal { size: size.unwrap_or(4096) }
    };
    run_workers(b, style, threads, &mut state, iterations, count.unwrap_or(usize::MAX), seed);
    let mode = if fuzz { "fuzz" } else { "normal" };
    let result = build_result(&state, mode, threads, &nothing(), &nothing(), 1);
    let (results, err) = tell_run(&state);
    (results, err, result)
}

fn pool_of(max: usize) -> HoldPool<u32> {
    HoldPool::new(max, 0)
}

#[test]
fn adaptive_shrink() {
    let mut pool = pool_of(16);
    for i in 0..16 {
        pool.push(i, 4096);
    }
    assert_eq!(pool.max_size(), 16);
    for _ in 0..ENOMEM_SHRINK_THRESHOLD {
        pool.notify_enomem();
    }
    assert_eq!(pool.max_size(), 8);
}

#[test]
fn adaptive_min_floor() {
    let mut pool = pool_of(MIN_HOLD_SIZE);
    for _ in 0..ENOMEM_SHRINK_THRESHOLD * 3 {
        pool.notify_enomem();
    }
    assert_eq!(pool.max_size(), MIN_HOLD_SIZE);
}

#[test]
fn adaptive_recovery() {
    let mut pool = pool_of(16);
    for _ in 0..ENOMEM_SHRINK_THRESHOLD {
        pool.notify_enomem();
    }
    assert_eq!(pool.max_size(), 8);
    for _ in 0..RECOVERY_THRESHOLD {
        pool.notify_success();
    }
    assert_eq!(pool.max_size(), 16);
}

#[test]
fn adaptive_recovery_ceiling() {
    let mut pool = pool_of(8);
    for _ in 0..ENOMEM_SHRINK_THRESHOLD {
        pool.notify_enomem();
    }
    assert_eq!(pool.max_size(), 4);
    for _ in 0..RECOVERY_THRESHOLD {
        pool.notify_success();
    }
    assert_eq!(pool.max_size(), 8);
    for _ in 0..RECOVERY_THRESHOLD {
        pool.notify_success();
    }
    assert_eq!(pool.max_size(), 8);
}

#[test]
fn drain_on_every_enomem() {
    let mut pool = pool_of(16);
    for i in 0..10 {
        pool.push(i, 4096);
    }
    assert_eq!(pool.len(), 10);
    pool.notify_enomem();
    assert!(pool.len() <= 5, "should drain at least half");
}

#[test]
fn oldest_leaves_first() {
    let mut pool = pool_of(3);
    assert!(pool.push(1, 100).is_empty());
    assert!(pool.push(2, 100).is_empty());
    assert!(pool.push(3, 100).is_empty());
    assert_eq!(pool.push(4, 100), vec![1]);
    assert_eq!(pool.held_bytes(), 300);
    assert_eq!(pool.drain_all(), vec![2, 3, 4]);
    assert_eq!(pool.held_bytes(), 0);
}

#[test]
fn fuzz_runs() {
    let mut b = MockBackend::new();
    let mut state = fresh();
    run_workers(&mut b, Style::Fuzz { cap: None }, 1, &mut state, 50, 8, 42);
    assert_eq!(b.buffer_count(), 0, "all buffers should be freed");
    assert_eq!(state.total_allocs, state.total_frees, "fuzz: allocs must equal frees after drain");
}

#[test]
fn fuzz_deterministic() {
    let mut counts = Vec::new();
    for _ in 0..2 {
        let mut b = MockBackend::new();
        let mut state = fresh();
        run_workers(&mut b, Style::Fuzz { cap: None }, 1, &mut state, 20, 8, 42);
        counts.push((state.total_iters, state.total_allocs, state.total_errors));
    }
    assert_eq!(counts[0], counts[1], "same seed should produce same iterations");
}

#[test]
fn fuzz_hold_pool_eviction() {
    let mut b = MockBackend::new();
    let mut state = fresh();
    run_workers(&mut b, Style::Fuzz { cap: None }, 1, &mut state, 20, 4, 42);
    assert_eq!(b.buffer_count(), 0, "all buffers should be freed after pool drain");
    assert_eq!(state.total_allocs, state.total_frees, "allocs must equal frees after pool drain");
}

#[test]
fn fuzz_multi_thread() {
    let mut b = MockBackend::new();
    let mut state = fresh();
    run_workers(&mut b, Style::Fuzz { cap: None }, 2, &mut state, 30, 8, 42);
    assert_eq!(b.buffer_count(), 0, "all buffers should be freed");
    assert_eq!(state.total_allocs, state.total_frees, "allocs must equal frees after drain");
}

#[test]
fn worker_single_heap() {
    let mut b = MockBackend::new();
    let mut state = fresh();
    run_workers(&mut b, Style::Normal { size: 4096 }, 1, &mut state, 20, 8, 0);
    assert_eq!(b.buffer_count(), 0, "all buffers should be freed");
    assert_eq!(state.total_allocs, state.total_frees, "normal mode: allocs must equal frees");
    assert_eq!(state.interval_latencies.len(), 20);
}

#[test]
fn worker_multi_thread() {
    let mut b = MockBackend::new();
    let mut state = fresh();
    run_workers(&mut b, Style::Normal { size: 4096 }, 2, &mut state, 20, 8, 0);
    assert_eq!(b.buffer_count(), 0, "all buffers should be freed");
}

#[test]
fn worker_with_duration() {
    let mut b = MockBackend::new();
    let mut state = fresh();
    let style = Style::Normal { size: 4096 };
    let names = ["system"];
    let mut soaker = start_soaker(&mut b, &names, style, 8, 0, 0, 0).unwrap();
    let start = std::time::Instant::now();
    while !should_stop(&mut state, false, start.elapsed().as_millis() >= 100, None) {
        soaker.work(&mut b, &names, &[caps("system")], &mut state, None, 1);
    }
    soaker.finish(&mut b, &names, &mut state);
    assert_eq!(b.buffer_count(), 0);
    assert!(state.total_iters > 0);
}

#[test]
fn worker_no_hold() {
    let mut b = MockBackend::new();
    let mut state = fresh();
    run_workers(&mut b, Style::Normal { size: 4096 }, 1, &mut state, 20, 0, 0);
    assert_eq!(b.buffer_count(), 0);
    assert_eq!(state.total_allocs, state.total_frees);
    assert_eq!(state.total_allocs, state.total_iters);
}

#[test]
fn every_second_buffer_may_be_held() {
    let mut b = MockBackend::new();
    let names = ["system"];
    let style = Style::Normal { size: 4096 };
    let mut soaker = start_soaker(&mut b, &names, style, 8, 0, 0, 0).unwrap();
    let mut held = Vec::new();
    for _ in 0..12 {
        match soaker.turn(&mut b, &names, &[caps("system")]) {
            Turn::Done { error, .. } => assert!(!error),
            _ => panic!("a turn failed"),
        }
        held.push(b.buffer_count());
    }
    assert!(held.last().unwrap() > &0);
    let mut state = fresh();
    soaker.finish(&mut b, &names, &mut state);
    assert_eq!(b.buffer_count(), 0);
    assert_eq!(state.total_frees as usize, *held.last().unwrap());
}

#[test]
fn no_heap_is_an_error() {
    let mut b = MockBackend::new();
    let mut state = fresh();
    let style = Style::Normal { size: 4096 };
    let started =
        soak(&mut b, &[""], &[caps("")], style, (8, 0), 0, 0, &mut state, Some(5), 100);
    assert!(!started);
    assert_eq!(state.total_errors, 1);
    assert!(!state.running);
    let (results, err) = tell_run(&state);
    assert!(!results[0].passed);
    assert!(err.is_some());
}

#[test]
fn run_normal_passes() {
    let mut b = MockBackend::new();
    let (results, err, ar) = run(&mut b, None, 1, 10, false, HoldLimit::Count(32), 0);
    assert!(err.is_none(), "unexpected error: {err:?}");
    assert!(results.iter().all(|t| t.passed));
    assert_eq!(ar.mode, "normal");
    assert!(ar.total_iters >= 10);
    assert_eq!(ar.total_errors, 0);
    assert_eq!(ar.enomem_count, 0);
}

#[test]
fn run_fuzz_passes() {
    let mut b = MockBackend::new();
    let (results, err, ar) = run(&mut b, None, 1, 10, true, HoldLimit::Count(8), 42);
    assert!(err.is_none(), "unexpected error: {err:?}");
    assert!(results.iter().all(|t| t.passed));
    assert_eq!(ar.mode, "fuzz");
    assert!(ar.total_iters >= 10);
}

#[test]
fn run_fuzz_with_size_cap() {
    let mut b = MockBackend::new();
    let (results, err, ar) = run(&mut b, Some(65536), 1, 20, true, HoldLimit::Count(8), 42);
    assert!(err.is_none(), "unexpected error: {err:?}");
    assert!(results.iter().all(|t| t.passed));
    assert_eq!(ar.mode, "fuzz");
    assert!(ar.total_iters >= 20);
}

#[test]
fn aging_with_enomem_pressure() {
    let mut b = MockBackend::with_sim(SimConfig { enomem_threshold: Some(5), ..Default::default() });
    let (results, err, ar) = run(&mut b, None, 1, 30, false, HoldLimit::Count(8), 0);
    assert!(err.is_none(), "unexpected error: {err:?}");
    assert!(results.iter().all(|t| t.passed));
    assert!(ar.enomem_count > 0, "should have seen ENOMEM");
    assert_eq!(b.buffer_count(), 0, "all buffers should be freed");
}

#[test]
fn aging_with_error_injection() {
    let mut b = MockBackend::with_sim(SimConfig { fail_every_nth: 5, ..Default::default() });
    let (_, _, ar) = run(&mut b, None, 1, 50, false, HoldLimit::Count(8), 0);
    assert!(ar.total_errors > 0, "should have injected errors");
    assert_eq!(b.buffer_count(), 0, "all buffers should be freed");
}

#[test]
fn aging_fuzz_with_enomem_pressure() {
    let mut b = MockBackend::with_sim(SimConfig { enomem_threshold: Some(4), ..Default::default() });
    let (results, err, ar) = run(&mut b, None, 1, 100, true, HoldLimit::Count(8), 42);
    assert!(err.is_none(), "unexpected error: {err:?}");
    assert!(results.iter().all(|t| t.passed));
    assert!(ar.enomem_count > 0, "fuzz should have seen ENOMEM");
    assert_eq!(b.buffer_count(), 0, "all buffers should be freed");
}

#[test]
fn normal_hold_pool_balance() {
    let mut b = MockBackend::new();
    let (results, err, ar) = run(&mut b, None, 2, 30, false, HoldLimit::Count(16), 0);
    assert!(err.is_none(), "unexpected error: {err:?}");
    assert!(results.iter().all(|t| t.passed));
    assert_eq!(ar.total_allocs, ar.total_frees, "allocs must equal frees after drain");
    assert_eq!(b.buffer_count(), 0, "all buffers should be freed");
}

#[test]
fn lines_of_progress() {
    let mut b = MockBackend::new();
    let mut state = fresh();
    run_workers(&mut b, Style::Normal { size: 4096 }, 1, &mut state, 10, 0, 0);
    let fields = progress_fields(&state, 7, 4, 3, 12, 34, false);
    let texts: Vec<(&str, &str)> = fields.iter().map(|f| (f.name, f.value.as_str())).collect();
    assert_eq!(
        texts,
        vec![
            ("elapsed", "7s"),
            ("iters", "10"),
            ("\u{2191}", "6"),
            ("\u{2193}", "7"),
            ("avg", "12us"),
            ("p99", "34us"),
            ("err", "0"),
            ("held", texts[7].1),
            ("trend", "1.0x"),
        ]
    );
    assert_eq!(progress_fields(&state, 7, 4, 3, 12, 34, true).len(), 7);
    assert_eq!(complete_fields(&state, 9)[0].value, "9s");
}

#[test]
fn summary_of_a_run() {
    let mut b = MockBackend::new();
    let (_, _, ar) = run(&mut b, None, 1, 10, false, HoldLimit::Count(32), 0);
    let text = print_summary(&ar, false);
    assert!(!text.is_empty());
}
