//! Small rules: what counts as activity, when to wait, what several come to.
use dhp::aging::fuzz::{build_weighted_table, random_size, select_pipeline};
use dhp::aging::limit::HoldLimit;
use dhp::aging::state::{per_thread_pool_limits, AgingState};
use dhp::aging::trace::{reporter_step, trace_counters, ReporterAction};
use dhp::backend::ioctl::Errno;
use dhp::backend::mock::MockBackend;
use dhp::backend::model::SimConfig;
use dhp::double::Double;
use dhp::info::aggregate::{aggregate_debugfs, debugfs_total_size};
use dhp::info::follow::{activity_line, VmStatDelta};
use dhp::info::types::{DebugfsBufEntry, HeapCaps};
use dhp::size::format_size_label;
use dhp::workload::fuzzing::{worker_seed, FuzzWorker};
use dhp::workload::negative::{self, run_but_for_the_race};
use dhp::workload::pressure::{self, pressure_worker, workers_outcome};
use dhp::workload::run::Run;
use dhp::workload::scene::camera::CameraRuns;
use dhp::workload::scene::npu::{ModelLoad, NpuRuns};
use dhp::workload::scene::pipeline::SceneRuns;
use dhp::workload::soak::{start_soaker, Soaker, Style};
use dhp::workload::suite::errno_name;
use dhp::workload::worker::Turn;
use rand::Rng;

fn still() -> VmStatDelta {
    VmStatDelta {
        pgscan_direct: 0,
        pgsteal_direct: 0,
        pgscan_kswapd: 0,
        compact_stall: 0,
        allocstall_normal: 0,
        oom_kill: 0,
    }
}

#[test]
fn stolen_pages_are_activity() {
    let d = VmStatDelta { pgsteal_direct: 7, ..still() };
    assert!(d.has_activity());
    assert_eq!(activity_line(&d).trim(), "");
    let both = VmStatDelta { pgscan_direct: 9, ..d };
    assert_eq!(activity_line(&both).trim(), "direct_reclaim: +9/+7");
    assert!(!still().has_activity());
    assert!(VmStatDelta { oom_kill: 1, ..still() }.has_activity());
}

#[test]
fn labels_of_odd_sizes() {
    assert_eq!(format_size_label(12288), "12288B");
    assert_eq!(format_size_label(3 << 20), "3145728B");
    assert_eq!(format_size_label(2048), "2K");
    assert_eq!(format_size_label(0), "0B");
}

#[test]
fn shares_of_a_hold_limit() {
    assert_eq!(per_thread_pool_limits(HoldLimit::Count(1), 2), (Some(0), 0));
    assert_eq!(per_thread_pool_limits(HoldLimit::Count(9), 2), (Some(4), 0));
    assert_eq!(per_thread_pool_limits(HoldLimit::Bytes(9), 2), (None, 4));
}

#[test]
fn errors_in_words() {
    assert_eq!(errno_name(Errno::EIO), "EIO: I/O error");
    assert_eq!(errno_name(Errno::ENOMEM), "ENOMEM: Out of memory");
    assert_eq!(errno_name(Errno::EINVAL), "EINVAL: Invalid argument");
    assert_eq!(errno_name(Errno::EBADF), "EBADF: Bad file number");
    assert_eq!(errno_name(Errno::ENOTTY), "ENOTTY: Not a typewriter");
    assert_eq!(errno_name(Errno::Other(16)), "EBUSY: Device or resource busy");
    assert_eq!(errno_name(Errno::Other(4)), "EINTR: Interrupted system call");
    assert_eq!(errno_name(Errno::Other(-7)), "UnknownErrno: Unknown errno");
}

#[test]
fn totals_in_any_order() {
    let entry = |exp_name: &str, size: u64, count: u32| DebugfsBufEntry {
        size,
        flags: 0,
        mode: 0,
        count: count.into(),
        exp_name: exp_name.to_string(),
        ino: 1,
        name: String::new(),
        attached_devices: Vec::new(),
    };
    let a = vec![entry("system", 1, 2), entry("cma", 10, 1), entry("system", 100, 3)];
    let b = vec![entry("system", 100, 3), entry("system", 1, 2), entry("cma", 10, 1)];
    let of = |v: &[DebugfsBufEntry], name: &str| {
        aggregate_debugfs(v)
            .iter()
            .find(|s| s.exporter_name == name)
            .map(|s| (s.count, s.total_size_bytes, s.total_refcount))
    };
    assert_eq!(of(&a, "system"), of(&b, "system"));
    assert_eq!(of(&a, "cma"), of(&b, "cma"));
    assert_eq!(of(&a, "system").unwrap().1, 101);
    assert_eq!(debugfs_total_size(&a), debugfs_total_size(&b));
}

// Aging.

#[test]
fn waits_of_a_reporter() {
    assert_eq!(reporter_step(false, 0, 1000), ReporterAction::Stop);
    assert_eq!(reporter_step(false, 1000, 1000), ReporterAction::Stop);
    assert_eq!(reporter_step(true, 0, 1000), ReporterAction::Sleep(10));
    assert_eq!(reporter_step(true, 995, 1000), ReporterAction::Sleep(5));
    assert_eq!(reporter_step(true, 1000, 1000), ReporterAction::Report);
    assert_eq!(reporter_step(true, 0, 0), ReporterAction::Report);
    let mut waited = 0;
    while let ReporterAction::Sleep(ms) = reporter_step(true, waited, 1234) {
        waited += ms;
    }
    assert_eq!(waited, 1234);
}

#[test]
fn counters_of_a_trace() {
    let mut state = AgingState::new(HoldLimit::Disabled, &["system".to_string()]);
    state.held_bufs = 3;
    state.held_bytes = (5 << 20) + 1;
    state.total_enomem = 7;
    state.total_emfile = 8;
    let shown = |s: &AgingState| -> Vec<(&'static str, i64)> {
        trace_counters(s).iter().map(|c| (c.name, c.value)).collect()
    };
    assert_eq!(
        shown(&state),
        vec![
            ("held_bufs", 3),
            ("held_bytes_mb", 5),
            ("trend_x100", 100),
            ("enomem_total", 7),
            ("emfile_total", 8),
        ]
    );
    state.baseline_ready = true;
    state.baseline_sum = 60;
    state.baseline_count = 20;
    state.final_interval_avg = 5;
    assert_eq!(shown(&state)[2], ("trend_x100", 166));
    state.final_interval_avg = u64::MAX;
    assert_eq!(shown(&state)[2], ("trend_x100", i64::MAX));
}

#[test]
fn whole_parts() {
    let third = Double::from_int(10).divided_by(Double::from_int(3));
    assert_eq!(third.whole_up_to(100), 3);
    assert_eq!(third.whole_up_to(2), 2);
    assert_eq!(Double::from_int(0).whole_up_to(5), 0);
    assert_eq!(Double::from_int(1 << 63).whole_up_to(u64::MAX), 1 << 63);
}

#[test]
fn only_what_is_closed_at_once_settles() {
    let caps = HeapCaps {
        name: "system".to_string(),
        can_alloc: true,
        can_mmap: true,
        can_sync: true,
        can_write: true,
        can_llseek: true,
        can_sync_file: true,
        can_dup: true,
        alloc_granularity: 4096,
    };
    let mut b = MockBackend::new();
    let names = ["system"];
    let style = Style::Normal { size: 4096 };
    let mut soaker = start_soaker(&mut b, &names, style, 8, 0, 0, 0).unwrap();
    let mut settled = Vec::new();
    for _ in 0..6 {
        let turn = soaker.turn(&mut b, &names, std::slice::from_ref(&caps));
        settled.push(soaker.settles(&turn));
    }
    // Each third buffer is held.
    assert_eq!(settled, vec![true, true, false, true, true, false]);
    assert!(!soaker.settles(&Turn::Failed));
    assert!(!soaker.settles(&Turn::NoMemory { freed: 0 }));
    let fuzz = Style::Fuzz { cap: None };
    let mut other = start_soaker(&mut b, &names, fuzz, 8, 0, 1, 0).unwrap();
    let turn = other.turn(&mut b, &names, std::slice::from_ref(&caps));
    assert!(!other.settles(&turn));
}

#[test]
fn seeds_of_workers() {
    assert_eq!(worker_seed(7, 0), 7);
    assert_eq!(worker_seed(7, 3), 10);
    assert_eq!(worker_seed(u64::MAX, 2), 1);
    let mut b = MockBackend::new();
    let names = ["system"];
    let mut one = FuzzWorker::start(&mut b, &names, 8, 0, 7, 3).unwrap();
    let mut same = FuzzWorker::start(&mut b, &names, 8, 0, 9, 1).unwrap();
    let mut other = FuzzWorker::start(&mut b, &names, 8, 0, 7, 4).unwrap();
    let drawn: u64 = one.rng.random();
    assert_eq!(drawn, same.rng.random::<u64>());
    assert_ne!(drawn, other.rng.random::<u64>());
}

#[test]
fn a_worker_counts_from_its_number() {
    let mut b = MockBackend::new();
    let names = ["system"];
    let normal = start_soaker(&mut b, &names, Style::Normal { size: 4096 }, 8, 0, 0, 5);
    match normal {
        Some(Soaker::Normal { worker, .. }) => assert_eq!(worker.index, 5),
        _ => panic!("no worker"),
    }
}

#[test]
fn only_what_is_used_is_drawn() {
    let caps = [HeapCaps {
        name: "system".to_string(),
        can_alloc: true,
        can_mmap: true,
        can_sync: true,
        can_write: true,
        can_llseek: true,
        can_sync_file: true,
        can_dup: true,
        alloc_granularity: 4096,
    }];
    let sim = SimConfig { fail_every_nth: 1, ..Default::default() };
    let mut b = MockBackend::with_sim(sim);
    let mut worker = FuzzWorker::start(&mut b, &["system"], 8, 0, 42, 0).unwrap();
    let mut expected = worker.rng.clone();
    for _ in 0..50 {
        let turn = worker.turn(&mut b, &["system"], &caps, None);
        assert!(matches!(turn, Turn::Failed));
        // The heap, the size and the pipeline: no more is drawn when there is no buffer.
        let _ = expected.random_range(0..1usize);
        random_size(&mut expected);
        select_pipeline(&build_weighted_table(&caps[0]), &mut expected);
        assert_eq!(worker.rng, expected);
    }
}

// Several at once.

#[test]
fn workers_under_pressure() {
    let mut b = MockBackend::new();
    assert_eq!(pressure_worker(&mut b, "system", 4096), Ok(0));
    assert_eq!(b.buffer_count(), 0);
    assert_eq!(pressure_worker(&mut b, "nowhere", 4096), Err(Errno::ENOENT));
    let sim = SimConfig { fail_every_nth: 10, ..Default::default() };
    let mut b = MockBackend::with_sim(sim);
    assert!(pressure_worker(&mut b, "system", 4096).unwrap() > 0);
    let sim = SimConfig { enomem_threshold: Some(5), ..Default::default() };
    let mut b = MockBackend::with_sim(sim);
    assert_eq!(pressure_worker(&mut b, "system", 4096), Ok(0));
}

#[test]
fn what_workers_come_to() {
    assert_eq!(workers_outcome(&[Ok(0), Ok(0)]), (Ok(()), Some(0)));
    assert_eq!(workers_outcome(&[Ok(1), Ok(2)]), (Err(Errno::EIO), Some(3)));
    assert_eq!(
        workers_outcome(&[Ok(1), Err(Errno::ENOENT), Err(Errno::EPERM)]),
        (Err(Errno::ENOENT), None)
    );
    assert_eq!(workers_outcome(&[]), (Ok(()), Some(0)));
}

#[test]
fn a_race_is_told_with_the_rest() {
    let mut b = MockBackend::new();
    let (results, err) = run_but_for_the_race(&mut b, "system", true, Ok(()));
    assert!(err.is_none());
    let (same, _) = negative::run(&mut b, "system", true);
    let names = |v: &[dhp::bench::pressure::SubTestResult]| -> Vec<String> {
        v.iter().map(|r| r.name.clone()).collect()
    };
    assert_eq!(names(&results), names(&same));
    let (results, err) = run_but_for_the_race(&mut b, "system", true, Err(Errno::EIO));
    assert_eq!(results.len(), 14);
    assert!(!results[13].passed);
    assert_eq!(
        err.unwrap(),
        "negative 'neg_concurrent_close_same_fd' failed: EIO: I/O error"
    );
}

fn run(result: Result<(), Errno>) -> Run {
    Run { result, marks: Vec::new() }
}

#[test]
fn runs_that_are_told() {
    let camera = CameraRuns {
        preview: run(Ok(())),
        capture: run(Ok(())),
        switch: run(Ok(())),
        streams: vec![run(Ok(())), run(Err(Errno::ENOMEM))],
    };
    let (results, err) = camera.tell();
    assert_eq!(results.iter().map(|r| r.passed).collect::<Vec<_>>(), [true, true, true, false]);
    assert_eq!(err.unwrap(), "camera 'multi_stream' failed: EIO: I/O error");

    let npu = NpuRuns {
        load: ModelLoad { run: run(Ok(())), probes: Vec::new() },
        inferences: run(Err(Errno::EINVAL)),
        switch: run(Ok(())),
        sustained: run(Ok(())),
        clients: vec![run(Ok(()))],
    };
    let (results, err) = npu.tell();
    assert_eq!(results.len(), 5);
    assert_eq!(err.unwrap(), "npu 'inference_loop' failed: EINVAL: Invalid argument");

    let scenes = SceneRuns {
        preview: vec![run(Ok(()))],
        call: Vec::new(),
        ai: Vec::new(),
        heavy: vec![run(Ok(()))],
    };
    let (results, err) = scenes.tell();
    assert!(results.iter().all(|r| r.passed));
    assert!(err.is_none());
    let scenes = SceneRuns { heavy: vec![run(Err(Errno::ENOMEM))], ..scenes };
    let (results, err) = scenes.tell();
    assert!(!results[3].passed);
    assert_eq!(err.unwrap(), "pipeline scenario 'heavy' failed: EIO: I/O error");
}

#[test]
fn pressure_that_is_told() {
    let mut b = MockBackend::new();
    let first = pressure::test_gradual_exhaust(&mut b, "system", 4096, 20);
    let second = pressure::test_recovery(&mut b, "system", 4096, 20);
    let (results, err, lines) =
        pressure::tell("system", 4096, &first, &second, Err(Errno::EIO), Some(2));
    assert_eq!(results.len(), 3);
    assert_eq!(err.unwrap(), "pressure 'pressure_concurrent' failed: EIO: I/O error");
    assert_eq!(lines.len(), 3);
    assert_eq!(
        lines[2],
        "[system] pressure::pressure_concurrent workers=4 allocs_per_worker=50 unexpected_failures=2"
    );
}
