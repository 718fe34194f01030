//! Workloads on the simulated device.
use dhp::backend::ioctl::{
    DmaBufExportSyncFile, DmaHeapAllocationData, Errno, DMA_BUF_SYNC_RW, DMA_HEAP_ALLOC_FD_FLAGS,
};
use dhp::backend::mock::MockBackend;
use dhp::backend::model::{HeapProfile, SimConfig};
use dhp::bench::op::{MicrobenchConfig, Op};
use dhp::bench::pressure::safe_exhaust_limit;
use dhp::cli::HistMode;
use dhp::info::types::HeapCaps;
use dhp::workload::basic::{
    run, test_alloc_close, test_dup_survives_close, test_export_sync_file, test_import_sync_file,
    test_llseek_size, test_write_read_verify, test_zero_on_alloc,
};
use dhp::workload::edge::{buffer_names, test_concurrent_alloc, test_dup_fd};
use dhp::workload::fragmentation::{
    test_buddyinfo_track, test_interleave_pattern, test_pagetypeinfo_track,
};
use dhp::workload::measure::run_op;
use dhp::workload::negative::{
    close_outcome, neg_alloc_invalid_fd_flags, neg_alloc_invalid_heap_flags,
    neg_alloc_on_closed_heap, neg_alloc_overflow_size, neg_alloc_zero_size,
    neg_concurrent_close_same_fd, neg_export_sync_file_invalid_flags, neg_import_sync_file_bad_fd,
    neg_llseek_invalid, neg_mmap_beyond_size, neg_open_nonexistent,
    neg_rapid_alloc_close_no_leak, neg_sync_invalid_flags, neg_sync_on_closed_fd,
};
use dhp::workload::pressure::{test_gradual_exhaust, test_pressure_concurrent, test_recovery};
use dhp::workload::reuse::{
    test_deferred_free, test_pool_warmup, test_release_order, test_size_switch,
};
use dhp::workload::{distribution, edge, fragmentation, microbench, negative, pressure, reuse, sync_file};

fn all_caps(name: &str) -> HeapCaps {
    HeapCaps {
        name: name.to_string(),
        can_alloc: true,
        can_mmap: true,
        can_sync: true,
        can_write: true,
        can_llseek: true,
        can_sync_file: true,
        can_dup: true,
        alloc_granularity: 4096,
    }
}

#[test]
fn alloc_close_basic() {
    let mut b = MockBackend::new();
    test_alloc_close(&mut b, "system", 4096).unwrap();
}

#[test]
fn write_read_verify_single_page() {
    let mut b = MockBackend::new();
    test_write_read_verify(&mut b, "system", 4096).unwrap();
    assert_eq!(b.buffer_count(), 0);
}

#[test]
fn zero_on_alloc_single() {
    let mut b = MockBackend::new();
    test_zero_on_alloc(&mut b, "system", 4096).unwrap();
}

#[test]
fn llseek_aligned() {
    let mut b = MockBackend::new();
    test_llseek_size(&mut b, "system", 4096, 4096).unwrap();
}

#[test]
fn llseek_unaligned() {
    let mut b = MockBackend::new();
    test_llseek_size(&mut b, "system", 1, 4096).unwrap();
    test_llseek_size(&mut b, "system", 4097, 4096).unwrap();
}

#[test]
fn llseek_of_another_granularity_fails() {
    let mut b = MockBackend::new();
    assert!(test_llseek_size(&mut b, "system", 1, 65536).is_err());
    assert_eq!(b.buffer_count(), 0);
}

#[test]
fn basic_export_returns_valid_fd() {
    let mut b = MockBackend::new();
    test_export_sync_file(&mut b, "system", 4096).unwrap();
}

#[test]
fn basic_import_after_export() {
    let mut b = MockBackend::new();
    test_import_sync_file(&mut b, "system", 4096).unwrap();
}

#[test]
fn basic_dup_survives_original_close() {
    let mut b = MockBackend::new();
    test_dup_survives_close(&mut b, "system", 4096).unwrap();
}

#[test]
fn basic_run_passes() {
    let mut b = MockBackend::new();
    let (results, err) = run(&mut b, "system", &[4096, 65536], true, 4096);
    assert!(err.is_none());
    assert!(results.iter().all(|t| t.passed));
    assert!(results.iter().all(|t| !t.skipped));
    // 7 tests × 2 sizes
    assert_eq!(results.len(), 14);
}

#[test]
fn run_size_label_in_names() {
    let mut b = MockBackend::new();
    let (results, _) = run(&mut b, "system", &[4096, 65536], true, 4096);
    assert!(results.iter().any(|r| r.name.starts_with("4K::")));
    assert!(results.iter().any(|r| r.name.starts_with("64K::")));
}

#[test]
fn basic_run_bad_heap() {
    let mut b = MockBackend::new();
    let (results, err) = run(&mut b, "", &[4096], true, 4096);
    assert!(err.is_some());
    assert!(results.iter().any(|r| !r.passed));
}

#[test]
fn run_restricted_heap_skips_mmap_tests() {
    let mut b =
        MockBackend::with_heaps(vec![("restricted".to_string(), HeapProfile::restricted())]);
    let (results, err) = run(&mut b, "restricted", &[4096], false, 4096);
    assert!(err.is_none(), "restricted heap run should not error");

    // mmap-dependent tests must be skipped
    for name in &["write_read_verify", "zero_on_alloc"] {
        let r = results.iter().find(|r| r.name.ends_with(name)).unwrap();
        assert!(r.skipped, "{name} should be skipped on restricted heap");
        assert!(r.passed, "{name} should still pass (skipped = ok)");
    }

    // Non-mmap tests must run (not skipped)
    for name in &[
        "alloc_close",
        "llseek_size",
        "export_sync_file",
        "import_sync_file",
        "dup_survives_close",
    ] {
        let r = results.iter().find(|r| r.name.ends_with(name)).unwrap();
        assert!(!r.skipped, "{name} should run on restricted heap");
        assert!(r.passed, "{name} should pass on restricted heap");
    }
}

#[test]
fn corruption_fails_zero_on_alloc() {
    let mut b = MockBackend::with_sim(SimConfig { corrupt_every_nth: 1, ..Default::default() });
    assert_eq!(test_zero_on_alloc(&mut b, "system", 4096), Err(Errno::EIO));
    assert_eq!(b.buffer_count(), 0);
}

#[test]
fn concurrent_basic() {
    let mut b = MockBackend::new();
    test_concurrent_alloc(&mut b, "system", 10).unwrap();
}

#[test]
fn concurrent_no_leak() {
    let mut b = MockBackend::new();
    let initial = b.buffer_count();
    test_concurrent_alloc(&mut b, "system", 20).unwrap();
    assert_eq!(b.buffer_count(), initial, "buffer leak detected");
}

#[test]
fn one_failing_worker_is_an_error() {
    let mut b = MockBackend::with_sim(SimConfig { fail_every_nth: 3, ..Default::default() });
    assert_eq!(test_concurrent_alloc(&mut b, "system", 3), Err(Errno::EIO));
    let mut b = MockBackend::with_sim(SimConfig { fail_every_nth: 4, ..Default::default() });
    assert_eq!(test_concurrent_alloc(&mut b, "system", 3), Ok(()));
}

#[test]
fn edge_dup_survives_original_close() {
    let mut b = MockBackend::new();
    test_dup_fd(&mut b, "system").unwrap();
}

#[test]
fn names_of_buffers() {
    let (short, long) = buffer_names();
    assert_eq!(short, "test_buffer");
    assert_eq!(long, "a".repeat(32));
}

#[test]
fn edge_run_passes() {
    let mut b = MockBackend::new();
    let (results, err) = edge::run(&mut b, "system", 10, Ok(()));
    assert!(err.is_none());
    assert!(results.iter().all(|t| t.passed));
    assert_eq!(results.len(), 3);
}

#[test]
fn edge_run_bad_heap() {
    let mut b = MockBackend::new();
    let (results, err) = edge::run(&mut b, "", 10, Err(Errno::ENOENT));
    assert!(err.is_some());
    assert!(results.iter().any(|t| !t.passed));
}

#[test]
fn open_nonexistent() {
    neg_open_nonexistent(&mut MockBackend::new()).unwrap();
}

#[test]
fn negative_alloc_zero_size() {
    neg_alloc_zero_size(&mut MockBackend::new(), "system").unwrap();
}

#[test]
fn alloc_overflow_size() {
    neg_alloc_overflow_size(&mut MockBackend::new(), "system").unwrap();
}

#[test]
fn negative_alloc_invalid_fd_flags() {
    neg_alloc_invalid_fd_flags(&mut MockBackend::new(), "system").unwrap();
}

#[test]
fn negative_alloc_invalid_heap_flags() {
    neg_alloc_invalid_heap_flags(&mut MockBackend::new(), "system").unwrap();
}

#[test]
fn negative_alloc_on_closed_heap() {
    neg_alloc_on_closed_heap(&mut MockBackend::new(), "system").unwrap();
}

#[test]
fn negative_sync_invalid_flags() {
    neg_sync_invalid_flags(&mut MockBackend::new(), "system").unwrap();
}

#[test]
fn sync_on_closed_fd() {
    neg_sync_on_closed_fd(&mut MockBackend::new(), "system").unwrap();
}

#[test]
fn llseek_invalid() {
    neg_llseek_invalid(&mut MockBackend::new(), "system").unwrap();
}

#[test]
fn negative_mmap_beyond_size() {
    neg_mmap_beyond_size(&mut MockBackend::new(), "system").unwrap();
}

#[test]
fn negative_export_sync_file_invalid_flags() {
    neg_export_sync_file_invalid_flags(&mut MockBackend::new(), "system").unwrap();
}

#[test]
fn import_sync_file_bad_fd() {
    neg_import_sync_file_bad_fd(&mut MockBackend::new(), "system").unwrap();
}

#[test]
fn rapid_alloc_close_no_leak() {
    let mut b = MockBackend::new();
    neg_rapid_alloc_close_no_leak(&mut b, "system").unwrap();
    assert_eq!(b.buffer_count(), 0);
}

#[test]
fn concurrent_close_same_fd() {
    neg_concurrent_close_same_fd(&mut MockBackend::new(), "system").unwrap();
}

#[test]
fn closing_from_two_sides() {
    assert_eq!(close_outcome(1, 1), Ok(()));
    assert_eq!(close_outcome(2, 0), Err(Errno::EIO));
    assert_eq!(close_outcome(0, 2), Err(Errno::EIO));
    assert_eq!(close_outcome(1, 0), Err(Errno::EIO));
}

#[test]
fn negative_run_passes() {
    let mut b = MockBackend::new();
    let (results, err) = negative::run(&mut b, "system", true);
    assert!(err.is_none());
    assert!(results.iter().all(|t| t.passed));
    assert_eq!(results.len(), 14);
}

#[test]
fn sync_file_export_returns_valid_fd() {
    sync_file::test_export_sync_file(&mut MockBackend::new(), "system").unwrap();
}

#[test]
fn sync_file_import_after_export() {
    sync_file::test_import_sync_file(&mut MockBackend::new(), "system").unwrap();
}

#[test]
fn export_multiple_sizes() {
    let mut b = MockBackend::new();
    let heap = b.open("system").unwrap();
    for size in [4096_u64, 65536, 1_048_576] {
        let mut data = DmaHeapAllocationData {
            len: size,
            fd: 0,
            fd_flags: DMA_HEAP_ALLOC_FD_FLAGS,
            heap_flags: 0,
        };
        b.allocate(heap, &mut data).unwrap();
        let mut fence = DmaBufExportSyncFile { flags: DMA_BUF_SYNC_RW as u32, fd: -1 };
        b.export_sync_file(data.fd as i32, &mut fence).unwrap();
        assert!(fence.fd >= 0);
    }
}

#[test]
fn sync_file_run_passes() {
    let mut b = MockBackend::new();
    let (results, err) = sync_file::run(&mut b, "system");
    assert!(err.is_none());
    assert!(results.iter().all(|t| t.passed));
}

#[test]
fn buddyinfo_track_runs() {
    test_buddyinfo_track(&mut MockBackend::new(), "system").unwrap();
}

#[test]
fn interleave_pattern_runs() {
    test_interleave_pattern(&mut MockBackend::new(), "system", "interleave").unwrap();
}

#[test]
fn sequential_pattern_runs() {
    test_interleave_pattern(&mut MockBackend::new(), "system", "sequential").unwrap();
}

#[test]
fn pagetypeinfo_track_runs() {
    test_pagetypeinfo_track(&mut MockBackend::new(), "system").unwrap();
}

#[test]
fn fragmentation_run_passes() {
    let mut b = MockBackend::new();
    let (results, err) = fragmentation::run(&mut b, "system", "interleave");
    assert!(err.is_none());
    assert!(results.iter().all(|t| t.passed));
    assert_eq!(results.len(), 3);
}

#[test]
fn interleave_no_leak() {
    let mut b = MockBackend::new();
    test_interleave_pattern(&mut b, "system", "interleave").unwrap();
    assert_eq!(b.buffer_count(), 0, "all buffers should be freed");
}

#[test]
fn sequential_no_leak() {
    let mut b = MockBackend::new();
    test_interleave_pattern(&mut b, "system", "sequential").unwrap();
    assert_eq!(b.buffer_count(), 0);
}

#[test]
fn pool_pool_warmup_runs() {
    let run = test_pool_warmup(&mut MockBackend::new(), "system");
    run.result.unwrap();
    assert_eq!(run.marks.iter().filter(|m| m.channel == 0).count(), 100);
    assert_eq!(run.marks.iter().filter(|m| m.channel == 1).count(), 100);
}

#[test]
fn pool_size_switch_runs() {
    let run = test_size_switch(&mut MockBackend::new(), "system");
    run.result.unwrap();
    assert_eq!(run.marks.len(), 1500);
}

#[test]
fn release_order_runs() {
    let run = test_release_order(&mut MockBackend::new(), "system");
    run.result.unwrap();
    assert_eq!(run.marks.len(), 300);
}

#[test]
fn deferred_free_runs() {
    test_deferred_free(&mut MockBackend::new(), "system").unwrap();
}

#[test]
fn pool_run_passes() {
    let mut b = MockBackend::new();
    let (results, err) = reuse::run(&mut b, "system");
    assert!(err.is_none());
    assert!(results.iter().all(|t| t.passed));
    assert_eq!(results.len(), 4);
}

#[test]
fn warmup_no_leak() {
    let mut b = MockBackend::new();
    test_pool_warmup(&mut b, "system").result.unwrap();
    assert_eq!(b.buffer_count(), 0);
}

#[test]
fn release_order_no_leak() {
    let mut b = MockBackend::new();
    test_release_order(&mut b, "system").result.unwrap();
    assert_eq!(b.buffer_count(), 0);
}

#[test]
fn deferred_free_no_leak() {
    let mut b = MockBackend::new();
    test_deferred_free(&mut b, "system").unwrap();
    assert_eq!(b.buffer_count(), 0);
}

#[test]
fn gradual_exhaust_hits_limit() {
    let run = test_gradual_exhaust(&mut MockBackend::new(), "system", 4096, 500);
    run.result.unwrap();
    assert_eq!(run.marks.len(), 500);
}

#[test]
fn exhaustion_stops_at_no_memory() {
    let sim = SimConfig { enomem_threshold: Some(7), ..Default::default() };
    let mut b = MockBackend::with_sim(sim);
    let run = test_gradual_exhaust(&mut b, "system", 4096, 500);
    run.result.unwrap();
    assert_eq!(run.marks.len(), 7);
    assert_eq!(b.buffer_count(), 0);
}

#[test]
fn recovery_after_exhaust() {
    let recovery = test_recovery(&mut MockBackend::new(), "system", 4096, 500);
    recovery.run.result.unwrap();
    assert_eq!(recovery.before, 500);
    assert_eq!(recovery.released, 250);
}

#[test]
fn pressure_concurrent_runs() {
    let (result, failures) = test_pressure_concurrent(&mut MockBackend::new(), "system", 4096);
    result.unwrap();
    assert_eq!(failures, Some(0));
}

#[test]
fn pressure_run_passes() {
    let mut b = MockBackend::new();
    let limit = safe_exhaust_limit(Some(65536), 4096);
    let (results, err, lines) = pressure::run(&mut b, "system", 4096, limit);
    assert!(err.is_none());
    assert!(results.iter().all(|t| t.passed));
    assert_eq!(results.len(), 3);
    assert_eq!(lines.len(), 3);
}

#[test]
fn exhaust_count() {
    let mut b = MockBackend::new();
    let heap = b.open("system").unwrap();
    let mut count = 0u32;
    for _ in 0..100 {
        let mut data = DmaHeapAllocationData {
            len: 4096,
            fd: 0,
            fd_flags: DMA_HEAP_ALLOC_FD_FLAGS,
            heap_flags: 0,
        };
        match b.allocate(heap, &mut data) {
            Ok(()) => count += 1,
            Err(Errno::ENOMEM) => break,
            Err(e) => panic!("unexpected error: {e:?}"),
        }
    }
    assert!(count > 0, "should allocate at least some buffers");
}

#[test]
fn recovery_no_leak() {
    let mut b = MockBackend::new();
    test_recovery(&mut b, "system", 4096, 500).run.result.unwrap();
    assert_eq!(b.buffer_count(), 0, "all buffers should be freed");
}

#[test]
fn run_alloc_only() {
    let mut b = MockBackend::new();
    let heaps = vec!["system".to_string()];
    let (results, err, runs) =
        distribution::run(&mut b, &heaps, &[4096], 100, 10, HistMode::AllocOnly);
    assert!(err.is_none());
    assert_eq!(results.len(), 1);
    assert!(results[0].passed);
    assert_eq!(b.buffer_count(), 0);
    assert_eq!(runs[0].marks.iter().filter(|m| m.channel == 1).count(), 100);
}

#[test]
fn run_full_pipeline() {
    let mut b = MockBackend::new();
    let heaps = vec!["system".to_string()];
    let (results, err, _) =
        distribution::run(&mut b, &heaps, &[4096], 50, 5, HistMode::FullPipeline);
    assert!(err.is_none());
    assert!(results[0].passed);
}

#[test]
fn run_close_only() {
    let mut b = MockBackend::new();
    let heaps = vec!["system".to_string()];
    let (results, err, _) =
        distribution::run(&mut b, &heaps, &[4096], 50, 5, HistMode::CloseOnly);
    assert!(err.is_none());
    assert!(results[0].passed);
}

#[test]
fn run_multi_size() {
    let mut b = MockBackend::new();
    let heaps = vec!["system".to_string()];
    let sizes = [4096, 65536, 1_048_576];
    let (results, err, _) =
        distribution::run(&mut b, &heaps, &sizes, 20, 5, HistMode::AllocOnly);
    assert!(err.is_none());
    assert_eq!(results.len(), 3);
    assert!(results.iter().all(|r| r.passed));
}

#[test]
fn run_multi_heap() {
    let mut b = MockBackend::new();
    let heaps = vec!["system".to_string(), "reserved".to_string()];
    let (results, err, _) =
        distribution::run(&mut b, &heaps, &[4096], 20, 5, HistMode::AllocOnly);
    assert!(err.is_none());
    assert_eq!(results.len(), 2);
}

fn samples_of(op: Op) -> usize {
    let mut b = MockBackend::new_realistic();
    let samples = run_op(&mut b, "system", op, 4096, 2, 10).unwrap();
    assert_eq!(b.buffer_count(), 0);
    samples.len()
}

#[test]
fn bench_alloc_runs() {
    assert_eq!(samples_of(Op::Alloc), 10);
}

#[test]
fn bench_mmap_runs() {
    assert_eq!(samples_of(Op::Mmap), 10);
}

#[test]
fn bench_munmap_runs() {
    assert_eq!(samples_of(Op::Munmap), 10);
}

#[test]
fn bench_sync_write_runs() {
    assert_eq!(samples_of(Op::SyncStartW), 10);
}

#[test]
fn bench_sync_rw_runs() {
    assert_eq!(samples_of(Op::SyncStartRw), 10);
}

#[test]
fn bench_close_runs() {
    assert_eq!(samples_of(Op::Close), 10);
}

#[test]
fn bench_dup_runs() {
    assert_eq!(samples_of(Op::Dup), 10);
}

#[test]
fn bench_llseek_runs() {
    assert_eq!(samples_of(Op::Llseek), 10);
}

#[test]
fn bench_export_sync_file_runs() {
    assert_eq!(samples_of(Op::ExportSyncFile), 10);
}

#[test]
fn bench_import_sync_file_runs() {
    assert_eq!(samples_of(Op::ImportSyncFile), 10);
}

#[test]
fn bench_pipeline_runs() {
    assert_eq!(samples_of(Op::Pipeline), 10);
}

#[test]
fn run_full_microbench() {
    let mut b = MockBackend::new_realistic();
    let cfg = MicrobenchConfig {
        ops: vec![Op::Alloc, Op::Close, Op::Pipeline],
        sizes: vec![4096],
        iterations: 5,
        warmup: 1,
        heap_w: 8,
    };
    let (sub, err, reports) = microbench::run(&mut b, "system", &all_caps("system"), &cfg);
    assert!(err.is_none(), "unexpected error: {err:?}");
    assert_eq!(sub.len(), 3);
    assert!(sub.iter().all(|s| s.passed));
    let names: Vec<&str> = reports.iter().map(|r| r.op.name()).collect();
    assert!(names.contains(&"alloc"));
    assert!(names.contains(&"close"));
    assert!(names.contains(&"pipeline"));
    assert_eq!(reports[0].times.as_ref().unwrap()[0].len(), 5);
}

#[test]
fn unsupported_operations_are_skipped() {
    let mut b =
        MockBackend::with_heaps(vec![("restricted".to_string(), HeapProfile::restricted())]);
    let mut caps = all_caps("restricted");
    caps.can_mmap = false;
    let cfg = MicrobenchConfig {
        ops: vec![Op::Alloc, Op::Mmap, Op::SyncEndR],
        sizes: vec![4096, 8192],
        iterations: 3,
        warmup: 0,
        heap_w: 8,
    };
    let (sub, err, reports) = microbench::run(&mut b, "restricted", &caps, &cfg);
    assert!(err.is_none());
    assert!(!sub[0].skipped && sub[1].skipped && sub[2].skipped);
    assert!(sub.iter().all(|s| s.passed));
    assert_eq!(sub[1].name, "microbench::mmap");
    assert_eq!(reports[0].times.as_ref().unwrap().len(), 2);
    assert!(reports[1].times.as_ref().unwrap().is_empty());
}

#[test]
fn a_failing_operation_does_not_stop_the_rest() {
    let sim = SimConfig { enomem_threshold: Some(0), ..Default::default() };
    let mut b = MockBackend::with_sim(sim);
    let cfg = MicrobenchConfig {
        ops: vec![Op::Alloc, Op::Close],
        sizes: vec![4096],
        iterations: 3,
        warmup: 0,
        heap_w: 8,
    };
    let (sub, err, _) = microbench::run(&mut b, "system", &all_caps("system"), &cfg);
    assert_eq!(sub.len(), 2);
    assert!(sub.iter().all(|s| !s.passed));
    assert!(err.is_some());
}
