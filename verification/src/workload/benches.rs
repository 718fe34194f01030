//! All benchmarks of a heap.
use crate::backend::ioctl::Errno;
use crate::backend::protocol::{Answers, ContainerBackend, DmaBufBackend, HeapBackend};
use crate::bench::pressure::{outcomes, SubTestResult};
use crate::bench::rows::{BenchConfig, ORDER_BOUNDARY_SIZES};
use crate::info::types::HeapCaps;
use crate::workload::perf::{bench_internal_frag, benched, frag_ran, most, run_bench, Bench};
use crate::workload::reuse::{size_switched, test_pool_warmup, test_size_switch, warmed_up};
use crate::workload::run::Run;
use crate::workload::script::timed_on;
use crate::workload::suite::{
    all_told, collect_test_results, first_failure, maybe_text, results_of, tested,
};
use vstd::prelude::*;

verus! {

/// Whether a benchmark over sizes leads from one backend to another.
pub open spec fn bench_ran<B: Answers>(
    a: B,
    heap: Seq<char>,
    bench: Bench,
    sizes: Seq<u64>,
    drains: Seq<u32>,
    cfg: BenchConfig,
    r: Run,
    b: B,
) -> bool {
    timed_on(
        a,
        benched(bench, sizes, drains, cfg.warmup as nat, cfg.iterations as nat),
        heap,
        most(drains) + 2,
        r,
        b,
    )
}

/// Whether the numbers of buffers that empty the pool go with sizes.
pub open spec fn drains_fit(sizes: Seq<u64>, drains: Seq<u32>) -> bool {
    &&& sizes.len() == drains.len()
    &&& sizes.len() * 7 + 1 <= usize::MAX
    &&& most(drains) + 2 <= usize::MAX
}

/// Times allocations of all sizes. `drains` says for each size how many buffers empty the
/// pool; zero where the pool stays in use.
pub fn bench_alloc_only<B: HeapBackend + DmaBufBackend + ContainerBackend>(
    backend: &mut B,
    heap: &str,
    cfg: &BenchConfig,
    drains: &[u32],
) -> (r: Run)
    requires
        old(backend).valid(),
        drains_fit(cfg.sizes@, drains@),
    ensures
        final(backend).valid(),
        final(backend).opened() == old(backend).opened(),
        bench_ran(
            *old(backend),
            heap@,
            Bench::Alloc,
            cfg.sizes@,
            drains@,
            *cfg,
            r,
            *final(backend),
        ),
{
    run_bench(backend, heap, Bench::Alloc, cfg.sizes, drains, cfg.warmup, cfg.iterations)
}

/// Times the stages of the pipeline for all sizes.
pub fn bench_full_pipeline<B: HeapBackend + DmaBufBackend + ContainerBackend>(
    backend: &mut B,
    heap: &str,
    cfg: &BenchConfig,
    drains: &[u32],
) -> (r: Run)
    requires
        old(backend).valid(),
        drains_fit(cfg.sizes@, drains@),
    ensures
        final(backend).valid(),
        final(backend).opened() == old(backend).opened(),
        bench_ran(
            *old(backend),
            heap@,
            Bench::Pipeline,
            cfg.sizes@,
            drains@,
            *cfg,
            r,
            *final(backend),
        ),
{
    run_bench(backend, heap, Bench::Pipeline, cfg.sizes, drains, cfg.warmup, cfg.iterations)
}

/// Times allocations and releases of all sizes.
pub fn bench_close<B: HeapBackend + DmaBufBackend + ContainerBackend>(
    backend: &mut B,
    heap: &str,
    cfg: &BenchConfig,
    drains: &[u32],
) -> (r: Run)
    requires
        old(backend).valid(),
        drains_fit(cfg.sizes@, drains@),
    ensures
        final(backend).valid(),
        final(backend).opened() == old(backend).opened(),
        bench_ran(
            *old(backend),
            heap@,
            Bench::Close,
            cfg.sizes@,
            drains@,
            *cfg,
            r,
            *final(backend),
        ),
{
    run_bench(backend, heap, Bench::Close, cfg.sizes, drains, cfg.warmup, cfg.iterations)
}

/// Times allocations of the sizes where the order of blocks changes.
pub fn bench_order_boundary<B: HeapBackend + DmaBufBackend + ContainerBackend>(
    backend: &mut B,
    heap: &str,
    cfg: &BenchConfig,
    drains: &[u32],
) -> (r: Run)
    requires
        old(backend).valid(),
        drains_fit(ORDER_BOUNDARY_SIZES@, drains@),
    ensures
        final(backend).valid(),
        final(backend).opened() == old(backend).opened(),
        bench_ran(
            *old(backend),
            heap@,
            Bench::Alloc,
            ORDER_BOUNDARY_SIZES@,
            drains@,
            *cfg,
            r,
            *final(backend),
        ),
{
    run_bench(
        backend,
        heap,
        Bench::Alloc,
        &ORDER_BOUNDARY_SIZES,
        drains,
        cfg.warmup,
        cfg.iterations,
    )
}

/// What came of all benchmarks.
pub struct PerfRuns {
    pub alloc_only: Run,
    /// Left out where the heap cannot map buffers.
    pub full_pipeline: Option<Run>,
    pub close: Run,
    pub order_boundary: Run,
    pub internal_frag: Result<Vec<i64>, Errno>,
    pub pool_warmup: Run,
    pub size_switch: Run,
}

/// Whether the pipeline, or its omission, leads from one backend to another.
pub open spec fn pipeline_ran<B: Answers>(
    a: B,
    heap: Seq<char>,
    drains: Seq<u32>,
    cfg: BenchConfig,
    caps: HeapCaps,
    r: Option<Run>,
    b: B,
) -> bool {
    match r {
        Some(run) => caps.can_mmap && bench_ran(
            a,
            heap,
            Bench::Pipeline,
            cfg.sizes@,
            drains,
            cfg,
            run,
            b,
        ),
        None => !caps.can_mmap && b == a,
    }
}

/// Whether all benchmarks, one after the other, lead from one backend to another.
pub open spec fn perf_ran<B: Answers>(
    a: B,
    heap: Seq<char>,
    cfg: BenchConfig,
    caps: HeapCaps,
    drains: Seq<u32>,
    boundary: Seq<u32>,
    r: PerfRuns,
    b: B,
) -> bool {
    exists|m1: B, m2: B, m3: B, m4: B, m5: B, m6: B|
        #![trigger bench_ran(a, heap, Bench::Alloc, cfg.sizes@, drains, cfg, r.alloc_only, m1), pipeline_ran(m1, heap, drains, cfg, caps, r.full_pipeline, m2), bench_ran(m2, heap, Bench::Close, cfg.sizes@, drains, cfg, r.close, m3), bench_ran(m3, heap, Bench::Alloc, ORDER_BOUNDARY_SIZES@, boundary, cfg, r.order_boundary, m4), frag_ran(m4, heap, r.internal_frag, m5), timed_on(m5, warmed_up(), heap, 2, r.pool_warmup, m6)]
        {
            &&& bench_ran(a, heap, Bench::Alloc, cfg.sizes@, drains, cfg, r.alloc_only, m1)
            &&& pipeline_ran(m1, heap, drains, cfg, caps, r.full_pipeline, m2)
            &&& bench_ran(m2, heap, Bench::Close, cfg.sizes@, drains, cfg, r.close, m3)
            &&& bench_ran(
                m3,
                heap,
                Bench::Alloc,
                ORDER_BOUNDARY_SIZES@,
                boundary,
                cfg,
                r.order_boundary,
                m4,
            )
            &&& frag_ran(m4, heap, r.internal_frag, m5)
            &&& timed_on(m5, warmed_up(), heap, 2, r.pool_warmup, m6)
            &&& timed_on(m6, size_switched(), heap, 2, r.size_switch, b)
        }
}

/// Whether there is a run, or its result.
pub open spec fn pipeline_result(r: Option<Run>) -> Result<(), Errno> {
    match r {
        Some(run) => run.result,
        None => Ok(()),
    }
}

/// The result of weighing buffers.
pub open spec fn frag_result(r: Result<Vec<i64>, Errno>) -> Result<(), Errno> {
    match r {
        Ok(_) => Ok(()),
        Err(e) => Err(e),
    }
}

/// The results of all benchmarks.
pub open spec fn perf_results(r: PerfRuns) -> Seq<(&'static str, Result<(), Errno>, bool)> {
    seq![
        ("bench_alloc_only", r.alloc_only.result, false),
        (
            "bench_full_pipeline",
            pipeline_result(r.full_pipeline),
            r.full_pipeline is None,
        ),
        ("bench_close", r.close.result, false),
        ("bench_order_boundary", r.order_boundary.result, false),
        ("bench_internal_frag", frag_result(r.internal_frag), false),
        ("bench_pool_warmup", r.pool_warmup.result, false),
        ("bench_size_switch", r.size_switch.result, false),
    ]
}

impl PerfRuns {
    /// Tells of each benchmark, and of the first that failed.
    pub fn tell(&self) -> (r: (Vec<SubTestResult>, Option<String>))
        ensures
            outcomes(r.0@) == all_told(
                tested(perf_results(*self)),
                results_of(perf_results(*self)),
            ),
            maybe_text(r.1) == first_failure(
                "perf"@,
                tested(perf_results(*self)),
                results_of(perf_results(*self)),
            ),
    {
        let pipeline: Result<(), Errno> = match &self.full_pipeline {
            Some(run) => run.result,
            None => Ok(()),
        };
        let frag: Result<(), Errno> = match &self.internal_frag {
            Ok(_) => Ok(()),
            Err(e) => Err(*e),
        };
        let tests: [(&'static str, Result<(), Errno>, bool); 7] = [
            ("bench_alloc_only", self.alloc_only.result, false),
            ("bench_full_pipeline", pipeline, self.full_pipeline.is_none()),
            ("bench_close", self.close.result, false),
            ("bench_order_boundary", self.order_boundary.result, false),
            ("bench_internal_frag", frag, false),
            ("bench_pool_warmup", self.pool_warmup.result, false),
            ("bench_size_switch", self.size_switch.result, false),
        ];
        assert(tests@ =~= perf_results(*self));
        collect_test_results("perf", &tests)
    }
}

/// Runs all benchmarks of a heap, even if some fail, and tells of each. `drains` and
/// `boundary` say how many buffers empty the pool: for each size of the configuration,
/// and for each size where the order of blocks changes.
pub fn run<B: HeapBackend + DmaBufBackend + ContainerBackend>(
    backend: &mut B,
    heap: &str,
    cfg: &BenchConfig,
    caps: &HeapCaps,
    drains: &[u32],
    boundary: &[u32],
) -> (r: (Vec<SubTestResult>, Option<String>, PerfRuns))
    requires
        old(backend).valid(),
        drains_fit(cfg.sizes@, drains@),
        drains_fit(ORDER_BOUNDARY_SIZES@, boundary@),
    ensures
        final(backend).valid(),
        final(backend).opened() == old(backend).opened(),
        perf_ran(
            *old(backend),
            heap@,
            *cfg,
            *caps,
            drains@,
            boundary@,
            r.2,
            *final(backend),
        ),
        outcomes(r.0@) == all_told(
            tested(perf_results(r.2)),
            results_of(perf_results(r.2)),
        ),
        maybe_text(r.1) == first_failure(
            "perf"@,
            tested(perf_results(r.2)),
            results_of(perf_results(r.2)),
        ),
{
    let ghost a = *backend;
    let alloc_only = bench_alloc_only(backend, heap, cfg, drains);
    let ghost m1 = *backend;
    let full_pipeline = if caps.can_mmap {
        Some(bench_full_pipeline(backend, heap, cfg, drains))
    } else {
        None
    };
    let ghost m2 = *backend;
    let close = bench_close(backend, heap, cfg, drains);
    let ghost m3 = *backend;
    let order_boundary = bench_order_boundary(backend, heap, cfg, boundary);
    let ghost m4 = *backend;
    let internal_frag = bench_internal_frag(backend, heap);
    let ghost m5 = *backend;
    let pool_warmup = test_pool_warmup(backend, heap);
    let ghost m6 = *backend;
    let size_switch = test_size_switch(backend, heap);
    let runs = PerfRuns {
        alloc_only,
        full_pipeline,
        close,
        order_boundary,
        internal_frag,
        pool_warmup,
        size_switch,
    };
    proof {
        assert(bench_ran(
            a,
            heap@,
            Bench::Alloc,
            cfg.sizes@,
            drains@,
            *cfg,
            runs.alloc_only,
            m1,
        ));
        assert(pipeline_ran(m1, heap@, drains@, *cfg, *caps, runs.full_pipeline, m2));
        assert(bench_ran(m2, heap@, Bench::Close, cfg.sizes@, drains@, *cfg, runs.close, m3));
        assert(bench_ran(
            m3,
            heap@,
            Bench::Alloc,
            ORDER_BOUNDARY_SIZES@,
            boundary@,
            *cfg,
            runs.order_boundary,
            m4,
        ));
        assert(frag_ran(m4, heap@, runs.internal_frag, m5));
        assert(timed_on(m5, warmed_up(), heap@, 2, runs.pool_warmup, m6));
        assert(timed_on(m6, size_switched(), heap@, 2, runs.size_switch, *backend));
        assert(perf_ran(a, heap@, *cfg, *caps, drains@, boundary@, runs, *backend));
    }
    let (told_of, first) = runs.tell();
    (told_of, first, runs)
}

} // verus!
