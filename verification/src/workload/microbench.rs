//! Timing operations one by one, size by size.
use crate::backend::ioctl::Errno;
use crate::backend::protocol::{Answers, ContainerBackend, DmaBufBackend, HeapBackend};
use crate::bench::op::{op_name, can_do, MicrobenchConfig, Op};
use crate::bench::pressure::{outcomes, Outcome, SubTestResult};
use crate::info::types::HeapCaps;
use crate::workload::measure::{op_timed, run_op};
use crate::workload::suite::{errno_name, errno_text};
use vstd::prelude::*;

verus! {

/// Whether timing an operation on buffers of one size succeeds with these times.
pub open spec fn size_timed<B: Answers>(
    a: B,
    heap: Seq<char>,
    op: Op,
    size: u64,
    warmup: nat,
    iterations: nat,
    times: Vec<u64>,
    b: B,
) -> bool {
    op_timed(a, heap, op, size, warmup, iterations, Ok::<Vec<u64>, Errno>(times), b)
}

/// Whether timing an operation on the first sizes leads from one backend to another.
pub open spec fn sizes_timed<B: Answers>(
    a: B,
    heap: Seq<char>,
    op: Op,
    sizes: Seq<u64>,
    warmup: nat,
    iterations: nat,
    times: Seq<Vec<u64>>,
    b: B,
) -> bool
    decreases times.len(),
{
    if times.len() == 0 {
        b == a
    } else {
        exists|m: B| #[trigger]
            size_timed(
                m,
                heap,
                op,
                sizes[times.len() - 1],
                warmup,
                iterations,
                times.last(),
                b,
            ) && sizes_timed(a, heap, op, sizes, warmup, iterations, times.drop_last(), m)
    }
}

/// Whether timing an operation leads from one backend to another: with the times of all
/// sizes, or with the error of the first size that failed.
pub open spec fn op_ran<B: Answers>(
    a: B,
    heap: Seq<char>,
    op: Op,
    sizes: Seq<u64>,
    warmup: nat,
    iterations: nat,
    r: Result<Vec<Vec<u64>>, Errno>,
    b: B,
) -> bool {
    match r {
        Ok(v) => v@.len() == sizes.len() && sizes_timed(
            a,
            heap,
            op,
            sizes,
            warmup,
            iterations,
            v@,
            b,
        ),
        Err(e) => exists|times: Seq<Vec<u64>>, m: B|
            #![trigger op_timed(m, heap, op, sizes[times.len() as int], warmup, iterations, Err::<Vec<u64>, Errno>(e), b)]
            times.len() < sizes.len() && sizes_timed(
                a,
                heap,
                op,
                sizes,
                warmup,
                iterations,
                times,
                m,
            ) && op_timed(
                m,
                heap,
                op,
                sizes[times.len() as int],
                warmup,
                iterations,
                Err::<Vec<u64>, Errno>(e),
                b,
            ),
    }
}

/// Times an operation on all sizes, until one fails.
pub fn time_op<B: HeapBackend + DmaBufBackend + ContainerBackend>(
    backend: &mut B,
    heap: &str,
    op: Op,
    sizes: &[u64],
    warmup: u32,
    iterations: u32,
) -> (r: Result<Vec<Vec<u64>>, Errno>)
    requires
        old(backend).valid(),
    ensures
        final(backend).valid(),
        final(backend).opened() == old(backend).opened(),
        op_ran(
            *old(backend),
            heap@,
            op,
            sizes@,
            warmup as nat,
            iterations as nat,
            r,
            *final(backend),
        ),
        r matches Ok(v) ==> forall|i: int|
            0 <= i < v@.len() ==> (#[trigger] v@[i])@.len() == iterations,
{
    let ghost a = *backend;
    let ghost w = warmup as nat;
    let ghost k = iterations as nat;
    let mut all: Vec<Vec<u64>> = Vec::new();
    let mut i: usize = 0;
    while i < sizes.len()
        invariant
            i <= sizes@.len(),
            a == *old(backend),
            w == warmup as nat,
            k == iterations as nat,
            backend.valid(),
            backend.opened() == a.opened(),
            all@.len() == i,
            sizes_timed(a, heap@, op, sizes@, w, k, all@, *backend),
            forall|j: int| 0 <= j < all@.len() ==> (#[trigger] all@[j])@.len() == iterations,
        decreases sizes@.len() - i,
    {
        let ghost before = *backend;
        let ghost prior = all@;
        match run_op(backend, heap, op, sizes[i], warmup, iterations) {
            Ok(times) => {
                all.push(times);
                proof {
                    assert(all@.drop_last() =~= prior);
                    assert(size_timed(
                        before,
                        heap@,
                        op,
                        sizes@[all@.len() - 1],
                        w,
                        k,
                        all@.last(),
                        *backend,
                    ));
                }
            },
            Err(e) => {
                assert(op_timed(
                    before,
                    heap@,
                    op,
                    sizes@[prior.len() as int],
                    w,
                    k,
                    Err::<Vec<u64>, Errno>(e),
                    *backend,
                ));
                return Err(e);
            },
        }
        i = i + 1;
    }
    Ok(all)
}

/// What came of timing an operation: the times of each size. One that the heap cannot do
/// is skipped.
pub struct OpReport {
    pub op: Op,
    pub skipped: bool,
    pub times: Result<Vec<Vec<u64>>, Errno>,
}

/// Whether what is reported of an operation came of it.
pub open spec fn reported<B: Answers>(
    a: B,
    heap: Seq<char>,
    caps: HeapCaps,
    sizes: Seq<u64>,
    warmup: nat,
    iterations: nat,
    r: OpReport,
    b: B,
) -> bool {
    &&& r.skipped == !can_do(r.op, caps)
    &&& if r.skipped {
        r.times matches Ok(v) && v@.len() == 0 && b == a
    } else {
        op_ran(a, heap, r.op, sizes, warmup, iterations, r.times, b)
    }
}

/// Whether what is reported of operations, one after the other, came of them.
pub open spec fn all_reported<B: Answers>(
    a: B,
    heap: Seq<char>,
    caps: HeapCaps,
    sizes: Seq<u64>,
    warmup: nat,
    iterations: nat,
    r: Seq<OpReport>,
    b: B,
) -> bool
    decreases r.len(),
{
    if r.len() == 0 {
        b == a
    } else {
        exists|m: B| #[trigger]
            reported(m, heap, caps, sizes, warmup, iterations, r.last(), b) && all_reported(
                a,
                heap,
                caps,
                sizes,
                warmup,
                iterations,
                r.drop_last(),
                m,
            )
    }
}

/// What is told of an operation.
pub open spec fn op_outcome(r: OpReport) -> Outcome {
    Outcome {
        name: "microbench::"@ + op_name(r.op),
        passed: r.times is Ok,
        skipped: r.skipped,
        error: match r.times {
            Ok(_) => None,
            Err(e) => Some(errno_text(e)),
        },
    }
}

/// What is told of operations.
pub open spec fn op_outcomes(v: Seq<OpReport>) -> Seq<Outcome> {
    Seq::new(v.len(), |i: int| op_outcome(v[i]))
}

/// The error of the first operation that failed.
pub open spec fn first_error(v: Seq<OpReport>) -> Option<Errno>
    decreases v.len(),
{
    if v.len() == 0 {
        None
    } else {
        match first_error(v.drop_last()) {
            Some(e) => Some(e),
            None => match v.last().times {
                Ok(_) => None,
                Err(e) => Some(e),
            },
        }
    }
}

/// Times operations on a heap, one after the other, even if some fail, and tells of each.
pub fn run<B: HeapBackend + DmaBufBackend + ContainerBackend>(
    backend: &mut B,
    heap: &str,
    caps: &HeapCaps,
    cfg: &MicrobenchConfig,
) -> (r: (Vec<SubTestResult>, Option<Errno>, Vec<OpReport>))
    requires
        old(backend).valid(),
    ensures
        final(backend).valid(),
        final(backend).opened() == old(backend).opened(),
        r.2@.len() == cfg.ops@.len(),
        forall|i: int| 0 <= i < r.2@.len() ==> (#[trigger] r.2@[i]).op == cfg.ops@[i],
        all_reported(
            *old(backend),
            heap@,
            *caps,
            cfg.sizes@,
            cfg.warmup as nat,
            cfg.iterations as nat,
            r.2@,
            *final(backend),
        ),
        outcomes(r.0@) == op_outcomes(r.2@),
        r.1 == first_error(r.2@),
{
    let ghost a = *backend;
    let ghost w = cfg.warmup as nat;
    let ghost k = cfg.iterations as nat;
    let mut reports: Vec<OpReport> = Vec::new();
    let mut told_of: Vec<SubTestResult> = Vec::new();
    let mut first: Option<Errno> = None;
    assert(outcomes(told_of@) =~= op_outcomes(reports@));
    let mut i: usize = 0;
    while i < cfg.ops.len()
        invariant
            i <= cfg.ops@.len(),
            w == cfg.warmup as nat,
            k == cfg.iterations as nat,
            backend.valid(),
            backend.opened() == a.opened(),
            reports@.len() == i,
            outcomes(told_of@) == op_outcomes(reports@),
            first == first_error(reports@),
            forall|j: int| 0 <= j < i ==> (#[trigger] reports@[j]).op == cfg.ops@[j],
            all_reported(a, heap@, *caps, cfg.sizes@, w, k, reports@, *backend),
        decreases cfg.ops@.len() - i,
    {
        let ghost before = *backend;
        let ghost prior = reports@;
        let op = cfg.ops[i];
        let skipped: bool = !op.supported(caps);
        let times: Result<Vec<Vec<u64>>, Errno> = if skipped {
            Ok(Vec::new())
        } else {
            time_op(backend, heap, op, cfg.sizes.as_slice(), cfg.warmup, cfg.iterations)
        };
        let error: Option<String> = match &times {
            Ok(_) => None,
            Err(e) => Some(errno_name(*e)),
        };
        if first.is_none() {
            first = match &times {
                Ok(_) => None,
                Err(e) => Some(*e),
            };
        }
        let ghost told_before = outcomes(told_of@);
        let outcome = SubTestResult {
            name: op.test_name(),
            passed: times.is_ok(),
            skipped,
            error,
        };
        told_of.push(outcome);
        reports.push(OpReport { op, skipped, times });
        proof {
            assert(reports@.drop_last() =~= prior);
            assert(reported(
                before,
                heap@,
                *caps,
                cfg.sizes@,
                w,
                k,
                reports@.last(),
                *backend,
            ));
            assert(outcome@ == op_outcome(reports@.last()));
            assert(outcomes(told_of@) =~= told_before.push(op_outcome(reports@.last())));
            assert(op_outcomes(reports@) =~= op_outcomes(prior).push(op_outcome(reports@.last())));
        }
        i = i + 1;
    }
    (told_of, first, reports)
}

} // verus!
