//! What the workloads of the parts of a device have in common.
use crate::backend::protocol::{Answers, ContainerBackend, DmaBufBackend, HeapBackend};
use crate::backend::ioctl::Errno;
use crate::scenario::pipeline::check_failures;
use crate::workload::pools::{
    frame_byte, free_ran, grouped, looked_at, pool_buffer, push_grouped, push_looked_at,
    push_written, run_alloc_free, run_stream, stream_ran, turn, written,
};
use crate::workload::run::Run;
use crate::workload::script::{open_heap, push_releases, releases};
use crate::workload::step::{must, Op, Step};
use vstd::prelude::*;

verus! {

/// Buffers of one size in consecutive places, not mapped.
pub open spec fn pool_bulk(first: int, count: nat, size: u64) -> Seq<Step> {
    Seq::new(count, |i: int| pool_buffer((first + i) as usize, size))
}

/// Appends the allocation of buffers that are not mapped.
pub fn push_pool_bulk(v: &mut Vec<Step>, first: usize, count: usize, size: u64)
    requires
        first + count <= usize::MAX,
    ensures
        final(v)@ == old(v)@ + pool_bulk(first as int, count as nat, size),
{
    let ghost start = v@;
    let mut i: usize = 0;
    assert(start + pool_bulk(first as int, 0, size) =~= start);
    while i < count
        invariant
            i <= count,
            first + count <= usize::MAX,
            v@ == start + pool_bulk(first as int, i as nat, size),
        decreases count - i,
    {
        v.push(pool_buffer(first + i, size));
        i = i + 1;
        assert(v@ =~= start + pool_bulk(first as int, i as nat, size));
    }
}

/// One frame: it is written to the buffer whose turn it is, which may be looked at.
pub open spec fn frame(
    first: int,
    count: nat,
    size: u64,
    look: bool,
    channel: usize,
    f: nat,
) -> Seq<Step> {
    seq![must(Op::Start)] + written(turn(first, count, f), size, frame_byte(f)) + (if look {
        looked_at(turn(first, count, f))
    } else {
        Seq::empty()
    }) + seq![must(Op::Split { channel })]
}

/// Frames, one after the other.
pub open spec fn framed(
    first: int,
    count: nat,
    size: u64,
    look: bool,
    channel: usize,
    n: nat,
) -> Seq<Step>
    decreases n,
{
    if n == 0 {
        Seq::empty()
    } else {
        framed(first, count, size, look, channel, (n - 1) as nat) + frame(
            first,
            count,
            size,
            look,
            channel,
            (n - 1) as nat,
        )
    }
}

/// Appends frames.
pub fn push_framed(
    v: &mut Vec<Step>,
    first: usize,
    count: usize,
    size: u64,
    look: bool,
    channel: usize,
    n: u32,
)
    requires
        count > 0 || n == 0,
        first + count <= usize::MAX,
    ensures
        final(v)@ == old(v)@ + framed(first as int, count as nat, size, look, channel, n as nat),
{
    let ghost start = v@;
    let mut f: u32 = 0;
    assert(start + Seq::<Step>::empty() =~= start);
    while f < n
        invariant
            f <= n,
            count > 0 || n == 0,
            first + count <= usize::MAX,
            v@ == start + framed(first as int, count as nat, size, look, channel, f as nat),
        decreases n - f,
    {
        let ghost before = framed(first as int, count as nat, size, look, channel, f as nat);
        let place: usize = first + (f as usize) % count;
        let byte: u8 = (f % 256) as u8;
        assert(place == turn(first as int, count as nat, f as nat));
        assert(byte == frame_byte(f as nat));
        v.push(must(Op::Start));
        push_written(v, place, size, byte);
        if look {
            push_looked_at(v, place);
        }
        v.push(must(Op::Split { channel }));
        assert(v@ =~= start + (before + frame(
            first as int,
            count as nat,
            size,
            look,
            channel,
            f as nat,
        )));
        f = f + 1;
    }
}

/// Groups of buffers of one size after another: the allocations of the group with a
/// number are timed on the channel of twice its number, and together on the next.
pub open spec fn switched(sizes: Seq<u64>, count: nat, n: nat) -> Seq<Step>
    decreases n,
{
    if n == 0 {
        seq![open_heap()]
    } else {
        switched(sizes, count, (n - 1) as nat) + grouped(
            1,
            count,
            sizes[n - 1],
            (2 * (n - 1)) as usize,
            (2 * (n - 1) + 1) as usize,
        ) + releases(1, count)
    }
}

/// The steps of groups of one size after another.
pub fn switched_steps(sizes: &[u64], count: usize) -> (v: Vec<Step>)
    requires
        2 * sizes@.len() <= usize::MAX,
        count < usize::MAX,
    ensures
        v@ == switched(sizes@, count as nat, sizes@.len()),
{
    let mut v: Vec<Step> = vec![open_heap()];
    let mut i: usize = 0;
    assert(v@ =~= seq![open_heap()]);
    while i < sizes.len()
        invariant
            i <= sizes@.len(),
            2 * sizes@.len() <= usize::MAX,
            count < usize::MAX,
            v@ == switched(sizes@, count as nat, i as nat),
        decreases sizes@.len() - i,
    {
        push_grouped(&mut v, 1, count, sizes[i], 2 * i, 2 * i + 1);
        push_releases(&mut v, 1, count);
        i = i + 1;
    }
    v
}

/// One of several at once: frames for the buffers of a pool, or, with none, a buffer for
/// each frame.
#[derive(Clone, Copy)]
pub struct Job<'a> {
    pub heap: &'a str,
    pub size: u64,
    pub pool: usize,
    pub frames: u32,
}

/// One of several at once, as values.
#[verifier::ext_equal]
pub ghost struct JobPlan {
    pub heap: Seq<char>,
    pub size: u64,
    pub pool: nat,
    pub frames: nat,
}

impl<'a> View for Job<'a> {
    type V = JobPlan;

    open spec fn view(&self) -> JobPlan {
        JobPlan {
            heap: self.heap@,
            size: self.size,
            pool: self.pool as nat,
            frames: self.frames as nat,
        }
    }
}

/// Several, as values.
pub open spec fn job_plans(v: Seq<Job<'_>>) -> Seq<JobPlan> {
    Seq::new(v.len(), |i: int| v[i]@)
}

/// Whether one of several leads from one backend to another.
pub open spec fn job_ran<B: Answers>(a: B, job: JobPlan, r: Run, b: B) -> bool {
    if job.pool > 0 {
        stream_ran(a, job.heap, job.size, job.pool, job.frames, r, b)
    } else {
        free_ran(a, job.heap, job.size, job.frames, r, b)
    }
}

/// Whether several, one after the other, lead from one backend to another.
pub open spec fn jobs_ran<B: Answers>(a: B, jobs: Seq<JobPlan>, runs: Seq<Run>, b: B) -> bool
    decreases jobs.len(),
{
    if jobs.len() == 0 {
        runs.len() == 0 && b == a
    } else {
        &&& runs.len() == jobs.len()
        &&& exists|m: B| #[trigger]
            job_ran(m, jobs.last(), runs.last(), b) && jobs_ran(
                a,
                jobs.drop_last(),
                runs.drop_last(),
                m,
            )
    }
}

/// Whether any of several failed.
pub open spec fn any_failed(runs: Seq<Run>) -> bool {
    exists|i: int| 0 <= i < runs.len() && (#[trigger] runs[i]).result is Err
}

/// Runs one of several.
pub fn run_job<B: HeapBackend + DmaBufBackend + ContainerBackend>(
    backend: &mut B,
    job: &Job<'_>,
) -> (r: Run)
    requires
        old(backend).valid(),
        job.pool < usize::MAX,
    ensures
        final(backend).valid(),
        job_ran(*old(backend), job@, r, *final(backend)),
        final(backend).opened() == old(backend).opened(),
{
    if job.pool > 0 {
        run_stream(backend, job.heap, job.size, job.pool, job.frames)
    } else {
        run_alloc_free(backend, job.heap, job.size, job.frames)
    }
}

/// What several come to: any failure is an input/output error.
pub fn jobs_result(runs: &Vec<Run>) -> (r: Result<(), Errno>)
    ensures
        r == if any_failed(runs@) {
            Err::<(), Errno>(Errno::EIO)
        } else {
            Ok(())
        },
{
    let mut failures: usize = 0;
    let mut i: usize = 0;
    while i < runs.len()
        invariant
            i <= runs@.len(),
            failures <= i,
            failures > 0 <==> exists|k: int| 0 <= k < i && (#[trigger] runs@[k]).result is Err,
        decreases runs@.len() - i,
    {
        if runs[i].result.is_err() {
            failures = failures + 1;
            assert(runs@[i as int].result is Err);
        }
        i = i + 1;
    }
    check_failures(failures)
}

/// Runs several. Here they take their turns.
pub fn run_jobs<B: HeapBackend + DmaBufBackend + ContainerBackend>(
    backend: &mut B,
    jobs: &[Job<'_>],
) -> (runs: Vec<Run>)
    requires
        old(backend).valid(),
        forall|i: int| 0 <= i < jobs@.len() ==> (#[trigger] jobs@[i]).pool < usize::MAX,
    ensures
        final(backend).valid(),
        jobs_ran(*old(backend), job_plans(jobs@), runs@, *final(backend)),
        final(backend).opened() == old(backend).opened(),
{
    let ghost a = *backend;
    let ghost all = job_plans(jobs@);
    let mut runs: Vec<Run> = Vec::new();
    let mut i: usize = 0;
    assert(all.take(0) =~= Seq::empty());
    while i < jobs.len()
        invariant
            i <= jobs@.len(),
            forall|k: int| 0 <= k < jobs@.len() ==> (#[trigger] jobs@[k]).pool < usize::MAX,
            all == job_plans(jobs@),
            backend.valid(),
            backend.opened() == a.opened(),
            runs@.len() == i,
            jobs_ran(a, all.take(i as int), runs@, *backend),
        decreases jobs@.len() - i,
    {
        let ghost before = *backend;
        let ghost prior = runs@;
        let run = run_job(backend, &jobs[i]);
        runs.push(run);
        proof {
            assert(all.take(i + 1).drop_last() =~= all.take(i as int));
            assert(all.take(i + 1).last() == jobs@[i as int]@);
            assert(runs@.drop_last() =~= prior);
            assert(job_ran(before, all.take(i + 1).last(), runs@.last(), *backend));
        }
        i = i + 1;
    }
    assert(all.take(all.len() as int) =~= all);
    runs
}

} // verus!
