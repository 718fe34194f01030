//! Workloads that show how a heap keeps released memory for reuse.
use crate::backend::ioctl::Errno;
use crate::backend::protocol::{Answers, Ask, ContainerBackend, DmaBufBackend, HeapBackend, Moment};
use crate::bench::pressure::SubTestResult;
use crate::order::strs;
use crate::workload::run::{of_channel, Run};
use crate::workload::script::{
    allocate, bulk, done_on, dropped, open_heap, push_bulk, push_dropped, push_releases,
    push_repeated, releases, repeated, run_on, run_timed, shut, timed_on, unmap,
};
use crate::workload::step::{asking, must, Op, Step};
use crate::workload::suite::{plans, planned, run_suite, suite_told, Plan, Planned};
use crate::workload::times::{
    all_go_on, law_all_times_noted, lemma_note, lemma_noted_repeated, lemma_notes_sum, lemma_quiet,
    lemma_repeated_go_on, lemma_times_len, noted_by, occurrences, quiet,
};
use vstd::prelude::*;

verus! {

/// How many buffers fill the heap's pool.
pub const POOL_COUNT: u32 = 100;

/// The size of these buffers.
pub const POOL_SIZE: u64 = 65536;

/// How many allocations are timed.
pub const MEASURE_ITERS: u32 = 100;

/// The other size, where sizes change.
pub const SMALL_SIZE: u64 = 4096;

/// How many allocations a phase has, where sizes change.
pub const PHASE_COUNT: u32 = 500;

/// How many buffers are released together.
pub const DEFERRED_COUNT: usize = 200;

/// The size of these buffers.
pub const DEFERRED_SIZE: u64 = 1_048_576;

/// A buffer comes and goes; its allocation is timed.
pub open spec fn timed_cycle(size: u64, channel: usize) -> Seq<Step> {
    seq![
        must(Op::Start),
        allocate(1, size),
        must(Op::Split { channel }),
        unmap(1),
        shut(1),
    ]
}

fn timed_cycle_steps(size: u64, channel: usize) -> (r: Vec<Step>)
    ensures
        r@ == timed_cycle(size, channel),
{
    let v: Vec<Step> = vec![
        must(Op::Start),
        allocate(1, size),
        must(Op::Split { channel }),
        unmap(1),
        shut(1),
    ];
    assert(v@ =~= timed_cycle(size, channel));
    v
}

/// A buffer comes and goes.
pub open spec fn plain_cycle(size: u64) -> Seq<Step> {
    seq![
        allocate(1, size),
        unmap(1),
        shut(1),
    ]
}

fn plain_cycle_steps(size: u64) -> (r: Vec<Step>)
    ensures
        r@ == plain_cycle(size),
{
    let v: Vec<Step> = vec![
        allocate(1, size),
        unmap(1),
        shut(1),
    ];
    assert(v@ =~= plain_cycle(size));
    v
}

/// Allocations that are timed, one after the other.
pub open spec fn timed_cycles(size: u64, channel: usize, count: nat) -> Seq<Step> {
    repeated(timed_cycle(size, channel), count)
}

/// Appends allocations that are timed.
pub fn push_timed_cycles(v: &mut Vec<Step>, size: u64, channel: usize, count: u32)
    ensures
        final(v)@ == old(v)@ + timed_cycles(size, channel, count as nat),
{
    push_repeated(v, timed_cycle_steps(size, channel).as_slice(), count);
}

/// Allocations before the pool is filled, on channel 0, and after, on channel 1.
pub open spec fn warmed_up() -> Seq<Step> {
    seq![open_heap()] + timed_cycles(POOL_SIZE, 0, MEASURE_ITERS as nat) + repeated(
        plain_cycle(POOL_SIZE),
        POOL_COUNT as nat,
    ) + timed_cycles(POOL_SIZE, 1, MEASURE_ITERS as nat)
}

fn warmed_up_steps() -> (v: Vec<Step>)
    ensures
        v@ == warmed_up(),
{
    let mut v: Vec<Step> = vec![open_heap()];
    push_timed_cycles(&mut v, POOL_SIZE, 0, MEASURE_ITERS);
    push_repeated(&mut v, plain_cycle_steps(POOL_SIZE).as_slice(), POOL_COUNT);
    push_timed_cycles(&mut v, POOL_SIZE, 1, MEASURE_ITERS);
    v
}

/// Allocations of one size, of another, and of the first again, each on its channel.
pub open spec fn size_switched() -> Seq<Step> {
    seq![open_heap()] + timed_cycles(POOL_SIZE, 0, PHASE_COUNT as nat) + timed_cycles(
        SMALL_SIZE,
        1,
        PHASE_COUNT as nat,
    ) + timed_cycles(POOL_SIZE, 2, PHASE_COUNT as nat)
}

fn size_switched_steps() -> (v: Vec<Step>)
    ensures
        v@ == size_switched(),
{
    let mut v: Vec<Step> = vec![open_heap()];
    push_timed_cycles(&mut v, POOL_SIZE, 0, PHASE_COUNT);
    push_timed_cycles(&mut v, SMALL_SIZE, 1, PHASE_COUNT);
    push_timed_cycles(&mut v, POOL_SIZE, 2, PHASE_COUNT);
    v
}

/// Places are released, the last one first.
pub open spec fn releases_backward(count: nat) -> Seq<Step>
    decreases count,
{
    if count == 0 {
        Seq::empty()
    } else {
        dropped(count as usize) + releases_backward((count - 1) as nat)
    }
}

/// Every other place is released, from one on.
pub open spec fn releases_by_two(first: int, n: nat) -> Seq<Step>
    decreases n,
{
    if n == 0 {
        Seq::empty()
    } else {
        releases_by_two(first, (n - 1) as nat) + dropped((first + 2 * (n - 1)) as usize)
    }
}

fn push_releases_backward(v: &mut Vec<Step>, count: usize)
    ensures
        final(v)@ == old(v)@ + releases_backward(count as nat),
{
    let ghost start = v@;
    let mut i: usize = count;
    let ghost mut made = Seq::<Step>::empty();
    assert(start + made =~= start);
    assert(made + releases_backward(count as nat) =~= releases_backward(count as nat));
    while i > 0
        invariant
            i <= count,
            v@ == start + made,
            made + releases_backward(i as nat) == releases_backward(count as nat),
        decreases i,
    {
        push_dropped(v, i);
        proof {
            let d = dropped(i);
            assert((start + made) + d =~= start + (made + d));
            assert(made + (d + releases_backward((i - 1) as nat)) =~= (made + d)
                + releases_backward((i - 1) as nat));
            made = made + d;
        }
        i = i - 1;
    }
    assert(made + Seq::<Step>::empty() =~= made);
}

fn push_releases_by_two(v: &mut Vec<Step>, first: usize, n: usize)
    requires
        first + 2 * n <= usize::MAX,
    ensures
        final(v)@ == old(v)@ + releases_by_two(first as int, n as nat),
{
    let ghost start = v@;
    let mut i: usize = 0;
    assert(start + Seq::<Step>::empty() =~= start);
    while i < n
        invariant
            i <= n,
            first + 2 * n <= usize::MAX,
            v@ == start + releases_by_two(first as int, i as nat),
        decreases n - i,
    {
        let ghost before = releases_by_two(first as int, i as nat);
        push_dropped(v, first + 2 * i);
        i = i + 1;
        assert((start + before) + dropped((first + 2 * (i - 1)) as usize) =~= start + (before
            + dropped((first + 2 * (i - 1)) as usize)));
    }
}

/// Allocations after a pool of buffers was released: in the reverse order on channel 0,
/// in the same order on channel 1, every second one first on channel 2.
pub open spec fn orders_released() -> Seq<Step> {
    seq![open_heap()] + bulk(1, 100, POOL_SIZE) + releases_backward(100) + timed_cycles(
        POOL_SIZE,
        0,
        100,
    ) + bulk(1, 100, POOL_SIZE) + releases(1, 100) + timed_cycles(POOL_SIZE, 1, 100) + bulk(
        1,
        100,
        POOL_SIZE,
    ) + releases_by_two(2, 50) + releases_by_two(1, 50) + timed_cycles(POOL_SIZE, 2, 100)
}

fn orders_released_steps() -> (v: Vec<Step>)
    ensures
        v@ == orders_released(),
{
    let mut v: Vec<Step> = vec![open_heap()];
    push_bulk(&mut v, 1, 100, POOL_SIZE);
    push_releases_backward(&mut v, 100);
    push_timed_cycles(&mut v, POOL_SIZE, 0, POOL_COUNT);
    push_bulk(&mut v, 1, 100, POOL_SIZE);
    push_releases(&mut v, 1, 100);
    push_timed_cycles(&mut v, POOL_SIZE, 1, POOL_COUNT);
    push_bulk(&mut v, 1, 100, POOL_SIZE);
    push_releases_by_two(&mut v, 2, 50);
    push_releases_by_two(&mut v, 1, 50);
    push_timed_cycles(&mut v, POOL_SIZE, 2, POOL_COUNT);
    v
}

/// Many buffers are released together; free memory is looked at before they come and
/// after they are gone.
pub open spec fn deferred() -> Seq<Step> {
    seq![open_heap(), asking(Ask::Memory(Moment::Before))] + bulk(
        1,
        DEFERRED_COUNT as nat,
        DEFERRED_SIZE,
    ) + releases(1, DEFERRED_COUNT as nat) + seq![asking(Ask::Memory(Moment::After))]
}

fn deferred_steps() -> (v: Vec<Step>)
    ensures
        v@ == deferred(),
{
    let mut v: Vec<Step> = vec![open_heap(), asking(Ask::Memory(Moment::Before))];
    assert(v@ =~= seq![open_heap(), asking(Ask::Memory(Moment::Before))]);
    push_bulk(&mut v, 1, DEFERRED_COUNT, DEFERRED_SIZE);
    push_releases(&mut v, 1, DEFERRED_COUNT);
    let ghost before = v@;
    v.push(asking(Ask::Memory(Moment::After)));
    assert(v@ =~= before + seq![asking(Ask::Memory(Moment::After))]);
    v
}

/// Times allocations before and after the pool is filled.
pub fn test_pool_warmup<B: HeapBackend + DmaBufBackend + ContainerBackend>(
    backend: &mut B,
    heap: &str,
) -> (r: Run)
    requires
        old(backend).valid(),
    ensures
        final(backend).valid(),
        timed_on(*old(backend), warmed_up(), heap@, 2, r, *final(backend)),
        final(backend).opened() == old(backend).opened(),
{
    run_timed(backend, warmed_up_steps().as_slice(), heap, 2)
}

/// Times allocations while sizes change.
pub fn test_size_switch<B: HeapBackend + DmaBufBackend + ContainerBackend>(
    backend: &mut B,
    heap: &str,
) -> (r: Run)
    requires
        old(backend).valid(),
    ensures
        final(backend).valid(),
        timed_on(*old(backend), size_switched(), heap@, 2, r, *final(backend)),
        final(backend).opened() == old(backend).opened(),
{
    run_timed(backend, size_switched_steps().as_slice(), heap, 2)
}

/// Times allocations after releases in three orders.
pub fn test_release_order<B: HeapBackend + DmaBufBackend + ContainerBackend>(
    backend: &mut B,
    heap: &str,
) -> (r: Run)
    requires
        old(backend).valid(),
    ensures
        final(backend).valid(),
        timed_on(*old(backend), orders_released(), heap@, 101, r, *final(backend)),
        final(backend).opened() == old(backend).opened(),
{
    run_timed(backend, orders_released_steps().as_slice(), heap, 101)
}

/// Many buffers are released together; free memory is looked at before and after.
pub fn test_deferred_free<B: HeapBackend + DmaBufBackend + ContainerBackend>(
    backend: &mut B,
    heap: &str,
) -> (r: Result<(), Errno>)
    requires
        old(backend).valid(),
    ensures
        final(backend).valid(),
        done_on(*old(backend), deferred(), heap@, 201, r, *final(backend)),
        final(backend).opened() == old(backend).opened(),
{
    run_on(backend, deferred_steps().as_slice(), heap, 201)
}

/// All workloads on reuse.
pub open spec fn pool_plan() -> Seq<Plan> {
    seq![
        Plan { name: "pool_warmup"@, steps: warmed_up(), slots: 2, skip: false },
        Plan { name: "size_switch"@, steps: size_switched(), slots: 2, skip: false },
        Plan { name: "release_order"@, steps: orders_released(), slots: 101, skip: false },
        Plan { name: "deferred_free"@, steps: deferred(), slots: 201, skip: false },
    ]
}

fn pool_plan_list() -> (r: Vec<Planned>)
    ensures
        plans(r@) == pool_plan(),
{
    let mut v: Vec<Planned> = Vec::new();
    v.push(planned("pool_warmup", warmed_up_steps(), 2, false));
    v.push(planned("size_switch", size_switched_steps(), 2, false));
    v.push(planned("release_order", orders_released_steps(), 101, false));
    v.push(planned("deferred_free", deferred_steps(), 201, false));
    assert(plans(v@) =~= pool_plan());
    v
}

/// Runs all workloads on reuse on a heap.
pub fn run<B: HeapBackend + DmaBufBackend + ContainerBackend>(
    backend: &mut B,
    heap: &str,
) -> (r: (Vec<SubTestResult>, Option<String>))
    requires
        old(backend).valid(),
    ensures
        final(backend).valid(),
        final(backend).opened() == old(backend).opened(),
        suite_told(
            *old(backend),
            "pool"@,
            pool_plan(),
            seq![heap@],
            r.0@,
            r.1,
            *final(backend),
        ),
{
    let names: [&str; 1] = [heap];
    assert(strs(names@) =~= seq![heap@]);
    run_suite(backend, "pool", &names, &pool_plan_list())
}

proof fn lemma_cycles(size: u64, channel: usize, count: nat, c: usize)
    ensures
        all_go_on(timed_cycles(size, channel, count)),
        occurrences(noted_by(timed_cycles(size, channel, count)), c) == if c == channel {
            count
        } else {
            0
        },
{
    let body = timed_cycle(size, channel);
    let a = body.take(2);
    let mark = seq![must(Op::Split { channel })];
    let b = body.skip(3);
    assert(body =~= a + mark + b);
    assert(quiet(a));
    assert(quiet(b));
    lemma_quiet(a, c);
    lemma_quiet(b, c);
    lemma_note(must(Op::Split { channel }), channel, c);
    lemma_notes_sum(a, mark, c);
    lemma_notes_sum(a + mark, b, c);
    lemma_noted_repeated(body, count, c);
    lemma_repeated_go_on(body, count);
    assert(count * 1 == count && count * 0 == 0);
}

/// A pool that is warmed up, and ends well, has as many times before the warming as after it,
/// a hundred of each.
pub proof fn law_warmup_times_both_sides<B: Answers>(a: B, heap: Seq<char>, r: Run, b: B)
    requires
        timed_on(a, warmed_up(), heap, 2, r, b),
        r.result is Ok,
    ensures
        of_channel(r.marks@, 0).len() == 100,
        of_channel(r.marks@, 1).len() == 100,
{
    lemma_warmed_up(0);
    lemma_warmed_up(1);
    law_all_times_noted(a, warmed_up(), seq![heap], 2, r.result, r.marks@, b);
    lemma_times_len(r.marks@, 0);
    lemma_times_len(r.marks@, 1);
}

proof fn lemma_warmed_up(c: usize)
    requires
        c <= 1,
    ensures
        all_go_on(warmed_up()),
        occurrences(noted_by(warmed_up()), c) == 100,
{
    let open = seq![open_heap()];
    let one = timed_cycles(POOL_SIZE, 0, MEASURE_ITERS as nat);
    let plain = plain_cycle(POOL_SIZE);
    let warm = repeated(plain, POOL_COUNT as nat);
    let two = timed_cycles(POOL_SIZE, 1, MEASURE_ITERS as nat);
    assert(quiet(open));
    assert(quiet(plain));
    lemma_quiet(open, c);
    lemma_quiet(plain, c);
    lemma_noted_repeated(plain, POOL_COUNT as nat, c);
    lemma_repeated_go_on(plain, POOL_COUNT as nat);
    lemma_cycles(POOL_SIZE, 0, MEASURE_ITERS as nat, c);
    lemma_cycles(POOL_SIZE, 1, MEASURE_ITERS as nat, c);
    lemma_notes_sum(open, one, c);
    lemma_notes_sum(open + one, warm, c);
    lemma_notes_sum(open + one + warm, two, c);
}

/// Where the size changes and changes back, and all ends well, each of the three phases has
/// five hundred times.
pub proof fn law_size_switch_times_each_phase<B: Answers>(
    a: B,
    heap: Seq<char>,
    r: Run,
    b: B,
    c: usize,
)
    requires
        timed_on(a, size_switched(), heap, 2, r, b),
        r.result is Ok,
        c < 3,
    ensures
        of_channel(r.marks@, c).len() == 500,
{
    let open = seq![open_heap()];
    let n = PHASE_COUNT as nat;
    let one = timed_cycles(POOL_SIZE, 0, n);
    let two = timed_cycles(SMALL_SIZE, 1, n);
    let three = timed_cycles(POOL_SIZE, 2, n);
    assert(quiet(open));
    lemma_quiet(open, c);
    lemma_cycles(POOL_SIZE, 0, n, c);
    lemma_cycles(SMALL_SIZE, 1, n, c);
    lemma_cycles(POOL_SIZE, 2, n, c);
    lemma_notes_sum(open, one, c);
    lemma_notes_sum(open + one, two, c);
    lemma_notes_sum(open + one + two, three, c);
    law_all_times_noted(a, size_switched(), seq![heap], 2, r.result, r.marks@, b);
    lemma_times_len(r.marks@, c);
}

} // verus!
