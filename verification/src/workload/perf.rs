//! Measuring the stages of a buffer's life, size by size.
use crate::backend::ioctl::{Errno, DMA_BUF_SYNC_READ, DMA_BUF_SYNC_WRITE};
use crate::backend::protocol::{Answers, ContainerBackend, DmaBufBackend, HeapBackend};
use crate::bench::depth::{probe_done, slowed, MAX_PROBE_ALLOCS};
use crate::bench::rows::FRAG_SIZES;
use crate::order::strs;
use crate::workload::run::{of_channel, Run};
use crate::workload::script::{
    allocate, begin, dropped, fill, finish, map_buffer, open_heap, push_dropped, push_repeated,
    releases, repeated, run_timed, shut, size_of, timed_allocation, timed_on, unmap,
};
use crate::workload::stage::{staged_ran, Out, Staged};
use crate::workload::step::{last_us, must, Op, Step, Want};
use crate::workload::sweep::{
    bypassed, bypassed_steps, drained, lemma_swept_none, lemma_swept_push, passing, passing_steps, push_body,
    sweep_start, swept,
};
use crate::workload::times::{
    all_go_on, law_all_times_noted, lemma_note, lemma_noted_repeated, lemma_notes_sum, lemma_quiet,
    lemma_quiet_sum, lemma_repeated_go_on, lemma_times_len, noted_by, occurrences, quiet,
};
use vstd::prelude::*;

verus! {

/// What is measured.
#[derive(Clone, Copy, PartialEq, Eq, Structural, Debug)]
pub enum Bench {
    /// The allocation, on one channel.
    Alloc,
    /// Allocation, mapping, the start of an access for writing, the writing, the end of
    /// that access, an access for reading, and all of them together, on seven channels.
    Pipeline,
    /// The allocation and the release, on two channels.
    Close,
}

impl Bench {
    /// How many channels there are for each size.
    pub open spec fn width(self) -> nat {
        match self {
            Bench::Alloc => 1,
            Bench::Pipeline => 7,
            Bench::Close => 2,
        }
    }
}

/// One measurement, on channels from `c` on.
pub open spec fn timed_life(bench: Bench, size: u64, c: int) -> Seq<Step> {
    match bench {
        Bench::Alloc => seq![
            must(Op::Start),
            allocate(1, size),
            must(Op::Split { channel: c as usize }),
        ] + dropped(1),
        Bench::Close => seq![
            must(Op::Start),
            allocate(1, size),
            must(Op::Split { channel: c as usize }),
            must(Op::Start),
            unmap(1),
            shut(1),
            must(Op::Split { channel: (c + 1) as usize }),
        ],
        Bench::Pipeline => seq![
            must(Op::Start),
            allocate(1, size),
            must(Op::Split { channel: c as usize }),
            map_buffer(1),
            must(Op::Split { channel: (c + 1) as usize }),
            begin(1, DMA_BUF_SYNC_WRITE),
            must(Op::Split { channel: (c + 2) as usize }),
            fill(1, size, 0xaa),
            must(Op::Split { channel: (c + 3) as usize }),
            finish(1, DMA_BUF_SYNC_WRITE),
            must(Op::Split { channel: (c + 4) as usize }),
            begin(1, DMA_BUF_SYNC_READ),
            finish(1, DMA_BUF_SYNC_READ),
            must(Op::Split { channel: (c + 5) as usize }),
            must(Op::Total { channel: (c + 6) as usize }),
        ] + dropped(1),
    }
}

fn timed_life_steps(bench: Bench, size: u64, c: usize) -> (v: Vec<Step>)
    requires
        c + 7 <= usize::MAX,
    ensures
        v@ == timed_life(bench, size, c as int),
{
    let mut v: Vec<Step> = Vec::new();
    v.push(must(Op::Start));
    v.push(allocate(1, size));
    v.push(must(Op::Split { channel: c }));
    match bench {
        Bench::Alloc => {
            push_dropped(&mut v, 1);
        },
        Bench::Close => {
            v.push(must(Op::Start));
            v.push(unmap(1));
            v.push(shut(1));
            v.push(must(Op::Split { channel: c + 1 }));
        },
        Bench::Pipeline => {
            v.push(map_buffer(1));
            v.push(must(Op::Split { channel: c + 1 }));
            v.push(begin(1, DMA_BUF_SYNC_WRITE));
            v.push(must(Op::Split { channel: c + 2 }));
            v.push(fill(1, size, 0xaa));
            v.push(must(Op::Split { channel: c + 3 }));
            v.push(finish(1, DMA_BUF_SYNC_WRITE));
            v.push(must(Op::Split { channel: c + 4 }));
            v.push(begin(1, DMA_BUF_SYNC_READ));
            v.push(finish(1, DMA_BUF_SYNC_READ));
            v.push(must(Op::Split { channel: c + 5 }));
            v.push(must(Op::Total { channel: c + 6 }));
            push_dropped(&mut v, 1);
        },
    }
    assert(v@ =~= timed_life(bench, size, c as int));
    v
}

/// A buffer's life before anything is measured.
pub open spec fn warm_life(bench: Bench, size: u64) -> Seq<Step> {
    match bench {
        Bench::Pipeline => seq![
            allocate(1, size),
            map_buffer(1),
            begin(1, DMA_BUF_SYNC_WRITE),
            fill(1, size, 0xaa),
            finish(1, DMA_BUF_SYNC_WRITE),
        ] + dropped(1),
        _ => passing(size),
    }
}

fn warm_life_steps(bench: Bench, size: u64) -> (v: Vec<Step>)
    ensures
        v@ == warm_life(bench, size),
{
    match bench {
        Bench::Pipeline => {
            let mut v: Vec<Step> = vec![
                allocate(1, size),
                map_buffer(1),
                begin(1, DMA_BUF_SYNC_WRITE),
                fill(1, size, 0xaa),
                finish(1, DMA_BUF_SYNC_WRITE),
            ];
            push_dropped(&mut v, 1);
            assert(v@ =~= warm_life(bench, size));
            v
        },
        _ => passing_steps(size),
    }
}

/// One measurement; where the pool is to be bypassed, with so many buffers, it is empty
/// meanwhile.
pub open spec fn round(bench: Bench, size: u64, drain: u32, c: int) -> Seq<Step> {
    if drain == 0 {
        timed_life(bench, size, c)
    } else {
        bypassed(drain as nat, size, timed_life(bench, size, c))
    }
}

/// The measurements of one size, after some that are not noted.
pub open spec fn rounds(
    bench: Bench,
    size: u64,
    drain: u32,
    warmup: nat,
    iterations: nat,
    c: int,
) -> Seq<Step> {
    repeated(warm_life(bench, size), warmup) + repeated(round(bench, size, drain, c), iterations)
}

/// The first channel of a size.
pub open spec fn first_channel(bench: Bench, i: int) -> int {
    match bench {
        Bench::Alloc => 1 + i,
        Bench::Pipeline => 1 + i * 7,
        Bench::Close => 1 + i * 2,
    }
}

/// The measurements of the first sizes.
pub open spec fn bench_bodies(
    bench: Bench,
    sizes: Seq<u64>,
    drains: Seq<u32>,
    warmup: nat,
    iterations: nat,
    n: nat,
) -> Seq<Seq<Step>> {
    Seq::new(
        n,
        |i: int|
            rounds(bench, sizes[i], drains[i], warmup, iterations, first_channel(bench, i)),
    )
}

/// The measurements of all sizes, on one heap.
pub open spec fn benched(
    bench: Bench,
    sizes: Seq<u64>,
    drains: Seq<u32>,
    warmup: nat,
    iterations: nat,
) -> Seq<Step> {
    swept(bench_bodies(bench, sizes, drains, warmup, iterations, sizes.len()))
}

fn benched_steps(bench: Bench, sizes: &[u64], drains: &[u32], warmup: u32, iterations: u32) -> (v:
    Vec<Step>)
    requires
        sizes@.len() == drains@.len(),
        sizes@.len() * 7 + 1 <= usize::MAX,
        most(drains@) + 2 <= usize::MAX,
    ensures
        v@ == benched(bench, sizes@, drains@, warmup as nat, iterations as nat),
{
    let mut v = sweep_start();
    let mut i: usize = 0;
    let ghost w = warmup as nat;
    let ghost k = iterations as nat;
    assert(bench_bodies(bench, sizes@, drains@, w, k, 0) =~= Seq::empty());
    while i < sizes.len()
        invariant
            i <= sizes@.len() == drains@.len(),
            sizes@.len() * 7 + 1 <= usize::MAX,
            most(drains@) + 2 <= usize::MAX,
            w == warmup as nat,
            k == iterations as nat,
            v@ == swept(bench_bodies(bench, sizes@, drains@, w, k, i as nat)),
        decreases sizes@.len() - i,
    {
        let size: u64 = sizes[i];
        let drain: u32 = drains[i];
        let c: usize = match bench {
            Bench::Alloc => 1 + i,
            Bench::Pipeline => 1 + i * 7,
            Bench::Close => 1 + i * 2,
        };
        assert(c == first_channel(bench, i as int));
        let mut body: Vec<Step> = Vec::new();
        let ghost none = body@;
        push_repeated(&mut body, warm_life_steps(bench, size).as_slice(), warmup);
        assert(none + repeated(warm_life(bench, size), w) =~= repeated(warm_life(bench, size), w));
        let once = timed_life_steps(bench, size, c);
        if drain == 0 {
            push_repeated(&mut body, once.as_slice(), iterations);
        } else {
            proof {
                lemma_most(drains@, i as int);
            }
            let under = bypassed_steps(drain, size, once.as_slice());
            push_repeated(&mut body, under.as_slice(), iterations);
        }
        assert(body@ == rounds(bench, size, drain, w, k, c as int));
        let ghost b = bench_bodies(bench, sizes@, drains@, w, k, i as nat);
        push_body(&mut v, body.as_slice(), Ghost(b));
        i = i + 1;
        assert(b.push(body@) =~= bench_bodies(bench, sizes@, drains@, w, k, i as nat));
    }
    v
}

/// The largest number of buffers that empty a pool.
pub open spec fn most(drains: Seq<u32>) -> nat
    decreases drains.len(),
{
    if drains.len() == 0 {
        0
    } else if most(drains.drop_last()) < drains.last() {
        drains.last() as nat
    } else {
        most(drains.drop_last())
    }
}

proof fn lemma_most(drains: Seq<u32>, i: int)
    requires
        0 <= i < drains.len(),
    ensures
        drains[i] <= most(drains),
    decreases drains.len(),
{
    if i < drains.len() - 1 {
        lemma_most(drains.drop_last(), i);
    }
}

fn most_of(drains: &[u32]) -> (r: u32)
    ensures
        r == most(drains@),
{
    let mut r: u32 = 0;
    let mut i: usize = 0;
    assert(drains@.take(0) =~= Seq::empty());
    while i < drains.len()
        invariant
            i <= drains@.len(),
            r == most(drains@.take(i as int)),
        decreases drains@.len() - i,
    {
        assert(drains@.take(i + 1).drop_last() =~= drains@.take(i as int));
        if r < drains[i] {
            r = drains[i];
        }
        i = i + 1;
    }
    assert(drains@.take(drains@.len() as int) =~= drains@);
    r
}

/// Measures all sizes on a heap. Where the number of buffers that empty the pool is not
/// zero, the pool is empty during each measurement of that size.
pub fn run_bench<B: HeapBackend + DmaBufBackend + ContainerBackend>(
    backend: &mut B,
    heap: &str,
    bench: Bench,
    sizes: &[u64],
    drains: &[u32],
    warmup: u32,
    iterations: u32,
) -> (r: Run)
    requires
        old(backend).valid(),
        sizes@.len() == drains@.len(),
        sizes@.len() * 7 + 1 <= usize::MAX,
        most(drains@) + 2 <= usize::MAX,
    ensures
        final(backend).valid(),
        timed_on(
            *old(backend),
            benched(bench, sizes@, drains@, warmup as nat, iterations as nat),
            heap@,
            most(drains@) + 2,
            r,
            *final(backend),
        ),
        final(backend).opened() == old(backend).opened(),
{
    let steps = benched_steps(bench, sizes, drains, warmup, iterations);
    run_timed(backend, steps.as_slice(), heap, most_of(drains) as usize + 2)
}

proof fn lemma_releases_quiet(first: int, n: nat)
    ensures
        quiet(releases(first, n)),
    decreases n,
{
    if n > 0 {
        lemma_releases_quiet(first, (n - 1) as nat);
        let last = dropped((first + n - 1) as usize);
        assert(quiet(last));
        lemma_quiet_sum(releases(first, (n - 1) as nat), last);
    }
}

/// Steps of which one notes a time, and the others nothing.
proof fn lemma_noting(before: Seq<Step>, note: Step, channel: usize, c: usize)
    requires
        all_go_on(before),
        goes_on_noting(note, channel),
    ensures
        all_go_on(before.push(note)),
        occurrences(noted_by(before.push(note)), c) == occurrences(noted_by(before), c) + if c
            == channel {
            1nat
        } else {
            0
        },
{
    lemma_note(note, channel, c);
    lemma_notes_sum(before, seq![note], c);
    assert(before.push(note) =~= before + seq![note]);
}

/// Whether a step notes a time on a channel, in any case.
pub open spec fn goes_on_noting(step: Step, channel: usize) -> bool {
    crate::workload::times::noted_on(step) == Some(channel) && crate::workload::times::goes_on(step)
}

proof fn lemma_then(before: Seq<Step>, more: Seq<Step>, c: usize)
    requires
        all_go_on(before),
        quiet(more),
    ensures
        all_go_on(before + more),
        occurrences(noted_by(before + more), c) == occurrences(noted_by(before), c),
{
    lemma_quiet(more, c);
    lemma_notes_sum(before, more, c);
}

proof fn lemma_timed_life(bench: Bench, size: u64, base: int, c: usize)
    requires
        0 <= base,
        base + 7 <= usize::MAX,
    ensures
        all_go_on(timed_life(bench, size, base)),
        occurrences(noted_by(timed_life(bench, size, base)), c) == if base <= c < base
            + bench.width() {
            1nat
        } else {
            0
        },
{
    let s1 = seq![must(Op::Start), allocate(1, size)];
    assert(quiet(s1));
    lemma_quiet(s1, c);
    let n1 = must(Op::Split { channel: base as usize });
    lemma_noting(s1, n1, base as usize, c);
    let s2 = s1.push(n1);
    assert(quiet(dropped(1)));
    match bench {
        Bench::Alloc => {
            lemma_then(s2, dropped(1), c);
            assert(timed_life(bench, size, base) =~= s2 + dropped(1));
        },
        Bench::Close => {
            let more = seq![must(Op::Start), unmap(1), shut(1)];
            assert(quiet(more));
            lemma_then(s2, more, c);
            let n2 = must(Op::Split { channel: (base + 1) as usize });
            lemma_noting(s2 + more, n2, (base + 1) as usize, c);
            assert(timed_life(bench, size, base) =~= (s2 + more).push(n2));
        },
        Bench::Pipeline => {
            let m2 = seq![map_buffer(1)];
            assert(quiet(m2));
            lemma_then(s2, m2, c);
            let n2 = must(Op::Split { channel: (base + 1) as usize });
            lemma_noting(s2 + m2, n2, (base + 1) as usize, c);
            let s3 = (s2 + m2).push(n2);
            let m3 = seq![begin(1, DMA_BUF_SYNC_WRITE)];
            assert(quiet(m3));
            lemma_then(s3, m3, c);
            let n3 = must(Op::Split { channel: (base + 2) as usize });
            lemma_noting(s3 + m3, n3, (base + 2) as usize, c);
            let s4 = (s3 + m3).push(n3);
            let m4 = seq![fill(1, size, 0xaa)];
            assert(quiet(m4));
            lemma_then(s4, m4, c);
            let n4 = must(Op::Split { channel: (base + 3) as usize });
            lemma_noting(s4 + m4, n4, (base + 3) as usize, c);
            let s5 = (s4 + m4).push(n4);
            let m5 = seq![finish(1, DMA_BUF_SYNC_WRITE)];
            assert(quiet(m5));
            lemma_then(s5, m5, c);
            let n5 = must(Op::Split { channel: (base + 4) as usize });
            lemma_noting(s5 + m5, n5, (base + 4) as usize, c);
            let s6 = (s5 + m5).push(n5);
            let m6 = seq![begin(1, DMA_BUF_SYNC_READ), finish(1, DMA_BUF_SYNC_READ)];
            assert(quiet(m6));
            lemma_then(s6, m6, c);
            let n6 = must(Op::Split { channel: (base + 5) as usize });
            lemma_noting(s6 + m6, n6, (base + 5) as usize, c);
            let s7 = (s6 + m6).push(n6);
            let n7 = must(Op::Total { channel: (base + 6) as usize });
            lemma_noting(s7, n7, (base + 6) as usize, c);
            lemma_then(s7.push(n7), dropped(1), c);
            assert(timed_life(bench, size, base) =~= s7.push(n7) + dropped(1));
        },
    }
}

proof fn lemma_round(bench: Bench, size: u64, drain: u32, base: int, c: usize)
    requires
        0 <= base,
        base + 7 <= usize::MAX,
    ensures
        all_go_on(round(bench, size, drain, base)),
        occurrences(noted_by(round(bench, size, drain, base)), c) == if base <= c < base
            + bench.width() {
            1nat
        } else {
            0
        },
{
    lemma_timed_life(bench, size, base, c);
    if drain > 0 {
        let x = drained(drain as nat, size);
        let y = timed_life(bench, size, base);
        assert(quiet(x));
        lemma_quiet(x, c);
        lemma_notes_sum(x, y, c);
        lemma_releases_quiet(2, drain as nat);
        lemma_then(x + y, releases(2, drain as nat), c);
    }
}

proof fn lemma_benched(
    bench: Bench,
    sizes: Seq<u64>,
    drains: Seq<u32>,
    warmup: nat,
    iterations: nat,
    n: nat,
    c: usize,
)
    requires
        n <= sizes.len() == drains.len(),
        n * 7 + 1 <= usize::MAX,
    ensures
        all_go_on(swept(bench_bodies(bench, sizes, drains, warmup, iterations, n))),
        occurrences(
            noted_by(swept(bench_bodies(bench, sizes, drains, warmup, iterations, n))),
            c,
        ) == if c == 0 {
            n + 1
        } else if c < first_channel(bench, n as int) {
            iterations
        } else {
            0
        },
    decreases n,
{
    let all = bench_bodies(bench, sizes, drains, warmup, iterations, n);
    if n == 0 {
        assert(all =~= Seq::empty());
        lemma_swept_none(c);
    } else {
        let before = bench_bodies(bench, sizes, drains, warmup, iterations, (n - 1) as nat);
        let size = sizes[n - 1];
        let drain = drains[n - 1];
        let base = first_channel(bench, n - 1);
        assert(base + bench.width() == first_channel(bench, n as int));
        let warm = repeated(warm_life(bench, size), warmup);
        let once = round(bench, size, drain, base);
        let timed = repeated(once, iterations);
        lemma_benched(bench, sizes, drains, warmup, iterations, (n - 1) as nat, c);
        assert(quiet(warm_life(bench, size)));
        lemma_quiet(warm_life(bench, size), c);
        lemma_noted_repeated(warm_life(bench, size), warmup, c);
        lemma_repeated_go_on(warm_life(bench, size), warmup);
        lemma_round(bench, size, drain, base, c);
        lemma_noted_repeated(once, iterations, c);
        lemma_repeated_go_on(once, iterations);
        lemma_notes_sum(warm, timed, c);
        lemma_swept_push(before, warm + timed, c);
        assert(all =~= before.push(warm + timed));
        assert(warmup * 0 == 0);
        assert(iterations * 1 == iterations);
        assert(iterations * 0 == 0);
    }
}

/// Where all goes well, there are as many times on each channel of each size as asked
/// for.
pub proof fn law_all_sizes_measured<B: Answers>(
    a: B,
    heap: Seq<char>,
    bench: Bench,
    sizes: Seq<u64>,
    drains: Seq<u32>,
    warmup: nat,
    iterations: nat,
    run: Run,
    b: B,
    c: usize,
)
    requires
        sizes.len() == drains.len(),
        sizes.len() * 7 + 1 <= usize::MAX,
        timed_on(
            a,
            benched(bench, sizes, drains, warmup, iterations),
            heap,
            most(drains) + 2,
            run,
            b,
        ),
        run.result is Ok,
        1 <= c < first_channel(bench, sizes.len() as int),
    ensures
        of_channel(run.marks@, c).len() == iterations,
{
    lemma_benched(bench, sizes, drains, warmup, iterations, sizes.len(), c);
    law_all_times_noted(
        a,
        benched(bench, sizes, drains, warmup, iterations),
        seq![heap],
        most(drains) + 2,
        run.result,
        run.marks@,
        b,
    );
    lemma_times_len(run.marks@, c);
}

/// The stages of a probe with so many allocations: all buffers are kept.
pub open spec fn probe_stages(n: nat, size: u64) -> Seq<Seq<Step>> {
    Seq::new(
        n + 1,
        |i: int|
            if i == 0 {
                seq![open_heap()]
            } else {
                timed_allocation(i as usize, size, 0)
            },
    )
}

/// Whether all stages but the last went well.
pub open spec fn well_before(outs: Seq<Out>) -> bool {
    forall|i: int| 0 <= i < outs.len() - 1 ==> (#[trigger] outs[i]).result is Ok
}

/// Whether a probe went on just as long as it should: until it slowed down, or until the
/// most allocations were made.
pub open spec fn just_slowed(times: Seq<u64>) -> bool {
    &&& times.len() <= MAX_PROBE_ALLOCS
    &&& slowed(times) || times.len() == MAX_PROBE_ALLOCS
    &&& forall|k: int| 0 <= k < times.len() ==> !slowed(#[trigger] times.take(k))
}

/// Whether times are those that stages after the first noted last.
pub open spec fn noted_last(times: Seq<u64>, outs: Seq<Out>) -> bool {
    &&& times.len() == outs.len() - 1
    &&& forall|k: int|
        0 <= k < times.len() ==> #[trigger] times[k] == last_us(outs[k + 1].end.marks)
}

/// Whether a probe leads from one backend to another, with the times of its allocations;
/// there are none where one fails.
pub open spec fn probe_ran<B: Answers>(
    a: B,
    heap: Seq<char>,
    size: u64,
    times: Option<Vec<u64>>,
    b: B,
) -> bool {
    exists|outs: Seq<Out>| #[trigger]
        staged_ran(
            a,
            probe_stages((outs.len() - 1) as nat, size),
            seq![heap],
            (MAX_PROBE_ALLOCS + 1) as nat,
            outs,
            b,
        ) && outs.len() > 0 && well_before(outs) && match times {
            Some(v) => outs.last().result is Ok && noted_last(v@, outs) && just_slowed(v@),
            None => outs.last().result is Err,
        }
}

/// Allocates buffers, and keeps them, until allocation slows down.
pub fn probe_pool_depth<B: HeapBackend + DmaBufBackend + ContainerBackend>(
    backend: &mut B,
    heap: &str,
    size: u64,
) -> (r: Option<Vec<u64>>)
    requires
        old(backend).valid(),
    ensures
        final(backend).valid(),
        probe_ran(*old(backend), heap@, size, r, *final(backend)),
        final(backend).opened() == old(backend).opened(),
{
    let ghost a = *backend;
    let names: [&str; 1] = [heap];
    assert(strs(names@) =~= seq![heap@]);
    let mut s = Staged::new(MAX_PROBE_ALLOCS + 1, backend, &names);
    let open: Vec<Step> = vec![open_heap()];
    assert(open@ =~= seq![open_heap()]);
    let mut result = s.stage(backend, open.as_slice(), &names, Ghost(a));
    let mut times: Vec<u64> = Vec::new();
    let mut done: bool = false;
    assert(s.stages@ =~= probe_stages(0, size));
    while result.is_ok() && !done && times.len() < MAX_PROBE_ALLOCS
        invariant
            strs(names@) == seq![heap@],
            s.slots == MAX_PROBE_ALLOCS + 1,
            s.led(a, strs(names@), *backend),
            times@.len() <= MAX_PROBE_ALLOCS,
            s.outs@.len() > 0,
            s.stages@ == probe_stages((s.outs@.len() - 1) as nat, size),
            well_before(s.outs@),
            s.outs@.last().result == result,
            result is Ok ==> noted_last(times@, s.outs@),
            done ==> slowed(times@),
            !done ==> !slowed(times@),
            forall|k: int| 0 <= k < times@.len() ==> !slowed(#[trigger] times@.take(k)),
        decreases
                MAX_PROBE_ALLOCS - times@.len(),
                if result is Ok {
                    1int
                } else {
                    0
                },
    {
        let n: usize = times.len() + 1;
        let steps: Vec<Step> = vec![
            must(Op::Start),
            allocate(n, size),
            must(Op::Split { channel: 0 }),
        ];
        assert(steps@ =~= timed_allocation(n, size, 0));
        let ghost outs = s.outs@;
        let ghost prior = times@;
        result = s.stage(backend, steps.as_slice(), &names, Ghost(a));
        assert(s.stages@ =~= probe_stages(n as nat, size));
        assert(well_before(s.outs@)) by {
            assert forall|i: int| 0 <= i < s.outs@.len() - 1 implies (
            #[trigger] s.outs@[i]).result is Ok by {
                if i == outs.len() - 1 {
                    assert(s.outs@[i] == outs.last());
                } else {
                    assert(s.outs@[i] == outs[i]);
                }
            }
        }
        if result.is_ok() {
            times.push(s.session.last_us());
            done = probe_done(times.as_slice());
            proof {
                assert(times@.take(n - 1) =~= prior);
                assert forall|j: int| 0 <= j < times@.len() implies !slowed(
                    #[trigger] times@.take(j),
                ) by {
                    if j < n - 1 {
                        assert(times@.take(j) =~= prior.take(j));
                    }
                }
            }
        }
    }
    let ghost outs = s.outs@;
    s.end(backend, &names, Ghost(a));
    proof {
        let n = (outs.len() - 1) as nat;
        assert(staged_ran(
            a,
            probe_stages(n, size),
            seq![heap@],
            (MAX_PROBE_ALLOCS + 1) as nat,
            outs,
            *backend,
        ));
    }
    if result.is_ok() {
        Some(times)
    } else {
        None
    }
}

/// A buffer is allocated, and asked for its size.
pub open spec fn weighed(size: u64) -> Seq<Step> {
    seq![allocate(1, size), size_of(1, Want::Keep)] + dropped(1)
}

/// The first stages of weighing buffers of odd sizes.
pub open spec fn frag_stages(n: nat) -> Seq<Seq<Step>> {
    Seq::new(
        n,
        |i: int|
            if i == 0 {
                seq![open_heap()]
            } else {
                weighed(FRAG_SIZES@[i - 1])
            },
    )
}

/// Whether weighing buffers leads from one backend to another, with the size of each.
pub open spec fn frag_ran<B: Answers>(
    a: B,
    heap: Seq<char>,
    r: Result<Vec<i64>, Errno>,
    b: B,
) -> bool {
    exists|outs: Seq<Out>| #[trigger]
        staged_ran(a, frag_stages(outs.len()), seq![heap], 2, outs, b) && 0 < outs.len() <= 7
            && well_before(outs) && match r {
            Ok(v) => {
                &&& outs.len() == 7
                &&& outs.last().result is Ok
                &&& v@ == Seq::new(6, |i: int| outs[i + 1].end.kept)
            },
            Err(e) => outs.last().result == Err::<(), Errno>(e),
        }
}

/// Allocates buffers of odd sizes, and asks each for its size.
pub fn bench_internal_frag<B: HeapBackend + DmaBufBackend + ContainerBackend>(
    backend: &mut B,
    heap: &str,
) -> (r: Result<Vec<i64>, Errno>)
    requires
        old(backend).valid(),
    ensures
        final(backend).valid(),
        frag_ran(*old(backend), heap@, r, *final(backend)),
        final(backend).opened() == old(backend).opened(),
{
    let ghost a = *backend;
    let names: [&str; 1] = [heap];
    assert(strs(names@) =~= seq![heap@]);
    let mut s = Staged::new(2, backend, &names);
    let open: Vec<Step> = vec![open_heap()];
    assert(open@ =~= seq![open_heap()]);
    let mut result = s.stage(backend, open.as_slice(), &names, Ghost(a));
    let mut sizes: Vec<i64> = Vec::new();
    assert(s.stages@ =~= frag_stages(1));
    let mut i: usize = 0;
    while i < 6 && result.is_ok()
        invariant
            i <= 6,
            strs(names@) == seq![heap@],
            s.slots == 2,
            s.led(a, strs(names@), *backend),
            s.outs@.len() == i + 1,
            s.stages@ == frag_stages((i + 1) as nat),
            well_before(s.outs@),
            s.outs@.last().result == result,
            result is Ok ==> sizes@ == Seq::new(i as nat, |k: int| s.outs@[k + 1].end.kept),
        decreases 6 - i,
    {
        let ghost outs = s.outs@;
        let ghost prior = sizes@;
        let mut steps: Vec<Step> = vec![allocate(1, FRAG_SIZES[i]), size_of(1, Want::Keep)];
        push_dropped(&mut steps, 1);
        assert(steps@ =~= weighed(FRAG_SIZES@[i as int]));
        result = s.stage(backend, steps.as_slice(), &names, Ghost(a));
        i = i + 1;
        assert(s.stages@ =~= frag_stages((i + 1) as nat));
        assert(well_before(s.outs@)) by {
            assert forall|k: int| 0 <= k < s.outs@.len() - 1 implies (
            #[trigger] s.outs@[k]).result is Ok by {
                if k == outs.len() - 1 {
                    assert(s.outs@[k] == outs.last());
                } else {
                    assert(s.outs@[k] == outs[k]);
                }
            }
        }
        if result.is_ok() {
            sizes.push(s.session.kept);
            proof {
                assert(s.outs@[i as int] == s.outs@.last());
                assert(sizes@ =~= Seq::new(i as nat, |k: int| s.outs@[k + 1].end.kept));
            }
        }
    }
    let ghost outs = s.outs@;
    s.end(backend, &names, Ghost(a));
    assert(staged_ran(a, frag_stages(outs.len()), seq![heap@], 2, outs, *backend));
    match result {
        Ok(_) => Ok(sizes),
        Err(e) => Err(e),
    }
}

} // verus!
