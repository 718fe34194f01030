//! Workloads that use memory up.
use crate::backend::ioctl::Errno;
use crate::backend::protocol::{Answers, ContainerBackend, DmaBufBackend, HeapBackend};
use crate::bench::pressure::{
    concurrent_line, concurrent_text, exhaust_line, exhaust_text, outcomes, recovery_line,
    recovery_text, SubTestResult,
};
use crate::histogram::average;
use crate::info::types::strings;
use crate::order::strs;
use crate::scenario::pipeline::check_failures;
use crate::workload::run::{of_channel, Run};
use crate::workload::script::{
    allocation, dropped, open_heap, push_dropped, run_timed, timed_on,
};
use crate::workload::stage::{reached, stage_done, staged, staged_ran, Out, Staged};
use crate::workload::step::{
    blank, channels, cleanup, expecting, must, outcome, performed, Expect, Op, Slot, State, Step,
};
use crate::workload::suite::{
    all_told, collect_test_results, first_failure, maybe_text, results_of, tested,
};
use crate::workload::times::{
    all_go_on_unless, allocations, goes_on_unless, lemma_allocations_sum, lemma_channel_untouched,
    lemma_note, lemma_noted_sum, lemma_noted_unless_refused, lemma_occurrences_sum,
    lemma_times_len, noted_by, noted_on, occurrences, refused_on_the_way,
};
use vstd::prelude::*;

verus! {

/// How many work at once.
pub const WORKERS: usize = 4;

/// How many buffers each of them allocates.
pub const ALLOCS_PER_WORKER: usize = 50;

/// An allocation that is timed, and ends the workload well where memory is used up.
pub open spec fn attempt(to: usize, size: u64, channel: usize) -> Seq<Step> {
    seq![
        must(Op::Start),
        expecting(allocation(to, size), Expect::OrEnd(Errno::ENOMEM)),
        must(Op::Split { channel }),
    ]
}

/// Allocations into consecutive places, until memory is used up.
pub open spec fn attempts(first: int, count: nat, size: u64, channel: usize) -> Seq<Step>
    decreases count,
{
    if count == 0 {
        Seq::empty()
    } else {
        attempts(first, (count - 1) as nat, size, channel) + attempt(
            (first + count - 1) as usize,
            size,
            channel,
        )
    }
}

fn push_attempts(v: &mut Vec<Step>, first: usize, count: usize, size: u64, channel: usize)
    requires
        first + count <= usize::MAX,
    ensures
        final(v)@ == old(v)@ + attempts(first as int, count as nat, size, channel),
{
    let ghost start = v@;
    let mut i: usize = 0;
    assert(start + Seq::<Step>::empty() =~= start);
    while i < count
        invariant
            i <= count,
            first + count <= usize::MAX,
            v@ == start + attempts(first as int, i as nat, size, channel),
        decreases count - i,
    {
        let ghost before = attempts(first as int, i as nat, size, channel);
        v.push(must(Op::Start));
        v.push(expecting(allocation(first + i, size), Expect::OrEnd(Errno::ENOMEM)));
        v.push(must(Op::Split { channel }));
        assert(v@ =~= start + (before + attempt((first + i) as usize, size, channel)));
        i = i + 1;
    }
}

/// A heap is filled up: at most so many buffers, until memory is used up.
pub open spec fn exhausted(size: u64, max_allocs: nat) -> Seq<Step> {
    seq![open_heap()] + attempts(1, max_allocs, size, 0)
}

fn exhausted_steps(size: u64, max_allocs: usize) -> (v: Vec<Step>)
    requires
        max_allocs < usize::MAX,
    ensures
        v@ == exhausted(size, max_allocs as nat),
{
    let mut v: Vec<Step> = vec![open_heap()];
    push_attempts(&mut v, 1, max_allocs, size, 0);
    v
}

/// Fills a heap up: one time for every buffer that was allocated.
pub fn test_gradual_exhaust<B: HeapBackend + DmaBufBackend + ContainerBackend>(
    backend: &mut B,
    heap: &str,
    alloc_size: u64,
    max_allocs: usize,
) -> (r: Run)
    requires
        old(backend).valid(),
        max_allocs < usize::MAX,
    ensures
        final(backend).valid(),
        timed_on(
            *old(backend),
            exhausted(alloc_size, max_allocs as nat),
            heap@,
            max_allocs as nat + 1,
            r,
            *final(backend),
        ),
        final(backend).opened() == old(backend).opened(),
{
    run_timed(
        backend,
        exhausted_steps(alloc_size, max_allocs).as_slice(),
        heap,
        max_allocs + 1,
    )
}

/// How many of the first places after the heap's hold a buffer.
pub open spec fn held_buffers(st: State, n: nat) -> nat
    decreases n,
{
    if n == 0 {
        0
    } else {
        held_buffers(st, (n - 1) as nat) + if st.at(n as usize) is Buffer {
            1nat
        } else {
            0
        }
    }
}

fn count_buffers(s: &Staged, n: usize) -> (r: usize)
    ensures
        r == held_buffers(s.session@, n as nat),
        r <= n,
{
    let mut r: usize = 0;
    let mut i: usize = 0;
    while i < n
        invariant
            i <= n,
            r <= i,
            r == held_buffers(s.session@, i as nat),
        decreases n - i,
    {
        i = i + 1;
        match s.session.at(i) {
            Slot::Buffer { .. } => {
                r = r + 1;
            },
            _ => {},
        }
    }
    r
}

/// The last ones of the first places are released, the last one first.
pub open spec fn popped(n: int, count: nat) -> Seq<Step>
    decreases count,
{
    if count == 0 {
        Seq::empty()
    } else {
        popped(n, (count - 1) as nat) + dropped((n - count + 1) as usize)
    }
}

fn popped_steps(n: usize, count: usize) -> (v: Vec<Step>)
    requires
        count <= n < usize::MAX,
    ensures
        v@ == popped(n as int, count as nat),
{
    let mut v: Vec<Step> = Vec::new();
    let mut i: usize = 0;
    while i < count
        invariant
            i <= count <= n < usize::MAX,
            v@ == popped(n as int, i as nat),
        decreases count - i,
    {
        i = i + 1;
        push_dropped(&mut v, n - i + 1);
    }
    v
}

/// What came of a recovery: how many buffers there were, how many were released, and the
/// times of those that came again, on channel 1.
pub struct Recovery {
    pub run: Run,
    pub before: usize,
    pub released: usize,
}

/// The stages of a recovery: a heap is filled up, half of the buffers are released, and
/// as many are asked for again. There is nothing to release where nothing was allocated.
pub open spec fn recovery_stages(outs: Seq<Out>, size: u64, max_allocs: nat) -> Seq<Seq<Step>> {
    let n = held_buffers(outs[0].end, max_allocs);
    if outs[0].result is Err || n == 0 {
        seq![exhausted(size, max_allocs)]
    } else {
        seq![
            exhausted(size, max_allocs),
            popped(n as int, n / 2),
            attempts(n - n / 2 + 1, n / 2, size, 1),
        ]
    }
}

/// What is told of a recovery.
pub open spec fn recovery_told(outs: Seq<Out>, max_allocs: nat, r: Recovery) -> bool {
    let n = held_buffers(outs[0].end, max_allocs);
    &&& r.run.result == outs.last().result
    &&& r.run.marks@ == outs.last().end.marks
    &&& if outs[0].result is Err || n == 0 {
        r.before == 0 && r.released == 0
    } else {
        r.before == n && r.released == n / 2
    }
}

/// Whether a recovery leads from one backend to another.
pub open spec fn recovery_ran<B: Answers>(
    a: B,
    heap: Seq<char>,
    size: u64,
    max_allocs: nat,
    r: Recovery,
    b: B,
) -> bool {
    exists|outs: Seq<Out>| #[trigger]
        staged_ran(
            a,
            recovery_stages(outs, size, max_allocs),
            seq![heap],
            max_allocs + 1,
            outs,
            b,
        ) && recovery_told(outs, max_allocs, r)
}

/// Fills a heap up, releases half of the buffers, and asks for as many again.
pub fn test_recovery<B: HeapBackend + DmaBufBackend + ContainerBackend>(
    backend: &mut B,
    heap: &str,
    alloc_size: u64,
    max_allocs: usize,
) -> (r: Recovery)
    requires
        old(backend).valid(),
        max_allocs < usize::MAX,
    ensures
        final(backend).valid(),
        recovery_ran(
            *old(backend),
            heap@,
            alloc_size,
            max_allocs as nat,
            r,
            *final(backend),
        ),
        final(backend).opened() == old(backend).opened(),
{
    let ghost a = *backend;
    let names: [&str; 1] = [heap];
    assert(strs(names@) =~= seq![heap@]);
    let mut s = Staged::new(max_allocs + 1, backend, &names);
    let mut result = s.stage(
        backend,
        exhausted_steps(alloc_size, max_allocs).as_slice(),
        &names,
        Ghost(a),
    );
    let n: usize = count_buffers(&s, max_allocs);
    let mut before: usize = 0;
    let mut released: usize = 0;
    if result.is_ok() && n > 0 {
        before = n;
        released = n / 2;
        let _ = s.stage(backend, popped_steps(n, released).as_slice(), &names, Ghost(a));
        let mut again: Vec<Step> = Vec::new();
        let ghost none = again@;
        push_attempts(&mut again, n - released + 1, released, alloc_size, 1);
        assert(again@ =~= attempts(n - released + 1, released as nat, alloc_size, 1));
        result = s.stage(backend, again.as_slice(), &names, Ghost(a));
    }
    let ghost outs = s.outs@;
    let ghost stages = s.stages@;
    proof {
        assert(stages =~= recovery_stages(outs, alloc_size, max_allocs as nat));
        assert(outs.last() == Out { result, end: s.session@ });
    }
    let marks = s.session.marks.clone();
    let ghost end = s.session@;
    s.end(backend, &names, Ghost(a));
    let r = Recovery { run: Run { result, marks }, before, released };
    assert(r.run.marks@ =~= end.marks);
    assert(staged_ran(
        a,
        recovery_stages(outs, alloc_size, max_allocs as nat),
        seq![heap@],
        max_allocs as nat + 1,
        outs,
        *backend,
    ));
    r
}

proof fn lemma_attempts(first: int, count: nat, size: u64, channel: usize, c: usize)
    ensures
        all_go_on_unless(attempts(first, count, size, channel), size, Errno::ENOMEM),
        occurrences(noted_by(attempts(first, count, size, channel)), c) == if c == channel {
            count
        } else {
            0
        },
        allocations(attempts(first, count, size, channel), size) == count,
        c != channel ==> forall|i: int|
            0 <= i < attempts(first, count, size, channel).len() ==> noted_on(
                #[trigger] attempts(first, count, size, channel)[i],
            ) != Some(c),
    decreases count,
{
    let all = attempts(first, count, size, channel);
    if count > 0 {
        let before = attempts(first, (count - 1) as nat, size, channel);
        let place = (first + count - 1) as usize;
        let one = attempt(place, size, channel);
        lemma_attempts(first, (count - 1) as nat, size, channel, c);
        let ask = seq![
            must(Op::Start),
            expecting(allocation(place, size), Expect::OrEnd(Errno::ENOMEM)),
        ];
        let look = must(Op::Split { channel });
        assert(one =~= ask + seq![look]);
        lemma_noted_sum(ask, seq![look]);
        lemma_note(look, channel, c);
        assert(ask.skip(1).skip(1) =~= Seq::<Step>::empty());
        assert(noted_by(ask.skip(1).skip(1)) =~= Seq::<usize>::empty());
        assert(noted_by(ask.skip(1)) =~= Seq::<usize>::empty());
        assert(noted_by(ask) =~= Seq::<usize>::empty());
        lemma_occurrences_sum(noted_by(ask), noted_by(seq![look]), c);
        lemma_noted_sum(before, one);
        lemma_occurrences_sum(noted_by(before), noted_by(one), c);
        lemma_allocations_sum(before, one, size);
        assert(one.drop_last().drop_last().drop_last() =~= Seq::<Step>::empty());
        assert(allocations(one.drop_last().drop_last().drop_last(), size) == 0);
        assert(allocations(one.drop_last().drop_last(), size) == 0);
        assert(allocations(one.drop_last(), size) == 1);
        assert(allocations(one, size) == 1);
        assert forall|i: int| 0 <= i < all.len() implies goes_on_unless(
            #[trigger] all[i],
            size,
            Errno::ENOMEM,
        ) && (c != channel ==> noted_on(all[i]) != Some(c)) by {
            if i < before.len() {
                assert(all[i] == before[i]);
            } else {
                assert(all[i] == one[i - before.len()]);
            }
        }
    }
}

proof fn lemma_popped_quiet(n: int, count: nat)
    ensures
        forall|i: int|
            0 <= i < popped(n, count).len() ==> noted_on(#[trigger] popped(n, count)[i]) is None,
    decreases count,
{
    if count > 0 {
        let before = popped(n, (count - 1) as nat);
        let last = dropped((n - count + 1) as usize);
        lemma_popped_quiet(n, (count - 1) as nat);
        assert forall|i: int| 0 <= i < popped(n, count).len() implies noted_on(
            #[trigger] popped(n, count)[i],
        ) is None by {
            if i < before.len() {
                assert(popped(n, count)[i] == before[i]);
            } else {
                assert(popped(n, count)[i] == last[i - before.len()]);
            }
        }
    }
}

proof fn lemma_exhausted(size: u64, max_allocs: nat, c: usize)
    ensures
        all_go_on_unless(exhausted(size, max_allocs), size, Errno::ENOMEM),
        occurrences(noted_by(exhausted(size, max_allocs)), c) == if c == 0 {
            max_allocs
        } else {
            0
        },
        allocations(exhausted(size, max_allocs), size) == max_allocs,
        c != 0 ==> forall|i: int|
            0 <= i < exhausted(size, max_allocs).len() ==> noted_on(
                #[trigger] exhausted(size, max_allocs)[i],
            ) != Some(c),
{
    let all = exhausted(size, max_allocs);
    let open = seq![open_heap()];
    let rest = attempts(1, max_allocs, size, 0);
    lemma_attempts(1, max_allocs, size, 0, c);
    lemma_noted_sum(open, rest);
    assert(open.skip(1) =~= Seq::<Step>::empty());
    assert(noted_by(open.skip(1)) =~= Seq::<usize>::empty());
    assert(noted_by(open) =~= Seq::<usize>::empty());
    lemma_occurrences_sum(noted_by(open), noted_by(rest), c);
    lemma_allocations_sum(open, rest, size);
    assert(open.drop_last() =~= Seq::<Step>::empty());
    assert(allocations(open.drop_last(), size) == 0);
    assert forall|i: int| 0 <= i < all.len() implies goes_on_unless(
        #[trigger] all[i],
        size,
        Errno::ENOMEM,
    ) && (c != 0 ==> noted_on(all[i]) != Some(c)) by {
        if i > 0 {
            assert(all[i] == rest[i - 1]);
        }
    }
}

/// Where a heap is filled up, as many buffers are asked for as may be, and one time is noted
/// for each, unless memory is used up: one allocation was answered so.
pub proof fn law_exhaust_tries_all<B: Answers>(
    a: B,
    heap: Seq<char>,
    size: u64,
    max_allocs: nat,
    r: Run,
    b: B,
)
    requires
        timed_on(a, exhausted(size, max_allocs), heap, max_allocs + 1, r, b),
        r.result is Ok,
    ensures
        of_channel(r.marks@, 0).len() == max_allocs || refused_on_the_way(
            a,
            exhausted(size, max_allocs),
            seq![heap],
            blank(max_allocs + 1),
            size,
            Errno::ENOMEM,
        ),
        allocations(exhausted(size, max_allocs), size) == max_allocs,
{
    let steps = exhausted(size, max_allocs);
    let names = seq![heap];
    let slots = max_allocs + 1;
    lemma_exhausted(size, max_allocs, 0);
    let (q, mid, m, end) = choose|q: Result<(), Errno>, mid: State, m: B, end: State|
        #![trigger performed(a, steps, names, blank(slots), q, mid, m), performed(m, cleanup(slots), names, mid, Ok::<(), Errno>(()), end, b)]
        {
            &&& performed(a, steps, names, blank(slots), q, mid, m)
            &&& performed(m, cleanup(slots), names, mid, Ok::<(), Errno>(()), end, b)
            &&& r.result == outcome(q, mid.noted)
            &&& r.marks@ == mid.marks
        };
    lemma_noted_unless_refused(
        a,
        steps,
        names,
        blank(slots),
        q,
        mid,
        m,
        size,
        Errno::ENOMEM,
        0,
    );
    assert(channels(blank(slots).marks) =~= Seq::<usize>::empty());
    lemma_times_len(mid.marks, 0);
}

/// Whether memory was used up again in a recovery: after its first two stages, the third came
/// to an allocation that was answered so.
pub open spec fn short_again<B: Answers>(
    a: B,
    heap: Seq<char>,
    size: u64,
    max_allocs: nat,
) -> bool {
    exists|outs: Seq<Out>, x: B|
        #![trigger staged(a, recovery_stages(outs, size, max_allocs).drop_last(), seq![heap], blank(max_allocs + 1), outs.drop_last(), x)]
        {
            &&& outs.len() == 3
            &&& recovery_stages(outs, size, max_allocs).len() == 3
            &&& staged(
                a,
                recovery_stages(outs, size, max_allocs).drop_last(),
                seq![heap],
                blank(max_allocs + 1),
                outs.drop_last(),
                x,
            )
            &&& refused_on_the_way(
                x,
                recovery_stages(outs, size, max_allocs)[2],
                seq![heap],
                outs[1].end,
                size,
                Errno::ENOMEM,
            )
        }
}

/// A recovery that ends well releases half of what was allocated, and asks for as many
/// buffers again: it notes as many times for those as it released, unless memory is used up
/// again, so that an allocation was answered so.
pub proof fn law_recovery_asks_again<B: Answers>(
    a: B,
    heap: Seq<char>,
    size: u64,
    max_allocs: nat,
    r: Recovery,
    b: B,
)
    requires
        recovery_ran(a, heap, size, max_allocs, r, b),
        r.run.result is Ok,
    ensures
        r.released == r.before / 2,
        of_channel(r.run.marks@, 1).len() == r.released || short_again(a, heap, size, max_allocs),
{
    let names = seq![heap];
    let outs = choose|outs: Seq<Out>| #[trigger]
        staged_ran(a, recovery_stages(outs, size, max_allocs), names, max_allocs + 1, outs, b)
            && recovery_told(outs, max_allocs, r);
    let stages = recovery_stages(outs, size, max_allocs);
    let st = blank(max_allocs + 1);
    let (m, last) = choose|m: B, last: Out|
        staged(a, stages, names, st, outs, m) && #[trigger] stage_done(
            m,
            cleanup(max_allocs + 1),
            names,
            reached(st, outs),
            last,
            b,
        );
    let n = held_buffers(outs[0].end, max_allocs);
    lemma_exhausted(size, max_allocs, 1);
    assert(channels(st.marks) =~= Seq::<usize>::empty());
    lemma_times_len(outs.last().end.marks, 1);
    if outs[0].result is Err || n == 0 {
        assert(stages.len() == 1);
        let m0 = choose|x: B|
            staged(a, stages.drop_last(), names, st, outs.drop_last(), x) && #[trigger] stage_done(
                x,
                stages.last(),
                names,
                reached(st, outs.drop_last()),
                outs.last(),
                m,
            );
        assert(outs.drop_last() =~= Seq::<Out>::empty());
        lemma_channel_untouched(
            m0,
            stages.last(),
            names,
            st,
            outs.last().result,
            outs.last().end,
            m,
            1,
        );
    } else {
        let m2 = choose|x: B|
            staged(a, stages.drop_last(), names, st, outs.drop_last(), x) && #[trigger] stage_done(
                x,
                stages.last(),
                names,
                reached(st, outs.drop_last()),
                outs.last(),
                m,
            );
        let stages2 = stages.drop_last();
        let outs2 = outs.drop_last();
        let m1 = choose|x: B|
            staged(a, stages2.drop_last(), names, st, outs2.drop_last(), x)
                && #[trigger] stage_done(
                x,
                stages2.last(),
                names,
                reached(st, outs2.drop_last()),
                outs2.last(),
                m2,
            );
        let stages1 = stages2.drop_last();
        let outs1 = outs2.drop_last();
        let m0 = choose|x: B|
            staged(a, stages1.drop_last(), names, st, outs1.drop_last(), x)
                && #[trigger] stage_done(
                x,
                stages1.last(),
                names,
                reached(st, outs1.drop_last()),
                outs1.last(),
                m1,
            );
        assert(outs1.drop_last() =~= Seq::<Out>::empty());
        assert(stages1.last() == exhausted(size, max_allocs));
        assert(stages2.last() == popped(n as int, n / 2));
        assert(stages.last() == attempts(n - n / 2 + 1, n / 2, size, 1));
        lemma_channel_untouched(
            m0,
            stages1.last(),
            names,
            st,
            outs1.last().result,
            outs1.last().end,
            m1,
            1,
        );
        lemma_popped_quiet(n as int, n / 2);
        lemma_channel_untouched(
            m1,
            stages2.last(),
            names,
            outs1.last().end,
            outs2.last().result,
            outs2.last().end,
            m2,
            1,
        );
        lemma_attempts(n - n / 2 + 1, n / 2, size, 1, 1);
        lemma_noted_unless_refused(
            m2,
            stages.last(),
            names,
            outs2.last().end,
            outs.last().result,
            outs.last().end,
            m,
            size,
            Errno::ENOMEM,
            1,
        );
        assert(outs2.last() == outs[1]);
        assert(staged(a, stages.drop_last(), names, st, outs.drop_last(), m2));
    }
}

/// The third stage of a recovery asks for as many buffers of the size as half of those that
/// were held.
pub proof fn law_recovery_stages(outs: Seq<Out>, size: u64, max_allocs: nat)
    requires
        outs.len() > 0,
        outs[0].result is Ok,
        held_buffers(outs[0].end, max_allocs) > 0,
    ensures
        ({
            let stages = recovery_stages(outs, size, max_allocs);
            &&& stages.len() == 3
            &&& allocations(stages[0], size) == max_allocs
            &&& allocations(stages[2], size) == held_buffers(outs[0].end, max_allocs) / 2
        }),
{
    let n = held_buffers(outs[0].end, max_allocs);
    lemma_exhausted(size, max_allocs, 0);
    lemma_attempts(n - n / 2 + 1, n / 2, size, 1, 1);
}

/// The allocations of one of several at once: a failure is noted, and where memory is
/// used up it stops.
pub open spec fn worker(first: int, count: nat, size: u64) -> Seq<Step>
    decreases count,
{
    if count == 0 {
        Seq::empty()
    } else {
        worker(first, (count - 1) as nat, size) + seq![
            expecting(
                allocation((first + count - 1) as usize, size),
                Expect::NotedOrEnd(Errno::ENOMEM),
            ),
            must(Op::Split { channel: 0 }),
        ]
    }
}

fn worker_steps(first: usize, size: u64) -> (v: Vec<Step>)
    requires
        first <= 1000,
    ensures
        v@ == worker(first as int, ALLOCS_PER_WORKER as nat, size),
{
    let mut v: Vec<Step> = Vec::new();
    let mut i: usize = 0;
    while i < ALLOCS_PER_WORKER
        invariant
            i <= ALLOCS_PER_WORKER,
            first <= 1000,
            v@ == worker(first as int, i as nat, size),
        decreases ALLOCS_PER_WORKER - i,
    {
        let ghost before = v@;
        v.push(expecting(allocation(first + i, size), Expect::NotedOrEnd(Errno::ENOMEM)));
        v.push(must(Op::Split { channel: 0 }));
        i = i + 1;
        assert(v@ =~= before + seq![
            expecting(
                allocation((first + i - 1) as usize, size),
                Expect::NotedOrEnd(Errno::ENOMEM),
            ),
            must(Op::Split { channel: 0 }),
        ]);
    }
    v
}

/// The stages of several at once: they share the heap, and keep what they allocate
/// until all are done.
pub open spec fn concurrent_stages(outs: Seq<Out>, size: u64) -> Seq<Seq<Step>> {
    if outs[0].result is Err {
        seq![seq![open_heap()]]
    } else {
        seq![
            seq![open_heap()],
            worker(1, 50, size),
            worker(51, 50, size),
            worker(101, 50, size),
            worker(151, 50, size),
        ]
    }
}

/// How many allocations failed though memory was not used up: those that were followed
/// by another look, less the buffers that are held.
pub open spec fn failed(st: State, n: nat) -> int {
    if st.marks.len() > held_buffers(st, n) {
        st.marks.len() - held_buffers(st, n)
    } else {
        0
    }
}

/// Whether several at once lead from one backend to another, with a result and so many
/// failures; there is no telling where the heap cannot be opened.
pub open spec fn concurrent_ran<B: Answers>(
    a: B,
    heap: Seq<char>,
    size: u64,
    result: Result<(), Errno>,
    failures: Option<usize>,
    b: B,
) -> bool {
    exists|outs: Seq<Out>| #[trigger]
        staged_ran(a, concurrent_stages(outs, size), seq![heap], 201, outs, b) && if outs[0].result is Err {
            result == outs[0].result && failures is None
        } else {
            &&& result == outcome(Ok::<(), Errno>(()), outs.last().end.noted)
            &&& failures is Some && failures->0 == failed(outs.last().end, 200)
        }
}

/// Several at once use memory up: any other failure is an input/output error. Here they
/// take their turns.
pub fn test_pressure_concurrent<B: HeapBackend + DmaBufBackend + ContainerBackend>(
    backend: &mut B,
    heap: &str,
    alloc_size: u64,
) -> (r: (Result<(), Errno>, Option<usize>))
    requires
        old(backend).valid(),
    ensures
        final(backend).valid(),
        concurrent_ran(*old(backend), heap@, alloc_size, r.0, r.1, *final(backend)),
        final(backend).opened() == old(backend).opened(),
{
    let ghost a = *backend;
    let names: [&str; 1] = [heap];
    assert(strs(names@) =~= seq![heap@]);
    let mut s = Staged::new(201, backend, &names);
    let open: Vec<Step> = vec![open_heap()];
    assert(open@ =~= seq![open_heap()]);
    let opened = s.stage(backend, open.as_slice(), &names, Ghost(a));
    let mut result = opened;
    let mut failures: Option<usize> = None;
    if opened.is_ok() {
        let _ = s.stage(backend, worker_steps(1, alloc_size).as_slice(), &names, Ghost(a));
        let _ = s.stage(backend, worker_steps(51, alloc_size).as_slice(), &names, Ghost(a));
        let _ = s.stage(backend, worker_steps(101, alloc_size).as_slice(), &names, Ghost(a));
        let _ = s.stage(backend, worker_steps(151, alloc_size).as_slice(), &names, Ghost(a));
        let held: usize = count_buffers(&s, 200);
        let looks: usize = s.session.marks.len();
        failures = Some(
            if looks > held {
                looks - held
            } else {
                0
            },
        );
        result = if s.session.noted {
            Err(Errno::EIO)
        } else {
            Ok(())
        };
    }
    let ghost outs = s.outs@;
    assert(s.stages@ =~= concurrent_stages(outs, alloc_size));
    s.end(backend, &names, Ghost(a));
    assert(staged_ran(a, concurrent_stages(outs, alloc_size), seq![heap@], 201, outs, *backend));
    (result, failures)
}

/// The stages of one of several, with a heap that it opens itself.
pub open spec fn alone_stages(outs: Seq<Out>, size: u64) -> Seq<Seq<Step>> {
    if outs[0].result is Err {
        seq![seq![open_heap()]]
    } else {
        seq![seq![open_heap()], worker(1, 50, size)]
    }
}

/// Whether one of several leads from one backend to another, with so many failures, or an
/// error where the heap cannot be opened.
pub open spec fn alone_ran<B: Answers>(
    a: B,
    heap: Seq<char>,
    size: u64,
    r: Result<usize, Errno>,
    b: B,
) -> bool {
    exists|outs: Seq<Out>| #[trigger]
        staged_ran(a, alone_stages(outs, size), seq![heap], 51, outs, b) && match outs[0].result {
            Err(e) => r == Err::<usize, Errno>(e),
            Ok(_) => r matches Ok(n) && n == failed(outs.last().end, 50),
        }
}

/// One of several uses memory up, and counts the other failures.
pub fn pressure_worker<B: HeapBackend + DmaBufBackend + ContainerBackend>(
    backend: &mut B,
    heap: &str,
    alloc_size: u64,
) -> (r: Result<usize, Errno>)
    requires
        old(backend).valid(),
    ensures
        final(backend).valid(),
        alone_ran(*old(backend), heap@, alloc_size, r, *final(backend)),
        final(backend).opened() == old(backend).opened(),
{
    let ghost a = *backend;
    let names: [&str; 1] = [heap];
    assert(strs(names@) =~= seq![heap@]);
    let mut s = Staged::new(51, backend, &names);
    let open: Vec<Step> = vec![open_heap()];
    assert(open@ =~= seq![open_heap()]);
    let opened = s.stage(backend, open.as_slice(), &names, Ghost(a));
    let r: Result<usize, Errno> = match opened {
        Err(e) => Err(e),
        Ok(_) => {
            let _ = s.stage(backend, worker_steps(1, alloc_size).as_slice(), &names, Ghost(a));
            let held: usize = count_buffers(&s, 50);
            let looks: usize = s.session.marks.len();
            Ok(
                if looks > held {
                    looks - held
                } else {
                    0
                },
            )
        },
    };
    let ghost outs = s.outs@;
    assert(s.stages@ =~= alone_stages(outs, alloc_size));
    s.end(backend, &names, Ghost(a));
    assert(staged_ran(a, alone_stages(outs, alloc_size), seq![heap@], 51, outs, *backend));
    r
}

/// The first error of several.
pub open spec fn first_error(v: Seq<Result<usize, Errno>>) -> Option<Errno>
    decreases v.len(),
{
    if v.len() == 0 {
        None
    } else {
        match (first_error(v.drop_last()), v.last()) {
            (Some(e), _) => Some(e),
            (None, Err(e)) => Some(e),
            (None, Ok(_)) => None,
        }
    }
}

/// The failures of several, up to the largest number.
pub open spec fn all_failures(v: Seq<Result<usize, Errno>>) -> usize
    decreases v.len(),
{
    if v.len() == 0 {
        0
    } else {
        match v.last() {
            Ok(n) => if all_failures(v.drop_last()) + n <= usize::MAX {
                (all_failures(v.drop_last()) + n) as usize
            } else {
                usize::MAX
            },
            Err(_) => all_failures(v.drop_last()),
        }
    }
}

/// What several at once come to: an error where the heap could not be opened, else an
/// input/output error where any allocation failed though memory was not used up.
pub fn workers_outcome(v: &[Result<usize, Errno>]) -> (r: (Result<(), Errno>, Option<usize>))
    ensures
        r == match first_error(v@) {
            Some(e) => (Err::<(), Errno>(e), None::<usize>),
            None => (
                if all_failures(v@) > 0 {
                    Err(Errno::EIO)
                } else {
                    Ok(())
                },
                Some(all_failures(v@)),
            ),
        },
{
    let mut first: Option<Errno> = None;
    let mut failures: usize = 0;
    let mut i: usize = 0;
    assert(v@.take(0) =~= Seq::<Result<usize, Errno>>::empty());
    while i < v.len()
        invariant
            i <= v@.len(),
            first == first_error(v@.take(i as int)),
            failures == all_failures(v@.take(i as int)),
        decreases v@.len() - i,
    {
        proof {
            assert(v@.take(i + 1).drop_last() =~= v@.take(i as int));
            assert(v@.take(i + 1).last() == v@[i as int]);
        }
        match v[i] {
            Ok(n) => {
                failures = failures.saturating_add(n);
            },
            Err(e) => {
                if first.is_none() {
                    first = Some(e);
                }
            },
        }
        i = i + 1;
    }
    assert(v@.take(v@.len() as int) =~= v@);
    match first {
        Some(e) => (Err(e), None),
        None => (check_failures(failures), Some(failures)),
    }
}

/// The average of times; zero of none.
pub open spec fn mean(v: Seq<u64>) -> nat {
    if v.len() == 0 {
        0
    } else {
        crate::histogram::total(v) / v.len()
    }
}

fn mean_of(v: &Vec<u64>) -> (r: u64)
    ensures
        r == mean(v@),
{
    if v.len() == 0 {
        0
    } else {
        average(v.as_slice())
    }
}

/// What is told of the three: whether each passed, and a line on each that ran to its
/// end.
pub open spec fn pressure_tests(
    exhaust: Result<(), Errno>,
    recovery: Result<(), Errno>,
    concurrent: Result<(), Errno>,
) -> Seq<(&'static str, Result<(), Errno>, bool)> {
    seq![
        ("gradual_exhaust", exhaust, false),
        ("recovery", recovery, false),
        ("pressure_concurrent", concurrent, false),
    ]
}

/// The line on a filled heap, where it was filled.
pub open spec fn exhaust_told(heap: Seq<char>, size: u64, run: Run) -> Seq<Seq<char>> {
    let times = of_channel(run.marks@, 0);
    if run.result is Ok {
        seq![
            exhaust_text(
                heap,
                times.len(),
                (times.len() * size) as nat / 0x10_0000,
                mean(times),
            ),
        ]
    } else {
        Seq::empty()
    }
}

/// The line on a recovery, where there was one.
pub open spec fn recovery_lines(heap: Seq<char>, again: Recovery) -> Seq<Seq<char>> {
    let times = of_channel(again.run.marks@, 1);
    if again.run.result is Ok && again.before > 0 {
        seq![
            recovery_text(
                heap,
                again.before as nat,
                again.released as nat,
                times.len(),
                mean(times),
            ),
        ]
    } else {
        Seq::empty()
    }
}

/// The lines on all three.
pub open spec fn lines_told(
    heap: Seq<char>,
    size: u64,
    run: Run,
    again: Recovery,
    failures: Option<usize>,
) -> Seq<Seq<char>> {
    exhaust_told(heap, size, run) + recovery_lines(heap, again) + match failures {
        Some(n) => seq![
            concurrent_text(heap, WORKERS as nat, ALLOCS_PER_WORKER as nat, n as nat),
        ],
        None => Seq::empty(),
    }
}

/// Whether all three, one after the other, lead from one backend to another with these
/// results and lines.
pub open spec fn pressure_ran<B: Answers>(
    a: B,
    heap: Seq<char>,
    size: u64,
    max_allocs: nat,
    exhaust: Result<(), Errno>,
    recovery: Result<(), Errno>,
    concurrent: Result<(), Errno>,
    lines: Seq<Seq<char>>,
    b: B,
) -> bool {
    exists|run: Run, again: Recovery, failures: Option<usize>, m1: B, m2: B|
        #![trigger timed_on(a, exhausted(size, max_allocs), heap, max_allocs + 1, run, m1), recovery_ran(m1, heap, size, max_allocs, again, m2), concurrent_ran(m2, heap, size, concurrent, failures, b)]
        {
            &&& timed_on(a, exhausted(size, max_allocs), heap, max_allocs + 1, run, m1)
            &&& recovery_ran(m1, heap, size, max_allocs, again, m2)
            &&& concurrent_ran(m2, heap, size, concurrent, failures, b)
            &&& exhaust == run.result
            &&& recovery == again.run.result
            &&& lines == lines_told(heap, size, run, again, failures)
        }
}

/// Whether what is told of all three is what came of them.
pub open spec fn pressure_told<B: Answers>(
    a: B,
    heap: Seq<char>,
    size: u64,
    max_allocs: nat,
    told_of: Seq<SubTestResult>,
    first: Option<String>,
    lines: Seq<Seq<char>>,
    b: B,
) -> bool {
    exists|x: Result<(), Errno>, y: Result<(), Errno>, z: Result<(), Errno>| #[trigger]
        pressure_ran(a, heap, size, max_allocs, x, y, z, lines, b) && {
            let tests = pressure_tests(x, y, z);
            &&& outcomes(told_of) == all_told(tested(tests), results_of(tests))
            &&& maybe_text(first) == first_failure("pressure"@, tested(tests), results_of(tests))
        }
}

/// Tells of what came of the three; the text has a line on each that ran to its end.
pub fn tell(
    heap: &str,
    alloc_size: u64,
    first: &Run,
    second: &Recovery,
    third: Result<(), Errno>,
    failures: Option<usize>,
) -> (r: (Vec<SubTestResult>, Option<String>, Vec<String>))
    ensures
        ({
            let tests = pressure_tests(first.result, second.run.result, third);
            &&& outcomes(r.0@) == all_told(tested(tests), results_of(tests))
            &&& maybe_text(r.1) == first_failure("pressure"@, tested(tests), results_of(tests))
        }),
        strings(r.2@) == lines_told(heap@, alloc_size, *first, *second, failures),
{
    let mut lines: Vec<String> = Vec::new();
    if first.result.is_ok() {
        let times = first.times(0);
        lines.push(exhaust_line(heap, times.len(), alloc_size, mean_of(&times)));
    }
    let ghost one = strings(lines@);
    assert(one =~= exhaust_told(heap@, alloc_size, *first));
    if second.run.result.is_ok() && second.before > 0 {
        let times = second.run.times(1);
        lines.push(
            recovery_line(heap, second.before, second.released, times.len(), mean_of(&times)),
        );
    }
    assert(strings(lines@) =~= one + recovery_lines(heap@, *second));
    if let Some(n) = failures {
        lines.push(concurrent_line(heap, WORKERS, ALLOCS_PER_WORKER, n));
    }
    assert(strings(lines@) =~= lines_told(heap@, alloc_size, *first, *second, failures));
    let tests: [(&'static str, Result<(), Errno>, bool); 3] = [
        ("gradual_exhaust", first.result, false),
        ("recovery", second.run.result, false),
        ("pressure_concurrent", third, false),
    ];
    assert(tests@ =~= pressure_tests(first.result, second.run.result, third));
    let (told_of, failure) = collect_test_results("pressure", &tests);
    (told_of, failure, lines)
}

/// Runs all workloads that use memory up, and tells of each; the text has a line on each
/// that ran to its end.
pub fn run<B: HeapBackend + DmaBufBackend + ContainerBackend>(
    backend: &mut B,
    heap: &str,
    alloc_size: u64,
    max_allocs: usize,
) -> (r: (Vec<SubTestResult>, Option<String>, Vec<String>))
    requires
        old(backend).valid(),
        max_allocs < usize::MAX,
    ensures
        final(backend).valid(),
        final(backend).opened() == old(backend).opened(),
        pressure_told(
            *old(backend),
            heap@,
            alloc_size,
            max_allocs as nat,
            r.0@,
            r.1,
            strings(r.2@),
            *final(backend),
        ),
{
    let ghost a = *backend;
    let first = test_gradual_exhaust(backend, heap, alloc_size, max_allocs);
    let ghost m1 = *backend;
    let second = test_recovery(backend, heap, alloc_size, max_allocs);
    let ghost m2 = *backend;
    let (third, failures) = test_pressure_concurrent(backend, heap, alloc_size);
    let r = tell(heap, alloc_size, &first, &second, third, failures);
    proof {
        assert(timed_on(
            a,
            exhausted(alloc_size, max_allocs as nat),
            heap@,
            max_allocs as nat + 1,
            first,
            m1,
        ));
        assert(recovery_ran(m1, heap@, alloc_size, max_allocs as nat, second, m2));
        assert(concurrent_ran(m2, heap@, alloc_size, third, failures, *backend));
        assert(pressure_ran(
            a,
            heap@,
            alloc_size,
            max_allocs as nat,
            first.result,
            second.run.result,
            third,
            strings(r.2@),
            *backend,
        ));
    }
    r
}

/// The average of times is their sum over their number, without a fraction.
pub proof fn law_mean(v: Seq<u64>)
    requires
        v.len() > 0,
    ensures
        mean(v) * v.len() <= crate::histogram::total(v) < mean(v) * v.len() + v.len(),
{
    let t = crate::histogram::total(v);
    let n = v.len();
    let q = t / n;
    assert(q * n <= t < q * n + n) by (nonlinear_arith)
        requires
            q == t / n,
            n > 0,
    ;
}

proof fn lemma_no_error(v: Seq<Result<usize, Errno>>)
    ensures
        first_error(v) is None <==> forall|i: int| 0 <= i < v.len() ==> (#[trigger] v[i]) is Ok,
        all_failures(v) == 0 <==> forall|i: int|
            0 <= i < v.len() ==> ((#[trigger] v[i]) matches Ok(n) ==> n == 0),
    decreases v.len(),
{
    if v.len() > 0 {
        let w = v.drop_last();
        let last = v.len() - 1;
        lemma_no_error(w);
        assert(v.last() == v[last]);
        if first_error(v) is None {
            assert forall|i: int| 0 <= i < v.len() implies (#[trigger] v[i]) is Ok by {
                if i < last {
                    assert(w[i] == v[i]);
                }
            }
        }
        if forall|i: int| 0 <= i < v.len() ==> (#[trigger] v[i]) is Ok {
            assert forall|i: int| 0 <= i < w.len() implies (#[trigger] w[i]) is Ok by {
                assert(w[i] == v[i]);
            }
            assert(v[last] is Ok);
        }
        if all_failures(v) == 0 {
            assert forall|i: int| 0 <= i < v.len() implies ((#[trigger] v[i]) matches Ok(n) ==> n
                == 0) by {
                if i < last {
                    assert(w[i] == v[i]);
                }
            }
        }
        if forall|i: int| 0 <= i < v.len() ==> ((#[trigger] v[i]) matches Ok(n) ==> n == 0) {
            assert forall|i: int| 0 <= i < w.len() implies ((#[trigger] w[i]) matches Ok(n) ==> n
                == 0) by {
                assert(w[i] == v[i]);
            }
            assert(v[last] matches Ok(n) ==> n == 0);
        }
    }
}

/// Several at once pass just where each of them opened the heap and none had a failure; where
/// one could not open it, the first such error is the result.
pub proof fn law_workers_pass_together(v: Seq<Result<usize, Errno>>)
    ensures
        (first_error(v) is None && all_failures(v) == 0) <==> (forall|i: int|
            0 <= i < v.len() ==> #[trigger] v[i] == Ok::<usize, Errno>(0)),
        first_error(v) matches Some(e) ==> exists|i: int|
            0 <= i < v.len() && #[trigger] v[i] == Err::<usize, Errno>(e),
    decreases v.len(),
{
    lemma_no_error(v);
    if first_error(v) is None && all_failures(v) == 0 {
        assert forall|i: int| 0 <= i < v.len() implies #[trigger] v[i] == Ok::<usize, Errno>(
            0,
        ) by {
            assert(v[i] is Ok);
        }
    }
    if v.len() > 0 && first_error(v) is Some {
        let w = v.drop_last();
        law_workers_pass_together(w);
        if first_error(w) is Some {
            let e = first_error(w)->0;
            let i = choose|i: int| 0 <= i < w.len() && #[trigger] w[i] == Err::<usize, Errno>(e);
            assert(v[i] == w[i]);
        } else {
            assert(v[v.len() - 1] == v.last());
        }
    }
}

} // verus!
