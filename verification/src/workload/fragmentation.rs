//! Workloads that break free memory into pieces.
use crate::backend::ioctl::{Errno, DMA_BUF_SYNC_WRITE};
use crate::backend::protocol::{Ask, ContainerBackend, DmaBufBackend, HeapBackend, Moment};
use crate::bench::pressure::SubTestResult;
use crate::order::strs;
use crate::text::same_string;
use crate::workload::script::{
    allocate, begin, bulk, done_on, dropped, fill, finish, map_buffer, open_heap, push_all,
    push_bulk, push_dropped, push_releases, releases, run_on,
};
use crate::workload::step::{asking, Step};
use crate::workload::suite::{plans, planned, run_suite, suite_told, Plan, Planned};
use crate::workload::times::{allocations, lemma_allocations_sum};
use vstd::prelude::*;

verus! {

/// How many buffers are mixed.
pub const INTERLEAVE_COUNT: usize = 100;

/// The sizes of mixed buffers.
pub const MIXED_SIZES: [u64; 3] = [4096, 65536, 1_048_576];

/// The size of buffers that take the places of released ones.
pub const REFILL_SIZE: u64 = 32768;

/// The size of the buffers of a cycle.
pub const CYCLE_SIZE: u64 = 1_048_576;

/// The size of a mixed buffer.
pub open spec fn mixed_size(i: int) -> u64 {
    if i % 3 == 0 {
        4096
    } else if i % 3 == 1 {
        65536
    } else {
        1_048_576
    }
}

/// Buffers come, and go together; the free blocks are looked at before and after.
pub open spec fn buddy_cycle() -> Seq<Step> {
    seq![open_heap(), asking(Ask::Buddyinfo(Moment::Before))] + bulk(1, 100, CYCLE_SIZE) + releases(
        1,
        100,
    ) + seq![asking(Ask::Buddyinfo(Moment::After))]
}

fn buddy_cycle_steps() -> (v: Vec<Step>)
    ensures
        v@ == buddy_cycle(),
{
    let mut v: Vec<Step> = vec![open_heap(), asking(Ask::Buddyinfo(Moment::Before))];
    assert(v@ =~= seq![open_heap(), asking(Ask::Buddyinfo(Moment::Before))]);
    push_bulk(&mut v, 1, 100, CYCLE_SIZE);
    push_releases(&mut v, 1, 100);
    let ghost before = v@;
    v.push(asking(Ask::Buddyinfo(Moment::After)));
    assert(v@ =~= before + seq![asking(Ask::Buddyinfo(Moment::After))]);
    v
}

/// Buffers come, and go together; the free blocks by type are looked at before, while they
/// are there, and after.
pub open spec fn page_type_cycle() -> Seq<Step> {
    seq![open_heap(), asking(Ask::PageTypes(Moment::Before))] + bulk(1, 50, CYCLE_SIZE) + seq![
        asking(Ask::PageTypes(Moment::During)),
    ] + releases(1, 50) + seq![asking(Ask::PageTypes(Moment::After))]
}

fn page_type_cycle_steps() -> (v: Vec<Step>)
    ensures
        v@ == page_type_cycle(),
{
    let mut v: Vec<Step> = vec![open_heap(), asking(Ask::PageTypes(Moment::Before))];
    assert(v@ =~= seq![open_heap(), asking(Ask::PageTypes(Moment::Before))]);
    push_bulk(&mut v, 1, 50, CYCLE_SIZE);
    let ghost held = v@;
    v.push(asking(Ask::PageTypes(Moment::During)));
    assert(v@ =~= held + seq![asking(Ask::PageTypes(Moment::During))]);
    push_releases(&mut v, 1, 50);
    let ghost before = v@;
    v.push(asking(Ask::PageTypes(Moment::After)));
    assert(v@ =~= before + seq![asking(Ask::PageTypes(Moment::After))]);
    v
}

/// A hundred buffers come and go together; the free blocks are looked at before and after.
pub fn test_buddyinfo_track<B: HeapBackend + DmaBufBackend + ContainerBackend>(
    backend: &mut B,
    heap: &str,
) -> (r: Result<(), Errno>)
    requires
        old(backend).valid(),
    ensures
        final(backend).valid(),
        done_on(*old(backend), buddy_cycle(), heap@, 101, r, *final(backend)),
        final(backend).opened() == old(backend).opened(),
{
    run_on(backend, buddy_cycle_steps().as_slice(), heap, 101)
}

/// Fifty buffers come and go together; the free blocks by type are looked at before,
/// meanwhile and after.
pub fn test_pagetypeinfo_track<B: HeapBackend + DmaBufBackend + ContainerBackend>(
    backend: &mut B,
    heap: &str,
) -> (r: Result<(), Errno>)
    requires
        old(backend).valid(),
    ensures
        final(backend).valid(),
        done_on(*old(backend), page_type_cycle(), heap@, 51, r, *final(backend)),
        final(backend).opened() == old(backend).opened(),
{
    run_on(backend, page_type_cycle_steps().as_slice(), heap, 51)
}

/// A buffer that is written to.
pub open spec fn touched(i: usize, size: u64) -> Seq<Step> {
    seq![
        allocate(i, size),
        map_buffer(i),
        begin(i, DMA_BUF_SYNC_WRITE),
        fill(i, size, 0xaa),
        finish(i, DMA_BUF_SYNC_WRITE),
    ]
}

/// The first phase: buffers of mixed sizes, all of them written to.
pub open spec fn mixed(n: nat) -> Seq<Step>
    decreases n,
{
    if n == 0 {
        Seq::empty()
    } else {
        mixed((n - 1) as nat) + touched(n as usize, mixed_size(n - 1))
    }
}

/// Whether the second phase releases a buffer: the first half of them, or every other.
pub open spec fn is_released(sequential: bool, i: int) -> bool {
    if sequential {
        i < 50
    } else {
        i % 2 == 0
    }
}

/// The second phase: some of the buffers are released.
pub open spec fn half_released(sequential: bool, n: nat) -> Seq<Step>
    decreases n,
{
    if n == 0 {
        Seq::empty()
    } else {
        half_released(sequential, (n - 1) as nat) + if is_released(sequential, n - 1) {
            dropped(n as usize)
        } else {
            Seq::empty()
        }
    }
}

/// The third phase: others take their places.
pub open spec fn refilled(sequential: bool, n: nat) -> Seq<Step>
    decreases n,
{
    if n == 0 {
        Seq::empty()
    } else {
        refilled(sequential, (n - 1) as nat) + if is_released(sequential, n - 1) {
            seq![allocate(n as usize, REFILL_SIZE)]
        } else {
            Seq::empty()
        }
    }
}

/// A look at the free blocks.
pub open spec fn look(m: Moment) -> Seq<Step> {
    seq![asking(Ask::Buddyinfo(m))]
}

fn push_look(v: &mut Vec<Step>, m: Moment)
    ensures
        final(v)@ == old(v)@ + look(m),
{
    let ghost before = v@;
    v.push(asking(Ask::Buddyinfo(m)));
    assert(v@ =~= before + look(m));
}

/// All four phases: buffers of mixed sizes come, some go, others take their places, and
/// all go. The free blocks are looked at after each.
pub open spec fn interleaved(sequential: bool) -> Seq<Step> {
    seq![open_heap()] + mixed(100) + look(Moment::Phase1) + half_released(sequential, 100) + look(
        Moment::Phase2,
    ) + refilled(sequential, 100) + look(Moment::Phase3) + releases(1, 100) + look(Moment::Phase4)
}

/// The steps of the first phase.
pub fn mixed_steps() -> (v: Vec<Step>)
    ensures
        v@ == mixed(100),
{
    let mut v: Vec<Step> = Vec::new();
    let mut i: usize = 0;
    while i < INTERLEAVE_COUNT
        invariant
            i <= 100,
            v@ == mixed(i as nat),
        decreases 100 - i,
    {
        let size: u64 = MIXED_SIZES[i % 3];
        assert(size == mixed_size(i as int));
        let steps: Vec<Step> = vec![
            allocate(i + 1, size),
            map_buffer(i + 1),
            begin(i + 1, DMA_BUF_SYNC_WRITE),
            fill(i + 1, size, 0xaa),
            finish(i + 1, DMA_BUF_SYNC_WRITE),
        ];
        assert(steps@ =~= touched((i + 1) as usize, size));
        push_all(&mut v, steps.as_slice());
        i = i + 1;
    }
    v
}

fn releases_at(sequential: bool, i: usize) -> (r: bool)
    ensures
        r == is_released(sequential, i as int),
{
    if sequential {
        i < INTERLEAVE_COUNT / 2
    } else {
        i % 2 == 0
    }
}

/// The steps of the second phase.
pub fn half_released_steps(sequential: bool) -> (v: Vec<Step>)
    ensures
        v@ == half_released(sequential, 100),
{
    let mut v: Vec<Step> = Vec::new();
    let mut i: usize = 0;
    while i < INTERLEAVE_COUNT
        invariant
            i <= 100,
            v@ == half_released(sequential, i as nat),
        decreases 100 - i,
    {
        let ghost before = v@;
        if releases_at(sequential, i) {
            push_dropped(&mut v, i + 1);
        } else {
            assert(before + Seq::<Step>::empty() =~= before);
        }
        i = i + 1;
    }
    v
}

/// The steps of the third phase.
pub fn refilled_steps(sequential: bool) -> (v: Vec<Step>)
    ensures
        v@ == refilled(sequential, 100),
{
    let mut v: Vec<Step> = Vec::new();
    let mut i: usize = 0;
    while i < INTERLEAVE_COUNT
        invariant
            i <= 100,
            v@ == refilled(sequential, i as nat),
        decreases 100 - i,
    {
        let ghost before = v@;
        if releases_at(sequential, i) {
            v.push(allocate(i + 1, REFILL_SIZE));
            assert(v@ =~= before + seq![allocate((i + 1) as usize, REFILL_SIZE)]);
        } else {
            assert(before + Seq::<Step>::empty() =~= before);
        }
        i = i + 1;
    }
    v
}

fn interleaved_steps(sequential: bool) -> (v: Vec<Step>)
    ensures
        v@ == interleaved(sequential),
{
    let mut v: Vec<Step> = vec![open_heap()];
    push_all(&mut v, mixed_steps().as_slice());
    push_look(&mut v, Moment::Phase1);
    push_all(&mut v, half_released_steps(sequential).as_slice());
    push_look(&mut v, Moment::Phase2);
    push_all(&mut v, refilled_steps(sequential).as_slice());
    push_look(&mut v, Moment::Phase3);
    push_releases(&mut v, 1, 100);
    push_look(&mut v, Moment::Phase4);
    v
}

/// Buffers of mixed sizes come, some go, others take their places, and all go. The
/// pattern `sequential` releases the first half, any other every second buffer.
pub fn test_interleave_pattern<B: HeapBackend + DmaBufBackend + ContainerBackend>(
    backend: &mut B,
    heap: &str,
    pattern: &str,
) -> (r: Result<(), Errno>)
    requires
        old(backend).valid(),
    ensures
        final(backend).valid(),
        done_on(
            *old(backend),
            interleaved(pattern@ == "sequential"@),
            heap@,
            101,
            r,
            *final(backend),
        ),
        final(backend).opened() == old(backend).opened(),
{
    let sequential: bool = same_string(pattern, "sequential");
    run_on(backend, interleaved_steps(sequential).as_slice(), heap, 101)
}

/// All workloads that break free memory into pieces.
pub open spec fn fragmentation_plan(sequential: bool) -> Seq<Plan> {
    seq![
        Plan { name: "buddyinfo_track"@, steps: buddy_cycle(), slots: 101, skip: false },
        Plan { name: "interleave_pattern"@, steps: interleaved(sequential), slots: 101, skip: false },
        Plan { name: "pagetypeinfo_track"@, steps: page_type_cycle(), slots: 51, skip: false },
    ]
}

fn fragmentation_plan_list(sequential: bool) -> (r: Vec<Planned>)
    ensures
        plans(r@) == fragmentation_plan(sequential),
{
    let mut v: Vec<Planned> = Vec::new();
    v.push(planned("buddyinfo_track", buddy_cycle_steps(), 101, false));
    v.push(planned("interleave_pattern", interleaved_steps(sequential), 101, false));
    v.push(planned("pagetypeinfo_track", page_type_cycle_steps(), 51, false));
    assert(plans(v@) =~= fragmentation_plan(sequential));
    v
}

/// Runs all workloads that break free memory into pieces.
pub fn run<B: HeapBackend + DmaBufBackend + ContainerBackend>(
    backend: &mut B,
    heap: &str,
    pattern: &str,
) -> (r: (Vec<SubTestResult>, Option<String>))
    requires
        old(backend).valid(),
    ensures
        final(backend).valid(),
        final(backend).opened() == old(backend).opened(),
        suite_told(
            *old(backend),
            "fragmentation"@,
            fragmentation_plan(pattern@ == "sequential"@),
            seq![heap@],
            r.0@,
            r.1,
            *final(backend),
        ),
{
    let sequential: bool = same_string(pattern, "sequential");
    let names: [&str; 1] = [heap];
    assert(strs(names@) =~= seq![heap@]);
    run_suite(backend, "fragmentation", &names, &fragmentation_plan_list(sequential))
}

/// How many of the first buffers are released.
pub open spec fn released_number(sequential: bool, n: nat) -> nat
    decreases n,
{
    if n == 0 {
        0
    } else {
        released_number(sequential, (n - 1) as nat) + if is_released(sequential, n - 1) {
            1nat
        } else {
            0nat
        }
    }
}

proof fn lemma_released_number(sequential: bool, n: nat)
    ensures
        sequential ==> released_number(sequential, n) == if n < 50 {
            n
        } else {
            50
        },
        !sequential ==> released_number(sequential, n) == (n + 1) / 2,
    decreases n,
{
    if n > 0 {
        lemma_released_number(sequential, (n - 1) as nat);
    }
}

/// Half of the hundred buffers are released: the first fifty, or every other one, so that no
/// two neighbours are both released or both kept.
pub proof fn law_half_is_released(sequential: bool, i: int)
    requires
        0 <= i < 99,
    ensures
        released_number(sequential, 100) == 50,
        sequential ==> (is_released(true, i) <==> i < 50),
        !sequential ==> is_released(false, i) != is_released(false, i + 1),
        is_released(sequential, 0),
{
    lemma_released_number(sequential, 100);
}

/// Each released buffer is replaced by one of 32 KiB: as many come again as went.
pub proof fn law_released_are_replaced(sequential: bool, n: nat)
    ensures
        allocations(refilled(sequential, n), REFILL_SIZE) == released_number(sequential, n),
        allocations(half_released(sequential, n), REFILL_SIZE) == 0,
    decreases n,
{
    if n > 0 {
        let m = (n - 1) as nat;
        law_released_are_replaced(sequential, m);
        let one = seq![allocate(n as usize, REFILL_SIZE)];
        let gone = dropped(n as usize);
        assert(one.drop_last() =~= Seq::<Step>::empty());
        assert(allocations(one.drop_last(), REFILL_SIZE) == 0);
        assert(gone.drop_last().drop_last() =~= Seq::<Step>::empty());
        assert(allocations(gone.drop_last().drop_last(), REFILL_SIZE) == 0);
        assert(allocations(gone.drop_last(), REFILL_SIZE) == 0);
        if is_released(sequential, n - 1) {
            lemma_allocations_sum(refilled(sequential, m), one, REFILL_SIZE);
            lemma_allocations_sum(half_released(sequential, m), gone, REFILL_SIZE);
        } else {
            lemma_allocations_sum(
                refilled(sequential, m),
                Seq::<Step>::empty(),
                REFILL_SIZE,
            );
            lemma_allocations_sum(
                half_released(sequential, m),
                Seq::<Step>::empty(),
                REFILL_SIZE,
            );
        }
    }
}

} // verus!
