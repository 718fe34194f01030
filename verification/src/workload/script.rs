//! Building blocks of workloads.
use crate::backend::ioctl::{
    Errno, DMA_BUF_SYNC_END, DMA_BUF_SYNC_START, DMA_HEAP_ALLOC_FD_FLAGS,
    DMA_HEAP_VALID_HEAP_FLAGS, SEEK_END,
};
use crate::backend::protocol::{Answers, ContainerBackend, DmaBufBackend, HeapBackend, Pattern};
use crate::order::strs;
use crate::workload::run::{run_script, Run};
use crate::workload::step::{may, must, ran, Mark, Op, Step, Want};
use vstd::prelude::*;

verus! {

/// Opens the heap at hand into the first place.
#[verifier::allow_in_spec]
pub fn open_heap() -> (r: Step)
    returns
        must(Op::Open { to: 0, name: 0 }),
{
    must(Op::Open { to: 0, name: 0 })
}

/// The allocation of a buffer from the heap at hand.
#[verifier::allow_in_spec]
pub fn allocation(to: usize, size: u64) -> (r: Op)
    returns
        (Op::Allocate {
            to,
            heap: 0,
            len: size,
            fd_flags: DMA_HEAP_ALLOC_FD_FLAGS,
            heap_flags: DMA_HEAP_VALID_HEAP_FLAGS,
            shown: size as usize,
        }),
{
    Op::Allocate {
        to,
        heap: 0,
        len: size,
        fd_flags: DMA_HEAP_ALLOC_FD_FLAGS,
        heap_flags: DMA_HEAP_VALID_HEAP_FLAGS,
        shown: size as usize,
    }
}

/// Allocates a buffer from the heap at hand.
#[verifier::allow_in_spec]
pub fn allocate(to: usize, size: u64) -> (r: Step)
    returns
        must(allocation(to, size)),
{
    must(allocation(to, size))
}

/// Maps a buffer.
#[verifier::allow_in_spec]
pub fn map_buffer(buf: usize) -> (r: Step)
    returns
        must(Op::Mmap { buf }),
{
    must(Op::Mmap { buf })
}

/// Starts an access.
#[verifier::allow_in_spec]
pub fn begin(buf: usize, flags: u64) -> (r: Step)
    returns
        must(Op::Sync { buf, flags: DMA_BUF_SYNC_START | flags }),
{
    must(Op::Sync { buf, flags: DMA_BUF_SYNC_START | flags })
}

/// Ends an access.
#[verifier::allow_in_spec]
pub fn finish(buf: usize, flags: u64) -> (r: Step)
    returns
        must(Op::Sync { buf, flags: DMA_BUF_SYNC_END | flags }),
{
    must(Op::Sync { buf, flags: DMA_BUF_SYNC_END | flags })
}

/// Writes the same byte all over a buffer.
#[verifier::allow_in_spec]
pub fn fill(buf: usize, size: u64, byte: u8) -> (r: Step)
    returns
        must(Op::Fill { buf, at: 0, len: size as usize, pattern: Pattern::Same(byte) }),
{
    must(Op::Fill { buf, at: 0, len: size as usize, pattern: Pattern::Same(byte) })
}

/// Checks that a buffer holds the same byte all over.
#[verifier::allow_in_spec]
pub fn check(buf: usize, size: u64, byte: u8) -> (r: Step)
    returns
        must(Op::Holds { buf, at: 0, len: size as usize, pattern: Pattern::Same(byte) }),
{
    must(Op::Holds { buf, at: 0, len: size as usize, pattern: Pattern::Same(byte) })
}

/// Asks for the size of a buffer.
#[verifier::allow_in_spec]
pub fn size_of(buf: usize, want: Want) -> (r: Step)
    returns
        must(Op::Seek { buf, offset: 0, whence: SEEK_END, want }),
{
    must(Op::Seek { buf, offset: 0, whence: SEEK_END, want })
}

/// Ends the mapping of a buffer.
#[verifier::allow_in_spec]
pub fn unmap(buf: usize) -> (r: Step)
    returns
        may(Op::Munmap { buf }),
{
    may(Op::Munmap { buf })
}

/// Closes what is in a place, where anything is.
#[verifier::allow_in_spec]
pub fn shut(slot: usize) -> (r: Step)
    returns
        may(Op::Close { slot }),
{
    may(Op::Close { slot })
}

/// Steps over and over.
pub open spec fn repeated(body: Seq<Step>, n: nat) -> Seq<Step>
    decreases n,
{
    if n == 0 {
        Seq::empty()
    } else {
        repeated(body, (n - 1) as nat) + body
    }
}

/// Appends steps.
pub fn push_all(v: &mut Vec<Step>, steps: &[Step])
    ensures
        final(v)@ == old(v)@ + steps@,
{
    let ghost start = v@;
    let mut i: usize = 0;
    assert(start + steps@.take(0) =~= start);
    while i < steps.len()
        invariant
            i <= steps@.len(),
            v@ == start + steps@.take(i as int),
        decreases steps@.len() - i,
    {
        v.push(steps[i]);
        i = i + 1;
        assert(v@ =~= start + steps@.take(i as int));
    }
    assert(steps@.take(steps@.len() as int) =~= steps@);
}

/// Appends steps over and over.
pub fn push_repeated(v: &mut Vec<Step>, steps: &[Step], n: u32)
    ensures
        final(v)@ == old(v)@ + repeated(steps@, n as nat),
{
    let ghost start = v@;
    let mut i: u32 = 0;
    assert(start + Seq::<Step>::empty() =~= start);
    while i < n
        invariant
            i <= n,
            v@ == start + repeated(steps@, i as nat),
        decreases n - i,
    {
        push_all(v, steps);
        i = i + 1;
        assert((start + repeated(steps@, (i - 1) as nat)) + steps@ =~= start + (repeated(
            steps@,
            (i - 1) as nat,
        ) + steps@));
    }
}

/// Whether a workload on one heap, followed by the cleanup, leads from one backend to
/// another with a result.
pub open spec fn done_on<B: Answers>(
    a: B,
    steps: Seq<Step>,
    heap: Seq<char>,
    slots: nat,
    result: Result<(), Errno>,
    b: B,
) -> bool {
    exists|marks: Seq<Mark>| #[trigger]
        ran(a, steps, seq![heap], slots, result, marks, b)
}

/// Runs a workload on one heap.
pub fn run_on<B: HeapBackend + DmaBufBackend + ContainerBackend>(
    backend: &mut B,
    steps: &[Step],
    heap: &str,
    slots: usize,
) -> (r: Result<(), Errno>)
    requires
        old(backend).valid(),
    ensures
        final(backend).valid(),
        done_on(*old(backend), steps@, heap@, slots as nat, r, *final(backend)),
        final(backend).opened() == old(backend).opened(),
{
    let names: [&str; 1] = [heap];
    assert(strs(names@) =~= seq![heap@]);
    let run: Run = run_script(backend, steps, &names, slots);
    run.result
}

/// Runs a workload on one heap, and gives the times that it noted.
pub fn run_timed<B: HeapBackend + DmaBufBackend + ContainerBackend>(
    backend: &mut B,
    steps: &[Step],
    heap: &str,
    slots: usize,
) -> (r: Run)
    requires
        old(backend).valid(),
    ensures
        final(backend).valid(),
        timed_on(*old(backend), steps@, heap@, slots as nat, r, *final(backend)),
        final(backend).opened() == old(backend).opened(),
{
    let names: [&str; 1] = [heap];
    assert(strs(names@) =~= seq![heap@]);
    run_script(backend, steps, &names, slots)
}

/// Whether a workload on one heap, followed by the cleanup, leads from one backend to
/// another, with a result and times.
pub open spec fn timed_on<B: Answers>(
    a: B,
    steps: Seq<Step>,
    heap: Seq<char>,
    slots: nat,
    r: Run,
    b: B,
) -> bool {
    ran(a, steps, seq![heap], slots, r.result, r.marks@, b)
}

/// Buffers of one size in consecutive places.
pub open spec fn bulk(first: int, count: nat, size: u64) -> Seq<Step> {
    Seq::new(count, |i: int| allocate((first + i) as usize, size))
}

/// Appends the allocation of buffers of one size in consecutive places.
pub fn push_bulk(v: &mut Vec<Step>, first: usize, count: usize, size: u64)
    requires
        first + count <= usize::MAX,
    ensures
        final(v)@ == old(v)@ + bulk(first as int, count as nat, size),
{
    let ghost start = v@;
    let mut i: usize = 0;
    assert(start + bulk(first as int, 0, size) =~= start);
    while i < count
        invariant
            i <= count,
            first + count <= usize::MAX,
            v@ == start + bulk(first as int, i as nat, size),
        decreases count - i,
    {
        v.push(allocate(first + i, size));
        i = i + 1;
        assert(v@ =~= start + bulk(first as int, i as nat, size));
    }
}

/// The allocation of a buffer, timed.
pub open spec fn timed_allocation(to: usize, size: u64, channel: usize) -> Seq<Step> {
    seq![must(Op::Start), allocate(to, size), must(Op::Split { channel })]
}

/// Ends the mapping of a buffer and closes it.
pub open spec fn dropped(i: usize) -> Seq<Step> {
    seq![unmap(i), shut(i)]
}

/// Consecutive places are released, the first one first.
pub open spec fn releases(first: int, count: nat) -> Seq<Step>
    decreases count,
{
    if count == 0 {
        Seq::empty()
    } else {
        releases(first, (count - 1) as nat) + dropped((first + count - 1) as usize)
    }
}

/// Appends the release of consecutive places.
pub fn push_releases(v: &mut Vec<Step>, first: usize, count: usize)
    requires
        first + count <= usize::MAX,
    ensures
        final(v)@ == old(v)@ + releases(first as int, count as nat),
{
    let ghost start = v@;
    let mut i: usize = 0;
    assert(start + Seq::<Step>::empty() =~= start);
    while i < count
        invariant
            i <= count,
            first + count <= usize::MAX,
            v@ == start + releases(first as int, i as nat),
        decreases count - i,
    {
        let ghost before = releases(first as int, i as nat);
        v.push(unmap(first + i));
        v.push(shut(first + i));
        assert(v@ =~= start + (before + dropped((first + i) as usize)));
        i = i + 1;
    }
}

/// Appends the release of one place.
pub fn push_dropped(v: &mut Vec<Step>, i: usize)
    ensures
        final(v)@ == old(v)@ + dropped(i),
{
    let ghost start = v@;
    v.push(unmap(i));
    v.push(shut(i));
    assert(v@ =~= start + dropped(i));
}

} // verus!
