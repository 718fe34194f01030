//! Tests of refusals: what must fail, and how.
use crate::backend::ioctl::{Errno, DMA_BUF_SYNC_READ, DMA_BUF_SYNC_START, DMA_HEAP_ALLOC_FD_FLAGS, DMA_HEAP_VALID_HEAP_FLAGS, SEEK_CUR, SEEK_END, SEEK_SET};
use crate::backend::protocol::{Answers, ContainerBackend, DmaBufBackend, HeapBackend};
use crate::bench::pressure::{outcomes, SubTestResult};
use crate::order::strs;

use crate::workload::run::run_script;
use crate::workload::script::{allocate, allocation, done_on, open_heap, push_repeated, repeated, run_on, shut, unmap};
use crate::workload::step::{expecting, must, ran, Expect, Mark, Op, Step, Want};
use crate::workload::suite::{
    all_told, first_failure, lemma_as_many, maybe_text, planned, plans, run_suite, suite_ran,
    suite_told, tell_more, Plan, Planned,
};
use vstd::prelude::*;

verus! {

/// The size of the buffers.
pub const NEG_ALLOC_SIZE: u64 = 4096;

/// A flag of descriptors that allocations refuse.
pub const O_APPEND: u32 = 0x400;

/// A descriptor that is never open.
pub const NO_SUCH_FD: i32 = 9999;

/// How often a buffer comes and goes.
pub const RAPID_CYCLES: u32 = 1000;

/// The heap at hand, and the one without a name.
pub open spec fn two_names(heap: Seq<char>) -> Seq<Seq<char>> {
    seq![heap, ""@]
}

/// A heap without a name is not found. Whatever the heap at hand is, the one without a
/// name is the second.
pub open spec fn open_nonexistent() -> Seq<Step> {
    seq![
        expecting(Op::Open { to: 0, name: 1 }, Expect::Fails(Errno::ENOENT)),
    ]
}

fn open_nonexistent_steps() -> (r: Vec<Step>)
    ensures
        r@ == open_nonexistent(),
{
    let v: Vec<Step> = vec![
        expecting(Op::Open { to: 0, name: 1 }, Expect::Fails(Errno::ENOENT)),
    ];
    assert(v@ =~= open_nonexistent());
    v
}

/// A heap without a name is not found.
pub fn neg_open_nonexistent<B: HeapBackend + DmaBufBackend + ContainerBackend>(
    backend: &mut B,
) -> (r: Result<(), Errno>)
    requires
        old(backend).valid(),
    ensures
        final(backend).valid(),
        exists|marks: Seq<Mark>| #[trigger]
            ran(
                *old(backend),
                open_nonexistent(),
                two_names(""@),
                1,
                r,
                marks,
                *final(backend),
            ),
        final(backend).opened() == old(backend).opened(),
{
    let names: [&str; 2] = ["", ""];
    assert(strs(names@) =~= two_names(""@));
    let run = run_script(backend, open_nonexistent_steps().as_slice(), &names, 1);
    run.result
}

/// A buffer of no bytes is refused.
pub open spec fn alloc_zero_size() -> Seq<Step> {
    seq![
        open_heap(),
        expecting(allocation(1, 0), Expect::Fails(Errno::EINVAL)),
    ]
}

fn alloc_zero_size_steps() -> (r: Vec<Step>)
    ensures
        r@ == alloc_zero_size(),
{
    let v: Vec<Step> = vec![
        open_heap(),
        expecting(allocation(1, 0), Expect::Fails(Errno::EINVAL)),
    ];
    assert(v@ =~= alloc_zero_size());
    v
}

/// A buffer of no bytes is refused.
pub fn neg_alloc_zero_size<B: HeapBackend + DmaBufBackend + ContainerBackend>(
    backend: &mut B,
    heap: &str,
) -> (r: Result<(), Errno>)
    requires
        old(backend).valid(),
    ensures
        final(backend).valid(),
        done_on(*old(backend), alloc_zero_size(), heap@, 2, r, *final(backend)),
        final(backend).opened() == old(backend).opened(),
{
    run_on(backend, alloc_zero_size_steps().as_slice(), heap, 2)
}

/// A buffer of all the bytes there can be is refused, or there is no memory for it.
pub open spec fn alloc_overflow_size() -> Seq<Step> {
    seq![
        open_heap(),
        expecting(allocation(1, u64::MAX), Expect::FailsEither(Errno::EINVAL, Errno::ENOMEM)),
    ]
}

fn alloc_overflow_size_steps() -> (r: Vec<Step>)
    ensures
        r@ == alloc_overflow_size(),
{
    let v: Vec<Step> = vec![
        open_heap(),
        expecting(allocation(1, u64::MAX), Expect::FailsEither(Errno::EINVAL, Errno::ENOMEM)),
    ];
    assert(v@ =~= alloc_overflow_size());
    v
}

/// A buffer of all the bytes there can be is refused, or there is no memory for it.
pub fn neg_alloc_overflow_size<B: HeapBackend + DmaBufBackend + ContainerBackend>(
    backend: &mut B,
    heap: &str,
) -> (r: Result<(), Errno>)
    requires
        old(backend).valid(),
    ensures
        final(backend).valid(),
        done_on(*old(backend), alloc_overflow_size(), heap@, 2, r, *final(backend)),
        final(backend).opened() == old(backend).opened(),
{
    run_on(backend, alloc_overflow_size_steps().as_slice(), heap, 2)
}

/// Flags that a descriptor cannot have are refused.
pub open spec fn alloc_invalid_fd_flags() -> Seq<Step> {
    seq![
        open_heap(),
        expecting(Op::Allocate { to: 1, heap: 0, len: NEG_ALLOC_SIZE, fd_flags: O_APPEND, heap_flags: DMA_HEAP_VALID_HEAP_FLAGS, shown: NEG_ALLOC_SIZE as usize }, Expect::Fails(Errno::EINVAL)),
    ]
}

fn alloc_invalid_fd_flags_steps() -> (r: Vec<Step>)
    ensures
        r@ == alloc_invalid_fd_flags(),
{
    let v: Vec<Step> = vec![
        open_heap(),
        expecting(Op::Allocate { to: 1, heap: 0, len: NEG_ALLOC_SIZE, fd_flags: O_APPEND, heap_flags: DMA_HEAP_VALID_HEAP_FLAGS, shown: NEG_ALLOC_SIZE as usize }, Expect::Fails(Errno::EINVAL)),
    ];
    assert(v@ =~= alloc_invalid_fd_flags());
    v
}

/// Flags that a descriptor cannot have are refused.
pub fn neg_alloc_invalid_fd_flags<B: HeapBackend + DmaBufBackend + ContainerBackend>(
    backend: &mut B,
    heap: &str,
) -> (r: Result<(), Errno>)
    requires
        old(backend).valid(),
    ensures
        final(backend).valid(),
        done_on(*old(backend), alloc_invalid_fd_flags(), heap@, 2, r, *final(backend)),
        final(backend).opened() == old(backend).opened(),
{
    run_on(backend, alloc_invalid_fd_flags_steps().as_slice(), heap, 2)
}

/// Flags of the heap are refused.
pub open spec fn alloc_invalid_heap_flags() -> Seq<Step> {
    seq![
        open_heap(),
        expecting(Op::Allocate { to: 1, heap: 0, len: NEG_ALLOC_SIZE, fd_flags: DMA_HEAP_ALLOC_FD_FLAGS, heap_flags: 1, shown: NEG_ALLOC_SIZE as usize }, Expect::Fails(Errno::EINVAL)),
    ]
}

fn alloc_invalid_heap_flags_steps() -> (r: Vec<Step>)
    ensures
        r@ == alloc_invalid_heap_flags(),
{
    let v: Vec<Step> = vec![
        open_heap(),
        expecting(Op::Allocate { to: 1, heap: 0, len: NEG_ALLOC_SIZE, fd_flags: DMA_HEAP_ALLOC_FD_FLAGS, heap_flags: 1, shown: NEG_ALLOC_SIZE as usize }, Expect::Fails(Errno::EINVAL)),
    ];
    assert(v@ =~= alloc_invalid_heap_flags());
    v
}

/// Flags of the heap are refused.
pub fn neg_alloc_invalid_heap_flags<B: HeapBackend + DmaBufBackend + ContainerBackend>(
    backend: &mut B,
    heap: &str,
) -> (r: Result<(), Errno>)
    requires
        old(backend).valid(),
    ensures
        final(backend).valid(),
        done_on(*old(backend), alloc_invalid_heap_flags(), heap@, 2, r, *final(backend)),
        final(backend).opened() == old(backend).opened(),
{
    run_on(backend, alloc_invalid_heap_flags_steps().as_slice(), heap, 2)
}

/// A closed heap gives no buffer.
pub open spec fn alloc_on_closed_heap() -> Seq<Step> {
    seq![
        open_heap(),
        shut(0),
        expecting(allocation(1, NEG_ALLOC_SIZE), Expect::Fails(Errno::EBADF)),
    ]
}

fn alloc_on_closed_heap_steps() -> (r: Vec<Step>)
    ensures
        r@ == alloc_on_closed_heap(),
{
    let v: Vec<Step> = vec![
        open_heap(),
        shut(0),
        expecting(allocation(1, NEG_ALLOC_SIZE), Expect::Fails(Errno::EBADF)),
    ];
    assert(v@ =~= alloc_on_closed_heap());
    v
}

/// A closed heap gives no buffer.
pub fn neg_alloc_on_closed_heap<B: HeapBackend + DmaBufBackend + ContainerBackend>(
    backend: &mut B,
    heap: &str,
) -> (r: Result<(), Errno>)
    requires
        old(backend).valid(),
    ensures
        final(backend).valid(),
        done_on(*old(backend), alloc_on_closed_heap(), heap@, 2, r, *final(backend)),
        final(backend).opened() == old(backend).opened(),
{
    run_on(backend, alloc_on_closed_heap_steps().as_slice(), heap, 2)
}

/// An access without a direction, or with other flags, is refused.
pub open spec fn sync_invalid_flags() -> Seq<Step> {
    seq![
        open_heap(),
        allocate(1, NEG_ALLOC_SIZE),
        expecting(Op::Sync { buf: 1, flags: DMA_BUF_SYNC_START | 0 }, Expect::Fails(Errno::EINVAL)),
        expecting(Op::Sync { buf: 1, flags: DMA_BUF_SYNC_START | (0x8 | DMA_BUF_SYNC_READ) }, Expect::Fails(Errno::EINVAL)),
    ]
}

fn sync_invalid_flags_steps() -> (r: Vec<Step>)
    ensures
        r@ == sync_invalid_flags(),
{
    let v: Vec<Step> = vec![
        open_heap(),
        allocate(1, NEG_ALLOC_SIZE),
        expecting(Op::Sync { buf: 1, flags: DMA_BUF_SYNC_START | 0 }, Expect::Fails(Errno::EINVAL)),
        expecting(Op::Sync { buf: 1, flags: DMA_BUF_SYNC_START | (0x8 | DMA_BUF_SYNC_READ) }, Expect::Fails(Errno::EINVAL)),
    ];
    assert(v@ =~= sync_invalid_flags());
    v
}

/// An access without a direction, or with other flags, is refused.
pub fn neg_sync_invalid_flags<B: HeapBackend + DmaBufBackend + ContainerBackend>(
    backend: &mut B,
    heap: &str,
) -> (r: Result<(), Errno>)
    requires
        old(backend).valid(),
    ensures
        final(backend).valid(),
        done_on(*old(backend), sync_invalid_flags(), heap@, 2, r, *final(backend)),
        final(backend).opened() == old(backend).opened(),
{
    run_on(backend, sync_invalid_flags_steps().as_slice(), heap, 2)
}

/// A closed buffer cannot be accessed.
pub open spec fn sync_on_closed_fd() -> Seq<Step> {
    seq![
        open_heap(),
        allocate(1, NEG_ALLOC_SIZE),
        unmap(1),
        shut(1),
        expecting(Op::Sync { buf: 1, flags: DMA_BUF_SYNC_READ }, Expect::Fails(Errno::EBADF)),
    ]
}

fn sync_on_closed_fd_steps() -> (r: Vec<Step>)
    ensures
        r@ == sync_on_closed_fd(),
{
    let v: Vec<Step> = vec![
        open_heap(),
        allocate(1, NEG_ALLOC_SIZE),
        unmap(1),
        shut(1),
        expecting(Op::Sync { buf: 1, flags: DMA_BUF_SYNC_READ }, Expect::Fails(Errno::EBADF)),
    ];
    assert(v@ =~= sync_on_closed_fd());
    v
}

/// A closed buffer cannot be accessed.
pub fn neg_sync_on_closed_fd<B: HeapBackend + DmaBufBackend + ContainerBackend>(
    backend: &mut B,
    heap: &str,
) -> (r: Result<(), Errno>)
    requires
        old(backend).valid(),
    ensures
        final(backend).valid(),
        done_on(*old(backend), sync_on_closed_fd(), heap@, 2, r, *final(backend)),
        final(backend).opened() == old(backend).opened(),
{
    run_on(backend, sync_on_closed_fd_steps().as_slice(), heap, 2)
}

/// A buffer can be sought to its start and its end only.
pub open spec fn llseek_invalid() -> Seq<Step> {
    seq![
        open_heap(),
        allocate(1, NEG_ALLOC_SIZE),
        expecting(Op::Seek { buf: 1, offset: 0, whence: SEEK_CUR, want: Want::Any }, Expect::Fails(Errno::EINVAL)),
        expecting(Op::Seek { buf: 1, offset: 1, whence: SEEK_SET, want: Want::Any }, Expect::Fails(Errno::EINVAL)),
        expecting(Op::Seek { buf: 1, offset: 1, whence: SEEK_END, want: Want::Any }, Expect::Fails(Errno::EINVAL)),
    ]
}

fn llseek_invalid_steps() -> (r: Vec<Step>)
    ensures
        r@ == llseek_invalid(),
{
    let v: Vec<Step> = vec![
        open_heap(),
        allocate(1, NEG_ALLOC_SIZE),
        expecting(Op::Seek { buf: 1, offset: 0, whence: SEEK_CUR, want: Want::Any }, Expect::Fails(Errno::EINVAL)),
        expecting(Op::Seek { buf: 1, offset: 1, whence: SEEK_SET, want: Want::Any }, Expect::Fails(Errno::EINVAL)),
        expecting(Op::Seek { buf: 1, offset: 1, whence: SEEK_END, want: Want::Any }, Expect::Fails(Errno::EINVAL)),
    ];
    assert(v@ =~= llseek_invalid());
    v
}

/// A buffer can be sought to its start and its end only.
pub fn neg_llseek_invalid<B: HeapBackend + DmaBufBackend + ContainerBackend>(
    backend: &mut B,
    heap: &str,
) -> (r: Result<(), Errno>)
    requires
        old(backend).valid(),
    ensures
        final(backend).valid(),
        done_on(*old(backend), llseek_invalid(), heap@, 2, r, *final(backend)),
        final(backend).opened() == old(backend).opened(),
{
    run_on(backend, llseek_invalid_steps().as_slice(), heap, 2)
}

/// No more than a buffer can be mapped.
pub open spec fn mmap_beyond_size() -> Seq<Step> {
    seq![
        open_heap(),
        must(Op::Allocate { to: 1, heap: 0, len: NEG_ALLOC_SIZE, fd_flags: DMA_HEAP_ALLOC_FD_FLAGS, heap_flags: DMA_HEAP_VALID_HEAP_FLAGS, shown: 8192 }),
        expecting(Op::Mmap { buf: 1 }, Expect::Fails(Errno::EINVAL)),
    ]
}

fn mmap_beyond_size_steps() -> (r: Vec<Step>)
    ensures
        r@ == mmap_beyond_size(),
{
    let v: Vec<Step> = vec![
        open_heap(),
        must(Op::Allocate { to: 1, heap: 0, len: NEG_ALLOC_SIZE, fd_flags: DMA_HEAP_ALLOC_FD_FLAGS, heap_flags: DMA_HEAP_VALID_HEAP_FLAGS, shown: 8192 }),
        expecting(Op::Mmap { buf: 1 }, Expect::Fails(Errno::EINVAL)),
    ];
    assert(v@ =~= mmap_beyond_size());
    v
}

/// No more than a buffer can be mapped.
pub fn neg_mmap_beyond_size<B: HeapBackend + DmaBufBackend + ContainerBackend>(
    backend: &mut B,
    heap: &str,
) -> (r: Result<(), Errno>)
    requires
        old(backend).valid(),
    ensures
        final(backend).valid(),
        done_on(*old(backend), mmap_beyond_size(), heap@, 2, r, *final(backend)),
        final(backend).opened() == old(backend).opened(),
{
    run_on(backend, mmap_beyond_size_steps().as_slice(), heap, 2)
}

/// A fence without a direction is refused.
pub open spec fn export_invalid_flags() -> Seq<Step> {
    seq![
        open_heap(),
        allocate(1, NEG_ALLOC_SIZE),
        expecting(Op::Export { to: 2, buf: 1, flags: 0, checked: false }, Expect::Fails(Errno::EINVAL)),
    ]
}

fn export_invalid_flags_steps() -> (r: Vec<Step>)
    ensures
        r@ == export_invalid_flags(),
{
    let v: Vec<Step> = vec![
        open_heap(),
        allocate(1, NEG_ALLOC_SIZE),
        expecting(Op::Export { to: 2, buf: 1, flags: 0, checked: false }, Expect::Fails(Errno::EINVAL)),
    ];
    assert(v@ =~= export_invalid_flags());
    v
}

/// A fence without a direction is refused.
pub fn neg_export_sync_file_invalid_flags<B: HeapBackend + DmaBufBackend + ContainerBackend>(
    backend: &mut B,
    heap: &str,
) -> (r: Result<(), Errno>)
    requires
        old(backend).valid(),
    ensures
        final(backend).valid(),
        done_on(*old(backend), export_invalid_flags(), heap@, 3, r, *final(backend)),
        final(backend).opened() == old(backend).opened(),
{
    run_on(backend, export_invalid_flags_steps().as_slice(), heap, 3)
}

/// Only a fence can be imported.
pub open spec fn import_bad_fd() -> Seq<Step> {
    seq![
        open_heap(),
        allocate(1, NEG_ALLOC_SIZE),
        must(Op::Foreign { to: 2, fd: NO_SUCH_FD }),
        expecting(Op::Import { buf: 1, flags: DMA_BUF_SYNC_READ as u32, fence: 2 }, Expect::Fails(Errno::EINVAL)),
    ]
}

fn import_bad_fd_steps() -> (r: Vec<Step>)
    ensures
        r@ == import_bad_fd(),
{
    let v: Vec<Step> = vec![
        open_heap(),
        allocate(1, NEG_ALLOC_SIZE),
        must(Op::Foreign { to: 2, fd: NO_SUCH_FD }),
        expecting(Op::Import { buf: 1, flags: DMA_BUF_SYNC_READ as u32, fence: 2 }, Expect::Fails(Errno::EINVAL)),
    ];
    assert(v@ =~= import_bad_fd());
    v
}

/// Only a fence can be imported.
pub fn neg_import_sync_file_bad_fd<B: HeapBackend + DmaBufBackend + ContainerBackend>(
    backend: &mut B,
    heap: &str,
) -> (r: Result<(), Errno>)
    requires
        old(backend).valid(),
    ensures
        final(backend).valid(),
        done_on(*old(backend), import_bad_fd(), heap@, 3, r, *final(backend)),
        final(backend).opened() == old(backend).opened(),
{
    run_on(backend, import_bad_fd_steps().as_slice(), heap, 3)
}

/// A buffer that comes and goes.
pub open spec fn coming_and_going() -> Seq<Step> {
    seq![
        allocate(1, NEG_ALLOC_SIZE),
        unmap(1),
        shut(1),
    ]
}

fn coming_and_going_steps() -> (r: Vec<Step>)
    ensures
        r@ == coming_and_going(),
{
    let v: Vec<Step> = vec![
        allocate(1, NEG_ALLOC_SIZE),
        unmap(1),
        shut(1),
    ];
    assert(v@ =~= coming_and_going());
    v
}

/// Buffers come and go, one after the other.
pub open spec fn rapid_alloc_close() -> Seq<Step> {
    seq![open_heap()] + repeated(coming_and_going(), RAPID_CYCLES as nat)
}

fn rapid_alloc_close_steps() -> (r: Vec<Step>)
    ensures
        r@ == rapid_alloc_close(),
{
    let mut v: Vec<Step> = vec![open_heap()];
    push_repeated(&mut v, coming_and_going_steps().as_slice(), RAPID_CYCLES);
    assert(v@ =~= rapid_alloc_close());
    v
}

/// Buffers come and go, one after the other.
pub fn neg_rapid_alloc_close_no_leak<B: HeapBackend + DmaBufBackend + ContainerBackend>(
    backend: &mut B,
    heap: &str,
) -> (r: Result<(), Errno>)
    requires
        old(backend).valid(),
    ensures
        final(backend).valid(),
        done_on(*old(backend), rapid_alloc_close(), heap@, 2, r, *final(backend)),
        final(backend).opened() == old(backend).opened(),
{
    run_on(backend, rapid_alloc_close_steps().as_slice(), heap, 2)
}

/// A buffer that is closed twice is closed once: the second time it is not found.
pub open spec fn close_same_fd() -> Seq<Step> {
    seq![
        open_heap(),
        allocate(1, NEG_ALLOC_SIZE),
        expecting(Op::Close { slot: 1 }, Expect::Succeeds),
        expecting(Op::CloseAgain { slot: 1 }, Expect::Fails(Errno::EBADF)),
    ]
}

fn close_same_fd_steps() -> (r: Vec<Step>)
    ensures
        r@ == close_same_fd(),
{
    let v: Vec<Step> = vec![
        open_heap(),
        allocate(1, NEG_ALLOC_SIZE),
        expecting(Op::Close { slot: 1 }, Expect::Succeeds),
        expecting(Op::CloseAgain { slot: 1 }, Expect::Fails(Errno::EBADF)),
    ];
    assert(v@ =~= close_same_fd());
    v
}

/// A buffer that is closed twice is closed once: the second time it is not found.
pub fn neg_concurrent_close_same_fd<B: HeapBackend + DmaBufBackend + ContainerBackend>(
    backend: &mut B,
    heap: &str,
) -> (r: Result<(), Errno>)
    requires
        old(backend).valid(),
    ensures
        final(backend).valid(),
        done_on(*old(backend), close_same_fd(), heap@, 2, r, *final(backend)),
        final(backend).opened() == old(backend).opened(),
{
    run_on(backend, close_same_fd_steps().as_slice(), heap, 2)
}

/// What closing a buffer from two sides comes to: one time it was closed, and the other
/// time it was not there any more.
pub fn close_outcome(closed: usize, missing: usize) -> (r: Result<(), Errno>)
    ensures
        r == if closed == 1 && missing == 1 {
            Ok::<(), Errno>(())
        } else {
            Err(Errno::EIO)
        },
{
    if closed == 1 && missing == 1 {
        Ok(())
    } else {
        Err(Errno::EIO)
    }
}

/// All tests of refusals. What needs a mapping is skipped where there is none.
pub open spec fn negative_plan(can_mmap: bool) -> Seq<Plan> {
    seq![
        Plan { name: "neg_open_nonexistent"@, steps: open_nonexistent(), slots: 1, skip: false },
        Plan { name: "neg_alloc_zero_size"@, steps: alloc_zero_size(), slots: 2, skip: false },
        Plan { name: "neg_alloc_overflow_size"@, steps: alloc_overflow_size(), slots: 2, skip: false },
        Plan { name: "neg_alloc_invalid_fd_flags"@, steps: alloc_invalid_fd_flags(), slots: 2, skip: false },
        Plan { name: "neg_alloc_invalid_heap_flags"@, steps: alloc_invalid_heap_flags(), slots: 2, skip: false },
        Plan { name: "neg_alloc_on_closed_heap"@, steps: alloc_on_closed_heap(), slots: 2, skip: false },
        Plan { name: "neg_sync_invalid_flags"@, steps: sync_invalid_flags(), slots: 2, skip: false },
        Plan { name: "neg_sync_on_closed_fd"@, steps: sync_on_closed_fd(), slots: 2, skip: false },
        Plan { name: "neg_llseek_invalid"@, steps: llseek_invalid(), slots: 2, skip: false },
        Plan { name: "neg_mmap_beyond_size"@, steps: mmap_beyond_size(), slots: 2, skip: !can_mmap },
        Plan { name: "neg_export_sync_file_invalid_flags"@, steps: export_invalid_flags(), slots: 3, skip: false },
        Plan { name: "neg_import_sync_file_bad_fd"@, steps: import_bad_fd(), slots: 3, skip: false },
        Plan { name: "neg_rapid_alloc_close_no_leak"@, steps: rapid_alloc_close(), slots: 2, skip: false },
        Plan { name: "neg_concurrent_close_same_fd"@, steps: close_same_fd(), slots: 2, skip: false },
    ]
}

/// All tests of refusals but the last.
pub open spec fn before_the_race(can_mmap: bool) -> Seq<Plan> {
    negative_plan(can_mmap).drop_last()
}

/// Whether the tests of refusals, one after the other, lead from one backend to another,
/// and what is told of them is what came of them and of the last one.
pub open spec fn raced_told<B: Answers>(
    a: B,
    can_mmap: bool,
    heap: Seq<char>,
    raced: Result<(), Errno>,
    told_of: Seq<SubTestResult>,
    first: Option<String>,
    b: B,
) -> bool {
    exists|results: Seq<Result<(), Errno>>| #[trigger]
        suite_ran(a, before_the_race(can_mmap), two_names(heap), results, b) && outcomes(told_of)
            == all_told(negative_plan(can_mmap), results.push(raced)) && maybe_text(first)
            == first_failure("negative"@, negative_plan(can_mmap), results.push(raced))
}

/// Runs all tests of refusals on a heap but the last, of which the result is given: two
/// have closed one buffer at once.
pub fn run_but_for_the_race<B: HeapBackend + DmaBufBackend + ContainerBackend>(
    backend: &mut B,
    heap: &str,
    can_mmap: bool,
    raced: Result<(), Errno>,
) -> (r: (Vec<SubTestResult>, Option<String>))
    requires
        old(backend).valid(),
    ensures
        final(backend).valid(),
        final(backend).opened() == old(backend).opened(),
        raced_told(*old(backend), can_mmap, heap@, raced, r.0@, r.1, *final(backend)),
{
    let names: [&str; 2] = [heap, ""];
    assert(strs(names@) =~= two_names(heap@));
    let mut list = negative_plan_list(can_mmap);
    let ghost all = plans(list@);
    let last = list.pop();
    assert(plans(list@) =~= before_the_race(can_mmap));
    let (told_of, first) = run_suite(backend, "negative", &names, &list);
    let ghost results = choose|results: Seq<Result<(), Errno>>| #[trigger]
        suite_ran(*old(backend), before_the_race(can_mmap), two_names(heap@), results, *backend)
            && outcomes(told_of@) == all_told(before_the_race(can_mmap), results) && maybe_text(
            first,
        ) == first_failure("negative"@, before_the_race(can_mmap), results);
    proof {
        lemma_as_many(
            *old(backend),
            before_the_race(can_mmap),
            two_names(heap@),
            results,
            *backend,
        );
    }
    match last {
        Some(p) => {
            let r = tell_more(
                "negative",
                told_of,
                first,
                &p,
                raced,
                Ghost(before_the_race(can_mmap)),
                Ghost(results),
            );
            assert(before_the_race(can_mmap).push(p@) =~= negative_plan(can_mmap));
            r
        },
        None => (told_of, first),
    }
}

fn negative_plan_list(can_mmap: bool) -> (r: Vec<Planned>)
    ensures
        plans(r@) == negative_plan(can_mmap),
{
    let mut v: Vec<Planned> = Vec::new();
    v.push(planned("neg_open_nonexistent", open_nonexistent_steps(), 1, false));
    v.push(planned("neg_alloc_zero_size", alloc_zero_size_steps(), 2, false));
    v.push(planned("neg_alloc_overflow_size", alloc_overflow_size_steps(), 2, false));
    v.push(planned("neg_alloc_invalid_fd_flags", alloc_invalid_fd_flags_steps(), 2, false));
    v.push(planned("neg_alloc_invalid_heap_flags", alloc_invalid_heap_flags_steps(), 2, false));
    v.push(planned("neg_alloc_on_closed_heap", alloc_on_closed_heap_steps(), 2, false));
    v.push(planned("neg_sync_invalid_flags", sync_invalid_flags_steps(), 2, false));
    v.push(planned("neg_sync_on_closed_fd", sync_on_closed_fd_steps(), 2, false));
    v.push(planned("neg_llseek_invalid", llseek_invalid_steps(), 2, false));
    v.push(planned("neg_mmap_beyond_size", mmap_beyond_size_steps(), 2, !can_mmap));
    v.push(planned("neg_export_sync_file_invalid_flags", export_invalid_flags_steps(), 3, false));
    v.push(planned("neg_import_sync_file_bad_fd", import_bad_fd_steps(), 3, false));
    v.push(planned("neg_rapid_alloc_close_no_leak", rapid_alloc_close_steps(), 2, false));
    v.push(planned("neg_concurrent_close_same_fd", close_same_fd_steps(), 2, false));
    assert(plans(v@) =~= negative_plan(can_mmap));
    v
}

/// Runs all tests of refusals on a heap.
pub fn run<B: HeapBackend + DmaBufBackend + ContainerBackend>(
    backend: &mut B,
    heap: &str,
    can_mmap: bool,
) -> (r: (Vec<SubTestResult>, Option<String>))
    requires
        old(backend).valid(),
    ensures
        final(backend).valid(),
        final(backend).opened() == old(backend).opened(),
        suite_told(
            *old(backend),
            "negative"@,
            negative_plan(can_mmap),
            two_names(heap@),
            r.0@,
            r.1,
            *final(backend),
        ),
{
    let names: [&str; 2] = [heap, ""];
    assert(strs(names@) =~= two_names(heap@));
    run_suite(backend, "negative", &names, &negative_plan_list(can_mmap))
}

} // verus!
