//! Tests of containers.
use crate::backend::ioctl::{Errno, DMA_BUF_SYNC_END, DMA_BUF_SYNC_READ, DMA_BUF_SYNC_START, DMA_HEAP_ALLOC_FD_FLAGS, DMA_HEAP_VALID_HEAP_FLAGS, SEEK_END};
use crate::backend::protocol::{ContainerBackend, DmaBufBackend, HeapBackend, Pattern};
use crate::bench::pressure::SubTestResult;
use crate::info::types::{strings, HeapCaps};
use crate::order::strs;
use crate::text::same_string;

use crate::workload::script::{done_on, fill, map_buffer, run_on, size_of};
use crate::workload::step::{expecting, must, Expect, Op, Step, Want};
use crate::workload::suite::{plans, planned, run_suite, suite_told, Plan, Planned};
use vstd::prelude::*;

verus! {

/// The size of the buffers.
pub const ALLOC_SIZE: u64 = 4096;

/// Allocates a buffer from a heap of its own, opened for it.
#[verifier::allow_in_spec]
pub fn allocate_from(to: usize, heap: usize, size: u64) -> (r: Step)
    returns
        must(
            Op::Allocate {
                to,
                heap,
                len: size,
                fd_flags: DMA_HEAP_ALLOC_FD_FLAGS,
                heap_flags: DMA_HEAP_VALID_HEAP_FLAGS,
                shown: size as usize,
            },
        ),
{
    must(
        Op::Allocate {
            to,
            heap,
            len: size,
            fd_flags: DMA_HEAP_ALLOC_FD_FLAGS,
            heap_flags: DMA_HEAP_VALID_HEAP_FLAGS,
            shown: size as usize,
        },
    )
}

/// Merges buffers of consecutive places into a container.
#[verifier::allow_in_spec]
pub fn merge(to: usize, first: usize, count: usize, shown: usize) -> (r: Op)
    returns
        (Op::Merge { to, device: 0, first, count, shown }),
{
    Op::Merge { to, device: 0, first, count, shown }
}

/// Two buffers become a container.
pub open spec fn merge_two() -> Seq<Step> {
    seq![
        must(Op::OpenDevice { to: 0 }),
        must(Op::Open { to: 6, name: 0 }),
        allocate_from(1, 6, ALLOC_SIZE),
        must(Op::Open { to: 7, name: 0 }),
        allocate_from(2, 7, ALLOC_SIZE),
        must(merge(4, 1, 2, 8192)),
        must(Op::Close { slot: 4 }),
    ]
}

fn merge_two_steps() -> (r: Vec<Step>)
    ensures
        r@ == merge_two(),
{
    let v: Vec<Step> = vec![
        must(Op::OpenDevice { to: 0 }),
        must(Op::Open { to: 6, name: 0 }),
        allocate_from(1, 6, ALLOC_SIZE),
        must(Op::Open { to: 7, name: 0 }),
        allocate_from(2, 7, ALLOC_SIZE),
        must(merge(4, 1, 2, 8192)),
        must(Op::Close { slot: 4 }),
    ];
    assert(v@ =~= merge_two());
    v
}

/// Two buffers become a container.
pub fn merge_two_bufs<B: HeapBackend + DmaBufBackend + ContainerBackend>(
    backend: &mut B,
    heap: &str,
) -> (r: Result<(), Errno>)
    requires
        old(backend).valid(),
    ensures
        final(backend).valid(),
        done_on(*old(backend), merge_two(), heap@, 9, r, *final(backend)),
        final(backend).opened() == old(backend).opened(),
{
    run_on(backend, merge_two_steps().as_slice(), heap, 9)
}

/// One buffer becomes a container.
pub open spec fn merge_single() -> Seq<Step> {
    seq![
        must(Op::OpenDevice { to: 0 }),
        must(Op::Open { to: 6, name: 0 }),
        allocate_from(1, 6, ALLOC_SIZE),
        must(merge(4, 1, 1, 4096)),
        must(Op::Close { slot: 4 }),
    ]
}

fn merge_single_steps() -> (r: Vec<Step>)
    ensures
        r@ == merge_single(),
{
    let v: Vec<Step> = vec![
        must(Op::OpenDevice { to: 0 }),
        must(Op::Open { to: 6, name: 0 }),
        allocate_from(1, 6, ALLOC_SIZE),
        must(merge(4, 1, 1, 4096)),
        must(Op::Close { slot: 4 }),
    ];
    assert(v@ =~= merge_single());
    v
}

/// One buffer becomes a container.
pub fn merge_single_buf<B: HeapBackend + DmaBufBackend + ContainerBackend>(
    backend: &mut B,
    heap: &str,
) -> (r: Result<(), Errno>)
    requires
        old(backend).valid(),
    ensures
        final(backend).valid(),
        done_on(*old(backend), merge_single(), heap@, 9, r, *final(backend)),
        final(backend).opened() == old(backend).opened(),
{
    run_on(backend, merge_single_steps().as_slice(), heap, 9)
}

/// A buffer outlives its container.
pub open spec fn merge_lifecycle() -> Seq<Step> {
    seq![
        must(Op::OpenDevice { to: 0 }),
        must(Op::Open { to: 6, name: 0 }),
        allocate_from(1, 6, ALLOC_SIZE),
        must(merge(4, 1, 1, 4096)),
        must(Op::Close { slot: 4 }),
        size_of(1, Want::Is(4096)),
    ]
}

fn merge_lifecycle_steps() -> (r: Vec<Step>)
    ensures
        r@ == merge_lifecycle(),
{
    let v: Vec<Step> = vec![
        must(Op::OpenDevice { to: 0 }),
        must(Op::Open { to: 6, name: 0 }),
        allocate_from(1, 6, ALLOC_SIZE),
        must(merge(4, 1, 1, 4096)),
        must(Op::Close { slot: 4 }),
        size_of(1, Want::Is(4096)),
    ];
    assert(v@ =~= merge_lifecycle());
    v
}

/// A buffer outlives its container.
pub fn merge_close_lifecycle<B: HeapBackend + DmaBufBackend + ContainerBackend>(
    backend: &mut B,
    heap: &str,
) -> (r: Result<(), Errno>)
    requires
        old(backend).valid(),
    ensures
        final(backend).valid(),
        done_on(*old(backend), merge_lifecycle(), heap@, 9, r, *final(backend)),
        final(backend).opened() == old(backend).opened(),
{
    run_on(backend, merge_lifecycle_steps().as_slice(), heap, 9)
}

/// A container in a container stands for its buffers.
pub open spec fn merge_flatten() -> Seq<Step> {
    seq![
        must(Op::OpenDevice { to: 0 }),
        must(Op::Open { to: 6, name: 0 }),
        allocate_from(1, 6, ALLOC_SIZE),
        must(Op::Open { to: 7, name: 0 }),
        allocate_from(2, 7, ALLOC_SIZE),
        must(Op::Open { to: 8, name: 0 }),
        allocate_from(5, 8, ALLOC_SIZE),
        must(merge(4, 1, 2, 8192)),
        must(merge(3, 4, 2, 12288)),
        size_of(3, Want::Is(12288)),
        must(Op::Close { slot: 3 }),
        must(Op::Close { slot: 4 }),
    ]
}

fn merge_flatten_steps() -> (r: Vec<Step>)
    ensures
        r@ == merge_flatten(),
{
    let v: Vec<Step> = vec![
        must(Op::OpenDevice { to: 0 }),
        must(Op::Open { to: 6, name: 0 }),
        allocate_from(1, 6, ALLOC_SIZE),
        must(Op::Open { to: 7, name: 0 }),
        allocate_from(2, 7, ALLOC_SIZE),
        must(Op::Open { to: 8, name: 0 }),
        allocate_from(5, 8, ALLOC_SIZE),
        must(merge(4, 1, 2, 8192)),
        must(merge(3, 4, 2, 12288)),
        size_of(3, Want::Is(12288)),
        must(Op::Close { slot: 3 }),
        must(Op::Close { slot: 4 }),
    ];
    assert(v@ =~= merge_flatten());
    v
}

/// A container in a container stands for its buffers.
pub fn merge_flatten_container<B: HeapBackend + DmaBufBackend + ContainerBackend>(
    backend: &mut B,
    heap: &str,
) -> (r: Result<(), Errno>)
    requires
        old(backend).valid(),
    ensures
        final(backend).valid(),
        done_on(*old(backend), merge_flatten(), heap@, 9, r, *final(backend)),
        final(backend).opened() == old(backend).opened(),
{
    run_on(backend, merge_flatten_steps().as_slice(), heap, 9)
}

/// A container shows its buffers one after the other.
pub open spec fn merge_contents() -> Seq<Step> {
    seq![
        must(Op::OpenDevice { to: 0 }),
        must(Op::Open { to: 6, name: 0 }),
        allocate_from(1, 6, ALLOC_SIZE),
        must(Op::Open { to: 7, name: 0 }),
        allocate_from(2, 7, ALLOC_SIZE),
        map_buffer(1),
        fill(1, ALLOC_SIZE, 0xaa),
        map_buffer(2),
        fill(2, ALLOC_SIZE, 0xbb),
        must(merge(4, 1, 2, 8192)),
        map_buffer(4),
        must(Op::Holds { buf: 4, at: 0, len: 1, pattern: Pattern::Same(0xaa) }),
        must(Op::Holds { buf: 4, at: 4096, len: 1, pattern: Pattern::Same(0xbb) }),
        must(Op::Close { slot: 4 }),
    ]
}

fn merge_contents_steps() -> (r: Vec<Step>)
    ensures
        r@ == merge_contents(),
{
    let v: Vec<Step> = vec![
        must(Op::OpenDevice { to: 0 }),
        must(Op::Open { to: 6, name: 0 }),
        allocate_from(1, 6, ALLOC_SIZE),
        must(Op::Open { to: 7, name: 0 }),
        allocate_from(2, 7, ALLOC_SIZE),
        map_buffer(1),
        fill(1, ALLOC_SIZE, 0xaa),
        map_buffer(2),
        fill(2, ALLOC_SIZE, 0xbb),
        must(merge(4, 1, 2, 8192)),
        map_buffer(4),
        must(Op::Holds { buf: 4, at: 0, len: 1, pattern: Pattern::Same(0xaa) }),
        must(Op::Holds { buf: 4, at: 4096, len: 1, pattern: Pattern::Same(0xbb) }),
        must(Op::Close { slot: 4 }),
    ];
    assert(v@ =~= merge_contents());
    v
}

/// A container shows its buffers one after the other.
pub fn merge_mmap_read_write<B: HeapBackend + DmaBufBackend + ContainerBackend>(
    backend: &mut B,
    heap: &str,
) -> (r: Result<(), Errno>)
    requires
        old(backend).valid(),
    ensures
        final(backend).valid(),
        done_on(*old(backend), merge_contents(), heap@, 9, r, *final(backend)),
        final(backend).opened() == old(backend).opened(),
{
    run_on(backend, merge_contents_steps().as_slice(), heap, 9)
}

/// A container is as large as its buffers together.
pub open spec fn merge_size() -> Seq<Step> {
    seq![
        must(Op::OpenDevice { to: 0 }),
        must(Op::Open { to: 6, name: 0 }),
        allocate_from(1, 6, ALLOC_SIZE),
        must(Op::Open { to: 7, name: 0 }),
        allocate_from(2, 7, 8192),
        must(merge(4, 1, 2, 12288)),
        size_of(4, Want::Is(12288)),
        must(Op::Close { slot: 4 }),
    ]
}

fn merge_size_steps() -> (r: Vec<Step>)
    ensures
        r@ == merge_size(),
{
    let v: Vec<Step> = vec![
        must(Op::OpenDevice { to: 0 }),
        must(Op::Open { to: 6, name: 0 }),
        allocate_from(1, 6, ALLOC_SIZE),
        must(Op::Open { to: 7, name: 0 }),
        allocate_from(2, 7, 8192),
        must(merge(4, 1, 2, 12288)),
        size_of(4, Want::Is(12288)),
        must(Op::Close { slot: 4 }),
    ];
    assert(v@ =~= merge_size());
    v
}

/// A container is as large as its buffers together.
pub fn merge_llseek_combined_size<B: HeapBackend + DmaBufBackend + ContainerBackend>(
    backend: &mut B,
    heap: &str,
) -> (r: Result<(), Errno>)
    requires
        old(backend).valid(),
    ensures
        final(backend).valid(),
        done_on(*old(backend), merge_size(), heap@, 9, r, *final(backend)),
        final(backend).opened() == old(backend).opened(),
{
    run_on(backend, merge_size_steps().as_slice(), heap, 9)
}

/// A container can be accessed.
pub open spec fn merge_access() -> Seq<Step> {
    seq![
        must(Op::OpenDevice { to: 0 }),
        must(Op::Open { to: 6, name: 0 }),
        allocate_from(1, 6, ALLOC_SIZE),
        must(merge(4, 1, 1, 4096)),
        must(Op::Sync { buf: 4, flags: DMA_BUF_SYNC_START | DMA_BUF_SYNC_READ }),
        must(Op::Sync { buf: 4, flags: DMA_BUF_SYNC_END | DMA_BUF_SYNC_READ }),
        must(Op::Close { slot: 4 }),
    ]
}

fn merge_access_steps() -> (r: Vec<Step>)
    ensures
        r@ == merge_access(),
{
    let v: Vec<Step> = vec![
        must(Op::OpenDevice { to: 0 }),
        must(Op::Open { to: 6, name: 0 }),
        allocate_from(1, 6, ALLOC_SIZE),
        must(merge(4, 1, 1, 4096)),
        must(Op::Sync { buf: 4, flags: DMA_BUF_SYNC_START | DMA_BUF_SYNC_READ }),
        must(Op::Sync { buf: 4, flags: DMA_BUF_SYNC_END | DMA_BUF_SYNC_READ }),
        must(Op::Close { slot: 4 }),
    ];
    assert(v@ =~= merge_access());
    v
}

/// A container can be accessed.
pub fn merge_sync<B: HeapBackend + DmaBufBackend + ContainerBackend>(
    backend: &mut B,
    heap: &str,
) -> (r: Result<(), Errno>)
    requires
        old(backend).valid(),
    ensures
        final(backend).valid(),
        done_on(*old(backend), merge_access(), heap@, 9, r, *final(backend)),
        final(backend).opened() == old(backend).opened(),
{
    run_on(backend, merge_access_steps().as_slice(), heap, 9)
}

/// The mask that was set is the one that is read.
pub open spec fn mask_roundtrip() -> Seq<Step> {
    seq![
        must(Op::OpenDevice { to: 0 }),
        must(Op::Open { to: 6, name: 0 }),
        allocate_from(1, 6, ALLOC_SIZE),
        must(Op::Open { to: 7, name: 0 }),
        allocate_from(2, 7, ALLOC_SIZE),
        must(Op::Open { to: 8, name: 0 }),
        allocate_from(3, 8, ALLOC_SIZE),
        must(merge(4, 1, 3, 12288)),
        must(Op::SetMask { device: 0, container: 4, mask: 5 }),
        must(Op::GetMask { device: 0, container: 4, want: 5 }),
        must(Op::Close { slot: 4 }),
    ]
}

fn mask_roundtrip_steps() -> (r: Vec<Step>)
    ensures
        r@ == mask_roundtrip(),
{
    let v: Vec<Step> = vec![
        must(Op::OpenDevice { to: 0 }),
        must(Op::Open { to: 6, name: 0 }),
        allocate_from(1, 6, ALLOC_SIZE),
        must(Op::Open { to: 7, name: 0 }),
        allocate_from(2, 7, ALLOC_SIZE),
        must(Op::Open { to: 8, name: 0 }),
        allocate_from(3, 8, ALLOC_SIZE),
        must(merge(4, 1, 3, 12288)),
        must(Op::SetMask { device: 0, container: 4, mask: 5 }),
        must(Op::GetMask { device: 0, container: 4, want: 5 }),
        must(Op::Close { slot: 4 }),
    ];
    assert(v@ =~= mask_roundtrip());
    v
}

/// The mask that was set is the one that is read.
pub fn set_get_mask_roundtrip<B: HeapBackend + DmaBufBackend + ContainerBackend>(
    backend: &mut B,
    heap: &str,
) -> (r: Result<(), Errno>)
    requires
        old(backend).valid(),
    ensures
        final(backend).valid(),
        done_on(*old(backend), mask_roundtrip(), heap@, 9, r, *final(backend)),
        final(backend).opened() == old(backend).opened(),
{
    run_on(backend, mask_roundtrip_steps().as_slice(), heap, 9)
}

/// No container of nothing.
pub open spec fn merge_none() -> Seq<Step> {
    seq![
        must(Op::OpenDevice { to: 0 }),
        expecting(merge(4, 1, 0, 0), Expect::Fails(Errno::EINVAL)),
    ]
}

fn merge_none_steps() -> (r: Vec<Step>)
    ensures
        r@ == merge_none(),
{
    let v: Vec<Step> = vec![
        must(Op::OpenDevice { to: 0 }),
        expecting(merge(4, 1, 0, 0), Expect::Fails(Errno::EINVAL)),
    ];
    assert(v@ =~= merge_none());
    v
}

/// No container of nothing.
pub fn neg_merge_zero_count<B: HeapBackend + DmaBufBackend + ContainerBackend>(
    backend: &mut B,
    heap: &str,
) -> (r: Result<(), Errno>)
    requires
        old(backend).valid(),
    ensures
        final(backend).valid(),
        done_on(*old(backend), merge_none(), heap@, 9, r, *final(backend)),
        final(backend).opened() == old(backend).opened(),
{
    run_on(backend, merge_none_steps().as_slice(), heap, 9)
}

/// Buffers in places from 1 on.
pub open spec fn many_buffers(n: nat) -> Seq<Step> {
    Seq::new(n, |i: int| allocate_from((i + 1) as usize, 65, ALLOC_SIZE))
}

/// No container of more buffers than one merge accepts.
pub open spec fn merge_too_many() -> Seq<Step> {
    seq![must(Op::OpenDevice { to: 0 }), must(Op::Open { to: 65, name: 0 })] + many_buffers(64)
        + seq![expecting(merge(66, 1, 64, 0), Expect::Fails(Errno::EINVAL))]
}

fn merge_too_many_steps() -> (r: Vec<Step>)
    ensures
        r@ == merge_too_many(),
{
    let mut v: Vec<Step> = vec![must(Op::OpenDevice { to: 0 }), must(Op::Open { to: 65, name: 0 })];
    let ghost start = v@;
    let mut i: usize = 0;
    while i < 64
        invariant
            i <= 64,
            v@ =~= start + many_buffers(i as nat),
        decreases 64 - i,
    {
        v.push(allocate_from(i + 1, 65, ALLOC_SIZE));
        i = i + 1;
        assert(v@ =~= start + many_buffers(i as nat));
    }
    v.push(expecting(merge(66, 1, 64, 0), Expect::Fails(Errno::EINVAL)));
    assert(v@ =~= merge_too_many());
    v
}

/// No container of more buffers than one merge accepts.
pub fn neg_merge_over_max<B: HeapBackend + DmaBufBackend + ContainerBackend>(
    backend: &mut B,
    heap: &str,
) -> (r: Result<(), Errno>)
    requires
        old(backend).valid(),
    ensures
        final(backend).valid(),
        done_on(*old(backend), merge_too_many(), heap@, 67, r, *final(backend)),
        final(backend).opened() == old(backend).opened(),
{
    run_on(backend, merge_too_many_steps().as_slice(), heap, 67)
}

/// No container of what was never open.
pub open spec fn merge_unknown() -> Seq<Step> {
    seq![
        must(Op::OpenDevice { to: 0 }),
        must(Op::Foreign { to: 1, fd: 9999 }),
        expecting(merge(4, 1, 1, 0), Expect::Fails(Errno::EBADF)),
    ]
}

fn merge_unknown_steps() -> (r: Vec<Step>)
    ensures
        r@ == merge_unknown(),
{
    let v: Vec<Step> = vec![
        must(Op::OpenDevice { to: 0 }),
        must(Op::Foreign { to: 1, fd: 9999 }),
        expecting(merge(4, 1, 1, 0), Expect::Fails(Errno::EBADF)),
    ];
    assert(v@ =~= merge_unknown());
    v
}

/// No container of what was never open.
pub fn neg_merge_invalid_fd<B: HeapBackend + DmaBufBackend + ContainerBackend>(
    backend: &mut B,
    heap: &str,
) -> (r: Result<(), Errno>)
    requires
        old(backend).valid(),
    ensures
        final(backend).valid(),
        done_on(*old(backend), merge_unknown(), heap@, 9, r, *final(backend)),
        final(backend).opened() == old(backend).opened(),
{
    run_on(backend, merge_unknown_steps().as_slice(), heap, 9)
}

/// No container of a closed buffer.
pub open spec fn merge_gone() -> Seq<Step> {
    seq![
        must(Op::OpenDevice { to: 0 }),
        must(Op::Open { to: 6, name: 0 }),
        allocate_from(1, 6, ALLOC_SIZE),
        must(Op::Close { slot: 1 }),
        expecting(merge(4, 1, 1, 0), Expect::Fails(Errno::EBADF)),
    ]
}

fn merge_gone_steps() -> (r: Vec<Step>)
    ensures
        r@ == merge_gone(),
{
    let v: Vec<Step> = vec![
        must(Op::OpenDevice { to: 0 }),
        must(Op::Open { to: 6, name: 0 }),
        allocate_from(1, 6, ALLOC_SIZE),
        must(Op::Close { slot: 1 }),
        expecting(merge(4, 1, 1, 0), Expect::Fails(Errno::EBADF)),
    ];
    assert(v@ =~= merge_gone());
    v
}

/// No container of a closed buffer.
pub fn neg_merge_closed_buf<B: HeapBackend + DmaBufBackend + ContainerBackend>(
    backend: &mut B,
    heap: &str,
) -> (r: Result<(), Errno>)
    requires
        old(backend).valid(),
    ensures
        final(backend).valid(),
        done_on(*old(backend), merge_gone(), heap@, 9, r, *final(backend)),
        final(backend).opened() == old(backend).opened(),
{
    run_on(backend, merge_gone_steps().as_slice(), heap, 9)
}

/// A closed container cannot be used.
pub open spec fn gone_container() -> Seq<Step> {
    seq![
        must(Op::OpenDevice { to: 0 }),
        must(Op::Open { to: 6, name: 0 }),
        allocate_from(1, 6, ALLOC_SIZE),
        must(merge(4, 1, 1, 4096)),
        must(Op::Close { slot: 4 }),
        expecting(Op::Seek { buf: 4, offset: 0, whence: SEEK_END, want: Want::Any }, Expect::Fails(Errno::EBADF)),
    ]
}

fn gone_container_steps() -> (r: Vec<Step>)
    ensures
        r@ == gone_container(),
{
    let v: Vec<Step> = vec![
        must(Op::OpenDevice { to: 0 }),
        must(Op::Open { to: 6, name: 0 }),
        allocate_from(1, 6, ALLOC_SIZE),
        must(merge(4, 1, 1, 4096)),
        must(Op::Close { slot: 4 }),
        expecting(Op::Seek { buf: 4, offset: 0, whence: SEEK_END, want: Want::Any }, Expect::Fails(Errno::EBADF)),
    ];
    assert(v@ =~= gone_container());
    v
}

/// A closed container cannot be used.
pub fn neg_ops_after_close<B: HeapBackend + DmaBufBackend + ContainerBackend>(
    backend: &mut B,
    heap: &str,
) -> (r: Result<(), Errno>)
    requires
        old(backend).valid(),
    ensures
        final(backend).valid(),
        done_on(*old(backend), gone_container(), heap@, 9, r, *final(backend)),
        final(backend).opened() == old(backend).opened(),
{
    run_on(backend, gone_container_steps().as_slice(), heap, 9)
}

/// Buffers of two heaps become a container, as large as both.
pub open spec fn merge_across() -> Seq<Step> {
    seq![
        must(Op::OpenDevice { to: 0 }),
        must(Op::Open { to: 6, name: 1 }),
        allocate_from(1, 6, ALLOC_SIZE),
        must(Op::Open { to: 7, name: 2 }),
        allocate_from(2, 7, ALLOC_SIZE),
        must(merge(4, 1, 2, 8192)),
        size_of(4, Want::Is(8192)),
        must(Op::Close { slot: 4 }),
    ]
}

fn merge_across_steps() -> (r: Vec<Step>)
    ensures
        r@ == merge_across(),
{
    let v: Vec<Step> = vec![
        must(Op::OpenDevice { to: 0 }),
        must(Op::Open { to: 6, name: 1 }),
        allocate_from(1, 6, ALLOC_SIZE),
        must(Op::Open { to: 7, name: 2 }),
        allocate_from(2, 7, ALLOC_SIZE),
        must(merge(4, 1, 2, 8192)),
        size_of(4, Want::Is(8192)),
        must(Op::Close { slot: 4 }),
    ];
    assert(v@ =~= merge_across());
    v
}

/// The tests that need one heap.
pub open spec fn one_heap_plan() -> Seq<Plan> {
    seq![
        Plan { name: "merge_two_bufs"@, steps: merge_two(), slots: 9, skip: false },
        Plan { name: "merge_single_buf"@, steps: merge_single(), slots: 9, skip: false },
        Plan { name: "merge_close_lifecycle"@, steps: merge_lifecycle(), slots: 9, skip: false },
        Plan { name: "merge_flatten_container"@, steps: merge_flatten(), slots: 9, skip: false },
        Plan { name: "merge_mmap_read_write"@, steps: merge_contents(), slots: 9, skip: false },
        Plan { name: "merge_llseek_combined_size"@, steps: merge_size(), slots: 9, skip: false },
        Plan { name: "merge_sync"@, steps: merge_access(), slots: 9, skip: false },
        Plan { name: "set_get_mask_roundtrip"@, steps: mask_roundtrip(), slots: 9, skip: false },
        Plan { name: "neg_merge_zero_count"@, steps: merge_none(), slots: 9, skip: false },
        Plan { name: "neg_merge_over_max"@, steps: merge_too_many(), slots: 67, skip: false },
        Plan { name: "neg_merge_invalid_fd"@, steps: merge_unknown(), slots: 9, skip: false },
        Plan { name: "neg_merge_closed_buf"@, steps: merge_gone(), slots: 9, skip: false },
        Plan { name: "neg_ops_after_close"@, steps: gone_container(), slots: 9, skip: false },
    ]
}

fn one_heap_plan_list() -> (r: Vec<Planned>)
    ensures
        plans(r@) == one_heap_plan(),
{
    let mut v: Vec<Planned> = Vec::new();
    v.push(planned("merge_two_bufs", merge_two_steps(), 9, false));
    v.push(planned("merge_single_buf", merge_single_steps(), 9, false));
    v.push(planned("merge_close_lifecycle", merge_lifecycle_steps(), 9, false));
    v.push(planned("merge_flatten_container", merge_flatten_steps(), 9, false));
    v.push(planned("merge_mmap_read_write", merge_contents_steps(), 9, false));
    v.push(planned("merge_llseek_combined_size", merge_size_steps(), 9, false));
    v.push(planned("merge_sync", merge_access_steps(), 9, false));
    v.push(planned("set_get_mask_roundtrip", mask_roundtrip_steps(), 9, false));
    v.push(planned("neg_merge_zero_count", merge_none_steps(), 9, false));
    v.push(planned("neg_merge_over_max", merge_too_many_steps(), 67, false));
    v.push(planned("neg_merge_invalid_fd", merge_unknown_steps(), 9, false));
    v.push(planned("neg_merge_closed_buf", merge_gone_steps(), 9, false));
    v.push(planned("neg_ops_after_close", gone_container_steps(), 9, false));
    assert(plans(v@) =~= one_heap_plan());
    v
}

/// All tests of containers; the one across heaps where there are two.
pub open spec fn container_plan(two_heaps: bool) -> Seq<Plan> {
    if two_heaps {
        one_heap_plan() + seq![
            Plan { name: "cross_heap_merge"@, steps: merge_across(), slots: 9, skip: false },
        ]
    } else {
        one_heap_plan()
    }
}

/// The heaps that can be mapped, in order; only their buffers can be merged.
pub open spec fn mergeable(heaps: Seq<Seq<char>>, caps: Seq<HeapCaps>) -> Seq<Seq<char>>
    decreases heaps.len(),
{
    if heaps.len() == 0 {
        Seq::empty()
    } else {
        let before = mergeable(heaps.drop_last(), caps);
        if caps[heaps.len() - 1].can_mmap {
            before.push(heaps.last())
        } else {
            before
        }
    }
}

/// The heap that most tests use: the system's where it is there, else the first.
pub open spec fn primary(heaps: Seq<Seq<char>>) -> Seq<char> {
    if heaps.contains("system"@) || heaps.len() == 0 {
        "system"@
    } else {
        heaps[0]
    }
}

/// The names of the heap that most tests use and of the two that are merged across.
pub open spec fn heap_names(heaps: Seq<Seq<char>>, caps: Seq<HeapCaps>) -> Seq<Seq<char>> {
    let m = mergeable(heaps, caps);
    if m.len() >= 2 {
        seq![primary(heaps), m[0], m[1]]
    } else {
        seq![primary(heaps), ""@, ""@]
    }
}

/// Which heap most tests use.
pub fn primary_heap<'a>(heaps: &'a [String]) -> (r: &'a str)
    ensures
        r@ == primary(strings(heaps@)),
{
    let mut i: usize = 0;
    while i < heaps.len()
        invariant
            i <= heaps@.len(),
            forall|j: int| 0 <= j < i ==> (#[trigger] heaps@[j])@ != "system"@,
        decreases heaps@.len() - i,
    {
        if same_string(heaps[i].as_str(), "system") {
            assert(strings(heaps@)[i as int] == "system"@);
            return heaps[i].as_str();
        }
        i = i + 1;
    }
    if heaps.len() == 0 {
        return "system";
    }
    heaps[0].as_str()
}

fn mergeable_heaps<'a>(heaps: &'a [String], caps: &[HeapCaps]) -> (r: Vec<&'a str>)
    requires
        caps@.len() == heaps@.len(),
    ensures
        strs(r@) == mergeable(strings(heaps@), caps@),
{
    let ghost all = strings(heaps@);
    let mut r: Vec<&'a str> = Vec::new();
    let mut i: usize = 0;
    assert(all.take(0) =~= Seq::empty());
    assert(strs(r@) =~= Seq::empty());
    while i < heaps.len()
        invariant
            i <= heaps@.len(),
            caps@.len() == heaps@.len(),
            all == strings(heaps@),
            strs(r@) == mergeable(all.take(i as int), caps@),
        decreases heaps@.len() - i,
    {
        let ghost before = r@;
        assert(all.take(i + 1).drop_last() =~= all.take(i as int));
        assert(all.take(i + 1).last() == heaps@[i as int]@);
        if caps[i].can_mmap {
            r.push(heaps[i].as_str());
            assert(strs(r@) =~= strs(before).push(heaps@[i as int]@));
        }
        i = i + 1;
    }
    assert(all.take(all.len() as int) =~= all);
    r
}

/// Runs all tests of containers on the heaps of a system, of which `caps` says what they
/// can do: most on one heap, and one across the first two heaps that can be merged, where
/// there are two.
pub fn run<B: HeapBackend + DmaBufBackend + ContainerBackend>(
    backend: &mut B,
    heaps: &[String],
    caps: &[HeapCaps],
) -> (r: (Vec<SubTestResult>, Option<String>))
    requires
        old(backend).valid(),
        caps@.len() == heaps@.len(),
    ensures
        final(backend).valid(),
        final(backend).opened() == old(backend).opened(),
        suite_told(
            *old(backend),
            "container"@,
            container_plan(mergeable(strings(heaps@), caps@).len() >= 2),
            heap_names(strings(heaps@), caps@),
            r.0@,
            r.1,
            *final(backend),
        ),
{
    let found = mergeable_heaps(heaps, caps);
    let two: bool = found.len() >= 2;
    let first: &str = if two {
        found[0]
    } else {
        ""
    };
    let second: &str = if two {
        found[1]
    } else {
        ""
    };
    let names: [&str; 3] = [primary_heap(heaps), first, second];
    proof {
        if two {
            assert(strs(found@)[0] == found@[0]@ && strs(found@)[1] == found@[1]@);
        }
        assert(strs(names@) =~= heap_names(strings(heaps@), caps@));
    }
    let mut list = one_heap_plan_list();
    if two {
        list.push(planned("cross_heap_merge", merge_across_steps(), 9, false));
        assert(plans(list@) =~= container_plan(true));
    }
    run_suite(backend, "container", &names, &list)
}

} // verus!
