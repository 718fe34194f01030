//! Tests of the basic operations, each once.
use crate::backend::ioctl::{Errno, DMA_BUF_SYNC_READ, DMA_BUF_SYNC_WRITE};
use crate::backend::protocol::{ContainerBackend, DmaBufBackend, HeapBackend, Pattern};
use crate::bench::pressure::SubTestResult;
use crate::order::strs;
use crate::size::{align_to, aligned, format_size_label, size_label};
use crate::text::group_concat;
use crate::workload::script::{allocate, begin, check, done_on, fill, finish, map_buffer, open_heap, push_all, push_repeated, repeated, run_on, shut, size_of, unmap};
use crate::workload::step::{must, Op, Step, Want};
use crate::workload::suite::{plans, planned, run_suite, suite_told, Plan, Planned};
use vstd::prelude::*;

verus! {

/// A buffer comes and goes.
pub open spec fn alloc_close(size: u64) -> Seq<Step> {
    seq![
        open_heap(),
        allocate(1, size),
        unmap(1),
        shut(1),
    ]
}

fn alloc_close_steps(size: u64) -> (r: Vec<Step>)
    ensures
        r@ == alloc_close(size),
{
    let v: Vec<Step> = vec![
        open_heap(),
        allocate(1, size),
        unmap(1),
        shut(1),
    ];
    assert(v@ =~= alloc_close(size));
    v
}

/// A buffer comes and goes.
pub fn test_alloc_close<B: HeapBackend + DmaBufBackend + ContainerBackend>(
    backend: &mut B,
    heap: &str,
    size: u64,
) -> (r: Result<(), Errno>)
    requires
        old(backend).valid(),
    ensures
        final(backend).valid(),
        done_on(*old(backend), alloc_close(size), heap@, 2, r, *final(backend)),
        final(backend).opened() == old(backend).opened(),
{
    run_on(backend, alloc_close_steps(size).as_slice(), heap, 2)
}

/// What is written is read again.
pub open spec fn write_read_verify(size: u64) -> Seq<Step> {
    seq![
        open_heap(),
        allocate(1, size),
        map_buffer(1),
        begin(1, DMA_BUF_SYNC_WRITE),
        must(Op::Fill { buf: 1, at: 0, len: size as usize, pattern: Pattern::Count }),
        finish(1, DMA_BUF_SYNC_WRITE),
        begin(1, DMA_BUF_SYNC_READ),
        must(Op::Holds { buf: 1, at: 0, len: size as usize, pattern: Pattern::Count }),
        finish(1, DMA_BUF_SYNC_READ),
    ]
}

fn write_read_verify_steps(size: u64) -> (r: Vec<Step>)
    ensures
        r@ == write_read_verify(size),
{
    let v: Vec<Step> = vec![
        open_heap(),
        allocate(1, size),
        map_buffer(1),
        begin(1, DMA_BUF_SYNC_WRITE),
        must(Op::Fill { buf: 1, at: 0, len: size as usize, pattern: Pattern::Count }),
        finish(1, DMA_BUF_SYNC_WRITE),
        begin(1, DMA_BUF_SYNC_READ),
        must(Op::Holds { buf: 1, at: 0, len: size as usize, pattern: Pattern::Count }),
        finish(1, DMA_BUF_SYNC_READ),
    ];
    assert(v@ =~= write_read_verify(size));
    v
}

/// What is written is read again.
pub fn test_write_read_verify<B: HeapBackend + DmaBufBackend + ContainerBackend>(
    backend: &mut B,
    heap: &str,
    size: u64,
) -> (r: Result<(), Errno>)
    requires
        old(backend).valid(),
    ensures
        final(backend).valid(),
        done_on(*old(backend), write_read_verify(size), heap@, 2, r, *final(backend)),
        final(backend).opened() == old(backend).opened(),
{
    run_on(backend, write_read_verify_steps(size).as_slice(), heap, 2)
}

/// A buffer is filled.
pub open spec fn contaminated(i: usize, size: u64) -> Seq<Step> {
    seq![
        allocate(i, size),
        map_buffer(i),
        begin(i, DMA_BUF_SYNC_WRITE),
        fill(i, size, 0xaa),
        finish(i, DMA_BUF_SYNC_WRITE),
    ]
}

fn contaminated_steps(i: usize, size: u64) -> (r: Vec<Step>)
    ensures
        r@ == contaminated(i, size),
{
    let v: Vec<Step> = vec![
        allocate(i, size),
        map_buffer(i),
        begin(i, DMA_BUF_SYNC_WRITE),
        fill(i, size, 0xaa),
        finish(i, DMA_BUF_SYNC_WRITE),
    ];
    assert(v@ =~= contaminated(i, size));
    v
}

/// Four buffers go.
pub open spec fn released() -> Seq<Step> {
    seq![
        unmap(1),
        shut(1),
        unmap(2),
        shut(2),
        unmap(3),
        shut(3),
        unmap(4),
        shut(4),
    ]
}

fn released_steps() -> (r: Vec<Step>)
    ensures
        r@ == released(),
{
    let v: Vec<Step> = vec![
        unmap(1),
        shut(1),
        unmap(2),
        shut(2),
        unmap(3),
        shut(3),
        unmap(4),
        shut(4),
    ];
    assert(v@ =~= released());
    v
}

/// A new buffer is empty.
pub open spec fn found_clean(size: u64) -> Seq<Step> {
    seq![
        allocate(1, size),
        map_buffer(1),
        begin(1, DMA_BUF_SYNC_READ),
        check(1, size, 0),
        finish(1, DMA_BUF_SYNC_READ),
        unmap(1),
        shut(1),
    ]
}

fn found_clean_steps(size: u64) -> (r: Vec<Step>)
    ensures
        r@ == found_clean(size),
{
    let v: Vec<Step> = vec![
        allocate(1, size),
        map_buffer(1),
        begin(1, DMA_BUF_SYNC_READ),
        check(1, size, 0),
        finish(1, DMA_BUF_SYNC_READ),
        unmap(1),
        shut(1),
    ];
    assert(v@ =~= found_clean(size));
    v
}

/// New buffers are empty, after four were filled and released.
pub open spec fn zero_on_alloc(size: u64) -> Seq<Step> {
    seq![open_heap()] + contaminated(1, size) + contaminated(2, size) + contaminated(3, size)
        + contaminated(4, size) + released() + repeated(found_clean(size), 4)
}

fn zero_on_alloc_steps(size: u64) -> (r: Vec<Step>)
    ensures
        r@ == zero_on_alloc(size),
{
    let mut v: Vec<Step> = vec![open_heap()];
    push_all(&mut v, contaminated_steps(1, size).as_slice());
    push_all(&mut v, contaminated_steps(2, size).as_slice());
    push_all(&mut v, contaminated_steps(3, size).as_slice());
    push_all(&mut v, contaminated_steps(4, size).as_slice());
    push_all(&mut v, released_steps().as_slice());
    push_repeated(&mut v, found_clean_steps(size).as_slice(), 4);
    v
}

/// New buffers are empty, after four were filled and released.
pub fn test_zero_on_alloc<B: HeapBackend + DmaBufBackend + ContainerBackend>(
    backend: &mut B,
    heap: &str,
    size: u64,
) -> (r: Result<(), Errno>)
    requires
        old(backend).valid(),
    ensures
        final(backend).valid(),
        done_on(*old(backend), zero_on_alloc(size), heap@, 5, r, *final(backend)),
        final(backend).opened() == old(backend).opened(),
{
    run_on(backend, zero_on_alloc_steps(size).as_slice(), heap, 5)
}

/// A buffer has the size asked for, in whole units.
pub open spec fn llseek_size(size: u64, granularity: u64) -> Seq<Step> {
    seq![
        open_heap(),
        allocate(1, size),
        size_of(1, Want::Is((aligned(size as nat, granularity as nat) as u64) as i64)),
    ]
}

fn llseek_size_steps(size: u64, granularity: u64) -> (r: Vec<Step>)
    requires
        aligned(size as nat, granularity as nat) <= u64::MAX,
    ensures
        r@ == llseek_size(size, granularity),
{
    let expected: i64 = align_to(size, granularity) as i64;
    let v: Vec<Step> = vec![open_heap(), allocate(1, size), size_of(1, Want::Is(expected))];
    assert(v@ =~= llseek_size(size, granularity));
    v
}

/// A buffer has the size asked for, in whole units.
pub fn test_llseek_size<B: HeapBackend + DmaBufBackend + ContainerBackend>(
    backend: &mut B,
    heap: &str,
    size: u64,
    granularity: u64,
) -> (r: Result<(), Errno>)
    requires
        old(backend).valid(),
        aligned(size as nat, granularity as nat) <= u64::MAX,
    ensures
        final(backend).valid(),
        done_on(*old(backend), llseek_size(size, granularity), heap@, 2, r, *final(backend)),
        final(backend).opened() == old(backend).opened(),
{
    run_on(backend, llseek_size_steps(size, granularity).as_slice(), heap, 2)
}

/// A fence for reading can be exported.
pub open spec fn export_sync_file(size: u64) -> Seq<Step> {
    seq![
        open_heap(),
        allocate(1, size),
        must(Op::Export { to: 2, buf: 1, flags: DMA_BUF_SYNC_READ as u32, checked: true }),
        must(Op::Close { slot: 2 }),
    ]
}

fn export_sync_file_steps(size: u64) -> (r: Vec<Step>)
    ensures
        r@ == export_sync_file(size),
{
    let v: Vec<Step> = vec![
        open_heap(),
        allocate(1, size),
        must(Op::Export { to: 2, buf: 1, flags: DMA_BUF_SYNC_READ as u32, checked: true }),
        must(Op::Close { slot: 2 }),
    ];
    assert(v@ =~= export_sync_file(size));
    v
}

/// A fence for reading can be exported.
pub fn test_export_sync_file<B: HeapBackend + DmaBufBackend + ContainerBackend>(
    backend: &mut B,
    heap: &str,
    size: u64,
) -> (r: Result<(), Errno>)
    requires
        old(backend).valid(),
    ensures
        final(backend).valid(),
        done_on(*old(backend), export_sync_file(size), heap@, 3, r, *final(backend)),
        final(backend).opened() == old(backend).opened(),
{
    run_on(backend, export_sync_file_steps(size).as_slice(), heap, 3)
}

/// An exported fence can be imported.
pub open spec fn import_sync_file(size: u64) -> Seq<Step> {
    seq![
        open_heap(),
        allocate(1, size),
        must(Op::Export { to: 2, buf: 1, flags: DMA_BUF_SYNC_READ as u32, checked: false }),
        must(Op::Import { buf: 1, flags: DMA_BUF_SYNC_READ as u32, fence: 2 }),
        must(Op::Close { slot: 2 }),
    ]
}

fn import_sync_file_steps(size: u64) -> (r: Vec<Step>)
    ensures
        r@ == import_sync_file(size),
{
    let v: Vec<Step> = vec![
        open_heap(),
        allocate(1, size),
        must(Op::Export { to: 2, buf: 1, flags: DMA_BUF_SYNC_READ as u32, checked: false }),
        must(Op::Import { buf: 1, flags: DMA_BUF_SYNC_READ as u32, fence: 2 }),
        must(Op::Close { slot: 2 }),
    ];
    assert(v@ =~= import_sync_file(size));
    v
}

/// An exported fence can be imported.
pub fn test_import_sync_file<B: HeapBackend + DmaBufBackend + ContainerBackend>(
    backend: &mut B,
    heap: &str,
    size: u64,
) -> (r: Result<(), Errno>)
    requires
        old(backend).valid(),
    ensures
        final(backend).valid(),
        done_on(*old(backend), import_sync_file(size), heap@, 3, r, *final(backend)),
        final(backend).opened() == old(backend).opened(),
{
    run_on(backend, import_sync_file_steps(size).as_slice(), heap, 3)
}

/// A duplicate keeps its size after the original is closed.
pub open spec fn dup_survives_close(size: u64) -> Seq<Step> {
    seq![
        open_heap(),
        allocate(1, size),
        size_of(1, Want::Keep),
        must(Op::Dup { to: 2, buf: 1 }),
        unmap(1),
        shut(1),
        size_of(2, Want::Kept),
    ]
}

fn dup_survives_close_steps(size: u64) -> (r: Vec<Step>)
    ensures
        r@ == dup_survives_close(size),
{
    let v: Vec<Step> = vec![
        open_heap(),
        allocate(1, size),
        size_of(1, Want::Keep),
        must(Op::Dup { to: 2, buf: 1 }),
        unmap(1),
        shut(1),
        size_of(2, Want::Kept),
    ];
    assert(v@ =~= dup_survives_close(size));
    v
}

/// A duplicate keeps its size after the original is closed.
pub fn test_dup_survives_close<B: HeapBackend + DmaBufBackend + ContainerBackend>(
    backend: &mut B,
    heap: &str,
    size: u64,
) -> (r: Result<(), Errno>)
    requires
        old(backend).valid(),
    ensures
        final(backend).valid(),
        done_on(*old(backend), dup_survives_close(size), heap@, 3, r, *final(backend)),
        final(backend).opened() == old(backend).opened(),
{
    run_on(backend, dup_survives_close_steps(size).as_slice(), heap, 3)
}

/// The tests of one size. What needs a mapping is skipped where there is none.
pub open spec fn size_plan(size: u64, can_mmap: bool, granularity: u64) -> Seq<Plan> {
    let label = size_label(size as nat);
    seq![
        Plan { name: label + "::alloc_close"@, steps: alloc_close(size), slots: 2, skip: false },
        Plan { name: label + "::write_read_verify"@, steps: write_read_verify(size), slots: 2, skip: !can_mmap },
        Plan { name: label + "::zero_on_alloc"@, steps: zero_on_alloc(size), slots: 5, skip: !can_mmap },
        Plan { name: label + "::llseek_size"@, steps: llseek_size(size, granularity), slots: 2, skip: false },
        Plan { name: label + "::export_sync_file"@, steps: export_sync_file(size), slots: 3, skip: false },
        Plan { name: label + "::import_sync_file"@, steps: import_sync_file(size), slots: 3, skip: false },
        Plan { name: label + "::dup_survives_close"@, steps: dup_survives_close(size), slots: 3, skip: false },
    ]
}

/// The tests of all sizes, one size after the other.
pub open spec fn basic_plan(sizes: Seq<u64>, can_mmap: bool, granularity: u64) -> Seq<Plan>
    decreases sizes.len(),
{
    if sizes.len() == 0 {
        Seq::empty()
    } else {
        basic_plan(sizes.drop_last(), can_mmap, granularity) + size_plan(
            sizes.last(),
            can_mmap,
            granularity,
        )
    }
}

fn labelled(label: &str, name: &str) -> (s: String)
    ensures
        s@ == label@ + name@,
{
    broadcast use group_concat;

    let mut s = String::new();
    s.append(label);
    s.append(name);
    s
}

fn push_size_plan(v: &mut Vec<Planned>, size: u64, can_mmap: bool, granularity: u64)
    requires
        aligned(size as nat, granularity as nat) <= u64::MAX,
    ensures
        plans(final(v)@) == plans(old(v)@) + size_plan(size, can_mmap, granularity),
{
    let ghost before = plans(v@);
    let text = format_size_label(size);
    let label: &str = text.as_str();
    v.push(planned(labelled(label, "::alloc_close").as_str(), alloc_close_steps(size), 2, false));
    v.push(planned(labelled(label, "::write_read_verify").as_str(), write_read_verify_steps(size), 2, !can_mmap));
    v.push(planned(labelled(label, "::zero_on_alloc").as_str(), zero_on_alloc_steps(size), 5, !can_mmap));
    v.push(planned(labelled(label, "::llseek_size").as_str(), llseek_size_steps(size, granularity), 2, false));
    v.push(planned(labelled(label, "::export_sync_file").as_str(), export_sync_file_steps(size), 3, false));
    v.push(planned(labelled(label, "::import_sync_file").as_str(), import_sync_file_steps(size), 3, false));
    v.push(planned(labelled(label, "::dup_survives_close").as_str(), dup_survives_close_steps(size), 3, false));
    assert(plans(v@) =~= before + size_plan(size, can_mmap, granularity));
}

fn basic_plan_list(sizes: &[u64], can_mmap: bool, granularity: u64) -> (r: Vec<Planned>)
    requires
        forall|i: int|
            0 <= i < sizes@.len() ==> aligned(#[trigger] sizes@[i] as nat, granularity as nat)
                <= u64::MAX,
    ensures
        plans(r@) == basic_plan(sizes@, can_mmap, granularity),
{
    let mut v: Vec<Planned> = Vec::new();
    let mut i: usize = 0;
    assert(sizes@.take(0) =~= Seq::empty());
    assert(plans(v@) =~= Seq::empty());
    while i < sizes.len()
        invariant
            i <= sizes@.len(),
            forall|i: int|
                0 <= i < sizes@.len() ==> aligned(#[trigger] sizes@[i] as nat, granularity as nat)
                    <= u64::MAX,
            plans(v@) == basic_plan(sizes@.take(i as int), can_mmap, granularity),
        decreases sizes@.len() - i,
    {
        push_size_plan(&mut v, sizes[i], can_mmap, granularity);
        assert(sizes@.take(i + 1).drop_last() =~= sizes@.take(i as int));
        i = i + 1;
    }
    assert(sizes@.take(sizes@.len() as int) =~= sizes@);
    v
}

/// Runs the tests of all sizes on a heap.
pub fn run<B: HeapBackend + DmaBufBackend + ContainerBackend>(
    backend: &mut B,
    heap: &str,
    sizes: &[u64],
    can_mmap: bool,
    granularity: u64,
) -> (r: (Vec<SubTestResult>, Option<String>))
    requires
        old(backend).valid(),
        forall|i: int|
            0 <= i < sizes@.len() ==> aligned(#[trigger] sizes@[i] as nat, granularity as nat)
                <= u64::MAX,
    ensures
        final(backend).valid(),
        final(backend).opened() == old(backend).opened(),
        suite_told(
            *old(backend),
            "basic"@,
            basic_plan(sizes@, can_mmap, granularity),
            seq![heap@],
            r.0@,
            r.1,
            *final(backend),
        ),
{
    let names: [&str; 1] = [heap];
    assert(strs(names@) =~= seq![heap@]);
    run_suite(backend, "basic", &names, &basic_plan_list(sizes, can_mmap, granularity))
}

} // verus!
