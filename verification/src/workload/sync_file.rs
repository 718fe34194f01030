//! Tests of fences.
use crate::backend::ioctl::{Errno, DMA_BUF_SYNC_READ, DMA_BUF_SYNC_RW, DMA_BUF_SYNC_WRITE};
use crate::backend::protocol::{ContainerBackend, DmaBufBackend, HeapBackend};
use crate::bench::pressure::SubTestResult;
use crate::order::strs;

use crate::workload::script::{allocate, done_on, open_heap, run_on};
use crate::workload::step::{must, Op, Step};
use crate::workload::suite::{plans, planned, run_suite, suite_told, Plan, Planned};
use vstd::prelude::*;

verus! {

/// The size of the buffers.
pub const SYNC_FILE_SIZE: u64 = 4096;

/// A fence can be exported for each direction.
pub open spec fn export_each_direction() -> Seq<Step> {
    seq![
        open_heap(),
        allocate(1, SYNC_FILE_SIZE),
        must(Op::Export { to: 2, buf: 1, flags: DMA_BUF_SYNC_READ as u32, checked: true }),
        must(Op::Export { to: 3, buf: 1, flags: DMA_BUF_SYNC_WRITE as u32, checked: true }),
        must(Op::Export { to: 4, buf: 1, flags: DMA_BUF_SYNC_RW as u32, checked: true }),
    ]
}

fn export_each_direction_steps() -> (r: Vec<Step>)
    ensures
        r@ == export_each_direction(),
{
    let v: Vec<Step> = vec![
        open_heap(),
        allocate(1, SYNC_FILE_SIZE),
        must(Op::Export { to: 2, buf: 1, flags: DMA_BUF_SYNC_READ as u32, checked: true }),
        must(Op::Export { to: 3, buf: 1, flags: DMA_BUF_SYNC_WRITE as u32, checked: true }),
        must(Op::Export { to: 4, buf: 1, flags: DMA_BUF_SYNC_RW as u32, checked: true }),
    ];
    assert(v@ =~= export_each_direction());
    v
}

/// A fence can be exported for each direction.
pub fn test_export_sync_file<B: HeapBackend + DmaBufBackend + ContainerBackend>(
    backend: &mut B,
    heap: &str,
) -> (r: Result<(), Errno>)
    requires
        old(backend).valid(),
    ensures
        final(backend).valid(),
        done_on(*old(backend), export_each_direction(), heap@, 5, r, *final(backend)),
        final(backend).opened() == old(backend).opened(),
{
    run_on(backend, export_each_direction_steps().as_slice(), heap, 5)
}

/// An exported fence can be imported.
pub open spec fn export_and_import() -> Seq<Step> {
    seq![
        open_heap(),
        allocate(1, SYNC_FILE_SIZE),
        must(Op::Export { to: 2, buf: 1, flags: DMA_BUF_SYNC_READ as u32, checked: false }),
        must(Op::Import { buf: 1, flags: DMA_BUF_SYNC_READ as u32, fence: 2 }),
    ]
}

fn export_and_import_steps() -> (r: Vec<Step>)
    ensures
        r@ == export_and_import(),
{
    let v: Vec<Step> = vec![
        open_heap(),
        allocate(1, SYNC_FILE_SIZE),
        must(Op::Export { to: 2, buf: 1, flags: DMA_BUF_SYNC_READ as u32, checked: false }),
        must(Op::Import { buf: 1, flags: DMA_BUF_SYNC_READ as u32, fence: 2 }),
    ];
    assert(v@ =~= export_and_import());
    v
}

/// An exported fence can be imported.
pub fn test_import_sync_file<B: HeapBackend + DmaBufBackend + ContainerBackend>(
    backend: &mut B,
    heap: &str,
) -> (r: Result<(), Errno>)
    requires
        old(backend).valid(),
    ensures
        final(backend).valid(),
        done_on(*old(backend), export_and_import(), heap@, 3, r, *final(backend)),
        final(backend).opened() == old(backend).opened(),
{
    run_on(backend, export_and_import_steps().as_slice(), heap, 3)
}

/// Both tests of fences.
pub open spec fn sync_file_plan() -> Seq<Plan> {
    seq![
        Plan { name: "export_sync_file"@, steps: export_each_direction(), slots: 5, skip: false },
        Plan { name: "import_sync_file"@, steps: export_and_import(), slots: 3, skip: false },
    ]
}

fn sync_file_plan_list() -> (r: Vec<Planned>)
    ensures
        plans(r@) == sync_file_plan(),
{
    let mut v: Vec<Planned> = Vec::new();
    v.push(planned("export_sync_file", export_each_direction_steps(), 5, false));
    v.push(planned("import_sync_file", export_and_import_steps(), 3, false));
    assert(plans(v@) =~= sync_file_plan());
    v
}

/// Runs the tests of fences on a heap.
pub fn run<B: HeapBackend + DmaBufBackend + ContainerBackend>(
    backend: &mut B,
    heap: &str,
) -> (r: (Vec<SubTestResult>, Option<String>))
    requires
        old(backend).valid(),
    ensures
        final(backend).valid(),
        final(backend).opened() == old(backend).opened(),
        suite_told(
            *old(backend),
            "sync_file"@,
            sync_file_plan(),
            seq![heap@],
            r.0@,
            r.1,
            *final(backend),
        ),
{
    let names: [&str; 1] = [heap];
    assert(strs(names@) =~= seq![heap@]);
    run_suite(backend, "sync_file", &names, &sync_file_plan_list())
}

} // verus!
