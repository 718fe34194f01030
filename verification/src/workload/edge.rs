//! Tests of what is rare: several at once, duplicates.
use crate::backend::ioctl::{Errno, DMA_BUF_SYNC_READ, DMA_BUF_SYNC_WRITE, DMA_HEAP_VALID_FD_FLAGS, DMA_HEAP_VALID_HEAP_FLAGS};
use crate::backend::protocol::{Answers, ContainerBackend, DmaBufBackend, HeapBackend};
use crate::bench::pressure::{outcomes, SubTestResult};
use crate::scenario::pipeline::check_failures;
use crate::workload::script::{begin, check, done_on, fill, finish, map_buffer, open_heap, run_on, shut, unmap};
use crate::workload::step::{must, Op, Step};
use crate::workload::suite::{
    all_told, collect_test_results, first_failure, maybe_text, results_of, tested,
};
use vstd::prelude::*;

verus! {

/// The size of the buffers.
pub const EDGE_ALLOC_SIZE: u64 = 4096;

/// One of several at once writes a byte of its own and reads it again.
pub open spec fn own_pattern(byte: u8) -> Seq<Step> {
    seq![
        open_heap(),
        must(Op::Allocate { to: 1, heap: 0, len: EDGE_ALLOC_SIZE, fd_flags: DMA_HEAP_VALID_FD_FLAGS, heap_flags: DMA_HEAP_VALID_HEAP_FLAGS, shown: EDGE_ALLOC_SIZE as usize }),
        map_buffer(1),
        begin(1, DMA_BUF_SYNC_WRITE),
        fill(1, EDGE_ALLOC_SIZE, byte),
        finish(1, DMA_BUF_SYNC_WRITE),
        begin(1, DMA_BUF_SYNC_READ),
        check(1, EDGE_ALLOC_SIZE, byte),
        finish(1, DMA_BUF_SYNC_READ),
    ]
}

fn own_pattern_steps(byte: u8) -> (r: Vec<Step>)
    ensures
        r@ == own_pattern(byte),
{
    let v: Vec<Step> = vec![
        open_heap(),
        must(Op::Allocate { to: 1, heap: 0, len: EDGE_ALLOC_SIZE, fd_flags: DMA_HEAP_VALID_FD_FLAGS, heap_flags: DMA_HEAP_VALID_HEAP_FLAGS, shown: EDGE_ALLOC_SIZE as usize }),
        map_buffer(1),
        begin(1, DMA_BUF_SYNC_WRITE),
        fill(1, EDGE_ALLOC_SIZE, byte),
        finish(1, DMA_BUF_SYNC_WRITE),
        begin(1, DMA_BUF_SYNC_READ),
        check(1, EDGE_ALLOC_SIZE, byte),
        finish(1, DMA_BUF_SYNC_READ),
    ];
    assert(v@ =~= own_pattern(byte));
    v
}

/// One of several at once writes a byte of its own and reads it again.
pub fn worker_alloc<B: HeapBackend + DmaBufBackend + ContainerBackend>(
    backend: &mut B,
    heap: &str,
    byte: u8,
) -> (r: Result<(), Errno>)
    requires
        old(backend).valid(),
    ensures
        final(backend).valid(),
        done_on(*old(backend), own_pattern(byte), heap@, 2, r, *final(backend)),
        final(backend).opened() == old(backend).opened(),
{
    run_on(backend, own_pattern_steps(byte).as_slice(), heap, 2)
}

/// What is written is read through a duplicate, after the original is closed.
pub open spec fn dup_data() -> Seq<Step> {
    seq![
        open_heap(),
        must(Op::Allocate { to: 1, heap: 0, len: EDGE_ALLOC_SIZE, fd_flags: DMA_HEAP_VALID_FD_FLAGS, heap_flags: DMA_HEAP_VALID_HEAP_FLAGS, shown: EDGE_ALLOC_SIZE as usize }),
        map_buffer(1),
        begin(1, DMA_BUF_SYNC_WRITE),
        fill(1, EDGE_ALLOC_SIZE, 0xbb),
        finish(1, DMA_BUF_SYNC_WRITE),
        must(Op::Dup { to: 2, buf: 1 }),
        unmap(1),
        shut(1),
        map_buffer(2),
        begin(2, DMA_BUF_SYNC_READ),
        check(2, EDGE_ALLOC_SIZE, 0xbb),
        finish(2, DMA_BUF_SYNC_READ),
    ]
}

fn dup_data_steps() -> (r: Vec<Step>)
    ensures
        r@ == dup_data(),
{
    let v: Vec<Step> = vec![
        open_heap(),
        must(Op::Allocate { to: 1, heap: 0, len: EDGE_ALLOC_SIZE, fd_flags: DMA_HEAP_VALID_FD_FLAGS, heap_flags: DMA_HEAP_VALID_HEAP_FLAGS, shown: EDGE_ALLOC_SIZE as usize }),
        map_buffer(1),
        begin(1, DMA_BUF_SYNC_WRITE),
        fill(1, EDGE_ALLOC_SIZE, 0xbb),
        finish(1, DMA_BUF_SYNC_WRITE),
        must(Op::Dup { to: 2, buf: 1 }),
        unmap(1),
        shut(1),
        map_buffer(2),
        begin(2, DMA_BUF_SYNC_READ),
        check(2, EDGE_ALLOC_SIZE, 0xbb),
        finish(2, DMA_BUF_SYNC_READ),
    ];
    assert(v@ =~= dup_data());
    v
}

/// What is written is read through a duplicate, after the original is closed.
pub fn test_dup_fd<B: HeapBackend + DmaBufBackend + ContainerBackend>(
    backend: &mut B,
    heap: &str,
) -> (r: Result<(), Errno>)
    requires
        old(backend).valid(),
    ensures
        final(backend).valid(),
        done_on(*old(backend), dup_data(), heap@, 3, r, *final(backend)),
        final(backend).opened() == old(backend).opened(),
{
    run_on(backend, dup_data_steps().as_slice(), heap, 3)
}

/// How many of several at once fail, each with a byte of its own.
pub fn failed_workers<B: HeapBackend + DmaBufBackend + ContainerBackend>(
    backend: &mut B,
    heap: &str,
    threads: u32,
) -> (failures: u32)
    requires
        old(backend).valid(),
    ensures
        final(backend).valid(),
        worked(*old(backend), heap@, threads as nat, failures as nat, *final(backend)),
        final(backend).opened() == old(backend).opened(),
{
    let ghost a = *backend;
    let mut failures: u32 = 0;
    let mut i: u32 = 0;
    while i < threads
        invariant
            i <= threads,
            failures <= i,
            backend.valid(),
            backend.opened() == a.opened(),
            worked(a, heap@, i as nat, failures as nat, *backend),
        decreases threads - i,
    {
        let ghost before = *backend;
        let r = worker_alloc(backend, heap, (i % 256) as u8);
        let ghost failed = failures as nat;
        if r.is_err() {
            failures = failures + 1;
        }
        i = i + 1;
        proof {
            let n = i as nat;
            assert(own_pattern(((n - 1) % 256) as u8) == own_pattern(((i - 1) % 256) as u8));
            assert(done_on(before, own_pattern(((n - 1) % 256) as u8), heap@, 2, r, *backend));
            assert(worked(a, heap@, (n - 1) as nat, failed, before));
        }
    }
    failures
}

/// Whether so many workers, one after the other, lead from one backend to another, and
/// so many of them fail.
pub open spec fn worked<B: Answers>(a: B, heap: Seq<char>, n: nat, failures: nat, b: B) -> bool
    decreases n,
{
    if n == 0 {
        failures == 0 && b == a
    } else {
        exists|m: B, r: Result<(), Errno>|
            #![trigger done_on(m, own_pattern(((n - 1) % 256) as u8), heap, 2, r, b)]
            done_on(m, own_pattern(((n - 1) % 256) as u8), heap, 2, r, b) && worked(
                a,
                heap,
                (n - 1) as nat,
                (failures - if r is Err {
                    1int
                } else {
                    0
                }) as nat,
                m,
            ) && (r is Err ==> failures > 0)
    }
}

/// Whether so many workers lead from one backend to another: any failure is an
/// input/output error.
pub open spec fn all_worked<B: Answers>(
    a: B,
    heap: Seq<char>,
    n: nat,
    r: Result<(), Errno>,
    b: B,
) -> bool {
    exists|failures: nat| #[trigger]
        worked(a, heap, n, failures, b) && r == if failures > 0 {
            Err::<(), Errno>(Errno::EIO)
        } else {
            Ok(())
        }
}

/// Several at once: any failure is an input/output error. Here they take their turns.
pub fn test_concurrent_alloc<B: HeapBackend + DmaBufBackend + ContainerBackend>(
    backend: &mut B,
    heap: &str,
    threads: u32,
) -> (r: Result<(), Errno>)
    requires
        old(backend).valid(),
    ensures
        final(backend).valid(),
        all_worked(*old(backend), heap@, threads as nat, r, *final(backend)),
        final(backend).opened() == old(backend).opened(),
{
    let failures: u32 = failed_workers(backend, heap, threads);
    assert(worked(*old(backend), heap@, threads as nat, failures as nat, *backend));
    check_failures(failures as usize)
}

/// The names that a buffer is given: a short one, and one as long as a name can be.
pub fn buffer_names() -> (v: (&'static str, &'static str))
    ensures
        v.0@ == "test_buffer"@,
        v.1@ == "aaaaaaaaaaaaaaaaaaaaaaaaaaaaaaaa"@,
        v.1@ == Seq::new(32, |i: int| 'a'),
{
    proof {
        reveal_strlit("aaaaaaaaaaaaaaaaaaaaaaaaaaaaaaaa");
        assert("aaaaaaaaaaaaaaaaaaaaaaaaaaaaaaaa"@ =~= Seq::new(32, |i: int| 'a'));
    }
    ("test_buffer", "aaaaaaaaaaaaaaaaaaaaaaaaaaaaaaaa")
}

/// The results of all tests of what is rare.
pub open spec fn edge_results(
    alloc: Result<(), Errno>,
    dup: Result<(), Errno>,
    name: Result<(), Errno>,
) -> Seq<(&'static str, Result<(), Errno>, bool)> {
    seq![("concurrent_alloc", alloc, false), ("dup_fd", dup, false), ("set_name", name, false)]
}

/// Whether the tests of what is rare, one after the other, lead from one backend to
/// another, with what is told of them.
pub open spec fn edge_told<B: Answers>(
    a: B,
    heap: Seq<char>,
    threads: nat,
    name: Result<(), Errno>,
    told_of: Seq<SubTestResult>,
    first: Option<String>,
    b: B,
) -> bool {
    exists|m: B, r1: Result<(), Errno>, r2: Result<(), Errno>|
        #![trigger all_worked(a, heap, threads, r1, m), done_on(m, dup_data(), heap, 3, r2, b)]
        {
            let tests = edge_results(r1, r2, name);
            &&& all_worked(a, heap, threads, r1, m)
            &&& done_on(m, dup_data(), heap, 3, r2, b)
            &&& outcomes(told_of) == all_told(tested(tests), results_of(tests))
            &&& maybe_text(first) == first_failure("edge"@, tested(tests), results_of(tests))
        }
}

/// Tells of each test of what is rare, and of the first that failed.
pub fn tell(alloc: Result<(), Errno>, dup: Result<(), Errno>, set_name: Result<(), Errno>) -> (r: (
    Vec<SubTestResult>,
    Option<String>,
))
    ensures
        ({
            let tests = edge_results(alloc, dup, set_name);
            &&& outcomes(r.0@) == all_told(tested(tests), results_of(tests))
            &&& maybe_text(r.1) == first_failure("edge"@, tested(tests), results_of(tests))
        }),
{
    let tests: [(&'static str, Result<(), Errno>, bool); 3] = [
        ("concurrent_alloc", alloc, false),
        ("dup_fd", dup, false),
        ("set_name", set_name, false),
    ];
    assert(tests@ =~= edge_results(alloc, dup, set_name));
    collect_test_results("edge", &tests)
}

/// Runs all tests of what is rare, even if some fail, and tells of each. `set_name` is
/// what came of naming a buffer, which is no call of a backend.
pub fn run<B: HeapBackend + DmaBufBackend + ContainerBackend>(
    backend: &mut B,
    heap: &str,
    threads: u32,
    set_name: Result<(), Errno>,
) -> (r: (Vec<SubTestResult>, Option<String>))
    requires
        old(backend).valid(),
    ensures
        final(backend).valid(),
        final(backend).opened() == old(backend).opened(),
        edge_told(
            *old(backend),
            heap@,
            threads as nat,
            set_name,
            r.0@,
            r.1,
            *final(backend),
        ),
{
    let ghost a = *backend;
    let all = test_concurrent_alloc(backend, heap, threads);
    let ghost m = *backend;
    let dup = test_dup_fd(backend, heap);
    proof {
        assert(all_worked(a, heap@, threads as nat, all, m));
        assert(done_on(m, dup_data(), heap@, 3, dup, *backend));
    }
    tell(all, dup, set_name)
}

} // verus!
