//! Workloads that time one operation.
use crate::backend::ioctl::{
    Errno, DMA_BUF_SYNC_READ, DMA_BUF_SYNC_WRITE, SEEK_END, SEEK_SET,
};
use crate::backend::protocol::{Answers, ContainerBackend, DmaBufBackend, HeapBackend};
use crate::bench::op::{flags_of, Op as Measured};
use crate::workload::run::{of_channel, Run};
use crate::workload::script::{
    allocate, begin, fill, finish, map_buffer, open_heap, push_all, push_repeated, repeated,
    run_timed, shut, timed_on, unmap,
};
use crate::workload::step::{must, Op, Step, Want};
use crate::workload::times::{
    all_go_on, goes_on, law_all_times_noted, lemma_go_on_sum, lemma_noted_repeated,
    lemma_noted_sum, lemma_occurrences_sum, lemma_repeated_go_on, lemma_times_len, noted_by,
    noted_on, occurrences,
};
use vstd::prelude::*;

verus! {

/// A measurement: what comes before, what is done to warm up, what is timed, over and
/// over, and what comes after.
#[verifier::ext_equal]
pub ghost struct Measurement {
    pub before: Seq<Step>,
    pub warm: Seq<Step>,
    pub body: Seq<Step>,
    pub behind: Seq<Step>,
}

/// The steps of a measurement.
pub open spec fn measured(m: Measurement, warmup: nat, iterations: nat) -> Seq<Step> {
    m.before + repeated(m.warm, warmup) + repeated(m.body, iterations) + m.behind
}

struct Parts {
    before: Vec<Step>,
    warm: Vec<Step>,
    body: Vec<Step>,
    behind: Vec<Step>,
}

impl View for Parts {
    type V = Measurement;

    closed spec fn view(&self) -> Measurement {
        Measurement {
            before: self.before@,
            warm: self.warm@,
            body: self.body@,
            behind: self.behind@,
        }
    }
}

fn assembled(p: &Parts, warmup: u32, iterations: u32) -> (v: Vec<Step>)
    ensures
        v@ == measured(p@, warmup as nat, iterations as nat),
{
    let mut v: Vec<Step> = Vec::new();
    push_all(&mut v, p.before.as_slice());
    push_repeated(&mut v, p.warm.as_slice(), warmup);
    push_repeated(&mut v, p.body.as_slice(), iterations);
    push_all(&mut v, p.behind.as_slice());
    assert(Seq::<Step>::empty() + p.before@ =~= p.before@);
    v
}

/// The time of an allocation.
pub open spec fn alloc_time(size: u64) -> Measurement {
    Measurement {
        before: seq![
            open_heap(),
        ],
        warm: seq![
            allocate(1, size),
            must(Op::Close { slot: 1 }),
        ],
        body: seq![
            must(Op::Start),
            allocate(1, size),
            must(Op::Split { channel: 0 }),
            must(Op::Close { slot: 1 }),
        ],
        behind: Seq::<Step>::empty(),
    }
}

fn alloc_parts(size: u64) -> (p: Parts)
    ensures
        p@ == alloc_time(size),
{
    let p = Parts {
        before: vec![
            open_heap(),
        ],
        warm: vec![
            allocate(1, size),
            must(Op::Close { slot: 1 }),
        ],
        body: vec![
            must(Op::Start),
            allocate(1, size),
            must(Op::Split { channel: 0 }),
            must(Op::Close { slot: 1 }),
        ],
        behind: Vec::new(),
    };
    assert(p@ =~= alloc_time(size));
    p
}

/// The time of a mapping.
pub open spec fn mmap_time(size: u64) -> Measurement {
    Measurement {
        before: seq![
            open_heap(),
            allocate(1, size),
        ],
        warm: seq![
            map_buffer(1),
            must(Op::Munmap { buf: 1 }),
        ],
        body: seq![
            must(Op::Start),
            map_buffer(1),
            must(Op::Split { channel: 0 }),
            must(Op::Munmap { buf: 1 }),
        ],
        behind: seq![
            must(Op::Close { slot: 1 }),
        ],
    }
}

fn mmap_parts(size: u64) -> (p: Parts)
    ensures
        p@ == mmap_time(size),
{
    let p = Parts {
        before: vec![
            open_heap(),
            allocate(1, size),
        ],
        warm: vec![
            map_buffer(1),
            must(Op::Munmap { buf: 1 }),
        ],
        body: vec![
            must(Op::Start),
            map_buffer(1),
            must(Op::Split { channel: 0 }),
            must(Op::Munmap { buf: 1 }),
        ],
        behind: vec![
            must(Op::Close { slot: 1 }),
        ],
    };
    assert(p@ =~= mmap_time(size));
    p
}

/// The time of the end of a mapping.
pub open spec fn munmap_time(size: u64) -> Measurement {
    Measurement {
        before: seq![
            open_heap(),
            allocate(1, size),
        ],
        warm: seq![
            map_buffer(1),
            must(Op::Munmap { buf: 1 }),
        ],
        body: seq![
            map_buffer(1),
            must(Op::Start),
            must(Op::Munmap { buf: 1 }),
            must(Op::Split { channel: 0 }),
        ],
        behind: seq![
            must(Op::Close { slot: 1 }),
        ],
    }
}

fn munmap_parts(size: u64) -> (p: Parts)
    ensures
        p@ == munmap_time(size),
{
    let p = Parts {
        before: vec![
            open_heap(),
            allocate(1, size),
        ],
        warm: vec![
            map_buffer(1),
            must(Op::Munmap { buf: 1 }),
        ],
        body: vec![
            map_buffer(1),
            must(Op::Start),
            must(Op::Munmap { buf: 1 }),
            must(Op::Split { channel: 0 }),
        ],
        behind: vec![
            must(Op::Close { slot: 1 }),
        ],
    };
    assert(p@ =~= munmap_time(size));
    p
}

/// The time of the start or the end of an access; the other is done in between.
pub open spec fn sync_time(size: u64, measure: u64, undo: u64) -> Measurement {
    Measurement {
        before: seq![
            open_heap(),
            allocate(1, size),
            map_buffer(1),
        ],
        warm: seq![
            must(Op::Sync { buf: 1, flags: measure }),
            must(Op::Sync { buf: 1, flags: undo }),
        ],
        body: seq![
            must(Op::Sync { buf: 1, flags: undo }),
            must(Op::Start),
            must(Op::Sync { buf: 1, flags: measure }),
            must(Op::Split { channel: 0 }),
        ],
        behind: seq![
            unmap(1),
            shut(1),
        ],
    }
}

fn sync_parts(size: u64, measure: u64, undo: u64) -> (p: Parts)
    ensures
        p@ == sync_time(size, measure, undo),
{
    let p = Parts {
        before: vec![
            open_heap(),
            allocate(1, size),
            map_buffer(1),
        ],
        warm: vec![
            must(Op::Sync { buf: 1, flags: measure }),
            must(Op::Sync { buf: 1, flags: undo }),
        ],
        body: vec![
            must(Op::Sync { buf: 1, flags: undo }),
            must(Op::Start),
            must(Op::Sync { buf: 1, flags: measure }),
            must(Op::Split { channel: 0 }),
        ],
        behind: vec![
            unmap(1),
            shut(1),
        ],
    };
    assert(p@ =~= sync_time(size, measure, undo));
    p
}

/// The time of a close.
pub open spec fn close_time(size: u64) -> Measurement {
    Measurement {
        before: seq![
            open_heap(),
        ],
        warm: seq![
            allocate(1, size),
            must(Op::Close { slot: 1 }),
        ],
        body: seq![
            allocate(1, size),
            must(Op::Start),
            must(Op::Close { slot: 1 }),
            must(Op::Split { channel: 0 }),
        ],
        behind: Seq::<Step>::empty(),
    }
}

fn close_parts(size: u64) -> (p: Parts)
    ensures
        p@ == close_time(size),
{
    let p = Parts {
        before: vec![
            open_heap(),
        ],
        warm: vec![
            allocate(1, size),
            must(Op::Close { slot: 1 }),
        ],
        body: vec![
            allocate(1, size),
            must(Op::Start),
            must(Op::Close { slot: 1 }),
            must(Op::Split { channel: 0 }),
        ],
        behind: Vec::new(),
    };
    assert(p@ =~= close_time(size));
    p
}

/// The time of a duplication.
pub open spec fn dup_time(size: u64) -> Measurement {
    Measurement {
        before: seq![
            open_heap(),
            allocate(1, size),
        ],
        warm: seq![
            must(Op::Dup { to: 2, buf: 1 }),
            must(Op::Close { slot: 2 }),
        ],
        body: seq![
            must(Op::Start),
            must(Op::Dup { to: 2, buf: 1 }),
            must(Op::Split { channel: 0 }),
            must(Op::Close { slot: 2 }),
        ],
        behind: seq![
            must(Op::Close { slot: 1 }),
        ],
    }
}

fn dup_parts(size: u64) -> (p: Parts)
    ensures
        p@ == dup_time(size),
{
    let p = Parts {
        before: vec![
            open_heap(),
            allocate(1, size),
        ],
        warm: vec![
            must(Op::Dup { to: 2, buf: 1 }),
            must(Op::Close { slot: 2 }),
        ],
        body: vec![
            must(Op::Start),
            must(Op::Dup { to: 2, buf: 1 }),
            must(Op::Split { channel: 0 }),
            must(Op::Close { slot: 2 }),
        ],
        behind: vec![
            must(Op::Close { slot: 1 }),
        ],
    };
    assert(p@ =~= dup_time(size));
    p
}

/// The time of a seek.
pub open spec fn llseek_time(size: u64) -> Measurement {
    Measurement {
        before: seq![
            open_heap(),
            allocate(1, size),
        ],
        warm: seq![
            must(Op::Seek { buf: 1, offset: 0, whence: SEEK_END, want: Want::Any }),
            must(Op::Seek { buf: 1, offset: 0, whence: SEEK_SET, want: Want::Any }),
        ],
        body: seq![
            must(Op::Start),
            must(Op::Seek { buf: 1, offset: 0, whence: SEEK_END, want: Want::Any }),
            must(Op::Split { channel: 0 }),
            must(Op::Seek { buf: 1, offset: 0, whence: SEEK_SET, want: Want::Any }),
        ],
        behind: seq![
            must(Op::Close { slot: 1 }),
        ],
    }
}

fn llseek_parts(size: u64) -> (p: Parts)
    ensures
        p@ == llseek_time(size),
{
    let p = Parts {
        before: vec![
            open_heap(),
            allocate(1, size),
        ],
        warm: vec![
            must(Op::Seek { buf: 1, offset: 0, whence: SEEK_END, want: Want::Any }),
            must(Op::Seek { buf: 1, offset: 0, whence: SEEK_SET, want: Want::Any }),
        ],
        body: vec![
            must(Op::Start),
            must(Op::Seek { buf: 1, offset: 0, whence: SEEK_END, want: Want::Any }),
            must(Op::Split { channel: 0 }),
            must(Op::Seek { buf: 1, offset: 0, whence: SEEK_SET, want: Want::Any }),
        ],
        behind: vec![
            must(Op::Close { slot: 1 }),
        ],
    };
    assert(p@ =~= llseek_time(size));
    p
}

/// The time of the export of a fence.
pub open spec fn export_time(size: u64) -> Measurement {
    Measurement {
        before: seq![
            open_heap(),
            allocate(1, size),
        ],
        warm: seq![
            must(Op::Export { to: 2, buf: 1, flags: DMA_BUF_SYNC_READ as u32, checked: false }),
            must(Op::Close { slot: 2 }),
        ],
        body: seq![
            must(Op::Start),
            must(Op::Export { to: 2, buf: 1, flags: DMA_BUF_SYNC_READ as u32, checked: false }),
            must(Op::Split { channel: 0 }),
            must(Op::Close { slot: 2 }),
        ],
        behind: seq![
            unmap(1),
            shut(1),
        ],
    }
}

fn export_parts(size: u64) -> (p: Parts)
    ensures
        p@ == export_time(size),
{
    let p = Parts {
        before: vec![
            open_heap(),
            allocate(1, size),
        ],
        warm: vec![
            must(Op::Export { to: 2, buf: 1, flags: DMA_BUF_SYNC_READ as u32, checked: false }),
            must(Op::Close { slot: 2 }),
        ],
        body: vec![
            must(Op::Start),
            must(Op::Export { to: 2, buf: 1, flags: DMA_BUF_SYNC_READ as u32, checked: false }),
            must(Op::Split { channel: 0 }),
            must(Op::Close { slot: 2 }),
        ],
        behind: vec![
            unmap(1),
            shut(1),
        ],
    };
    assert(p@ =~= export_time(size));
    p
}

/// The time of the import of a fence.
pub open spec fn import_time(size: u64) -> Measurement {
    Measurement {
        before: seq![
            open_heap(),
            allocate(1, size),
        ],
        warm: seq![
            must(Op::Export { to: 2, buf: 1, flags: DMA_BUF_SYNC_READ as u32, checked: false }),
            must(Op::Import { buf: 1, flags: DMA_BUF_SYNC_READ as u32, fence: 2 }),
            shut(2),
        ],
        body: seq![
            must(Op::Export { to: 2, buf: 1, flags: DMA_BUF_SYNC_READ as u32, checked: false }),
            must(Op::Start),
            must(Op::Import { buf: 1, flags: DMA_BUF_SYNC_READ as u32, fence: 2 }),
            must(Op::Split { channel: 0 }),
            shut(2),
        ],
        behind: seq![
            unmap(1),
            shut(1),
        ],
    }
}

fn import_parts(size: u64) -> (p: Parts)
    ensures
        p@ == import_time(size),
{
    let p = Parts {
        before: vec![
            open_heap(),
            allocate(1, size),
        ],
        warm: vec![
            must(Op::Export { to: 2, buf: 1, flags: DMA_BUF_SYNC_READ as u32, checked: false }),
            must(Op::Import { buf: 1, flags: DMA_BUF_SYNC_READ as u32, fence: 2 }),
            shut(2),
        ],
        body: vec![
            must(Op::Export { to: 2, buf: 1, flags: DMA_BUF_SYNC_READ as u32, checked: false }),
            must(Op::Start),
            must(Op::Import { buf: 1, flags: DMA_BUF_SYNC_READ as u32, fence: 2 }),
            must(Op::Split { channel: 0 }),
            shut(2),
        ],
        behind: vec![
            unmap(1),
            shut(1),
        ],
    };
    assert(p@ =~= import_time(size));
    p
}

/// The time from the allocation of a buffer to its close, with a write and a read.
pub open spec fn pipeline_time(size: u64) -> Measurement {
    Measurement {
        before: seq![
            open_heap(),
        ],
        warm: seq![
            allocate(1, size),
            map_buffer(1),
            begin(1, DMA_BUF_SYNC_WRITE),
            fill(1, size, 0xaa),
            finish(1, DMA_BUF_SYNC_WRITE),
            begin(1, DMA_BUF_SYNC_READ),
            finish(1, DMA_BUF_SYNC_READ),
            unmap(1),
            shut(1),
        ],
        body: seq![
            must(Op::Start),
            allocate(1, size),
            map_buffer(1),
            begin(1, DMA_BUF_SYNC_WRITE),
            fill(1, size, 0xaa),
            finish(1, DMA_BUF_SYNC_WRITE),
            begin(1, DMA_BUF_SYNC_READ),
            finish(1, DMA_BUF_SYNC_READ),
            unmap(1),
            shut(1),
            must(Op::Split { channel: 0 }),
        ],
        behind: Seq::<Step>::empty(),
    }
}

fn pipeline_parts(size: u64) -> (p: Parts)
    ensures
        p@ == pipeline_time(size),
{
    let p = Parts {
        before: vec![
            open_heap(),
        ],
        warm: vec![
            allocate(1, size),
            map_buffer(1),
            begin(1, DMA_BUF_SYNC_WRITE),
            fill(1, size, 0xaa),
            finish(1, DMA_BUF_SYNC_WRITE),
            begin(1, DMA_BUF_SYNC_READ),
            finish(1, DMA_BUF_SYNC_READ),
            unmap(1),
            shut(1),
        ],
        body: vec![
            must(Op::Start),
            allocate(1, size),
            map_buffer(1),
            begin(1, DMA_BUF_SYNC_WRITE),
            fill(1, size, 0xaa),
            finish(1, DMA_BUF_SYNC_WRITE),
            begin(1, DMA_BUF_SYNC_READ),
            finish(1, DMA_BUF_SYNC_READ),
            unmap(1),
            shut(1),
            must(Op::Split { channel: 0 }),
        ],
        behind: Vec::new(),
    };
    assert(p@ =~= pipeline_time(size));
    p
}

/// The measurement of an operation.
pub open spec fn measurement_of(op: Measured, size: u64) -> Measurement {
    match flags_of(op) {
        Some(f) => sync_time(size, f.0, f.1),
        None => match op {
            Measured::Alloc => alloc_time(size),
            Measured::Mmap => mmap_time(size),
            Measured::Munmap => munmap_time(size),
            Measured::Close => close_time(size),
            Measured::Dup => dup_time(size),
            Measured::Llseek => llseek_time(size),
            Measured::ExportSyncFile => export_time(size),
            Measured::ImportSyncFile => import_time(size),
            Measured::Pipeline => pipeline_time(size),
            _ => pipeline_time(size),
        },
    }
}

fn parts_of(op: Measured, size: u64) -> (p: Parts)
    ensures
        p@ == measurement_of(op, size),
{
    match op.sync_flags() {
        Some((measure, undo)) => sync_parts(size, measure, undo),
        None => match op {
            Measured::Alloc => alloc_parts(size),
            Measured::Mmap => mmap_parts(size),
            Measured::Munmap => munmap_parts(size),
            Measured::Close => close_parts(size),
            Measured::Dup => dup_parts(size),
            Measured::Llseek => llseek_parts(size),
            Measured::ExportSyncFile => export_parts(size),
            Measured::ImportSyncFile => import_parts(size),
            Measured::Pipeline => pipeline_parts(size),
            _ => pipeline_parts(size),
        },
    }
}

/// A measurement notes one time for each time its body is done, and none otherwise.
proof fn lemma_one_time(op: Measured, size: u64, warmup: nat, iterations: nat)
    ensures
        all_go_on(measured(measurement_of(op, size), warmup, iterations)),
        occurrences(noted_by(measured(measurement_of(op, size), warmup, iterations)), 0)
            == iterations,
{
    let m = measurement_of(op, size);
    lemma_plain(m.before);
    lemma_plain(m.warm);
    lemma_plain(m.behind);
    lemma_body(m.body, note_place(op));
    let w = repeated(m.warm, warmup);
    let b = repeated(m.body, iterations);
    lemma_repeated_go_on(m.warm, warmup);
    lemma_repeated_go_on(m.body, iterations);
    lemma_go_on_sum(m.before, w);
    lemma_go_on_sum(m.before + w, b);
    lemma_go_on_sum(m.before + w + b, m.behind);
    lemma_noted_sum(m.before, w);
    lemma_noted_sum(m.before + w, b);
    lemma_noted_sum(m.before + w + b, m.behind);
    lemma_occurrences_sum(noted_by(m.before), noted_by(w), 0);
    lemma_occurrences_sum(noted_by(m.before + w), noted_by(b), 0);
    lemma_occurrences_sum(noted_by(m.before + w + b), noted_by(m.behind), 0);
    lemma_noted_repeated(m.warm, warmup, 0);
    lemma_noted_repeated(m.body, iterations, 0);
    assert(warmup * 0 == 0);
    assert(iterations * 1 == iterations);
}

/// Steps without a stopwatch note nothing.
proof fn lemma_plain(s: Seq<Step>)
    requires
        forall|i: int|
            0 <= i < s.len() ==> noted_on(#[trigger] s[i]) is None && goes_on(s[i]),
    ensures
        occurrences(noted_by(s), 0) == 0,
        all_go_on(s),
    decreases s.len(),
{
    if s.len() > 0 {
        assert forall|i: int| 0 <= i < s.skip(1).len() implies noted_on(#[trigger] s.skip(1)[i])
            is None && goes_on(s.skip(1)[i]) by {
            assert(s.skip(1)[i] == s[i + 1]);
        }
        lemma_plain(s.skip(1));
        assert(noted_on(s[0]) is None);
    }
}

/// The first place where a time is noted.
spec fn is_only_note(s: Seq<Step>, k: int) -> bool {
    &&& 0 <= k < s.len()
    &&& noted_on(s[k]) == Some(0usize)
    &&& forall|i: int| 0 <= i < s.len() && i != k ==> noted_on(#[trigger] s[i]) is None
}

/// Where the body of a measurement notes its time.
spec fn note_place(op: Measured) -> int {
    match op {
        Measured::Alloc | Measured::Mmap | Measured::Dup | Measured::Llseek => 2,
        Measured::ExportSyncFile => 2,
        Measured::Pipeline => 10,
        _ => 3,
    }
}

/// Steps that note one time.
proof fn lemma_body(s: Seq<Step>, k: int)
    requires
        is_only_note(s, k),
        forall|i: int| 0 <= i < s.len() ==> goes_on(#[trigger] s[i]),
    ensures
        occurrences(noted_by(s), 0) == 1,
        all_go_on(s),
{
    reveal_with_fuel(noted_by, 2);
    reveal_with_fuel(occurrences, 2);
    let a = s.take(k);
    let b = s.skip(k + 1);
    assert forall|i: int| 0 <= i < a.len() implies noted_on(#[trigger] a[i]) is None && goes_on(
        a[i],
    ) by {
        assert(a[i] == s[i]);
    }
    assert forall|i: int| 0 <= i < b.len() implies noted_on(#[trigger] b[i]) is None && goes_on(
        b[i],
    ) by {
        assert(b[i] == s[i + k + 1]);
    }
    lemma_plain(a);
    lemma_plain(b);
    let one = seq![s[k]];
    assert(s =~= a + (one + b));
    lemma_noted_sum(a, one + b);
    lemma_noted_sum(one, b);
    lemma_occurrences_sum(noted_by(a), noted_by(one + b), 0);
    lemma_occurrences_sum(noted_by(one), noted_by(b), 0);
    assert(one.skip(1) =~= Seq::<Step>::empty());
    assert(noted_by(one) =~= seq![0usize]);
    assert(seq![0usize].drop_last() =~= Seq::<usize>::empty());
    assert(occurrences(seq![0usize], 0) == 1);
}

/// Whether timing an operation on buffers of one size leads from one backend to another,
/// with the times or the error that stopped it.
pub open spec fn op_timed<B: Answers>(
    a: B,
    heap: Seq<char>,
    op: Measured,
    size: u64,
    warmup: nat,
    iterations: nat,
    r: Result<Vec<u64>, Errno>,
    b: B,
) -> bool {
    exists|run: Run| #[trigger]
        timed_on(a, measured(measurement_of(op, size), warmup, iterations), heap, 3, run, b)
            && match r {
            Ok(v) => run.result is Ok && v@ == of_channel(run.marks@, 0),
            Err(e) => run.result == Err::<(), Errno>(e),
        }
}

/// Times an operation on buffers of one size: as many times as asked for, after the
/// warm-up, or the error that stopped it.
pub fn run_op<B: HeapBackend + DmaBufBackend + ContainerBackend>(
    backend: &mut B,
    heap: &str,
    op: Measured,
    size: u64,
    warmup: u32,
    iterations: u32,
) -> (r: Result<Vec<u64>, Errno>)
    requires
        old(backend).valid(),
    ensures
        final(backend).valid(),
        final(backend).opened() == old(backend).opened(),
        op_timed(*old(backend), heap@, op, size, warmup as nat, iterations as nat, r, *final(backend)),
        r matches Ok(v) ==> v@.len() == iterations,
{
    let steps = assembled(&parts_of(op, size), warmup, iterations);
    let run = run_timed(backend, steps.as_slice(), heap, 3);
    proof {
        lemma_one_time(op, size, warmup as nat, iterations as nat);
        if run.result is Ok {
            law_all_times_noted(
                *old(backend),
                steps@,
                seq![heap@],
                3,
                run.result,
                run.marks@,
                *backend,
            );
            lemma_times_len(run.marks@, 0);
        }
    }
    match run.result {
        Ok(_) => Ok(run.times(0)),
        Err(e) => Err(e),
    }
}

/// Whether a body times one step and nothing else.
pub open spec fn times_only(body: Seq<Step>, k: int, op: Op) -> bool {
    &&& 0 <= k
    &&& k + 2 < body.len()
    &&& body[k] == must(Op::Start)
    &&& body[k + 1].op == op
    &&& body[k + 2] == must(Op::Split { channel: 0 })
}

/// Between the start of the stopwatch and the look at it there is just the operation that the
/// measurement is named after.
pub proof fn law_the_operation_is_timed(size: u64, measure: u64, undo: u64)
    ensures
        times_only(alloc_time(size).body, 0, allocate(1, size).op),
        times_only(mmap_time(size).body, 0, Op::Mmap { buf: 1 }),
        times_only(munmap_time(size).body, 1, Op::Munmap { buf: 1 }),
        times_only(sync_time(size, measure, undo).body, 1, Op::Sync { buf: 1, flags: measure }),
        times_only(close_time(size).body, 1, Op::Close { slot: 1 }),
        times_only(dup_time(size).body, 0, Op::Dup { to: 2, buf: 1 }),
        times_only(
            llseek_time(size).body,
            0,
            Op::Seek { buf: 1, offset: 0, whence: SEEK_END, want: Want::Any },
        ),
        times_only(
            export_time(size).body,
            0,
            Op::Export { to: 2, buf: 1, flags: DMA_BUF_SYNC_READ as u32, checked: false },
        ),
        times_only(
            import_time(size).body,
            1,
            Op::Import { buf: 1, flags: DMA_BUF_SYNC_READ as u32, fence: 2 },
        ),
        pipeline_time(size).body[0] == must(Op::Start),
        pipeline_time(size).body.last() == must(Op::Split { channel: 0 }),
        pipeline_time(size).body.contains(allocate(1, size)),
        pipeline_time(size).body.contains(fill(1, size, 0xaa)),
        pipeline_time(size).body.contains(shut(1)),
{
    let p = pipeline_time(size).body;
    assert(p[1] == allocate(1, size));
    assert(p[4] == fill(1, size, 0xaa));
    assert(p[9] == shut(1));
}

} // verus!
