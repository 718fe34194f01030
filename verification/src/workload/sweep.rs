//! Workloads that go over several sizes of buffers on one open heap. A look at the
//! stopwatch on channel 0 marks that the heap is open, and that a size is done.
use crate::aging::fill::{even_pages, fill_plan, fill_runs, interior_lines, interior_pages};
use crate::backend::ioctl::{DMA_BUF_SYNC_READ, DMA_BUF_SYNC_WRITE};
use crate::backend::protocol::{Ask, Pattern};
use crate::workload::script::{
    allocate, begin, bulk, dropped, finish, map_buffer, open_heap, push_all, push_bulk,
    push_dropped, push_releases, releases,
};
use crate::workload::step::{asking, must, Op, Step};
use crate::workload::times::{
    all_go_on, lemma_note, lemma_notes_sum, lemma_quiet, lemma_quiet_sum, noted_by, occurrences,
    quiet,
};
use vstd::prelude::*;

verus! {

/// A heap is opened, and bodies of steps are performed, each followed by a mark.
pub open spec fn swept(bodies: Seq<Seq<Step>>) -> Seq<Step>
    decreases bodies.len(),
{
    if bodies.len() == 0 {
        seq![open_heap(), must(Op::Split { channel: 0 })]
    } else {
        swept(bodies.drop_last()) + bodies.last() + seq![must(Op::Split { channel: 0 })]
    }
}

/// The steps of a sweep before its first body.
pub fn sweep_start() -> (v: Vec<Step>)
    ensures
        v@ == swept(Seq::empty()),
{
    let v: Vec<Step> = vec![open_heap(), must(Op::Split { channel: 0 })];
    assert(v@ =~= swept(Seq::empty()));
    v
}

/// Appends a body to a sweep.
pub(crate) fn push_body(v: &mut Vec<Step>, body: &[Step], Ghost(bodies): Ghost<Seq<Seq<Step>>>)
    requires
        old(v)@ == swept(bodies),
    ensures
        final(v)@ == swept(bodies.push(body@)),
{
    push_all(v, body);
    let ghost mid = v@;
    v.push(must(Op::Split { channel: 0 }));
    assert(v@ =~= mid + seq![must(Op::Split { channel: 0 })]);
    assert(bodies.push(body@).drop_last() =~= bodies);
}

/// Pages evenly spaced between the first and the last.
pub open spec fn even(size: usize) -> Seq<usize> {
    Seq::new(
        interior_lines(size as nat),
        |i: int|
            (1 + i * (size as nat / 4096 - 2) / (interior_lines(size as nat) as int)) as usize,
    )
}

/// Writes the same byte to a few cache lines of a buffer.
pub open spec fn sparse(buf: usize, size: usize, pages: Seq<usize>, byte: u8) -> Seq<Step> {
    let runs = fill_runs(size, pages);
    Seq::new(
        runs.len(),
        |i: int|
            must(
                Op::Fill {
                    buf,
                    at: runs[i].at,
                    len: runs[i].len,
                    pattern: Pattern::Same(byte),
                },
            ),
    )
}

/// Appends the writing of the same byte to a few cache lines of a buffer.
pub fn push_sparse(v: &mut Vec<Step>, buf: usize, size: usize, pages: &[usize], byte: u8)
    requires
        interior_pages(size as nat, pages@),
    ensures
        final(v)@ == old(v)@ + sparse(buf, size, pages@, byte),
{
    let ghost start = v@;
    let runs = fill_plan(size, pages);
    let ghost all = sparse(buf, size, pages@, byte);
    let mut i: usize = 0;
    assert(start + all.take(0) =~= start);
    while i < runs.len()
        invariant
            i <= runs@.len(),
            runs@ == fill_runs(size, pages@),
            all == sparse(buf, size, pages@, byte),
            v@ == start + all.take(i as int),
        decreases runs@.len() - i,
    {
        let at: usize = runs[i].at;
        let len: usize = runs[i].len;
        v.push(must(Op::Fill { buf, at, len, pattern: Pattern::Same(byte) }));
        i = i + 1;
        assert(v@ =~= start + all.take(i as int));
    }
    assert(all.take(all.len() as int) =~= all);
}

/// A buffer is allocated, mapped, written to in a few places, and looked at.
pub open spec fn used(buf: usize, size: u64) -> Seq<Step> {
    seq![allocate(buf, size), map_buffer(buf), begin(buf, DMA_BUF_SYNC_WRITE)] + sparse(
        buf,
        size as usize,
        even(size as usize),
        0xaa,
    ) + seq![
        finish(buf, DMA_BUF_SYNC_WRITE),
        begin(buf, DMA_BUF_SYNC_READ),
        finish(buf, DMA_BUF_SYNC_READ),
    ]
}

/// Appends the use of a buffer.
pub fn push_used(v: &mut Vec<Step>, buf: usize, size: u64)
    ensures
        final(v)@ == old(v)@ + used(buf, size),
{
    let ghost start = v@;
    v.push(allocate(buf, size));
    v.push(map_buffer(buf));
    v.push(begin(buf, DMA_BUF_SYNC_WRITE));
    let pages = even_pages(size as usize);
    assert(pages@ =~= even(size as usize));
    push_sparse(v, buf, size as usize, pages.as_slice(), 0xaa);
    v.push(finish(buf, DMA_BUF_SYNC_WRITE));
    v.push(begin(buf, DMA_BUF_SYNC_READ));
    v.push(finish(buf, DMA_BUF_SYNC_READ));
    assert(v@ =~= start + used(buf, size));
}

/// Page caches are dropped, and buffers of the same size, in the places from 2 on, empty
/// the heap's pool.
pub open spec fn drained(drain: nat, size: u64) -> Seq<Step> {
    seq![asking(Ask::DropCaches)] + bulk(2, drain, size)
}

/// Steps while the heap's pool is empty.
pub open spec fn bypassed(drain: nat, size: u64, body: Seq<Step>) -> Seq<Step> {
    drained(drain, size) + body + releases(2, drain)
}

/// The steps while the heap's pool is empty.
pub fn bypassed_steps(drain: u32, size: u64, body: &[Step]) -> (v: Vec<Step>)
    requires
        drain + 2 <= usize::MAX,
    ensures
        v@ == bypassed(drain as nat, size, body@),
{
    let mut v: Vec<Step> = vec![asking(Ask::DropCaches)];
    assert(v@ =~= seq![asking(Ask::DropCaches)]);
    push_bulk(&mut v, 2, drain as usize, size);
    push_all(&mut v, body);
    push_releases(&mut v, 2, drain as usize);
    v
}

/// A buffer comes and goes.
pub open spec fn passing(size: u64) -> Seq<Step> {
    seq![allocate(1, size)] + dropped(1)
}

/// The steps by which a buffer comes and goes.
pub fn passing_steps(size: u64) -> (v: Vec<Step>)
    ensures
        v@ == passing(size),
{
    let mut v: Vec<Step> = vec![allocate(1, size)];
    push_dropped(&mut v, 1);
    v
}

/// The use of a buffer notes no time.
pub proof fn lemma_used_quiet(buf: usize, size: u64)
    ensures
        quiet(used(buf, size)),
{
    let a = seq![allocate(buf, size), map_buffer(buf), begin(buf, DMA_BUF_SYNC_WRITE)];
    let b = sparse(buf, size as usize, even(size as usize), 0xaa);
    let c = seq![
        finish(buf, DMA_BUF_SYNC_WRITE),
        begin(buf, DMA_BUF_SYNC_READ),
        finish(buf, DMA_BUF_SYNC_READ),
    ];
    assert(quiet(a));
    assert(quiet(b));
    assert(quiet(c));
    lemma_quiet_sum(a, b);
    lemma_quiet_sum(a + b, c);
}

/// A mark after a body, as a sweep has it.
pub proof fn lemma_swept_push(bodies: Seq<Seq<Step>>, body: Seq<Step>, c: usize)
    requires
        all_go_on(swept(bodies)),
        all_go_on(body),
    ensures
        all_go_on(swept(bodies.push(body))),
        occurrences(noted_by(swept(bodies.push(body))), c) == occurrences(
            noted_by(swept(bodies)),
            c,
        ) + occurrences(noted_by(body), c) + if c == 0 {
            1nat
        } else {
            0
        },
{
    let mark = seq![must(Op::Split { channel: 0 })];
    lemma_note(mark[0], 0, c);
    lemma_notes_sum(swept(bodies), body, c);
    lemma_notes_sum(swept(bodies) + body, mark, c);
    assert(bodies.push(body).drop_last() =~= bodies);
}

/// The mark of an open heap.
pub proof fn lemma_swept_none(c: usize)
    ensures
        all_go_on(swept(Seq::empty())),
        occurrences(noted_by(swept(Seq::empty())), c) == if c == 0 {
            1nat
        } else {
            0
        },
{
    let open = seq![open_heap()];
    let mark = seq![must(Op::Split { channel: 0 })];
    assert(quiet(open));
    lemma_quiet(open, c);
    lemma_note(mark[0], 0, c);
    lemma_notes_sum(open, mark, c);
    assert(swept(Seq::empty()) =~= open + mark);
}

} // verus!
