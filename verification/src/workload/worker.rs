//! Workers that allocate and release buffers for long, and hold on to some of them.
use crate::aging::fill::{even_pages, fill_plan, fill_runs, interior_pages};
use crate::aging::pool::{items, HoldPool, Pool};
use crate::aging::state::AgingState;
use crate::backend::ioctl::{
    Errno, DMA_BUF_SYNC_END, DMA_BUF_SYNC_READ, DMA_BUF_SYNC_START, DMA_BUF_SYNC_WRITE,
    DMA_HEAP_ALLOC_FD_FLAGS, DMA_HEAP_VALID_HEAP_FLAGS,
};
use crate::backend::protocol::{
    Answers, ContainerBackend, DmaBufBackend, HeapBackend, Kind, Pattern, Reply,
};
use crate::info::types::HeapCaps;
use crate::order::strs;
use crate::workload::keep::{
    kept, lemma_blank, lemma_cleaned, lemma_one_more_place, lemma_performed, lemma_same_slots,
};
use crate::workload::run::{cleanup_steps, perform, Session};
use crate::workload::script::{dropped, push_dropped};
use crate::workload::stage::{
    lemma_next_stage, lemma_no_stage, reached, stage_done, staged, staged_ran, Out,
};
use crate::workload::step::{
    after, blank, call_of, cleanup, last_us, may, may_mapped, must, performed, stepped, Mark, Op, Slot,
    State, Step, Verdict,
};
use crate::workload::sweep::even;
use vstd::prelude::*;

verus! {

/// One in so many buffers is held on to.
pub const HOLD_EVERY_NTH: usize = 3;

/// Places are released, one after the other.
pub open spec fn let_go(places: Seq<usize>) -> Seq<Step>
    decreases places.len(),
{
    if places.len() == 0 {
        Seq::empty()
    } else {
        let_go(places.drop_last()) + dropped(places.last())
    }
}

/// The steps by which places are released.
pub fn let_go_steps(places: &[usize]) -> (v: Vec<Step>)
    ensures
        v@ == let_go(places@),
{
    let mut v: Vec<Step> = Vec::new();
    let mut i: usize = 0;
    assert(places@.take(0) =~= Seq::empty());
    while i < places.len()
        invariant
            i <= places@.len(),
            v@ == let_go(places@.take(i as int)),
        decreases places@.len() - i,
    {
        push_dropped(&mut v, places[i]);
        assert(places@.take(i + 1).drop_last() =~= places@.take(i as int));
        i = i + 1;
    }
    assert(places@.take(places@.len() as int) =~= places@);
    v
}

/// Writes the same byte to a few cache lines of a buffer, where it is mapped.
pub open spec fn sparse_if_mapped(buf: usize, size: usize, pages: Seq<usize>, byte: u8) -> Seq<
    Step,
> {
    let runs = fill_runs(size, pages);
    Seq::new(
        runs.len(),
        |i: int|
            may_mapped(
                Op::Fill { buf, at: runs[i].at, len: runs[i].len, pattern: Pattern::Same(byte) },
                buf,
            ),
    )
}

/// Appends the writing of a few cache lines of a buffer, where it is mapped.
pub fn push_sparse_if_mapped(
    v: &mut Vec<Step>,
    buf: usize,
    size: usize,
    pages: &[usize],
    byte: u8,
)
    requires
        interior_pages(size as nat, pages@),
    ensures
        final(v)@ == old(v)@ + sparse_if_mapped(buf, size, pages@, byte),
{
    let ghost start = v@;
    let runs = fill_plan(size, pages);
    let ghost all = sparse_if_mapped(buf, size, pages@, byte);
    let mut i: usize = 0;
    assert(start + all.take(0) =~= start);
    while i < runs.len()
        invariant
            i <= runs@.len(),
            runs@ == fill_runs(size, pages@),
            all == sparse_if_mapped(buf, size, pages@, byte),
            v@ == start + all.take(i as int),
        decreases runs@.len() - i,
    {
        let at: usize = runs[i].at;
        let len: usize = runs[i].len;
        v.push(may_mapped(Op::Fill { buf, at, len, pattern: Pattern::Same(byte) }, buf));
        i = i + 1;
        assert(v@ =~= start + all.take(i as int));
    }
    assert(all.take(all.len() as int) =~= all);
}

/// An access starts, where the buffer is mapped.
#[verifier::allow_in_spec]
pub fn enter(buf: usize, flags: u64) -> (r: Step)
    returns
        may_mapped(Op::Sync { buf, flags: DMA_BUF_SYNC_START | flags }, buf),
{
    may_mapped(Op::Sync { buf, flags: DMA_BUF_SYNC_START | flags }, buf)
}

/// An access ends, where the buffer is mapped.
#[verifier::allow_in_spec]
pub fn leave(buf: usize, flags: u64) -> (r: Step)
    returns
        may_mapped(Op::Sync { buf, flags: DMA_BUF_SYNC_END | flags }, buf),
{
    may_mapped(Op::Sync { buf, flags: DMA_BUF_SYNC_END | flags }, buf)
}

/// What is done with a buffer, as far as its heap allows: it is mapped, written to in a
/// few places and looked at; or only mapped. Nothing of it has to succeed.
pub open spec fn exercised(caps: HeapCaps, buf: usize, size: u64) -> Seq<Step> {
    if caps.can_mmap && caps.can_sync && caps.can_write {
        seq![may(Op::Mmap { buf }), enter(buf, DMA_BUF_SYNC_WRITE)] + sparse_if_mapped(
            buf,
            size as usize,
            even(size as usize),
            0xaa,
        ) + seq![
            leave(buf, DMA_BUF_SYNC_WRITE),
            enter(buf, DMA_BUF_SYNC_READ),
            leave(buf, DMA_BUF_SYNC_READ),
        ]
    } else if caps.can_mmap {
        seq![may(Op::Mmap { buf })]
    } else {
        Seq::empty()
    }
}

/// The steps of what is done with a buffer.
pub fn exercised_steps(caps: &HeapCaps, buf: usize, size: u64) -> (v: Vec<Step>)
    ensures
        v@ == exercised(*caps, buf, size),
{
    let mut v: Vec<Step> = Vec::new();
    if caps.can_mmap {
        v.push(may(Op::Mmap { buf }));
        if caps.can_sync && caps.can_write {
            v.push(enter(buf, DMA_BUF_SYNC_WRITE));
            let pages = even_pages(size as usize);
            assert(pages@ =~= even(size as usize));
            push_sparse_if_mapped(&mut v, buf, size as usize, pages.as_slice(), 0xaa);
            v.push(leave(buf, DMA_BUF_SYNC_WRITE));
            v.push(enter(buf, DMA_BUF_SYNC_READ));
            v.push(leave(buf, DMA_BUF_SYNC_READ));
        }
    }
    assert(v@ =~= exercised(*caps, buf, size));
    v
}

/// Whether a step puts nothing into the first places, and takes nothing out of them.
pub open spec fn spares(step: Step, n: nat) -> bool {
    match step.op {
        Op::Open { to, .. } => to >= n,
        Op::OpenDevice { to } => to >= n,
        Op::Foreign { to, .. } => to >= n,
        Op::Allocate { to, .. } => to >= n,
        Op::Export { to, .. } => to >= n,
        Op::Dup { to, .. } => to >= n,
        Op::Merge { to, .. } => to >= n,
        Op::Mmap { buf } => buf >= n,
        Op::Munmap { buf } => buf >= n,
        Op::Close { slot } => slot >= n,
        _ => true,
    }
}

/// Whether steps leave the first places alone.
pub open spec fn all_spare(steps: Seq<Step>, n: nat) -> bool {
    forall|i: int| 0 <= i < steps.len() ==> spares(#[trigger] steps[i], n)
}

/// Whether the first places are the same.
pub open spec fn same_first(st: State, e: State, n: nat) -> bool {
    &&& e.slots.len() == st.slots.len()
    &&& forall|i: int| 0 <= i < n && i < st.slots.len() ==> #[trigger] e.slots[i] == st.slots[i]
}

proof fn lemma_step_spares<B: Answers>(
    a: B,
    step: Step,
    names: Seq<Seq<char>>,
    st: State,
    verdict: Verdict,
    end: State,
    b: B,
    n: nat,
)
    requires
        spares(step, n),
        stepped(a, step, names, st, verdict, end, b),
    ensures
        same_first(st, end, n),
{
    match call_of(step, st, names) {
        None => {},
        Some(call) => {
            let reply = choose|reply: Reply| #[trigger]
                a.answers(call, reply, b) && (end, verdict) == after(step, st, reply);
            assert(end == after(step, st, reply).0);
        },
    }
}

/// Steps that leave the first places alone leave them alone.
pub proof fn lemma_spared<B: Answers>(
    a: B,
    steps: Seq<Step>,
    names: Seq<Seq<char>>,
    st: State,
    result: Result<(), Errno>,
    end: State,
    b: B,
    n: nat,
)
    requires
        all_spare(steps, n),
        performed(a, steps, names, st, result, end, b),
    ensures
        same_first(st, end, n),
    decreases steps.len(),
{
    if steps.len() > 0 {
        let (verdict, mid, m) = choose|verdict: Verdict, mid: State, m: B| #[trigger]
            stepped(a, steps[0], names, st, verdict, mid, m) && match verdict {
                Verdict::Go => performed(m, steps.skip(1), names, mid, result, end, b),
                Verdict::End(r) => result == r && end == mid && b == m,
            };
        assert(spares(steps[0], n));
        lemma_step_spares(a, steps[0], names, st, verdict, mid, m, n);
        if verdict is Go {
            assert forall|i: int| 0 <= i < steps.skip(1).len() implies spares(
                #[trigger] steps.skip(1)[i],
                n,
            ) by {
                assert(steps.skip(1)[i] == steps[i + 1]);
            }
            lemma_spared(m, steps.skip(1), names, mid, result, end, b, n);
            assert forall|i: int| 0 <= i < n && i < st.slots.len() implies #[trigger] end.slots[i]
                == st.slots[i] by {
                assert(mid.slots[i] == st.slots[i]);
            }
        }
    }
}

/// Releasing later places leaves the first ones alone.
pub proof fn lemma_let_go_spares(places: Seq<usize>, n: nat)
    requires
        forall|i: int| 0 <= i < places.len() ==> #[trigger] places[i] >= n,
    ensures
        all_spare(let_go(places), n),
    decreases places.len(),
{
    if places.len() > 0 {
        lemma_let_go_spares(places.drop_last(), n);
        let x = let_go(places.drop_last());
        let y = dropped(places.last());
        assert forall|i: int| 0 <= i < (x + y).len() implies spares(#[trigger] (x + y)[i], n) by {
            if i < x.len() {
                assert((x + y)[i] == x[i]);
            } else {
                assert((x + y)[i] == y[i - x.len()]);
            }
        }
    }
}

/// What came of one turn.
#[derive(Clone, Copy, PartialEq, Eq, Structural, Debug)]
pub enum Turn {
    /// Memory was used up; so many buffers were released for that.
    NoMemory { freed: usize },
    /// The allocation failed.
    Failed,
    /// A buffer was allocated and used, in so many microseconds, and so many were released.
    /// There is an error where a buffer did not hold what was written.
    Done { us: u64, freed: usize, error: bool },
}

/// A worker.
pub struct Worker {
    pub session: Session,
    pub pool: HoldPool<usize>,
    /// How many heaps there are.
    pub heaps: usize,
    /// The places of the heaps that could be opened.
    pub contexts: Vec<usize>,
    pub index: usize,
    pub allocs: Ghost<nat>,
    pub frees: Ghost<nat>,
    pub base: Ghost<Map<i32, Kind>>,
}

/// A worker: how things stand, what it holds, which heaps it uses, whose turn it is, and
/// how many buffers it has allocated and released.
pub ghost struct Work {
    pub st: State,
    pub pool: Pool<usize>,
    pub heaps: nat,
    pub contexts: Seq<usize>,
    pub index: usize,
    pub allocs: nat,
    pub frees: nat,
    /// What was open before it began.
    pub base: Map<i32, Kind>,
}

impl View for Worker {
    type V = Work;

    open spec fn view(&self) -> Work {
        Work {
            st: self.session@,
            pool: self.pool@,
            heaps: self.heaps as nat,
            contexts: self.contexts@,
            index: self.index,
            allocs: self.allocs@,
            frees: self.frees@,
            base: self.base@,
        }
    }
}

impl Work {
    /// What every turn keeps: the heaps are open, the buffers that are held are in later
    /// places, and what was allocated and not released is held.
    pub open spec fn wf(self) -> bool {
        &&& self.heaps <= self.st.slots.len()
        &&& self.contexts.len() > 0
        &&& forall|i: int|
            0 <= i < self.contexts.len() ==> #[trigger] self.contexts[i] < self.heaps
                && self.st.slots[self.contexts[i] as int] is Heap
        &&& forall|i: int|
            0 <= i < self.pool.held.len() ==> (#[trigger] self.pool.held[i]).0 >= self.heaps
        &&& self.allocs == self.frees + self.pool.held.len()
    }
}

impl Worker {
    /// Whether a worker is in order, on a backend.
    pub open spec fn ready<B: Answers>(self, b: B) -> bool {
        &&& b.valid()
        &&& self.pool.inv()
        &&& self@.wf()
        &&& kept(self@.base, self.session@, b.opened())
    }
}

/// How things stand before a turn: nothing is noted yet.
pub open spec fn fresh(st: State) -> State {
    State { noted: false, marks: Seq::empty(), ..st }
}

/// How things stand when there is a place with this number.
pub open spec fn roomy(st: State, p: usize) -> State {
    if p < st.slots.len() {
        st
    } else {
        State { slots: st.slots.push(Slot::Empty), ..st }
    }
}

/// A free place from a number on, with one more place where there is none.
pub(crate) fn vacant(session: &mut Session, from: usize) -> (p: usize)
    requires
        from <= old(session).slots@.len(),
    ensures
        p >= from,
        p <= old(session).slots@.len(),
        final(session)@ == roomy(old(session)@, p),
        final(session)@.free(p),
        p < usize::MAX,
{
    let mut i: usize = from;
    while i < session.slots.len()
        invariant
            from <= i <= session.slots@.len(),
            *session == *old(session),
        decreases session.slots@.len() - i,
    {
        let taken: bool = match session.at(i) {
            Slot::Empty | Slot::Gone { .. } | Slot::Foreign { .. } => false,
            _ => true,
        };
        if !taken {
            return i;
        }
        i = i + 1;
    }
    session.slots.push(Slot::Empty);
    assert(session@ =~= roomy(old(session)@, i));
    let n: usize = session.slots.len();
    assert(n == i + 1);
    i
}

/// The next number, from the start again after the last.
pub open spec fn next_index(i: usize) -> usize {
    if i == usize::MAX {
        0
    } else {
        (i + 1) as usize
    }
}

/// A buffer of a size is allocated from a heap into a place.
pub open spec fn obtain(p: usize, heap: usize, size: u64, shown: usize) -> Seq<Step> {
    seq![
        must(Op::Start),
        must(
            Op::Allocate {
                to: p,
                heap,
                len: size,
                fd_flags: DMA_HEAP_ALLOC_FD_FLAGS,
                heap_flags: DMA_HEAP_VALID_HEAP_FLAGS,
                shown,
            },
        ),
    ]
}

/// The steps by which a buffer is allocated.
pub fn obtain_steps(p: usize, heap: usize, size: u64, shown: usize) -> (v: Vec<Step>)
    ensures
        v@ == obtain(p, heap, size, shown),
{
    let v: Vec<Step> = vec![
        must(Op::Start),
        must(
            Op::Allocate {
                to: p,
                heap,
                len: size,
                fd_flags: DMA_HEAP_ALLOC_FD_FLAGS,
                heap_flags: DMA_HEAP_VALID_HEAP_FLAGS,
                shown,
            },
        ),
    ];
    assert(v@ =~= obtain(p, heap, size, shown));
    v
}

impl Work {
    /// The heap whose turn it is.
    pub open spec fn heap(self) -> usize {
        self.contexts[self.index as int % self.contexts.len() as int]
    }

    /// Whether the buffer of this turn is held on to.
    pub open spec fn holds(self) -> bool {
        self.pool.initial > 0 && next_index(self.index) % HOLD_EVERY_NTH == 0
    }

    /// The places that are released when a buffer in a place has been used.
    pub open spec fn leaving(self, keep: bool, p: usize, size: u64) -> Seq<usize> {
        let q = self.pool.fed();
        if keep {
            items(q.held.take(q.making_room(size) as int))
        } else {
            seq![p]
        }
    }

    /// What is held when a buffer in a place has been used.
    pub open spec fn pool_after(self, keep: bool, p: usize, size: u64) -> Pool<usize> {
        if keep {
            self.pool.fed().pushed(p, size)
        } else {
            self.pool.fed()
        }
    }

    /// The places that are released when memory is used up.
    pub open spec fn giving_up(self) -> Seq<usize> {
        items(self.pool.held.take(self.pool.giving_up() as int))
    }
}

/// The stages of a turn: a buffer is allocated, used, and released or held on to; or,
/// where memory is used up, others are released.
pub open spec fn turn_stages(
    w: Work,
    caps: Seq<HeapCaps>,
    size: u64,
    p: usize,
    got: Result<(), Errno>,
) -> Seq<Seq<Step>> {
    let first = obtain(p, w.heap(), size, size as usize);
    match got {
        Ok(_) => seq![
            first,
            exercised(caps[w.heap() as int], p, size),
            let_go(w.leaving(w.holds(), p, size)) + seq![must(Op::Total { channel: 0 })],
        ],
        Err(e) => if e == Errno::ENOMEM {
            seq![first, let_go(w.giving_up())]
        } else {
            seq![first]
        },
    }
}

/// Whether a turn leads from one worker and backend to others.
pub open spec fn turn_ran<B: Answers>(
    a: B,
    w: Work,
    names: Seq<Seq<char>>,
    caps: Seq<HeapCaps>,
    size: u64,
    p: usize,
    outs: Seq<Out>,
    turn: Turn,
    v: Work,
    b: B,
) -> bool {
    let st = roomy(fresh(w.st), p);
    &&& p >= w.heaps
    &&& st.free(p)
    &&& outs.len() > 0
    &&& staged(a, turn_stages(w, caps, size, p, outs[0].result), names, st, outs, b)
    &&& v.st == reached(st, outs)
    &&& v.index == next_index(w.index)
    &&& v.contexts == w.contexts
    &&& v.heaps == w.heaps
    &&& v.base == w.base
    &&& match outs[0].result {
        Ok(_) => {
            let gone = w.leaving(w.holds(), p, size);
            &&& turn matches Turn::Done { us, freed, error } && us == last_us(
                v.st.marks,
            ) && freed == gone.len() && !error
            &&& v.pool == w.pool_after(w.holds(), p, size)
            &&& v.allocs == w.allocs + 1
            &&& v.frees == w.frees + gone.len()
        },
        Err(e) => if e == Errno::ENOMEM {
            &&& turn == Turn::NoMemory { freed: w.giving_up().len() as usize }
            &&& w.giving_up().len() <= usize::MAX
            &&& v.pool == w.pool.starved()
            &&& v.allocs == w.allocs
            &&& v.frees == w.frees + w.giving_up().len()
        } else {
            &&& turn == Turn::Failed
            &&& v.pool == w.pool
            &&& v.allocs == w.allocs
            &&& v.frees == w.frees
        },
    }
}

/// Whether a turn is one that a worker can make.
pub open spec fn turn_made<B: Answers>(
    a: B,
    w: Work,
    names: Seq<Seq<char>>,
    caps: Seq<HeapCaps>,
    size: u64,
    turn: Turn,
    v: Work,
    b: B,
) -> bool {
    exists|p: usize, outs: Seq<Out>| #[trigger]
        turn_ran(a, w, names, caps, size, p, outs, turn, v, b)
}

proof fn lemma_exercised_spares(caps: HeapCaps, p: usize, size: u64, n: nat)
    requires
        p >= n,
    ensures
        all_spare(exercised(caps, p, size), n),
{
    let s = exercised(caps, p, size);
    if caps.can_mmap && caps.can_sync && caps.can_write {
        let a = seq![may(Op::Mmap { buf: p }), enter(p, DMA_BUF_SYNC_WRITE)];
        let b = sparse_if_mapped(p, size as usize, even(size as usize), 0xaa);
        let c = seq![
            leave(p, DMA_BUF_SYNC_WRITE),
            enter(p, DMA_BUF_SYNC_READ),
            leave(p, DMA_BUF_SYNC_READ),
        ];
        lemma_spare_sum(a, b, n);
        lemma_spare_sum(a + b, c, n);
    }
}

/// Steps that leave the first places alone, after others that do.
pub proof fn lemma_spare_sum(a: Seq<Step>, b: Seq<Step>, n: nat)
    requires
        all_spare(a, n),
        all_spare(b, n),
    ensures
        all_spare(a + b, n),
{
    assert forall|i: int| 0 <= i < (a + b).len() implies spares(#[trigger] (a + b)[i], n) by {
        if i < a.len() {
            assert((a + b)[i] == a[i]);
        } else {
            assert((a + b)[i] == b[i - a.len()]);
        }
    }
}

/// The pool never gives up more than it holds.
pub proof fn lemma_pool_counts(pool: Pool<usize>, p: usize, size: u64, n: nat)
    requires
        forall|i: int| 0 <= i < pool.held.len() ==> (#[trigger] pool.held[i]).0 >= n,
        p >= n,
        pool.wf(),
    ensures
        pool.giving_up() <= pool.held.len(),
        pool.starved().held.len() == pool.held.len() - pool.giving_up(),
        forall|i: int|
            0 <= i < pool.starved().held.len() ==> (#[trigger] pool.starved().held[i]).0 >= n,
        forall|i: int|
            0 <= i < items(pool.held.take(pool.giving_up() as int)).len() ==> #[trigger] items(
                pool.held.take(pool.giving_up() as int),
            )[i] >= n,
        pool.fed().held == pool.held,
        pool.fed().making_room(size) <= pool.held.len(),
        pool.fed().pushed(p, size).held.len() == pool.held.len() - pool.fed().making_room(size) + 1,
        forall|i: int|
            0 <= i < pool.fed().pushed(p, size).held.len() ==> (#[trigger] pool.fed().pushed(
                p,
                size,
            ).held[i]).0 >= n,
        forall|i: int|
            0 <= i < items(pool.held.take(pool.fed().making_room(size) as int)).len()
                ==> #[trigger] items(pool.held.take(pool.fed().making_room(size) as int))[i] >= n,
{
    let q = pool.fed();
    let full: nat = if q.held.len() > 0 && q.held.len() >= q.max_size {
        1
    } else {
        0
    };
    crate::aging::pool::lemma_leaving(q.held.skip(full as int), q.max_bytes, size);
    let k = q.making_room(size);
    assert(k <= q.held.len());
    let e = q.pushed(p, size);
    assert forall|i: int| 0 <= i < e.held.len() implies (#[trigger] e.held[i]).0 >= n by {
        if i < q.held.len() - k {
            assert(e.held[i] == q.held[i + k]);
        }
    }
    assert forall|i: int| 0 <= i < pool.starved().held.len() implies (
    #[trigger] pool.starved().held[i]).0 >= n by {
        assert(pool.starved().held[i] == pool.held[i + pool.giving_up()]);
    }
}

/// The stages in which heaps are opened.
pub open spec fn opening(n: nat) -> Seq<Seq<Step>> {
    Seq::new(n, |i: int| seq![must(Op::Open { to: i as usize, name: i as usize })])
}

/// The numbers of the heaps that could be opened.
pub open spec fn those_open(outs: Seq<Out>) -> Seq<usize>
    decreases outs.len(),
{
    if outs.len() == 0 {
        Seq::empty()
    } else if outs.last().result is Ok {
        those_open(outs.drop_last()).push((outs.len() - 1) as usize)
    } else {
        those_open(outs.drop_last())
    }
}

/// Opening a heap puts it into its place, where it succeeds.
proof fn lemma_opened<B: Answers>(
    a: B,
    i: usize,
    names: Seq<Seq<char>>,
    st: State,
    result: Result<(), Errno>,
    end: State,
    b: B,
)
    requires
        i < names.len(),
        st.free(i),
        performed(
            a,
            seq![must(Op::Open { to: i, name: i })],
            names,
            st,
            result,
            end,
            b,
        ),
        a.valid(),
    ensures
        result is Ok ==> end.slots == st.slots.update(i as int, end.slots[i as int])
            && end.slots[i as int] is Heap,
        result is Err ==> end.slots == st.slots,
{
    reveal_with_fuel(performed, 2);
    let step = must(Op::Open { to: i, name: i });
    let steps = seq![step];
    let (verdict, mid, m) = choose|verdict: Verdict, mid: State, m: B| #[trigger]
        stepped(a, steps[0], names, st, verdict, mid, m) && match verdict {
            Verdict::Go => performed(m, steps.skip(1), names, mid, result, end, b),
            Verdict::End(r) => result == r && end == mid && b == m,
        };
    assert(steps.skip(1).len() == 0);
    assert(end == mid);
    let call = call_of(step, st, names)->0;
    let reply = choose|reply: Reply| #[trigger]
        a.answers(call, reply, m) && (mid, verdict) == after(step, st, reply);
    B::after_call(a, call, reply, m);
    assert(call is Open);
    assert(reply is Fd || reply is Failed);
}

/// Whether opening heaps leads from one backend to another, with those that are open.
pub open spec fn opened_up<B: Answers>(
    a: B,
    names: Seq<Seq<char>>,
    outs: Seq<Out>,
    w: Work,
    b: B,
) -> bool {
    &&& staged(a, opening(names.len()), names, blank(names.len()), outs, b)
    &&& w.st == reached(blank(names.len()), outs)
    &&& w.contexts == those_open(outs)
    &&& w.contexts.len() > 0
}

/// Whether no heap could be opened, and nothing is left open.
pub open spec fn none_opened<B: Answers>(a: B, names: Seq<Seq<char>>, outs: Seq<Out>, b: B) -> bool {
    &&& staged_ran(a, opening(names.len()), names, names.len(), outs, b)
    &&& those_open(outs).len() == 0
}

/// Whether a worker is at its beginning: it has done nothing and holds nothing, may hold so
/// many buffers of so many bytes, and counts from a number.
pub open spec fn begun(
    w: Work,
    heaps: nat,
    max_size: usize,
    max_bytes: u64,
    index: usize,
) -> bool {
    &&& w.heaps == heaps
    &&& w.index == index
    &&& w.allocs == 0
    &&& w.frees == 0
    &&& w.pool == Pool {
        held: Seq::<(usize, u64)>::empty(),
        max_bytes,
        max_size: max_size as nat,
        initial: max_size as nat,
        shortages: 0,
        successes: 0,
    }
}

impl Worker {
    /// A worker on all those heaps that can be opened, that holds on to at most so many
    /// buffers of at most so many bytes, and begins with the heap of a number. There is
    /// none where no heap can be opened.
    pub fn start<B: HeapBackend + DmaBufBackend + ContainerBackend>(
        backend: &mut B,
        names: &[&str],
        max_size: usize,
        max_bytes: u64,
        index: usize,
    ) -> (r: Option<Worker>)
        requires
            old(backend).valid(),
        ensures
            match r {
                Some(w) => {
                    &&& w.ready(*final(backend))
                    &&& w@.base == old(backend).opened()
                    &&& begun(w@, names@.len(), max_size, max_bytes, index)
                    &&& exists|outs: Seq<Out>| #[trigger]
                        opened_up(*old(backend), strs(names@), outs, w@, *final(backend))
                },
                None => {
                    &&& final(backend).valid()
                    &&& final(backend).opened() == old(backend).opened()
                    &&& exists|outs: Seq<Out>| #[trigger]
                        none_opened(*old(backend), strs(names@), outs, *final(backend))
                },
            },
    {
        let ghost a = *backend;
        let ghost base = backend.opened();
        let ghost ns = strs(names@);
        let n: usize = names.len();
        let mut session = Session::new(n);
        let mut contexts: Vec<usize> = Vec::new();
        let mut outs: Ghost<Seq<Out>> = Ghost(Seq::empty());
        let mut i: usize = 0;
        proof {
            lemma_blank(base, n as nat);
            lemma_no_stage(a, ns, blank(n as nat));
            assert(opening(0) =~= Seq::empty());
        }
        while i < n
            invariant
                i <= n == names@.len(),
                ns == strs(names@),
                ns.len() == n,
                a.valid(),
                base == a.opened(),
                backend.valid(),
                outs@.len() == i,
                staged(a, opening(i as nat), ns, blank(n as nat), outs@, *backend),
                session@ == reached(blank(n as nat), outs@),
                session@.slots.len() == n,
                kept(base, session@, backend.opened()),
                contexts@ == those_open(outs@),
                forall|k: int| i <= k < n ==> #[trigger] session@.slots[k] == Slot::Empty,
                forall|k: int|
                    0 <= k < contexts@.len() ==> #[trigger] contexts@[k] < i
                        && session@.slots[contexts@[k] as int] is Heap,
            decreases n - i,
        {
            let ghost m = *backend;
            let ghost before = session@;
            let ghost prior = contexts@;
            let step: Vec<Step> = vec![must(Op::Open { to: i, name: i })];
            assert(step@ =~= seq![must(Op::Open { to: i, name: i })]);
            let r = perform(backend, step.as_slice(), names, &mut session);
            let ghost out = Out { result: r, end: session@ };
            proof {
                lemma_performed(base, m, step@, ns, before, r, session@, *backend);
                lemma_opened(m, i, ns, before, r, session@, *backend);
                assert(stage_done(m, step@, ns, before, out, *backend));
                lemma_next_stage(
                    a,
                    opening(i as nat),
                    ns,
                    blank(n as nat),
                    outs@,
                    m,
                    step@,
                    out,
                    *backend,
                );
                assert(opening(i as nat).push(step@) =~= opening((i + 1) as nat));
                assert(outs@.push(out).drop_last() =~= outs@);
                outs@ = outs@.push(out);
            }
            if r.is_ok() {
                contexts.push(i);
            }
            proof {
                assert forall|k: int| 0 <= k < contexts@.len() implies #[trigger] contexts@[k] < i
                    + 1 && session@.slots[contexts@[k] as int] is Heap by {
                    if k < prior.len() {
                        assert(contexts@[k] == prior[k]);
                    }
                }
            }
            i = i + 1;
        }
        if contexts.len() == 0 {
            let ghost m = *backend;
            let ghost before = session@;
            let last = cleanup_steps(n);
            let r = perform(backend, last.as_slice(), names, &mut session);
            proof {
                lemma_cleaned(base, m, n as nat, ns, before, r, session@, *backend);
                let out = Out { result: r, end: session@ };
                assert(stage_done(m, cleanup(n as nat), ns, before, out, *backend));
                assert(none_opened(a, ns, outs@, *backend));
            }
            return None;
        }
        let w = Worker {
            session,
            pool: HoldPool::new(max_size, max_bytes),
            heaps: n,
            contexts,
            index,
            allocs: Ghost(0),
            frees: Ghost(0),
            base: Ghost(base),
        };
        proof {
            w.pool.lemma_inv();
            assert(begun(w@, names@.len(), max_size, max_bytes, index));
            assert(w.ready(*backend));
            assert(opened_up(a, ns, outs@, w@, *backend));
        }
        Some(w)
    }

    /// One turn: a buffer of a size from the heap whose turn it is.
    #[verifier::rlimit(60)]
    pub fn turn<B: HeapBackend + DmaBufBackend + ContainerBackend>(
        &mut self,
        backend: &mut B,
        names: &[&str],
        caps: &[HeapCaps],
        size: u64,
    ) -> (turn: Turn)
        requires
            old(self).ready(*old(backend)),
            caps@.len() == old(self)@.heaps,
        ensures
            final(self).ready(*final(backend)),
            turn_made(
                *old(backend),
                old(self)@,
                strs(names@),
                caps@,
                size,
                turn,
                final(self)@,
                *final(backend),
            ),
    {
        let ghost a = *backend;
        let ghost w = self@;
        let ghost base = self.base@;
        let ghost ns = strs(names@);
        let ghost heaps = self.heaps as nat;
        let heap: usize = self.contexts[self.index % self.contexts.len()];
        assert(heap == w.heap());
        self.index = if self.index == usize::MAX {
            0
        } else {
            self.index + 1
        };
        self.session.noted = false;
        self.session.marks.clear();
        proof {
            assert(self.session.marks@ =~= Seq::<Mark>::empty());
            lemma_same_slots(base, w.st, self.session@, a.opened());
            self.pool.lemma_inv();
        }
        assert(self.session@ == fresh(w.st));
        let p: usize = vacant(&mut self.session, self.heaps);
        let ghost st = self.session@;
        proof {
            if p >= w.st.slots.len() {
                lemma_one_more_place(base, fresh(w.st), a.opened());
            }
            lemma_pool_counts(w.pool, p, size, heaps);
        }
        let first = obtain_steps(p, heap, size, size as usize);
        let got = perform(backend, first.as_slice(), names, &mut self.session);
        let ghost m1 = *backend;
        let ghost st1 = self.session@;
        let ghost out1 = Out { result: got, end: st1 };
        proof {
            lemma_performed(base, a, first@, ns, st, got, st1, m1);
            lemma_spared(a, first@, ns, st, got, st1, m1, heaps);
            lemma_no_stage(a, ns, st);
            assert(stage_done(a, first@, ns, st, out1, m1));
            lemma_next_stage(
                a,
                Seq::<Seq<Step>>::empty(),
                ns,
                st,
                Seq::<Out>::empty(),
                a,
                first@,
                out1,
                m1,
            );
        }
        let ghost stages1 = Seq::<Seq<Step>>::empty().push(first@);
        let ghost outs1 = Seq::<Out>::empty().push(out1);
        match got {
            Ok(_) => {
                self.allocs = Ghost(self.allocs@ + 1);
                self.pool.notify_success();
                let used = exercised_steps(&caps[heap], p, size);
                let r2 = perform(backend, used.as_slice(), names, &mut self.session);
                let ghost m2 = *backend;
                let ghost st2 = self.session@;
                let ghost out2 = Out { result: r2, end: st2 };
                proof {
                    lemma_performed(base, m1, used@, ns, st1, r2, st2, m2);
                    lemma_exercised_spares(caps@[heap as int], p, size, heaps);
                    lemma_spared(m1, used@, ns, st1, r2, st2, m2, heaps);
                    assert(stage_done(m1, used@, ns, st1, out2, m2));
                    lemma_next_stage(a, stages1, ns, st, outs1, m1, used@, out2, m2);
                }
                let ghost stages2 = stages1.push(used@);
                let ghost outs2 = outs1.push(out2);
                let keep: bool = self.pool_holds();
                assert(keep == w.holds());
                let gone: Vec<usize> = if keep {
                    self.pool.push(p, size)
                } else {
                    vec![p]
                };
                assert(gone@ =~= w.leaving(keep, p, size));
                self.frees = Ghost(self.frees@ + gone@.len());
                let mut last = let_go_steps(gone.as_slice());
                last.push(must(Op::Total { channel: 0 }));
                let r3 = perform(backend, last.as_slice(), names, &mut self.session);
                let ghost out3 = Out { result: r3, end: self.session@ };
                proof {
                    lemma_let_go_spares(gone@, heaps);
                    lemma_spare_sum(let_go(gone@), seq![must(Op::Total { channel: 0 })], heaps);
                    assert(last@ =~= let_go(gone@) + seq![must(Op::Total { channel: 0 })]);
                    lemma_performed(base, m2, last@, ns, st2, r3, self.session@, *backend);
                    lemma_spared(m2, last@, ns, st2, r3, self.session@, *backend, heaps);
                    assert(stage_done(m2, last@, ns, st2, out3, *backend));
                    lemma_next_stage(a, stages2, ns, st, outs2, m2, last@, out3, *backend);
                    let outs = outs2.push(out3);
                    assert(outs[0] == out1);
                    assert(stages2.push(last@) =~= turn_stages(w, caps@, size, p, got));
                }
                let us: u64 = self.session.last_us();
                let turn = Turn::Done { us, freed: gone.len(), error: false };
                assert(turn_ran(
                    a,
                    w,
                    ns,
                    caps@,
                    size,
                    p,
                    outs2.push(out3),
                    turn,
                    self@,
                    *backend,
                ));
                turn
            },
            Err(e) => {
                if e == Errno::ENOMEM {
                    let gone = self.pool.notify_enomem();
                    self.frees = Ghost(self.frees@ + gone@.len());
                    let last = let_go_steps(gone.as_slice());
                    let r2 = perform(backend, last.as_slice(), names, &mut self.session);
                    let ghost out2 = Out { result: r2, end: self.session@ };
                    proof {
                        lemma_let_go_spares(gone@, heaps);
                        lemma_performed(base, m1, last@, ns, st1, r2, self.session@, *backend);
                        lemma_spared(m1, last@, ns, st1, r2, self.session@, *backend, heaps);
                        assert(stage_done(m1, last@, ns, st1, out2, *backend));
                        lemma_next_stage(a, stages1, ns, st, outs1, m1, last@, out2, *backend);
                        assert(outs1.push(out2)[0] == out1);
                        assert(stages1.push(last@) =~= turn_stages(w, caps@, size, p, got));
                    }
                    let turn = Turn::NoMemory { freed: gone.len() };
                    assert(turn_ran(
                        a,
                        w,
                        ns,
                        caps@,
                        size,
                        p,
                        outs1.push(out2),
                        turn,
                        self@,
                        *backend,
                    ));
                    turn
                } else {
                    proof {
                        assert(outs1[0] == out1);
                        assert(stages1 =~= turn_stages(w, caps@, size, p, got));
                        assert(turn_ran(
                            a,
                            w,
                            ns,
                            caps@,
                            size,
                            p,
                            outs1,
                            Turn::Failed,
                            self@,
                            *backend,
                        ));
                    }
                    Turn::Failed
                }
            },
        }
    }

    /// Whether the buffer of the last turn was closed at once, and not held on to.
    pub fn closed_at_once(&self, turn: &Turn) -> (r: bool)
        ensures
            r == (turn is Done && !(self@.pool.initial > 0 && self@.index % HOLD_EVERY_NTH == 0)),
    {
        matches!(turn, Turn::Done { .. }) && !self.pool_holds()
    }

    fn pool_holds(&self) -> (r: bool)
        ensures
            r == (self.pool@.initial > 0 && self.index % HOLD_EVERY_NTH == 0),
    {
        self.pool.initial() > 0 && self.index % HOLD_EVERY_NTH == 0
    }
}

/// Whether the end of a worker leads from one backend to another: what it holds is
/// released, and the heaps are closed.
pub open spec fn worker_ended<B: Answers>(a: B, w: Work, names: Seq<Seq<char>>, b: B) -> bool {
    exists|out: Out, m: B, last: Out|
        #![trigger stage_done(a, let_go(items(w.pool.held)), names, w.st, out, m), stage_done(m, cleanup(w.st.slots.len()), names, out.end, last, b)]
        stage_done(a, let_go(items(w.pool.held)), names, w.st, out, m) && stage_done(
            m,
            cleanup(w.st.slots.len()),
            names,
            out.end,
            last,
            b,
        )
}

impl Worker {
    /// Releases all that is held and closes the heaps, and says how many buffers were
    /// held. In the end as many buffers were released as allocated, and nothing that the
    /// worker opened is open.
    pub fn finish<B: HeapBackend + DmaBufBackend + ContainerBackend>(
        &mut self,
        backend: &mut B,
        names: &[&str],
    ) -> (freed: usize)
        requires
            old(self).ready(*old(backend)),
        ensures
            final(backend).valid(),
            final(backend).opened() == old(self)@.base,
            freed == old(self)@.pool.held.len(),
            final(self)@.allocs == old(self)@.allocs,
            final(self)@.frees == old(self)@.frees + freed,
            final(self)@.allocs == final(self)@.frees,
            worker_ended(*old(backend), old(self)@, strs(names@), *final(backend)),
    {
        let ghost a = *backend;
        let ghost w = self@;
        let ghost ns = strs(names@);
        let gone = self.pool.drain_all();
        self.frees = Ghost(self.frees@ + gone@.len());
        let steps = let_go_steps(gone.as_slice());
        let r1 = perform(backend, steps.as_slice(), names, &mut self.session);
        let ghost m = *backend;
        let ghost mid = self.session@;
        proof {
            lemma_performed(self.base@, a, steps@, ns, w.st, r1, mid, m);
        }
        let n: usize = self.session.slots.len();
        let last = cleanup_steps(n);
        let r2 = perform(backend, last.as_slice(), names, &mut self.session);
        proof {
            lemma_cleaned(self.base@, m, n as nat, ns, mid, r2, self.session@, *backend);
            let out = Out { result: r1, end: mid };
            let end = Out { result: r2, end: self.session@ };
            assert(stage_done(a, let_go(items(w.pool.held)), ns, w.st, out, m));
            assert(stage_done(m, cleanup(w.st.slots.len()), ns, out.end, end, *backend));
        }
        gone.len()
    }
}

/// Any number of turns, whatever came of them, and the end of the worker after them:
/// as many buffers were released as allocated.
pub proof fn law_all_released(w: Work)
    requires
        w.wf(),
    ensures
        w.frees + items(w.pool.held).len() == w.allocs,
{
}

/// How many buffers a turn allocated.
pub open spec fn allocated(turn: Turn) -> u64 {
    if turn is Done {
        1
    } else {
        0
    }
}

/// How many buffers a turn released.
pub open spec fn freed_by(turn: Turn) -> usize {
    match turn {
        Turn::NoMemory { freed } => freed,
        Turn::Failed => 0,
        Turn::Done { freed, .. } => freed,
    }
}

/// Whether a turn counts as an error: a failed allocation, or a buffer that did not hold
/// what was written.
pub open spec fn counts_as_error(turn: Turn) -> bool {
    match turn {
        Turn::NoMemory { .. } => false,
        Turn::Failed => true,
        Turn::Done { error, .. } => error,
    }
}

/// Takes a turn into the state that all workers share.
pub fn record(state: &mut AgingState, turn: &Turn)
    ensures
        *final(state) == (AgingState {
            total_allocs: old(state).total_allocs.wrapping_add(allocated(*turn)),
            total_frees: old(state).total_frees.wrapping_add(freed_by(*turn) as u64),
            total_errors: if counts_as_error(*turn) {
                old(state).total_errors.wrapping_add(1)
            } else {
                old(state).total_errors
            },
            total_enomem: if *turn is NoMemory {
                old(state).total_enomem.wrapping_add(1)
            } else {
                old(state).total_enomem
            },
            total_iters: old(state).total_iters.wrapping_add(allocated(*turn)),
            interval_latencies: final(state).interval_latencies,
            ..*old(state)
        }),
        final(state).interval_latencies@ == match *turn {
            Turn::Done { us, .. } => old(state).interval_latencies@.push(us),
            _ => old(state).interval_latencies@,
        },
{
    match *turn {
        Turn::NoMemory { freed } => {
            state.total_enomem = state.total_enomem.wrapping_add(1);
            state.total_frees = state.total_frees.wrapping_add(freed as u64);
        },
        Turn::Failed => {
            state.total_errors = state.total_errors.wrapping_add(1);
        },
        Turn::Done { us, freed, error } => {
            state.total_allocs = state.total_allocs.wrapping_add(1);
            state.total_frees = state.total_frees.wrapping_add(freed as u64);
            state.total_iters = state.total_iters.wrapping_add(1);
            if error {
                state.total_errors = state.total_errors.wrapping_add(1);
            }
            state.interval_latencies.push(us);
        },
    }
}

/// Takes the end of a worker into the state: the buffers that it held are released.
pub fn record_end(state: &mut AgingState, freed: usize)
    ensures
        *final(state) == (AgingState {
            total_frees: old(state).total_frees.wrapping_add(freed as u64),
            ..*old(state)
        }),
{
    state.total_frees = state.total_frees.wrapping_add(freed as u64);
}

/// Whether the shared counters say what is held: as many were allocated as were released
/// and are held.
pub open spec fn balanced(allocs: u64, frees: u64, held: nat) -> bool {
    allocs == (frees + held) % 0x1_0000_0000_0000_0000
}

/// With each turn the shared counters go on to say what is held.
pub proof fn law_counters_say_what_is_held<B: Answers>(
    s: AgingState,
    a: B,
    w: Work,
    names: Seq<Seq<char>>,
    caps: Seq<HeapCaps>,
    size: u64,
    turn: Turn,
    v: Work,
    b: B,
)
    requires
        w.wf(),
        v.wf(),
        turn_made(a, w, names, caps, size, turn, v, b),
        balanced(s.total_allocs, s.total_frees, w.pool.held.len()),
        freed_by(turn) <= u64::MAX,
    ensures
        balanced(
            s.total_allocs.wrapping_add(allocated(turn)),
            s.total_frees.wrapping_add(freed_by(turn) as u64),
            v.pool.held.len(),
        ),
{
    let (p, outs) = choose|p: usize, outs: Seq<Out>| #[trigger]
        turn_ran(a, w, names, caps, size, p, outs, turn, v, b);
    assert(v.allocs == w.allocs + allocated(turn));
    assert(v.frees == w.frees + freed_by(turn));
    assert(w.pool.held.len() + allocated(turn) == v.pool.held.len() + freed_by(turn));
}

} // verus!
