//! A worker that does what chance says.
use crate::aging::fill::{even_pages, interior_pages, random_pages};
use crate::aging::fuzz::{
    build_weighted_table, capped, capped_size, law_every_pipeline_can_be_chosen, law_table_weight,
    pattern_byte, random_size, random_sync_flags, random_write_pattern, select_pipeline, weight,
    weighted_table, Pipeline, FUZZ_SIZES,
};
use crate::backend::ioctl::{
    Errno, DMA_BUF_SYNC_READ, DMA_BUF_SYNC_RW, DMA_BUF_SYNC_WRITE, SEEK_END,
};
use crate::backend::protocol::{Answers, ContainerBackend, DmaBufBackend, HeapBackend, Pattern};
use crate::info::types::HeapCaps;
use crate::order::strs;
use crate::random::{draw_index, draw_percent, seeded, twin};
use crate::workload::keep::{lemma_one_more_place, lemma_performed, lemma_same_slots};
use crate::workload::run::perform;
use crate::workload::stage::{
    lemma_next_stage, lemma_no_stage, reached, stage_done, staged, Out,
};
use crate::workload::step::{last_us, may, may_mapped, must, Expect, Mark, Op, Step, Want};
use crate::workload::sweep::even;
use crate::workload::worker::{
    all_spare, begun, enter, fresh, leave, lemma_let_go_spares, lemma_pool_counts, lemma_spare_sum,
    lemma_spared, let_go, let_go_steps, obtain, obtain_steps, push_sparse_if_mapped, roomy,
    none_opened, opened_up, sparse_if_mapped, vacant, worker_ended, Turn, Work, Worker,
};
use rand::rngs::SmallRng;
use vstd::prelude::*;

verus! {

/// What chance says of a turn.
pub struct Draw {
    /// The place of the heap.
    pub heap: usize,
    pub size: u64,
    pub pipeline: Pipeline,
    /// How much of the buffer is looked at.
    pub shown: usize,
    /// The byte that is written.
    pub byte: u8,
    /// The direction of an access.
    pub flags: u64,
    /// The pages of which a line is written.
    pub pages: Vec<usize>,
}

/// How much of a buffer is looked at: a share in percent, at least one byte.
pub open spec fn share(size: u64, pct: u64) -> nat {
    let n = (size * pct / 100) as nat;
    if n == 0 {
        1
    } else {
        n
    }
}

/// Whether so much of a buffer may be looked at: all of it, or, where only a part is
/// mapped, between a quarter and three quarters.
pub open spec fn shown_so(pipeline: Pipeline, size: u64, shown: usize) -> bool {
    if pipeline == Pipeline::PartialMmap {
        exists|pct: u64| 25 <= pct < 75 && shown == #[trigger] share(size, pct)
    } else {
        shown == size as usize
    }
}

/// Whether a byte is drawn for what is done with a buffer.
pub open spec fn draws_byte(pipeline: Pipeline) -> bool {
    match pipeline {
        Pipeline::PartialMmap | Pipeline::WriteOnly | Pipeline::WriteReadVerify
        | Pipeline::WriteNoSync | Pipeline::DoubleMmap | Pipeline::LlseekAfterWrite => true,
        _ => false,
    }
}

/// Whether pages are drawn for what is done with a buffer.
pub open spec fn draws_pages(pipeline: Pipeline, caps: HeapCaps) -> bool {
    match pipeline {
        Pipeline::DupAndOperate => caps.can_mmap && caps.can_write,
        Pipeline::WriteReadVerify => false,
        _ => draws_byte(pipeline),
    }
}

/// Whether chance can say this of a turn: a heap that is open, one of the sizes, and
/// something that the heap can do. Nothing is drawn that is not used.
pub open spec fn possible(w: Work, caps: Seq<HeapCaps>, cap: Option<u64>, d: Draw) -> bool {
    &&& w.contexts.contains(d.heap)
    &&& exists|i: int| 0 <= i < 9 && d.size == capped(#[trigger] FUZZ_SIZES@[i], cap)
    &&& weight(caps[d.heap as int], d.pipeline) > 0
    &&& shown_so(d.pipeline, d.size, d.shown)
    &&& if d.pipeline == Pipeline::WriteOnly {
        d.flags == DMA_BUF_SYNC_READ || d.flags == DMA_BUF_SYNC_WRITE || d.flags
            == DMA_BUF_SYNC_RW
    } else {
        d.flags == DMA_BUF_SYNC_WRITE
    }
    &&& !draws_byte(d.pipeline) ==> d.byte == 0
    &&& interior_pages(d.shown as nat, d.pages@)
    &&& !draws_pages(d.pipeline, caps[d.heap as int]) ==> d.pages@ == even(d.shown)
}

/// A buffer is written to in a few places, as one access.
pub open spec fn scribbled(buf: usize, d: Draw, byte: u8, flags: u64) -> Seq<Step> {
    seq![enter(buf, flags)] + sparse_if_mapped(buf, d.shown, d.pages@, byte) + seq![
        leave(buf, flags),
    ]
}

fn push_scribbled(v: &mut Vec<Step>, buf: usize, d: &Draw, byte: u8, flags: u64)
    requires
        interior_pages(d.shown as nat, d.pages@),
    ensures
        final(v)@ == old(v)@ + scribbled(buf, *d, byte, flags),
{
    let ghost start = v@;
    v.push(enter(buf, flags));
    push_sparse_if_mapped(v, buf, d.shown, d.pages.as_slice(), byte);
    v.push(leave(buf, flags));
    assert(v@ =~= start + scribbled(buf, *d, byte, flags));
}

/// A buffer is written as a whole and compared: a difference is noted.
pub open spec fn verified(buf: usize, d: Draw) -> Seq<Step> {
    seq![
        may(Op::Mmap { buf }),
        enter(buf, DMA_BUF_SYNC_WRITE),
        may_mapped(
            Op::Fill { buf, at: 0, len: d.shown, pattern: Pattern::Same(d.byte) },
            buf,
        ),
        leave(buf, DMA_BUF_SYNC_WRITE),
        enter(buf, DMA_BUF_SYNC_READ),
        Step {
            op: Op::Holds { buf, at: 0, len: d.shown, pattern: Pattern::Same(d.byte) },
            expect: Expect::Noted,
            when: Some(buf),
        },
        leave(buf, DMA_BUF_SYNC_READ),
    ]
}

/// What is done with a buffer. Duplicates and fences go to a place of their own. Nothing
/// of it has to succeed.
pub open spec fn pipeline_steps(d: Draw, caps: HeapCaps, buf: usize, other: usize) -> Seq<Step> {
    let map = seq![may(Op::Mmap { buf })];
    match d.pipeline {
        Pipeline::AllocClose => Seq::empty(),
        Pipeline::AllocMmapClose => map,
        Pipeline::PartialMmap => map + scribbled(buf, d, d.byte, DMA_BUF_SYNC_WRITE),
        Pipeline::WriteOnly => map + scribbled(buf, d, d.byte, d.flags),
        Pipeline::WriteReadVerify => verified(buf, d),
        Pipeline::WriteNoSync => map + sparse_if_mapped(buf, d.shown, d.pages@, d.byte),
        Pipeline::DoubleMmap => map + map + if caps.can_sync {
            scribbled(buf, d, d.byte, DMA_BUF_SYNC_WRITE)
        } else {
            sparse_if_mapped(buf, d.shown, d.pages@, d.byte)
        },
        Pipeline::DupAndOperate => seq![may(Op::Dup { to: other, buf })] + if caps.can_mmap
            && caps.can_write {
            seq![may(Op::Mmap { buf: other })] + scribbled(other, d, 0xbb, DMA_BUF_SYNC_WRITE)
        } else {
            Seq::empty()
        },
        Pipeline::LlseekAfterWrite => map + scribbled(buf, d, d.byte, DMA_BUF_SYNC_WRITE) + seq![
            may(Op::Seek { buf, offset: 0, whence: SEEK_END, want: Want::Any }),
        ],
        Pipeline::SyncFileRoundtrip => seq![
            may(Op::Export { to: other, buf, flags: DMA_BUF_SYNC_READ as u32, checked: false }),
            may(Op::Import { buf, flags: DMA_BUF_SYNC_READ as u32, fence: other }),
        ],
        Pipeline::AllocHold => Seq::empty(),
    }
}

/// The steps of what is done with a buffer.
pub fn pipeline_list(d: &Draw, caps: &HeapCaps, buf: usize, other: usize) -> (v: Vec<Step>)
    requires
        interior_pages(d.shown as nat, d.pages@),
    ensures
        v@ == pipeline_steps(*d, *caps, buf, other),
{
    let mut v: Vec<Step> = Vec::new();
    match d.pipeline {
        Pipeline::AllocClose | Pipeline::AllocHold => {},
        Pipeline::AllocMmapClose => {
            v.push(may(Op::Mmap { buf }));
        },
        Pipeline::PartialMmap => {
            v.push(may(Op::Mmap { buf }));
            push_scribbled(&mut v, buf, d, d.byte, DMA_BUF_SYNC_WRITE);
        },
        Pipeline::WriteOnly => {
            v.push(may(Op::Mmap { buf }));
            push_scribbled(&mut v, buf, d, d.byte, d.flags);
        },
        Pipeline::WriteReadVerify => {
            v.push(may(Op::Mmap { buf }));
            v.push(enter(buf, DMA_BUF_SYNC_WRITE));
            v.push(
                may_mapped(
                    Op::Fill { buf, at: 0, len: d.shown, pattern: Pattern::Same(d.byte) },
                    buf,
                ),
            );
            v.push(leave(buf, DMA_BUF_SYNC_WRITE));
            v.push(enter(buf, DMA_BUF_SYNC_READ));
            v.push(
                Step {
                    op: Op::Holds { buf, at: 0, len: d.shown, pattern: Pattern::Same(d.byte) },
                    expect: Expect::Noted,
                    when: Some(buf),
                },
            );
            v.push(leave(buf, DMA_BUF_SYNC_READ));
        },
        Pipeline::WriteNoSync => {
            v.push(may(Op::Mmap { buf }));
            push_sparse_if_mapped(&mut v, buf, d.shown, d.pages.as_slice(), d.byte);
        },
        Pipeline::DoubleMmap => {
            v.push(may(Op::Mmap { buf }));
            v.push(may(Op::Mmap { buf }));
            if caps.can_sync {
                push_scribbled(&mut v, buf, d, d.byte, DMA_BUF_SYNC_WRITE);
            } else {
                push_sparse_if_mapped(&mut v, buf, d.shown, d.pages.as_slice(), d.byte);
            }
        },
        Pipeline::DupAndOperate => {
            v.push(may(Op::Dup { to: other, buf }));
            if caps.can_mmap && caps.can_write {
                v.push(may(Op::Mmap { buf: other }));
                push_scribbled(&mut v, other, d, 0xbb, DMA_BUF_SYNC_WRITE);
            }
        },
        Pipeline::LlseekAfterWrite => {
            v.push(may(Op::Mmap { buf }));
            push_scribbled(&mut v, buf, d, d.byte, DMA_BUF_SYNC_WRITE);
            v.push(may(Op::Seek { buf, offset: 0, whence: SEEK_END, want: Want::Any }));
        },
        Pipeline::SyncFileRoundtrip => {
            let flags: u32 = DMA_BUF_SYNC_READ as u32;
            v.push(may(Op::Export { to: other, buf, flags, checked: false }));
            v.push(may(Op::Import { buf, flags, fence: other }));
        },
    }
    assert(v@ =~= pipeline_steps(*d, *caps, buf, other));
    v
}

proof fn lemma_scribbled_spares(buf: usize, d: Draw, byte: u8, flags: u64, n: nat)
    requires
        buf >= n,
    ensures
        all_spare(scribbled(buf, d, byte, flags), n),
        all_spare(sparse_if_mapped(buf, d.shown, d.pages@, byte), n),
{
    let s = sparse_if_mapped(buf, d.shown, d.pages@, byte);
    assert(all_spare(s, n));
    lemma_spare_sum(seq![enter(buf, flags)], s, n);
    lemma_spare_sum(seq![enter(buf, flags)] + s, seq![leave(buf, flags)], n);
}

proof fn lemma_pipeline_spares(d: Draw, caps: HeapCaps, buf: usize, other: usize, n: nat)
    requires
        buf >= n,
        other >= n,
    ensures
        all_spare(pipeline_steps(d, caps, buf, other), n),
{
    let map = seq![may(Op::Mmap { buf })];
    assert(all_spare(map, n));
    lemma_scribbled_spares(buf, d, d.byte, DMA_BUF_SYNC_WRITE, n);
    lemma_scribbled_spares(buf, d, d.byte, d.flags, n);
    lemma_scribbled_spares(other, d, 0xbb, DMA_BUF_SYNC_WRITE, n);
    let w = scribbled(buf, d, d.byte, DMA_BUF_SYNC_WRITE);
    let s = sparse_if_mapped(buf, d.shown, d.pages@, d.byte);
    lemma_spare_sum(map, w, n);
    lemma_spare_sum(map, scribbled(buf, d, d.byte, d.flags), n);
    lemma_spare_sum(map, s, n);
    lemma_spare_sum(map, map, n);
    lemma_spare_sum(map + map, w, n);
    lemma_spare_sum(map + map, s, n);
    let dup = seq![may(Op::Dup { to: other, buf })];
    let own = seq![may(Op::Mmap { buf: other })];
    let more = scribbled(other, d, 0xbb, DMA_BUF_SYNC_WRITE);
    lemma_spare_sum(own, more, n);
    lemma_spare_sum(dup, own + more, n);
    lemma_spare_sum(dup, Seq::empty(), n);
    let seek = seq![may(Op::Seek { buf, offset: 0, whence: SEEK_END, want: Want::Any })];
    lemma_spare_sum(map + w, seek, n);
}

/// A generator of chance as it was at points of a turn: when only the heap, the size and
/// the pipeline were drawn, and when how much of the buffer is looked at was drawn too.
pub struct Earlier {
    pub chosen: SmallRng,
    pub shared: SmallRng,
}

/// Asks chance about a turn of a worker: for what the turn uses, in the order in which it
/// is used. What the turn comes to may be that less is used; the generator can then be
/// set back to where it was.
pub fn draw_turn(
    rng: &mut SmallRng,
    worker: &Worker,
    caps: &[HeapCaps],
    cap: Option<u64>,
) -> (r: (Draw, Earlier))
    requires
        worker@.wf(),
        caps@.len() == worker@.heaps,
    ensures
        possible(worker@, caps@, cap, r.0),
{
    let i: usize = draw_index(rng, 0, worker.contexts.len());
    let heap: usize = worker.contexts[i];
    assert(worker@.contexts[i as int] == heap);
    let plain: u64 = random_size(rng);
    let size: u64 = capped_size(plain, cap);
    let table = build_weighted_table(&caps[heap]);
    proof {
        law_table_weight(caps@[heap as int]);
    }
    let pipeline = select_pipeline(table.as_slice(), rng);
    proof {
        law_every_pipeline_can_be_chosen(table@, pipeline);
        let c = caps@[heap as int];
        let k = choose|k: int|
            0 <= k < table@.len() && (#[trigger] table@[k]).0 == pipeline && table@[k].1 > 0;
        lemma_listed(c, k);
        let j = choose|j: int| 0 <= j < FUZZ_SIZES@.len() && FUZZ_SIZES@[j] == plain;
        assert(size == capped(FUZZ_SIZES@[j], cap));
        assert(size <= 8_388_608);
    }
    let chosen = twin(rng);
    let shown: usize = if pipeline == Pipeline::PartialMmap {
        let pct: u64 = draw_percent(rng, 25, 75);
        assert(size * pct <= 8_388_608 * 75) by (nonlinear_arith)
            requires
                size <= 8_388_608,
                pct <= 75,
        ;
        let n: u64 = size * pct / 100;
        let part: usize = if n == 0 {
            1
        } else {
            n as usize
        };
        assert(part == share(size, pct));
        part
    } else {
        size as usize
    };
    let shared = twin(rng);
    let flags: u64 = match pipeline {
        Pipeline::WriteOnly => random_sync_flags(rng),
        _ => DMA_BUF_SYNC_WRITE,
    };
    let byte: u8 = match pipeline {
        Pipeline::PartialMmap | Pipeline::WriteOnly | Pipeline::WriteReadVerify
        | Pipeline::WriteNoSync | Pipeline::DoubleMmap | Pipeline::LlseekAfterWrite => pattern_byte(
            random_write_pattern(rng),
        ),
        _ => 0,
    };
    let wanted: bool = match pipeline {
        Pipeline::PartialMmap | Pipeline::WriteOnly | Pipeline::WriteNoSync | Pipeline::DoubleMmap
        | Pipeline::LlseekAfterWrite => true,
        Pipeline::DupAndOperate => caps[heap].can_mmap && caps[heap].can_write,
        _ => false,
    };
    let pages: Vec<usize> = if wanted {
        random_pages(shown, rng)
    } else {
        even_pages(shown)
    };
    assert(!wanted ==> pages@ =~= even(shown));
    (Draw { heap, size, pipeline, shown, byte, flags, pages }, Earlier { chosen, shared })
}

proof fn lemma_listed(caps: HeapCaps, k: int)
    requires
        0 <= k < weighted_table(caps).len(),
        weighted_table(caps)[k].1 > 0,
    ensures
        weight(caps, weighted_table(caps)[k].0) > 0,
{
}

/// The places that are released after a turn: those of the buffer and its companion, or,
/// where the buffer is held on to, those that leave for it.
pub open spec fn released(w: Work, d: Draw, p: usize, q: usize) -> Seq<usize> {
    if d.pipeline == Pipeline::AllocHold {
        w.leaving(true, p, d.size)
    } else {
        seq![p, q]
    }
}

/// How many buffers are released after a turn.
pub open spec fn released_count(w: Work, d: Draw, p: usize) -> nat {
    if d.pipeline == Pipeline::AllocHold {
        w.leaving(true, p, d.size).len()
    } else {
        1
    }
}

/// The stages of a turn.
pub open spec fn fuzz_stages(
    w: Work,
    caps: Seq<HeapCaps>,
    d: Draw,
    p: usize,
    q: usize,
    got: Result<(), Errno>,
) -> Seq<Seq<Step>> {
    let first = obtain(p, d.heap, d.size, d.shown);
    match got {
        Ok(_) => seq![
            first,
            pipeline_steps(d, caps[d.heap as int], p, q),
            let_go(released(w, d, p, q)) + seq![must(Op::Total { channel: 0 })],
        ],
        Err(e) => if e == Errno::ENOMEM {
            seq![first, let_go(w.giving_up())]
        } else {
            seq![first]
        },
    }
}

/// Whether a turn leads from one worker and backend to others.
pub open spec fn fuzz_ran<B: Answers>(
    a: B,
    w: Work,
    names: Seq<Seq<char>>,
    caps: Seq<HeapCaps>,
    d: Draw,
    p: usize,
    q: usize,
    outs: Seq<Out>,
    turn: Turn,
    v: Work,
    b: B,
) -> bool {
    let st = roomy(roomy(fresh(w.st), p), q);
    &&& w.heaps <= p < q
    &&& st.free(p)
    &&& st.free(q)
    &&& outs.len() > 0
    &&& staged(a, fuzz_stages(w, caps, d, p, q, outs[0].result), names, st, outs, b)
    &&& v.st == reached(st, outs)
    &&& v.index == w.index
    &&& v.contexts == w.contexts
    &&& v.heaps == w.heaps
    &&& v.base == w.base
    &&& match outs[0].result {
        Ok(_) => {
            &&& turn matches Turn::Done { us, freed, error } && us == last_us(v.st.marks) && freed
                == released_count(w, d, p) && error == outs[1].end.noted
            &&& v.pool == w.pool_after(d.pipeline == Pipeline::AllocHold, p, d.size)
            &&& v.allocs == w.allocs + 1
            &&& v.frees == w.frees + released_count(w, d, p)
        },
        Err(e) => if e == Errno::ENOMEM {
            &&& turn == Turn::NoMemory { freed: w.giving_up().len() as usize }
            &&& w.giving_up().len() <= usize::MAX
            &&& v.pool == w.pool.starved()
            &&& v.allocs == w.allocs
            &&& v.frees == w.frees + w.giving_up().len()
        } else {
            &&& turn == Turn::Failed
            &&& v.pool == w.pool
            &&& v.allocs == w.allocs
            &&& v.frees == w.frees
        },
    }
}

/// Whether a turn is one that a worker can make by chance.
pub open spec fn fuzz_made<B: Answers>(
    a: B,
    w: Work,
    names: Seq<Seq<char>>,
    caps: Seq<HeapCaps>,
    cap: Option<u64>,
    turn: Turn,
    v: Work,
    b: B,
) -> bool {
    exists|d: Draw, p: usize, q: usize, outs: Seq<Out>| #[trigger]
        fuzz_ran(a, w, names, caps, d, p, q, outs, turn, v, b) && possible(w, caps, cap, d)
}

impl Worker {
    /// One turn, as a generator of chance says.
    #[verifier::rlimit(40)]
    pub(crate) fn fuzz_turn<B: HeapBackend + DmaBufBackend + ContainerBackend>(
        &mut self,
        backend: &mut B,
        names: &[&str],
        caps: &[HeapCaps],
        cap: Option<u64>,
        rng: &mut SmallRng,
    ) -> (turn: Turn)
        requires
            old(self).ready(*old(backend)),
            caps@.len() == old(self)@.heaps,
        ensures
            final(self).ready(*final(backend)),
            fuzz_made(
                *old(backend),
                old(self)@,
                strs(names@),
                caps@,
                cap,
                turn,
                final(self)@,
                *final(backend),
            ),
    {
        let ghost a = *backend;
        let ghost w = self@;
        let ghost base = self.base@;
        let ghost ns = strs(names@);
        let ghost heaps = self.heaps as nat;
        let (d, earlier) = draw_turn(rng, self, caps, cap);
        let hold: bool = d.pipeline == Pipeline::AllocHold;
        self.session.noted = false;
        self.session.marks.clear();
        proof {
            assert(self.session.marks@ =~= Seq::<Mark>::empty());
            lemma_same_slots(base, w.st, self.session@, a.opened());
            self.pool.lemma_inv();
        }
        assert(self.session@ == fresh(w.st));
        let p: usize = vacant(&mut self.session, self.heaps);
        let ghost st0 = self.session@;
        proof {
            if p >= w.st.slots.len() {
                lemma_one_more_place(base, fresh(w.st), a.opened());
            }
        }
        let q: usize = vacant(&mut self.session, p + 1);
        let ghost st = self.session@;
        proof {
            if q >= st0.slots.len() {
                lemma_one_more_place(base, st0, a.opened());
            }
            lemma_pool_counts(w.pool, p, d.size, heaps);
            let k = choose|k: int| 0 <= k < w.contexts.len() && w.contexts[k] == d.heap;
            assert(w.contexts[k] < heaps);
        }
        let first = obtain_steps(p, d.heap, d.size, d.shown);
        let got = perform(backend, first.as_slice(), names, &mut self.session);
        let ghost m1 = *backend;
        let ghost st1 = self.session@;
        let ghost out1 = Out { result: got, end: st1 };
        proof {
            lemma_performed(base, a, first@, ns, st, got, st1, m1);
            lemma_spared(a, first@, ns, st, got, st1, m1, heaps);
            lemma_no_stage(a, ns, st);
            assert(stage_done(a, first@, ns, st, out1, m1));
            lemma_next_stage(
                a,
                Seq::<Seq<Step>>::empty(),
                ns,
                st,
                Seq::<Out>::empty(),
                a,
                first@,
                out1,
                m1,
            );
        }
        let ghost stages1 = Seq::<Seq<Step>>::empty().push(first@);
        let ghost outs1 = Seq::<Out>::empty().push(out1);
        match got {
            Ok(_) => {
                self.allocs = Ghost(self.allocs@ + 1);
                self.pool.notify_success();
                let used = pipeline_list(&d, &caps[d.heap], p, q);
                let r2 = perform(backend, used.as_slice(), names, &mut self.session);
                let ghost m2 = *backend;
                let ghost st2 = self.session@;
                let ghost out2 = Out { result: r2, end: st2 };
                let error: bool = self.session.noted;
                let place: usize = if d.pipeline == Pipeline::DupAndOperate {
                    q
                } else {
                    p
                };
                if !self.session.mapped_at(place) {
                    *rng = earlier.shared;
                }
                proof {
                    lemma_performed(base, m1, used@, ns, st1, r2, st2, m2);
                    lemma_pipeline_spares(d, caps@[d.heap as int], p, q, heaps);
                    lemma_spared(m1, used@, ns, st1, r2, st2, m2, heaps);
                    assert(stage_done(m1, used@, ns, st1, out2, m2));
                    lemma_next_stage(a, stages1, ns, st, outs1, m1, used@, out2, m2);
                }
                let ghost stages2 = stages1.push(used@);
                let ghost outs2 = outs1.push(out2);
                let gone: Vec<usize> = if hold {
                    self.pool.push(p, d.size)
                } else {
                    vec![p, q]
                };
                assert(gone@ =~= released(w, d, p, q));
                let freed: usize = if hold {
                    gone.len()
                } else {
                    1
                };
                self.frees = Ghost(self.frees@ + freed as nat);
                let mut last = let_go_steps(gone.as_slice());
                last.push(must(Op::Total { channel: 0 }));
                let r3 = perform(backend, last.as_slice(), names, &mut self.session);
                let ghost out3 = Out { result: r3, end: self.session@ };
                proof {
                    lemma_let_go_spares(gone@, heaps);
                    lemma_spare_sum(let_go(gone@), seq![must(Op::Total { channel: 0 })], heaps);
                    assert(last@ =~= let_go(gone@) + seq![must(Op::Total { channel: 0 })]);
                    lemma_performed(base, m2, last@, ns, st2, r3, self.session@, *backend);
                    lemma_spared(m2, last@, ns, st2, r3, self.session@, *backend, heaps);
                    assert(stage_done(m2, last@, ns, st2, out3, *backend));
                    lemma_next_stage(a, stages2, ns, st, outs2, m2, last@, out3, *backend);
                    let outs = outs2.push(out3);
                    assert(outs[0] == out1);
                    assert(outs[1] == out2);
                    assert(stages2.push(last@) =~= fuzz_stages(w, caps@, d, p, q, got));
                }
                let us: u64 = self.session.last_us();
                let turn = Turn::Done { us, freed, error };
                assert(fuzz_ran(
                    a,
                    w,
                    ns,
                    caps@,
                    d,
                    p,
                    q,
                    outs2.push(out3),
                    turn,
                    self@,
                    *backend,
                ));
                turn
            },
            Err(e) => {
                *rng = earlier.chosen;
                if e == Errno::ENOMEM {
                    let gone = self.pool.notify_enomem();
                    self.frees = Ghost(self.frees@ + gone@.len());
                    let last = let_go_steps(gone.as_slice());
                    let r2 = perform(backend, last.as_slice(), names, &mut self.session);
                    let ghost out2 = Out { result: r2, end: self.session@ };
                    proof {
                        lemma_let_go_spares(gone@, heaps);
                        lemma_performed(base, m1, last@, ns, st1, r2, self.session@, *backend);
                        lemma_spared(m1, last@, ns, st1, r2, self.session@, *backend, heaps);
                        assert(stage_done(m1, last@, ns, st1, out2, *backend));
                        lemma_next_stage(a, stages1, ns, st, outs1, m1, last@, out2, *backend);
                        assert(outs1.push(out2)[0] == out1);
                        assert(stages1.push(last@) =~= fuzz_stages(w, caps@, d, p, q, got));
                    }
                    let turn = Turn::NoMemory { freed: gone.len() };
                    assert(fuzz_ran(
                        a,
                        w,
                        ns,
                        caps@,
                        d,
                        p,
                        q,
                        outs1.push(out2),
                        turn,
                        self@,
                        *backend,
                    ));
                    turn
                } else {
                    proof {
                        assert(outs1[0] == out1);
                        assert(stages1 =~= fuzz_stages(w, caps@, d, p, q, got));
                        assert(fuzz_ran(
                            a,
                            w,
                            ns,
                            caps@,
                            d,
                            p,
                            q,
                            outs1,
                            Turn::Failed,
                            self@,
                            *backend,
                        ));
                    }
                    Turn::Failed
                }
            },
        }
    }
}

/// The seed of a worker: the seed of all and the worker's number together, from zero again
/// past the largest.
pub fn worker_seed(seed: u64, number: u32) -> (r: u64)
    ensures
        r == seed.wrapping_add(number as u64),
{
    seed.wrapping_add(number as u64)
}

/// A worker with a generator of its own, from the seed of all and its number.
pub struct FuzzWorker {
    pub worker: Worker,
    pub rng: SmallRng,
}

impl FuzzWorker {
    /// A worker on all those heaps that can be opened, that holds on to at most so many
    /// buffers of at most so many bytes. Its generator starts from [`worker_seed`]. There is
    /// none where no heap can be opened.
    pub fn start<B: HeapBackend + DmaBufBackend + ContainerBackend>(
        backend: &mut B,
        names: &[&str],
        max_size: usize,
        max_bytes: u64,
        seed: u64,
        number: u32,
    ) -> (r: Option<FuzzWorker>)
        requires
            old(backend).valid(),
        ensures
            match r {
                Some(f) => {
                    &&& f.worker.ready(*final(backend))
                    &&& f.worker@.base == old(backend).opened()
                    &&& begun(f.worker@, names@.len(), max_size, max_bytes, 0)
                    &&& exists|outs: Seq<Out>| #[trigger]
                        opened_up(*old(backend), strs(names@), outs, f.worker@, *final(backend))
                },
                None => {
                    &&& final(backend).valid()
                    &&& final(backend).opened() == old(backend).opened()
                    &&& exists|outs: Seq<Out>| #[trigger]
                        none_opened(*old(backend), strs(names@), outs, *final(backend))
                },
            },
    {
        let rng = seeded(worker_seed(seed, number));
        match Worker::start(backend, names, max_size, max_bytes, 0) {
            Some(worker) => Some(FuzzWorker { worker, rng }),
            None => None,
        }
    }

    /// One turn, as chance says.
    pub fn turn<B: HeapBackend + DmaBufBackend + ContainerBackend>(
        &mut self,
        backend: &mut B,
        names: &[&str],
        caps: &[HeapCaps],
        cap: Option<u64>,
    ) -> (turn: Turn)
        requires
            old(self).worker.ready(*old(backend)),
            caps@.len() == old(self).worker@.heaps,
        ensures
            final(self).worker.ready(*final(backend)),
            final(self).worker@.base == old(self).worker@.base,
            fuzz_made(
                *old(backend),
                old(self).worker@,
                strs(names@),
                caps@,
                cap,
                turn,
                final(self).worker@,
                *final(backend),
            ),
    {
        self.worker.fuzz_turn(backend, names, caps, cap, &mut self.rng)
    }

    /// Releases all that is held and closes the heaps, and says how many buffers were
    /// held. In the end as many buffers were released as allocated, and nothing that the
    /// worker opened is open.
    pub fn finish<B: HeapBackend + DmaBufBackend + ContainerBackend>(
        &mut self,
        backend: &mut B,
        names: &[&str],
    ) -> (freed: usize)
        requires
            old(self).worker.ready(*old(backend)),
        ensures
            final(backend).valid(),
            final(backend).opened() == old(self).worker@.base,
            freed == old(self).worker@.pool.held.len(),
            final(self).worker@.allocs == final(self).worker@.frees,
            worker_ended(*old(backend), old(self).worker@, strs(names@), *final(backend)),
    {
        self.worker.finish(backend, names)
    }
}

} // verus!
