//! A run that goes on for long: workers take turns until they are to stop, and then let
//! go of all that they hold.
use crate::aging::state::{mark_init_error, should_stop, AgingState};
use crate::backend::ioctl::Errno;
use crate::backend::protocol::{Answers, ContainerBackend, DmaBufBackend, HeapBackend};
use crate::bench::pressure::{outcomes, SubTestResult};
use crate::info::types::HeapCaps;
use crate::order::strs;
use crate::workload::fuzzing::{fuzz_made, fuzz_ran, possible, Draw, FuzzWorker};
use crate::workload::stage::Out;
use crate::workload::suite::{
    all_told, collect_test_results, first_failure, maybe_text, results_of, tested,
};
use crate::workload::worker::{
    allocated, begun, counts_as_error, freed_by, none_opened, opened_up, record, record_end, turn_made,
    turn_ran, worker_ended, Turn, Work, Worker, HOLD_EVERY_NTH,
};
use vstd::prelude::*;

verus! {

/// How buffers are used: all of one size in the same way, or by chance and no larger
/// than a cap.
#[derive(Clone, Copy)]
pub enum Style {
    Normal { size: u64 },
    Fuzz { cap: Option<u64> },
}

/// Whether a turn leads from one backend to another, and from one state of a worker.
pub open spec fn took_turn<B: Answers>(
    a: B,
    w: Work,
    names: Seq<Seq<char>>,
    caps: Seq<HeapCaps>,
    style: Style,
    turn: Turn,
    v: Work,
    b: B,
) -> bool {
    match style {
        Style::Normal { size } => turn_made(a, w, names, caps, size, turn, v, b),
        Style::Fuzz { cap } => fuzz_made(a, w, names, caps, cap, turn, v, b),
    }
}

/// Whether turns, one after the other, lead from one backend to another.
pub open spec fn took_turns<B: Answers>(
    a: B,
    w: Work,
    names: Seq<Seq<char>>,
    caps: Seq<HeapCaps>,
    style: Style,
    turns: Seq<Turn>,
    v: Work,
    b: B,
) -> bool
    decreases turns.len(),
{
    if turns.len() == 0 {
        v == w && b == a
    } else {
        exists|m: B, u: Work| #[trigger]
            took_turn(m, u, names, caps, style, turns.last(), v, b) && took_turns(
                a,
                w,
                names,
                caps,
                style,
                turns.drop_last(),
                u,
                m,
            )
    }
}

/// What is counted of turns.
pub ghost struct Tally {
    pub allocs: u64,
    pub frees: u64,
    pub errors: u64,
    pub enomem: u64,
    pub iters: u64,
    pub times: Seq<u64>,
}

/// What a state counts.
pub open spec fn tally_of(s: AgingState) -> Tally {
    Tally {
        allocs: s.total_allocs,
        frees: s.total_frees,
        errors: s.total_errors,
        enomem: s.total_enomem,
        iters: s.total_iters,
        times: s.interval_latencies@,
    }
}

/// What is counted after a turn.
pub open spec fn counted(t: Tally, turn: Turn) -> Tally {
    Tally {
        allocs: t.allocs.wrapping_add(allocated(turn)),
        frees: t.frees.wrapping_add(freed_by(turn) as u64),
        errors: if counts_as_error(turn) {
            t.errors.wrapping_add(1)
        } else {
            t.errors
        },
        enomem: if turn is NoMemory {
            t.enomem.wrapping_add(1)
        } else {
            t.enomem
        },
        iters: t.iters.wrapping_add(allocated(turn)),
        times: match turn {
            Turn::Done { us, .. } => t.times.push(us),
            _ => t.times,
        },
    }
}

/// What is counted after turns.
pub open spec fn all_counted(t: Tally, turns: Seq<Turn>) -> Tally
    decreases turns.len(),
{
    if turns.len() == 0 {
        t
    } else {
        counted(all_counted(t, turns.drop_last()), turns.last())
    }
}

/// Whether the iterations are done.
pub open spec fn iterated(t: Tally, max_iters: Option<u64>) -> bool {
    max_iters matches Some(m) && t.iters >= m
}

/// Whether turns were taken as long as they were to be: until the iterations are done, or
/// so many at most.
pub open spec fn as_long(
    t: Tally,
    running: bool,
    max_iters: Option<u64>,
    limit: nat,
    turns: Seq<Turn>,
    stopped: bool,
) -> bool {
    &&& turns.len() <= limit
    &&& forall|k: int|
        0 <= k < turns.len() ==> running && !iterated(
            #[trigger] all_counted(t, turns.take(k)),
            max_iters,
        )
    &&& stopped == (!running || iterated(all_counted(t, turns), max_iters))
    &&& stopped || turns.len() == limit
}

/// A worker, and how it uses buffers.
pub enum Soaker {
    Normal { worker: Worker, size: u64 },
    Fuzz { worker: FuzzWorker, cap: Option<u64> },
}

impl Soaker {
    /// The worker.
    pub open spec fn worker(self) -> Worker {
        match self {
            Soaker::Normal { worker, .. } => worker,
            Soaker::Fuzz { worker, .. } => worker.worker,
        }
    }

    /// How it uses buffers.
    pub open spec fn style(self) -> Style {
        match self {
            Soaker::Normal { size, .. } => Style::Normal { size },
            Soaker::Fuzz { cap, .. } => Style::Fuzz { cap },
        }
    }

    /// One turn.
    pub fn turn<B: HeapBackend + DmaBufBackend + ContainerBackend>(
        &mut self,
        backend: &mut B,
        names: &[&str],
        caps: &[HeapCaps],
    ) -> (turn: Turn)
        requires
            old(self).worker().ready(*old(backend)),
            caps@.len() == old(self).worker()@.heaps,
        ensures
            final(self).worker().ready(*final(backend)),
            final(self).worker()@.base == old(self).worker()@.base,
            final(self).style() == old(self).style(),
            took_turn(
                *old(backend),
                old(self).worker()@,
                strs(names@),
                caps@,
                old(self).style(),
                turn,
                final(self).worker()@,
                *final(backend),
            ),
    {
        match self {
            Soaker::Normal { worker, size } => worker.turn(backend, names, caps, *size),
            Soaker::Fuzz { worker, cap } => worker.turn(backend, names, caps, *cap),
        }
    }

    /// Whether there is time for what was closed to be released in: after a turn that is
    /// not one of a fuzzing worker, and closed its buffer at once.
    pub fn settles(&self, turn: &Turn) -> (r: bool)
        ensures
            r == (self.style() is Normal && turn is Done && !(self.worker()@.pool.initial > 0
                && self.worker()@.index % HOLD_EVERY_NTH == 0)),
    {
        match self {
            Soaker::Normal { worker, .. } => worker.closed_at_once(turn),
            Soaker::Fuzz { .. } => false,
        }
    }

    /// Takes turns until the iterations are done, or so many at most, and counts them in
    /// the state that all workers share. Says whether the workers are to stop.
    pub fn work<B: HeapBackend + DmaBufBackend + ContainerBackend>(
        &mut self,
        backend: &mut B,
        names: &[&str],
        caps: &[HeapCaps],
        state: &mut AgingState,
        max_iters: Option<u64>,
        limit: u64,
    ) -> (stopped: bool)
        requires
            old(self).worker().ready(*old(backend)),
            caps@.len() == old(self).worker()@.heaps,
        ensures
            final(self).worker().ready(*final(backend)),
            final(self).worker()@.base == old(self).worker()@.base,
            final(self).worker()@.heaps == old(self).worker()@.heaps,
            final(self).style() == old(self).style(),
            exists|turns: Seq<Turn>| #[trigger]
                took_turns(
                    *old(backend),
                    old(self).worker()@,
                    strs(names@),
                    caps@,
                    old(self).style(),
                    turns,
                    final(self).worker()@,
                    *final(backend),
                ) && as_long(
                    tally_of(*old(state)),
                    old(state).running,
                    max_iters,
                    limit as nat,
                    turns,
                    stopped,
                ) && tally_of(*final(state)) == all_counted(tally_of(*old(state)), turns),
            final(state).running == !stopped,
            excess(tally_of(*final(state)), final(self).worker()@) == excess(
                tally_of(*old(state)),
                old(self).worker()@,
            ),
    {
        let ghost a = *backend;
        let ghost w = self.worker()@;
        let ghost ns = strs(names@);
        let ghost t = tally_of(*state);
        let ghost style = self.style();
        let ghost running = state.running;
        let ghost base = self.worker()@.base;
        let ghost mut turns = Seq::<Turn>::empty();
        let mut i: u64 = 0;
        loop
            invariant
                a == *old(backend),
                w == old(self).worker()@,
                t == tally_of(*old(state)),
                style == old(self).style(),
                running == old(state).running,
                base == old(self).worker()@.base,
                i <= limit,
                turns.len() == i,
                self.worker().ready(*backend),
                self.worker()@.base == base,
                self.worker()@.heaps == w.heaps,
                caps@.len() == w.heaps,
                self.style() == style,
                ns == strs(names@),
                took_turns(a, w, ns, caps@, style, turns, self.worker()@, *backend),
                tally_of(*state) == all_counted(t, turns),
                state.running == running,
                turns.len() > 0 ==> running,
                forall|k: int|
                    0 <= k < turns.len() ==> running && !iterated(
                        #[trigger] all_counted(t, turns.take(k)),
                        max_iters,
                    ),
                excess(tally_of(*state), self.worker()@) == excess(t, w),
            decreases limit - i,
        {
            let ghost before = *state;
            let stop: bool = should_stop(state, false, false, max_iters);
            assert(tally_of(*state) == tally_of(before));
            if stop {
                return true;
            }
            if i == limit {
                return false;
            }
            let ghost m = *backend;
            let ghost u = self.worker()@;
            let ghost c = tally_of(*state);
            let turn = self.turn(backend, names, caps);
            record(state, &turn);
            proof {
                lemma_excess(m, u, ns, caps@, style, turn, self.worker()@, *backend, c);
                let next = turns.push(turn);
                assert(next.drop_last() =~= turns);
                assert(tally_of(*state) == counted(c, turn));
                assert forall|k: int| 0 <= k < next.len() implies running && !iterated(
                    #[trigger] all_counted(t, next.take(k)),
                    max_iters,
                ) by {
                    if k < turns.len() {
                        assert(next.take(k) =~= turns.take(k));
                    } else {
                        assert(next.take(k) =~= turns);
                    }
                }
                assert(took_turn(m, u, ns, caps@, style, next.last(), self.worker()@, *backend));
                turns = next;
            }
            i = i + 1;
        }
    }

    /// Releases all that is held and closes the heaps, and counts that in the state that
    /// all workers share. Nothing that the worker opened is open then.
    pub fn finish<B: HeapBackend + DmaBufBackend + ContainerBackend>(
        &mut self,
        backend: &mut B,
        names: &[&str],
        state: &mut AgingState,
    )
        requires
            old(self).worker().ready(*old(backend)),
        ensures
            final(backend).valid(),
            final(backend).opened() == old(self).worker()@.base,
            worker_ended(*old(backend), old(self).worker()@, strs(names@), *final(backend)),
            old(self).worker()@.pool.held.len() <= usize::MAX,
            *final(state) == (AgingState {
                total_frees: old(state).total_frees.wrapping_add(
                    old(self).worker()@.pool.held.len() as u64,
                ),
                ..*old(state)
            }),
    {
        let freed: usize = match self {
            Soaker::Normal { worker, .. } => worker.finish(backend, names),
            Soaker::Fuzz { worker, .. } => worker.finish(backend, names),
        };
        record_end(state, freed);
    }
}

/// By how many the counted allocations exceed the counted releases and what is held.
pub open spec fn excess(t: Tally, w: Work) -> int {
    (t.allocs - t.frees - w.pool.held.len()) % 0x1_0000_0000_0000_0000
}

proof fn lemma_excess<B: Answers>(
    a: B,
    w: Work,
    names: Seq<Seq<char>>,
    caps: Seq<HeapCaps>,
    style: Style,
    turn: Turn,
    v: Work,
    b: B,
    t: Tally,
)
    requires
        w.wf(),
        v.wf(),
        took_turn(a, w, names, caps, style, turn, v, b),
    ensures
        v.heaps == w.heaps,
        excess(counted(t, turn), v) == excess(t, w),
{
    match style {
        Style::Normal { size } => {
            let (p, outs) = choose|p: usize, outs: Seq<Out>| #[trigger]
                turn_ran(a, w, names, caps, size, p, outs, turn, v, b);
            assert(v.allocs == w.allocs + allocated(turn));
            assert(v.frees == w.frees + freed_by(turn));
        },
        Style::Fuzz { cap } => {
            let (d, p, q, outs) = choose|d: Draw, p: usize, q: usize, outs: Seq<Out>| #[trigger]
                fuzz_ran(a, w, names, caps, d, p, q, outs, turn, v, b) && possible(
                    w,
                    caps,
                    cap,
                    d,
                );
            assert(v.allocs == w.allocs + allocated(turn));
            assert(v.frees == w.frees + freed_by(turn));
        },
    }
    assert(w.pool.held.len() + allocated(turn) == v.pool.held.len() + freed_by(turn));
}

/// The number from which a worker counts: its own, or none where chance decides.
pub open spec fn first_index(style: Style, number: u32) -> usize {
    match style {
        Style::Normal { .. } => number as usize,
        Style::Fuzz { .. } => 0,
    }
}

/// A worker as a run needs it: one that goes on from its own number, or one with a
/// generator of its own. There is none where no heap can be opened.
pub fn start_soaker<B: HeapBackend + DmaBufBackend + ContainerBackend>(
    backend: &mut B,
    names: &[&str],
    style: Style,
    max_size: usize,
    max_bytes: u64,
    seed: u64,
    number: u32,
) -> (r: Option<Soaker>)
    requires
        old(backend).valid(),
    ensures
        match r {
            Some(s) => {
                &&& s.worker().ready(*final(backend))
                &&& s.worker()@.base == old(backend).opened()
                &&& begun(
                    s.worker()@,
                    names@.len(),
                    max_size,
                    max_bytes,
                    first_index(style, number),
                )
                &&& s.style() == style
                &&& exists|outs: Seq<Out>| #[trigger]
                    opened_up(
                        *old(backend),
                        strs(names@),
                        outs,
                        s.worker()@,
                        *final(backend),
                    )
            },
            None => {
                &&& final(backend).valid()
                &&& final(backend).opened() == old(backend).opened()
                &&& exists|outs: Seq<Out>| #[trigger]
                    none_opened(*old(backend), strs(names@), outs, *final(backend))
            },
        },
{
    match style {
        Style::Normal { size } => {
            match Worker::start(backend, names, max_size, max_bytes, number as usize) {
                Some(worker) => Some(Soaker::Normal { worker, size }),
                None => None,
            }
        },
        Style::Fuzz { cap } => {
            match FuzzWorker::start(backend, names, max_size, max_bytes, seed, number) {
                Some(worker) => Some(Soaker::Fuzz { worker, cap }),
                None => None,
            }
        },
    }
}

/// Runs a worker from its start to its end: it takes turns until the iterations are done,
/// or so many at most, and lets go of all that it holds. Nothing that it opened is open
/// then, and as many releases are counted as allocations. Where no heap can be opened,
/// that is an error, and ends the run.
#[verifier::rlimit(60)]
pub fn soak<B: HeapBackend + DmaBufBackend + ContainerBackend>(
    backend: &mut B,
    names: &[&str],
    caps: &[HeapCaps],
    style: Style,
    limits: (usize, u64),
    seed: u64,
    number: u32,
    state: &mut AgingState,
    max_iters: Option<u64>,
    limit: u64,
) -> (started: bool)
    requires
        old(backend).valid(),
        caps@.len() == names@.len(),
    ensures
        final(backend).valid(),
        final(backend).opened() == old(backend).opened(),
        gap(*final(state)) == gap(*old(state)),
        !started ==> *final(state) == (AgingState {
            total_errors: old(state).total_errors.wrapping_add(1),
            running: false,
            ..*old(state)
        }) && exists|outs: Seq<Out>| #[trigger]
            none_opened(*old(backend), strs(names@), outs, *final(backend)),
        started ==> soaked(
            *old(backend),
            strs(names@),
            caps@,
            style,
            limits,
            number,
            tally_of(*old(state)),
            old(state).running,
            max_iters,
            limit as nat,
            tally_of(*final(state)),
            final(state).running,
            *final(backend),
        ),
{
    let ghost a = *backend;
    let ghost ns = strs(names@);
    let ghost t = tally_of(*state);
    let ghost running = state.running;
    match start_soaker(backend, names, style, limits.0, limits.1, seed, number) {
        None => {
            mark_init_error(state);
            false
        },
        Some(mut s) => {
            let ghost m1 = *backend;
            let ghost w = s.worker()@;
            let stopped = s.work(backend, names, caps, state, max_iters, limit);
            let ghost m2 = *backend;
            let ghost v = s.worker()@;
            let ghost t2 = tally_of(*state);
            s.finish(backend, names, state);
            proof {
                let turns = choose|turns: Seq<Turn>| #[trigger]
                    took_turns(m1, w, ns, caps@, style, turns, v, m2) && as_long(
                        t,
                        running,
                        max_iters,
                        limit as nat,
                        turns,
                        stopped,
                    ) && t2 == all_counted(t, turns);
                assert(took_turns(m1, w, ns, caps@, style, turns, v, m2));
                let outs = choose|outs: Seq<Out>| #[trigger] opened_up(a, ns, outs, w, m1);
                assert(opened_up(a, ns, outs, w, m1));
                assert(tally_of(*state) == ended(all_counted(t, turns), v));
                assert(gap_of(tally_of(*state)) == excess(t2, v));
                assert(excess(t, w) == gap_of(t));
            }
            true
        },
    }
}

/// By how many the counted allocations exceed the counted releases.
pub open spec fn gap_of(t: Tally) -> int {
    (t.allocs - t.frees) % 0x1_0000_0000_0000_0000
}

/// By how many the counted allocations exceed the counted releases.
pub open spec fn gap(s: AgingState) -> int {
    gap_of(tally_of(s))
}

/// What is counted after the end of a worker.
pub open spec fn ended(t: Tally, w: Work) -> Tally {
    Tally { frees: t.frees.wrapping_add(w.pool.held.len() as u64), ..t }
}

/// Whether a worker, from its start to its end, leads from one backend to another.
pub open spec fn soaked<B: Answers>(
    a: B,
    names: Seq<Seq<char>>,
    caps: Seq<HeapCaps>,
    style: Style,
    limits: (usize, u64),
    number: u32,
    t: Tally,
    running: bool,
    max_iters: Option<u64>,
    limit: nat,
    after: Tally,
    still: bool,
    b: B,
) -> bool {
    exists|outs: Seq<Out>, w: Work, m1: B, turns: Seq<Turn>, v: Work, m2: B|
        #![trigger opened_up(a, names, outs, w, m1), took_turns(m1, w, names, caps, style, turns, v, m2)]
        {
            &&& opened_up(a, names, outs, w, m1)
            &&& begun(w, names.len(), limits.0, limits.1, first_index(style, number))
            &&& took_turns(m1, w, names, caps, style, turns, v, m2)
            &&& as_long(t, running, max_iters, limit, turns, !still)
            &&& after == ended(all_counted(t, turns), v)
            &&& worker_ended(m2, v, names, b)
        }
}

/// The outcome of a run: an input/output error where there were errors.
pub open spec fn run_result(s: AgingState) -> Result<(), Errno> {
    if s.total_errors > 0 {
        Err(Errno::EIO)
    } else {
        Ok(())
    }
}

/// Tells of a run.
pub fn tell_run(state: &AgingState) -> (r: (Vec<SubTestResult>, Option<String>))
    ensures
        outcomes(r.0@) == all_told(
            tested(seq![("aging", run_result(*state), false)]),
            results_of(seq![("aging", run_result(*state), false)]),
        ),
        maybe_text(r.1) == first_failure(
            "aging"@,
            tested(seq![("aging", run_result(*state), false)]),
            results_of(seq![("aging", run_result(*state), false)]),
        ),
{
    let result: Result<(), Errno> = if state.total_errors > 0 {
        Err(Errno::EIO)
    } else {
        Ok(())
    };
    let tests: [(&'static str, Result<(), Errno>, bool); 1] = [("aging", result, false)];
    assert(tests@ =~= seq![("aging", run_result(*state), false)]);
    collect_test_results("aging", &tests)
}

} // verus!
