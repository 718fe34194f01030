//! Workloads in stages: what a stage does depends on how the ones before it went.
use crate::backend::ioctl::Errno;
use crate::backend::protocol::{Answers, ContainerBackend, DmaBufBackend, HeapBackend};
use crate::order::strs;
use crate::workload::keep::{
    kept, lemma_anything, lemma_blank, lemma_cleaned, lemma_cleanup_anything, lemma_performed,
};
use crate::workload::run::{cleanup_steps, perform, Session};
use crate::workload::step::{blank, cleanup, performed, State, Step};
use vstd::prelude::*;

verus! {

/// What a stage came to: its result, and how things stand after it.
pub ghost struct Out {
    pub result: Result<(), Errno>,
    pub end: State,
}

/// Whether a stage leads from one backend to another.
pub open spec fn stage_done<B: Answers>(
    a: B,
    steps: Seq<Step>,
    names: Seq<Seq<char>>,
    st: State,
    out: Out,
    b: B,
) -> bool {
    performed(a, steps, names, st, out.result, out.end, b)
}

/// How things stand after stages.
pub open spec fn reached(st: State, outs: Seq<Out>) -> State {
    if outs.len() == 0 {
        st
    } else {
        outs.last().end
    }
}

/// Whether stages, one after the other whatever they come to, lead from one backend to
/// another.
pub open spec fn staged<B: Answers>(
    a: B,
    stages: Seq<Seq<Step>>,
    names: Seq<Seq<char>>,
    st: State,
    outs: Seq<Out>,
    b: B,
) -> bool
    decreases stages.len(),
{
    &&& outs.len() == stages.len()
    &&& if stages.len() == 0 {
        b == a
    } else {
        exists|m: B|
            staged(a, stages.drop_last(), names, st, outs.drop_last(), m) && #[trigger] stage_done(
                m,
                stages.last(),
                names,
                reached(st, outs.drop_last()),
                outs.last(),
                b,
            )
    }
}

/// No stage leads nowhere else.
pub proof fn lemma_no_stage<B: Answers>(a: B, names: Seq<Seq<char>>, st: State)
    ensures
        staged(a, Seq::<Seq<Step>>::empty(), names, st, Seq::<Out>::empty(), a),
{
}

/// One more stage leads further.
pub proof fn lemma_next_stage<B: Answers>(
    a: B,
    stages: Seq<Seq<Step>>,
    names: Seq<Seq<char>>,
    st: State,
    outs: Seq<Out>,
    m: B,
    steps: Seq<Step>,
    out: Out,
    b: B,
)
    requires
        staged(a, stages, names, st, outs, m),
        stage_done(m, steps, names, reached(st, outs), out, b),
    ensures
        staged(a, stages.push(steps), names, st, outs.push(out), b),
        reached(st, outs.push(out)) == out.end,
{
    assert(stages.push(steps).drop_last() =~= stages);
    assert(outs.push(out).drop_last() =~= outs);
    assert(stage_done(
        m,
        stages.push(steps).last(),
        names,
        reached(st, outs.push(out).drop_last()),
        outs.push(out).last(),
        b,
    ));
}

/// Whether stages, followed by the cleanup, lead from one backend to another.
pub open spec fn staged_ran<B: Answers>(
    a: B,
    stages: Seq<Seq<Step>>,
    names: Seq<Seq<char>>,
    slots: nat,
    outs: Seq<Out>,
    b: B,
) -> bool {
    exists|m: B, last: Out|
        staged(a, stages, names, blank(slots), outs, m) && #[trigger] stage_done(
            m,
            cleanup(slots),
            names,
            reached(blank(slots), outs),
            last,
            b,
        )
}

/// A workload in stages, under way.
pub struct Staged {
    pub session: Session,
    pub slots: usize,
    pub stages: Ghost<Seq<Seq<Step>>>,
    pub outs: Ghost<Seq<Out>>,
}

impl Staged {
    /// Whether the stages so far led from one backend to another.
    pub open spec fn led<B: Answers>(self, a: B, names: Seq<Seq<char>>, b: B) -> bool {
        &&& a.valid()
        &&& b.valid()
        &&& staged(a, self.stages@, names, blank(self.slots as nat), self.outs@, b)
        &&& self.session@ == reached(blank(self.slots as nat), self.outs@)
        &&& self.session@.slots.len() == self.slots
        &&& kept(a.opened(), self.session@, b.opened())
    }

    /// A workload before its first stage.
    pub(crate) fn new<B: HeapBackend + DmaBufBackend + ContainerBackend>(
        slots: usize,
        backend: &B,
        names: &[&str],
    ) -> (r: Staged)
        requires
            backend.valid(),
        ensures
            r.led(*backend, strs(names@), *backend),
            r.slots == slots,
            r.stages@ == Seq::<Seq<Step>>::empty(),
            r.outs@ == Seq::<Out>::empty(),
    {
        proof {
            lemma_blank(backend.opened(), slots as nat);
        }
        Staged {
            session: Session::new(slots),
            slots,
            stages: Ghost(Seq::empty()),
            outs: Ghost(Seq::empty()),
        }
    }

    /// Performs a stage.
    pub(crate) fn stage<B: HeapBackend + DmaBufBackend + ContainerBackend>(
        &mut self,
        backend: &mut B,
        steps: &[Step],
        names: &[&str],
        Ghost(a): Ghost<B>,
    ) -> (r: Result<(), Errno>)
        requires
            old(self).led(a, strs(names@), *old(backend)),
        ensures
            final(self).led(a, strs(names@), *final(backend)),
            final(self).slots == old(self).slots,
            final(self).stages@ == old(self).stages@.push(steps@),
            final(self).outs@ == old(self).outs@.push(Out { result: r, end: final(self).session@ }),
    {
        let ghost m = *backend;
        let ghost before = self.session@;
        let ghost stages = self.stages@;
        let ghost outs = self.outs@;
        let ghost n = strs(names@);
        let r = perform(backend, steps, names, &mut self.session);
        let ghost out = Out { result: r, end: self.session@ };
        proof {
            self.stages@ = stages.push(steps@);
            self.outs@ = outs.push(out);
            lemma_performed(a.opened(), m, steps@, n, before, r, self.session@, *backend);
            assert(self.stages@.drop_last() =~= stages);
            assert(self.outs@.drop_last() =~= outs);
            assert(stage_done(m, self.stages@.last(), n, before, self.outs@.last(), *backend));
            assert(staged(a, self.stages@, n, blank(self.slots as nat), self.outs@, *backend));
        }
        r
    }

    /// Closes all that is still open.
    pub(crate) fn end<B: HeapBackend + DmaBufBackend + ContainerBackend>(
        &mut self,
        backend: &mut B,
        names: &[&str],
        Ghost(a): Ghost<B>,
    )
        requires
            old(self).led(a, strs(names@), *old(backend)),
        ensures
            final(backend).valid(),
            final(backend).opened() == a.opened(),
            staged_ran(
                a,
                old(self).stages@,
                strs(names@),
                old(self).slots as nat,
                old(self).outs@,
                *final(backend),
            ),
    {
        let ghost m = *backend;
        let ghost before = self.session@;
        let last = cleanup_steps(self.slots);
        let r = perform(backend, last.as_slice(), names, &mut self.session);
        proof {
            lemma_cleanup_anything(self.slots as nat);
            lemma_anything(m, last@, strs(names@), before, r, self.session@, *backend);
            lemma_cleaned(
                a.opened(),
                m,
                self.slots as nat,
                strs(names@),
                before,
                r,
                self.session@,
                *backend,
            );
            let out = Out { result: r, end: self.session@ };
            assert(stage_done(m, cleanup(self.slots as nat), strs(names@), before, out, *backend));
        }
    }
}

} // verus!
