//! The times that a workload notes.
use crate::backend::ioctl::Errno;
use crate::backend::protocol::{Answers, Call, Reply};
use crate::workload::clock::lap_us;
use crate::workload::run::of_channel;
use crate::workload::script::repeated;
use crate::workload::step::{
    after, blank, call_of, channels, cleanup, local, must, outcome, performed, ran, stepped,
    Expect, Mark, Op, State, Step, Verdict,
};
use vstd::prelude::*;

verus! {

/// The channel on which a step notes a time.
pub open spec fn noted_on(step: Step) -> Option<usize> {
    match step.op {
        Op::Split { channel } => Some(channel),
        Op::Total { channel } => Some(channel),
        _ => None,
    }
}

/// The channels on which steps note times.
pub open spec fn noted_by(steps: Seq<Step>) -> Seq<usize>
    decreases steps.len(),
{
    if steps.len() == 0 {
        Seq::empty()
    } else {
        match noted_on(steps[0]) {
            Some(c) => seq![c] + noted_by(steps.skip(1)),
            None => noted_by(steps.skip(1)),
        }
    }
}

/// Whether a step cannot end a workload well, and notes its time in any case.
pub open spec fn goes_on(step: Step) -> bool {
    &&& !(step.expect is OrEnd)
    &&& !(step.expect is NotedOrEnd)
    &&& noted_on(step) is Some ==> step.when is None
}

/// Whether none of some steps can end a workload well.
pub open spec fn all_go_on(steps: Seq<Step>) -> bool {
    forall|i: int| 0 <= i < steps.len() ==> goes_on(#[trigger] steps[i])
}

/// A workload that ends well has noted all its times: as many, and on the same
/// channels, as its steps say.
pub proof fn lemma_all_noted<B: Answers>(
    a: B,
    steps: Seq<Step>,
    names: Seq<Seq<char>>,
    st: State,
    result: Result<(), Errno>,
    end: State,
    b: B,
)
    requires
        all_go_on(steps),
        result is Ok,
        performed(a, steps, names, st, result, end, b),
    ensures
        channels(end.marks) == channels(st.marks) + noted_by(steps),
    decreases steps.len(),
{
    if steps.len() > 0 {
        let (verdict, mid, m) = choose|verdict: Verdict, mid: State, m: B| #[trigger]
            stepped(a, steps[0], names, st, verdict, mid, m) && match verdict {
                Verdict::Go => performed(m, steps.skip(1), names, mid, result, end, b),
                Verdict::End(r) => result == r && end == mid && b == m,
            };
        assert(goes_on(steps[0]));
        assert(verdict is Go);
        let rest = steps.skip(1);
        assert forall|i: int| 0 <= i < rest.len() implies goes_on(#[trigger] rest[i]) by {
            assert(rest[i] == steps[i + 1]);
        }
        lemma_all_noted(m, rest, names, mid, result, end, b);
        match noted_on(steps[0]) {
            Some(c) => {
                assert(channels(mid.marks) =~= channels(st.marks).push(c));
                assert(channels(st.marks).push(c) + noted_by(rest) =~= channels(st.marks) + (
                seq![c] + noted_by(rest)));
            },
            None => {
                assert(mid.marks == st.marks);
            },
        }
    } else {
        assert(channels(st.marks) + Seq::<usize>::empty() =~= channels(st.marks));
    }
}

/// A workload that ends well has noted all its times: as many, and on the same
/// channels, as its steps say.
pub proof fn law_all_times_noted<B: Answers>(
    a: B,
    steps: Seq<Step>,
    names: Seq<Seq<char>>,
    slots: nat,
    result: Result<(), Errno>,
    noted: Seq<Mark>,
    b: B,
)
    requires
        all_go_on(steps),
        result is Ok,
        ran(a, steps, names, slots, result, noted, b),
    ensures
        channels(noted) == noted_by(steps),
{
    let (r, mid, m, end) = choose|r: Result<(), Errno>, mid: State, m: B, end: State|
        #![trigger performed(a, steps, names, blank(slots), r, mid, m), performed(m, cleanup(slots), names, mid, Ok::<(), Errno>(()), end, b)]
        {
            &&& performed(a, steps, names, blank(slots), r, mid, m)
            &&& performed(m, cleanup(slots), names, mid, Ok::<(), Errno>(()), end, b)
            &&& result == outcome(r, mid.noted)
            &&& noted == mid.marks
        };
    lemma_all_noted(a, steps, names, blank(slots), r, mid, m);
    assert(channels(blank(slots).marks) =~= Seq::<usize>::empty());
    assert(Seq::<usize>::empty() + noted_by(steps) =~= noted_by(steps));
}

/// Whether a step neither starts the stopwatch nor looks at it.
pub open spec fn silent(step: Step) -> bool {
    !(step.op is Start || step.op is Split || step.op is Total)
}

/// Whether no step of some starts the stopwatch or looks at it.
pub open spec fn all_silent(steps: Seq<Step>) -> bool {
    forall|i: int| 0 <= i < steps.len() ==> silent(#[trigger] steps[i])
}

/// Steps that leave the stopwatch alone, done one after the other and to the end.
proof fn lemma_silent<B: Answers>(
    a: B,
    steps: Seq<Step>,
    rest: Seq<Step>,
    names: Seq<Seq<char>>,
    st: State,
    end: State,
    b: B,
) -> (r: (State, B))
    requires
        all_silent(steps),
        all_go_on(steps),
        performed(a, steps + rest, names, st, Ok::<(), Errno>(()), end, b),
    ensures
        r.0.marks == st.marks,
        r.0.started == st.started,
        r.0.looked == st.looked,
        performed(r.1, rest, names, r.0, Ok::<(), Errno>(()), end, b),
    decreases steps.len(),
{
    let all = steps + rest;
    if steps.len() == 0 {
        assert(all =~= rest);
        (st, a)
    } else {
        let ok = Ok::<(), Errno>(());
        let (verdict, mid, m) = choose|verdict: Verdict, mid: State, m: B| #[trigger]
            stepped(a, all[0], names, st, verdict, mid, m) && match verdict {
                Verdict::Go => performed(m, all.skip(1), names, mid, ok, end, b),
                Verdict::End(r) => ok == r && end == mid && b == m,
            };
        assert(all[0] == steps[0]);
        assert(goes_on(steps[0]) && silent(steps[0]));
        assert(all.skip(1) =~= steps.skip(1) + rest);
        assert forall|i: int| 0 <= i < steps.skip(1).len() implies goes_on(
            #[trigger] steps.skip(1)[i],
        ) && silent(steps.skip(1)[i]) by {
            assert(steps.skip(1)[i] == steps[i + 1]);
        }
        lemma_silent(m, steps.skip(1), rest, names, mid, end, b)
    }
}

/// The time that is noted after the stopwatch was started and some steps were done is that
/// between the two readings of the clock, whether it is asked for since the start or since
/// the last look.
pub proof fn law_time_between_start_and_look<B: Answers>(
    a: B,
    steps: Seq<Step>,
    look: Op,
    channel: usize,
    names: Seq<Seq<char>>,
    st: State,
    end: State,
    b: B,
) -> (readings: (u128, u128))
    requires
        all_silent(steps),
        all_go_on(steps),
        look == (Op::Split { channel }) || look == (Op::Total { channel }),
        performed(
            a,
            seq![must(Op::Start)] + (steps + seq![must(look)]),
            names,
            st,
            Ok::<(), Errno>(()),
            end,
            b,
        ),
    ensures
        end.started == readings.0,
        look is Split ==> end.looked == readings.1,
        end.marks == st.marks.push(Mark { channel, us: lap_us(readings.0, readings.1) }),
{
    let ok = Ok::<(), Errno>(());
    let all = seq![must(Op::Start)] + (steps + seq![must(look)]);
    let (verdict, mid, m) = choose|verdict: Verdict, mid: State, m: B| #[trigger]
        stepped(a, all[0], names, st, verdict, mid, m) && match verdict {
            Verdict::Go => performed(m, all.skip(1), names, mid, ok, end, b),
            Verdict::End(r) => ok == r && end == mid && b == m,
        };
    assert(all.skip(1) =~= steps + seq![must(look)]);
    let t0 = mid.started;
    assert(mid.looked == t0 && mid.marks == st.marks);
    let (before, c) = lemma_silent(m, steps, seq![must(look)], names, mid, end, b);
    let last = seq![must(look)];
    let (verdict1, mid1, m1) = choose|verdict: Verdict, mid: State, m: B| #[trigger]
        stepped(c, last[0], names, before, verdict, mid, m) && match verdict {
            Verdict::Go => performed(m, last.skip(1), names, mid, ok, end, b),
            Verdict::End(r) => ok == r && end == mid && b == m,
        };
    assert(last.skip(1).len() == 0);
    assert(end == mid1);
    let t = choose|t: u128| mid1 == #[trigger] local(last[0], before, t);
    (t0, t)
}

/// How often a channel occurs.
pub open spec fn occurrences(v: Seq<usize>, c: usize) -> nat
    decreases v.len(),
{
    if v.len() == 0 {
        0
    } else {
        occurrences(v.drop_last(), c) + if v.last() == c {
            1nat
        } else {
            0
        }
    }
}

/// Each part counts for itself.
pub proof fn lemma_occurrences_sum(a: Seq<usize>, b: Seq<usize>, c: usize)
    ensures
        occurrences(a + b, c) == occurrences(a, c) + occurrences(b, c),
    decreases b.len(),
{
    if b.len() == 0 {
        assert(a + b =~= a);
    } else {
        assert((a + b).drop_last() =~= a + b.drop_last());
        lemma_occurrences_sum(a, b.drop_last(), c);
    }
}

/// A channel has as many times as it occurs.
pub proof fn lemma_times_len(v: Seq<Mark>, c: usize)
    ensures
        of_channel(v, c).len() == occurrences(channels(v), c),
    decreases v.len(),
{
    if v.len() > 0 {
        lemma_times_len(v.drop_last(), c);
        assert(channels(v).drop_last() =~= channels(v.drop_last()));
    }
}

/// Steps after others note their times after theirs.
pub proof fn lemma_noted_sum(a: Seq<Step>, b: Seq<Step>)
    ensures
        noted_by(a + b) == noted_by(a) + noted_by(b),
    decreases a.len(),
{
    if a.len() == 0 {
        assert(a + b =~= b);
        assert(Seq::<usize>::empty() + noted_by(b) =~= noted_by(b));
    } else {
        assert((a + b).skip(1) =~= a.skip(1) + b);
        lemma_noted_sum(a.skip(1), b);
        match noted_on(a[0]) {
            Some(c) => {
                assert((seq![c] + noted_by(a.skip(1))) + noted_by(b) =~= seq![c] + (noted_by(
                    a.skip(1),
                ) + noted_by(b)));
            },
            None => {},
        }
    }
}

/// Steps over and over note their times as often.
pub proof fn lemma_noted_repeated(body: Seq<Step>, n: nat, c: usize)
    ensures
        occurrences(noted_by(repeated(body, n)), c) == n * occurrences(noted_by(body), c),
    decreases n,
{
    let k = occurrences(noted_by(body), c);
    if n > 0 {
        let before = repeated(body, (n - 1) as nat);
        lemma_noted_repeated(body, (n - 1) as nat, c);
        lemma_noted_sum(before, body);
        lemma_occurrences_sum(noted_by(before), noted_by(body), c);
        assert((n - 1) * k + k == n * k) by (nonlinear_arith);
    } else {
        assert(0 * k == 0);
    }
}

/// Steps that go on, over and over, go on.
pub proof fn lemma_repeated_go_on(body: Seq<Step>, n: nat)
    requires
        all_go_on(body),
    ensures
        all_go_on(repeated(body, n)),
    decreases n,
{
    if n > 0 {
        lemma_repeated_go_on(body, (n - 1) as nat);
        lemma_go_on_sum(repeated(body, (n - 1) as nat), body);
    }
}

/// Steps that go on after others that do go on.
pub proof fn lemma_go_on_sum(a: Seq<Step>, b: Seq<Step>)
    requires
        all_go_on(a),
        all_go_on(b),
    ensures
        all_go_on(a + b),
{
    assert forall|i: int| 0 <= i < (a + b).len() implies goes_on(#[trigger] (a + b)[i]) by {
        if i < a.len() {
            assert((a + b)[i] == a[i]);
        } else {
            assert((a + b)[i] == b[i - a.len()]);
        }
    }
}

/// Whether steps note no time, and none of them can end a workload well.
pub open spec fn quiet(steps: Seq<Step>) -> bool {
    forall|i: int|
        0 <= i < steps.len() ==> noted_on(#[trigger] steps[i]) is None && goes_on(steps[i])
}

/// Quiet steps after quiet ones are quiet.
pub proof fn lemma_quiet_sum(a: Seq<Step>, b: Seq<Step>)
    requires
        quiet(a),
        quiet(b),
    ensures
        quiet(a + b),
{
    assert forall|i: int| 0 <= i < (a + b).len() implies noted_on(#[trigger] (a + b)[i]) is None
        && goes_on((a + b)[i]) by {
        if i < a.len() {
            assert((a + b)[i] == a[i]);
        } else {
            assert((a + b)[i] == b[i - a.len()]);
        }
    }
}

/// Quiet steps note nothing on any channel.
pub proof fn lemma_quiet(s: Seq<Step>, c: usize)
    requires
        quiet(s),
    ensures
        occurrences(noted_by(s), c) == 0,
        all_go_on(s),
    decreases s.len(),
{
    if s.len() > 0 {
        assert forall|i: int| 0 <= i < s.skip(1).len() implies noted_on(#[trigger] s.skip(1)[i])
            is None && goes_on(s.skip(1)[i]) by {
            assert(s.skip(1)[i] == s[i + 1]);
        }
        lemma_quiet(s.skip(1), c);
        assert(noted_on(s[0]) is None);
    }
}

/// A look at the stopwatch notes one time, on its channel.
pub proof fn lemma_note(step: Step, channel: usize, c: usize)
    requires
        noted_on(step) == Some(channel),
        goes_on(step),
    ensures
        occurrences(noted_by(seq![step]), c) == if c == channel {
            1nat
        } else {
            0
        },
        all_go_on(seq![step]),
{
    let one = seq![step];
    assert(one.skip(1) =~= Seq::<Step>::empty());
    assert(noted_by(one.skip(1)) =~= Seq::<usize>::empty());
    assert(noted_by(one) =~= seq![channel]);
    assert(seq![channel].drop_last() =~= Seq::<usize>::empty());
    assert(occurrences(seq![channel].drop_last(), c) == 0);
}

/// What steps after others note is the sum.
pub proof fn lemma_notes_sum(a: Seq<Step>, b: Seq<Step>, c: usize)
    requires
        all_go_on(a),
        all_go_on(b),
    ensures
        occurrences(noted_by(a + b), c) == occurrences(noted_by(a), c) + occurrences(
            noted_by(b),
            c,
        ),
        all_go_on(a + b),
{
    lemma_noted_sum(a, b);
    lemma_occurrences_sum(noted_by(a), noted_by(b), c);
    lemma_go_on_sum(a, b);
}

/// Whether steps came, after some of them, to an allocation of a size that the backend
/// answered with an error.
pub open spec fn refused_on_the_way<B: Answers>(
    a: B,
    steps: Seq<Step>,
    names: Seq<Seq<char>>,
    st: State,
    size: u64,
    e: Errno,
) -> bool {
    exists|i: int, mid: State, x: B, call: Call, y: B|
        #![trigger performed(a, steps.take(i), names, st, Ok::<(), Errno>(()), mid, x), x.answers(call, Reply::Failed(e), y)]
        {
            &&& 0 <= i < steps.len()
            &&& performed(a, steps.take(i), names, st, Ok::<(), Errno>(()), mid, x)
            &&& call_of(steps[i], mid, names) == Some(call)
            &&& x.answers(call, Reply::Failed(e), y)
            &&& call matches Call::Allocate { len, .. } && len == size
        }
}

/// Whether a step goes on, or is an allocation of a size that an error may end.
pub open spec fn goes_on_unless(step: Step, size: u64, e: Errno) -> bool {
    goes_on(step) || (step.expect == Expect::OrEnd(e) && (step.op matches Op::Allocate {
        len,
        ..
    } && len == size))
}

/// Whether steps go on, unless an allocation of a size is refused with an error.
pub open spec fn all_go_on_unless(steps: Seq<Step>, size: u64, e: Errno) -> bool {
    forall|i: int| 0 <= i < steps.len() ==> goes_on_unless(#[trigger] steps[i], size, e)
}

proof fn lemma_refused_later<B: Answers>(
    a: B,
    steps: Seq<Step>,
    names: Seq<Seq<char>>,
    st: State,
    mid: State,
    m: B,
    size: u64,
    e: Errno,
)
    requires
        steps.len() > 0,
        stepped(a, steps[0], names, st, Verdict::Go, mid, m),
        refused_on_the_way(m, steps.skip(1), names, mid, size, e),
    ensures
        refused_on_the_way(a, steps, names, st, size, e),
{
    let rest = steps.skip(1);
    let ok = Ok::<(), Errno>(());
    let (i, later, x, call, y) = choose|i: int, later: State, x: B, call: Call, y: B|
        #![trigger performed(m, rest.take(i), names, mid, ok, later, x), x.answers(call, Reply::Failed(e), y)]
        {
            &&& 0 <= i < rest.len()
            &&& performed(m, rest.take(i), names, mid, ok, later, x)
            &&& call_of(rest[i], later, names) == Some(call)
            &&& x.answers(call, Reply::Failed(e), y)
            &&& call matches Call::Allocate { len, .. } && len == size
        };
    let more = steps.take(i + 1);
    assert(more[0] == steps[0]);
    assert(more.skip(1) =~= rest.take(i));
    assert(performed(a, more, names, st, ok, later, x));
    assert(steps[i + 1] == rest[i]);
    assert(x.answers(call, Reply::Failed(e), y));
}

/// Steps that end well have noted all their times on a channel, unless an allocation was
/// refused on the way.
pub proof fn lemma_noted_unless_refused<B: Answers>(
    a: B,
    steps: Seq<Step>,
    names: Seq<Seq<char>>,
    st: State,
    result: Result<(), Errno>,
    end: State,
    b: B,
    size: u64,
    e: Errno,
    c: usize,
)
    requires
        all_go_on_unless(steps, size, e),
        result is Ok,
        performed(a, steps, names, st, result, end, b),
    ensures
        occurrences(channels(end.marks), c) == occurrences(channels(st.marks), c) + occurrences(
            noted_by(steps),
            c,
        ) || refused_on_the_way(a, steps, names, st, size, e),
    decreases steps.len(),
{
    if steps.len() > 0 {
        let (verdict, mid, m) = choose|verdict: Verdict, mid: State, m: B| #[trigger]
            stepped(a, steps[0], names, st, verdict, mid, m) && match verdict {
                Verdict::Go => performed(m, steps.skip(1), names, mid, result, end, b),
                Verdict::End(r) => result == r && end == mid && b == m,
            };
        let step = steps[0];
        assert(goes_on_unless(step, size, e));
        if verdict is Go {
            let rest = steps.skip(1);
            assert forall|i: int| 0 <= i < rest.len() implies goes_on_unless(
                #[trigger] rest[i],
                size,
                e,
            ) by {
                assert(rest[i] == steps[i + 1]);
            }
            lemma_noted_unless_refused(m, rest, names, mid, result, end, b, size, e, c);
            if refused_on_the_way(m, rest, names, mid, size, e) {
                lemma_refused_later(a, steps, names, st, mid, m, size, e);
            }
            match noted_on(step) {
                Some(k) => {
                    assert(channels(mid.marks) =~= channels(st.marks).push(k));
                    assert(channels(st.marks).push(k).drop_last() =~= channels(st.marks));
                    lemma_occurrences_sum(seq![k], noted_by(rest), c);
                    assert(seq![k].drop_last() =~= Seq::<usize>::empty());
                    assert(occurrences(seq![k].drop_last(), c) == 0);
                },
                None => {
                    assert(mid.marks == st.marks);
                },
            }
        } else {
            match call_of(step, st, names) {
                Some(call) => {
                    let reply = choose|reply: Reply| #[trigger]
                        a.answers(call, reply, m) && (mid, verdict) == after(step, st, reply);
                    assert(step.expect == Expect::OrEnd(e));
                    assert(reply == Reply::Failed(e));
                    assert(steps.take(0) =~= Seq::<Step>::empty());
                    assert(performed(
                        a,
                        steps.take(0),
                        names,
                        st,
                        Ok::<(), Errno>(()),
                        st,
                        a,
                    ));
                    assert(a.answers(call, Reply::Failed(e), m));
                },
                None => {},
            }
        }
    }
}

/// Steps that note nothing on a channel leave its times as they are, whatever comes of them.
pub proof fn lemma_channel_untouched<B: Answers>(
    a: B,
    steps: Seq<Step>,
    names: Seq<Seq<char>>,
    st: State,
    result: Result<(), Errno>,
    end: State,
    b: B,
    c: usize,
)
    requires
        forall|i: int| 0 <= i < steps.len() ==> noted_on(#[trigger] steps[i]) != Some(c),
        performed(a, steps, names, st, result, end, b),
    ensures
        occurrences(channels(end.marks), c) == occurrences(channels(st.marks), c),
    decreases steps.len(),
{
    if steps.len() > 0 {
        let (verdict, mid, m) = choose|verdict: Verdict, mid: State, m: B| #[trigger]
            stepped(a, steps[0], names, st, verdict, mid, m) && match verdict {
                Verdict::Go => performed(m, steps.skip(1), names, mid, result, end, b),
                Verdict::End(r) => result == r && end == mid && b == m,
            };
        let step = steps[0];
        assert(noted_on(step) != Some(c));
        match noted_on(step) {
            Some(k) => {
                assert(mid.marks == st.marks || channels(mid.marks) =~= channels(st.marks).push(
                    k,
                ));
                assert(channels(st.marks).push(k).drop_last() =~= channels(st.marks));
            },
            None => {
                assert(mid.marks == st.marks);
            },
        }
        if verdict is Go {
            let rest = steps.skip(1);
            assert forall|i: int| 0 <= i < rest.len() implies noted_on(#[trigger] rest[i]) != Some(
                c,
            ) by {
                assert(rest[i] == steps[i + 1]);
            }
            lemma_channel_untouched(m, rest, names, mid, result, end, b, c);
        }
    }
}

/// How many steps allocate a buffer of a size.
pub open spec fn allocations(steps: Seq<Step>, size: u64) -> nat
    decreases steps.len(),
{
    if steps.len() == 0 {
        0
    } else {
        allocations(steps.drop_last(), size) + if steps.last().op matches Op::Allocate {
            len,
            ..
        } && len == size {
            1nat
        } else {
            0
        }
    }
}

/// Each part allocates for itself.
pub proof fn lemma_allocations_sum(a: Seq<Step>, b: Seq<Step>, size: u64)
    ensures
        allocations(a + b, size) == allocations(a, size) + allocations(b, size),
    decreases b.len(),
{
    if b.len() == 0 {
        assert(a + b =~= a);
    } else {
        assert((a + b).drop_last() =~= a + b.drop_last());
        lemma_allocations_sum(a, b.drop_last(), size);
    }
}

} // verus!
