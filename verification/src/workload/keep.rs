//! What every workload keeps: nothing that it opens stays open.
use crate::backend::ioctl::Errno;
use crate::backend::protocol::{
    closes, closes_open, opened_after, opens, Answers, Call, Kind, Reply,
};
use crate::workload::step::{
    after, blank, call_of, cleanup, live, may, performed, ran, stepped, taken, Expect, Mark, Op,
    Slot, State, Step, Verdict,
};
use vstd::prelude::*;

verus! {

/// The descriptor that is open in a place.
pub open spec fn live_fd(slot: Slot) -> i32 {
    match live(slot) {
        Some(p) => p.0,
        None => 0,
    }
}

/// Whether what is open is what was open before the workload, and what its places hold:
/// each descriptor in one place, and none of those from before.
pub open spec fn kept(base: Map<i32, Kind>, st: State, opened: Map<i32, Kind>) -> bool {
    &&& forall|fd: i32| #[trigger]
        base.contains_key(fd) ==> opened.contains_key(fd) && opened[fd] == base[fd]
    &&& forall|fd: i32| #[trigger]
        opened.contains_key(fd) ==> base.contains_key(fd) || st.held(fd)
    &&& forall|i: int|
        0 <= i < st.slots.len() ==> (live(#[trigger] st.slots[i]) matches Some(p) ==> {
            &&& opened.contains_key(p.0)
            &&& opened[p.0] == p.1
            &&& !base.contains_key(p.0)
        })
    &&& forall|i: int, j: int|
        0 <= i < j < st.slots.len() && live(#[trigger] st.slots[i]) is Some && live(
            #[trigger] st.slots[j],
        ) is Some ==> live_fd(st.slots[i]) != live_fd(st.slots[j])
    &&& forall|i: int|
        0 <= i < st.slots.len() ==> (#[trigger] st.slots[i] matches Slot::Gone { fd }
            ==> !base.contains_key(fd))
}

/// Putting a new descriptor into a place where nothing is open.
proof fn lemma_put_live(
    base: Map<i32, Kind>,
    st: State,
    opened: Map<i32, Kind>,
    to: usize,
    slot: Slot,
    fd: i32,
    kind: Kind,
)
    requires
        kept(base, st, opened),
        st.free(to),
        live(slot) == Some((fd, kind)),
        !opened.contains_key(fd),
    ensures
        kept(base, st.put(to, slot), opened.insert(fd, kind)),
{
    let e = st.put(to, slot);
    let after = opened.insert(fd, kind);
    assert(e.slots[to as int] == slot);
    assert(!base.contains_key(fd));
    assert forall|x: i32| #[trigger] after.contains_key(x) implies base.contains_key(x) || e.held(
        x,
    ) by {
        if x == fd {
            assert(live(e.slots[to as int]) == Some((fd, kind)));
        } else if !base.contains_key(x) {
            assert(st.held(x));
            let i = choose|i: int|
                0 <= i < st.slots.len() && (live(#[trigger] st.slots[i]) matches Some(p) && p.0
                    == x);
            assert(e.slots[i] == st.slots[i]);
        }
    }
    assert forall|i: int| 0 <= i < e.slots.len() implies (live(#[trigger] e.slots[i]) matches Some(
        p,
    ) ==> after.contains_key(p.0) && after[p.0] == p.1 && !base.contains_key(p.0)) by {
        if i != to {
            assert(e.slots[i] == st.slots[i]);
        }
    }
    assert forall|i: int, j: int|
        0 <= i < j < e.slots.len() && live(#[trigger] e.slots[i]) is Some && live(
            #[trigger] e.slots[j],
        ) is Some implies live_fd(e.slots[i]) != live_fd(e.slots[j]) by {
        if i != to {
            assert(e.slots[i] == st.slots[i]);
        }
        if j != to {
            assert(e.slots[j] == st.slots[j]);
        }
    }
    assert forall|i: int| 0 <= i < e.slots.len() implies (#[trigger] e.slots[i] matches Slot::Gone {
        fd: x,
    } ==> !base.contains_key(x)) by {
        if i != to {
            assert(e.slots[i] == st.slots[i]);
        }
    }
}

/// Changing what is known of a place, but not what is open in it.
proof fn lemma_put_same(
    base: Map<i32, Kind>,
    st: State,
    opened: Map<i32, Kind>,
    to: usize,
    slot: Slot,
)
    requires
        kept(base, st, opened),
        to < st.slots.len(),
        live(slot) == live(st.slots[to as int]),
        !(slot is Gone),
    ensures
        kept(base, st.put(to, slot), opened),
{
    let e = st.put(to, slot);
    assert(e.slots[to as int] == slot);
    assert forall|x: i32| #[trigger] opened.contains_key(x) implies base.contains_key(x) || e.held(
        x,
    ) by {
        if !base.contains_key(x) {
            assert(st.held(x));
            let i = choose|i: int|
                0 <= i < st.slots.len() && (live(#[trigger] st.slots[i]) matches Some(p) && p.0
                    == x);
            assert(live(e.slots[i]) == live(st.slots[i]));
        }
    }
    assert forall|i: int| 0 <= i < e.slots.len() implies (live(#[trigger] e.slots[i]) matches Some(
        p,
    ) ==> opened.contains_key(p.0) && opened[p.0] == p.1 && !base.contains_key(p.0)) by {
        assert(live(e.slots[i]) == live(st.slots[i]));
    }
    assert forall|i: int, j: int|
        0 <= i < j < e.slots.len() && live(#[trigger] e.slots[i]) is Some && live(
            #[trigger] e.slots[j],
        ) is Some implies live_fd(e.slots[i]) != live_fd(e.slots[j]) by {
        assert(live(e.slots[i]) == live(st.slots[i]));
        assert(live(e.slots[j]) == live(st.slots[j]));
    }
    assert forall|i: int| 0 <= i < e.slots.len() implies (#[trigger] e.slots[i] matches Slot::Gone {
        fd: x,
    } ==> !base.contains_key(x)) by {
        if i != to {
            assert(e.slots[i] == st.slots[i]);
        }
    }
}

/// Closing what is open in a place.
proof fn lemma_put_gone(base: Map<i32, Kind>, st: State, opened: Map<i32, Kind>, to: usize)
    requires
        kept(base, st, opened),
        to < st.slots.len(),
        live(st.slots[to as int]) is Some,
    ensures
        ({
            let fd = live_fd(st.slots[to as int]);
            kept(base, st.put(to, Slot::Gone { fd }), opened.remove(fd))
        }),
{
    let fd = live_fd(st.slots[to as int]);
    let e = st.put(to, Slot::Gone { fd });
    let after = opened.remove(fd);
    assert(e.slots[to as int] == Slot::Gone { fd });
    assert(!base.contains_key(fd));
    assert forall|x: i32| #[trigger] after.contains_key(x) implies base.contains_key(x) || e.held(
        x,
    ) by {
        assert(opened.contains_key(x));
        if !base.contains_key(x) {
            assert(st.held(x));
            let i = choose|i: int|
                0 <= i < st.slots.len() && (live(#[trigger] st.slots[i]) matches Some(p) && p.0
                    == x);
            assert(i != to);
            assert(e.slots[i] == st.slots[i]);
        }
    }
    assert forall|i: int| 0 <= i < e.slots.len() implies (live(#[trigger] e.slots[i]) matches Some(
        p,
    ) ==> after.contains_key(p.0) && after[p.0] == p.1 && !base.contains_key(p.0)) by {
        if i != to {
            assert(e.slots[i] == st.slots[i]);
            if i < to {
                assert(live(st.slots[i]) is Some ==> live_fd(st.slots[i]) != fd);
            } else {
                assert(live(st.slots[i]) is Some ==> fd != live_fd(st.slots[i]));
            }
        }
    }
    assert forall|i: int, j: int|
        0 <= i < j < e.slots.len() && live(#[trigger] e.slots[i]) is Some && live(
            #[trigger] e.slots[j],
        ) is Some implies live_fd(e.slots[i]) != live_fd(e.slots[j]) by {
        assert(e.slots[i] == st.slots[i]);
        assert(e.slots[j] == st.slots[j]);
    }
    assert forall|i: int| 0 <= i < e.slots.len() implies (#[trigger] e.slots[i] matches Slot::Gone {
        fd: x,
    } ==> !base.contains_key(x)) by {
        if i != to {
            assert(e.slots[i] == st.slots[i]);
        }
    }
}

/// Only the places matter.
pub proof fn lemma_same_slots(base: Map<i32, Kind>, st: State, e: State, opened: Map<i32, Kind>)
    requires
        kept(base, st, opened),
        e.slots == st.slots,
    ensures
        kept(base, e, opened),
{
    assert forall|x: i32| #[trigger] opened.contains_key(x) implies base.contains_key(x) || e.held(
        x,
    ) by {
        if !base.contains_key(x) {
            assert(st.held(x));
            let i = choose|i: int|
                0 <= i < st.slots.len() && (live(#[trigger] st.slots[i]) matches Some(p) && p.0
                    == x);
            assert(live(e.slots[i]) == live(st.slots[i]));
        }
    }
}

/// One step keeps it.
proof fn lemma_stepped<B: Answers>(
    base: Map<i32, Kind>,
    a: B,
    step: Step,
    names: Seq<Seq<char>>,
    st: State,
    verdict: Verdict,
    end: State,
    b: B,
)
    requires
        a.valid(),
        kept(base, st, a.opened()),
        stepped(a, step, names, st, verdict, end, b),
    ensures
        b.valid(),
        kept(base, end, b.opened()),
        end.slots.len() == st.slots.len(),
{
    match call_of(step, st, names) {
        None => {
            match step.op {
                Op::Foreign { to, fd } => {
                    if st.free(to) {
                        lemma_put_same(base, st, a.opened(), to, Slot::Foreign { fd });
                    }
                },
                _ => {},
            }
            if end.slots == st.slots {
                lemma_same_slots(base, st, end, a.opened());
            }
        },
        Some(call) => {
            let reply = choose|reply: Reply| #[trigger]
                a.answers(call, reply, b) && (end, verdict) == after(step, st, reply);
            B::after_call(a, call, reply, b);
            let t = taken(step.op, st, reply);
            lemma_taken(base, a.opened(), step, names, st, call, reply);
            lemma_same_slots(base, t, end, b.opened());
        },
    }
}

/// What a reply changes keeps it.
proof fn lemma_taken(
    base: Map<i32, Kind>,
    opened: Map<i32, Kind>,
    step: Step,
    names: Seq<Seq<char>>,
    st: State,
    call: Call,
    reply: Reply,
)
    requires
        kept(base, st, opened),
        call_of(step, st, names) == Some(call),
        opens(call) is Some && reply is Fd ==> !opened.contains_key(reply->Fd_0),
    ensures
        kept(base, taken(step.op, st, reply), opened_after(opened, call, reply)),
        taken(step.op, st, reply).slots.len() == st.slots.len(),
{
    let t = taken(step.op, st, reply);
    let after = opened_after(opened, call, reply);
    match (step.op, reply) {
        (Op::Open { to, .. }, Reply::Fd(fd)) => {
            lemma_put_live(base, st, opened, to, Slot::Heap { fd }, fd, Kind::Heap);
        },
        (Op::OpenDevice { to }, Reply::Fd(fd)) => {
            lemma_put_live(base, st, opened, to, Slot::Device { fd }, fd, Kind::Device);
        },
        (Op::Allocate { to, shown, .. }, Reply::Fd(fd)) => {
            let slot = Slot::Buffer { fd, len: shown, mapping: None };
            lemma_put_live(base, st, opened, to, slot, fd, Kind::Buffer);
        },
        (Op::Dup { to, buf }, Reply::Fd(fd)) => {
            let slot = t.slots[to as int];
            lemma_put_live(base, st, opened, to, slot, fd, Kind::Buffer);
        },
        (Op::Export { to, .. }, Reply::Fd(fd)) => {
            lemma_put_live(base, st, opened, to, Slot::Fence { fd }, fd, Kind::Fence);
        },
        (Op::Merge { to, shown, .. }, Reply::Fd(fd)) => {
            let slot = Slot::Container { fd, len: shown, mapping: None };
            lemma_put_live(base, st, opened, to, slot, fd, Kind::Container);
        },
        (Op::Mmap { buf }, Reply::Mapped(m)) => {
            lemma_put_same(base, st, opened, buf, t.slots[buf as int]);
        },
        (Op::Munmap { buf }, _) => {
            lemma_put_same(base, st, opened, buf, t.slots[buf as int]);
        },
        (Op::Close { slot }, _) => {
            let p = live(st.slots[slot as int])->0;
            assert(opened.contains_key(p.0));
            assert(closes_open(opened, call));
            lemma_put_gone(base, st, opened, slot);
        },
        (Op::CloseAgain { slot }, _) => {
            let fd = st.slots[slot as int]->Gone_fd;
            assert(!opened.contains_key(fd));
            assert(after =~= opened);
        },
        _ => {
            assert(after =~= opened);
            lemma_same_slots(base, st, t, opened);
        },
    }
}

/// Steps one after the other keep it.
pub proof fn lemma_performed<B: Answers>(
    base: Map<i32, Kind>,
    a: B,
    steps: Seq<Step>,
    names: Seq<Seq<char>>,
    st: State,
    result: Result<(), Errno>,
    end: State,
    b: B,
)
    requires
        a.valid(),
        kept(base, st, a.opened()),
        performed(a, steps, names, st, result, end, b),
    ensures
        b.valid(),
        kept(base, end, b.opened()),
        end.slots.len() == st.slots.len(),
    decreases steps.len(),
{
    if steps.len() > 0 {
        let (verdict, mid, m) = choose|verdict: Verdict, mid: State, m: B| #[trigger]
            stepped(a, steps[0], names, st, verdict, mid, m) && match verdict {
                Verdict::Go => performed(m, steps.skip(1), names, mid, result, end, b),
                Verdict::End(r) => result == r && end == mid && b == m,
            };
        lemma_stepped(base, a, steps[0], names, st, verdict, mid, m);
        if verdict is Go {
            lemma_performed(base, m, steps.skip(1), names, mid, result, end, b);
        }
    }
}

/// Steps of which anything is accepted end well.
pub proof fn lemma_anything<B: Answers>(
    a: B,
    steps: Seq<Step>,
    names: Seq<Seq<char>>,
    st: State,
    result: Result<(), Errno>,
    end: State,
    b: B,
)
    requires
        forall|i: int| 0 <= i < steps.len() ==> (#[trigger] steps[i]).expect == Expect::Anything,
        performed(a, steps, names, st, result, end, b),
    ensures
        result == Ok::<(), Errno>(()),
    decreases steps.len(),
{
    if steps.len() > 0 {
        let (verdict, mid, m) = choose|verdict: Verdict, mid: State, m: B| #[trigger]
            stepped(a, steps[0], names, st, verdict, mid, m) && match verdict {
                Verdict::Go => performed(m, steps.skip(1), names, mid, result, end, b),
                Verdict::End(r) => result == r && end == mid && b == m,
            };
        assert(steps[0].expect == Expect::Anything);
        assert(verdict is Go);
        assert forall|i: int| 0 <= i < steps.skip(1).len() implies (#[trigger] steps.skip(
            1,
        )[i]).expect == Expect::Anything by {
            assert(steps.skip(1)[i] == steps[i + 1]);
        }
        lemma_anything(m, steps.skip(1), names, mid, result, end, b);
    }
}

/// The cleanup accepts anything.
pub proof fn lemma_cleanup_anything(n: nat)
    ensures
        forall|i: int|
            0 <= i < cleanup(n).len() ==> (#[trigger] cleanup(n)[i]).expect == Expect::Anything,
    decreases n,
{
    if n > 0 {
        lemma_cleanup_anything((n - 1) as nat);
        let rest = cleanup((n - 1) as nat);
        assert forall|i: int| 0 <= i < cleanup(n).len() implies (#[trigger] cleanup(n)[i]).expect
            == Expect::Anything by {
            if i >= 2 {
                assert(cleanup(n)[i] == rest[i - 2]);
            }
        }
    }
}

/// After the cleanup nothing is open in the places that it goes through.
proof fn lemma_cleanup<B: Answers>(
    base: Map<i32, Kind>,
    a: B,
    n: nat,
    names: Seq<Seq<char>>,
    st: State,
    result: Result<(), Errno>,
    end: State,
    b: B,
)
    requires
        a.valid(),
        kept(base, st, a.opened()),
        performed(a, cleanup(n), names, st, result, end, b),
        n <= st.slots.len() <= usize::MAX,
        forall|i: int| n <= i < st.slots.len() ==> live(#[trigger] st.slots[i]) is None,
    ensures
        forall|i: int| 0 <= i < end.slots.len() ==> live(#[trigger] end.slots[i]) is None,
    decreases n,
{
    if n > 0 {
        let i = (n - 1) as usize;
        let steps = cleanup(n);
        let (v1, s1, m1) = choose|verdict: Verdict, mid: State, m: B| #[trigger]
            stepped(a, steps[0], names, st, verdict, mid, m) && match verdict {
                Verdict::Go => performed(m, steps.skip(1), names, mid, result, end, b),
                Verdict::End(r) => result == r && end == mid && b == m,
            };
        assert(steps[0] == may(Op::Munmap { buf: i }));
        assert(v1 is Go);
        lemma_stepped(base, a, steps[0], names, st, v1, s1, m1);
        let steps2 = steps.skip(1);
        let (v2, s2, m2) = choose|verdict: Verdict, mid: State, m: B| #[trigger]
            stepped(m1, steps2[0], names, s1, verdict, mid, m) && match verdict {
                Verdict::Go => performed(m, steps2.skip(1), names, mid, result, end, b),
                Verdict::End(r) => result == r && end == mid && b == m,
            };
        assert(steps2[0] == may(Op::Close { slot: i }));
        assert(v2 is Go);
        lemma_stepped(base, m1, steps2[0], names, s1, v2, s2, m2);
        lemma_closed(base, m1, i, names, s1, v2, s2, m2);
        assert(steps2.skip(1) =~= cleanup((n - 1) as nat));
        assert forall|j: int| n - 1 <= j < s2.slots.len() implies live(#[trigger] s2.slots[j])
            is None by {
            if j != i {
                assert(s2.slots[j] == s1.slots[j]);
                assert(s1.slots[j] == st.slots[j]);
            }
        }
        lemma_cleanup(base, m2, (n - 1) as nat, names, s2, result, end, b);
    }
}

/// Closing a place leaves nothing open in it, and the others as they are.
proof fn lemma_closed<B: Answers>(
    base: Map<i32, Kind>,
    a: B,
    i: usize,
    names: Seq<Seq<char>>,
    st: State,
    verdict: Verdict,
    end: State,
    b: B,
)
    requires
        a.valid(),
        kept(base, st, a.opened()),
        i < st.slots.len(),
        stepped(a, may(Op::Close { slot: i }), names, st, verdict, end, b),
    ensures
        end.slots.len() == st.slots.len(),
        live(end.slots[i as int]) is None,
        forall|j: int|
            0 <= j < st.slots.len() && j != i ==> #[trigger] end.slots[j] == st.slots[j],
{
    let step = may(Op::Close { slot: i });
    match call_of(step, st, names) {
        None => {},
        Some(call) => {
            let reply = choose|reply: Reply| #[trigger]
                a.answers(call, reply, b) && (end, verdict) == after(step, st, reply);
        },
    }
}

/// At the start, nothing but what was open before is open.
pub proof fn lemma_blank(base: Map<i32, Kind>, slots: nat)
    ensures
        kept(base, blank(slots), base),
{
}

/// A place more, with nothing in it, changes nothing.
pub proof fn lemma_one_more_place(base: Map<i32, Kind>, st: State, opened: Map<i32, Kind>)
    requires
        kept(base, st, opened),
    ensures
        kept(base, State { slots: st.slots.push(Slot::Empty), ..st }, opened),
{
    let e = State { slots: st.slots.push(Slot::Empty), ..st };
    let n = st.slots.len() as int;
    assert(e.slots[n] == Slot::Empty);
    assert forall|x: i32| #[trigger] opened.contains_key(x) implies base.contains_key(x) || e.held(
        x,
    ) by {
        if !base.contains_key(x) {
            assert(st.held(x));
            let i = choose|i: int|
                0 <= i < st.slots.len() && (live(#[trigger] st.slots[i]) matches Some(p) && p.0
                    == x);
            assert(e.slots[i] == st.slots[i]);
        }
    }
    assert forall|i: int| 0 <= i < e.slots.len() implies (live(#[trigger] e.slots[i]) matches Some(
        p,
    ) ==> {
        &&& opened.contains_key(p.0)
        &&& opened[p.0] == p.1
        &&& !base.contains_key(p.0)
    }) by {
        if i < n {
            assert(e.slots[i] == st.slots[i]);
        }
    }
    assert forall|i: int, j: int|
        0 <= i < j < e.slots.len() && live(#[trigger] e.slots[i]) is Some && live(
            #[trigger] e.slots[j],
        ) is Some implies live_fd(e.slots[i]) != live_fd(e.slots[j]) by {
        assert(j < n);
        assert(e.slots[i] == st.slots[i]);
        assert(e.slots[j] == st.slots[j]);
    }
    assert forall|i: int| 0 <= i < e.slots.len() implies (
    #[trigger] e.slots[i] matches Slot::Gone { fd } ==> !base.contains_key(fd)) by {
        if i < n {
            assert(e.slots[i] == st.slots[i]);
        }
    }
}

/// The cleanup leaves open what was open before the workload, and nothing else.
pub proof fn lemma_cleaned<B: Answers>(
    base: Map<i32, Kind>,
    m: B,
    slots: nat,
    names: Seq<Seq<char>>,
    mid: State,
    result: Result<(), Errno>,
    end: State,
    b: B,
)
    requires
        m.valid(),
        kept(base, mid, m.opened()),
        mid.slots.len() == slots <= usize::MAX,
        performed(m, cleanup(slots), names, mid, result, end, b),
    ensures
        b.valid(),
        b.opened() == base,
{
    lemma_performed(base, m, cleanup(slots), names, mid, result, end, b);
    lemma_cleanup(base, m, slots, names, mid, result, end, b);
    assert forall|fd: i32| #[trigger] b.opened().contains_key(fd) implies base.contains_key(fd) by {
        if end.held(fd) {
            let i = choose|i: int|
                0 <= i < end.slots.len() && (live(#[trigger] end.slots[i]) matches Some(p) && p.0
                    == fd);
            assert(live(end.slots[i]) is None);
        }
    }
    assert(b.opened() =~= base);
}

/// No workload leaves anything open that it opened, nor closes what it did not open:
/// after it, what is open is what was open before. This holds whatever the backend
/// answers and however the workload ends.
pub proof fn law_nothing_stays_open<B: Answers>(
    a: B,
    steps: Seq<Step>,
    names: Seq<Seq<char>>,
    slots: nat,
    result: Result<(), Errno>,
    marks: Seq<Mark>,
    b: B,
)
    requires
        a.valid(),
        slots <= usize::MAX,
        ran(a, steps, names, slots, result, marks, b),
    ensures
        b.valid(),
        b.opened() == a.opened(),
{
    let base = a.opened();
    let (r, mid, m, end) = choose|r: Result<(), Errno>, mid: State, m: B, end: State|
        #![trigger performed(a, steps, names, blank(slots), r, mid, m), performed(m, cleanup(slots), names, mid, Ok::<(), Errno>(()), end, b)]
        {
            &&& performed(a, steps, names, blank(slots), r, mid, m)
            &&& performed(m, cleanup(slots), names, mid, Ok::<(), Errno>(()), end, b)
            &&& result == crate::workload::step::outcome(r, mid.noted)
            &&& marks == mid.marks
        };
    lemma_blank(base, slots);
    lemma_performed(base, a, steps, names, blank(slots), r, mid, m);
    lemma_cleaned(base, m, slots, names, mid, Ok::<(), Errno>(()), end, b);
}

} // verus!
