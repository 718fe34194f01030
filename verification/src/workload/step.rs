//! The steps of a workload, and what each of them means.
use crate::backend::ioctl::Errno;
use crate::backend::model::Mapping;
use crate::backend::protocol::{close_call, Answers, Ask, Call, Kind, Pattern, Reply};
use crate::workload::clock::lap_us;
use vstd::prelude::*;

verus! {

/// A place that holds a descriptor.
#[derive(Clone, Copy, PartialEq, Eq, Structural, Debug)]
pub enum Slot {
    /// Nothing was put there.
    Empty,
    /// An open heap.
    Heap { fd: i32 },
    /// An open buffer, how much of it is looked at, and where it is mapped.
    Buffer { fd: i32, len: usize, mapping: Option<Mapping> },
    /// An open fence.
    Fence { fd: i32 },
    /// The open container device.
    Device { fd: i32 },
    /// An open container, how much of it is looked at, and where it is mapped.
    Container { fd: i32, len: usize, mapping: Option<Mapping> },
    /// A descriptor that was closed.
    Gone { fd: i32 },
    /// A descriptor that was never opened here.
    Foreign { fd: i32 },
}

/// What to make of an offset.
#[derive(Clone, Copy, PartialEq, Eq, Structural, Debug)]
pub enum Want {
    Any,
    Is(i64),
    /// Keep it.
    Keep,
    /// It is the one that was kept.
    Kept,
}

/// What a step does. Places are given by their numbers, names of heaps by theirs.
#[allow(inconsistent_fields)]
#[derive(Clone, Copy, PartialEq, Eq, Structural, Debug)]
pub enum Op {
    Open { to: usize, name: usize },
    OpenDevice { to: usize },
    Foreign { to: usize, fd: i32 },
    Allocate { to: usize, heap: usize, len: u64, fd_flags: u32, heap_flags: u64, shown: usize },
    Mmap { buf: usize },
    Munmap { buf: usize },
    Fill { buf: usize, at: usize, len: usize, pattern: Pattern },
    Holds { buf: usize, at: usize, len: usize, pattern: Pattern },
    Sync { buf: usize, flags: u64 },
    Seek { buf: usize, offset: i64, whence: i32, want: Want },
    Export { to: usize, buf: usize, flags: u32, checked: bool },
    Import { buf: usize, flags: u32, fence: usize },
    Dup { to: usize, buf: usize },
    Close { slot: usize },
    /// Closes a buffer that was closed before.
    CloseAgain { slot: usize },
    Merge { to: usize, device: usize, first: usize, count: usize, shown: usize },
    SetMask { device: usize, container: usize, mask: u64 },
    GetMask { device: usize, container: usize, want: u64 },
    /// Asks the system for something beside its heaps.
    Host { ask: Ask },
    /// Starts the stopwatch.
    Start,
    /// Notes the time since the last look at the stopwatch.
    Split { channel: usize },
    /// Notes the time since the stopwatch was started.
    Total { channel: usize },
}

/// What is expected of a step.
#[derive(Clone, Copy, PartialEq, Eq, Structural, Debug)]
pub enum Expect {
    /// It succeeds; its error ends the workload.
    Success,
    /// It succeeds; any error is an input/output error.
    Succeeds,
    /// It fails with this error; anything else is an input/output error.
    Fails(Errno),
    /// It fails with one of two errors; anything else is an input/output error.
    FailsEither(Errno, Errno),
    /// Whatever comes, the workload goes on.
    Anything,
    /// This error ends the workload well; another ends it.
    OrEnd(Errno),
    /// The workload goes on after a failure, and has failed in the end.
    Noted,
    /// This error ends the workload; after another it goes on, and has failed in the end.
    NotedOrEnd(Errno),
}

/// A step: what it does, what is expected of it, and the buffer that must be mapped
/// for it to be done at all.
#[derive(Clone, Copy, PartialEq, Eq, Structural, Debug)]
pub struct Step {
    pub op: Op,
    pub expect: Expect,
    pub when: Option<usize>,
}

/// A step that has to succeed.
#[verifier::allow_in_spec]
pub fn must(op: Op) -> (r: Step)
    returns
        (Step { op, expect: Expect::Success, when: None }),
{
    Step { op, expect: Expect::Success, when: None }
}

/// A step of which something is expected.
#[verifier::allow_in_spec]
pub fn expecting(op: Op, expect: Expect) -> (r: Step)
    returns
        (Step { op, expect, when: None }),
{
    Step { op, expect, when: None }
}

/// A step that may fail.
#[verifier::allow_in_spec]
pub fn may(op: Op) -> (r: Step)
    returns
        (Step { op, expect: Expect::Anything, when: None }),
{
    Step { op, expect: Expect::Anything, when: None }
}

/// Something beside the heaps is asked for; nothing depends on it.
#[verifier::allow_in_spec]
pub fn asking(ask: Ask) -> (r: Step)
    returns
        (Step { op: Op::Host { ask }, expect: Expect::Anything, when: None }),
{
    Step { op: Op::Host { ask }, expect: Expect::Anything, when: None }
}

/// A step that may fail, and is only done where a buffer is mapped.
#[verifier::allow_in_spec]
pub fn may_mapped(op: Op, buf: usize) -> (r: Step)
    returns
        (Step { op, expect: Expect::Anything, when: Some(buf) }),
{
    Step { op, expect: Expect::Anything, when: Some(buf) }
}

/// A time that was noted, in microseconds, on a channel.
#[derive(Clone, Copy, PartialEq, Eq, Structural, Debug)]
pub struct Mark {
    pub channel: usize,
    pub us: u64,
}

/// The channels of times.
pub open spec fn channels(v: Seq<Mark>) -> Seq<usize> {
    Seq::new(v.len(), |i: int| v[i].channel)
}

/// The time that was noted last; none where none was.
pub open spec fn last_us(v: Seq<Mark>) -> u64 {
    if v.len() > 0 {
        v.last().us
    } else {
        0
    }
}

/// How things stand in a workload: the places, the offset that was kept, whether a
/// failure was noted, the times that were, and the clock's readings when the stopwatch
/// was started and when it was last looked at.
#[verifier::ext_equal]
pub ghost struct State {
    pub slots: Seq<Slot>,
    pub kept: i64,
    pub noted: bool,
    pub marks: Seq<Mark>,
    pub started: u128,
    pub looked: u128,
}

/// How things stand at the start.
pub open spec fn blank(slots: nat) -> State {
    State {
        slots: Seq::new(slots, |i: int| Slot::Empty),
        kept: 0,
        noted: false,
        marks: Seq::empty(),
        started: 0,
        looked: 0,
    }
}

/// What is open in a place.
pub open spec fn live(slot: Slot) -> Option<(i32, Kind)> {
    match slot {
        Slot::Empty => None,
        Slot::Heap { fd } => Some((fd, Kind::Heap)),
        Slot::Buffer { fd, .. } => Some((fd, Kind::Buffer)),
        Slot::Fence { fd } => Some((fd, Kind::Fence)),
        Slot::Device { fd } => Some((fd, Kind::Device)),
        Slot::Container { fd, .. } => Some((fd, Kind::Container)),
        Slot::Gone { .. } => None,
        Slot::Foreign { .. } => None,
    }
}

/// The descriptor of a place, open or not.
pub open spec fn fd_of(slot: Slot) -> Option<i32> {
    match slot {
        Slot::Empty => None,
        Slot::Heap { fd } => Some(fd),
        Slot::Buffer { fd, .. } => Some(fd),
        Slot::Fence { fd } => Some(fd),
        Slot::Device { fd } => Some(fd),
        Slot::Container { fd, .. } => Some(fd),
        Slot::Gone { fd } => Some(fd),
        Slot::Foreign { fd } => Some(fd),
    }
}

/// Where a place is mapped.
pub open spec fn mapping_of(slot: Slot) -> Option<Mapping> {
    match slot {
        Slot::Buffer { mapping, .. } => mapping,
        Slot::Container { mapping, .. } => mapping,
        _ => None,
    }
}

impl State {
    /// What is in a place; nothing in one that is not there.
    pub open spec fn at(self, i: usize) -> Slot {
        if i < self.slots.len() {
            self.slots[i as int]
        } else {
            Slot::Empty
        }
    }

    /// Whether something can be put into a place: it is there and nothing in it is open.
    pub open spec fn free(self, i: usize) -> bool {
        i < self.slots.len() && live(self.slots[i as int]) is None
    }

    /// The state with something put into a place.
    pub open spec fn put(self, i: usize, slot: Slot) -> State {
        State { slots: self.slots.update(i as int, slot), ..self }
    }

    /// Whether a descriptor is open in some place.
    pub open spec fn held(self, fd: i32) -> bool {
        exists|i: int|
            0 <= i < self.slots.len() && (live(#[trigger] self.slots[i]) matches Some(p) && p.0
                == fd)
    }

    /// The descriptors of consecutive places; none where one of them has none.
    pub open spec fn fds(self, first: usize, count: usize) -> Option<Seq<i32>> {
        if first + count <= self.slots.len() && forall|i: int|
            first <= i < first + count ==> fd_of(#[trigger] self.slots[i]) is Some {
            Some(Seq::new(count as nat, |i: int| fd_of(self.slots[first + i])->0))
        } else {
            None
        }
    }
}

/// The call that a step makes, if it makes one.
pub open spec fn call_of(step: Step, st: State, names: Seq<Seq<char>>) -> Option<Call> {
    if step.when matches Some(i) && mapping_of(st.at(i)) is None {
        None
    } else {
        match step.op {
            Op::Open { to, name } => if st.free(to) && name < names.len() {
                Some(Call::Open { name: names[name as int] })
            } else {
                None
            },
            Op::OpenDevice { to } => if st.free(to) {
                Some(Call::OpenDevice)
            } else {
                None
            },
            Op::Foreign { .. } => None,
            Op::Allocate { to, heap, len, fd_flags, heap_flags, shown } => match fd_of(
                st.at(heap),
            ) {
                Some(fd) => if st.free(to) {
                    Some(Call::Allocate { heap: fd, len, fd_flags, heap_flags })
                } else {
                    None
                },
                None => None,
            },
            Op::Mmap { buf } => match st.at(buf) {
                Slot::Buffer { fd, len, mapping } => if mapping is None {
                    Some(Call::Mmap { fd, len })
                } else {
                    None
                },
                Slot::Container { fd, len, mapping } => if mapping is None {
                    Some(Call::Mmap { fd, len })
                } else {
                    None
                },
                _ => None,
            },
            Op::Munmap { buf } => match mapping_of(st.at(buf)) {
                Some(mapping) => Some(Call::Munmap { mapping }),
                None => None,
            },
            Op::Fill { buf, at, len, pattern } => match mapping_of(st.at(buf)) {
                Some(mapping) => Some(Call::Fill { mapping, at, len, pattern }),
                None => None,
            },
            Op::Holds { buf, at, len, pattern } => match mapping_of(st.at(buf)) {
                Some(mapping) => Some(Call::Holds { mapping, at, len, pattern }),
                None => None,
            },
            Op::Sync { buf, flags } => match fd_of(st.at(buf)) {
                Some(fd) => Some(Call::Sync { fd, flags }),
                None => None,
            },
            Op::Seek { buf, offset, whence, want } => match fd_of(st.at(buf)) {
                Some(fd) => Some(Call::Seek { fd, offset, whence }),
                None => None,
            },
            Op::Export { to, buf, flags, checked } => match fd_of(st.at(buf)) {
                Some(fd) => if st.free(to) {
                    Some(Call::Export { fd, flags })
                } else {
                    None
                },
                None => None,
            },
            Op::Import { buf, flags, fence } => match (fd_of(st.at(buf)), fd_of(st.at(fence))) {
                (Some(fd), Some(f)) => Some(Call::Import { fd, flags, fence: f }),
                _ => None,
            },
            Op::Dup { to, buf } => match fd_of(st.at(buf)) {
                Some(fd) => if st.free(to) {
                    Some(Call::Dup { fd })
                } else {
                    None
                },
                None => None,
            },
            Op::Close { slot } => match live(st.at(slot)) {
                Some(p) => Some(close_call(p.1, p.0)),
                None => None,
            },
            Op::CloseAgain { slot } => match st.at(slot) {
                Slot::Gone { fd } => if st.held(fd) {
                    None
                } else {
                    Some(Call::Close { fd })
                },
                _ => None,
            },
            Op::Merge { to, device, first, count, shown } => match (
                fd_of(st.at(device)),
                st.fds(first, count),
            ) {
                (Some(d), Some(fds)) => if st.free(to) {
                    Some(Call::Merge { device: d, fds })
                } else {
                    None
                },
                _ => None,
            },
            Op::SetMask { device, container, mask } => match (
                fd_of(st.at(device)),
                fd_of(st.at(container)),
            ) {
                (Some(d), Some(c)) => Some(Call::SetMask { device: d, container: c, mask }),
                _ => None,
            },
            Op::GetMask { device, container, want } => match (
                fd_of(st.at(device)),
                fd_of(st.at(container)),
            ) {
                (Some(d), Some(c)) => Some(Call::GetMask { device: d, container: c }),
                _ => None,
            },
            Op::Host { ask } => Some(Call::Host { ask }),
            Op::Start => None,
            Op::Split { .. } => None,
            Op::Total { .. } => None,
        }
    }
}

/// What a step without a call does when the clock shows `t`: the stopwatch is started, or
/// looked at, at that reading.
pub open spec fn local(step: Step, st: State, t: u128) -> State {
    if step.when matches Some(i) && mapping_of(st.at(i)) is None {
        st
    } else {
        match step.op {
            Op::Foreign { to, fd } => if st.free(to) {
                st.put(to, Slot::Foreign { fd })
            } else {
                st
            },
            Op::Start => State { started: t, looked: t, ..st },
            Op::Split { channel } => State {
                marks: st.marks.push(Mark { channel, us: lap_us(st.looked, t) }),
                looked: t,
                ..st
            },
            Op::Total { channel } => State {
                marks: st.marks.push(Mark { channel, us: lap_us(st.started, t) }),
                ..st
            },
            _ => st,
        }
    }
}

/// A place that is mapped elsewhere, or not at all.
pub open spec fn remapped(slot: Slot, mapping: Option<Mapping>) -> Slot {
    match slot {
        Slot::Buffer { fd, len, .. } => Slot::Buffer { fd, len, mapping },
        Slot::Container { fd, len, .. } => Slot::Container { fd, len, mapping },
        _ => slot,
    }
}

/// What a reply changes.
pub open spec fn taken(op: Op, st: State, reply: Reply) -> State {
    match (op, reply) {
        (Op::Open { to, .. }, Reply::Fd(fd)) => st.put(to, Slot::Heap { fd }),
        (Op::OpenDevice { to }, Reply::Fd(fd)) => st.put(to, Slot::Device { fd }),
        (Op::Allocate { to, shown, .. }, Reply::Fd(fd)) => st.put(
            to,
            Slot::Buffer { fd, len: shown, mapping: None },
        ),
        (Op::Dup { to, buf }, Reply::Fd(fd)) => st.put(
            to,
            Slot::Buffer {
                fd,
                len: match st.at(buf) {
                    Slot::Buffer { len, .. } => len,
                    _ => 0,
                },
                mapping: None,
            },
        ),
        (Op::Export { to, .. }, Reply::Fd(fd)) => st.put(to, Slot::Fence { fd }),
        (Op::Merge { to, shown, .. }, Reply::Fd(fd)) => st.put(
            to,
            Slot::Container { fd, len: shown, mapping: None },
        ),
        (Op::Mmap { buf }, Reply::Mapped(m)) => st.put(buf, remapped(st.at(buf), Some(m))),
        (Op::Munmap { buf }, _) => st.put(buf, remapped(st.at(buf), None)),
        (Op::Close { slot }, _) => match live(st.at(slot)) {
            Some(p) => st.put(slot, Slot::Gone { fd: p.0 }),
            None => st,
        },
        (Op::Seek { want: Want::Keep, .. }, Reply::Offset(n)) => State { kept: n, ..st },
        _ => st,
    }
}

/// What is wrong with a reply, if anything.
pub open spec fn fault(op: Op, st: State, reply: Reply) -> Option<Errno> {
    match (op, reply) {
        (_, Reply::Failed(e)) => Some(e),
        (Op::Holds { .. }, Reply::Truth(b)) => if b {
            None
        } else {
            Some(Errno::EIO)
        },
        (Op::Seek { want: Want::Is(n), .. }, Reply::Offset(k)) => if n == k {
            None
        } else {
            Some(Errno::EIO)
        },
        (Op::Seek { want: Want::Kept, .. }, Reply::Offset(k)) => if st.kept == k {
            None
        } else {
            Some(Errno::EIO)
        },
        (Op::Export { checked, .. }, Reply::Fd(fd)) => if checked && fd < 0 {
            Some(Errno::EIO)
        } else {
            None
        },
        (Op::GetMask { want, .. }, Reply::Mask(m)) => if want == m {
            None
        } else {
            Some(Errno::EIO)
        },
        _ => None,
    }
}

/// How a workload goes on after a step.
#[derive(Clone, Copy, Debug)]
pub enum Verdict {
    Go,
    End(Result<(), Errno>),
}

/// What is made of a fault, or of none: how the workload goes on, and whether a failure
/// is noted.
pub open spec fn judged(expect: Expect, fault: Option<Errno>) -> (Verdict, bool) {
    match (expect, fault) {
        (Expect::Success, None) => (Verdict::Go, false),
        (Expect::Success, Some(e)) => (Verdict::End(Err(e)), false),
        (Expect::Succeeds, None) => (Verdict::Go, false),
        (Expect::Succeeds, Some(_)) => (Verdict::End(Err(Errno::EIO)), false),
        (Expect::Fails(x), Some(e)) => if e == x {
            (Verdict::Go, false)
        } else {
            (Verdict::End(Err(Errno::EIO)), false)
        },
        (Expect::Fails(x), None) => (Verdict::End(Err(Errno::EIO)), false),
        (Expect::FailsEither(x, y), Some(e)) => if e == x || e == y {
            (Verdict::Go, false)
        } else {
            (Verdict::End(Err(Errno::EIO)), false)
        },
        (Expect::FailsEither(x, y), None) => (Verdict::End(Err(Errno::EIO)), false),
        (Expect::Anything, _) => (Verdict::Go, false),
        (Expect::OrEnd(x), Some(e)) => if e == x {
            (Verdict::End(Ok(())), false)
        } else {
            (Verdict::End(Err(e)), false)
        },
        (Expect::OrEnd(x), None) => (Verdict::Go, false),
        (Expect::Noted, f) => (Verdict::Go, f is Some),
        (Expect::NotedOrEnd(x), Some(e)) => if e == x {
            (Verdict::End(Ok(())), false)
        } else {
            (Verdict::Go, true)
        },
        (Expect::NotedOrEnd(x), None) => (Verdict::Go, false),
    }
}

/// How things stand after a reply, and how the workload goes on.
pub open spec fn after(step: Step, st: State, reply: Reply) -> (State, Verdict) {
    let (verdict, noted) = judged(step.expect, fault(step.op, st, reply));
    let t = taken(step.op, st, reply);
    (State { noted: t.noted || noted, ..t }, verdict)
}

/// Whether one step leads from one backend and state to others.
pub open spec fn stepped<B: Answers>(
    a: B,
    step: Step,
    names: Seq<Seq<char>>,
    st: State,
    verdict: Verdict,
    end: State,
    b: B,
) -> bool {
    match call_of(step, st, names) {
        None => exists|t: u128|
            verdict == Verdict::Go && end == #[trigger] local(step, st, t) && b == a,
        Some(call) => exists|reply: Reply| #[trigger]
            a.answers(call, reply, b) && (end, verdict) == after(step, st, reply),
    }
}

/// Whether steps, done one after the other, lead from one backend and state to others,
/// with a result.
pub open spec fn performed<B: Answers>(
    a: B,
    steps: Seq<Step>,
    names: Seq<Seq<char>>,
    st: State,
    result: Result<(), Errno>,
    end: State,
    b: B,
) -> bool
    decreases steps.len(),
{
    if steps.len() == 0 {
        result == Ok::<(), Errno>(()) && end == st && b == a
    } else {
        exists|verdict: Verdict, mid: State, m: B| #[trigger]
            stepped(a, steps[0], names, st, verdict, mid, m) && match verdict {
                Verdict::Go => performed(m, steps.skip(1), names, mid, result, end, b),
                Verdict::End(r) => result == r && end == mid && b == m,
            }
    }
}

/// The steps that end mappings and close what is open in the first places, the last
/// place first.
pub open spec fn cleanup(slots: nat) -> Seq<Step>
    decreases slots,
{
    if slots == 0 {
        Seq::empty()
    } else {
        let i = (slots - 1) as usize;
        seq![may(Op::Munmap { buf: i }), may(Op::Close { slot: i })] + cleanup((slots - 1) as nat)
    }
}

/// What a workload comes to: a failure that was noted makes it one.
pub open spec fn outcome(result: Result<(), Errno>, noted: bool) -> Result<(), Errno> {
    if result is Ok && noted {
        Err(Errno::EIO)
    } else {
        result
    }
}

/// Whether a workload, followed by the cleanup, leads from one backend to another, with
/// a result and with the times that were noted.
pub open spec fn ran<B: Answers>(
    a: B,
    steps: Seq<Step>,
    names: Seq<Seq<char>>,
    slots: nat,
    result: Result<(), Errno>,
    marks: Seq<Mark>,
    b: B,
) -> bool {
    exists|r: Result<(), Errno>, mid: State, m: B, end: State|
        #![trigger performed(a, steps, names, blank(slots), r, mid, m), performed(m, cleanup(slots), names, mid, Ok::<(), Errno>(()), end, b)]
        {
            &&& performed(a, steps, names, blank(slots), r, mid, m)
            &&& performed(m, cleanup(slots), names, mid, Ok::<(), Errno>(()), end, b)
            &&& result == outcome(r, mid.noted)
            &&& marks == mid.marks
        }
}

} // verus!
