//! Running workloads.
use crate::backend::ioctl::Errno;
use crate::backend::model::Mapping;
use crate::backend::protocol::{
    descriptor, done, offset, opens, closes, Answers, ContainerBackend, DmaBufBackend, HeapBackend,
    Kind, Reply,
};
use crate::order::strs;
use crate::workload::clock::Stopwatch;
use crate::workload::keep::{law_nothing_stays_open, lemma_anything, lemma_cleanup_anything};
use crate::workload::step::{
    after, blank, call_of, cleanup, fault, fd_of, judged, last_us, live, local, mapping_of, may, performed,
    ran, remapped, stepped, taken, Expect, Mark, Op, Slot, State, Step, Verdict, Want,
};
use vstd::prelude::*;

verus! {

/// A workload under way.
pub struct Session {
    pub slots: Vec<Slot>,
    pub kept: i64,
    pub noted: bool,
    pub marks: Vec<Mark>,
    pub watch: Stopwatch,
}

impl View for Session {
    type V = State;

    open spec fn view(&self) -> State {
        State {
            slots: self.slots@,
            kept: self.kept,
            noted: self.noted,
            marks: self.marks@,
            started: self.watch.started,
            looked: self.watch.looked,
        }
    }
}

fn live_of(slot: Slot) -> (r: Option<(i32, Kind)>)
    ensures
        r == live(slot),
{
    match slot {
        Slot::Empty => None,
        Slot::Heap { fd } => Some((fd, Kind::Heap)),
        Slot::Buffer { fd, .. } => Some((fd, Kind::Buffer)),
        Slot::Fence { fd } => Some((fd, Kind::Fence)),
        Slot::Device { fd } => Some((fd, Kind::Device)),
        Slot::Container { fd, .. } => Some((fd, Kind::Container)),
        Slot::Gone { .. } => None,
        Slot::Foreign { .. } => None,
    }
}

fn descriptor_of(slot: Slot) -> (r: Option<i32>)
    ensures
        r == fd_of(slot),
{
    match slot {
        Slot::Empty => None,
        Slot::Heap { fd } => Some(fd),
        Slot::Buffer { fd, .. } => Some(fd),
        Slot::Fence { fd } => Some(fd),
        Slot::Device { fd } => Some(fd),
        Slot::Container { fd, .. } => Some(fd),
        Slot::Gone { fd } => Some(fd),
        Slot::Foreign { fd } => Some(fd),
    }
}

fn mapping_in(slot: Slot) -> (r: Option<Mapping>)
    ensures
        r == mapping_of(slot),
{
    match slot {
        Slot::Buffer { mapping, .. } => mapping,
        Slot::Container { mapping, .. } => mapping,
        _ => None,
    }
}

fn done_reply(r: Result<(), Errno>) -> (reply: Reply)
    ensures
        reply == done(r),
{
    match r {
        Ok(_) => Reply::Done,
        Err(e) => Reply::Failed(e),
    }
}

fn fd_reply(r: Result<i32, Errno>) -> (reply: Reply)
    ensures
        reply == descriptor(r),
{
    match r {
        Ok(fd) => Reply::Fd(fd),
        Err(e) => Reply::Failed(e),
    }
}

impl Session {
    /// A workload at its start, with so many places.
    pub fn new(slots: usize) -> (r: Session)
        ensures
            r@ == blank(slots as nat),
    {
        let mut v: Vec<Slot> = Vec::new();
        let mut i: usize = 0;
        while i < slots
            invariant
                i <= slots,
                v@ == Seq::new(i as nat, |k: int| Slot::Empty),
            decreases slots - i,
        {
            v.push(Slot::Empty);
            i = i + 1;
            assert(v@ =~= Seq::new(i as nat, |k: int| Slot::Empty));
        }
        let r = Session {
            slots: v,
            kept: 0,
            noted: false,
            marks: Vec::new(),
            watch: Stopwatch::start(),
        };
        assert(r@ =~= blank(slots as nat));
        r
    }

    /// The time that was noted last; none where none was.
    pub fn last_us(&self) -> (us: u64)
        ensures
            us == last_us(self.marks@),
    {
        let k: usize = self.marks.len();
        if k > 0 {
            self.marks[k - 1].us
        } else {
            0
        }
    }

    /// What is in a place; nothing in one that is not there.
    pub fn at(&self, i: usize) -> (r: Slot)
        ensures
            r == self@.at(i),
    {
        if i < self.slots.len() {
            self.slots[i]
        } else {
            Slot::Empty
        }
    }

    /// The descriptor of a place.
    pub fn fd(&self, i: usize) -> (r: Option<i32>)
        ensures
            r == fd_of(self@.at(i)),
    {
        descriptor_of(self.at(i))
    }

    /// Whether what is in a place is mapped.
    pub fn mapped_at(&self, i: usize) -> (r: bool)
        ensures
            r == match self@.at(i) {
                Slot::Buffer { mapping, .. } => mapping is Some,
                Slot::Container { mapping, .. } => mapping is Some,
                _ => false,
            },
    {
        match self.at(i) {
            Slot::Buffer { mapping, .. } => mapping.is_some(),
            Slot::Container { mapping, .. } => mapping.is_some(),
            _ => false,
        }
    }

    fn free(&self, i: usize) -> (r: bool)
        ensures
            r == self@.free(i),
    {
        i < self.slots.len() && live_of(self.slots[i]).is_none()
    }

    fn held(&self, fd: i32) -> (r: bool)
        ensures
            r == self@.held(fd),
    {
        let mut i: usize = 0;
        while i < self.slots.len()
            invariant
                i <= self.slots@.len(),
                forall|j: int|
                    0 <= j < i ==> !(live(#[trigger] self.slots@[j]) matches Some(p) && p.0 == fd),
            decreases self.slots@.len() - i,
        {
            match live_of(self.slots[i]) {
                Some((f, _)) => {
                    if f == fd {
                        assert(live(self@.slots[i as int]) matches Some(p) && p.0 == fd);
                        return true;
                    }
                },
                None => {},
            }
            i = i + 1;
        }
        false
    }

    fn fds(&self, first: usize, count: usize) -> (r: Option<Vec<i32>>)
        ensures
            match r {
                Some(v) => self@.fds(first, count) == Some(v@),
                None => self@.fds(first, count) is None,
            },
    {
        let n: usize = self.slots.len();
        if first > n || count > n - first {
            return None;
        }
        let mut v: Vec<i32> = Vec::new();
        let mut i: usize = 0;
        while i < count
            invariant
                i <= count,
                self.slots@.len() == n,
                first + count <= n,
                v@ == Seq::new(i as nat, |k: int| fd_of(self.slots@[first + k])->0),
                forall|j: int|
                    first <= j < first + i ==> fd_of(#[trigger] self.slots@[j]) is Some,
            decreases count - i,
        {
            match descriptor_of(self.slots[first + i]) {
                Some(fd) => {
                    v.push(fd);
                },
                None => {
                    assert(fd_of(self@.slots[first + i]) is None);
                    return None;
                },
            }
            i = i + 1;
            assert(v@ =~= Seq::new(i as nat, |k: int| fd_of(self.slots@[first + k])->0));
        }
        assert(v@ =~= Seq::new(count as nat, |k: int| fd_of(self@.slots[first + k])->0));
        Some(v)
    }

    fn put(&mut self, i: usize, slot: Slot)
        ensures
            i < old(self)@.slots.len() ==> final(self)@ == old(self)@.put(i, slot),
            i >= old(self)@.slots.len() ==> final(self)@ == old(self)@,
    {
        if i < self.slots.len() {
            self.slots.set(i, slot);
        }
    }
}

/// Whether a reply is the one that a step's call came back with.
spec fn asked<B: Answers>(
    a: B,
    step: Step,
    names: Seq<Seq<char>>,
    st: State,
    reply: Option<Reply>,
    b: B,
) -> bool {
    match call_of(step, st, names) {
        None => reply is None && b == a,
        Some(call) => reply matches Some(r) && a.answers(call, r, b),
    }
}

/// Makes the call of a step on a buffer's contents or state.
fn ask_buffer<B: HeapBackend + DmaBufBackend + ContainerBackend>(
    backend: &mut B,
    step: &Step,
    names: &[&str],
    session: &Session,
) -> (r: Option<Reply>)
    requires
        old(backend).valid(),
        step.op is Mmap || step.op is Munmap || step.op is Fill || step.op is Holds || step.op
            is Sync || step.op is Seek,
        !(step.when matches Some(i) && mapping_of(session@.at(i)) is None),
    ensures
        asked(*old(backend), *step, strs(names@), session@, r, *final(backend)),
{
    match step.op {
        Op::Mmap { buf } => {
            let target: Option<(i32, usize)> = match session.at(buf) {
                Slot::Buffer { fd, len, mapping } => if mapping.is_none() {
                    Some((fd, len))
                } else {
                    None
                },
                Slot::Container { fd, len, mapping } => if mapping.is_none() {
                    Some((fd, len))
                } else {
                    None
                },
                _ => None,
            };
            match target {
                Some((fd, len)) => match backend.mmap(fd, len) {
                    Ok(m) => Some(Reply::Mapped(m)),
                    Err(e) => Some(Reply::Failed(e)),
                },
                None => None,
            }
        },
        Op::Munmap { buf } => match mapping_in(session.at(buf)) {
            Some(m) => Some(done_reply(backend.munmap(m))),
            None => None,
        },
        Op::Fill { buf, at, len, pattern } => match mapping_in(session.at(buf)) {
            Some(m) => Some(done_reply(backend.fill(m, at, len, pattern))),
            None => None,
        },
        Op::Holds { buf, at, len, pattern } => match mapping_in(session.at(buf)) {
            Some(m) => match backend.holds(m, at, len, pattern) {
                Ok(b) => Some(Reply::Truth(b)),
                Err(e) => Some(Reply::Failed(e)),
            },
            None => None,
        },
        Op::Sync { buf, flags } => match session.fd(buf) {
            Some(fd) => Some(done_reply(backend.sync(fd, flags))),
            None => None,
        },
        Op::Seek { buf, offset, whence, want } => match session.fd(buf) {
            Some(fd) => match backend.llseek(fd, offset, whence) {
                Ok(n) => Some(Reply::Offset(n)),
                Err(e) => Some(Reply::Failed(e)),
            },
            None => None,
        },
        _ => None,
    }
}

/// Makes the call of a step that opens or closes something.
fn ask_opening<B: HeapBackend + DmaBufBackend + ContainerBackend>(
    backend: &mut B,
    step: &Step,
    names: &[&str],
    session: &Session,
) -> (r: Option<Reply>)
    requires
        old(backend).valid(),
        step.op is Open || step.op is OpenDevice || step.op is Allocate || step.op is Export
            || step.op is Dup || step.op is Close || step.op is CloseAgain,
        !(step.when matches Some(i) && mapping_of(session@.at(i)) is None),
    ensures
        asked(*old(backend), *step, strs(names@), session@, r, *final(backend)),
{
    match step.op {
        Op::Open { to, name } => if session.free(to) && name < names.len() {
            Some(fd_reply(backend.open(names[name])))
        } else {
            None
        },
        Op::OpenDevice { to } => if session.free(to) {
            Some(fd_reply(backend.open_container_device()))
        } else {
            None
        },
        Op::Allocate { to, heap, len, fd_flags, heap_flags, shown } => match session.fd(heap) {
            Some(fd) => if session.free(to) {
                Some(fd_reply(backend.allocate(fd, len, fd_flags, heap_flags)))
            } else {
                None
            },
            None => None,
        },
        Op::Export { to, buf, flags, checked } => match session.fd(buf) {
            Some(fd) => if session.free(to) {
                Some(fd_reply(backend.export_sync_file(fd, flags)))
            } else {
                None
            },
            None => None,
        },
        Op::Dup { to, buf } => match session.fd(buf) {
            Some(fd) => if session.free(to) {
                Some(fd_reply(backend.dup(fd)))
            } else {
                None
            },
            None => None,
        },
        Op::Close { slot } => match live_of(session.at(slot)) {
            Some((fd, kind)) => Some(
                done_reply(
                    match kind {
                        Kind::Heap => backend.close_heap(fd),
                        Kind::Buffer => backend.close(fd),
                        Kind::Fence => backend.close(fd),
                        Kind::Device => backend.close_container(fd),
                        Kind::Container => backend.close_container(fd),
                    },
                ),
            ),
            None => None,
        },
        Op::CloseAgain { slot } => match session.at(slot) {
            Slot::Gone { fd } => if session.held(fd) {
                None
            } else {
                Some(done_reply(backend.close(fd)))
            },
            _ => None,
        },
        _ => None,
    }
}

/// Makes the call of a step, where it makes one.
fn ask<B: HeapBackend + DmaBufBackend + ContainerBackend>(
    backend: &mut B,
    step: &Step,
    names: &[&str],
    session: &Session,
) -> (r: Option<Reply>)
    requires
        old(backend).valid(),
    ensures
        asked(*old(backend), *step, strs(names@), session@, r, *final(backend)),
{
    if let Some(i) = step.when {
        if mapping_in(session.at(i)).is_none() {
            return None;
        }
    }
    match step.op {
        Op::Open { .. } => ask_opening(backend, step, names, session),
        Op::OpenDevice { .. } => ask_opening(backend, step, names, session),
        Op::Foreign { .. } => None,
        Op::Allocate { .. } => ask_opening(backend, step, names, session),
        Op::Mmap { .. } => ask_buffer(backend, step, names, session),
        Op::Munmap { .. } => ask_buffer(backend, step, names, session),
        Op::Fill { .. } => ask_buffer(backend, step, names, session),
        Op::Holds { .. } => ask_buffer(backend, step, names, session),
        Op::Sync { .. } => ask_buffer(backend, step, names, session),
        Op::Seek { .. } => ask_buffer(backend, step, names, session),
        Op::Export { .. } => ask_opening(backend, step, names, session),
        Op::Host { ask } => match backend.host(ask) {
            Ok(_) => Some(Reply::Done),
            Err(e) => Some(Reply::Failed(e)),
        },
        Op::Import { buf, flags, fence } => match (session.fd(buf), session.fd(fence)) {
            (Some(fd), Some(f)) => Some(done_reply(backend.import_sync_file(fd, flags, f))),
            _ => None,
        },
        Op::Dup { .. } => ask_opening(backend, step, names, session),
        Op::Close { .. } => ask_opening(backend, step, names, session),
        Op::CloseAgain { .. } => ask_opening(backend, step, names, session),
        Op::Merge { to, device, first, count, shown } => match (
            session.fd(device),
            session.fds(first, count),
        ) {
            (Some(d), Some(fds)) => if session.free(to) {
                Some(fd_reply(backend.merge(d, fds.as_slice())))
            } else {
                None
            },
            _ => None,
        },
        Op::SetMask { device, container, mask } => match (session.fd(device), session.fd(container)) {
            (Some(d), Some(c)) => Some(done_reply(backend.set_mask(d, c, mask))),
            _ => None,
        },
        Op::GetMask { device, container, want } => match (session.fd(device), session.fd(container)) {
            (Some(d), Some(c)) => match backend.get_mask(d, c) {
                Ok(m) => Some(Reply::Mask(m)),
                Err(e) => Some(Reply::Failed(e)),
            },
            _ => None,
        },
        Op::Start => None,
        Op::Split { .. } => None,
        Op::Total { .. } => None,
    }
}

/// What is wrong with a reply, if anything.
fn fault_of(op: &Op, kept: i64, reply: &Reply) -> (r: Option<Errno>)
    ensures
        forall|st: State| st.kept == kept ==> r == #[trigger] fault(*op, st, *reply),
{
    match (op, reply) {
        (_, Reply::Failed(e)) => Some(*e),
        (Op::Holds { .. }, Reply::Truth(b)) => if *b {
            None
        } else {
            Some(Errno::EIO)
        },
        (Op::Seek { want, .. }, Reply::Offset(k)) => {
            let ok: bool = match want {
                Want::Is(n) => *n == *k,
                Want::Kept => kept == *k,
                Want::Any => true,
                Want::Keep => true,
            };
            if ok {
                None
            } else {
                Some(Errno::EIO)
            }
        },
        (Op::Export { checked, .. }, Reply::Fd(fd)) => if *checked && *fd < 0 {
            Some(Errno::EIO)
        } else {
            None
        },
        (Op::GetMask { want, .. }, Reply::Mask(m)) => if *want == *m {
            None
        } else {
            Some(Errno::EIO)
        },
        _ => None,
    }
}

/// What is made of a fault, or of none.
fn judge(expect: Expect, fault: Option<Errno>) -> (r: (Verdict, bool))
    ensures
        r == judged(expect, fault),
{
    let io: Verdict = Verdict::End(Err(Errno::EIO));
    match (expect, fault) {
        (Expect::Success, None) => (Verdict::Go, false),
        (Expect::Success, Some(e)) => (Verdict::End(Err(e)), false),
        (Expect::Succeeds, None) => (Verdict::Go, false),
        (Expect::Succeeds, Some(_)) => (io, false),
        (Expect::Fails(x), Some(e)) => if e == x {
            (Verdict::Go, false)
        } else {
            (io, false)
        },
        (Expect::Fails(_), None) => (io, false),
        (Expect::FailsEither(x, y), Some(e)) => if e == x || e == y {
            (Verdict::Go, false)
        } else {
            (io, false)
        },
        (Expect::FailsEither(_, _), None) => (io, false),
        (Expect::Anything, _) => (Verdict::Go, false),
        (Expect::OrEnd(x), Some(e)) => if e == x {
            (Verdict::End(Ok(())), false)
        } else {
            (Verdict::End(Err(e)), false)
        },
        (Expect::OrEnd(_), None) => (Verdict::Go, false),
        (Expect::Noted, f) => (Verdict::Go, f.is_some()),
        (Expect::NotedOrEnd(x), Some(e)) => if e == x {
            (Verdict::End(Ok(())), false)
        } else {
            (Verdict::Go, true)
        },
        (Expect::NotedOrEnd(_), None) => (Verdict::Go, false),
    }
}

fn moved(slot: Slot, mapping: Option<Mapping>) -> (r: Slot)
    ensures
        r == remapped(slot, mapping),
{
    match slot {
        Slot::Buffer { fd, len, .. } => Slot::Buffer { fd, len, mapping },
        Slot::Container { fd, len, .. } => Slot::Container { fd, len, mapping },
        _ => slot,
    }
}

/// Takes a reply into the session.
fn take(session: &mut Session, op: &Op, reply: &Reply)
    requires
        changed_place(*op) matches Some(to) ==> to < old(session)@.slots.len(),
    ensures
        final(session)@ == taken(*op, old(session)@, *reply),
{
    match (op, reply) {
        (Op::Open { to, .. }, Reply::Fd(fd)) => {
            session.put(*to, Slot::Heap { fd: *fd });
        },
        (Op::OpenDevice { to }, Reply::Fd(fd)) => {
            session.put(*to, Slot::Device { fd: *fd });
        },
        (Op::Allocate { to, shown, .. }, Reply::Fd(fd)) => {
            session.put(*to, Slot::Buffer { fd: *fd, len: *shown, mapping: None });
        },
        (Op::Dup { to, buf }, Reply::Fd(fd)) => {
            let len: usize = match session.at(*buf) {
                Slot::Buffer { len, .. } => len,
                _ => 0,
            };
            session.put(*to, Slot::Buffer { fd: *fd, len, mapping: None });
        },
        (Op::Export { to, .. }, Reply::Fd(fd)) => {
            session.put(*to, Slot::Fence { fd: *fd });
        },
        (Op::Merge { to, shown, .. }, Reply::Fd(fd)) => {
            session.put(*to, Slot::Container { fd: *fd, len: *shown, mapping: None });
        },
        (Op::Mmap { buf }, Reply::Mapped(m)) => {
            let slot: Slot = moved(session.at(*buf), Some(*m));
            session.put(*buf, slot);
        },
        (Op::Munmap { buf }, _) => {
            let slot: Slot = moved(session.at(*buf), None);
            session.put(*buf, slot);
        },
        (Op::Close { slot }, _) => match live_of(session.at(*slot)) {
            Some((fd, _)) => {
                session.put(*slot, Slot::Gone { fd });
            },
            None => {},
        },
        (Op::Seek { want, .. }, Reply::Offset(n)) => match want {
            Want::Keep => {
                session.kept = *n;
            },
            _ => {},
        },
        _ => {},
    }
}

/// The place that a step changes.
spec fn changed_place(op: Op) -> Option<usize> {
    match op {
        Op::Open { to, .. } => Some(to),
        Op::OpenDevice { to } => Some(to),
        Op::Allocate { to, .. } => Some(to),
        Op::Dup { to, .. } => Some(to),
        Op::Export { to, .. } => Some(to),
        Op::Merge { to, .. } => Some(to),
        Op::Mmap { buf } => Some(buf),
        Op::Munmap { buf } => Some(buf),
        _ => None,
    }
}

/// Does what a step without a call does.
fn act_locally(session: &mut Session, step: &Step)
    ensures
        exists|t: u128| final(session)@ == #[trigger] local(*step, old(session)@, t),
{
    let ghost st = session@;
    if let Some(i) = step.when {
        if mapping_in(session.at(i)).is_none() {
            assert(session@ == local(*step, st, 0));
            return;
        }
    }
    match step.op {
        Op::Foreign { to, fd } => {
            if session.free(to) {
                session.put(to, Slot::Foreign { fd });
            }
            assert(session@ == local(*step, st, 0));
        },
        Op::Start => {
            session.watch.restart();
            assert(session@ =~= local(*step, st, session.watch.looked));
        },
        Op::Split { channel } => {
            let us: u64 = session.watch.split();
            session.marks.push(Mark { channel, us });
            assert(session@ =~= local(*step, st, session.watch.looked));
        },
        Op::Total { channel } => {
            let (us, t) = session.watch.total();
            session.marks.push(Mark { channel, us });
            assert(session@ =~= local(*step, st, t));
        },
        _ => {
            assert(session@ == local(*step, st, 0));
        },
    }
}

/// Does one step.
pub fn take_step<B: HeapBackend + DmaBufBackend + ContainerBackend>(
    backend: &mut B,
    step: &Step,
    names: &[&str],
    session: &mut Session,
) -> (verdict: Verdict)
    requires
        old(backend).valid(),
    ensures
        final(backend).valid(),
        stepped(
            *old(backend),
            *step,
            strs(names@),
            old(session)@,
            verdict,
            final(session)@,
            *final(backend),
        ),
{
    let ghost a = *backend;
    let ghost st = session@;
    match ask(backend, step, names, session) {
        None => {
            act_locally(session, step);
            Verdict::Go
        },
        Some(reply) => {
            let f = fault_of(&step.op, session.kept, &reply);
            assert(f == fault(step.op, st, reply));
            let (verdict, noted) = judge(step.expect, f);
            take(session, &step.op, &reply);
            if noted {
                session.noted = true;
            }
            proof {
                let call = call_of(*step, st, strs(names@))->0;
                B::after_call(a, call, reply, *backend);
                assert(a.answers(call, reply, *backend));
                assert(session@ == after(*step, st, reply).0);
            }
            verdict
        },
    }
}

/// Does steps one after the other, until one ends the workload.
pub fn perform<B: HeapBackend + DmaBufBackend + ContainerBackend>(
    backend: &mut B,
    steps: &[Step],
    names: &[&str],
    session: &mut Session,
) -> (result: Result<(), Errno>)
    requires
        old(backend).valid(),
    ensures
        final(backend).valid(),
        performed(
            *old(backend),
            steps@,
            strs(names@),
            old(session)@,
            result,
            final(session)@,
            *final(backend),
        ),
{
    let ghost a = *backend;
    let ghost st = session@;
    let ghost n = strs(names@);
    let mut i: usize = 0;
    assert(steps@.skip(0) =~= steps@);
    while i < steps.len()
        invariant
            i <= steps@.len(),
            n == strs(names@),
            a == *old(backend),
            st == old(session)@,
            backend.valid(),
            forall|r: Result<(), Errno>, end: State, b: B| #[trigger]
                performed(*backend, steps@.skip(i as int), n, session@, r, end, b) ==> performed(
                    a,
                    steps@,
                    n,
                    st,
                    r,
                    end,
                    b,
                ),
        decreases steps@.len() - i,
    {
        let ghost before = *backend;
        let ghost prior = session@;
        let ghost rest = steps@.skip(i as int);
        let verdict = take_step(backend, &steps[i], names, session);
        proof {
            assert(rest[0] == steps@[i as int]);
            assert(rest.skip(1) =~= steps@.skip(i + 1));
            assert(stepped(before, rest[0], n, prior, verdict, session@, *backend));
        }
        match verdict {
            Verdict::Go => {
                proof {
                    let m = *backend;
                    let mid = session@;
                    assert forall|r: Result<(), Errno>, end: State, b: B| #[trigger]
                        performed(m, steps@.skip(i + 1), n, mid, r, end, b) implies performed(
                        a,
                        steps@,
                        n,
                        st,
                        r,
                        end,
                        b,
                    ) by {
                        assert(performed(before, rest, n, prior, r, end, b));
                    }
                }
            },
            Verdict::End(r) => {
                assert(performed(before, rest, n, prior, r, session@, *backend));
                return r;
            },
        }
        i = i + 1;
    }
    assert(performed(*backend, steps@.skip(i as int), n, session@, Ok::<(), Errno>(()), session@, *backend));
    Ok(())
}

/// The steps of the cleanup.
pub fn cleanup_steps(slots: usize) -> (r: Vec<Step>)
    ensures
        r@ == cleanup(slots as nat),
{
    let mut v: Vec<Step> = Vec::new();
    let mut i: usize = slots;
    while i > 0
        invariant
            i <= slots,
            cleanup(slots as nat) == v@ + cleanup(i as nat),
        decreases i,
    {
        let ghost before = v@;
        v.push(may(Op::Munmap { buf: i - 1 }));
        v.push(may(Op::Close { slot: i - 1 }));
        proof {
            let pair = seq![may(Op::Munmap { buf: (i - 1) as usize }), may(
                Op::Close { slot: (i - 1) as usize },
            )];
            assert(before + (pair + cleanup((i - 1) as nat)) =~= v@ + cleanup((i - 1) as nat));
        }
        i = i - 1;
    }
    assert(v@ + Seq::<Step>::empty() =~= v@);
    v
}

/// What a workload came to: its result, and the times that were noted.
pub struct Run {
    pub result: Result<(), Errno>,
    pub marks: Vec<Mark>,
}

/// Runs a workload on a backend, with so many places for descriptors, and closes all
/// that it left open.
pub fn run_script<B: HeapBackend + DmaBufBackend + ContainerBackend>(
    backend: &mut B,
    steps: &[Step],
    names: &[&str],
    slots: usize,
) -> (r: Run)
    requires
        old(backend).valid(),
    ensures
        final(backend).valid(),
        ran(
            *old(backend),
            steps@,
            strs(names@),
            slots as nat,
            r.result,
            r.marks@,
            *final(backend),
        ),
        final(backend).opened() == old(backend).opened(),
{
    let ghost a = *backend;
    let ghost n = strs(names@);
    let mut session = Session::new(slots);
    let result = perform(backend, steps, names, &mut session);
    let ghost m = *backend;
    let ghost mid = session@;
    let noted: bool = session.noted;
    let marks = copied_marks(&session.marks);
    let last = cleanup_steps(slots);
    let cleaned = perform(backend, last.as_slice(), names, &mut session);
    let r = Run {
        result: if noted && result.is_ok() {
            Err(Errno::EIO)
        } else {
            result
        },
        marks,
    };
    proof {
        lemma_cleanup_anything(slots as nat);
        lemma_anything(m, cleanup(slots as nat), n, mid, cleaned, session@, *backend);
        assert(performed(a, steps@, n, blank(slots as nat), result, mid, m));
        assert(performed(
            m,
            cleanup(slots as nat),
            n,
            mid,
            Ok::<(), Errno>(()),
            session@,
            *backend,
        ));
        law_nothing_stays_open(
            a,
            steps@,
            n,
            slots as nat,
            r.result,
            r.marks@,
            *backend,
        );
    }
    r
}

fn copied_marks(v: &Vec<Mark>) -> (r: Vec<Mark>)
    ensures
        r@ == v@,
{
    let mut r: Vec<Mark> = Vec::new();
    let mut i: usize = 0;
    while i < v.len()
        invariant
            i <= v@.len(),
            r@ == v@.take(i as int),
        decreases v@.len() - i,
    {
        r.push(v[i]);
        i = i + 1;
        assert(r@ =~= v@.take(i as int));
    }
    assert(v@.take(v@.len() as int) =~= v@);
    r
}

/// The times of a channel.
pub open spec fn of_channel(v: Seq<Mark>, channel: usize) -> Seq<u64>
    decreases v.len(),
{
    if v.len() == 0 {
        Seq::empty()
    } else if v.last().channel == channel {
        of_channel(v.drop_last(), channel).push(v.last().us)
    } else {
        of_channel(v.drop_last(), channel)
    }
}

/// Times and those that go with them, added up; a sum that is too large loses its upper
/// bits.
pub open spec fn paired(a: Seq<u64>, b: Seq<u64>) -> Seq<u64> {
    Seq::new(
        if a.len() <= b.len() {
            a.len()
        } else {
            b.len()
        },
        |i: int| a[i].wrapping_add(b[i]),
    )
}

impl Run {
    /// The times of two channels, added up one by one.
    pub fn times_of_both(&self, first: usize, second: usize) -> (r: Vec<u64>)
        ensures
            r@ == paired(of_channel(self.marks@, first), of_channel(self.marks@, second)),
    {
        let a = self.times(first);
        let b = self.times(second);
        let mut r: Vec<u64> = Vec::new();
        let mut i: usize = 0;
        while i < a.len() && i < b.len()
            invariant
                i <= a@.len(),
                i <= b@.len(),
                r@.len() == i,
                forall|k: int| 0 <= k < i ==> #[trigger] r@[k] == a@[k].wrapping_add(b@[k]),
            decreases a@.len() - i,
        {
            r.push(a[i].wrapping_add(b[i]));
            i = i + 1;
        }
        assert(r@ =~= paired(a@, b@));
        r
    }

    /// The times of a channel, in the order in which they were noted.
    pub fn times(&self, channel: usize) -> (r: Vec<u64>)
        ensures
            r@ == of_channel(self.marks@, channel),
    {
        let mut r: Vec<u64> = Vec::new();
        let mut i: usize = 0;
        assert(self.marks@.take(0) =~= Seq::empty());
        while i < self.marks.len()
            invariant
                i <= self.marks@.len(),
                r@ == of_channel(self.marks@.take(i as int), channel),
            decreases self.marks@.len() - i,
        {
            let m: Mark = self.marks[i];
            assert(self.marks@.take(i + 1).drop_last() =~= self.marks@.take(i as int));
            if m.channel == channel {
                r.push(m.us);
            }
            i = i + 1;
        }
        assert(self.marks@.take(self.marks@.len() as int) =~= self.marks@);
        r
    }
}

} // verus!
