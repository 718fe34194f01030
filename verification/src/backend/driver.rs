//! A backend whose calls a driver carries out, and that keeps track of what is open.
use crate::backend::ioctl::{Errno, SEEK_END, SEEK_SET};
use crate::backend::model::Mapping;
use crate::backend::protocol::{
    close_call, closes, closes_open, descriptor, done, opened_after, opens, Answers, Ask, Call,
    ContainerBackend, DmaBufBackend, HeapBackend, Kind, Pattern, Reply,
};
use crate::text::{chars_of, find_char, group_concat, lemma_find};
use vstd::prelude::*;

verus! {

/// What a driver is asked to do.
#[derive(Clone, Debug)]
pub enum Request {
    Open { path: String },
    Allocate { heap: i32, len: u64, fd_flags: u32, heap_flags: u64 },
    Mmap { fd: i32, len: usize },
    Munmap { mapping: Mapping },
    Fill { mapping: Mapping, at: usize, len: usize, pattern: Pattern },
    Holds { mapping: Mapping, at: usize, len: usize, pattern: Pattern },
    Sync { fd: i32, flags: u64 },
    Seek { fd: i32, offset: i64, whence: i32 },
    Export { fd: i32, flags: u32 },
    Import { fd: i32, flags: u32, fence: i32 },
    Dup { fd: i32 },
    Close { fd: i32 },
    OpenDevice,
    Merge { device: i32, fds: Vec<i32> },
    SetMask { device: i32, container: i32, mask: u64 },
    GetMask { device: i32, container: i32 },
    Host { ask: Ask },
}

/// What a driver is asked to do, with texts and lists as values.
#[allow(inconsistent_fields)]
pub ghost enum Asked {
    Open { path: Seq<char> },
    Allocate { heap: i32, len: u64, fd_flags: u32, heap_flags: u64 },
    Mmap { fd: i32, len: usize },
    Munmap { mapping: Mapping },
    Fill { mapping: Mapping, at: usize, len: usize, pattern: Pattern },
    Holds { mapping: Mapping, at: usize, len: usize, pattern: Pattern },
    Sync { fd: i32, flags: u64 },
    Seek { fd: i32, offset: i64, whence: i32 },
    Export { fd: i32, flags: u32 },
    Import { fd: i32, flags: u32, fence: i32 },
    Dup { fd: i32 },
    Close { fd: i32 },
    OpenDevice,
    Merge { device: i32, fds: Seq<i32> },
    SetMask { device: i32, container: i32, mask: u64 },
    GetMask { device: i32, container: i32 },
    Host { ask: Ask },
}

impl View for Request {
    type V = Asked;

    open spec fn view(&self) -> Asked {
        match *self {
            Request::Open { path } => Asked::Open { path: path@ },
            Request::Allocate { heap, len, fd_flags, heap_flags } => Asked::Allocate {
                heap,
                len,
                fd_flags,
                heap_flags,
            },
            Request::Mmap { fd, len } => Asked::Mmap { fd, len },
            Request::Munmap { mapping } => Asked::Munmap { mapping },
            Request::Fill { mapping, at, len, pattern } => Asked::Fill { mapping, at, len, pattern },
            Request::Holds { mapping, at, len, pattern } => Asked::Holds {
                mapping,
                at,
                len,
                pattern,
            },
            Request::Sync { fd, flags } => Asked::Sync { fd, flags },
            Request::Seek { fd, offset, whence } => Asked::Seek { fd, offset, whence },
            Request::Export { fd, flags } => Asked::Export { fd, flags },
            Request::Import { fd, flags, fence } => Asked::Import { fd, flags, fence },
            Request::Dup { fd } => Asked::Dup { fd },
            Request::Close { fd } => Asked::Close { fd },
            Request::OpenDevice => Asked::OpenDevice,
            Request::Merge { device, fds } => Asked::Merge { device, fds: fds@ },
            Request::SetMask { device, container, mask } => Asked::SetMask {
                device,
                container,
                mask,
            },
            Request::GetMask { device, container } => Asked::GetMask { device, container },
            Request::Host { ask } => Asked::Host { ask },
        }
    }
}

/// What a driver is asked to do for a call.
pub open spec fn asked(call: Call) -> Asked {
    match call {
        Call::Open { name } => Asked::Open { path: "/dev/dma_heap/"@ + name },
        Call::Allocate { heap, len, fd_flags, heap_flags } => Asked::Allocate {
            heap,
            len,
            fd_flags,
            heap_flags,
        },
        Call::CloseHeap { fd } => Asked::Close { fd },
        Call::Mmap { fd, len } => Asked::Mmap { fd, len },
        Call::Munmap { mapping } => Asked::Munmap { mapping },
        Call::Fill { mapping, at, len, pattern } => Asked::Fill { mapping, at, len, pattern },
        Call::Holds { mapping, at, len, pattern } => Asked::Holds { mapping, at, len, pattern },
        Call::Sync { fd, flags } => Asked::Sync { fd, flags },
        Call::Seek { fd, offset, whence } => Asked::Seek { fd, offset, whence },
        Call::Export { fd, flags } => Asked::Export { fd, flags },
        Call::Import { fd, flags, fence } => Asked::Import { fd, flags, fence },
        Call::Dup { fd } => Asked::Dup { fd },
        Call::Close { fd } => Asked::Close { fd },
        Call::OpenDevice => Asked::OpenDevice,
        Call::Merge { device, fds } => Asked::Merge { device, fds },
        Call::SetMask { device, container, mask } => Asked::SetMask { device, container, mask },
        Call::GetMask { device, container } => Asked::GetMask { device, container },
        Call::CloseContainer { fd } => Asked::Close { fd },
        Call::Host { ask } => Asked::Host { ask },
    }
}

/// The error with which a call is refused before any driver is asked, if it is: a name with
/// a NUL character, an empty mapping, an offset that counts from neither end, or bytes
/// outside a mapping.
pub open spec fn refused(call: Call) -> Option<Errno> {
    match call {
        Call::Open { name } => if name.contains('\0') {
            Some(Errno::EINVAL)
        } else {
            None
        },
        Call::Mmap { len, .. } => if len == 0 {
            Some(Errno::EINVAL)
        } else {
            None
        },
        Call::Seek { whence, .. } => if whence != SEEK_SET && whence != SEEK_END {
            Some(Errno::EINVAL)
        } else {
            None
        },
        Call::Fill { mapping, at, len, .. } => if at + len > mapping.len {
            Some(Errno::EFAULT)
        } else {
            None
        },
        Call::Holds { mapping, at, len, .. } => if at + len > mapping.len {
            Some(Errno::EFAULT)
        } else {
            None
        },
        _ => None,
    }
}

/// What carries calls out. Nothing is taken for granted of its replies.
pub trait Driver: Sized {
    /// Whether it carries a request out with a reply, and is `after` from then on.
    open spec fn carried(self, request: Request, reply: Reply, after: Self) -> bool {
        true
    }

    /// Carries a request out.
    fn call(&mut self, request: Request) -> (reply: Reply)
        ensures
            old(self).carried(request, reply, *final(self)),
    ;
}

/// The open descriptors of a list.
pub open spec fn listed(v: Seq<(i32, Kind)>) -> Map<i32, Kind>
    decreases v.len(),
{
    if v.len() == 0 {
        Map::empty()
    } else {
        listed(v.drop_last()).insert(v.last().0, v.last().1)
    }
}

/// Whether no descriptor is listed twice.
pub open spec fn listed_once(v: Seq<(i32, Kind)>) -> bool {
    forall|i: int, j: int| 0 <= i < j < v.len() ==> #[trigger] v[i].0 != #[trigger] v[j].0
}

proof fn lemma_listed(v: Seq<(i32, Kind)>, fd: i32)
    ensures
        listed(v).contains_key(fd) <==> exists|i: int| 0 <= i < v.len() && #[trigger] v[i].0 == fd,
    decreases v.len(),
{
    if v.len() > 0 {
        lemma_listed(v.drop_last(), fd);
        if listed(v).contains_key(fd) && v.last().0 != fd {
            let i = choose|i: int|
                0 <= i < v.drop_last().len() && #[trigger] v.drop_last()[i].0 == fd;
            assert(v[i].0 == fd);
        }
        if exists|i: int| 0 <= i < v.len() && #[trigger] v[i].0 == fd {
            let i = choose|i: int| 0 <= i < v.len() && #[trigger] v[i].0 == fd;
            if i < v.len() - 1 {
                assert(v.drop_last()[i].0 == fd);
            }
        }
    }
}

proof fn lemma_listed_at(v: Seq<(i32, Kind)>, i: int)
    requires
        listed_once(v),
        0 <= i < v.len(),
    ensures
        listed(v).contains_key(v[i].0),
        listed(v)[v[i].0] == v[i].1,
    decreases v.len(),
{
    if i < v.len() - 1 {
        assert(listed_once(v.drop_last()));
        lemma_listed_at(v.drop_last(), i);
        assert(v[i].0 != v.last().0);
    }
}

proof fn lemma_unlisted(v: Seq<(i32, Kind)>, i: int)
    requires
        listed_once(v),
        0 <= i < v.len(),
    ensures
        listed_once(v.remove(i)),
        listed(v.remove(i)) == listed(v).remove(v[i].0),
    decreases v.len(),
{
    let last = v.len() - 1;
    if i == last {
        assert(v.remove(i) =~= v.drop_last());
        lemma_listed(v.drop_last(), v[i].0);
        assert forall|j: int| 0 <= j < v.drop_last().len() implies v.drop_last()[j].0 != v[i].0 by {
            assert(v[j].0 != v[i].0);
        }
        assert(listed(v.drop_last()) =~= listed(v).remove(v[i].0));
    } else {
        assert(listed_once(v.drop_last()));
        lemma_unlisted(v.drop_last(), i);
        assert(v.remove(i).drop_last() =~= v.drop_last().remove(i));
        assert(v.remove(i).last() == v.last());
        assert(v[i].0 != v.last().0);
        assert(listed(v.remove(i)) =~= listed(v).remove(v[i].0));
        assert forall|p: int, q: int| 0 <= p < q < v.remove(i).len() implies
            #[trigger] v.remove(i)[p].0 != #[trigger] v.remove(i)[q].0 by {
            let p2 = if p < i { p } else { p + 1 };
            let q2 = if q < i { q } else { q + 1 };
            assert(v.remove(i)[p] == v[p2]);
            assert(v.remove(i)[q] == v[q2]);
        }
    }
}

/// A backend whose calls a driver carries out. It knows what is open: it takes no
/// descriptor for new that is open already, and what it closes is gone, whatever the
/// driver says.
pub struct RealBackend<D> {
    pub driver: D,
    pub open: Vec<(i32, Kind)>,
}

/// Whether a reply is of the right kind for a call, or a failure.
pub open spec fn fits(call: Call, reply: Reply) -> bool {
    reply is Failed || match call {
        Call::Mmap { .. } => reply is Mapped,
        Call::Holds { .. } => reply is Truth,
        Call::Seek { .. } => reply is Offset,
        Call::GetMask { .. } => reply is Mask,
        _ => if opens(call) is Some {
            reply is Fd
        } else {
            reply is Done
        },
    }
}

/// What is made of a driver's reply to a call: one of the wrong kind, and a descriptor as
/// new that is open, are input/output errors.
pub open spec fn made_of(opened: Map<i32, Kind>, call: Call, raw: Reply) -> Reply {
    if !fits(call, raw) || (raw is Fd && opened.contains_key(raw->Fd_0)) {
        Reply::Failed(Errno::EIO)
    } else {
        raw
    }
}

/// Whether a driver is asked to carry a call out, with a reply of its own.
pub open spec fn handed_on<D: Driver>(a: D, call: Call, raw: Reply, b: D) -> bool {
    exists|request: Request| #[trigger] a.carried(request, raw, b) && request@ == asked(call)
}

impl<D: Driver> Answers for RealBackend<D> {
    open spec fn valid(self) -> bool {
        listed_once(self.open@)
    }

    open spec fn opened(self) -> Map<i32, Kind> {
        listed(self.open@)
    }

    open spec fn answers(self, call: Call, reply: Reply, after: Self) -> bool {
        match refused(call) {
            Some(e) => reply == Reply::Failed(e) && after == self,
            None => {
                &&& after.valid()
                &&& after.opened() == opened_after(self.opened(), call, reply)
                &&& exists|raw: Reply| #[trigger]
                    handed_on(self.driver, call, raw, after.driver) && reply == made_of(
                        self.opened(),
                        call,
                        raw,
                    )
            },
        }
    }

    proof fn after_call(before: Self, call: Call, reply: Reply, after: Self) {
    }
}

impl<D: Driver> RealBackend<D> {
    /// A backend with nothing open.
    pub fn new(driver: D) -> (r: Self)
        ensures
            r.valid(),
            r.opened() == Map::<i32, Kind>::empty(),
            r.driver == driver,
    {
        RealBackend { driver, open: Vec::new() }
    }

    /// Where a descriptor is listed, or the number of open ones.
    fn position(&self, fd: i32) -> (r: usize)
        requires
            self.valid(),
        ensures
            r <= self.open@.len(),
            self.opened().contains_key(fd) <==> r < self.open@.len(),
            r < self.open@.len() ==> self.open@[r as int].0 == fd && self.opened()[fd]
                == self.open@[r as int].1,
    {
        let mut i: usize = 0;
        while i < self.open.len()
            invariant
                i <= self.open@.len(),
                self.valid(),
                forall|j: int| 0 <= j < i ==> (#[trigger] self.open@[j]).0 != fd,
            decreases self.open@.len() - i,
        {
            if self.open[i].0 == fd {
                proof {
                    lemma_listed_at(self.open@, i as int);
                }
                return i;
            }
            i = i + 1;
        }
        proof {
            lemma_listed(self.open@, fd);
        }
        i
    }

    /// Hands a call on to the driver.
    fn hand_on(&mut self, request: Request, call: Ghost<Call>) -> (raw: Reply)
        requires
            request@ == asked(call@),
        ensures
            handed_on(old(self).driver, call@, raw, final(self).driver),
            final(self).open == old(self).open,
    {
        self.driver.call(request)
    }

    /// Takes the reply to a call that opens a descriptor.
    fn opened_by(&mut self, raw: Reply, kind: Kind, call: Ghost<Call>) -> (r: Result<i32, Errno>)
        requires
            old(self).valid(),
            opens(call@) == Some(kind),
        ensures
            final(self).driver == old(self).driver,
            final(self).valid(),
            descriptor(r) == made_of(old(self).opened(), call@, raw),
            final(self).opened() == opened_after(old(self).opened(), call@, descriptor(r)),
    {
        match raw {
            Reply::Fd(fd) => {
                if self.position(fd) < self.open.len() {
                    return Err(Errno::EIO);
                }
                let ghost before = self.open@;
                self.open.push((fd, kind));
                proof {
                    assert(self.open@.drop_last() =~= before);
                    assert forall|i: int, j: int| 0 <= i < j < self.open@.len() implies
                        #[trigger] self.open@[i].0 != #[trigger] self.open@[j].0 by {
                        if j == before.len() {
                            lemma_listed(before, fd);
                            assert(before[i].0 != fd);
                        } else {
                            assert(before[i].0 != before[j].0);
                        }
                    }
                }
                Ok(fd)
            },
            Reply::Failed(e) => Err(e),
            _ => Err(Errno::EIO),
        }
    }

    /// Takes the reply to a call that closes a descriptor in the way of some kinds: one that
    /// is open as such is gone, whatever the reply.
    fn closed_by(&mut self, raw: Reply, fd: i32, one: Kind, other: Kind, call: Ghost<Call>) -> (r:
        Result<(), Errno>)
        requires
            old(self).valid(),
            closes(call@) == Some(fd),
            forall|k: Kind| #[trigger] close_call(k, fd) == call@ <==> k == one || k == other,
        ensures
            final(self).driver == old(self).driver,
            final(self).valid(),
            done(r) == made_of(old(self).opened(), call@, raw),
            final(self).opened() == opened_after(old(self).opened(), call@, done(r)),
    {
        let r = done_by(raw);
        let i = self.position(fd);
        if i < self.open.len() {
            let kind: Kind = self.open[i].1;
            assert(closes_open(self.opened(), call@) <==> kind == one || kind == other);
            if r.is_ok() || kind == one || kind == other {
                proof {
                    lemma_unlisted(self.open@, i as int);
                }
                self.open.remove(i);
            }
        } else {
            assert(self.opened().remove(fd) =~= self.opened());
        }
        r
    }
}

/// The result of a call that gives nothing.
fn done_by(raw: Reply) -> (r: Result<(), Errno>)
    ensures
        r == match raw {
            Reply::Done => Ok(()),
            Reply::Failed(e) => Err(e),
            _ => Err(Errno::EIO),
        },
{
    match raw {
        Reply::Done => Ok(()),
        Reply::Failed(e) => Err(e),
        _ => Err(Errno::EIO),
    }
}

/// Whether a name has a NUL character in it, which no path can have.
fn has_nul(name: &str) -> (r: bool)
    ensures
        r == name@.contains('\0'),
{
    let v = chars_of(name);
    proof {
        lemma_find(v@, '\0');
    }
    find_char(v.as_slice(), '\0') < v.len()
}

fn copied(v: &[i32]) -> (r: Vec<i32>)
    ensures
        r@ == v@,
{
    let mut r: Vec<i32> = Vec::new();
    let mut i: usize = 0;
    while i < v.len()
        invariant
            i <= v@.len(),
            r@ == v@.take(i as int),
        decreases v@.len() - i,
    {
        r.push(v[i]);
        i = i + 1;
        assert(r@ =~= v@.take(i as int));
    }
    assert(r@ =~= v@);
    r
}

/// Where the device of a heap is.
pub fn heap_path(name: &str) -> (s: String)
    ensures
        s@ == "/dev/dma_heap/"@ + name@,
{
    broadcast use group_concat;
    let mut s = String::new();
    s.append("/dev/dma_heap/");
    s.append(name);
    s
}

impl<D: Driver> HeapBackend for RealBackend<D> {
    fn open(&mut self, name: &str) -> (r: Result<i32, Errno>) {
        if has_nul(name) {
            return Err(Errno::EINVAL);
        }
        let call = Ghost(Call::Open { name: name@ });
        let raw = self.hand_on(Request::Open { path: heap_path(name) }, call);
        self.opened_by(raw, Kind::Heap, call)
    }

    fn allocate(&mut self, heap: i32, len: u64, fd_flags: u32, heap_flags: u64) -> (r: Result<
        i32,
        Errno,
    >) {
        let call = Ghost(Call::Allocate { heap, len, fd_flags, heap_flags });
        let raw = self.hand_on(Request::Allocate { heap, len, fd_flags, heap_flags }, call);
        self.opened_by(raw, Kind::Buffer, call)
    }

    fn close_heap(&mut self, fd: i32) -> (r: Result<(), Errno>) {
        let call = Ghost(Call::CloseHeap { fd });
        let raw = self.hand_on(Request::Close { fd }, call);
        self.closed_by(raw, fd, Kind::Heap, Kind::Heap, call)
    }

    fn host(&mut self, ask: Ask) -> (r: Result<(), Errno>) {
        done_by(self.hand_on(Request::Host { ask }, Ghost(Call::Host { ask })))
    }
}

impl<D: Driver> DmaBufBackend for RealBackend<D> {
    fn mmap(&mut self, fd: i32, len: usize) -> (r: Result<Mapping, Errno>) {
        if len == 0 {
            return Err(Errno::EINVAL);
        }
        match self.hand_on(Request::Mmap { fd, len }, Ghost(Call::Mmap { fd, len })) {
            Reply::Mapped(m) => Ok(m),
            Reply::Failed(e) => Err(e),
            _ => Err(Errno::EIO),
        }
    }

    fn munmap(&mut self, mapping: Mapping) -> (r: Result<(), Errno>) {
        done_by(self.hand_on(Request::Munmap { mapping }, Ghost(Call::Munmap { mapping })))
    }

    fn fill(&mut self, mapping: Mapping, at: usize, len: usize, pattern: Pattern) -> (r: Result<
        (),
        Errno,
    >) {
        if at > mapping.len || len > mapping.len - at {
            return Err(Errno::EFAULT);
        }
        let call = Ghost(Call::Fill { mapping, at, len, pattern });
        done_by(self.hand_on(Request::Fill { mapping, at, len, pattern }, call))
    }

    fn holds(&mut self, mapping: Mapping, at: usize, len: usize, pattern: Pattern) -> (r: Result<
        bool,
        Errno,
    >) {
        if at > mapping.len || len > mapping.len - at {
            return Err(Errno::EFAULT);
        }
        let call = Ghost(Call::Holds { mapping, at, len, pattern });
        match self.hand_on(Request::Holds { mapping, at, len, pattern }, call) {
            Reply::Truth(b) => Ok(b),
            Reply::Failed(e) => Err(e),
            _ => Err(Errno::EIO),
        }
    }

    fn sync(&mut self, fd: i32, flags: u64) -> (r: Result<(), Errno>) {
        done_by(self.hand_on(Request::Sync { fd, flags }, Ghost(Call::Sync { fd, flags })))
    }

    fn llseek(&mut self, fd: i32, position: i64, whence: i32) -> (r: Result<i64, Errno>) {
        if whence != SEEK_SET && whence != SEEK_END {
            return Err(Errno::EINVAL);
        }
        let call = Ghost(Call::Seek { fd, offset: position, whence });
        match self.hand_on(Request::Seek { fd, offset: position, whence }, call) {
            Reply::Offset(n) => Ok(n),
            Reply::Failed(e) => Err(e),
            _ => Err(Errno::EIO),
        }
    }

    fn export_sync_file(&mut self, fd: i32, flags: u32) -> (r: Result<i32, Errno>) {
        let call = Ghost(Call::Export { fd, flags });
        let raw = self.hand_on(Request::Export { fd, flags }, call);
        self.opened_by(raw, Kind::Fence, call)
    }

    fn import_sync_file(&mut self, fd: i32, flags: u32, fence: i32) -> (r: Result<(), Errno>) {
        let call = Ghost(Call::Import { fd, flags, fence });
        done_by(self.hand_on(Request::Import { fd, flags, fence }, call))
    }

    fn dup(&mut self, fd: i32) -> (r: Result<i32, Errno>) {
        let call = Ghost(Call::Dup { fd });
        let raw = self.hand_on(Request::Dup { fd }, call);
        self.opened_by(raw, Kind::Buffer, call)
    }

    fn close(&mut self, fd: i32) -> (r: Result<(), Errno>) {
        let call = Ghost(Call::Close { fd });
        let raw = self.hand_on(Request::Close { fd }, call);
        self.closed_by(raw, fd, Kind::Buffer, Kind::Fence, call)
    }
}

impl<D: Driver> ContainerBackend for RealBackend<D> {
    fn open_container_device(&mut self) -> (r: Result<i32, Errno>) {
        let call = Ghost(Call::OpenDevice);
        let raw = self.hand_on(Request::OpenDevice, call);
        self.opened_by(raw, Kind::Device, call)
    }

    fn merge(&mut self, device: i32, fds: &[i32]) -> (r: Result<i32, Errno>) {
        let call = Ghost(Call::Merge { device, fds: fds@ });
        let raw = self.hand_on(Request::Merge { device, fds: copied(fds) }, call);
        self.opened_by(raw, Kind::Container, call)
    }

    fn set_mask(&mut self, device: i32, container: i32, mask: u64) -> (r: Result<(), Errno>) {
        let call = Ghost(Call::SetMask { device, container, mask });
        done_by(self.hand_on(Request::SetMask { device, container, mask }, call))
    }

    fn get_mask(&mut self, device: i32, container: i32) -> (r: Result<u64, Errno>) {
        let call = Ghost(Call::GetMask { device, container });
        match self.hand_on(Request::GetMask { device, container }, call) {
            Reply::Mask(m) => Ok(m),
            Reply::Failed(e) => Err(e),
            _ => Err(Errno::EIO),
        }
    }

    fn close_container(&mut self, fd: i32) -> (r: Result<(), Errno>) {
        let call = Ghost(Call::CloseContainer { fd });
        let raw = self.hand_on(Request::Close { fd }, call);
        self.closed_by(raw, fd, Kind::Device, Kind::Container, call)
    }
}

} // verus!
