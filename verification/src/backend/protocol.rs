//! The operations on heaps and buffers, as calls and replies, and who answers them.
use crate::backend::ioctl::Errno;
use crate::backend::model::Mapping;
use vstd::prelude::*;

verus! {

/// What a descriptor stands for.
#[derive(Clone, Copy, PartialEq, Eq, Structural, Debug)]
pub enum Kind {
    Heap,
    Buffer,
    Fence,
    Device,
    Container,
}

/// Bytes to write or to expect.
#[derive(Clone, Copy, PartialEq, Eq, Structural, Debug)]
pub enum Pattern {
    /// The same byte everywhere.
    Same(u8),
    /// Each byte is its place, modulo 256.
    Count,
}

impl Pattern {
    /// The byte at a place.
    pub open spec fn byte(self, i: int) -> u8 {
        match self {
            Pattern::Same(b) => b,
            Pattern::Count => (i % 256) as u8,
        }
    }

    /// The byte at a place.
    pub fn byte_at(self, i: usize) -> (r: u8)
        ensures
            r == self.byte(i as int),
    {
        match self {
            Pattern::Same(b) => b,
            Pattern::Count => (i % 256) as u8,
        }
    }
}

/// A point of a workload.
#[derive(Clone, Copy, PartialEq, Eq, Structural, Debug)]
pub enum Moment {
    Before,
    During,
    After,
    Phase1,
    Phase2,
    Phase3,
    Phase4,
}

impl Moment {
    /// The name of a point.
    pub open spec fn name(self) -> Seq<char> {
        match self {
            Moment::Before => "before"@,
            Moment::During => "during"@,
            Moment::After => "after"@,
            Moment::Phase1 => "phase1"@,
            Moment::Phase2 => "phase2"@,
            Moment::Phase3 => "phase3"@,
            Moment::Phase4 => "phase4"@,
        }
    }

    /// The name of a point, under which what is seen then is told.
    pub fn label(self) -> (s: &'static str)
        ensures
            s@ == self.name(),
    {
        match self {
            Moment::Before => "before",
            Moment::During => "during",
            Moment::After => "after",
            Moment::Phase1 => "phase1",
            Moment::Phase2 => "phase2",
            Moment::Phase3 => "phase3",
            Moment::Phase4 => "phase4",
        }
    }
}

/// What the system is asked for beside its heaps: to drop its page caches, or to look, at
/// a point of a workload, at the free blocks of its zones, at those of each type, or at
/// its memory.
#[derive(Clone, Copy, PartialEq, Eq, Structural, Debug)]
pub enum Ask {
    DropCaches,
    Buddyinfo(Moment),
    PageTypes(Moment),
    Memory(Moment),
}

/// A call to a backend.
#[allow(inconsistent_fields)]
pub ghost enum Call {
    Open { name: Seq<char> },
    Allocate { heap: i32, len: u64, fd_flags: u32, heap_flags: u64 },
    CloseHeap { fd: i32 },
    Mmap { fd: i32, len: usize },
    Munmap { mapping: Mapping },
    Fill { mapping: Mapping, at: usize, len: usize, pattern: Pattern },
    Holds { mapping: Mapping, at: usize, len: usize, pattern: Pattern },
    Sync { fd: i32, flags: u64 },
    Seek { fd: i32, offset: i64, whence: i32 },
    Export { fd: i32, flags: u32 },
    Import { fd: i32, flags: u32, fence: i32 },
    Dup { fd: i32 },
    Close { fd: i32 },
    OpenDevice,
    Merge { device: i32, fds: Seq<i32> },
    SetMask { device: i32, container: i32, mask: u64 },
    GetMask { device: i32, container: i32 },
    CloseContainer { fd: i32 },
    Host { ask: Ask },
}

/// What a call comes back with.
#[derive(Clone, Copy, PartialEq, Eq, Structural, Debug)]
pub enum Reply {
    Done,
    Fd(i32),
    Mapped(Mapping),
    Offset(i64),
    Mask(u64),
    Truth(bool),
    Failed(Errno),
}

/// The reply of a call that gives nothing.
pub open spec fn done(r: Result<(), Errno>) -> Reply {
    match r {
        Ok(_) => Reply::Done,
        Err(e) => Reply::Failed(e),
    }
}

/// The reply of a call that gives a descriptor.
pub open spec fn descriptor(r: Result<i32, Errno>) -> Reply {
    match r {
        Ok(fd) => Reply::Fd(fd),
        Err(e) => Reply::Failed(e),
    }
}

/// The reply of a call that gives a mapping.
pub open spec fn mapped(r: Result<Mapping, Errno>) -> Reply {
    match r {
        Ok(m) => Reply::Mapped(m),
        Err(e) => Reply::Failed(e),
    }
}

/// The reply of a call that gives an offset.
pub open spec fn offset(r: Result<i64, Errno>) -> Reply {
    match r {
        Ok(n) => Reply::Offset(n),
        Err(e) => Reply::Failed(e),
    }
}

/// The reply of a call that gives a mask.
pub open spec fn masked(r: Result<u64, Errno>) -> Reply {
    match r {
        Ok(m) => Reply::Mask(m),
        Err(e) => Reply::Failed(e),
    }
}

/// The reply of a call that gives an answer to a question.
pub open spec fn truth(r: Result<bool, Errno>) -> Reply {
    match r {
        Ok(b) => Reply::Truth(b),
        Err(e) => Reply::Failed(e),
    }
}

/// What a call opens, if it succeeds.
pub open spec fn opens(call: Call) -> Option<Kind> {
    match call {
        Call::Open { .. } => Some(Kind::Heap),
        Call::Allocate { .. } => Some(Kind::Buffer),
        Call::Dup { .. } => Some(Kind::Buffer),
        Call::Export { .. } => Some(Kind::Fence),
        Call::OpenDevice => Some(Kind::Device),
        Call::Merge { .. } => Some(Kind::Container),
        _ => None,
    }
}

/// Which descriptor a call is to close.
pub open spec fn closes(call: Call) -> Option<i32> {
    match call {
        Call::CloseHeap { fd } => Some(fd),
        Call::Close { fd } => Some(fd),
        Call::CloseContainer { fd } => Some(fd),
        _ => None,
    }
}

/// The call that closes a descriptor.
pub open spec fn close_call(kind: Kind, fd: i32) -> Call {
    match kind {
        Kind::Heap => Call::CloseHeap { fd },
        Kind::Buffer => Call::Close { fd },
        Kind::Fence => Call::Close { fd },
        Kind::Device => Call::CloseContainer { fd },
        Kind::Container => Call::CloseContainer { fd },
    }
}

/// Whether a call is to close a descriptor that is open, in the way that goes with what the
/// descriptor stands for.
pub open spec fn closes_open(before: Map<i32, Kind>, call: Call) -> bool {
    closes(call) matches Some(fd) && before.contains_key(fd) && call == close_call(before[fd], fd)
}

/// The open descriptors after a call. One that is closed is gone, even where closing it
/// brings an error to light.
pub open spec fn opened_after(before: Map<i32, Kind>, call: Call, reply: Reply) -> Map<i32, Kind> {
    match (opens(call), closes(call), reply) {
        (Some(kind), _, Reply::Fd(fd)) => before.insert(fd, kind),
        (_, Some(fd), _) => if reply == Reply::Done || closes_open(before, call) {
            before.remove(fd)
        } else {
            before
        },
        _ => before,
    }
}

/// What answers calls. Its open descriptors are known; a call that opens one gives a
/// new one; and one that is closed is gone.
pub trait Answers: Sized {
    /// Whether it is fit to be called.
    spec fn valid(self) -> bool;

    /// The open descriptors.
    spec fn opened(self) -> Map<i32, Kind>;

    /// Whether it answers a call with a reply, and is `after` from then on.
    spec fn answers(self, call: Call, reply: Reply, after: Self) -> bool;

    /// What a call does to the open descriptors.
    proof fn after_call(before: Self, call: Call, reply: Reply, after: Self)
        requires
            before.valid(),
            before.answers(call, reply, after),
        ensures
            after.valid(),
            after.opened() == opened_after(before.opened(), call, reply),
            opens(call) is Some ==> reply is Fd || reply is Failed,
            opens(call) is Some && reply is Fd ==> !before.opened().contains_key(reply->Fd_0),
            closes(call) is Some ==> reply is Done || reply is Failed,
    ;
}

/// Operations on heaps.
pub trait HeapBackend: Answers {
    /// Opens a heap by name.
    fn open(&mut self, name: &str) -> (r: Result<i32, Errno>)
        requires
            old(self).valid(),
        ensures
            old(self).answers(Call::Open { name: name@ }, descriptor(r), *final(self)),
    ;

    /// Allocates a buffer from a heap.
    fn allocate(&mut self, heap: i32, len: u64, fd_flags: u32, heap_flags: u64) -> (r: Result<
        i32,
        Errno,
    >)
        requires
            old(self).valid(),
        ensures
            old(self).answers(
                Call::Allocate { heap, len, fd_flags, heap_flags },
                descriptor(r),
                *final(self),
            ),
    ;

    /// Closes a heap.
    fn close_heap(&mut self, fd: i32) -> (r: Result<(), Errno>)
        requires
            old(self).valid(),
        ensures
            old(self).answers(Call::CloseHeap { fd }, done(r), *final(self)),
    ;

    /// Asks for something beside the heaps.
    fn host(&mut self, ask: Ask) -> (r: Result<(), Errno>)
        requires
            old(self).valid(),
        ensures
            old(self).answers(Call::Host { ask }, done(r), *final(self)),
    ;
}

/// Operations on buffers.
pub trait DmaBufBackend: Answers {
    /// Maps the first bytes of a buffer.
    fn mmap(&mut self, fd: i32, len: usize) -> (r: Result<Mapping, Errno>)
        requires
            old(self).valid(),
        ensures
            old(self).answers(Call::Mmap { fd, len }, mapped(r), *final(self)),
    ;

    /// Ends a mapping.
    fn munmap(&mut self, mapping: Mapping) -> (r: Result<(), Errno>)
        requires
            old(self).valid(),
        ensures
            old(self).answers(Call::Munmap { mapping }, done(r), *final(self)),
    ;

    /// Writes bytes of a mapping.
    fn fill(&mut self, mapping: Mapping, at: usize, len: usize, pattern: Pattern) -> (r: Result<
        (),
        Errno,
    >)
        requires
            old(self).valid(),
        ensures
            old(self).answers(Call::Fill { mapping, at, len, pattern }, done(r), *final(self)),
    ;

    /// Whether bytes of a mapping are as expected.
    fn holds(&mut self, mapping: Mapping, at: usize, len: usize, pattern: Pattern) -> (r: Result<
        bool,
        Errno,
    >)
        requires
            old(self).valid(),
        ensures
            old(self).answers(Call::Holds { mapping, at, len, pattern }, truth(r), *final(self)),
    ;

    /// Marks the start or the end of an access.
    fn sync(&mut self, fd: i32, flags: u64) -> (r: Result<(), Errno>)
        requires
            old(self).valid(),
        ensures
            old(self).answers(Call::Sync { fd, flags }, done(r), *final(self)),
    ;

    /// Seeks in a buffer.
    fn llseek(&mut self, fd: i32, position: i64, whence: i32) -> (r: Result<i64, Errno>)
        requires
            old(self).valid(),
        ensures
            old(self).answers(Call::Seek { fd, offset: position, whence }, offset(r), *final(self)),
    ;

    /// Exports a fence of a buffer.
    fn export_sync_file(&mut self, fd: i32, flags: u32) -> (r: Result<i32, Errno>)
        requires
            old(self).valid(),
        ensures
            old(self).answers(Call::Export { fd, flags }, descriptor(r), *final(self)),
    ;

    /// Imports a fence into a buffer.
    fn import_sync_file(&mut self, fd: i32, flags: u32, fence: i32) -> (r: Result<(), Errno>)
        requires
            old(self).valid(),
        ensures
            old(self).answers(Call::Import { fd, flags, fence }, done(r), *final(self)),
    ;

    /// Makes another descriptor of a buffer.
    fn dup(&mut self, fd: i32) -> (r: Result<i32, Errno>)
        requires
            old(self).valid(),
        ensures
            old(self).answers(Call::Dup { fd }, descriptor(r), *final(self)),
    ;

    /// Closes a buffer or a fence.
    fn close(&mut self, fd: i32) -> (r: Result<(), Errno>)
        requires
            old(self).valid(),
        ensures
            old(self).answers(Call::Close { fd }, done(r), *final(self)),
    ;
}

/// Operations on containers.
pub trait ContainerBackend: Answers {
    /// Opens the container device.
    fn open_container_device(&mut self) -> (r: Result<i32, Errno>)
        requires
            old(self).valid(),
        ensures
            old(self).answers(Call::OpenDevice, descriptor(r), *final(self)),
    ;

    /// Merges buffers into a container.
    fn merge(&mut self, device: i32, fds: &[i32]) -> (r: Result<i32, Errno>)
        requires
            old(self).valid(),
        ensures
            old(self).answers(Call::Merge { device, fds: fds@ }, descriptor(r), *final(self)),
    ;

    /// Sets the mask of a container.
    fn set_mask(&mut self, device: i32, container: i32, mask: u64) -> (r: Result<(), Errno>)
        requires
            old(self).valid(),
        ensures
            old(self).answers(Call::SetMask { device, container, mask }, done(r), *final(self)),
    ;

    /// Asks for the mask of a container.
    fn get_mask(&mut self, device: i32, container: i32) -> (r: Result<u64, Errno>)
        requires
            old(self).valid(),
        ensures
            old(self).answers(Call::GetMask { device, container }, masked(r), *final(self)),
    ;

    /// Closes a container or the container device.
    fn close_container(&mut self, fd: i32) -> (r: Result<(), Errno>)
        requires
            old(self).valid(),
        ensures
            old(self).answers(Call::CloseContainer { fd }, done(r), *final(self)),
    ;
}

} // verus!
