//! The simulated device as one that answers calls.
use crate::backend::ioctl::{
    DmaBufExportSyncFile, DmaBufImportSyncFile, DmaHeapAllocationData, Errno,
};
use crate::backend::mock::MockBackend;
use crate::backend::model::{Device, Mapping};
use crate::backend::protocol::{
    closes, closes_open, descriptor, done, mapped, masked, offset, opened_after, opens, truth,
    Answers, Ask, Call, ContainerBackend, DmaBufBackend, HeapBackend, Kind, Pattern, Reply,
};
use vstd::prelude::*;

verus! {

impl Device {
    /// What a descriptor stands for, where it is open.
    pub open spec fn kind(self, fd: i32) -> Kind {
        if self.bufs.contains_key(fd) {
            Kind::Buffer
        } else if self.heaps.contains_key(fd) {
            Kind::Heap
        } else if self.syncs.contains(fd) {
            Kind::Fence
        } else if self.containers.contains_key(fd) {
            Kind::Container
        } else {
            Kind::Device
        }
    }

    /// The open descriptors.
    pub open spec fn opened(self) -> Map<i32, Kind> {
        Map::new(|fd: i32| self.is_open(fd), |fd: i32| self.kind(fd))
    }

    /// Whether a descriptor does not stand for two things.
    pub open spec fn apart_at(self, fd: i32) -> bool {
        &&& self.bufs.contains_key(fd) ==> !self.heaps.contains_key(fd) && !self.syncs.contains(fd)
            && !self.containers.contains_key(fd) && !self.devices.contains(fd)
        &&& self.heaps.contains_key(fd) ==> !self.syncs.contains(fd)
            && !self.containers.contains_key(fd) && !self.devices.contains(fd)
        &&& self.syncs.contains(fd) ==> !self.containers.contains_key(fd)
            && !self.devices.contains(fd)
        &&& self.containers.contains_key(fd) ==> !self.devices.contains(fd)
    }

    /// Whether no descriptor stands for two things.
    pub open spec fn apart(self) -> bool {
        forall|fd: i32| #[trigger] self.apart_at(fd)
    }

    /// Whether a call needs room for one more descriptor or one more count.
    pub open spec fn needs_room(call: Call) -> bool {
        opens(call) is Some || call is Mmap
    }

    /// What the device does on a call and what it answers. Where there is no room for
    /// another descriptor, there are too many open.
    pub open spec fn apply(self, call: Call) -> (Device, Reply) {
        if Device::needs_room(call) && !self.has_room() {
            (self, Reply::Failed(Errno::EMFILE))
        } else {
            match call {
                Call::Open { name } => {
                    let (d, r) = self.open(name);
                    (d, descriptor(r))
                },
                Call::Allocate { heap, len, fd_flags, heap_flags } => {
                    let (d, r) = self.allocate(heap, len, fd_flags, heap_flags);
                    (d, descriptor(r))
                },
                Call::CloseHeap { fd } => {
                    let (d, r) = self.close_heap(fd);
                    (d, done(r))
                },
                Call::Mmap { fd, len } => {
                    let (d, r) = self.mmap(fd, len);
                    (d, mapped(r))
                },
                Call::Munmap { .. } => (self, Reply::Done),
                Call::Fill { mapping, at, len, pattern } => {
                    let (d, r) = self.write_range(mapping, at, len, pattern);
                    (d, done(r))
                },
                Call::Holds { mapping, at, len, pattern } => (
                    self,
                    truth(self.range_holds(mapping, at, len, pattern)),
                ),
                Call::Sync { fd, flags } => {
                    let (d, r) = self.sync(fd, flags);
                    (d, done(r))
                },
                Call::Seek { fd, offset: position, whence } => (
                    self,
                    offset(self.llseek(fd, position, whence)),
                ),
                Call::Export { fd, flags } => {
                    let (d, r) = self.export_sync_file(fd, flags);
                    (d, descriptor(r))
                },
                Call::Import { fd, flags, fence } => (
                    self,
                    done(self.import_sync_file(fd, flags, fence)),
                ),
                Call::Dup { fd } => {
                    let (d, r) = self.dup(fd);
                    (d, descriptor(r))
                },
                Call::Close { fd } => {
                    let (d, r) = self.close(fd);
                    (d, done(r))
                },
                Call::OpenDevice => {
                    let (d, fd) = self.open_container_device();
                    (d, Reply::Fd(fd))
                },
                Call::Merge { device, fds } => {
                    let (d, r) = self.merge(device, fds);
                    (d, descriptor(r))
                },
                Call::SetMask { device, container, mask } => {
                    let (d, r) = self.set_mask(device, container, mask);
                    (d, done(r))
                },
                Call::GetMask { device, container } => (
                    self,
                    masked(self.get_mask(device, container)),
                ),
                Call::CloseContainer { fd } => {
                    let (d, r) = self.close_container(fd);
                    (d, done(r))
                },
                Call::Host { .. } => (self, Reply::Done),
            }
        }
    }
}

/// Whether a descriptor is in the same tables of two devices.
spec fn same_at(d: Device, e: Device, fd: i32) -> bool {
    &&& e.bufs.contains_key(fd) == d.bufs.contains_key(fd)
    &&& e.heaps.contains_key(fd) == d.heaps.contains_key(fd)
    &&& e.syncs.contains(fd) == d.syncs.contains(fd)
    &&& e.containers.contains_key(fd) == d.containers.contains_key(fd)
    &&& e.devices.contains(fd) == d.devices.contains(fd)
}

/// Whether a descriptor is in one table only.
spec fn only_in(e: Device, fd: i32, kind: Kind) -> bool {
    &&& e.bufs.contains_key(fd) == (kind == Kind::Buffer)
    &&& e.heaps.contains_key(fd) == (kind == Kind::Heap)
    &&& e.syncs.contains(fd) == (kind == Kind::Fence)
    &&& e.containers.contains_key(fd) == (kind == Kind::Container)
    &&& e.devices.contains(fd) == (kind == Kind::Device)
}

proof fn lemma_same(d: Device, e: Device)
    requires
        d.apart(),
        forall|fd: i32| #[trigger] same_at(d, e, fd),
    ensures
        e.apart(),
        e.opened() == d.opened(),
{
    assert forall|fd: i32| #[trigger] e.apart_at(fd) by {
        assert(same_at(d, e, fd));
        assert(d.apart_at(fd));
    }
    assert forall|fd: i32| #[trigger] e.is_open(fd) == d.is_open(fd) && e.kind(fd) == d.kind(
        fd,
    ) by {
        assert(same_at(d, e, fd));
    }
    assert(e.opened() =~= d.opened());
}

proof fn lemma_more(d: Device, e: Device, new: i32, kind: Kind)
    requires
        d.apart(),
        !d.is_open(new),
        forall|fd: i32| fd != new ==> #[trigger] same_at(d, e, fd),
        only_in(e, new, kind),
    ensures
        e.apart(),
        e.opened() == d.opened().insert(new, kind),
{
    assert forall|fd: i32| #[trigger] e.apart_at(fd) by {
        if fd != new {
            assert(same_at(d, e, fd));
            assert(d.apart_at(fd));
        }
    }
    assert forall|fd: i32| fd != new implies #[trigger] e.is_open(fd) == d.is_open(fd) && e.kind(fd)
        == d.kind(fd) by {
        assert(same_at(d, e, fd));
    }
    assert(e.opened() =~= d.opened().insert(new, kind));
}

proof fn lemma_less(d: Device, e: Device, gone: i32)
    requires
        d.apart(),
        d.is_open(gone),
        !e.is_open(gone),
        forall|fd: i32| fd != gone ==> #[trigger] same_at(d, e, fd),
    ensures
        e.apart(),
        e.opened() == d.opened().remove(gone),
{
    assert forall|fd: i32| #[trigger] e.apart_at(fd) by {
        if fd != gone {
            assert(same_at(d, e, fd));
            assert(d.apart_at(fd));
        }
    }
    assert forall|fd: i32| fd != gone implies #[trigger] e.is_open(fd) == d.is_open(fd) && e.kind(
        fd,
    ) == d.kind(fd) by {
        assert(same_at(d, e, fd));
    }
    assert(e.opened() =~= d.opened().remove(gone));
}

/// What a call does to the tables of a device.
proof fn lemma_tables(d: Device, call: Call)
    requires
        d.wf(),
        d.apart(),
    ensures
        ({
            let (e, reply) = d.apply(call);
            &&& e.apart()
            &&& e.opened() == opened_after(d.opened(), call, reply)
            &&& opens(call) is Some && reply is Fd ==> !d.is_open(reply->Fd_0)
        }),
{
    let (e, reply) = d.apply(call);
    if closes_open(d.opened(), call) {
        assert(d.is_open(closes(call)->0));
        assert(reply == Reply::Done);
    }
    if opens(call) is Some {
        if reply is Fd {
            let new = d.next_fd as i32;
            assert(!d.is_open(new));
            assert(reply == Reply::Fd(new));
            let kind = opens(call)->0;
            lemma_more(d, e, new, kind);
        } else {
            lemma_same(d, e);
        }
    } else if closes(call) is Some {
        if reply == Reply::Done {
            let gone = closes(call)->0;
            assert(d.is_open(gone));
            assert(d.apart_at(gone));
            lemma_less(d, e, gone);
        } else {
            lemma_same(d, e);
        }
    } else {
        lemma_same(d, e);
    }
}

impl Answers for MockBackend {
    open spec fn valid(self) -> bool {
        self.inv() && self@.apart()
    }

    open spec fn opened(self) -> Map<i32, Kind> {
        self@.opened()
    }

    open spec fn answers(self, call: Call, reply: Reply, after: Self) -> bool {
        after.inv() && (after@, reply) == self@.apply(call)
    }

    proof fn after_call(before: Self, call: Call, reply: Reply, after: Self) {
        before.lemma_inv();
        lemma_tables(before@, call);
    }
}

impl HeapBackend for MockBackend {
    fn open(&mut self, name: &str) -> (r: Result<i32, Errno>) {
        if !self.room() {
            return Err(Errno::EMFILE);
        }
        MockBackend::open(self, name)
    }

    fn allocate(&mut self, heap: i32, len: u64, fd_flags: u32, heap_flags: u64) -> (r: Result<
        i32,
        Errno,
    >) {
        if !self.room() {
            return Err(Errno::EMFILE);
        }
        let mut data = DmaHeapAllocationData { len, fd: 0, fd_flags, heap_flags };
        proof {
            self.lemma_inv();
        }
        match MockBackend::allocate(self, heap, &mut data) {
            Ok(_) => Ok(data.fd as i32),
            Err(e) => Err(e),
        }
    }

    fn close_heap(&mut self, fd: i32) -> (r: Result<(), Errno>) {
        MockBackend::close_heap(self, fd)
    }

    fn host(&mut self, ask: Ask) -> (r: Result<(), Errno>) {
        Ok(())
    }
}

impl DmaBufBackend for MockBackend {
    fn mmap(&mut self, fd: i32, len: usize) -> (r: Result<Mapping, Errno>) {
        if !self.room() {
            return Err(Errno::EMFILE);
        }
        MockBackend::mmap(self, fd, len)
    }

    fn munmap(&mut self, mapping: Mapping) -> (r: Result<(), Errno>) {
        Ok(())
    }

    fn fill(&mut self, mapping: Mapping, at: usize, len: usize, pattern: Pattern) -> (r: Result<
        (),
        Errno,
    >) {
        self.write_range(&mapping, at, len, pattern)
    }

    fn holds(&mut self, mapping: Mapping, at: usize, len: usize, pattern: Pattern) -> (r: Result<
        bool,
        Errno,
    >) {
        self.range_holds(&mapping, at, len, pattern)
    }

    fn sync(&mut self, fd: i32, flags: u64) -> (r: Result<(), Errno>) {
        MockBackend::sync(self, fd, flags)
    }

    fn llseek(&mut self, fd: i32, position: i64, whence: i32) -> (r: Result<i64, Errno>) {
        MockBackend::llseek(self, fd, position, whence)
    }

    fn export_sync_file(&mut self, fd: i32, flags: u32) -> (r: Result<i32, Errno>) {
        if !self.room() {
            return Err(Errno::EMFILE);
        }
        let mut data = DmaBufExportSyncFile { flags, fd: 0 };
        match MockBackend::export_sync_file(self, fd, &mut data) {
            Ok(_) => Ok(data.fd),
            Err(e) => Err(e),
        }
    }

    fn import_sync_file(&mut self, fd: i32, flags: u32, fence: i32) -> (r: Result<(), Errno>) {
        MockBackend::import_sync_file(self, fd, DmaBufImportSyncFile { flags, fd: fence })
    }

    fn dup(&mut self, fd: i32) -> (r: Result<i32, Errno>) {
        if !self.room() {
            return Err(Errno::EMFILE);
        }
        MockBackend::dup(self, fd)
    }

    fn close(&mut self, fd: i32) -> (r: Result<(), Errno>) {
        MockBackend::close(self, fd)
    }
}

impl ContainerBackend for MockBackend {
    fn open_container_device(&mut self) -> (r: Result<i32, Errno>) {
        if !self.room() {
            return Err(Errno::EMFILE);
        }
        MockBackend::open_container_device(self)
    }

    fn merge(&mut self, device: i32, fds: &[i32]) -> (r: Result<i32, Errno>) {
        if !self.room() {
            return Err(Errno::EMFILE);
        }
        MockBackend::merge(self, device, fds)
    }

    fn set_mask(&mut self, device: i32, container: i32, mask: u64) -> (r: Result<(), Errno>) {
        MockBackend::set_mask(self, device, container, mask)
    }

    fn get_mask(&mut self, device: i32, container: i32) -> (r: Result<u64, Errno>) {
        MockBackend::get_mask(self, device, container)
    }

    fn close_container(&mut self, fd: i32) -> (r: Result<(), Errno>) {
        MockBackend::close_container(self, fd)
    }
}

} // verus!
