//! What holds of the simulated device over several operations.
use crate::backend::ioctl::{Errno, SEEK_END};
use crate::backend::model::{
    page_aligned, Device, Mapping, SimConfig, MAX_ALLOC_SIZE, MOCK_FD_START,
};
use vstd::prelude::*;

verus! {

impl Device {
    /// Whether a descriptor is open, in any table.
    pub open spec fn is_open(self, fd: i32) -> bool {
        self.bufs.contains_key(fd) || self.heaps.contains_key(fd) || self.syncs.contains(fd)
            || self.containers.contains_key(fd) || self.devices.contains(fd)
    }

    /// Whether mappings of a heap's buffers show them as they are.
    pub open spec fn faithful(self, heap: Option<usize>) -> bool {
        self.cpu_access(heap) && match self.sim_for(heap) {
            Some(sim) => sim.corrupt_every_nth == 0,
            None => true,
        }
    }
}

/// No descriptor is handed out twice: the next one is not open, is not below the
/// first, and is passed over from then on.
pub proof fn law_descriptors_are_fresh(d: Device)
    requires
        d.wf(),
        d.next_fd < i32::MAX,
    ensures
        !d.is_open(d.next_fd as i32),
        d.next_fd >= MOCK_FD_START,
        forall|name: Seq<char>| (#[trigger] d.open(name)).1 is Ok ==> d.open(name).1->Ok_0
            == d.next_fd && d.open(name).0.next_fd == d.next_fd + 1,
        forall|h: i32, len: u64, f: u32, hf: u64|
            (#[trigger] d.allocate(h, len, f, hf)).1 is Ok ==> d.allocate(h, len, f, hf).1->Ok_0
                == d.next_fd && d.allocate(h, len, f, hf).0.next_fd == d.next_fd + 1,
        forall|fd: i32| (#[trigger] d.dup(fd)).1 is Ok ==> d.dup(fd).1->Ok_0 == d.next_fd && d.dup(
            fd,
        ).0.next_fd == d.next_fd + 1,
        forall|fd: i32, f: u32|
            (#[trigger] d.export_sync_file(fd, f)).1 is Ok ==> d.export_sync_file(fd, f).1->Ok_0
                == d.next_fd && d.export_sync_file(fd, f).0.next_fd == d.next_fd + 1,
        forall|dev: i32, fds: Seq<i32>|
            (#[trigger] d.merge(dev, fds)).1 is Ok ==> d.merge(dev, fds).1->Ok_0 == d.next_fd
                && d.merge(dev, fds).0.next_fd == d.next_fd + 1,
{
}

/// A new buffer has the size asked for, in whole pages, and holds zeros.
pub proof fn law_alloc_is_zeroed(d: Device, heap_fd: i32, len: u64, f: u32, hf: u64, n: usize)
    requires
        d.wf(),
        d.next_store <= u64::MAX,
        d.allocate(heap_fd, len, f, hf).1 is Ok,
        n <= page_aligned(len as nat),
        d.faithful(d.heaps[heap_fd]),
    ensures
        ({
            let (a, fd) = d.allocate(heap_fd, len, f, hf);
            let (m, mapping) = a.mmap(fd->Ok_0, n);
            &&& a.llseek(fd->Ok_0, 0, SEEK_END) == Ok::<i64, Errno>(page_aligned(len as nat) as i64)
            &&& mapping is Ok
            &&& m.read(mapping->Ok_0) == Some(Seq::new(n as nat, |i: int| 0u8))
        }),
{
    let (a, fd) = d.allocate(heap_fd, len, f, hf);
    let fd = fd->Ok_0;
    let heap = d.heaps[heap_fd];
    assert(!d.containers.contains_key(fd));
    let (m, mapping) = a.mmap(fd, n);
    assert(a.sim_for(heap) == d.sim_for(heap)) by {
        lemma_counted(d, heap);
    }
    assert(a.cpu_access(heap) == d.cpu_access(heap)) by {
        lemma_counted(d, heap);
    }
    assert(m.read(mapping->Ok_0)->0 =~= Seq::new(n as nat, |i: int| 0u8));
}

/// Counting an allocation changes nothing else about a heap.
proof fn lemma_counted(d: Device, heap: Option<usize>)
    requires
        d.heap_ok(heap),
    ensures
        d.counted(heap).sim_for(heap) == d.sim_for(heap),
        d.counted(heap).cpu_access(heap) == d.cpu_access(heap),
{
}

/// A closed buffer cannot be used in any way.
pub proof fn law_closed_buffer_is_gone(d: Device, fd: i32, len: usize, flags: u64, f: u32, s: i32)
    requires
        d.wf(),
        d.bufs.contains_key(fd),
    ensures
        d.close(fd).1 is Ok,
        ({
            let c = d.close(fd).0;
            &&& c.mmap(fd, len).1 == Err::<Mapping, Errno>(Errno::EBADF)
            &&& c.sync(fd, flags).1 == Err::<(), Errno>(Errno::EBADF)
            &&& c.llseek(fd, 0, SEEK_END) == Err::<i64, Errno>(Errno::EBADF)
            &&& c.dup(fd).1 == Err::<i32, Errno>(Errno::EBADF)
            &&& c.export_sync_file(fd, f).1 == Err::<i32, Errno>(Errno::EBADF)
            &&& c.import_sync_file(fd, f, s) == Err::<(), Errno>(Errno::EBADF)
            &&& c.close(fd).1 == Err::<(), Errno>(Errno::EBADF)
        }),
{
}

/// A duplicate outlives the descriptor that it was made from, with its size and its
/// contents.
pub proof fn law_duplicate_survives_close(d: Device, fd: i32)
    requires
        d.wf(),
        d.next_fd < i32::MAX,
        d.bufs.contains_key(fd),
    ensures
        ({
            let (a, dup) = d.dup(fd);
            let (c, closed) = a.close(fd);
            &&& dup is Ok
            &&& closed is Ok
            &&& c.bufs.contains_key(dup->Ok_0)
            &&& c.stores[c.bufs[dup->Ok_0].store] == d.stores[d.bufs[fd].store]
            &&& c.llseek(dup->Ok_0, 0, SEEK_END) == d.llseek(fd, 0, SEEK_END)
        }),
{
    let (a, dup) = d.dup(fd);
    let n = dup->Ok_0;
    let store = d.bufs[fd].store;
    assert(!d.bufs.contains_key(n));
    assert(a.holders(store) =~= d.holders(store).insert(n));
    assert(d.stores.contains_key(store));
    assert(d.holders(store).finite());
    assert(!d.containers.contains_key(fd));
    assert(!d.containers.contains_key(n));
}

/// What is written through one descriptor is read through its duplicate.
pub proof fn law_duplicate_shares_data(d: Device, fd: i32, m: Mapping, bytes: Seq<u8>)
    requires
        d.wf(),
        d.next_fd < i32::MAX,
        d.bufs.contains_key(fd),
        d.faithful(d.bufs[fd].heap),
        m.store == d.bufs[fd].store,
        bytes.len() == m.len,
        m.len <= d.stores[m.store].data.len(),
    ensures
        ({
            let (a, dup) = d.dup(fd);
            let w = a.write(m, bytes);
            let (r, mapping) = w.mmap(dup->Ok_0, m.len);
            &&& dup is Ok
            &&& mapping is Ok
            &&& r.read(mapping->Ok_0) == Some(bytes)
        }),
{
    let (a, dup) = d.dup(fd);
    let n = dup->Ok_0;
    assert(!d.containers.contains_key(n));
    let w = a.write(m, bytes);
    let (r, mapping) = w.mmap(n, m.len);
    assert(r.read(mapping->Ok_0)->0 =~= bytes);
}

/// Reading back gives what was written.
pub proof fn law_read_after_write(d: Device, m: Mapping, bytes: Seq<u8>)
    requires
        d.stores.contains_key(m.store),
        bytes.len() == m.len,
        m.len <= d.stores[m.store].data.len(),
    ensures
        d.write(m, bytes).read(m) == Some(bytes),
{
    assert(d.write(m, bytes).read(m)->0 =~= bytes);
}

/// Closing what was allocated leaves no buffer and no storage behind.
pub proof fn law_alloc_then_close_leaves_nothing(
    d: Device,
    heap_fd: i32,
    len: u64,
    f: u32,
    hf: u64,
)
    requires
        d.wf(),
        d.next_fd < i32::MAX,
        d.next_store < u64::MAX,
        d.allocate(heap_fd, len, f, hf).1 is Ok,
    ensures
        ({
            let (a, fd) = d.allocate(heap_fd, len, f, hf);
            let (c, closed) = a.close(fd->Ok_0);
            &&& closed is Ok
            &&& c.bufs == d.bufs
            &&& c.stores == d.stores
        }),
{
    let (a, fd) = d.allocate(heap_fd, len, f, hf);
    let fd = fd->Ok_0;
    let id = d.next_store as u64;
    assert(!d.bufs.contains_key(fd));
    assert(!d.stores.contains_key(id));
    assert forall|x: i32| d.bufs.contains_key(x) implies d.bufs[x].store != id by {
        assert(d.stores.contains_key(d.bufs[x].store));
    }
    assert(a.holders(id) =~= set![fd]);
    let c = a.close(fd).0;
    assert(c.bufs =~= d.bufs);
    assert(c.stores =~= d.stores);
}

/// At the limit of open buffers an allocation fails for want of memory; once one
/// buffer is closed it does not.
pub proof fn law_memory_recovers_after_free(
    d: Device,
    heap_fd: i32,
    len: u64,
    f: u32,
    fd: i32,
    sim: SimConfig,
    limit: usize,
)
    requires
        d.wf(),
        d.registered is None,
        d.heaps.contains_key(heap_fd),
        0 < len <= MAX_ALLOC_SIZE,
        f & !crate::backend::ioctl::DMA_HEAP_VALID_FD_FLAGS == 0,
        d.sim == Some(sim),
        sim.fail_every_nth == 0,
        sim.enomem_threshold == Some(limit),
        d.bufs.len() == limit,
        d.bufs.contains_key(fd),
    ensures
        d.allocate(heap_fd, len, f, 0).1 == Err::<i32, Errno>(Errno::ENOMEM),
        d.close(fd).0.allocate(heap_fd, len, f, 0).1 is Ok,
{
    assert(page_aligned(len as nat) <= MAX_ALLOC_SIZE);
    assert(d.heap_ok(d.heaps[heap_fd]));
    let c = d.close(fd).0;
    assert(c.bufs.dom() =~= d.bufs.dom().remove(fd));
}

/// A refused request opens and closes nothing.
pub proof fn law_errors_change_no_descriptor(
    d: Device,
    name: Seq<char>,
    h: i32,
    len: u64,
    f: u32,
    hf: u64,
    fds: Seq<i32>,
)
    ensures
        d.open(name).1 is Err ==> d.open(name).0 == d,
        d.allocate(h, len, f, hf).1 is Err ==> ({
            let a = d.allocate(h, len, f, hf).0;
            a.bufs == d.bufs && a.stores == d.stores && a.heaps == d.heaps && a.next_fd
                == d.next_fd
        }),
        d.close(h).1 is Err ==> d.close(h).0 == d,
        d.dup(h).1 is Err ==> d.dup(h).0 == d,
        d.export_sync_file(h, f).1 is Err ==> d.export_sync_file(h, f).0 == d,
        d.merge(h, fds).1 is Err ==> d.merge(h, fds).0 == d,
        d.sync(h, hf).1 is Err ==> d.sync(h, hf).0 == d,
{
}

/// A new container has no buffer masked; and the mask that was set is the mask.
pub proof fn law_mask_roundtrip(d: Device, dev: i32, fds: Seq<i32>, fd: i32, mask: u64)
    ensures
        d.merge(dev, fds).1 is Ok ==> d.merge(dev, fds).0.get_mask(dev, d.merge(dev, fds).1->Ok_0)
            == Ok::<u64, Errno>(0),
        d.set_mask(dev, fd, mask).1 is Ok ==> d.set_mask(dev, fd, mask).0.get_mask(dev, fd)
            == Ok::<u64, Errno>(mask),
{
}

/// Closing a container leaves its buffers as they are, and the container gone.
pub proof fn law_closing_container_keeps_buffers(d: Device, dev: i32, fd: i32, mask: u64)
    requires
        d.containers.contains_key(fd),
    ensures
        ({
            let (c, r) = d.close_container(fd);
            &&& r is Ok
            &&& c.bufs == d.bufs
            &&& c.stores == d.stores
            &&& c.get_mask(dev, fd) == Err::<u64, Errno>(Errno::EBADF)
            &&& c.set_mask(dev, fd, mask).1 == Err::<(), Errno>(Errno::EBADF)
        }),
{
}

/// A container cannot be mapped, synchronised or measured.
pub proof fn law_container_is_opaque(d: Device, fd: i32, len: usize, flags: u64)
    requires
        d.containers.contains_key(fd),
    ensures
        d.mmap(fd, len) == (d, Err::<Mapping, Errno>(Errno::EACCES)),
        d.sync(fd, flags) == (d, Err::<(), Errno>(Errno::EINVAL)),
        d.llseek(fd, 0, SEEK_END) == Err::<i64, Errno>(Errno::EINVAL),
{
}

/// A container among those merged stands for its buffers, in order.
pub proof fn law_nested_containers_flatten(d: Device, inner: i32, fd: i32)
    requires
        d.containers.contains_key(inner),
        !d.containers.contains_key(fd),
    ensures
        d.flattened(seq![inner, fd]) == d.containers[inner].bufs.push(fd),
{
    let s = seq![inner, fd];
    assert(s.drop_last() =~= seq![inner]);
    assert(seq![inner].drop_last() =~= Seq::<i32>::empty());
    assert(d.flattened(Seq::<i32>::empty()) =~= Seq::empty());
    assert(d.flattened(seq![inner]) =~= d.containers[inner].bufs);
    assert(d.flattened(s) =~= d.containers[inner].bufs.push(fd));
}

/// The buffers of a heap without processor access cannot be mapped, and
/// synchronising them changes nothing.
pub proof fn law_restricted_heap(d: Device, fd: i32, len: usize, flags: u64)
    requires
        d.wf(),
        d.bufs.contains_key(fd),
        !d.cpu_access(d.bufs[fd].heap),
    ensures
        d.mmap(fd, len) == (d, Err::<Mapping, Errno>(Errno::EACCES)),
        d.sync(fd, flags).0 == d,
{
}

} // verus!
