//! The simulated device as a mathematical state, and what each operation does to it.
use crate::backend::ioctl::{
    has_direction, Errno, DMA_BUF_SYNC_END, DMA_BUF_SYNC_RW, DMA_BUF_SYNC_VALID_FLAGS_MASK,
    DMA_HEAP_VALID_FD_FLAGS, MAX_BUFCON_BUFS, MAX_BUFCON_SRC_BUFS, SEEK_END, SEEK_SET,
};
use crate::backend::protocol::Pattern;
use vstd::prelude::*;

verus! {

/// The bytes of a page.
pub const PAGE_SIZE: u64 = 4096;

/// The largest allocation: 1 GiB.
pub const MAX_ALLOC_SIZE: u64 = 0x4000_0000;

/// The first descriptor, above those that an operating system hands out.
pub const MOCK_FD_START: i32 = 1000;

/// Faults to inject and delays to simulate. Zero or `None` turns each off.
#[derive(Clone, Copy, Debug)]
pub struct SimConfig {
    /// How many buffers may be open before an allocation fails with `ENOMEM`.
    pub enomem_threshold: Option<usize>,
    /// Every so many allocations one fails with `EIO`.
    pub fail_every_nth: u64,
    /// Every so many mappings one flips the first byte.
    pub corrupt_every_nth: u64,
    /// Delay per page, in nanoseconds.
    pub latency_ns_per_4k: u64,
}

/// How a registered heap behaves.
#[derive(Clone, Copy, Debug)]
pub struct HeapProfile {
    /// Delay relative to the base, in percent.
    pub latency_percent: u32,
    /// Whether the heap's memory is cached.
    pub cached: bool,
    /// Whether its buffers can be mapped. Where not, mapping fails with `EACCES` and
    /// synchronisation does nothing.
    pub cpu_access: bool,
    /// Faults to inject in place of those of the whole device.
    pub sim_override: Option<SimConfig>,
}

/// Whether a buffer is being accessed, and for what.
#[derive(Clone, Copy, PartialEq, Eq, Structural, Debug)]
pub enum SyncState {
    Idle,
    Started { flags: u64 },
}

/// An open buffer: the storage behind it, and the registered heap that it came from.
#[derive(Clone, Copy, Debug)]
pub struct Buffer {
    pub store: u64,
    pub heap: Option<usize>,
}

/// Storage that one or more buffers share.
#[verifier::ext_equal]
pub ghost struct Storage {
    pub data: Seq<u8>,
    pub sync: SyncState,
}

/// A container: its buffers in order, and which of them are masked.
#[verifier::ext_equal]
pub ghost struct Container {
    pub bufs: Seq<i32>,
    pub mask: u64,
}

/// A registered heap, and how many allocations it was asked for.
#[verifier::ext_equal]
pub ghost struct Registered {
    pub name: Seq<char>,
    pub profile: HeapProfile,
    pub allocs: nat,
}

/// The state of the simulated device.
#[verifier::ext_equal]
pub ghost struct Device {
    pub bufs: Map<i32, Buffer>,
    pub stores: Map<u64, Storage>,
    pub heaps: Map<i32, Option<usize>>,
    pub syncs: Set<i32>,
    pub containers: Map<i32, Container>,
    pub devices: Set<i32>,
    pub next_fd: int,
    pub next_store: int,
    pub sim: Option<SimConfig>,
    /// The registered heaps; `None` where any name will do.
    pub registered: Option<Seq<Registered>>,
    pub allocs: nat,
    pub mmaps: nat,
}

/// A mapping: the storage it shows, and how much of it.
#[derive(Clone, Copy, PartialEq, Eq, Structural, Debug)]
pub struct Mapping {
    pub store: u64,
    pub len: usize,
}

/// The size rounded up to whole pages.
pub open spec fn page_aligned(size: nat) -> nat {
    ((size + 4095) / 4096 * 4096) as nat
}

/// Where a name is registered, or the number of registered heaps.
pub open spec fn name_index(r: Seq<Registered>, name: Seq<char>) -> int
    decreases r.len(),
{
    if r.len() == 0 || r[0].name == name {
        0
    } else {
        1 + name_index(r.skip(1), name)
    }
}

/// Storage with its first byte flipped.
pub open spec fn corrupted(s: Storage) -> Storage {
    Storage { data: s.data.update(0, s.data[0] ^ 0xff), ..s }
}

/// Bytes with those from `from` up to `to` written over.
pub open spec fn overwritten(data: Seq<u8>, from: int, to: int, pattern: Pattern) -> Seq<u8> {
    Seq::new(
        data.len(),
        |i: int|
            if from <= i < to {
                pattern.byte(i)
            } else {
                data[i]
            },
    )
}

impl Device {
    /// The faults to inject for a heap.
    pub open spec fn sim_for(self, heap: Option<usize>) -> Option<SimConfig> {
        match (heap, self.registered) {
            (Some(i), Some(r)) => match r[i as int].profile.sim_override {
                Some(s) => Some(s),
                None => self.sim,
            },
            _ => self.sim,
        }
    }

    /// Whether the buffers of a heap can be mapped.
    pub open spec fn cpu_access(self, heap: Option<usize>) -> bool {
        match (heap, self.registered) {
            (Some(i), Some(r)) => r[i as int].profile.cpu_access,
            _ => true,
        }
    }

    /// The allocations counted for a heap: its own where it is registered.
    pub open spec fn alloc_count(self, heap: Option<usize>) -> nat {
        match (heap, self.registered) {
            (Some(i), Some(r)) => r[i as int].allocs,
            _ => self.allocs,
        }
    }

    /// One more allocation counted for a heap.
    pub open spec fn counted(self, heap: Option<usize>) -> Device {
        match (heap, self.registered) {
            (Some(i), Some(r)) => Device {
                registered: Some(
                    r.update(
                        i as int,
                        Registered { allocs: r[i as int].allocs + 1, ..r[i as int] },
                    ),
                ),
                ..self
            },
            _ => Device { allocs: self.allocs + 1, ..self },
        }
    }

    /// Opening a heap: it must have a name, and a registered one where heaps are
    /// registered.
    pub open spec fn open(self, name: Seq<char>) -> (Device, Result<i32, Errno>) {
        let index: Option<usize> = match self.registered {
            Some(r) => Some(name_index(r, name) as usize),
            None => None,
        };
        if name.len() == 0 || (self.registered matches Some(r) && name_index(r, name) >= r.len()) {
            (self, Err(Errno::ENOENT))
        } else {
            (
                Device {
                    heaps: self.heaps.insert(self.next_fd as i32, index),
                    next_fd: self.next_fd + 1,
                    ..self
                },
                Ok(self.next_fd as i32),
            )
        }
    }

    /// A new buffer of zeros.
    pub open spec fn with_buffer(self, heap: Option<usize>, size: nat) -> Device {
        Device {
            bufs: self.bufs.insert(
                self.next_fd as i32,
                Buffer { store: self.next_store as u64, heap },
            ),
            stores: self.stores.insert(
                self.next_store as u64,
                Storage { data: Seq::new(size, |i: int| 0u8), sync: SyncState::Idle },
            ),
            next_fd: self.next_fd + 1,
            next_store: self.next_store + 1,
            ..self
        }
    }

    /// An allocation from a heap.
    pub open spec fn allocate(self, heap_fd: i32, len: u64, fd_flags: u32, heap_flags: u64) -> (
        Device,
        Result<i32, Errno>,
    ) {
        let heap = self.heaps[heap_fd];
        let size = page_aligned(len as nat);
        let added = (self.with_buffer(heap, size), Ok::<i32, Errno>(self.next_fd as i32));
        if !self.heaps.contains_key(heap_fd) {
            (self, Err(Errno::EBADF))
        } else if len == 0 || heap_flags != 0 || fd_flags & !DMA_HEAP_VALID_FD_FLAGS != 0 || size
            > u64::MAX {
            (self, Err(Errno::EINVAL))
        } else if size > MAX_ALLOC_SIZE {
            (self, Err(Errno::ENOMEM))
        } else {
            match self.sim_for(heap) {
                None => added,
                Some(sim) => {
                    let d = self.counted(heap);
                    if sim.fail_every_nth > 0 && d.alloc_count(heap) % sim.fail_every_nth as nat
                        == 0 {
                        (d, Err(Errno::EIO))
                    } else if sim.enomem_threshold matches Some(t) && self.bufs.len() >= t {
                        (d, Err(Errno::ENOMEM))
                    } else {
                        (d.with_buffer(heap, size), Ok(self.next_fd as i32))
                    }
                },
            }
        }
    }

    /// Closing a heap.
    pub open spec fn close_heap(self, fd: i32) -> (Device, Result<(), Errno>) {
        if self.heaps.contains_key(fd) {
            (Device { heaps: self.heaps.remove(fd), ..self }, Ok(()))
        } else {
            (self, Err(Errno::EBADF))
        }
    }

    /// Mapping the first `len` bytes of a buffer.
    pub open spec fn mmap(self, fd: i32, len: usize) -> (Device, Result<Mapping, Errno>) {
        let buf = self.bufs[fd];
        let store = self.stores[buf.store];
        let mapping = Mapping { store: buf.store, len };
        let nth = match self.sim_for(buf.heap) {
            Some(sim) => sim.corrupt_every_nth,
            None => 0,
        };
        if self.containers.contains_key(fd) {
            (self, Err(Errno::EACCES))
        } else if !self.bufs.contains_key(fd) {
            (self, Err(Errno::EBADF))
        } else if !self.cpu_access(buf.heap) {
            (self, Err(Errno::EACCES))
        } else if len > store.data.len() {
            (self, Err(Errno::EINVAL))
        } else if nth > 0 {
            let d = Device { mmaps: self.mmaps + 1, ..self };
            if (self.mmaps + 1) % nth as nat == 0 && len > 0 {
                (
                    Device { stores: self.stores.insert(buf.store, corrupted(store)), ..d },
                    Ok(mapping),
                )
            } else {
                (d, Ok(mapping))
            }
        } else {
            (self, Ok(mapping))
        }
    }

    /// Synchronising a buffer: the start or the end of an access.
    pub open spec fn sync(self, fd: i32, flags: u64) -> (Device, Result<(), Errno>) {
        let buf = self.bufs[fd];
        let store = self.stores[buf.store];
        let state = if flags & DMA_BUF_SYNC_END != 0 {
            SyncState::Idle
        } else {
            SyncState::Started { flags: flags & DMA_BUF_SYNC_RW }
        };
        if self.containers.contains_key(fd) {
            (self, Err(Errno::EINVAL))
        } else if !self.bufs.contains_key(fd) {
            (self, Err(Errno::EBADF))
        } else if flags & !DMA_BUF_SYNC_VALID_FLAGS_MASK != 0 || !has_direction(flags) {
            (self, Err(Errno::EINVAL))
        } else if !self.cpu_access(buf.heap) {
            (self, Ok(()))
        } else {
            (
                Device {
                    stores: self.stores.insert(buf.store, Storage { sync: state, ..store }),
                    ..self
                },
                Ok(()),
            )
        }
    }

    /// Seeking: the end of a buffer is its size, its start is zero, and nothing else
    /// can be asked for.
    pub open spec fn llseek(self, fd: i32, offset: i64, whence: i32) -> Result<i64, Errno> {
        if self.containers.contains_key(fd) {
            Err(Errno::EINVAL)
        } else if !self.bufs.contains_key(fd) {
            Err(Errno::EBADF)
        } else if offset != 0 {
            Err(Errno::EINVAL)
        } else if whence == SEEK_END {
            Ok(self.stores[self.bufs[fd].store].data.len() as i64)
        } else if whence == SEEK_SET {
            Ok(0i64)
        } else {
            Err(Errno::EINVAL)
        }
    }

    /// Exporting a fence of a buffer.
    pub open spec fn export_sync_file(self, fd: i32, flags: u32) -> (Device, Result<i32, Errno>) {
        if !self.bufs.contains_key(fd) {
            (self, Err(Errno::EBADF))
        } else if !has_direction(flags as u64) {
            (self, Err(Errno::EINVAL))
        } else {
            (
                Device {
                    syncs: self.syncs.insert(self.next_fd as i32),
                    next_fd: self.next_fd + 1,
                    ..self
                },
                Ok(self.next_fd as i32),
            )
        }
    }

    /// Importing a fence into a buffer.
    pub open spec fn import_sync_file(self, fd: i32, flags: u32, sync_fd: i32) -> Result<
        (),
        Errno,
    > {
        if !self.bufs.contains_key(fd) {
            Err(Errno::EBADF)
        } else if !has_direction(flags as u64) || !self.syncs.contains(sync_fd) {
            Err(Errno::EINVAL)
        } else {
            Ok(())
        }
    }

    /// Another descriptor of a buffer, with the same storage.
    pub open spec fn dup(self, fd: i32) -> (Device, Result<i32, Errno>) {
        if !self.bufs.contains_key(fd) {
            (self, Err(Errno::EBADF))
        } else {
            (
                Device {
                    bufs: self.bufs.insert(self.next_fd as i32, self.bufs[fd]),
                    next_fd: self.next_fd + 1,
                    ..self
                },
                Ok(self.next_fd as i32),
            )
        }
    }

    /// The descriptors that share a storage.
    pub open spec fn holders(self, store: u64) -> Set<i32> {
        self.bufs.dom().filter(|fd: i32| self.bufs[fd].store == store)
    }

    /// Closing a buffer or a fence. The storage goes with the last buffer on it.
    pub open spec fn close(self, fd: i32) -> (Device, Result<(), Errno>) {
        if self.bufs.contains_key(fd) {
            let store = self.bufs[fd].store;
            let d = Device { bufs: self.bufs.remove(fd), ..self };
            if self.holders(store).len() == 1 {
                (Device { stores: self.stores.remove(store), ..d }, Ok(()))
            } else {
                (d, Ok(()))
            }
        } else if self.syncs.contains(fd) {
            (Device { syncs: self.syncs.remove(fd), ..self }, Ok(()))
        } else {
            (self, Err(Errno::EBADF))
        }
    }

    /// Opening the container device.
    pub open spec fn open_container_device(self) -> (Device, i32) {
        (
            Device {
                devices: self.devices.insert(self.next_fd as i32),
                next_fd: self.next_fd + 1,
                ..self
            },
            self.next_fd as i32,
        )
    }

    /// Whether a descriptor can be merged: a buffer or a container.
    pub open spec fn mergeable(self, fd: i32) -> bool {
        self.containers.contains_key(fd) || self.bufs.contains_key(fd)
    }

    /// The buffers behind descriptors: a container stands for its own.
    pub open spec fn flattened(self, fds: Seq<i32>) -> Seq<i32>
        decreases fds.len(),
    {
        if fds.len() == 0 {
            Seq::empty()
        } else {
            let fd = fds.last();
            self.flattened(fds.drop_last()) + if self.containers.contains_key(fd) {
                self.containers[fd].bufs
            } else {
                seq![fd]
            }
        }
    }

    /// Merging buffers into a container.
    pub open spec fn merge(self, device_fd: i32, fds: Seq<i32>) -> (Device, Result<i32, Errno>) {
        let flat = self.flattened(fds);
        if !self.devices.contains(device_fd) {
            (self, Err(Errno::EBADF))
        } else if fds.len() == 0 || fds.len() > MAX_BUFCON_SRC_BUFS {
            (self, Err(Errno::EINVAL))
        } else if exists|i: int| 0 <= i < fds.len() && !self.mergeable(#[trigger] fds[i]) {
            (self, Err(Errno::EBADF))
        } else if flat.len() > MAX_BUFCON_BUFS {
            (self, Err(Errno::EINVAL))
        } else {
            (
                Device {
                    containers: self.containers.insert(
                        self.next_fd as i32,
                        Container { bufs: flat, mask: 0 },
                    ),
                    next_fd: self.next_fd + 1,
                    ..self
                },
                Ok(self.next_fd as i32),
            )
        }
    }

    /// Whether a mask has bits for buffers only that a container of `count` has.
    pub open spec fn mask_fits(mask: u64, count: nat) -> bool {
        count >= 64 || mask < vstd::arithmetic::power2::pow2(count)
    }

    /// Setting the mask of a container.
    pub open spec fn set_mask(self, device_fd: i32, fd: i32, mask: u64) -> (
        Device,
        Result<(), Errno>,
    ) {
        let c = self.containers[fd];
        if !self.devices.contains(device_fd) || !self.containers.contains_key(fd) {
            (self, Err(Errno::EBADF))
        } else if !Device::mask_fits(mask, c.bufs.len()) {
            (self, Err(Errno::EINVAL))
        } else {
            (
                Device {
                    containers: self.containers.insert(fd, Container { mask, ..c }),
                    ..self
                },
                Ok(()),
            )
        }
    }

    /// The mask of a container.
    pub open spec fn get_mask(self, device_fd: i32, fd: i32) -> Result<u64, Errno> {
        if !self.devices.contains(device_fd) || !self.containers.contains_key(fd) {
            Err(Errno::EBADF)
        } else {
            Ok(self.containers[fd].mask)
        }
    }

    /// Closing a container or the container device.
    pub open spec fn close_container(self, fd: i32) -> (Device, Result<(), Errno>) {
        if self.containers.contains_key(fd) {
            (Device { containers: self.containers.remove(fd), ..self }, Ok(()))
        } else if self.devices.contains(fd) {
            (Device { devices: self.devices.remove(fd), ..self }, Ok(()))
        } else {
            (self, Err(Errno::EBADF))
        }
    }

    /// What a mapping shows: nothing once its storage is gone.
    pub open spec fn read(self, m: Mapping) -> Option<Seq<u8>> {
        if self.stores.contains_key(m.store) {
            Some(self.stores[m.store].data.take(m.len as int))
        } else {
            None
        }
    }

    /// Writing at the start of a mapping.
    pub open spec fn write(self, m: Mapping, bytes: Seq<u8>) -> Device {
        let s = self.stores[m.store];
        Device {
            stores: self.stores.insert(
                m.store,
                Storage { data: bytes + s.data.skip(bytes.len() as int), ..s },
            ),
            ..self
        }
    }

    /// Whether bytes of a mapping are there.
    pub open spec fn covers(self, m: Mapping, at: usize, len: usize) -> bool {
        self.stores.contains_key(m.store) && m.len <= self.stores[m.store].data.len() && at + len
            <= m.len
    }

    /// Writing bytes of a mapping.
    pub open spec fn write_range(self, m: Mapping, at: usize, len: usize, pattern: Pattern) -> (
        Device,
        Result<(), Errno>,
    ) {
        let s = self.stores[m.store];
        if self.covers(m, at, len) {
            (
                Device {
                    stores: self.stores.insert(
                        m.store,
                        Storage {
                            data: overwritten(s.data, at as int, at + len, pattern),
                            ..s
                        },
                    ),
                    ..self
                },
                Ok(()),
            )
        } else {
            (self, Err(Errno::EFAULT))
        }
    }

    /// Whether bytes of a mapping are as expected.
    pub open spec fn range_holds(self, m: Mapping, at: usize, len: usize, pattern: Pattern) -> Result<
        bool,
        Errno,
    > {
        if self.covers(m, at, len) {
            Ok(
                forall|i: int|
                    at <= i < at + len ==> (#[trigger] self.stores[m.store].data[i])
                        == pattern.byte(i),
            )
        } else {
            Err(Errno::EFAULT)
        }
    }

    /// The state of a device: every descriptor has been handed out once, in one
    /// table; every buffer has storage, of whole pages, and all storage is in use.
    pub open spec fn wf(self) -> bool {
        &&& MOCK_FD_START <= self.next_fd <= i32::MAX
        &&& 0 <= self.next_store <= u64::MAX
        &&& self.bufs.dom().finite()
        &&& forall|fd: i32| #[trigger]
            self.bufs.contains_key(fd) ==> MOCK_FD_START <= fd < self.next_fd
                && self.stores.contains_key(self.bufs[fd].store) && self.heap_ok(
                self.bufs[fd].heap,
            )
        &&& forall|fd: i32| #[trigger]
            self.heaps.contains_key(fd) ==> MOCK_FD_START <= fd < self.next_fd && self.heap_ok(
                self.heaps[fd],
            )
        &&& forall|fd: i32| #[trigger]
            self.syncs.contains(fd) ==> MOCK_FD_START <= fd < self.next_fd
                && !self.bufs.contains_key(fd)
        &&& forall|fd: i32| #[trigger]
            self.containers.contains_key(fd) ==> MOCK_FD_START <= fd < self.next_fd
                && !self.bufs.contains_key(fd) && self.containers[fd].bufs.len()
                <= MAX_BUFCON_BUFS
        &&& forall|fd: i32| #[trigger]
            self.devices.contains(fd) ==> MOCK_FD_START <= fd < self.next_fd
        &&& forall|s: u64| #[trigger]
            self.stores.contains_key(s) ==> s < self.next_store && self.holders(s).len() > 0 && 0
                < self.stores[s].data.len() <= MAX_ALLOC_SIZE && self.stores[s].data.len() % 4096
                == 0
    }

    /// Whether a heap's index names a registered heap.
    pub open spec fn heap_ok(self, heap: Option<usize>) -> bool {
        match heap {
            Some(i) => self.registered matches Some(r) && i < r.len(),
            None => self.registered is None,
        }
    }

    /// Whether one more descriptor can be handed out and one more call counted.
    pub open spec fn has_room(self) -> bool {
        &&& self.next_fd < i32::MAX
        &&& self.next_store < u64::MAX
        &&& self.allocs < u64::MAX
        &&& self.mmaps < u64::MAX
        &&& self.registered matches Some(r) ==> forall|i: int|
            0 <= i < r.len() ==> (#[trigger] r[i]).allocs < u64::MAX
    }
}

} // verus!
