//! A device in memory: descriptors, buffers, fences and containers as the kernel
//! keeps them, with faults to inject.
use crate::backend::ioctl::{
    validate_sync_direction, DmaBufExportSyncFile, DmaBufImportSyncFile, DmaHeapAllocationData,
    Errno, DMA_BUF_SYNC_END, DMA_BUF_SYNC_RW, DMA_BUF_SYNC_VALID_FLAGS_MASK,
    DMA_HEAP_VALID_FD_FLAGS, MAX_BUFCON_BUFS, MAX_BUFCON_SRC_BUFS, SEEK_END, SEEK_SET,
};
use crate::backend::model::{
    corrupted, name_index, page_aligned, Buffer, Container, Device, HeapProfile, Mapping,
    Registered, SimConfig, Storage, SyncState, MAX_ALLOC_SIZE, MOCK_FD_START,
};
use crate::backend::model::overwritten;
use crate::backend::protocol::Pattern;
use crate::order::{in_order, sorted_unique, strs};
use crate::info::types::strings;
use crate::text::same_string;
use std::collections::{HashMap, HashSet};
use vstd::prelude::*;

verus! {

broadcast use vstd::std_specs::hash::group_hash_axioms;

/// Storage as it is kept. Its bytes are made when they are first written.
struct Store {
    size: usize,
    bytes: Vec<u8>,
    sync: SyncState,
    refs: u128,
}

/// A container as it is kept.
struct ContainerState {
    buffer_fds: Vec<i32>,
    mask: u64,
}

/// A registered heap as it is kept.
struct HeapConfig {
    name: String,
    profile: HeapProfile,
    allocs: u64,
}

spec fn storage(s: Store) -> Storage {
    Storage {
        data: if s.bytes@.len() == 0 {
            Seq::new(s.size as nat, |i: int| 0u8)
        } else {
            s.bytes@
        },
        sync: s.sync,
    }
}

spec fn container(c: ContainerState) -> Container {
    Container { bufs: c.buffer_fds@, mask: c.mask }
}

spec fn registered(v: Seq<HeapConfig>) -> Seq<Registered> {
    Seq::new(
        v.len(),
        |i: int|
            Registered { name: v[i].name@, profile: v[i].profile, allocs: v[i].allocs as nat },
    )
}

/// The simulated device.
pub struct MockBackend {
    buffers: HashMap<i32, Buffer>,
    stores: HashMap<u64, Store>,
    heap_fds: HashMap<i32, Option<usize>>,
    sync_file_fds: HashSet<i32>,
    container_fds: HashMap<i32, ContainerState>,
    container_device_fds: HashSet<i32>,
    next_fd: i32,
    next_store: u64,
    sim: Option<SimConfig>,
    heap_configs: Option<Vec<HeapConfig>>,
    alloc_count: u64,
    mmap_count: u64,
}

impl View for MockBackend {
    type V = Device;

    closed spec fn view(&self) -> Device {
        Device {
            bufs: self.buffers@,
            stores: self.stores@.map_values(|s: Store| storage(s)),
            heaps: self.heap_fds@,
            syncs: self.sync_file_fds@,
            containers: self.container_fds@.map_values(|c: ContainerState| container(c)),
            devices: self.container_device_fds@,
            next_fd: self.next_fd as int,
            next_store: self.next_store as int,
            sim: self.sim,
            registered: match self.heap_configs {
                Some(v) => Some(registered(v@)),
                None => None,
            },
            allocs: self.alloc_count as nat,
            mmaps: self.mmap_count as nat,
        }
    }
}

/// The profile of a heap like any other: cached, accessible, at base speed.
pub open spec fn plain_profile() -> HeapProfile {
    HeapProfile { latency_percent: 100, cached: true, cpu_access: true, sim_override: None }
}

impl Default for HeapProfile {
    fn default() -> (r: Self)
        ensures
            r == plain_profile(),
    {
        HeapProfile { latency_percent: 100, cached: true, cpu_access: true, sim_override: None }
    }
}

impl HeapProfile {
    /// The system heap.
    pub fn system() -> (r: HeapProfile)
        ensures
            r == plain_profile(),
    {
        HeapProfile::default()
    }

    /// The uncached system heap: slower to allocate from.
    pub fn system_uncached() -> (r: HeapProfile)
        ensures
            r == (HeapProfile { latency_percent: 180, cached: false, ..plain_profile() }),
    {
        HeapProfile { latency_percent: 180, cached: false, cpu_access: true, sim_override: None }
    }

    /// A heap whose buffers the processor cannot touch.
    pub fn restricted() -> (r: HeapProfile)
        ensures
            r == (HeapProfile { cached: false, cpu_access: false, ..plain_profile() }),
    {
        HeapProfile { latency_percent: 100, cached: false, cpu_access: false, sim_override: None }
    }
}

/// A simulation without faults or delays.
pub open spec fn no_faults() -> SimConfig {
    SimConfig {
        enomem_threshold: None,
        fail_every_nth: 0,
        corrupt_every_nth: 0,
        latency_ns_per_4k: 0,
    }
}

impl Default for SimConfig {
    fn default() -> (r: Self)
        ensures
            r == no_faults(),
    {
        SimConfig {
            enomem_threshold: None,
            fail_every_nth: 0,
            corrupt_every_nth: 0,
            latency_ns_per_4k: 0,
        }
    }
}

/// A device on which nothing is open.
pub open spec fn fresh(sim: Option<SimConfig>, registered: Option<Seq<Registered>>) -> Device {
    Device {
        bufs: Map::empty(),
        stores: Map::empty(),
        heaps: Map::empty(),
        syncs: Set::empty(),
        containers: Map::empty(),
        devices: Set::empty(),
        next_fd: MOCK_FD_START as int,
        next_store: 0,
        sim,
        registered,
        allocs: 0,
        mmaps: 0,
    }
}

/// Names with their profiles, none of them used yet.
pub open spec fn profiles(v: Seq<(String, HeapProfile)>) -> Seq<Registered> {
    Seq::new(v.len(), |i: int| Registered { name: v[i].0@, profile: v[i].1, allocs: 0 })
}

/// The names of registered heaps.
pub open spec fn registered_names(r: Seq<Registered>) -> Seq<Seq<char>> {
    Seq::new(r.len(), |i: int| r[i].name)
}

/// Rounds a size up to whole pages, unless the result does not fit.
pub fn page_align(size: u64) -> (r: Option<u64>)
    ensures
        match r {
            Some(n) => n == page_aligned(size as nat),
            None => page_aligned(size as nat) > u64::MAX,
        },
{
    let wide: u128 = (size as u128 + 4095) / 4096 * 4096;
    if wide > u64::MAX as u128 {
        None
    } else {
        Some(wide as u64)
    }
}

impl MockBackend {
    /// What every operation keeps: the device's state is well-formed, and storage is
    /// kept in full or not at all, with the number of buffers on it.
    pub closed spec fn inv(&self) -> bool {
        &&& self@.wf()
        &&& forall|s: u64| #[trigger]
            self.stores@.contains_key(s) ==> {
                let st = self.stores@[s];
                &&& st.bytes@.len() == 0 || st.bytes@.len() == st.size
                &&& st.refs == self@.holders(s).len()
            }
    }

    /// Two consequences of the invariant.
    pub proof fn lemma_inv(&self)
        requires
            self.inv(),
        ensures
            self@.wf(),
    {
    }

    fn empty(sim: Option<SimConfig>, heap_configs: Option<Vec<HeapConfig>>) -> (r: MockBackend)
        ensures
            r.inv(),
            r@ == fresh(
                sim,
                match heap_configs {
                    Some(v) => Some(registered(v@)),
                    None => None,
                },
            ),
    {
        let r = MockBackend {
            buffers: HashMap::new(),
            stores: HashMap::new(),
            heap_fds: HashMap::new(),
            sync_file_fds: HashSet::new(),
            container_fds: HashMap::new(),
            container_device_fds: HashSet::new(),
            next_fd: MOCK_FD_START,
            next_store: 0,
            sim,
            heap_configs,
            alloc_count: 0,
            mmap_count: 0,
        };
        proof {
            assert(r@.stores =~= Map::empty());
            assert(r@.containers =~= Map::empty());
            assert(r@.bufs =~= Map::empty());
        }
        r
    }

    /// A device that accepts any heap name.
    pub fn new() -> (r: MockBackend)
        ensures
            r.inv(),
            r@ == fresh(None, None),
    {
        MockBackend::empty(None, None)
    }

    /// A device that accepts any heap name, with simulated delays.
    pub fn new_realistic() -> (r: MockBackend)
        ensures
            r.inv(),
            r@ == fresh(Some(SimConfig { latency_ns_per_4k: 1000, ..no_faults() }), None),
    {
        MockBackend::with_sim(
            SimConfig {
                enomem_threshold: None,
                fail_every_nth: 0,
                corrupt_every_nth: 0,
                latency_ns_per_4k: 1000,
            },
        )
    }

    /// A device that accepts any heap name, with faults to inject.
    pub fn with_sim(sim: SimConfig) -> (r: MockBackend)
        ensures
            r.inv(),
            r@ == fresh(Some(sim), None),
    {
        MockBackend::empty(Some(sim), None)
    }

    /// A device with registered heaps only.
    pub fn with_heaps(heaps: Vec<(String, HeapProfile)>) -> (r: MockBackend)
        ensures
            r.inv(),
            r@ == fresh(None, Some(profiles(heaps@))),
    {
        MockBackend::with_heaps_and_sim(heaps, None)
    }

    /// A device with registered heaps only, and faults to inject.
    fn with_heaps_and_sim(heaps: Vec<(String, HeapProfile)>, sim: Option<SimConfig>) -> (r:
        MockBackend)
        ensures
            r.inv(),
            r@ == fresh(sim, Some(profiles(heaps@))),
    {
        let ghost all = heaps@;
        let mut configs: Vec<HeapConfig> = Vec::new();
        let mut rest = heaps;
        while rest.len() > 0
            invariant
                rest@.len() <= all.len(),
                rest@ == all.skip(all.len() - rest@.len()),
                registered(configs@) == profiles(all.take(all.len() - rest@.len())),
            decreases rest@.len(),
        {
            let ghost n = all.len() - rest@.len();
            let ghost before = configs@;
            let (name, profile) = rest.remove(0);
            configs.push(HeapConfig { name, profile, allocs: 0 });
            assert(registered(configs@) =~= registered(before).push(profiles(all)[n]));
            assert(profiles(all.take(n + 1)) =~= profiles(all.take(n)).push(profiles(all)[n]));
            assert(rest@ =~= all.skip(n + 1));
        }
        assert(all.take(all.len() as int) =~= all);
        MockBackend::empty(sim, Some(configs))
    }

    /// A device with a cached, an uncached and a restricted heap.
    pub fn new_multi_heap() -> (r: MockBackend)
        ensures
            r.inv(),
            r@ == fresh(None, Some(three_heaps())),
    {
        let heaps = default_heaps();
        MockBackend::with_heaps_and_sim(heaps, None)
    }

    /// A device with a cached, an uncached and a restricted heap, and simulated delays.
    pub fn new_multi_heap_realistic() -> (r: MockBackend)
        ensures
            r.inv(),
            r@ == fresh(
                Some(SimConfig { latency_ns_per_4k: 1000, ..no_faults() }),
                Some(three_heaps()),
            ),
    {
        let heaps = default_heaps();
        MockBackend::with_heaps_and_sim(
            heaps,
            Some(
                SimConfig {
                    enomem_threshold: None,
                    fail_every_nth: 0,
                    corrupt_every_nth: 0,
                    latency_ns_per_4k: 1000,
                },
            ),
        )
    }

    /// The heaps that can be opened, in dictionary order; where any name will do,
    /// the system heap.
    pub fn available_heaps(&self) -> (r: Vec<String>)
        ensures
            strings(r@) == match self@.registered {
                Some(v) => in_order(registered_names(v)),
                None => seq!["system"@],
            },
    {
        match &self.heap_configs {
            Some(configs) => {
                let ghost all = registered_names(registered(configs@));
                let mut names: Vec<&str> = Vec::new();
                let mut i: usize = 0;
                while i < configs.len()
                    invariant
                        i <= configs@.len(),
                        all == registered_names(registered(configs@)),
                        strs(names@) == all.take(i as int),
                    decreases configs@.len() - i,
                {
                    let ghost before = names@;
                    names.push(configs[i].name.as_str());
                    assert(strs(names@) =~= strs(before).push(all[i as int]));
                    assert(all.take(i + 1) =~= all.take(i as int).push(all[i as int]));
                    i = i + 1;
                }
                assert(all.take(all.len() as int) =~= all);
                sorted_unique(&names)
            },
            None => {
                let mut r: Vec<String> = Vec::new();
                r.push("system".to_owned());
                assert(strings(r@) =~= seq!["system"@]);
                r
            },
        }
    }

    /// How many buffer descriptors are open.
    pub fn buffer_count(&self) -> (r: usize)
        ensures
            r == self@.bufs.len(),
    {
        self.buffers.len()
    }
}

/// The three heaps that a device has by default.
pub open spec fn three_heaps() -> Seq<Registered> {
    seq![
        Registered { name: "system"@, profile: plain_profile(), allocs: 0 },
        Registered {
            name: "system-uncached"@,
            profile: HeapProfile { latency_percent: 180, cached: false, ..plain_profile() },
            allocs: 0,
        },
        Registered {
            name: "restricted"@,
            profile: HeapProfile { cached: false, cpu_access: false, ..plain_profile() },
            allocs: 0,
        },
    ]
}

fn default_heaps() -> (r: Vec<(String, HeapProfile)>)
    ensures
        profiles(r@) == three_heaps(),
{
    let mut v: Vec<(String, HeapProfile)> = Vec::new();
    v.push(("system".to_owned(), HeapProfile::system()));
    v.push(("system-uncached".to_owned(), HeapProfile::system_uncached()));
    v.push(("restricted".to_owned(), HeapProfile::restricted()));
    assert(profiles(v@) =~= three_heaps());
    v
}

/// Where the names before `i` differ from `name` and the one at `i` does not, it is found there.
proof fn lemma_name_index(r: Seq<Registered>, name: Seq<char>, i: int)
    requires
        0 <= i <= r.len(),
        forall|j: int| 0 <= j < i ==> (#[trigger] r[j]).name != name,
        i < r.len() ==> r[i].name == name,
    ensures
        name_index(r, name) == i,
    decreases i,
{
    if i > 0 {
        let t = r.skip(1);
        assert(r[0].name != name);
        assert forall|j: int| 0 <= j < i - 1 implies (#[trigger] t[j]).name != name by {
            assert(t[j] == r[j + 1]);
        }
        lemma_name_index(t, name, i - 1);
    }
}

impl MockBackend {
    fn name_position(configs: &Vec<HeapConfig>, name: &str) -> (r: usize)
        ensures
            r == name_index(registered(configs@), name@),
            r <= configs@.len(),
    {
        let mut i: usize = 0;
        while i < configs.len() && !same_string(configs[i].name.as_str(), name)
            invariant
                i <= configs@.len(),
                forall|j: int|
                    0 <= j < i ==> (#[trigger] registered(configs@)[j]).name != name@,
            decreases configs@.len() - i,
        {
            i = i + 1;
        }
        proof {
            lemma_name_index(registered(configs@), name@, i as int);
        }
        i
    }

    /// The next descriptor.
    fn take_fd(&mut self) -> (fd: i32)
        requires
            old(self).next_fd < i32::MAX,
        ensures
            fd == old(self).next_fd,
            *final(self) == (MockBackend { next_fd: (old(self).next_fd + 1) as i32, ..*old(self) }),
    {
        let fd: i32 = self.next_fd;
        self.next_fd = fd + 1;
        fd
    }

    /// Opens a heap by name.
    pub fn open(&mut self, name: &str) -> (r: Result<i32, Errno>)
        requires
            old(self).inv(),
            old(self)@.has_room(),
        ensures
            final(self).inv(),
            (final(self)@, r) == old(self)@.open(name@),
    {
        if name.is_empty() {
            return Err(Errno::ENOENT);
        }
        let index: Option<usize> = match &self.heap_configs {
            Some(configs) => {
                let i: usize = MockBackend::name_position(configs, name);
                if i >= configs.len() {
                    return Err(Errno::ENOENT);
                }
                Some(i)
            },
            None => None,
        };
        let fd: i32 = self.take_fd();
        self.heap_fds.insert(fd, index);
        proof {
            assert(self@ =~= old(self)@.open(name@).0);
            MockBackend::lemma_kept(*old(self), *self);
        }
        Ok(fd)
    }

    /// Closes a heap.
    pub fn close_heap(&mut self, heap_fd: i32) -> (r: Result<(), Errno>)
        requires
            old(self).inv(),
        ensures
            final(self).inv(),
            (final(self)@, r) == old(self)@.close_heap(heap_fd),
    {
        if self.heap_fds.remove(&heap_fd).is_some() {
            proof {
                assert(self@ =~= old(self)@.close_heap(heap_fd).0);
                MockBackend::lemma_kept(*old(self), *self);
            }
            Ok(())
        } else {
            proof {
                assert(self@ =~= old(self)@);
                MockBackend::lemma_kept(*old(self), *self);
            }
            Err(Errno::EBADF)
        }
    }

    /// The invariant holds on where neither buffers nor storage change.
    proof fn lemma_kept(before: MockBackend, after: MockBackend)
        requires
            before.inv(),
            after@.wf(),
            after.buffers@ == before.buffers@,
            after.stores@ == before.stores@,
        ensures
            after.inv(),
    {
        assert forall|s: u64| #[trigger] after.stores@.contains_key(s) implies after.stores@[s].refs
            == after@.holders(s).len() by {
            assert(after@.holders(s) =~= before@.holders(s));
        }
    }

    /// The faults to inject for a heap.
    fn sim_of(&self, heap: Option<usize>) -> (r: Option<SimConfig>)
        requires
            self@.heap_ok(heap),
        ensures
            r == self@.sim_for(heap),
    {
        match (heap, &self.heap_configs) {
            (Some(i), Some(configs)) => match configs[i].profile.sim_override {
                Some(s) => Some(s),
                None => self.sim,
            },
            _ => self.sim,
        }
    }

    /// Whether the buffers of a heap can be mapped.
    fn accessible(&self, heap: Option<usize>) -> (r: bool)
        requires
            self@.heap_ok(heap),
        ensures
            r == self@.cpu_access(heap),
    {
        match (heap, &self.heap_configs) {
            (Some(i), Some(configs)) => configs[i].profile.cpu_access,
            _ => true,
        }
    }

    /// Counts an allocation of a heap, and returns how many there were.
    fn count_alloc(&mut self, heap: Option<usize>) -> (n: u64)
        requires
            old(self).inv(),
            old(self)@.has_room(),
            old(self)@.heap_ok(heap),
        ensures
            final(self).inv(),
            final(self)@ == old(self)@.counted(heap),
            n == old(self)@.counted(heap).alloc_count(heap),
            final(self).buffers@ == old(self).buffers@,
    {
        let mut n: u64 = 0;
        match heap {
            Some(i) => {
                let mut taken = self.heap_configs.take();
                match taken {
                    Some(mut configs) => {
                        let ghost before = registered(configs@);
                        n = configs[i].allocs + 1;
                        let profile: HeapProfile = configs[i].profile;
                        let c = configs.remove(i);
                        let ghost name = c.name@;
                        configs.insert(i, HeapConfig { name: c.name, profile, allocs: n });
                        assert(registered(configs@) =~= before.update(
                            i as int,
                            Registered { allocs: n as nat, ..before[i as int] },
                        ));
                        self.heap_configs = Some(configs);
                    },
                    None => {},
                }
            },
            None => {
                n = self.alloc_count + 1;
                self.alloc_count = n;
            },
        }
        proof {
            assert(self@ =~= old(self)@.counted(heap));
            let d = old(self)@;
            assert(self@.wf()) by {
                assert forall|fd: i32| #[trigger] self@.bufs.contains_key(fd) implies
                    self@.heap_ok(self@.bufs[fd].heap) by {
                    assert(d.bufs.contains_key(fd));
                }
                assert forall|fd: i32| #[trigger] self@.heaps.contains_key(fd) implies
                    self@.heap_ok(self@.heaps[fd]) by {
                    assert(d.heaps.contains_key(fd));
                }
                assert forall|s: u64| #[trigger] self@.stores.contains_key(s) implies
                    self@.holders(s).len() > 0 by {
                    assert(self@.holders(s) =~= d.holders(s));
                }
            }
            MockBackend::lemma_kept(*old(self), *self);
        }
        n
    }

    /// Allocates a buffer, and puts its descriptor into the request.
    pub fn allocate(&mut self, heap_fd: i32, data: &mut DmaHeapAllocationData) -> (r: Result<
        (),
        Errno,
    >)
        requires
            old(self).inv(),
            old(self)@.has_room(),
        ensures
            final(self).inv(),
            ({
                let (d, fd) = old(self)@.allocate(
                    heap_fd,
                    old(data).len,
                    old(data).fd_flags,
                    old(data).heap_flags,
                );
                &&& final(self)@ == d
                &&& match fd {
                    Ok(n) => r is Ok && *final(data) == (DmaHeapAllocationData {
                        fd: n as u32,
                        ..*old(data)
                    }),
                    Err(e) => r == Err::<(), Errno>(e) && *final(data) == *old(data),
                }
            }),
    {
        let heap: Option<usize> = match self.heap_fds.get(&heap_fd) {
            Some(h) => *h,
            None => {
                return Err(Errno::EBADF);
            },
        };
        if data.len == 0 || data.heap_flags != 0 || data.fd_flags & !DMA_HEAP_VALID_FD_FLAGS != 0 {
            return Err(Errno::EINVAL);
        }
        let size: u64 = match page_align(data.len) {
            Some(n) => n,
            None => {
                return Err(Errno::EINVAL);
            },
        };
        if size > MAX_ALLOC_SIZE {
            return Err(Errno::ENOMEM);
        }
        match self.sim_of(heap) {
            Some(sim) => {
                let n: u64 = self.count_alloc(heap);
                if sim.fail_every_nth > 0 && n % sim.fail_every_nth == 0 {
                    return Err(Errno::EIO);
                }
                match sim.enomem_threshold {
                    Some(t) => {
                        if self.buffers.len() >= t {
                            return Err(Errno::ENOMEM);
                        }
                    },
                    None => {},
                }
            },
            None => {},
        }
        let fd: i32 = self.add_buffer(heap, size);
        data.fd = fd as u32;
        Ok(())
    }

    /// Adds a buffer of zeros.
    fn add_buffer(&mut self, heap: Option<usize>, size: u64) -> (fd: i32)
        requires
            old(self).inv(),
            old(self)@.next_fd < i32::MAX,
            old(self)@.next_store < u64::MAX,
            old(self)@.heap_ok(heap),
            0 < size <= MAX_ALLOC_SIZE,
            size % 4096 == 0,
        ensures
            final(self).inv(),
            final(self)@ == old(self)@.with_buffer(heap, size as nat),
            fd == old(self)@.next_fd,
    {
        let fd: i32 = self.take_fd();
        let id: u64 = self.next_store;
        self.next_store = id + 1;
        let st = Store { size: size as usize, bytes: Vec::new(), sync: SyncState::Idle, refs: 1 };
        self.stores.insert(id, st);
        self.buffers.insert(fd, Buffer { store: id, heap });
        proof {
            let d = old(self)@;
            assert(storage(st) =~= (Storage {
                data: Seq::new(size as nat, |i: int| 0u8),
                sync: SyncState::Idle,
            }));
            assert(self@.stores =~= d.with_buffer(heap, size as nat).stores);
            assert(self@ =~= d.with_buffer(heap, size as nat));
            assert(!d.bufs.contains_key(fd));
            assert(!d.stores.contains_key(id));
            assert forall|s: u64| #[trigger] self@.stores.contains_key(s) implies self@.holders(
                s,
            ).len() == self.stores@[s].refs && self@.holders(s).len() > 0 by {
                if s == id {
                    assert(self@.holders(s) =~= set![fd]) by {
                        assert forall|x: i32| d.bufs.contains_key(x) implies d.bufs[x].store
                            != id by {
                            assert(d.stores.contains_key(d.bufs[x].store));
                        }
                    }
                } else {
                    assert(self@.holders(s) =~= d.holders(s));
                    assert(d.stores.contains_key(s));
                }
            }
            assert forall|s: u64| #[trigger] self.stores@.contains_key(s) implies self.stores@[s].refs
                == self@.holders(s).len() by {
                assert(self@.stores.contains_key(s));
            }
            assert forall|x: i32| #[trigger] self@.bufs.contains_key(x) implies MOCK_FD_START <= x
                < self@.next_fd && self@.stores.contains_key(self@.bufs[x].store)
                && self@.heap_ok(self@.bufs[x].heap) by {
                if x != fd {
                    assert(d.bufs.contains_key(x));
                }
            }
        }
        fd
    }
}

impl MockBackend {
    /// The invariant holds on where only one storage's contents and state change.
    proof fn lemma_store_changed(before: MockBackend, after: MockBackend, id: u64)
        requires
            before.inv(),
            before.stores@.contains_key(id),
            after.buffers@ == before.buffers@,
            after.stores@ == before.stores@.insert(id, after.stores@[id]),
            after.stores@[id].refs == before.stores@[id].refs,
            after.stores@[id].bytes@.len() == 0 || after.stores@[id].bytes@.len()
                == after.stores@[id].size,
            storage(after.stores@[id]).data.len() == storage(before.stores@[id]).data.len(),
            after@ == (Device { stores: after@.stores, mmaps: after@.mmaps, ..before@ }),
        ensures
            after.inv(),
    {
        let b = before@;
        let a = after@;
        assert forall|s: u64| #[trigger] a.stores.contains_key(s) implies s < a.next_store
            && a.holders(s).len() > 0 && 0 < a.stores[s].data.len() <= MAX_ALLOC_SIZE
            && a.stores[s].data.len() % 4096 == 0 by {
            assert(a.holders(s) =~= b.holders(s));
            assert(b.stores.contains_key(s));
        }
        assert forall|fd: i32| #[trigger] a.bufs.contains_key(fd) implies MOCK_FD_START <= fd
            < a.next_fd && a.stores.contains_key(a.bufs[fd].store) && a.heap_ok(
            a.bufs[fd].heap,
        ) by {
            assert(b.bufs.contains_key(fd));
        }
        assert forall|fd: i32| #[trigger] a.heaps.contains_key(fd) implies a.heap_ok(
            a.heaps[fd],
        ) by {
            assert(b.heaps.contains_key(fd));
        }
        assert forall|s: u64| #[trigger] after.stores@.contains_key(s) implies after.stores@[s].refs
            == a.holders(s).len() && (after.stores@[s].bytes@.len() == 0
            || after.stores@[s].bytes@.len() == after.stores@[s].size) by {
            assert(a.holders(s) =~= b.holders(s));
            assert(before.stores@.contains_key(s));
        }
    }

    /// Maps the first `len` bytes of a buffer.
    pub fn mmap(&mut self, fd: i32, len: usize) -> (r: Result<Mapping, Errno>)
        requires
            old(self).inv(),
            old(self)@.has_room(),
        ensures
            final(self).inv(),
            (final(self)@, r) == old(self)@.mmap(fd, len),
    {
        if self.container_fds.contains_key(&fd) {
            return Err(Errno::EACCES);
        }
        let buf: Buffer = match self.buffers.get(&fd) {
            Some(b) => *b,
            None => {
                return Err(Errno::EBADF);
            },
        };
        assert(self@.stores.contains_key(buf.store));
        if !self.accessible(buf.heap) {
            return Err(Errno::EACCES);
        }
        let size: usize = match self.stores.get(&buf.store) {
            Some(s) => s.size,
            None => 0,
        };
        if len > size {
            return Err(Errno::EINVAL);
        }
        let nth: u64 = match self.sim_of(buf.heap) {
            Some(sim) => sim.corrupt_every_nth,
            None => 0,
        };
        if nth > 0 {
            self.mmap_count = self.mmap_count + 1;
            proof {
                self.lemma_mmaps(*old(self));
            }
            if self.mmap_count % nth == 0 && len > 0 {
                self.flip_first(buf.store);
            }
            assert(self@ =~= old(self)@.mmap(fd, len).0);
        }
        Ok(Mapping { store: buf.store, len })
    }

    proof fn lemma_mmaps(self, before: MockBackend)
        requires
            before.inv(),
            self == (MockBackend { mmap_count: self.mmap_count, ..before }),
        ensures
            self.inv(),
    {
        assert(self@ =~= (Device { mmaps: self@.mmaps, ..before@ }));
        assert(self@.wf()) by {
            assert forall|s: u64| #[trigger] self@.stores.contains_key(s) implies s
                < self@.next_store && self@.holders(s).len() > 0 && 0 < self@.stores[s].data.len()
                <= MAX_ALLOC_SIZE && self@.stores[s].data.len() % 4096 == 0 by {
                assert(self@.holders(s) =~= before@.holders(s));
                assert(before@.stores.contains_key(s));
            }
            assert forall|fd: i32| #[trigger] self@.bufs.contains_key(fd) implies self@.heap_ok(
                self@.bufs[fd].heap,
            ) by {
                assert(before@.bufs.contains_key(fd));
            }
            assert forall|fd: i32| #[trigger] self@.heaps.contains_key(fd) implies self@.heap_ok(
                self@.heaps[fd],
            ) by {
                assert(before@.heaps.contains_key(fd));
            }
        }
        MockBackend::lemma_kept(before, self);
    }

    /// Flips the first byte of a storage.
    fn flip_first(&mut self, id: u64)
        requires
            old(self)@.stores.contains_key(id),
            0 < old(self)@.stores[id].data.len(),
            old(self).inv(),
        ensures
            final(self).inv(),
            final(self)@ == (Device {
                stores: old(self)@.stores.insert(id, corrupted(old(self)@.stores[id])),
                ..old(self)@
            }),
    {
        let ghost before = *self;
        match self.stores.remove(&id) {
            Some(s) => {
                let mut st = s;
                let ghost data = storage(s).data;
                if st.bytes.len() == 0 {
                    st.bytes = zeros(st.size);
                }
                assert(st.bytes@ =~= data);
                let first: u8 = st.bytes[0];
                st.bytes.set(0, first ^ 0xff);
                assert(storage(st).data =~= data.update(0, data[0] ^ 0xff));
                assert(storage(st) =~= corrupted(storage(s)));
                self.stores.insert(id, st);
                proof {
                    assert(self.stores@ =~= before.stores@.insert(id, st));
                    assert(self@.stores =~= before@.stores.insert(id, storage(st)));
                    assert(self@ =~= (Device {
                        stores: before@.stores.insert(id, corrupted(before@.stores[id])),
                        ..before@
                    }));
                    MockBackend::lemma_store_changed(before, *self, id);
                }
            },
            None => {},
        }
    }

    /// Starts or ends an access to a buffer.
    pub fn sync(&mut self, fd: i32, flags: u64) -> (r: Result<(), Errno>)
        requires
            old(self).inv(),
        ensures
            final(self).inv(),
            (final(self)@, r) == old(self)@.sync(fd, flags),
    {
        if self.container_fds.contains_key(&fd) {
            return Err(Errno::EINVAL);
        }
        let buf: Buffer = match self.buffers.get(&fd) {
            Some(b) => *b,
            None => {
                return Err(Errno::EBADF);
            },
        };
        assert(self@.stores.contains_key(buf.store));
        if flags & !DMA_BUF_SYNC_VALID_FLAGS_MASK != 0 {
            return Err(Errno::EINVAL);
        }
        match validate_sync_direction(flags) {
            Ok(_) => {},
            Err(e) => {
                return Err(e);
            },
        }
        if !self.accessible(buf.heap) {
            return Ok(());
        }
        let state: SyncState = if flags & DMA_BUF_SYNC_END != 0 {
            SyncState::Idle
        } else {
            SyncState::Started { flags: flags & DMA_BUF_SYNC_RW }
        };
        let ghost before = *self;
        match self.stores.remove(&buf.store) {
            Some(s) => {
                let st = Store { size: s.size, bytes: s.bytes, sync: state, refs: s.refs };
                self.stores.insert(buf.store, st);
                proof {
                    assert(storage(st) =~= (Storage { sync: state, ..storage(s) }));
                    assert(self.stores@ =~= before.stores@.insert(buf.store, st));
                    assert(self@.stores =~= before@.stores.insert(buf.store, storage(st)));
                    assert(self@ =~= before@.sync(fd, flags).0);
                    MockBackend::lemma_store_changed(before, *self, buf.store);
                }
            },
            None => {},
        }
        Ok(())
    }

    /// Asks for the size or the start of a buffer.
    pub fn llseek(&self, fd: i32, offset: i64, whence: i32) -> (r: Result<i64, Errno>)
        requires
            self.inv(),
        ensures
            r == self@.llseek(fd, offset, whence),
    {
        if self.container_fds.contains_key(&fd) {
            return Err(Errno::EINVAL);
        }
        match self.buffers.get(&fd) {
            None => Err(Errno::EBADF),
            Some(buf) => {
                assert(self@.stores.contains_key(buf.store));
                if offset != 0 {
                    return Err(Errno::EINVAL);
                }
                if whence == SEEK_END {
                    let size: usize = match self.stores.get(&buf.store) {
                        Some(s) => s.size,
                        None => 0,
                    };
                    Ok(size as i64)
                } else if whence == SEEK_SET {
                    Ok(0)
                } else {
                    Err(Errno::EINVAL)
                }
            },
        }
    }

    /// Exports a fence of a buffer, and puts its descriptor into the request.
    pub fn export_sync_file(&mut self, fd: i32, data: &mut DmaBufExportSyncFile) -> (r: Result<
        (),
        Errno,
    >)
        requires
            old(self).inv(),
            old(self)@.has_room(),
        ensures
            final(self).inv(),
            ({
                let (d, sync) = old(self)@.export_sync_file(fd, old(data).flags);
                &&& final(self)@ == d
                &&& match sync {
                    Ok(n) => r is Ok && *final(data) == (DmaBufExportSyncFile {
                        fd: n,
                        ..*old(data)
                    }),
                    Err(e) => r == Err::<(), Errno>(e) && *final(data) == *old(data),
                }
            }),
    {
        if !self.buffers.contains_key(&fd) {
            return Err(Errno::EBADF);
        }
        match validate_sync_direction(data.flags as u64) {
            Ok(_) => {},
            Err(e) => {
                return Err(e);
            },
        }
        let sync_fd: i32 = self.take_fd();
        self.sync_file_fds.insert(sync_fd);
        data.fd = sync_fd;
        proof {
            assert(self@ =~= old(self)@.export_sync_file(fd, old(data).flags).0);
            assert(!old(self)@.bufs.contains_key(sync_fd));
            MockBackend::lemma_kept(*old(self), *self);
        }
        Ok(())
    }

    /// Imports a fence into a buffer.
    pub fn import_sync_file(&self, fd: i32, data: DmaBufImportSyncFile) -> (r: Result<(), Errno>)
        ensures
            r == self@.import_sync_file(fd, data.flags, data.fd),
    {
        if !self.buffers.contains_key(&fd) {
            return Err(Errno::EBADF);
        }
        match validate_sync_direction(data.flags as u64) {
            Ok(_) => {},
            Err(e) => {
                return Err(e);
            },
        }
        if !self.sync_file_fds.contains(&data.fd) {
            return Err(Errno::EINVAL);
        }
        Ok(())
    }
}

impl MockBackend {
    /// Another descriptor of a buffer.
    pub fn dup(&mut self, fd: i32) -> (r: Result<i32, Errno>)
        requires
            old(self).inv(),
            old(self)@.has_room(),
        ensures
            final(self).inv(),
            (final(self)@, r) == old(self)@.dup(fd),
    {
        let buf: Buffer = match self.buffers.get(&fd) {
            Some(b) => *b,
            None => {
                return Err(Errno::EBADF);
            },
        };
        let ghost d = self@;
        let ghost before = *self;
        let open: usize = self.buffers.len();
        let new_fd: i32 = self.take_fd();
        assert(d.stores.contains_key(buf.store));
        match self.stores.remove(&buf.store) {
            Some(s) => {
                proof {
                    vstd::set_lib::lemma_len_subset(d.holders(buf.store), d.bufs.dom());
                    assert(before.stores@.contains_key(buf.store));
                    assert(s.refs == d.holders(buf.store).len());
                }
                let st = Store { size: s.size, bytes: s.bytes, sync: s.sync, refs: s.refs + 1 };
                self.stores.insert(buf.store, st);
                self.buffers.insert(new_fd, buf);
                proof {
                    assert(storage(st) == storage(s));
                    assert(self.stores@ =~= before.stores@.insert(buf.store, st));
                    assert(self@.stores =~= d.stores);
                    assert(self@ =~= d.dup(fd).0);
                    assert(!d.bufs.contains_key(new_fd));
                    assert forall|x: u64| #[trigger] self@.stores.contains_key(x) implies x
                        < self@.next_store && self@.holders(x).len() == self.stores@[x].refs
                        && self@.holders(x).len() > 0 && 0 < self@.stores[x].data.len()
                        <= MAX_ALLOC_SIZE && self@.stores[x].data.len() % 4096 == 0 by {
                        assert(d.stores.contains_key(x));
                        assert(before.stores@.contains_key(x));
                        if x == buf.store {
                            assert(self@.holders(x) =~= d.holders(x).insert(new_fd));
                        } else {
                            assert(self@.holders(x) =~= d.holders(x));
                        }
                    }
                    assert forall|x: u64| #[trigger] self.stores@.contains_key(x) implies
                        self.stores@[x].refs == self@.holders(x).len() && (
                    self.stores@[x].bytes@.len() == 0 || self.stores@[x].bytes@.len()
                        == self.stores@[x].size) by {
                        assert(self@.stores.contains_key(x));
                        assert(before.stores@.contains_key(x));
                    }
                    assert forall|x: i32| #[trigger] self@.bufs.contains_key(x) implies
                        MOCK_FD_START <= x < self@.next_fd && self@.stores.contains_key(
                        self@.bufs[x].store,
                    ) && self@.heap_ok(self@.bufs[x].heap) by {
                        if x != new_fd {
                            assert(d.bufs.contains_key(x));
                        } else {
                            assert(d.bufs.contains_key(fd));
                        }
                    }
                    assert forall|x: i32| #[trigger] self@.heaps.contains_key(x) implies
                        self@.heap_ok(self@.heaps[x]) by {
                        assert(d.heaps.contains_key(x));
                    }
                }
            },
            None => {},
        }
        Ok(new_fd)
    }

    /// Closes a buffer or a fence.
    pub fn close(&mut self, fd: i32) -> (r: Result<(), Errno>)
        requires
            old(self).inv(),
        ensures
            final(self).inv(),
            (final(self)@, r) == old(self)@.close(fd),
    {
        let ghost d = self@;
        let ghost before = *self;
        match self.buffers.remove(&fd) {
            Some(buf) => {
                proof {
                    assert(d.bufs.contains_key(fd));
                    assert(d.stores.contains_key(buf.store));
                    assert(before.stores@.contains_key(buf.store));
                }
                match self.stores.remove(&buf.store) {
                    Some(s) => {
                        if s.refs > 1 {
                            let st = Store {
                                size: s.size,
                                bytes: s.bytes,
                                sync: s.sync,
                                refs: s.refs - 1,
                            };
                            assert(storage(st) == storage(s));
                            self.stores.insert(buf.store, st);
                            assert(self.stores@ =~= before.stores@.insert(buf.store, st));
                            assert(self@.stores =~= d.stores);
                        } else {
                            assert(d.holders(buf.store).len() == 1);
                            assert(self.stores@ =~= before.stores@.remove(buf.store));
                            assert(self@.stores =~= d.stores.remove(buf.store));
                        }
                        assert(self@ =~= d.close(fd).0);
                        proof {
                            self.lemma_closed(before, fd, buf.store);
                        }
                    },
                    None => {},
                }
                Ok(())
            },
            None => {
                assert(self@ =~= d);
                if self.sync_file_fds.remove(&fd) {
                    proof {
                        assert(self@ =~= d.close(fd).0);
                        MockBackend::lemma_kept(before, *self);
                    }
                    Ok(())
                } else {
                    proof {
                        assert(self@ =~= d);
                        MockBackend::lemma_kept(before, *self);
                    }
                    Err(Errno::EBADF)
                }
            },
        }
    }

    /// The invariant holds on after a buffer is closed.
    proof fn lemma_closed(self, before: MockBackend, fd: i32, id: u64)
        requires
            before.inv(),
            before@.bufs.contains_key(fd),
            id == before@.bufs[fd].store,
            self@ == before@.close(fd).0,
            before@.holders(id).len() > 1 ==> self.stores@ == before.stores@.insert(
                id,
                self.stores@[id],
            ) && self.stores@[id].refs == before.stores@[id].refs - 1
                && self.stores@[id].bytes@ == before.stores@[id].bytes@ && self.stores@[id].size
                == before.stores@[id].size,
            before@.holders(id).len() == 1 ==> self.stores@ == before.stores@.remove(id),
        ensures
            self.inv(),
    {
        let d = before@;
        let a = self@;
        assert(d.stores.contains_key(id));
        assert(before.stores@.contains_key(id));
        assert(d.holders(id).contains(fd));
        assert(a.holders(id) =~= d.holders(id).remove(fd));
        assert forall|x: u64| x != id implies a.holders(x) =~= d.holders(x) by {}
        if d.holders(id).len() == 1 {
            assert forall|x: i32| a.bufs.contains_key(x) implies a.bufs[x].store != id by {
                if a.bufs[x].store == id {
                    assert(a.holders(id).contains(x));
                }
            }
        }
        assert forall|x: u64| #[trigger] a.stores.contains_key(x) implies x < a.next_store
            && a.holders(x).len() == self.stores@[x].refs && a.holders(x).len() > 0 && 0
            < a.stores[x].data.len() <= MAX_ALLOC_SIZE && a.stores[x].data.len() % 4096 == 0 by {
            assert(d.stores.contains_key(x));
            assert(before.stores@.contains_key(x));
        }
        assert forall|x: u64| #[trigger] self.stores@.contains_key(x) implies self.stores@[x].refs
            == a.holders(x).len() && (self.stores@[x].bytes@.len() == 0
            || self.stores@[x].bytes@.len() == self.stores@[x].size) by {
            assert(before.stores@.contains_key(x));
            assert(a.stores.contains_key(x));
        }
        assert forall|x: i32| #[trigger] a.bufs.contains_key(x) implies MOCK_FD_START <= x
            < a.next_fd && a.stores.contains_key(a.bufs[x].store) && a.heap_ok(a.bufs[x].heap) by {
            assert(d.bufs.contains_key(x));
        }
        assert forall|x: i32| #[trigger] a.heaps.contains_key(x) implies a.heap_ok(a.heaps[x]) by {
            assert(d.heaps.contains_key(x));
        }
    }

    /// Opens the container device.
    pub fn open_container_device(&mut self) -> (r: Result<i32, Errno>)
        requires
            old(self).inv(),
            old(self)@.has_room(),
        ensures
            final(self).inv(),
            final(self)@ == old(self)@.open_container_device().0,
            r == Ok::<i32, Errno>(old(self)@.open_container_device().1),
    {
        let fd: i32 = self.take_fd();
        self.container_device_fds.insert(fd);
        proof {
            assert(self@ =~= old(self)@.open_container_device().0);
            MockBackend::lemma_kept(*old(self), *self);
        }
        Ok(fd)
    }

    /// Merges buffers and containers into a new container.
    pub fn merge(&mut self, device_fd: i32, buf_fds: &[i32]) -> (r: Result<i32, Errno>)
        requires
            old(self).inv(),
            old(self)@.has_room(),
        ensures
            final(self).inv(),
            (final(self)@, r) == old(self)@.merge(device_fd, buf_fds@),
    {
        let ghost d = self@;
        if !self.container_device_fds.contains(&device_fd) {
            return Err(Errno::EBADF);
        }
        if buf_fds.len() == 0 || buf_fds.len() > MAX_BUFCON_SRC_BUFS {
            return Err(Errno::EINVAL);
        }
        let mut resolved: Vec<i32> = Vec::new();
        let mut i: usize = 0;
        assert(buf_fds@.take(0) =~= Seq::empty());
        while i < buf_fds.len()
            invariant
                i <= buf_fds@.len() <= MAX_BUFCON_SRC_BUFS,
                self.inv(),
                self@ == d,
                d.wf(),
                forall|k: int| 0 <= k < i ==> d.mergeable(#[trigger] buf_fds@[k]),
                resolved@ == d.flattened(buf_fds@.take(i as int)),
            decreases buf_fds@.len() - i,
        {
            let fd: i32 = buf_fds[i];
            assert(buf_fds@.take(i + 1).drop_last() =~= buf_fds@.take(i as int));
            assert(buf_fds@.take(i + 1).last() == fd);
            let ghost before = resolved@;
            match self.container_fds.get(&fd) {
                Some(c) => {
                    assert(d.containers[fd].bufs == c.buffer_fds@);
                    let mut k: usize = 0;
                    assert(c.buffer_fds@.take(0) =~= Seq::empty());
                    assert(before + c.buffer_fds@.take(0) =~= before);
                    while k < c.buffer_fds.len()
                        invariant
                            k <= c.buffer_fds@.len(),
                            resolved@ == before + c.buffer_fds@.take(k as int),
                        decreases c.buffer_fds@.len() - k,
                    {
                        resolved.push(c.buffer_fds[k]);
                        assert(before + c.buffer_fds@.take(k + 1) =~= (before
                            + c.buffer_fds@.take(k as int)).push(c.buffer_fds@[k as int]));
                        k = k + 1;
                    }
                    assert(c.buffer_fds@.take(c.buffer_fds@.len() as int) =~= c.buffer_fds@);
                },
                None => {
                    if self.buffers.contains_key(&fd) {
                        resolved.push(fd);
                        assert(resolved@ =~= before + seq![fd]);
                    } else {
                        assert(!d.mergeable(buf_fds@[i as int]));
                        return Err(Errno::EBADF);
                    }
                },
            }
            i = i + 1;
        }
        assert(buf_fds@.take(buf_fds@.len() as int) =~= buf_fds@);
        if resolved.len() > MAX_BUFCON_BUFS {
            return Err(Errno::EINVAL);
        }
        let fd: i32 = self.take_fd();
        let ghost flat = resolved@;
        let state = ContainerState { buffer_fds: resolved, mask: 0 };
        self.container_fds.insert(fd, state);
        proof {
            assert(self@.containers =~= d.containers.insert(fd, Container { bufs: flat, mask: 0 }));
            assert(self@ =~= d.merge(device_fd, buf_fds@).0);
            assert(!d.bufs.contains_key(fd));
            assert forall|x: i32| #[trigger] self@.containers.contains_key(x) implies MOCK_FD_START
                <= x < self@.next_fd && !self@.bufs.contains_key(x)
                && self@.containers[x].bufs.len() <= MAX_BUFCON_BUFS by {
                if x != fd {
                    assert(d.containers.contains_key(x));
                }
            }
            MockBackend::lemma_kept(*old(self), *self);
        }
        Ok(fd)
    }

    /// Sets which buffers of a container are masked.
    pub fn set_mask(&mut self, device_fd: i32, container_fd: i32, mask: u64) -> (r: Result<
        (),
        Errno,
    >)
        requires
            old(self).inv(),
        ensures
            final(self).inv(),
            (final(self)@, r) == old(self)@.set_mask(device_fd, container_fd, mask),
    {
        let ghost d = self@;
        if !self.container_device_fds.contains(&device_fd) {
            return Err(Errno::EBADF);
        }
        let count: usize = match self.container_fds.get(&container_fd) {
            Some(c) => c.buffer_fds.len(),
            None => {
                return Err(Errno::EBADF);
            },
        };
        assert(d.containers[container_fd].bufs.len() == count);
        if count < 64 {
            let n: u64 = count as u64;
            proof {
                vstd::bits::lemma_u64_shr_is_div(mask, n);
                vstd::arithmetic::power2::lemma_pow2_pos(n as nat);
                let p = vstd::arithmetic::power2::pow2(n as nat);
                assert(mask as nat / p == 0 <==> mask < p) by (nonlinear_arith)
                    requires
                        p > 0,
                ;
            }
            if mask >> n != 0 {
                return Err(Errno::EINVAL);
            }
        }
        match self.container_fds.remove(&container_fd) {
            Some(c) => {
                let ghost bufs = c.buffer_fds@;
                let state = ContainerState { buffer_fds: c.buffer_fds, mask };
                self.container_fds.insert(container_fd, state);
                proof {
                    assert(self@.containers =~= d.containers.insert(
                        container_fd,
                        Container { bufs, mask },
                    ));
                    assert(self@ =~= d.set_mask(device_fd, container_fd, mask).0);
                    assert forall|x: i32| #[trigger] self@.containers.contains_key(x) implies
                        MOCK_FD_START <= x < self@.next_fd && !self@.bufs.contains_key(x)
                        && self@.containers[x].bufs.len() <= MAX_BUFCON_BUFS by {
                        assert(d.containers.contains_key(x));
                    }
                    MockBackend::lemma_kept(*old(self), *self);
                }
            },
            None => {},
        }
        Ok(())
    }

    /// Which buffers of a container are masked.
    pub fn get_mask(&self, device_fd: i32, container_fd: i32) -> (r: Result<u64, Errno>)
        ensures
            r == self@.get_mask(device_fd, container_fd),
    {
        if !self.container_device_fds.contains(&device_fd) {
            return Err(Errno::EBADF);
        }
        match self.container_fds.get(&container_fd) {
            Some(c) => Ok(c.mask),
            None => Err(Errno::EBADF),
        }
    }

    /// Closes a container or the container device.
    pub fn close_container(&mut self, fd: i32) -> (r: Result<(), Errno>)
        requires
            old(self).inv(),
        ensures
            final(self).inv(),
            (final(self)@, r) == old(self)@.close_container(fd),
    {
        let ghost d = self@;
        if self.container_fds.remove(&fd).is_some() {
            proof {
                assert(self@.containers =~= d.containers.remove(fd));
                assert(self@ =~= d.close_container(fd).0);
                assert forall|x: i32| #[trigger] self@.containers.contains_key(x) implies
                    MOCK_FD_START <= x < self@.next_fd && !self@.bufs.contains_key(x)
                    && self@.containers[x].bufs.len() <= MAX_BUFCON_BUFS by {
                    assert(d.containers.contains_key(x));
                }
                MockBackend::lemma_kept(*old(self), *self);
            }
            return Ok(());
        }
        assert(self@.containers =~= d.containers);
        assert(self@ =~= d);
        if self.container_device_fds.remove(&fd) {
            proof {
                assert(self@ =~= d.close_container(fd).0);
                MockBackend::lemma_kept(*old(self), *self);
            }
            return Ok(());
        }
        proof {
            assert(self@ =~= d);
            MockBackend::lemma_kept(*old(self), *self);
        }
        Err(Errno::EBADF)
    }

    /// What a mapping shows, or nothing once its storage is gone.
    pub fn read(&self, m: &Mapping) -> (r: Option<Vec<u8>>)
        requires
            self.inv(),
            self@.stores.contains_key(m.store) ==> m.len <= self@.stores[m.store].data.len(),
        ensures
            match r {
                Some(v) => self@.read(*m) == Some(v@),
                None => self@.read(*m) is None,
            },
    {
        match self.stores.get(&m.store) {
            Some(s) => {
                let ghost data = storage(*s).data;
                assert(self@.stores[m.store].data == data);
                assert(self@.stores.contains_key(m.store));
                let mut v: Vec<u8> = Vec::new();
                let mut i: usize = 0;
                while i < m.len
                    invariant
                        i <= m.len <= data.len(),
                        data == storage(*s).data,
                        s.bytes@.len() == 0 || s.bytes@.len() == s.size,
                        v@ == data.take(i as int),
                    decreases m.len - i,
                {
                    let b: u8 = if s.bytes.len() == 0 {
                        0
                    } else {
                        s.bytes[i]
                    };
                    v.push(b);
                    assert(data.take(i + 1) =~= data.take(i as int).push(data[i as int]));
                    i = i + 1;
                }
                Some(v)
            },
            None => None,
        }
    }

    /// Writes at the start of a mapping; reports whether its storage is still there.
    pub fn write(&mut self, m: &Mapping, bytes: &[u8]) -> (r: bool)
        requires
            old(self).inv(),
            bytes@.len() <= m.len,
            old(self)@.stores.contains_key(m.store) ==> m.len
                <= old(self)@.stores[m.store].data.len(),
        ensures
            final(self).inv(),
            r == old(self)@.stores.contains_key(m.store),
            r ==> final(self)@ == old(self)@.write(*m, bytes@),
            !r ==> final(self)@ == old(self)@,
    {
        let ghost before = *self;
        match self.stores.remove(&m.store) {
            Some(s) => {
                let ghost data = storage(s).data;
                assert(before@.stores[m.store].data == data);
                assert(before.stores@.contains_key(m.store));
                let mut v: Vec<u8> = if s.bytes.len() == 0 {
                    zeros(s.size)
                } else {
                    s.bytes
                };
                assert(v@ =~= data);
                let mut i: usize = 0;
                while i < bytes.len()
                    invariant
                        i <= bytes@.len() <= data.len(),
                        v@.len() == data.len(),
                        v@ =~= bytes@.take(i as int) + data.skip(i as int),
                    decreases bytes@.len() - i,
                {
                    v.set(i, bytes[i]);
                    i = i + 1;
                }
                assert(bytes@.take(bytes@.len() as int) =~= bytes@);
                let ghost result = bytes@ + data.skip(bytes@.len() as int);
                let st = Store { size: s.size, bytes: v, sync: s.sync, refs: s.refs };
                self.stores.insert(m.store, st);
                proof {
                    assert(storage(st).data =~= result);
                    assert(self.stores@ =~= before.stores@.insert(m.store, st));
                    assert(self@.stores =~= before@.stores.insert(m.store, storage(st)));
                    assert(self@ =~= before@.write(*m, bytes@));
                    MockBackend::lemma_store_changed(before, *self, m.store);
                }
                true
            },
            None => {
                assert(self.stores@ =~= before.stores@);
                assert(self@ =~= before@);
                proof {
                    MockBackend::lemma_kept(before, *self);
                }
                false
            },
        }
    }
}

impl MockBackend {
    /// Whether one more descriptor can be handed out and one more call counted.
    pub fn room(&self) -> (r: bool)
        requires
            self.inv(),
        ensures
            r == self@.has_room(),
    {
        if self.next_fd == i32::MAX || self.next_store == u64::MAX || self.alloc_count == u64::MAX
            || self.mmap_count == u64::MAX {
            return false;
        }
        match &self.heap_configs {
            Some(configs) => {
                let mut i: usize = 0;
                while i < configs.len()
                    invariant
                        i <= configs@.len(),
                        self.heap_configs == Some(*configs),
                        forall|j: int| 0 <= j < i ==> (#[trigger] configs@[j]).allocs < u64::MAX,
                    decreases configs@.len() - i,
                {
                    if configs[i].allocs == u64::MAX {
                        assert(registered(configs@)[i as int].allocs == u64::MAX);
                        return false;
                    }
                    i = i + 1;
                }
                assert forall|j: int| 0 <= j < registered(configs@).len() implies (
                #[trigger] registered(configs@)[j]).allocs < u64::MAX by {
                    assert(configs@[j].allocs < u64::MAX);
                }
            },
            None => {},
        }
        true
    }

    /// Writes bytes of a mapping.
    pub fn write_range(&mut self, m: &Mapping, at: usize, len: usize, pattern: Pattern) -> (r:
        Result<(), Errno>)
        requires
            old(self).inv(),
        ensures
            final(self).inv(),
            (final(self)@, r) == old(self)@.write_range(*m, at, len, pattern),
    {
        let ghost before = *self;
        let covered: bool = match self.stores.get(&m.store) {
            Some(s) => {
                assert(before@.stores[m.store].data.len() == s.size);
                m.len <= s.size && at <= m.len && len <= m.len - at
            },
            None => false,
        };
        if !covered {
            return Err(Errno::EFAULT);
        }
        match self.stores.remove(&m.store) {
            Some(s) => {
                let ghost data = storage(s).data;
                assert(before@.stores[m.store].data == data);
                assert(before.stores@.contains_key(m.store));
                let mut v: Vec<u8> = if s.bytes.len() == 0 {
                    zeros(s.size)
                } else {
                    s.bytes
                };
                assert(v@ =~= data);
                let end: usize = at + len;
                let mut i: usize = at;
                while i < end
                    invariant
                        at <= i <= end <= data.len(),
                        v@.len() == data.len(),
                        v@ =~= overwritten(data, at as int, i as int, pattern),
                    decreases end - i,
                {
                    v.set(i, pattern.byte_at(i));
                    i = i + 1;
                }
                let ghost result = overwritten(data, at as int, at + len, pattern);
                let st = Store { size: s.size, bytes: v, sync: s.sync, refs: s.refs };
                self.stores.insert(m.store, st);
                proof {
                    assert(storage(st).data =~= result);
                    assert(self.stores@ =~= before.stores@.insert(m.store, st));
                    assert(self@.stores =~= before@.stores.insert(m.store, storage(st)));
                    assert(self@ =~= before@.write_range(*m, at, len, pattern).0);
                    MockBackend::lemma_store_changed(before, *self, m.store);
                }
                Ok(())
            },
            None => {
                assert(false);
                Err(Errno::EFAULT)
            },
        }
    }

    /// Whether bytes of a mapping are as expected.
    pub fn range_holds(&self, m: &Mapping, at: usize, len: usize, pattern: Pattern) -> (r: Result<
        bool,
        Errno,
    >)
        requires
            self.inv(),
        ensures
            r == self@.range_holds(*m, at, len, pattern),
    {
        match self.stores.get(&m.store) {
            Some(s) => {
                let ghost data = storage(*s).data;
                assert(self@.stores[m.store].data == data);
                assert(self@.stores.contains_key(m.store));
                assert(data.len() == s.size);
                if m.len > s.size || at > m.len || len > m.len - at {
                    return Err(Errno::EFAULT);
                }
                let end: usize = at + len;
                let mut i: usize = at;
                while i < end
                    invariant
                        at <= i <= end <= data.len(),
                        end == at + len,
                        data == storage(*s).data,
                        self@.stores[m.store].data == data,
                        self@.covers(*m, at, len),
                        s.bytes@.len() == 0 || s.bytes@.len() == s.size,
                        forall|j: int| at <= j < i ==> (#[trigger] data[j]) == pattern.byte(j),
                    decreases end - i,
                {
                    let b: u8 = if s.bytes.len() == 0 {
                        0
                    } else {
                        s.bytes[i]
                    };
                    assert(b == data[i as int]);
                    if b != pattern.byte_at(i) {
                        return Ok(false);
                    }
                    i = i + 1;
                }
                Ok(true)
            },
            None => Err(Errno::EFAULT),
        }
    }
}

/// Zeros.
fn zeros(n: usize) -> (v: Vec<u8>)
    ensures
        v@ == Seq::new(n as nat, |i: int| 0u8),
{
    let mut v: Vec<u8> = Vec::new();
    let mut i: usize = 0;
    while i < n
        invariant
            i <= n,
            v@ == Seq::new(i as nat, |k: int| 0u8),
        decreases n - i,
    {
        v.push(0);
        i = i + 1;
        assert(v@ =~= Seq::new(i as nat, |k: int| 0u8));
    }
    v
}

} // verus!
