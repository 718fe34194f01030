//! Workloads on a small machine in memory, whose containers can be mapped.
use std::collections::HashMap;

use dhp::backend::driver::{Driver, RealBackend, Request};
use dhp::backend::ioctl::Errno;
use dhp::backend::mock::MockBackend;
use dhp::backend::model::{Mapping, SimConfig};
use dhp::backend::protocol::{Ask, HeapBackend, Moment, Reply};
use dhp::bench::rows::BenchConfig;
use dhp::info::types::HeapCaps;
use dhp::workload::benches::{self, bench_full_pipeline};
use dhp::workload::clock::{lap, Stopwatch};
use dhp::workload::container;
use dhp::workload::fragmentation::{
    test_buddyinfo_track, test_interleave_pattern, test_pagetypeinfo_track,
};
use dhp::workload::held::PoolDrainer;
use dhp::workload::reuse::test_deferred_free;

enum Thing {
    Heap,
    Buffer(usize),
    Device,
    Container { parts: Vec<usize>, mask: u64 },
}

#[derive(Default)]
struct Machine {
    next: i32,
    things: HashMap<i32, Thing>,
    stores: Vec<Vec<u8>>,
    mappings: Vec<Vec<usize>>,
    asks: Vec<Ask>,
}

impl Machine {
    fn add(&mut self, thing: Thing) -> Reply {
        self.next += 1;
        self.things.insert(self.next, thing);
        Reply::Fd(self.next)
    }

    fn parts(&self, fd: i32) -> Option<Vec<usize>> {
        match self.things.get(&fd) {
            Some(Thing::Buffer(store)) => Some(vec![*store]),
            Some(Thing::Container { parts, .. }) => Some(parts.clone()),
            _ => None,
        }
    }

    fn size(&self, parts: &[usize]) -> usize {
        parts.iter().map(|&p| self.stores[p].len()).sum()
    }

    fn place(&self, mapping: Mapping, mut i: usize) -> (usize, usize) {
        for &store in &self.mappings[mapping.store as usize] {
            if i < self.stores[store].len() {
                return (store, i);
            }
            i -= self.stores[store].len();
        }
        panic!("beyond the mapping");
    }

    fn merge(&mut self, fds: &[i32]) -> Reply {
        if fds.is_empty() || fds.len() > 63 {
            return Reply::Failed(Errno::EINVAL);
        }
        let mut parts = Vec::new();
        for &fd in fds {
            match self.parts(fd) {
                Some(p) => parts.extend(p),
                None => return Reply::Failed(Errno::EBADF),
            }
        }
        self.add(Thing::Container { parts, mask: 0 })
    }
}

impl Driver for Machine {
    fn call(&mut self, request: Request) -> Reply {
        match request {
            Request::Open { .. } => self.add(Thing::Heap),
            Request::Allocate { len, .. } => {
                self.stores.push(vec![0; len as usize]);
                self.add(Thing::Buffer(self.stores.len() - 1))
            }
            Request::Mmap { fd, len } => match self.parts(fd) {
                Some(parts) if len <= self.size(&parts) => {
                    self.mappings.push(parts);
                    Reply::Mapped(Mapping { store: self.mappings.len() as u64 - 1, len })
                }
                Some(_) => Reply::Failed(Errno::EINVAL),
                None => Reply::Failed(Errno::EBADF),
            },
            Request::Munmap { .. } => Reply::Done,
            Request::Fill { mapping, at, len, pattern } => {
                for i in at..at + len {
                    let (store, k) = self.place(mapping, i);
                    self.stores[store][k] = pattern.byte_at(i);
                }
                Reply::Done
            }
            Request::Holds { mapping, at, len, pattern } => {
                Reply::Truth((at..at + len).all(|i| {
                    let (store, k) = self.place(mapping, i);
                    self.stores[store][k] == pattern.byte_at(i)
                }))
            }
            Request::Sync { fd, .. } => match self.parts(fd) {
                Some(_) => Reply::Done,
                None => Reply::Failed(Errno::EBADF),
            },
            Request::Seek { fd, .. } => match self.parts(fd) {
                Some(parts) => Reply::Offset(self.size(&parts) as i64),
                None => Reply::Failed(Errno::EBADF),
            },
            Request::Close { fd } => match self.things.remove(&fd) {
                Some(_) => Reply::Done,
                None => Reply::Failed(Errno::EBADF),
            },
            Request::OpenDevice => self.add(Thing::Device),
            Request::Merge { fds, .. } => self.merge(&fds),
            Request::SetMask { container, mask: wanted, .. } => {
                match self.things.get_mut(&container) {
                    Some(Thing::Container { mask, .. }) => {
                        *mask = wanted;
                        Reply::Done
                    }
                    _ => Reply::Failed(Errno::EBADF),
                }
            }
            Request::GetMask { container, .. } => match self.things.get(&container) {
                Some(Thing::Container { mask, .. }) => Reply::Mask(*mask),
                _ => Reply::Failed(Errno::EBADF),
            },
            Request::Host { ask } => {
                self.asks.push(ask);
                Reply::Done
            }
            _ => Reply::Failed(Errno::ENOTTY),
        }
    }
}

fn machine() -> RealBackend<Machine> {
    RealBackend::new(Machine::default())
}

fn caps(name: &str, can_mmap: bool) -> HeapCaps {
    HeapCaps {
        name: name.to_string(),
        can_alloc: true,
        can_mmap,
        can_sync: can_mmap,
        can_write: can_mmap,
        can_llseek: true,
        can_sync_file: true,
        can_dup: true,
        alloc_granularity: 4096,
    }
}

// Containers.

#[test]
fn run_all_container_tests() {
    let mut b = machine();
    let heaps = vec!["system".to_string(), "system-uncached".to_string()];
    let all = [caps("system", true), caps("system-uncached", true)];
    let (results, err) = container::run(&mut b, &heaps, &all);
    assert!(err.is_none(), "unexpected error: {err:?}");
    assert!(
        results.iter().all(|r| r.passed),
        "failed tests: {:?}",
        results.iter().filter(|r| !r.passed).collect::<Vec<_>>()
    );
    // 13 base + 1 cross-heap = 14 tests.
    assert_eq!(results.len(), 14);
    assert!(b.driver.things.is_empty());
}

#[test]
fn run_single_heap_no_cross() {
    let mut b = machine();
    let heaps = vec!["system".to_string()];
    let (results, err) = container::run(&mut b, &heaps, &[caps("system", true)]);
    assert!(err.is_none());
    // 13 tests (no cross-heap).
    assert_eq!(results.len(), 13);
    assert!(results.iter().all(|r| r.passed));
}

#[test]
fn only_heaps_that_can_be_mapped_are_merged() {
    let heaps = vec!["a".to_string(), "b".to_string()];
    let all = [caps("a", false), caps("b", true)];
    let (results, _) = container::run(&mut machine(), &heaps, &all);
    assert_eq!(results.len(), 13);
}

// What is asked beside the heaps.

#[test]
fn free_blocks_are_looked_at() {
    let mut b = machine();
    test_buddyinfo_track(&mut b, "system").unwrap();
    assert_eq!(
        b.driver.asks,
        vec![Ask::Buddyinfo(Moment::Before), Ask::Buddyinfo(Moment::After)]
    );
    let mut b = machine();
    test_pagetypeinfo_track(&mut b, "system").unwrap();
    assert_eq!(
        b.driver.asks,
        vec![
            Ask::PageTypes(Moment::Before),
            Ask::PageTypes(Moment::During),
            Ask::PageTypes(Moment::After),
        ]
    );
    let phases = vec![
        Ask::Buddyinfo(Moment::Phase1),
        Ask::Buddyinfo(Moment::Phase2),
        Ask::Buddyinfo(Moment::Phase3),
        Ask::Buddyinfo(Moment::Phase4),
    ];
    for pattern in ["sequential", "interleaved"] {
        let mut b = machine();
        test_interleave_pattern(&mut b, "system", pattern).unwrap();
        assert_eq!(b.driver.asks, phases);
    }
    assert_eq!(Moment::During.label(), "during");
    assert_eq!(Moment::Phase3.label(), "phase3");
}

#[test]
fn memory_is_looked_at() {
    let mut b = machine();
    test_deferred_free(&mut b, "system").unwrap();
    assert_eq!(b.driver.asks, vec![Ask::Memory(Moment::Before), Ask::Memory(Moment::After)]);
}

#[test]
fn caches_are_dropped_before_each_drained_measurement() {
    let sizes = [4096, 8192];
    let cfg = BenchConfig {
        sizes: &sizes,
        iterations: 3,
        warmup: 1,
        heap_w: 6,
        pool_bypass: true,
        drain_count: Some(2),
    };
    let mut b = machine();
    let run = bench_full_pipeline(&mut b, "system", &cfg, &[2, 2]);
    run.result.unwrap();
    assert_eq!(b.driver.asks, vec![Ask::DropCaches; 6]);
    assert!(b.driver.things.is_empty());
    // Seven times of each of three rounds, for each size.
    for channel in 1..15 {
        assert_eq!(run.times(channel).len(), 3);
    }
    assert_eq!(run.times_of_both(3, 5).len(), 3);
    let expected: Vec<u64> =
        run.times(3).iter().zip(run.times(5)).map(|(a, b)| a + b).collect();
    assert_eq!(run.times_of_both(3, 5), expected);
}

// Emptying a pool.

#[test]
fn pool_drainer_drain_and_release() {
    let mut b = MockBackend::new();
    let heap = HeapBackend::open(&mut b, "system").unwrap();
    let mut drainer = PoolDrainer::new(heap, 4096, 10);
    assert_eq!(drainer.held_count(), 0);
    drainer.drain(&mut b).unwrap();
    assert_eq!(drainer.held_count(), 10);
    drainer.release(&mut b);
    assert_eq!(drainer.held_count(), 0);
}

#[test]
fn pool_drainer_no_leak() {
    let mut b = MockBackend::new();
    let heap = HeapBackend::open(&mut b, "system").unwrap();
    let before = b.buffer_count();
    for _ in 0..5 {
        let mut drainer = PoolDrainer::new(heap, 4096, 8);
        drainer.drain(&mut b).unwrap();
        assert_eq!(drainer.held_count(), 8);
        drainer.release(&mut b);
    }
    // All buffers should be freed
    assert_eq!(b.buffer_count(), before);
}

#[test]
fn a_pool_that_cannot_be_emptied() {
    let sim = SimConfig { enomem_threshold: Some(3), ..Default::default() };
    let mut b = MockBackend::with_sim(sim);
    let heap = HeapBackend::open(&mut b, "system").unwrap();
    let mut drainer = PoolDrainer::new(heap, 4096, 8);
    assert_eq!(drainer.drain(&mut b), Err(Errno::ENOMEM));
    assert_eq!(drainer.held_count(), 3);
    drainer.release(&mut b);
    assert_eq!(b.buffer_count(), 0);
}

// The stopwatch.

#[test]
fn laps_in_microseconds() {
    assert_eq!(lap(5_000, 12_999), 7);
    assert_eq!(lap(0, 999), 0);
    assert_eq!(lap(9, 3), 0);
    let mut watch = Stopwatch::start();
    assert_eq!((watch.started, watch.looked), (0, 0));
    let us = watch.split();
    assert_eq!(us, lap(0, watch.looked));
    let looked = watch.looked;
    let us = watch.split();
    assert_eq!(us, lap(looked, watch.looked));
    assert!(watch.looked >= looked);
    watch.restart();
    assert_eq!(watch.started, watch.looked);
    let (us, at) = watch.total();
    assert_eq!(us, lap(watch.started, at));
}

// The whole list of benches.

#[test]
fn benches_leave_nothing_open() {
    let sizes = [4096];
    let cfg = BenchConfig {
        sizes: &sizes,
        iterations: 2,
        warmup: 1,
        heap_w: 6,
        pool_bypass: false,
        drain_count: None,
    };
    let mut b = machine();
    let (results, err, runs) =
        benches::run(&mut b, "system", &cfg, &caps("system", true), &[0], &[0; 15]);
    assert!(err.is_none(), "unexpected error: {err:?}");
    assert_eq!(results.len(), 7);
    assert_eq!(runs.full_pipeline.unwrap().times(7).len(), 2);
    assert!(b.driver.asks.is_empty());
    assert!(b.driver.things.is_empty());
}
