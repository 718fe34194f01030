//! The outcome of an aging run.
use crate::aging::latency::OpLatency;
use crate::aging::state::{
    change, change_fits, compute_delta_kb, compute_delta_mb, toward_zero, AgingState, HeapCounters,
    SystemSnapshot,
};
use crate::double::{of_int, quotient, Double};
use crate::exact::{law_ratio, near, value};
use crate::stats::LatencyStats;
use crate::text::{chars_of, string_of};
use vstd::prelude::*;

verus! {

/// The times of one operation.
#[derive(Clone, Copy, Debug)]
pub struct OpResult {
    pub count: u64,
    pub avg_us: u64,
    pub per_4k_us: Double,
    pub min_us: u64,
    pub max_us: u64,
    pub p50_us: u64,
    pub p99_us: u64,
}

/// What came of one heap.
#[derive(Debug)]
pub struct HeapResult {
    pub name: String,
    pub allocs: u64,
    pub frees: u64,
    pub errors: u64,
    pub enomem: u64,
    pub emfile: u64,
    pub alloc_lat: OpResult,
    pub mmap_lat: OpResult,
    pub sync_lat: OpResult,
    pub free_lat: OpResult,
}

/// What came of a run.
#[derive(Debug)]
pub struct AgingResult {
    pub mode: String,
    pub elapsed_secs: u64,
    pub total_iters: u64,
    pub threads: u32,
    pub total_allocs: u64,
    pub total_frees: u64,
    pub total_errors: u64,
    pub enomem_count: u64,
    pub emfile_count: u64,
    pub total_merges: u64,
    pub total_merge_errors: u64,
    pub throughput_iters_per_sec: Option<Double>,
    pub latency: Option<LatencyStats>,
    pub baseline_avg_us: Option<u64>,
    pub final_interval_avg_us: Option<u64>,
    pub peak_p99_us: u64,
    pub trend: Double,
    pub mem_available_delta_mb: Option<i64>,
    pub cma_free_delta_kb: Option<i64>,
    pub slab_delta_kb: Option<i64>,
    pub buf_count_start: usize,
    pub buf_count_end: usize,
    pub compaction_stall_delta: Option<u64>,
    pub high_order_free_delta: Option<i64>,
    pub heap_results: Vec<HeapResult>,
    pub drain_bufs: u64,
    pub drain_bytes: u64,
    pub warnings: Vec<String>,
}

impl OpResult {
    /// Whether the result sums the statistics up.
    pub open spec fn of(self, op: OpLatency) -> bool {
        &&& self.count == op.count
        &&& self.avg_us == op.average()
        &&& self.per_4k_us@ == op.per_page()
        &&& self.per_4k_us.wf()
        &&& self.min_us == if op.min_us == u64::MAX {
            0
        } else {
            op.min_us
        }
        &&& self.max_us == op.max_us
        &&& self.p50_us == op.percentile_of(50)
        &&& self.p99_us == op.percentile_of(99)
    }

    /// Sums running statistics up. The least time is 0 where there is none.
    pub fn from_op_latency(op: &OpLatency) -> (r: OpResult)
        ensures
            r.of(*op),
    {
        OpResult {
            count: op.count,
            avg_us: op.avg_us(),
            per_4k_us: op.per_4k_us(),
            min_us: if op.min_us == u64::MAX {
                0
            } else {
                op.min_us
            },
            max_us: op.max_us,
            p50_us: op.percentile(50),
            p99_us: op.percentile(99),
        }
    }
}

impl HeapResult {
    /// Whether the result is that of the counters.
    pub open spec fn of(self, c: HeapCounters) -> bool {
        &&& self.name@ == c.name@
        &&& self.allocs == c.allocs
        &&& self.frees == c.frees
        &&& self.errors == c.errors
        &&& self.enomem == c.enomem
        &&& self.emfile == c.emfile
        &&& self.alloc_lat.of(c.alloc_lat)
        &&& self.mmap_lat.of(c.mmap_lat)
        &&& self.sync_lat.of(c.sync_lat)
        &&& self.free_lat.of(c.free_lat)
    }
}

fn heap_result(c: &HeapCounters) -> (r: HeapResult)
    ensures
        r.of(*c),
{
    let name = chars_of(c.name.as_str());
    HeapResult {
        name: string_of(name.as_slice()),
        allocs: c.allocs,
        frees: c.frees,
        errors: c.errors,
        enomem: c.enomem,
        emfile: c.emfile,
        alloc_lat: OpResult::from_op_latency(&c.alloc_lat),
        mmap_lat: OpResult::from_op_latency(&c.mmap_lat),
        sync_lat: OpResult::from_op_latency(&c.sync_lat),
        free_lat: OpResult::from_op_latency(&c.free_lat),
    }
}

/// Whether the memory differences between two moments fit machine integers.
pub open spec fn changes_fit(initial: SystemSnapshot, last: SystemSnapshot) -> bool {
    &&& change_fits(initial.mem_available_kb, last.mem_available_kb)
    &&& change_fits(initial.cma_free_kb, last.cma_free_kb)
    &&& change_fits(initial.slab_kb, last.slab_kb)
    &&& change_fits(initial.high_order_free, last.high_order_free)
}

/// A difference as a machine integer.
pub open spec fn small(d: Option<int>) -> Option<i64> {
    match d {
        Some(n) => Some(n as i64),
        None => None,
    }
}

impl AgingResult {
    /// Whether the counters of the result are those of the state.
    pub open spec fn counts(self, state: AgingState) -> bool {
        &&& self.total_iters == state.total_iters
        &&& self.total_allocs == state.total_allocs
        &&& self.total_frees == state.total_frees
        &&& self.total_errors == state.total_errors
        &&& self.enomem_count == state.total_enomem
        &&& self.emfile_count == state.total_emfile
        &&& self.total_merges == state.total_merges
        &&& self.total_merge_errors == state.total_merge_errors
        &&& self.buf_count_start == 0
        &&& self.buf_count_end == state.held_bufs
        &&& self.drain_bufs == state.drain_bufs
        &&& self.drain_bytes == state.drain_bytes
        &&& self.heap_results@.len() == state.heap_counters@.len()
        &&& forall|i: int|
            0 <= i < self.heap_results@.len() ==> (#[trigger] self.heap_results@[i]).of(
                state.heap_counters@[i],
            )
    }

    /// Whether the times of the result are those of the state.
    pub open spec fn times(self, state: AgingState) -> bool {
        &&& match self.throughput_iters_per_sec {
            Some(t) => self.elapsed_secs > 0 && t.wf() && t@ == quotient(
                of_int(state.total_iters as nat),
                of_int(self.elapsed_secs as nat),
            ),
            None => self.elapsed_secs == 0,
        }
        &&& match self.latency {
            Some(l) => state.cum_count > 0 && state.sums_up_to(l),
            None => state.cum_count == 0,
        }
        &&& self.baseline_avg_us == if state.baseline_ready && state.baseline_count > 0 {
            Some(state.baseline_sum / state.baseline_count)
        } else {
            None
        }
        &&& self.final_interval_avg_us == if state.baseline_ready {
            Some(state.final_interval_avg)
        } else {
            None
        }
        &&& self.peak_p99_us == state.peak_p99
        &&& self.trend@ == state.trend_parts()
        &&& self.trend.wf()
    }

    /// Whether the memory figures of the result are the differences between the two
    /// moments.
    pub open spec fn memory(self, initial: SystemSnapshot, last: SystemSnapshot) -> bool {
        &&& self.mem_available_delta_mb == match change(
            initial.mem_available_kb,
            last.mem_available_kb,
        ) {
            Some(d) => Some(toward_zero(d, 1024) as i64),
            None => None,
        }
        &&& self.cma_free_delta_kb == small(change(initial.cma_free_kb, last.cma_free_kb))
        &&& self.slab_delta_kb == small(change(initial.slab_kb, last.slab_kb))
        &&& self.high_order_free_delta == small(
            change(initial.high_order_free, last.high_order_free),
        )
        &&& self.compaction_stall_delta == match (initial.compact_stall, last.compact_stall) {
            (Some(a), Some(b)) => Some(
                if b < a {
                    0
                } else {
                    (b - a) as u64
                },
            ),
            _ => None,
        }
    }
}

/// Sums a run up.
pub fn build_result(
    state: &AgingState,
    mode: &str,
    threads: u32,
    initial: &SystemSnapshot,
    last: &SystemSnapshot,
    elapsed_secs: u64,
) -> (r: AgingResult)
    requires
        changes_fit(*initial, *last),
        state.cum_count <= usize::MAX,
        state.held_bufs <= usize::MAX,
    ensures
        r.mode@ == mode@,
        r.threads == threads,
        r.elapsed_secs == elapsed_secs,
        r.counts(*state),
        r.times(*state),
        r.memory(*initial, *last),
        r.warnings@.len() == 0,
        match (initial.mem_available_kb, last.mem_available_kb) {
            (Some(a), Some(b)) => a <= i64::MAX && b <= i64::MAX ==> (
            r.mem_available_delta_mb matches Some(d) && {
                &&& b + 1024 <= a ==> d < 0
                &&& a + 1024 <= b ==> d > 0
                &&& b <= a ==> d == -((a - b) / 1024)
                &&& a <= b ==> d == (b - a) / 1024
            }),
            _ => r.mem_available_delta_mb is None,
        },
{
    let mut heap_results: Vec<HeapResult> = Vec::new();
    let mut i: usize = 0;
    while i < state.heap_counters.len()
        invariant
            i <= state.heap_counters@.len(),
            heap_results@.len() == i,
            forall|j: int|
                0 <= j < i ==> (#[trigger] heap_results@[j]).of(state.heap_counters@[j]),
        decreases state.heap_counters@.len() - i,
    {
        heap_results.push(heap_result(&state.heap_counters[i]));
        i = i + 1;
    }
    let chars = chars_of(mode);
    AgingResult {
        mode: string_of(chars.as_slice()),
        elapsed_secs,
        total_iters: state.total_iters,
        threads,
        total_allocs: state.total_allocs,
        total_frees: state.total_frees,
        total_errors: state.total_errors,
        enomem_count: state.total_enomem,
        emfile_count: state.total_emfile,
        total_merges: state.total_merges,
        total_merge_errors: state.total_merge_errors,
        throughput_iters_per_sec: if elapsed_secs > 0 {
            Some(Double::from_int(state.total_iters).divided_by(Double::from_int(elapsed_secs)))
        } else {
            None
        },
        latency: state.cumulative_stats(),
        baseline_avg_us: if state.baseline_ready && state.baseline_count > 0 {
            Some(state.baseline_sum / state.baseline_count)
        } else {
            None
        },
        final_interval_avg_us: if state.baseline_ready {
            Some(state.final_interval_avg)
        } else {
            None
        },
        peak_p99_us: state.peak_p99,
        trend: state.trend(),
        mem_available_delta_mb: compute_delta_mb(initial.mem_available_kb, last.mem_available_kb),
        cma_free_delta_kb: compute_delta_kb(initial.cma_free_kb, last.cma_free_kb),
        slab_delta_kb: compute_delta_kb(initial.slab_kb, last.slab_kb),
        buf_count_start: 0,
        buf_count_end: state.held_bufs as usize,
        compaction_stall_delta: match (initial.compact_stall, last.compact_stall) {
            (Some(a), Some(b)) => Some(
                if b < a {
                    0
                } else {
                    b - a
                },
            ),
            _ => None,
        },
        high_order_free_delta: compute_delta_kb(initial.high_order_free, last.high_order_free),
        heap_results,
        drain_bufs: state.drain_bufs,
        drain_bytes: state.drain_bytes,
        warnings: Vec::new(),
    }
}

/// What is told of memory is the change from the start of a run to its end: with less
/// available at the end it is negative, with more it is positive, and in MB it is the change
/// in kB without a fraction. The other changes add up with the start to the end.
pub proof fn law_memory_change_is_told(
    r: AgingResult,
    initial: SystemSnapshot,
    last: SystemSnapshot,
)
    requires
        r.memory(initial, last),
        changes_fit(initial, last),
    ensures
        match (initial.mem_available_kb, last.mem_available_kb) {
            (Some(a), Some(b)) => a <= i64::MAX && b <= i64::MAX ==> (
            r.mem_available_delta_mb matches Some(d) && {
                &&& b + 1024 <= a ==> d < 0
                &&& a + 1024 <= b ==> d > 0
                &&& b <= a ==> 1024 * -d <= a - b < 1024 * (-d + 1)
                &&& a <= b ==> 1024 * d <= b - a < 1024 * (d + 1)
            }),
            _ => r.mem_available_delta_mb is None,
        },
        match (initial.cma_free_kb, last.cma_free_kb) {
            (Some(a), Some(b)) => a <= i64::MAX && b <= i64::MAX ==> (
            r.cma_free_delta_kb matches Some(d) && a + d == b),
            _ => r.cma_free_delta_kb is None,
        },
        match (initial.slab_kb, last.slab_kb) {
            (Some(a), Some(b)) => a <= i64::MAX && b <= i64::MAX ==> (
            r.slab_delta_kb matches Some(d) && a + d == b),
            _ => r.slab_delta_kb is None,
        },
        match (initial.high_order_free, last.high_order_free) {
            (Some(a), Some(b)) => a <= i64::MAX && b <= i64::MAX ==> (
            r.high_order_free_delta matches Some(d) && a + d == b),
            _ => r.high_order_free_delta is None,
        },
        match (initial.compact_stall, last.compact_stall) {
            (Some(a), Some(b)) => r.compaction_stall_delta matches Some(d) && (a <= b ==> a + d
                == b) && (b <= a ==> d == 0),
            _ => r.compaction_stall_delta is None,
        },
{
}

/// A run from one moment to another tells the opposite change of one the other way round.
pub proof fn law_changes_turn_round(
    r: AgingResult,
    s: AgingResult,
    initial: SystemSnapshot,
    last: SystemSnapshot,
)
    requires
        r.memory(initial, last),
        s.memory(last, initial),
        changes_fit(initial, last),
        changes_fit(last, initial),
    ensures
        r.mem_available_delta_mb matches Some(d) ==> s.mem_available_delta_mb is Some && d
            == -(s.mem_available_delta_mb->0),
        r.cma_free_delta_kb matches Some(d) ==> s.cma_free_delta_kb is Some && d == -(
        s.cma_free_delta_kb->0),
        r.slab_delta_kb matches Some(d) ==> s.slab_delta_kb is Some && d == -(s.slab_delta_kb->0),
        r.high_order_free_delta matches Some(d) ==> s.high_order_free_delta is Some && d == -(
        s.high_order_free_delta->0),
{
}

/// What is told of a run is what was counted in it.
pub proof fn law_counters_are_told(r: AgingResult, state: AgingState, i: int)
    requires
        r.counts(state),
        0 <= i < state.heap_counters@.len(),
    ensures
        r.total_iters == state.total_iters,
        r.total_allocs == state.total_allocs,
        r.total_frees == state.total_frees,
        r.total_errors == state.total_errors,
        r.enomem_count == state.total_enomem,
        r.emfile_count == state.total_emfile,
        r.total_merges == state.total_merges,
        r.total_merge_errors == state.total_merge_errors,
        r.drain_bufs == state.drain_bufs,
        r.drain_bytes == state.drain_bytes,
        r.heap_results@.len() == state.heap_counters@.len(),
        r.heap_results@[i].name@ == state.heap_counters@[i].name@,
        r.heap_results@[i].allocs == state.heap_counters@[i].allocs,
        r.heap_results@[i].frees == state.heap_counters@[i].frees,
        r.heap_results@[i].errors == state.heap_counters@[i].errors,
        r.heap_results@[i].enomem == state.heap_counters@[i].enomem,
        r.heap_results@[i].emfile == state.heap_counters@[i].emfile,
        r.heap_results@[i].alloc_lat.count == state.heap_counters@[i].alloc_lat.count,
        r.heap_results@[i].mmap_lat.count == state.heap_counters@[i].mmap_lat.count,
        r.heap_results@[i].sync_lat.count == state.heap_counters@[i].sync_lat.count,
        r.heap_results@[i].free_lat.count == state.heap_counters@[i].free_lat.count,
{
    assert(r.heap_results@[i].of(state.heap_counters@[i]));
}

/// The rate of a run is its iterations over its seconds, and the average of the baseline is
/// its time over its samples, without a fraction.
pub proof fn law_rates_are_told(r: AgingResult, state: AgingState)
    requires
        r.times(state),
    ensures
        r.elapsed_secs > 0 ==> r.throughput_iters_per_sec is Some && near(
            value(r.throughput_iters_per_sec->0@),
            (state.total_iters as real) / (r.elapsed_secs as real),
            5,
        ),
        r.elapsed_secs == 0 ==> r.throughput_iters_per_sec is None,
        state.baseline_ready && state.baseline_count > 0 ==> r.baseline_avg_us is Some && (
        r.baseline_avg_us->0 * state.baseline_count <= state.baseline_sum),
        state.baseline_ready && state.baseline_count > 0 ==> state.baseline_sum < (
        r.baseline_avg_us->0 + 1) * state.baseline_count,
        state.baseline_ready ==> r.final_interval_avg_us == Some(state.final_interval_avg),
        r.peak_p99_us == state.peak_p99,
        r.latency matches Some(l) ==> l.count == state.cum_count && l.max_us == state.cum_max
            && l.avg_us * state.cum_count <= state.cum_sum,
{
    if r.elapsed_secs > 0 {
        law_ratio(state.total_iters as nat, r.elapsed_secs as nat);
    }
    if state.baseline_ready && state.baseline_count > 0 {
        let s = state.baseline_sum as int;
        let n = state.baseline_count as int;
        assert((s / n) * n <= s < (s / n + 1) * n) by (nonlinear_arith)
            requires
                n > 0,
        ;
    }
    if r.latency is Some {
        let s = state.cum_sum as int;
        let n = state.cum_count as int;
        assert((s / n) * n <= s) by (nonlinear_arith)
            requires
                n > 0,
        ;
    }
}

} // verus!
