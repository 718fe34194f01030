//! What the workers of an aging run share, and what is made of it.
use crate::aging::latency::OpLatency;
use crate::aging::limit::HoldLimit;
use crate::double::{of_int, quotient, Double, Parts};
use crate::exact::{
    law_near_near, law_near_quotient, law_of_int, law_quotient, law_ratio, lemma_divided,
    lemma_mantissa, lemma_mul_mono, near, value,
};
use crate::info::types::{strings, BuddyInfoEntry, MemInfo, VmStat};
use crate::procfs::{pages_above_order, pages_from};
use crate::stats::LatencyStats;
use crate::text::{chars_of, string_of};
use vstd::prelude::*;

verus! {

/// How many intervals the trend's baseline is taken over.
pub const BASELINE_INTERVALS: u64 = 5;

/// Counters and times of one heap.
pub struct HeapCounters {
    pub name: String,
    pub allocs: u64,
    pub frees: u64,
    pub errors: u64,
    pub enomem: u64,
    pub emfile: u64,
    pub alloc_lat: OpLatency,
    pub mmap_lat: OpLatency,
    pub sync_lat: OpLatency,
    pub free_lat: OpLatency,
}

impl HeapCounters {
    /// Whether nothing has been counted.
    pub open spec fn is_empty(self) -> bool {
        &&& self.allocs == 0
        &&& self.frees == 0
        &&& self.errors == 0
        &&& self.enomem == 0
        &&& self.emfile == 0
        &&& self.alloc_lat.is_empty()
        &&& self.mmap_lat.is_empty()
        &&& self.sync_lat.is_empty()
        &&& self.free_lat.is_empty()
    }

    /// Counters at zero.
    pub fn new(name: String) -> (r: HeapCounters)
        ensures
            r.name == name,
            r.is_empty(),
    {
        HeapCounters {
            name,
            allocs: 0,
            frees: 0,
            errors: 0,
            enomem: 0,
            emfile: 0,
            alloc_lat: OpLatency::new(),
            mmap_lat: OpLatency::new(),
            sync_lat: OpLatency::new(),
            free_lat: OpLatency::new(),
        }
    }
}

/// The shared state of a run.
pub struct AgingState {
    pub running: bool,
    pub total_iters: u64,
    pub total_errors: u64,
    pub total_allocs: u64,
    pub total_frees: u64,
    pub total_enomem: u64,
    pub total_emfile: u64,
    pub total_merges: u64,
    pub total_merge_errors: u64,
    pub held_bufs: u64,
    pub held_bytes: u64,
    pub drain_bufs: u64,
    pub drain_bytes: u64,
    pub hold_limit: HoldLimit,
    pub interval_latencies: Vec<u64>,
    pub heap_counters: Vec<HeapCounters>,
    pub cum_count: u64,
    pub cum_sum: u64,
    pub cum_max: u64,
    pub peak_p99: u64,
    pub baseline_sum: u64,
    pub baseline_count: u64,
    pub baseline_intervals: u64,
    pub baseline_ready: bool,
    pub final_interval_avg: u64,
}

/// The larger of two numbers.
pub open spec fn larger(a: u64, b: u64) -> u64 {
    if a < b {
        b
    } else {
        a
    }
}

impl AgingState {
    /// The baseline is ready once its intervals are complete, and then closed.
    pub open spec fn wf(self) -> bool {
        &&& self.baseline_intervals <= BASELINE_INTERVALS
        &&& self.baseline_ready <==> self.baseline_intervals == BASELINE_INTERVALS
    }

    /// Whether the counters are all at zero.
    pub open spec fn is_fresh(self) -> bool {
        &&& self.running
        &&& self.total_iters == 0
        &&& self.total_errors == 0
        &&& self.total_allocs == 0
        &&& self.total_frees == 0
        &&& self.total_enomem == 0
        &&& self.total_emfile == 0
        &&& self.total_merges == 0
        &&& self.total_merge_errors == 0
        &&& self.held_bufs == 0
        &&& self.held_bytes == 0
        &&& self.drain_bufs == 0
        &&& self.drain_bytes == 0
        &&& self.interval_latencies@.len() == 0
        &&& self.cum_count == 0
        &&& self.cum_sum == 0
        &&& self.cum_max == 0
        &&& self.peak_p99 == 0
        &&& self.baseline_sum == 0
        &&& self.baseline_count == 0
        &&& self.baseline_intervals == 0
        &&& !self.baseline_ready
        &&& self.final_interval_avg == 0
    }

    /// The names of the heaps that are counted.
    pub open spec fn heap_names(self) -> Seq<Seq<char>> {
        Seq::new(self.heap_counters@.len(), |i: int| self.heap_counters@[i].name@)
    }

    /// A state with every counter at zero.
    pub fn new(hold_limit: HoldLimit, heap_names: &[String]) -> (r: AgingState)
        ensures
            r.wf(),
            r.is_fresh(),
            r.hold_limit == hold_limit,
            r.heap_names() == strings(heap_names@),
            forall|i: int|
                0 <= i < r.heap_counters@.len() ==> (#[trigger] r.heap_counters@[i]).is_empty(),
    {
        let mut heap_counters: Vec<HeapCounters> = Vec::new();
        let mut i: usize = 0;
        while i < heap_names.len()
            invariant
                i <= heap_names@.len(),
                heap_counters@.len() == i,
                forall|j: int|
                    0 <= j < i ==> (#[trigger] heap_counters@[j]).is_empty()
                        && heap_counters@[j].name@ == heap_names@[j]@,
            decreases heap_names@.len() - i,
        {
            let chars = chars_of(heap_names[i].as_str());
            heap_counters.push(HeapCounters::new(string_of(chars.as_slice())));
            i = i + 1;
        }
        let r = AgingState {
            running: true,
            total_iters: 0,
            total_errors: 0,
            total_allocs: 0,
            total_frees: 0,
            total_enomem: 0,
            total_emfile: 0,
            total_merges: 0,
            total_merge_errors: 0,
            held_bufs: 0,
            held_bytes: 0,
            drain_bufs: 0,
            drain_bytes: 0,
            hold_limit,
            interval_latencies: Vec::new(),
            heap_counters,
            cum_count: 0,
            cum_sum: 0,
            cum_max: 0,
            peak_p99: 0,
            baseline_sum: 0,
            baseline_count: 0,
            baseline_intervals: 0,
            baseline_ready: false,
            final_interval_avg: 0,
        };
        assert(r.heap_names() =~= strings(heap_names@));
        r
    }

    /// The state after the times of one interval: the sums wrap around, the peaks
    /// only rise, and the baseline takes the interval in until it is ready.
    pub open spec fn with_interval(self, stats: LatencyStats) -> AgingState {
        let n = stats.count as u64;
        let sum = (stats.avg_us * n) as u64;
        let s = AgingState {
            cum_count: self.cum_count.wrapping_add(n),
            cum_sum: self.cum_sum.wrapping_add(sum),
            cum_max: larger(self.cum_max, stats.max_us),
            peak_p99: larger(self.peak_p99, stats.p99_us),
            final_interval_avg: stats.avg_us,
            ..self
        };
        if self.baseline_ready {
            s
        } else {
            AgingState {
                baseline_sum: self.baseline_sum.wrapping_add(sum),
                baseline_count: self.baseline_count.wrapping_add(n),
                baseline_intervals: (self.baseline_intervals + 1) as u64,
                baseline_ready: self.baseline_intervals + 1 >= BASELINE_INTERVALS,
                ..s
            }
        }
    }

    /// Takes the times of one interval in.
    pub fn update_cumulative(&mut self, stats: &LatencyStats)
        requires
            old(self).wf(),
            stats.avg_us * stats.count <= u64::MAX,
        ensures
            final(self).wf(),
            *final(self) == old(self).with_interval(*stats),
    {
        let n: u64 = stats.count as u64;
        let sum: u64 = stats.avg_us * n;
        self.cum_count = self.cum_count.wrapping_add(n);
        self.cum_sum = self.cum_sum.wrapping_add(sum);
        if stats.max_us > self.cum_max {
            self.cum_max = stats.max_us;
        }
        if stats.p99_us > self.peak_p99 {
            self.peak_p99 = stats.p99_us;
        }
        if !self.baseline_ready {
            self.baseline_sum = self.baseline_sum.wrapping_add(sum);
            self.baseline_count = self.baseline_count.wrapping_add(n);
            self.baseline_intervals = self.baseline_intervals + 1;
            if self.baseline_intervals >= BASELINE_INTERVALS {
                self.baseline_ready = true;
            }
        }
        self.final_interval_avg = stats.avg_us;
    }

    /// Hands the times of the current interval out, and begins a new one.
    pub fn take_interval(&mut self) -> (v: Vec<u64>)
        ensures
            v == old(self).interval_latencies,
            final(self).interval_latencies@ == Seq::<u64>::empty(),
            *final(self) == (AgingState {
                interval_latencies: final(self).interval_latencies,
                ..*old(self)
            }),
    {
        let mut v: Vec<u64> = Vec::new();
        std::mem::swap(&mut v, &mut self.interval_latencies);
        v
    }

    /// The average over all intervals.
    pub open spec fn overall_average(self) -> u64 {
        self.cum_sum / self.cum_count
    }

    /// Whether these are the statistics over all intervals.
    pub open spec fn sums_up_to(self, s: LatencyStats) -> bool {
        let avg = self.overall_average();
        &&& s.count == self.cum_count
        &&& s.min_us == 0
        &&& s.max_us == self.cum_max
        &&& s.avg_us == avg
        &&& s.stddev_us == 0
        &&& s.p50_us == avg
        &&& s.p95_us == self.peak_p99
        &&& s.p99_us == self.peak_p99
        &&& s.p99_9_us == self.peak_p99
        &&& s.cv_pct@ == (0nat, 0int)
        &&& s.trimmed_avg_us == avg
        &&& s.outlier_count == 0
        &&& s.throughput_ops == if avg == 0 {
            0
        } else {
            1_000_000u64 / avg
        }
        &&& s.ci95_us == 0
        &&& s.mad_us == 0
    }

    /// The statistics over all intervals, if any has been taken in. Running sums do
    /// not track spread, nor percentiles below the peak: the average stands for the
    /// median, the peak for the rest.
    pub fn cumulative_stats(&self) -> (r: Option<LatencyStats>)
        requires
            self.cum_count <= usize::MAX,
        ensures
            r is Some <==> self.cum_count > 0,
            r matches Some(s) ==> self.sums_up_to(s),
    {
        if self.cum_count == 0 {
            return None;
        }
        let avg: u64 = self.cum_sum / self.cum_count;
        Some(
            LatencyStats {
                count: self.cum_count as usize,
                min_us: 0,
                max_us: self.cum_max,
                avg_us: avg,
                stddev_us: 0,
                p50_us: avg,
                p95_us: self.peak_p99,
                p99_us: self.peak_p99,
                p99_9_us: self.peak_p99,
                cv_pct: Double { mant: 0, exp: 0 },
                trimmed_avg_us: avg,
                outlier_count: 0,
                throughput_ops: if avg == 0 {
                    0
                } else {
                    1_000_000 / avg
                },
                ci95_us: 0,
                mad_us: 0,
            },
        )
    }

    /// The last interval's average over the baseline's, or 1 without a baseline.
    pub open spec fn trend_parts(self) -> Parts {
        if !self.baseline_ready || self.baseline_count == 0 || self.baseline_sum == 0 {
            of_int(1)
        } else {
            quotient(
                of_int(self.final_interval_avg as nat),
                quotient(of_int(self.baseline_sum as nat), of_int(self.baseline_count as nat)),
            )
        }
    }

    /// The last interval's average over the baseline's, or 1 without a baseline.
    pub fn trend(&self) -> (r: Double)
        ensures
            r@ == self.trend_parts(),
            r.wf(),
            -200 <= r.exp <= 200,
    {
        if !self.baseline_ready || self.baseline_count == 0 || self.baseline_sum == 0 {
            return Double::from_int(1);
        }
        let baseline = Double::from_int(self.baseline_sum).divided_by(
            Double::from_int(self.baseline_count),
        );
        Double::from_int(self.final_interval_avg).divided_by(baseline)
    }
}

/// The limits of each worker's pool: how many buffers, where that is limited, and
/// how many bytes. Each worker has its share of what is given; none where holding is off.
pub fn per_thread_pool_limits(limit: HoldLimit, threads: u32) -> (r: (Option<usize>, u64))
    requires
        threads > 0 || limit is Disabled,
        limit matches HoldLimit::Count(n) ==> n <= usize::MAX,
    ensures
        r == match limit {
            HoldLimit::Disabled => (Some(0usize), 0u64),
            HoldLimit::Count(n) => (Some((n / threads as u64) as usize), 0u64),
            HoldLimit::Bytes(max) => (None, max / threads as u64),
        },
{
    match limit {
        HoldLimit::Disabled => (Some(0), 0),
        HoldLimit::Count(n) => (Some((n / threads as u64) as usize), 0),
        HoldLimit::Bytes(max) => (None, max / threads as u64),
    }
}

/// Whether the workers are to stop: they have been told to, the user interrupts,
/// the time is over or the iterations are done. All but the first tell them to.
pub fn should_stop(
    state: &mut AgingState,
    interrupted: bool,
    deadline_passed: bool,
    max_iters: Option<u64>,
) -> (r: bool)
    ensures
        r == (!old(state).running || interrupted || deadline_passed || (max_iters matches Some(m)
            && old(state).total_iters >= m)),
        *final(state) == (AgingState { running: old(state).running && !r, ..*old(state) }),
{
    if !state.running {
        return true;
    }
    if interrupted {
        state.running = false;
        return true;
    }
    if deadline_passed {
        state.running = false;
        return true;
    }
    if let Some(max) = max_iters {
        if state.total_iters >= max {
            state.running = false;
            return true;
        }
    }
    false
}

/// Records that the run could not begin.
pub fn mark_init_error(state: &mut AgingState)
    ensures
        *final(state) == (AgingState {
            total_errors: old(state).total_errors.wrapping_add(1),
            running: false,
            ..*old(state)
        }),
{
    state.total_errors = state.total_errors.wrapping_add(1);
    state.running = false;
}

/// An unsigned number read as a signed one of the same bits.
pub open spec fn signed(n: u64) -> int {
    if n < 0x8000_0000_0000_0000 {
        n as int
    } else {
        n - 0x1_0000_0000_0000_0000
    }
}

/// Reads the bits of an unsigned number as a signed one.
pub fn as_signed(n: u64) -> (r: i64)
    ensures
        r == signed(n),
{
    if n < 0x8000_0000_0000_0000 {
        n as i64
    } else {
        (n as i128 - 0x1_0000_0000_0000_0000) as i64
    }
}

/// A quotient without its fraction.
pub open spec fn toward_zero(n: int, d: int) -> int {
    if n >= 0 {
        n / d
    } else {
        -((-n) / d)
    }
}

/// The difference between two reports of a number, where both are there.
pub open spec fn change(initial: Option<u64>, now: Option<u64>) -> Option<int> {
    match (initial, now) {
        (Some(a), Some(b)) => Some(signed(b) - signed(a)),
        _ => None,
    }
}

/// Whether a difference fits a machine integer.
pub open spec fn change_fits(initial: Option<u64>, now: Option<u64>) -> bool {
    change(initial, now) matches Some(d) ==> i64::MIN <= d <= i64::MAX
}

/// The difference between two reports.
pub fn compute_delta_kb(initial_kb: Option<u64>, current_kb: Option<u64>) -> (r: Option<i64>)
    requires
        change_fits(initial_kb, current_kb),
    ensures
        match r {
            Some(d) => change(initial_kb, current_kb) == Some(d as int),
            None => change(initial_kb, current_kb) is None,
        },
{
    match (initial_kb, current_kb) {
        (Some(a), Some(b)) => Some(as_signed(b) - as_signed(a)),
        _ => None,
    }
}

/// The difference between two reports in kB, in MB without its fraction.
pub fn compute_delta_mb(initial_kb: Option<u64>, current_kb: Option<u64>) -> (r: Option<i64>)
    requires
        change_fits(initial_kb, current_kb),
    ensures
        match r {
            Some(d) => change(initial_kb, current_kb) is Some && d == toward_zero(
                change(initial_kb, current_kb)->0,
                1024,
            ),
            None => change(initial_kb, current_kb) is None,
        },
{
    match compute_delta_kb(initial_kb, current_kb) {
        Some(d) => if d >= 0 {
            Some(d / 1024)
        } else {
            Some(-((-(d as i128)) / 1024) as i64)
        },
        None => None,
    }
}

/// The free pages in blocks of order 4 and above, over all zones.
pub open spec fn high_order_pages(entries: Seq<BuddyInfoEntry>) -> nat
    decreases entries.len(),
{
    if entries.len() == 0 {
        0
    } else {
        high_order_pages(entries.drop_last()) + pages_from(entries.last().free_counts@, 4)
    }
}

proof fn lemma_high_order_grow(entries: Seq<BuddyInfoEntry>, n: int)
    requires
        0 <= n <= entries.len(),
    ensures
        high_order_pages(entries.take(n)) <= high_order_pages(entries),
    decreases entries.len() - n,
{
    if n == entries.len() {
        assert(entries.take(n) =~= entries);
    } else {
        lemma_high_order_grow(entries, n + 1);
        assert(entries.take(n + 1).drop_last() =~= entries.take(n));
    }
}

/// The free pages in blocks of order 4 and above, over all zones.
pub fn high_order_free_sum(entries: &[BuddyInfoEntry]) -> (r: u64)
    requires
        high_order_pages(entries@) <= u64::MAX,
    ensures
        r == high_order_pages(entries@),
{
    let mut sum: u64 = 0;
    let mut i: usize = 0;
    while i < entries.len()
        invariant
            i <= entries@.len(),
            high_order_pages(entries@) <= u64::MAX,
            sum == high_order_pages(entries@.take(i as int)),
        decreases entries@.len() - i,
    {
        proof {
            lemma_high_order_grow(entries@, i + 1);
            assert(entries@.take(i + 1).drop_last() =~= entries@.take(i as int));
            assert(entries@.take(i + 1).last() == entries@[i as int]);
        }
        sum = sum + pages_above_order(entries[i].free_counts.as_slice(), 4);
        i = i + 1;
    }
    assert(entries@.take(entries@.len() as int) =~= entries@);
    sum
}

/// The system's memory at one moment.
#[derive(Clone, Copy, Debug)]
pub struct SystemSnapshot {
    pub mem_available_kb: Option<u64>,
    pub cma_free_kb: Option<u64>,
    pub slab_kb: Option<u64>,
    pub compact_stall: Option<u64>,
    pub high_order_free: Option<u64>,
}

/// What is kept of the system's reports, as far as they could be read.
pub fn take_snapshot(
    meminfo: Option<MemInfo>,
    vmstat: Option<VmStat>,
    buddyinfo: Option<&Vec<BuddyInfoEntry>>,
) -> (r: SystemSnapshot)
    requires
        buddyinfo matches Some(b) ==> high_order_pages(b@) <= u64::MAX,
    ensures
        r.mem_available_kb == match meminfo {
            Some(m) => Some(m.mem_available_kb),
            None => None,
        },
        r.cma_free_kb == match meminfo {
            Some(m) => m.cma_free_kb,
            None => None,
        },
        r.slab_kb == match meminfo {
            Some(m) => m.slab_kb,
            None => None,
        },
        r.compact_stall == match vmstat {
            Some(v) => v.compact_stall,
            None => None,
        },
        r.high_order_free == match buddyinfo {
            Some(b) => Some(high_order_pages(b@) as u64),
            None => None,
        },
{
    SystemSnapshot {
        mem_available_kb: match meminfo {
            Some(m) => Some(m.mem_available_kb),
            None => None,
        },
        cma_free_kb: match meminfo {
            Some(m) => m.cma_free_kb,
            None => None,
        },
        slab_kb: match meminfo {
            Some(m) => m.slab_kb,
            None => None,
        },
        compact_stall: match vmstat {
            Some(v) => v.compact_stall,
            None => None,
        },
        high_order_free: match buddyinfo {
            Some(b) => Some(high_order_free_sum(b.as_slice())),
            None => None,
        },
    }
}

/// The state after the times of several intervals.
pub open spec fn after_intervals(s: AgingState, q: Seq<LatencyStats>) -> AgingState
    decreases q.len(),
{
    if q.len() == 0 {
        s
    } else {
        after_intervals(s, q.drop_last()).with_interval(q.last())
    }
}

/// The samples of several intervals.
pub open spec fn samples(q: Seq<LatencyStats>) -> nat
    decreases q.len(),
{
    if q.len() == 0 {
        0
    } else {
        samples(q.drop_last()) + q.last().count as nat
    }
}

/// The time of several intervals: each sample at its interval's average.
pub open spec fn weighted_time(q: Seq<LatencyStats>) -> nat
    decreases q.len(),
{
    if q.len() == 0 {
        0
    } else {
        weighted_time(q.drop_last()) + (q.last().avg_us * q.last().count) as nat
    }
}

/// The first intervals, as many as the baseline takes.
pub open spec fn first_intervals(q: Seq<LatencyStats>) -> Seq<LatencyStats> {
    if q.len() <= BASELINE_INTERVALS {
        q
    } else {
        q.take(BASELINE_INTERVALS as int)
    }
}

proof fn lemma_weighted_grow(q: Seq<LatencyStats>, n: int)
    requires
        0 <= n <= q.len(),
    ensures
        weighted_time(q.take(n)) <= weighted_time(q),
        samples(q.take(n)) <= samples(q),
    decreases q.len(),
{
    if n == q.len() {
        assert(q.take(n) =~= q);
    } else {
        lemma_weighted_grow(q.drop_last(), n);
        assert(q.drop_last().take(n) =~= q.take(n));
        let a = q.last().avg_us;
        let c = q.last().count;
        assert(a * c >= 0) by (nonlinear_arith)
            requires
                a >= 0,
                c >= 0,
        ;
    }
}

/// The sums are those over all intervals, the baseline's those over the first five;
/// the baseline is ready from the fifth on, and later intervals leave it as it is.
/// The peaks are the largest figures of any interval.
pub proof fn law_intervals_accumulate(s: AgingState, q: Seq<LatencyStats>)
    requires
        s.is_fresh(),
        weighted_time(q) <= u64::MAX,
        samples(q) <= u64::MAX,
    ensures
        ({
            let r = after_intervals(s, q);
            &&& r.wf()
            &&& r.cum_count == samples(q)
            &&& r.cum_sum == weighted_time(q)
            &&& r.baseline_ready <==> q.len() >= BASELINE_INTERVALS
            &&& r.baseline_count == samples(first_intervals(q))
            &&& r.baseline_sum == weighted_time(first_intervals(q))
            &&& q.len() > 0 ==> r.final_interval_avg == q.last().avg_us
            &&& forall|i: int|
                0 <= i < q.len() ==> (#[trigger] q[i]).max_us <= r.cum_max && q[i].p99_us
                    <= r.peak_p99
            &&& q.len() <= BASELINE_INTERVALS ==> r.baseline_intervals == q.len()
        }),
    decreases q.len(),
{
    if q.len() > 0 {
        let front = q.drop_last();
        let last = q.last();
        let n = front.len() as int;
        assert(q.take(n) =~= front);
        lemma_weighted_grow(q, n);
        law_intervals_accumulate(s, front);
        let before = after_intervals(s, front);
        let r = after_intervals(s, q);
        assert(r == before.with_interval(last));
        assert forall|i: int| 0 <= i < q.len() implies (#[trigger] q[i]).max_us <= r.cum_max
            && q[i].p99_us <= r.peak_p99 by {
            if i < n {
                assert(q[i] == front[i]);
            } else {
                assert(q[i] == last);
            }
        }
        if q.len() > BASELINE_INTERVALS {
            assert(first_intervals(q) =~= front.take(BASELINE_INTERVALS as int));
            if front.len() == BASELINE_INTERVALS {
                assert(front.take(BASELINE_INTERVALS as int) =~= front);
            }
        }
    }
}

/// The trend is the average of the last interval over that of the baseline; without a
/// baseline it is one.
pub proof fn law_trend(s: AgingState)
    ensures
        s.baseline_ready && s.baseline_count > 0 && s.baseline_sum > 0 ==> near(
            value(s.trend_parts()),
            (s.final_interval_avg as real) / ((s.baseline_sum as real) / (s.baseline_count as real)),
            9,
        ),
        !s.baseline_ready ==> value(s.trend_parts()) == 1real,
{
    law_of_int(1);
    if s.baseline_ready && s.baseline_count > 0 && s.baseline_sum > 0 {
        let n = s.baseline_sum as nat;
        let d = s.baseline_count as nat;
        let a = s.final_interval_avg as nat;
        let base = quotient(of_int(n), of_int(d));
        let b = (n as real) / (d as real);
        law_ratio(n, d);
        law_of_int(a);
        lemma_divided(n as real, d as real);
        if b <= 0real {
            lemma_mul_mono(b, 0real, d as real);
        }
        law_near_quotient(value(of_int(a)), a as real, 1, value(base), b, 5);
        lemma_mantissa(base);
        law_quotient(of_int(a), base);
        lemma_divided(a as real, b);
        law_near_near(
            value(quotient(of_int(a), base)),
            value(of_int(a)) / value(base),
            1,
            (a as real) / b,
            7,
        );
    }
}

} // verus!
