//! How many buffers empty a heap's page pool.
use crate::double::{less, of_int, product, quotient, sum, Double, Parts};
use crate::exact::{
    law_less, law_near_near, law_near_product, law_near_quotient, law_near_sum, law_of_int,
    law_product, law_quotient, law_sum, lemma_divided, lemma_mantissa, lemma_near_more,
    lemma_near_same, lemma_thousandth, near, value,
};
use crate::histogram::{average, total};
use vstd::prelude::*;
use vstd::slice::slice_subrange;

verus! {

/// The most allocations that a probe makes.
pub const MAX_PROBE_ALLOCS: usize = 2048;

/// The least number of buffers to empty a pool with.
pub const MIN_DRAIN_COUNT: u32 = 32;

/// How many are used where nothing is known.
pub const FALLBACK_DRAIN_COUNT: u32 = 256;

/// How many bytes are used at most where nothing is known.
pub const FALLBACK_POOL_CAP: u64 = 0x400_0000;

/// What an estimate rests on.
#[derive(Debug, Clone, Copy, PartialEq, Eq, Structural)]
pub enum PoolEstimateSource {
    Sysfs,
    Probed,
    Fallback,
}

/// The estimated depth of a pool.
#[derive(Debug, Clone, Copy, PartialEq, Eq, Structural)]
pub struct PoolEstimate {
    pub depth_buffers: u32,
    pub pool_bytes: u64,
    pub source: PoolEstimateSource,
    pub knee_index: Option<u32>,
    pub fast_avg_us: Option<u64>,
    pub slow_avg_us: Option<u64>,
}

/// At least the least number of buffers.
pub open spec fn enough(n: nat) -> nat {
    if n < MIN_DRAIN_COUNT {
        MIN_DRAIN_COUNT as nat
    } else {
        n
    }
}

/// A fifth more.
pub open spec fn with_margin(n: nat) -> nat {
    n * 6 / 5
}

/// How many buffers are used where nothing is known.
pub open spec fn fallback_count(size: nat) -> nat {
    let by_size = FALLBACK_POOL_CAP as nat / size;
    enough(
        if by_size < FALLBACK_DRAIN_COUNT {
            by_size
        } else {
            FALLBACK_DRAIN_COUNT as nat
        },
    )
}

/// An estimate that was not probed.
pub open spec fn plain_estimate(depth: u32, bytes: u64, source: PoolEstimateSource) -> PoolEstimate {
    PoolEstimate {
        depth_buffers: depth,
        pool_bytes: bytes,
        source,
        knee_index: None,
        fast_avg_us: None,
        slow_avg_us: None,
    }
}

/// The depth of a pool for buffers of a size: the number asked for, else what the kernel
/// reports of its pools, else what was probed, else a cautious number.
pub open spec fn estimate(
    size: u64,
    asked: Option<u32>,
    pool_kb: Option<u64>,
    probed: Option<PoolEstimate>,
) -> PoolEstimate {
    match (asked, pool_kb, probed) {
        (Some(n), _, _) => plain_estimate(
            enough(n as nat) as u32,
            (enough(n as nat) * size) as u64,
            PoolEstimateSource::Fallback,
        ),
        (None, Some(kb), _) => plain_estimate(
            enough(with_margin((kb * 1024) as nat / size as nat)) as u32,
            (kb * 1024) as u64,
            PoolEstimateSource::Sysfs,
        ),
        (None, None, Some(e)) => e,
        (None, None, None) => plain_estimate(
            fallback_count(size as nat) as u32,
            (fallback_count(size as nat) * size) as u64,
            PoolEstimateSource::Fallback,
        ),
    }
}

/// Whether the numbers of an estimate fit machine integers.
pub open spec fn estimate_fits(size: u64, asked: Option<u32>, pool_kb: Option<u64>) -> bool {
    &&& size > 0
    &&& asked matches Some(n) ==> enough(n as nat) * size <= u64::MAX
    &&& asked is None ==> (pool_kb matches Some(kb) ==> kb * 1024 <= u64::MAX && ((kb * 1024)
        as nat / size as nat) * 6 <= u64::MAX)
    &&& asked is None && pool_kb is None ==> fallback_count(size as nat) * size <= u64::MAX
}

fn plain(depth: u32, bytes: u64, source: PoolEstimateSource) -> (r: PoolEstimate)
    ensures
        r == plain_estimate(depth, bytes, source),
{
    PoolEstimate {
        depth_buffers: depth,
        pool_bytes: bytes,
        source,
        knee_index: None,
        fast_avg_us: None,
        slow_avg_us: None,
    }
}

/// Estimates the depth of a pool for buffers of a size.
pub fn estimate_pool_depth(
    size: u64,
    override_count: Option<u32>,
    pool_kb: Option<u64>,
    probed: Option<PoolEstimate>,
) -> (r: PoolEstimate)
    requires
        estimate_fits(size, override_count, pool_kb),
    ensures
        r == estimate(size, override_count, pool_kb, probed),
{
    if let Some(n) = override_count {
        let count: u32 = if n < MIN_DRAIN_COUNT {
            MIN_DRAIN_COUNT
        } else {
            n
        };
        return plain(count, count as u64 * size, PoolEstimateSource::Fallback);
    }
    if let Some(kb) = pool_kb {
        let bytes: u64 = kb * 1024;
        let raw: u64 = bytes / size;
        proof {
            let b = bytes as int;
            let s = size as int;
            assert(b / s <= b) by (nonlinear_arith)
                requires
                    s >= 1,
                    b >= 0,
            ;
        }
        let more: u64 = raw * 6 / 5;
        let count: u64 = if more < MIN_DRAIN_COUNT as u64 {
            MIN_DRAIN_COUNT as u64
        } else {
            more
        };
        return plain(count as u32, bytes, PoolEstimateSource::Sysfs);
    }
    if let Some(e) = probed {
        return e;
    }
    let by_size: u64 = FALLBACK_POOL_CAP / size;
    let least: u64 = if by_size < FALLBACK_DRAIN_COUNT as u64 {
        by_size
    } else {
        FALLBACK_DRAIN_COUNT as u64
    };
    let count: u64 = if least < MIN_DRAIN_COUNT as u64 {
        MIN_DRAIN_COUNT as u64
    } else {
        least
    };
    plain(count as u32, count * size, PoolEstimateSource::Fallback)
}

/// A pool is never emptied with fewer than 32 buffers, unless a probe says so, or the
/// number for what the kernel reports does not fit in 32 bits.
pub proof fn law_estimate_is_enough(
    size: u64,
    asked: Option<u32>,
    pool_kb: Option<u64>,
    probed: Option<PoolEstimate>,
)
    requires
        estimate_fits(size, asked, pool_kb),
        probed matches Some(e) ==> e.depth_buffers >= MIN_DRAIN_COUNT,
        pool_kb matches Some(kb) ==> enough(with_margin((kb * 1024) as nat / size as nat))
            <= u32::MAX,
    ensures
        estimate(size, asked, pool_kb, probed).depth_buffers >= MIN_DRAIN_COUNT,
{
}

/// The sum of the first `n` times from `at` on, as doubles add them up.
pub open spec fn times_sum(s: Seq<u64>, at: int, n: nat) -> Parts
    decreases n,
{
    if n == 0 {
        (0, 0)
    } else {
        sum(times_sum(s, at, (n - 1) as nat), of_int(s[at + n - 1] as nat))
    }
}

/// The average of ten times from `at` on.
pub open spec fn ten_average(s: Seq<u64>, at: int) -> Parts {
    quotient(times_sum(s, at, 10), of_int(10))
}

/// Whether a probe can stop: after more than twenty allocations, when the last ten took
/// more than three times as long as the first ten.
pub open spec fn slowed(s: Seq<u64>) -> bool {
    &&& s.len() > 20
    &&& ten_average(s, 0).0 > 0
    &&& less(product(ten_average(s, 0), of_int(3)), ten_average(s, s.len() - 10))
}

fn average_of_ten(s: &[u64], at: usize) -> (r: Double)
    requires
        at + 10 <= s@.len(),
    ensures
        r@ == ten_average(s@, at as int),
        r.wf(),
        -400 <= r.exp <= 200,
{
    let n: usize = s.len();
    let mut acc = Double { mant: 0, exp: 0 };
    let mut i: usize = 0;
    while i < 10
        invariant
            i <= 10,
            n == s@.len(),
            at + 10 <= n,
            acc.wf(),
            acc@ == times_sum(s@, at as int, i as nat),
            -52 <= acc.exp <= 11 + 2 * i,
        decreases 10 - i,
    {
        acc = acc.plus(Double::from_int(s[at + i]));
        i = i + 1;
    }
    acc.divided_by(Double::from_int(10))
}

/// Whether a probe can stop, after the given times of its allocations.
pub fn probe_done(latencies: &[u64]) -> (r: bool)
    ensures
        r == slowed(latencies@),
{
    let n: usize = latencies.len();
    if n <= 20 {
        return false;
    }
    let early = average_of_ten(latencies, 0);
    if early.mant == 0 {
        return false;
    }
    let recent = average_of_ten(latencies, n - 10);
    early.times(Double::from_int(3)).is_less(recent)
}

/// The estimate from the times of a probe and the index at which they rise.
pub open spec fn probed_estimate(s: Seq<u64>, knee: int, size: u64) -> PoolEstimate {
    let depth = enough(with_margin(knee as nat));
    PoolEstimate {
        depth_buffers: depth as u32,
        pool_bytes: (depth * size) as u64,
        source: PoolEstimateSource::Probed,
        knee_index: Some(knee as u32),
        fast_avg_us: Some(
            if knee > 0 {
                (total(s.take(knee)) / knee as nat) as u64
            } else {
                0
            },
        ),
        slow_avg_us: Some(
            if knee < s.len() {
                (total(s.skip(knee)) / (s.len() - knee) as nat) as u64
            } else {
                0
            },
        ),
    }
}

/// Makes an estimate from the times of a probe and the index at which they rise.
pub fn estimate_from_knee(latencies: &[u64], knee: usize, size: u64) -> (r: PoolEstimate)
    requires
        knee <= latencies@.len(),
        knee * 6 <= u32::MAX,
        enough(with_margin(knee as nat)) * size <= u64::MAX,
    ensures
        r == probed_estimate(latencies@, knee as int, size),
{
    let n: usize = latencies.len();
    let fast: u64 = if knee > 0 {
        let s = slice_subrange(latencies, 0, knee);
        assert(s@ =~= latencies@.take(knee as int));
        average(s)
    } else {
        0
    };
    let slow: u64 = if knee < n {
        let s = slice_subrange(latencies, knee, n);
        assert(s@ =~= latencies@.skip(knee as int));
        average(s)
    } else {
        0
    };
    let more: u32 = knee as u32 * 6 / 5;
    let depth: u32 = if more < MIN_DRAIN_COUNT {
        MIN_DRAIN_COUNT
    } else {
        more
    };
    PoolEstimate {
        depth_buffers: depth,
        pool_bytes: depth as u64 * size,
        source: PoolEstimateSource::Probed,
        knee_index: Some(knee as u32),
        fast_avg_us: Some(fast),
        slow_avg_us: Some(slow),
    }
}

/// The sum of ten times from a point on.
pub open spec fn ten_total(s: Seq<u64>, at: int) -> nat {
    (s[at] + s[at + 1] + s[at + 2] + s[at + 3] + s[at + 4] + s[at + 5] + s[at + 6] + s[at + 7]
        + s[at + 8] + s[at + 9]) as nat
}

/// The sum of times from a point on.
spec fn plain_sum(s: Seq<u64>, at: int, n: nat) -> nat
    decreases n,
{
    if n == 0 {
        0
    } else {
        plain_sum(s, at, (n - 1) as nat) + s[at + n - 1] as nat
    }
}

proof fn lemma_times_sum(s: Seq<u64>, at: int, n: nat)
    requires
        n <= 10,
    ensures
        near(value(times_sum(s, at, n)), plain_sum(s, at, n) as real, 2 * n + 1),
    decreases n,
{
    if n == 0 {
        law_of_int(0);
        assert(of_int(0) == (0nat, 0int));
    } else {
        let p = times_sum(s, at, (n - 1) as nat);
        let x = s[at + n - 1] as nat;
        let before = plain_sum(s, at, (n - 1) as nat) as real;
        let k = (2 * n - 1) as nat;
        lemma_times_sum(s, at, (n - 1) as nat);
        law_of_int(x);
        lemma_near_more(value(of_int(x)), x as real, 1, k);
        law_near_sum(value(p), before, value(of_int(x)), x as real, k);
        law_sum(p, of_int(x));
        law_near_near(
            value(times_sum(s, at, n)),
            value(p) + value(of_int(x)),
            1,
            before + x as real,
            k,
        );
    }
}

proof fn lemma_ten_average(s: Seq<u64>, at: int)
    ensures
        near(value(ten_average(s, at)), (ten_total(s, at) as real) / 10real, 24),
{
    let p = times_sum(s, at, 10);
    lemma_times_sum(s, at, 10);
    reveal_with_fuel(plain_sum, 11);
    assert(plain_sum(s, at, 10) == ten_total(s, at));
    law_of_int(10);
    lemma_mantissa(of_int(10));
    law_quotient(p, of_int(10));
    let y = ten_total(s, at) as real;
    law_of_int(0);
    lemma_near_same(10real);
    law_near_quotient(value(p), y, 21, 10real, 10real, 0);
    lemma_divided(y, 10real);
    law_near_near(value(ten_average(s, at)), value(p) / 10real, 1, y / 10real, 22);
}

/// A probe stops after more than twenty allocations once the last ten took four times as long
/// as the first ten or longer, and goes on while they took no more than twice as long.
pub proof fn law_probe_stops(s: Seq<u64>)
    requires
        s.len() > 20,
        ten_total(s, 0) > 0,
    ensures
        ten_total(s, s.len() - 10) >= 4 * ten_total(s, 0) ==> slowed(s),
        ten_total(s, s.len() - 10) <= 2 * ten_total(s, 0) ==> !slowed(s),
{
    let a = ten_average(s, 0);
    let b = ten_average(s, s.len() - 10);
    let x = (ten_total(s, 0) as real) / 10real;
    let y = (ten_total(s, s.len() - 10) as real) / 10real;
    lemma_ten_average(s, 0);
    lemma_ten_average(s, s.len() - 10);
    law_of_int(3);
    law_product(a, of_int(3));
    lemma_near_same(3real);
    law_near_product(value(a), x, 24, 3real, 3real, 0);
    law_near_near(value(product(a, of_int(3))), value(a) * 3real, 1, x * 3real, 25);
    law_less(product(a, of_int(3)), b);
    lemma_thousandth(value(product(a, of_int(3))), x * 3real, 27);
    lemma_thousandth(value(b), y, 24);
    lemma_thousandth(value(a), x, 24);
    lemma_mantissa(a);
}

/// A margin is a fifth, without a fraction.
pub proof fn law_margin(n: nat)
    ensures
        n <= with_margin(n),
        5 * with_margin(n) <= 6 * n < 5 * with_margin(n) + 5,
{
}

/// The depth that is told covers what is reported of the pool, with a fifth more, unless that
/// is more than fits; a number that is asked for is kept where it is not too small.
pub proof fn law_estimate_covers_the_pool(
    size: u64,
    asked: Option<u32>,
    pool_kb: Option<u64>,
    probed: Option<PoolEstimate>,
)
    requires
        estimate_fits(size, asked, pool_kb),
    ensures
        asked matches Some(n) ==> n <= estimate(size, asked, pool_kb, probed).depth_buffers,
        asked matches Some(n) ==> (n >= 32 ==> estimate(
            size,
            asked,
            pool_kb,
            probed,
        ).depth_buffers == n),
        asked is None ==> (pool_kb matches Some(kb) ==> estimate(
            size,
            asked,
            pool_kb,
            probed,
        ).pool_bytes == kb * 1024),
        asked is None ==> (pool_kb matches Some(kb) ==> (((kb * 1024) as nat / size as nat) * 6 / 5
            <= u32::MAX ==> 5 * estimate(size, asked, pool_kb, probed).depth_buffers >= 6 * ((kb
            * 1024) as nat / size as nat) - 4)),
        asked is None && pool_kb is None ==> (probed matches Some(e) ==> estimate(
            size,
            asked,
            pool_kb,
            probed,
        ) == e),
{
}

} // verus!
