//! Times per operation, kept as running sums and a histogram.
use crate::double::{ceiling, of_int, product, quotient, Double, Parts};
use crate::exact::{
    law_ceiling, law_near_near, law_near_product, law_near_quotient, law_near_small, law_of_int,
    law_product, law_quotient, lemma_divided, lemma_mantissa, lemma_mul_mono, lemma_near_more,
    lemma_real_product, near, value,
};
use vstd::prelude::*;

verus! {

/// The upper bounds of the histogram's buckets but for the last, which has none.
pub const BUCKET_BOUNDS: [u64; 7] = [1, 10, 100, 1_000, 10_000, 100_000, 1_000_000];

/// Running statistics over times in microseconds.
pub struct OpLatency {
    pub count: u64,
    pub sum_us: u64,
    pub min_us: u64,
    pub max_us: u64,
    /// The bytes that the operations went over.
    pub size_sum: u64,
    /// How many times fell into each bucket.
    pub buckets: [u64; 8],
}

/// The upper bound of a bucket; the last has none.
pub open spec fn bound(i: int) -> nat {
    if i == 0 {
        1
    } else if i == 1 {
        10
    } else if i == 2 {
        100
    } else if i == 3 {
        1_000
    } else if i == 4 {
        10_000
    } else if i == 5 {
        100_000
    } else if i == 6 {
        1_000_000
    } else {
        u64::MAX as nat
    }
}

/// The bucket of a time: the first whose bound is above it.
pub open spec fn bucket_of(us: nat) -> int {
    if us < 1 {
        0
    } else if us < 10 {
        1
    } else if us < 100 {
        2
    } else if us < 1_000 {
        3
    } else if us < 10_000 {
        4
    } else if us < 100_000 {
        5
    } else if us < 1_000_000 {
        6
    } else {
        7
    }
}

/// The times in the first `n` buckets.
pub open spec fn counted_below(buckets: Seq<u64>, n: int) -> nat
    decreases n,
{
    if n <= 0 {
        0
    } else {
        counted_below(buckets, n - 1) + buckets[n - 1] as nat
    }
}

/// How many of `total` times a percentile asks for.
pub open spec fn percentile_target(total: nat, pct: nat) -> nat {
    ceiling(quotient(product(of_int(total), of_int(pct)), of_int(100)))
}

/// The first bucket, from `i` on, up to which at least `target` times are counted.
pub open spec fn percentile_bucket(buckets: Seq<u64>, target: nat, i: int) -> int
    decreases 8 - i,
{
    if i >= 8 || counted_below(buckets, i + 1) >= target {
        i
    } else {
        percentile_bucket(buckets, target, i + 1)
    }
}

impl OpLatency {
    /// Nothing recorded.
    pub open spec fn is_empty(self) -> bool {
        &&& self.count == 0
        &&& self.sum_us == 0
        &&& self.min_us == u64::MAX
        &&& self.max_us == 0
        &&& self.size_sum == 0
        &&& self.buckets@ == Seq::new(8, |i: int| 0u64)
    }

    /// An approximate percentile: the bound of the bucket that it falls into.
    pub open spec fn percentile_of(self, pct: nat) -> nat {
        if self.count == 0 {
            0
        } else {
            bound(
                percentile_bucket(self.buckets@, percentile_target(self.count as nat, pct), 0),
            )
        }
    }

    /// The average time.
    pub open spec fn average(self) -> nat {
        if self.count == 0 {
            0
        } else {
            self.sum_us as nat / self.count as nat
        }
    }

    /// The time per 4096 bytes.
    pub open spec fn per_page(self) -> Parts {
        if self.size_sum == 0 {
            (0, 0)
        } else {
            quotient(
                product(of_int(self.sum_us as nat), of_int(4096)),
                of_int(self.size_sum as nat),
            )
        }
    }

    /// The statistics after one more time.
    pub open spec fn recorded(self, us: u64, size: u64, after: OpLatency) -> bool {
        &&& after.count == self.count.wrapping_add(1)
        &&& after.sum_us == self.sum_us.wrapping_add(us)
        &&& after.size_sum == self.size_sum.wrapping_add(size)
        &&& after.min_us == if us < self.min_us {
            us
        } else {
            self.min_us
        }
        &&& after.max_us == if us > self.max_us {
            us
        } else {
            self.max_us
        }
        &&& after.buckets@ == self.buckets@.update(
            bucket_of(us as nat),
            self.buckets@[bucket_of(us as nat)].wrapping_add(1),
        )
    }

    /// Statistics over nothing.
    pub fn new() -> (r: OpLatency)
        ensures
            r.is_empty(),
    {
        let r = OpLatency {
            count: 0,
            sum_us: 0,
            min_us: u64::MAX,
            max_us: 0,
            size_sum: 0,
            buckets: [0, 0, 0, 0, 0, 0, 0, 0],
        };
        assert(r.buckets@ =~= Seq::new(8, |i: int| 0u64));
        r
    }

    /// Records a time and the bytes that it was spent on. The sums wrap around.
    pub fn record(&mut self, lat_us: u64, size: u64)
        ensures
            old(self).recorded(lat_us, size, *final(self)),
    {
        self.count = self.count.wrapping_add(1);
        self.sum_us = self.sum_us.wrapping_add(lat_us);
        self.size_sum = self.size_sum.wrapping_add(size);
        if lat_us < self.min_us {
            self.min_us = lat_us;
        }
        if lat_us > self.max_us {
            self.max_us = lat_us;
        }
        let mut idx: usize = 0;
        while idx < 7 && BUCKET_BOUNDS[idx] <= lat_us
            invariant
                idx <= bucket_of(lat_us as nat) <= 7,
            decreases 7 - idx,
        {
            idx = idx + 1;
        }
        let n: u64 = self.buckets[idx].wrapping_add(1);
        self.buckets[idx] = n;
    }

    /// An approximate percentile, from 0 to 100: the bound of the bucket that it
    /// falls into, or 0 where nothing was recorded.
    pub fn percentile(&self, pct: u64) -> (r: u64)
        requires
            pct <= 100,
        ensures
            r == self.percentile_of(pct as nat),
    {
        if self.count == 0 {
            return 0;
        }
        let share = Double::from_int(self.count).times(Double::from_int(pct)).divided_by(
            Double::from_int(100),
        );
        let target: u128 = share.ceiling_to_int();
        let mut cum: u128 = 0;
        let mut i: usize = 0;
        while i < 8
            invariant
                i <= 8,
                self.count > 0,
                target == percentile_target(self.count as nat, pct as nat),
                cum == counted_below(self.buckets@, i as int),
                cum <= i * u64::MAX,
                percentile_bucket(self.buckets@, target as nat, 0) == percentile_bucket(
                    self.buckets@,
                    target as nat,
                    i as int,
                ),
            decreases 8 - i,
        {
            cum = cum + self.buckets[i] as u128;
            if cum >= target {
                return if i < 7 {
                    BUCKET_BOUNDS[i]
                } else {
                    u64::MAX
                };
            }
            i = i + 1;
        }
        u64::MAX
    }

    /// The average time, rounded down; 0 where nothing was recorded.
    pub fn avg_us(&self) -> (r: u64)
        ensures
            r == self.average(),
    {
        if self.count == 0 {
            0
        } else {
            self.sum_us / self.count
        }
    }

    /// The time per 4096 bytes; 0 where no bytes were recorded.
    pub fn per_4k_us(&self) -> (r: Double)
        ensures
            r@ == self.per_page(),
            r.wf(),
    {
        if self.size_sum == 0 {
            Double { mant: 0, exp: 0 }
        } else {
            Double::from_int(self.sum_us).times(Double::from_int(4096)).divided_by(
                Double::from_int(self.size_sum),
            )
        }
    }
}

/// The sum of the times of samples, each a time and a size.
pub open spec fn time_sum(samples: Seq<(u64, u64)>) -> nat
    decreases samples.len(),
{
    if samples.len() == 0 {
        0
    } else {
        time_sum(samples.drop_last()) + samples.last().0 as nat
    }
}

/// The sum of the sizes of samples.
pub open spec fn size_total(samples: Seq<(u64, u64)>) -> nat
    decreases samples.len(),
{
    if samples.len() == 0 {
        0
    } else {
        size_total(samples.drop_last()) + samples.last().1 as nat
    }
}

/// How many samples fall into a bucket.
pub open spec fn in_bucket(samples: Seq<(u64, u64)>, i: int) -> nat
    decreases samples.len(),
{
    if samples.len() == 0 {
        0
    } else {
        in_bucket(samples.drop_last(), i) + if bucket_of(samples.last().0 as nat) == i {
            1nat
        } else {
            0nat
        }
    }
}

impl OpLatency {
    /// Whether these are the statistics over the samples.
    pub open spec fn summarises(self, samples: Seq<(u64, u64)>) -> bool {
        &&& self.count == samples.len()
        &&& self.sum_us == time_sum(samples)
        &&& self.size_sum == size_total(samples)
        &&& forall|i: int| 0 <= i < samples.len() ==> self.min_us <= (#[trigger] samples[i]).0
            <= self.max_us
        &&& samples.len() == 0 ==> self.min_us == u64::MAX && self.max_us == 0
        &&& samples.len() > 0 ==> exists|i: int|
            0 <= i < samples.len() && (#[trigger] samples[i]).0 == self.min_us
        &&& samples.len() > 0 ==> exists|i: int|
            0 <= i < samples.len() && (#[trigger] samples[i]).0 == self.max_us
        &&& forall|i: int| 0 <= i < 8 ==> #[trigger] self.buckets@[i] == in_bucket(samples, i)
    }
}

/// New statistics are those over no samples.
pub proof fn law_new_is_empty(l: OpLatency)
    requires
        l.is_empty(),
    ensures
        l.summarises(Seq::empty()),
{
}

/// Recording a sample adds it to the samples that the statistics are over, as long
/// as the sums fit a machine integer.
pub proof fn law_record_adds_sample(
    l: OpLatency,
    samples: Seq<(u64, u64)>,
    us: u64,
    size: u64,
    after: OpLatency,
)
    requires
        l.summarises(samples),
        l.recorded(us, size, after),
        samples.len() < u64::MAX,
        time_sum(samples) + us <= u64::MAX,
        size_total(samples) + size <= u64::MAX,
    ensures
        after.summarises(samples.push((us, size))),
{
    let more = samples.push((us, size));
    let n = samples.len() as int;
    assert(more.drop_last() =~= samples);
    assert(more.last() == (us, size));
    assert forall|i: int| 0 <= i < more.len() implies after.min_us <= (#[trigger] more[i]).0
        <= after.max_us by {
        if i < n {
            assert(more[i] == samples[i]);
        }
    }
    if us < l.min_us || n == 0 {
        assert(more[n].0 == after.min_us);
    } else {
        let i = choose|i: int| 0 <= i < samples.len() && (#[trigger] samples[i]).0 == l.min_us;
        assert(more[i].0 == after.min_us);
    }
    if us > l.max_us || n == 0 {
        assert(more[n].0 == after.max_us);
    } else {
        let i = choose|i: int| 0 <= i < samples.len() && (#[trigger] samples[i]).0 == l.max_us;
        assert(more[i].0 == after.max_us);
    }
    assert forall|i: int| 0 <= i < 8 implies #[trigger] after.buckets@[i] == in_bucket(
        more,
        i,
    ) by {
        lemma_in_bucket_bound(samples, i);
        assert(l.buckets@[i] == in_bucket(samples, i));
    }
}

proof fn lemma_in_bucket_bound(samples: Seq<(u64, u64)>, i: int)
    ensures
        in_bucket(samples, i) <= samples.len(),
    decreases samples.len(),
{
    if samples.len() > 0 {
        lemma_in_bucket_bound(samples.drop_last(), i);
    }
}

/// Every sample is in one bucket: the buckets add up to the number of samples.
pub proof fn law_buckets_add_up(l: OpLatency, samples: Seq<(u64, u64)>)
    requires
        l.summarises(samples),
    ensures
        counted_below(l.buckets@, 8) == l.count,
{
    lemma_bucket_sum(samples);
    assert(l.buckets@[0] == in_bucket(samples, 0));
    assert(l.buckets@[1] == in_bucket(samples, 1));
    assert(l.buckets@[2] == in_bucket(samples, 2));
    assert(l.buckets@[3] == in_bucket(samples, 3));
    assert(l.buckets@[4] == in_bucket(samples, 4));
    assert(l.buckets@[5] == in_bucket(samples, 5));
    assert(l.buckets@[6] == in_bucket(samples, 6));
    assert(l.buckets@[7] == in_bucket(samples, 7));
    reveal_with_fuel(counted_below, 9);
}

proof fn lemma_bucket_sum(samples: Seq<(u64, u64)>)
    ensures
        in_bucket(samples, 0) + in_bucket(samples, 1) + in_bucket(samples, 2) + in_bucket(
            samples,
            3,
        ) + in_bucket(samples, 4) + in_bucket(samples, 5) + in_bucket(samples, 6) + in_bucket(
            samples,
            7,
        ) == samples.len(),
    decreases samples.len(),
{
    if samples.len() > 0 {
        lemma_bucket_sum(samples.drop_last());
    }
}

/// The average of recorded times lies between the least and the greatest.
pub proof fn law_average_between(l: OpLatency, samples: Seq<(u64, u64)>)
    requires
        l.summarises(samples),
        samples.len() > 0,
    ensures
        l.min_us <= l.average() <= l.max_us,
{
    lemma_time_sum_between(samples, l.min_us, l.max_us);
    let n = samples.len();
    assert(l.min_us <= l.sum_us as nat / n <= l.max_us) by (nonlinear_arith)
        requires
            n > 0,
            n * l.min_us <= l.sum_us <= n * l.max_us,
    ;
}

proof fn lemma_time_sum_between(samples: Seq<(u64, u64)>, lo: u64, hi: u64)
    requires
        forall|i: int| 0 <= i < samples.len() ==> lo <= (#[trigger] samples[i]).0 <= hi,
    ensures
        samples.len() * lo <= time_sum(samples) <= samples.len() * hi,
    decreases samples.len(),
{
    if samples.len() > 0 {
        let rest = samples.drop_last();
        assert forall|i: int| 0 <= i < rest.len() implies lo <= (#[trigger] rest[i]).0 <= hi by {
            assert(rest[i] == samples[i]);
        }
        lemma_time_sum_between(rest, lo, hi);
        assert(samples.last() == samples[samples.len() - 1]);
        assert(samples.len() * lo == rest.len() * lo + lo) by (nonlinear_arith)
            requires
                samples.len() == rest.len() + 1,
        ;
        assert(samples.len() * hi == rest.len() * hi + hi) by (nonlinear_arith)
            requires
                samples.len() == rest.len() + 1,
        ;
    }
}

/// How many samples fall into the first buckets, up to one.
spec fn up_to(samples: Seq<(u64, u64)>, k: int) -> nat
    decreases k + 1,
{
    if k < 0 {
        0
    } else {
        up_to(samples, k - 1) + in_bucket(samples, k)
    }
}

proof fn lemma_up_to_push(samples: Seq<(u64, u64)>, k: int)
    requires
        samples.len() > 0,
        k < 8,
    ensures
        up_to(samples, k) == up_to(samples.drop_last(), k) + if bucket_of(
            samples.last().0 as nat,
        ) <= k {
            1nat
        } else {
            0nat
        },
    decreases k + 1,
{
    if k >= 0 {
        lemma_up_to_push(samples, k - 1);
    }
}

proof fn lemma_up_to(samples: Seq<(u64, u64)>, k: int)
    requires
        0 <= k < 7,
    ensures
        up_to(samples, k) == samples.filter(|s: (u64, u64)| (s.0 as nat) < bound(k)).len(),
    decreases samples.len(),
{
    reveal(Seq::filter);
    if samples.len() > 0 {
        lemma_up_to(samples.drop_last(), k);
        lemma_up_to_push(samples, k);
    } else {
        lemma_up_to_none(samples, k);
    }
}

proof fn lemma_up_to_none(samples: Seq<(u64, u64)>, k: int)
    requires
        samples.len() == 0,
    ensures
        up_to(samples, k) == 0,
    decreases k + 1,
{
    if k >= 0 {
        lemma_up_to_none(samples, k - 1);
    }
}

proof fn lemma_counted_up_to(l: OpLatency, samples: Seq<(u64, u64)>, k: int)
    requires
        l.summarises(samples),
        k < 8,
    ensures
        counted_below(l.buckets@, k + 1) == up_to(samples, k),
    decreases k + 1,
{
    if k >= 0 {
        lemma_counted_up_to(l, samples, k - 1);
        assert(l.buckets@[k] == in_bucket(samples, k));
    }
}

proof fn lemma_percentile_bucket(b: Seq<u64>, target: nat, i: int)
    requires
        0 <= i <= 8,
    ensures
        i <= percentile_bucket(b, target, i) <= 8,
        percentile_bucket(b, target, i) < 8 ==> counted_below(
            b,
            percentile_bucket(b, target, i) + 1,
        ) >= target,
        forall|j: int|
            i <= j < percentile_bucket(b, target, i) ==> #[trigger] counted_below(b, j + 1) < target,
    decreases 8 - i,
{
    if i < 8 && counted_below(b, i + 1) < target {
        lemma_percentile_bucket(b, target, i + 1);
    }
}

/// A percentile is a power of ten up to a million, or the largest number where the time is
/// not below a million. At least as many samples as the percentile asks for are below it, and
/// fewer are below the next smaller power.
pub proof fn law_percentile_covers(l: OpLatency, samples: Seq<(u64, u64)>, pct: nat)
    requires
        l.summarises(samples),
        samples.len() > 0,
        percentile_target(samples.len(), pct) <= samples.len(),
    ensures
        ({
            let p = l.percentile_of(pct);
            let asked = percentile_target(samples.len(), pct);
            let below = |t: nat| samples.filter(|s: (u64, u64)| (s.0 as nat) < t).len();
            &&& p == 1 || p == 10 || p == 100 || p == 1_000 || p == 10_000 || p == 100_000 || p
                == 1_000_000 || p == u64::MAX
            &&& p < u64::MAX ==> below(p) >= asked
            &&& p == u64::MAX ==> below(1_000_000) < asked
            &&& 1 < p <= 1_000_000 ==> below((p / 10) as nat) < asked
        }),
{
    let asked = percentile_target(samples.len(), pct);
    let k = percentile_bucket(l.buckets@, asked, 0);
    lemma_percentile_bucket(l.buckets@, asked, 0);
    law_buckets_add_up(l, samples);
    if k < 7 {
        lemma_counted_up_to(l, samples, k);
        lemma_up_to(samples, k);
    }
    if k > 0 {
        assert(counted_below(l.buckets@, (k - 1) + 1) < asked);
        if k <= 7 {
            lemma_counted_up_to(l, samples, k - 1);
            lemma_up_to(samples, k - 1);
        } else {
            assert(counted_below(l.buckets@, 7int + 1) < asked);
        }
    }
}

/// A percentile asks for the share of the samples that it says, rounded up.
pub proof fn law_percentile_asks_for_its_share(total: nat, pct: nat)
    requires
        total <= 0x1000_0000,
        pct <= 100,
    ensures
        100 * percentile_target(total, pct) >= pct * total,
        100 * percentile_target(total, pct) <= pct * total + 100,
{
    let p = product(of_int(total), of_int(pct));
    let h = of_int(100);
    let q = quotient(p, h);
    let n = pct * total;
    law_of_int(total);
    law_of_int(pct);
    law_of_int(100);
    law_product(of_int(total), of_int(pct));
    lemma_real_product(total as int, pct as int);
    lemma_real_product(pct as int, total as int);
    assert(total * pct == pct * total) by (nonlinear_arith);
    let x = (pct * total) as real;
    lemma_mantissa(h);
    law_quotient(p, h);
    lemma_mul_mono(total as real, 0x1000_0000real, pct as real);
    lemma_mul_mono(pct as real, 100real, 0x1000_0000real);
    lemma_mul_mono(0real, total as real, pct as real);
    law_near_quotient(value(p), x, 1, 100real, 100real, 0);
    lemma_divided(x, 100real);
    law_near_near(value(q), value(p) / 100real, 1, x / 100real, 2);
    law_near_small(value(q), x / 100real, 4, 0x1000_0000real);
    law_ceiling(q);
}

/// The time per page is the time over the bytes, times a page's bytes.
pub proof fn law_time_per_page(l: OpLatency)
    requires
        l.size_sum > 0,
    ensures
        near(
            value(l.per_page()),
            (l.sum_us as real) * 4096real / (l.size_sum as real),
            9,
        ),
{
    let a = l.sum_us as nat;
    let b = l.size_sum as nat;
    let p = product(of_int(a), of_int(4096));
    let q = of_int(b);
    law_of_int(a);
    law_of_int(b);
    law_of_int(4096);
    law_product(of_int(a), of_int(4096));
    law_near_product(value(of_int(a)), a as real, 1, 4096real, 4096real, 0);
    lemma_mul_mono(0real, a as real, 4096real);
    law_near_near(value(p), value(of_int(a)) * 4096real, 1, (a as real) * 4096real, 2);
    lemma_mantissa(q);
    law_quotient(p, q);
    law_near_quotient(value(p), (a as real) * 4096real, 4, value(q), b as real, 1);
    lemma_divided((a as real) * 4096real, b as real);
    law_near_near(
        value(quotient(p, q)),
        value(p) / value(q),
        1,
        (a as real) * 4096real / (b as real),
        6,
    );
    lemma_near_more(
        value(l.per_page()),
        (a as real) * 4096real / (b as real),
        8,
        9,
    );
}

} // verus!
