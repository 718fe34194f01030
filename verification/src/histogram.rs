//! Histograms of measured times.
use crate::cli::{mode_name, HistMode};
use crate::double::{
    ceiling, of_int, product, quotient, scaled, sum, tenths_text, Double, Parts, MANT_END,
};
use crate::exact::{
    law_ceiling, law_near_near, law_near_quotient, law_near_within, law_of_int, law_percent, law_percent_ends,
    law_quotient, law_scaled, lemma_divided, lemma_mantissa, lemma_mul_mono, lemma_mul_strict,
    lemma_real_product, value,
};
use crate::info::types::strings;
use crate::number::{dec, dec_string, pad_left, push_dec, push_pad_left, push_repeat, repeat};
use crate::sort::{arranged, ascending, lemma_arranged, sorted_values};
use crate::text::group_concat;
use vstd::prelude::*;

verus! {

/// The bits of a number.
pub open spec fn bit_len(n: nat) -> nat
    decreases n,
{
    if n == 0 {
        0
    } else {
        1 + bit_len(n / 2)
    }
}

/// How many buckets to use for so many samples: one more than the logarithm to base
/// two, rounded up, and at least four; a single one for a single sample.
pub open spec fn bucket_rule(n: nat) -> nat {
    if n <= 1 {
        1
    } else if 1 + bit_len((n - 1) as nat) < 4 {
        4
    } else {
        1 + bit_len((n - 1) as nat)
    }
}

pub proof fn lemma_bit_len(n: nat)
    requires
        n <= u64::MAX,
    ensures
        bit_len(n) <= 64,
{
    vstd::arithmetic::power2::lemma2_to64_rest();
    lemma_bit_len_below(n, 64);
}

proof fn lemma_bit_len_below(n: nat, k: nat)
    requires
        n < vstd::arithmetic::power2::pow2(k),
    ensures
        bit_len(n) <= k,
    decreases k,
{
    vstd::arithmetic::power2::lemma2_to64();
    if n > 0 && k > 0 {
        vstd::arithmetic::power2::lemma_pow2_unfold(k);
        lemma_bit_len_below(n / 2, (k - 1) as nat);
    }
}

/// The logarithm to base two of a number, rounded up, is the bits of its predecessor.
pub proof fn law_bucket_rule(n: nat, k: nat)
    requires
        vstd::arithmetic::power2::pow2(k) < n <= 2 * vstd::arithmetic::power2::pow2(k),
        k >= 2,
    ensures
        bucket_rule(n) == k + 2,
{
    vstd::arithmetic::power2::lemma_pow2_pos(k);
    lemma_bit_len_exact((n - 1) as nat, k);
}

proof fn lemma_bit_len_exact(n: nat, k: nat)
    requires
        vstd::arithmetic::power2::pow2(k) <= n < 2 * vstd::arithmetic::power2::pow2(k),
    ensures
        bit_len(n) == k + 1,
    decreases k,
{
    vstd::arithmetic::power2::lemma2_to64();
    if k == 0 {
        assert(n == 1);
        assert(bit_len(0) == 0);
        assert(bit_len(1) == 1 + bit_len(1nat / 2));
    } else {
        vstd::arithmetic::power2::lemma_pow2_unfold(k);
        lemma_bit_len_exact(n / 2, (k - 1) as nat);
    }
}

/// How many buckets to use for so many samples.
pub fn auto_buckets(n: usize) -> (r: usize)
    ensures
        r == bucket_rule(n as nat),
{
    if n <= 1 {
        return 1;
    }
    let mut left: usize = n - 1;
    let mut bits: usize = 0;
    proof {
        lemma_bit_len((n - 1) as nat);
    }
    while left > 0
        invariant
            bit_len((n - 1) as nat) == bits + bit_len(left as nat),
            bit_len((n - 1) as nat) <= 64,
        decreases left,
    {
        left = left / 2;
        bits = bits + 1;
    }
    if 1 + bits < 4 {
        4
    } else {
        1 + bits
    }
}

/// Which of `n` ascending values is the given share of them.
pub open spec fn rank_index(n: nat, numer: nat, denom: nat) -> int {
    let rank = (numer * n + denom - 1) / (denom as int);
    if rank <= 1 {
        0
    } else if rank > n {
        n - 1
    } else {
        rank - 1
    }
}

/// The value up to which the given share of ascending values lies.
pub fn percentile_frac(sorted: &[u64], numer: u64, denom: u64) -> (r: u64)
    requires
        sorted@.len() > 0,
        denom > 0,
        numer * sorted@.len() <= u64::MAX,
    ensures
        0 <= rank_index(sorted@.len(), numer as nat, denom as nat) < sorted@.len(),
        r == sorted@[rank_index(sorted@.len(), numer as nat, denom as nat)],
{
    let n: usize = sorted.len();
    let rank: u128 = (numer as u128 * n as u128 + (denom - 1) as u128) / denom as u128;
    if rank <= 1 {
        sorted[0]
    } else if rank > n as u128 {
        sorted[n - 1]
    } else {
        sorted[rank as usize - 1]
    }
}

/// A bucket of a histogram: the values from `low` up to, not including, `high`.
#[derive(Clone, Copy, Debug, PartialEq, Eq, Structural)]
pub struct Bucket {
    pub low: u64,
    pub high: u64,
    pub count: usize,
    pub is_last: bool,
}

/// How many values lie from `lo` up to, not including, `hi`.
pub open spec fn count_in(s: Seq<u64>, lo: int, hi: int) -> nat
    decreases s.len(),
{
    if s.len() == 0 {
        0
    } else {
        count_in(s.drop_last(), lo, hi) + if lo <= s.last() < hi {
            1nat
        } else {
            0nat
        }
    }
}

/// How many buckets there are: as many as asked for, but no more than values.
pub open spec fn bucket_number(min: int, max: int, asked: nat) -> nat {
    if asked < max - min + 1 {
        asked
    } else {
        (max - min + 1) as nat
    }
}

/// How many values a bucket spans.
pub open spec fn bucket_width(min: int, max: int, asked: nat) -> int {
    (max - min + 1) / (bucket_number(min, max, asked) as int)
}

/// A bucket of values from `min` to `max`: all are of the same width but the last,
/// which reaches to the end.
pub open spec fn bucket_at(s: Seq<u64>, min: int, max: int, asked: nat, i: int) -> Bucket {
    let n = bucket_number(min, max, asked);
    let w = bucket_width(min, max, asked);
    let low = min + i * w;
    let high = if i == n - 1 {
        max + 1
    } else {
        low + w
    };
    Bucket {
        low: low as u64,
        high: high as u64,
        count: count_in(s, low, high) as usize,
        is_last: i == n - 1,
    }
}

/// The buckets of ascending values. Equal values have a single one.
pub open spec fn buckets_of(s: Seq<u64>, min: int, max: int, asked: nat) -> Seq<Bucket> {
    if min == max {
        seq![
            Bucket { low: min as u64, high: max as u64, count: s.len() as usize, is_last: true },
        ]
    } else {
        Seq::new(bucket_number(min, max, asked), |i: int| bucket_at(s, min, max, asked, i))
    }
}

proof fn lemma_count_in(s: Seq<u64>, lo: int, hi: int, start: int, end: int)
    requires
        0 <= start <= end <= s.len(),
        forall|k: int| 0 <= k < start ==> #[trigger] s[k] < lo,
        forall|k: int| start <= k < end ==> lo <= #[trigger] s[k] < hi,
        forall|k: int| end <= k < s.len() ==> #[trigger] s[k] >= hi,
        lo <= hi,
    ensures
        count_in(s, lo, hi) == end - start,
    decreases s.len(),
{
    if s.len() > 0 {
        let t = s.drop_last();
        let n = t.len() as int;
        assert(s.last() == s[n]);
        if end <= n {
            lemma_count_in(t, lo, hi, start, end);
        } else if start <= n {
            lemma_count_in(t, lo, hi, start, n);
        } else {
            lemma_count_in(t, lo, hi, n, n);
        }
    }
}

proof fn lemma_bucket_bounds(min: int, max: int, asked: nat, i: int)
    requires
        0 <= min < max,
        asked > 0,
        0 <= i < bucket_number(min, max, asked),
    ensures
        bucket_width(min, max, asked) >= 1,
        min <= min + i * bucket_width(min, max, asked) <= max,
        min + i * bucket_width(min, max, asked) + bucket_width(min, max, asked) <= max + 1,
        min + (i + 1) * bucket_width(min, max, asked) == min + i * bucket_width(min, max, asked)
            + bucket_width(min, max, asked),
{
    let r = max - min + 1;
    let n = bucket_number(min, max, asked) as int;
    let w = bucket_width(min, max, asked);
    assert(w >= 1 && w * n <= r) by (nonlinear_arith)
        requires
            w == r / n,
            0 < n <= r,
    ;
    assert(0 <= i * w && (i + 1) * w <= n * w && (i + 1) * w == i * w + w) by (nonlinear_arith)
        requires
            0 <= i < n,
            w >= 1,
    ;
    assert(w * n == n * w) by (nonlinear_arith);
}

/// The buckets of ascending values from `min` to `max`.
pub fn build_buckets(sorted: &[u64], min: u64, max: u64, bucket_count: usize) -> (r: Vec<Bucket>)
    requires
        sorted@.len() > 0,
        ascending(sorted@),
        min == sorted@[0],
        max == sorted@.last(),
        min < max ==> bucket_count > 0 && max < u64::MAX,
    ensures
        r@ == buckets_of(sorted@, min as int, max as int, bucket_count as nat),
{
    let mut buckets: Vec<Bucket> = Vec::new();
    if min == max {
        buckets.push(Bucket { low: min, high: max, count: sorted.len(), is_last: true });
        assert(buckets@ =~= buckets_of(sorted@, min as int, max as int, bucket_count as nat));
        return buckets;
    }
    let range: u64 = max - min + 1;
    let actual: u64 = if (bucket_count as u64) < range {
        bucket_count as u64
    } else {
        range
    };
    let width: u64 = range / actual;
    let ghost all = buckets_of(sorted@, min as int, max as int, bucket_count as nat);
    let mut idx: usize = 0;
    let mut i: u64 = 0;
    proof {
        assert(0 * width == 0);
    }
    while i < actual
        invariant
            0 <= min < max < u64::MAX,
            bucket_count > 0,
            range == max - min + 1,
            actual == bucket_number(min as int, max as int, bucket_count as nat),
            width == bucket_width(min as int, max as int, bucket_count as nat),
            i <= actual,
            idx <= sorted@.len(),
            ascending(sorted@),
            sorted@.len() > 0,
            max == sorted@.last(),
            i < actual ==> forall|k: int|
                0 <= k < idx ==> #[trigger] sorted@[k] < min + i * width,
            i < actual ==> forall|k: int|
                idx <= k < sorted@.len() ==> #[trigger] sorted@[k] >= min + i * width,
            all == buckets_of(sorted@, min as int, max as int, bucket_count as nat),
            buckets@ == all.take(i as int),
        decreases actual - i,
    {
        proof {
            lemma_bucket_bounds(min as int, max as int, bucket_count as nat, i as int);
        }
        assert(i * width <= max) by {
            assert(min + i * width <= max);
        }
        let low: u64 = min + i * width;
        let is_last: bool = i == actual - 1;
        let high: u64 = if is_last {
            max + 1
        } else {
            low + width
        };
        let start: usize = idx;
        while idx < sorted.len() && (is_last || sorted[idx] < high)
            invariant
                start <= idx <= sorted@.len(),
                sorted@.len() > 0,
                ascending(sorted@),
                max == sorted@.last(),
                is_last ==> high == max + 1,
                forall|k: int| start <= k < sorted@.len() ==> #[trigger] sorted@[k] >= low,
                forall|k: int| start <= k < idx ==> #[trigger] sorted@[k] < high,
            decreases sorted@.len() - idx,
        {
            assert(sorted@[idx as int] <= sorted@[sorted@.len() - 1]);
            idx = idx + 1;
        }
        assert forall|k: int| idx <= k < sorted@.len() implies #[trigger] sorted@[k] >= high by {
            assert(sorted@[idx as int] <= sorted@[k]);
        }
        proof {
            lemma_count_in(sorted@, low as int, high as int, start as int, idx as int);
        }
        buckets.push(Bucket { low, high, count: idx - start, is_last });
        proof {
            assert(all[i as int] == bucket_at(
                sorted@,
                min as int,
                max as int,
                bucket_count as nat,
                i as int,
            ));
            assert(buckets@ =~= all.take(i + 1));
            if !is_last {
                assert(min + (i + 1) * width == high);
                assert forall|k: int| 0 <= k < idx implies #[trigger] sorted@[k] < high by {
                    if k < start {
                        assert(sorted@[k] < low);
                    }
                }
            }
        }
        i = i + 1;
    }
    assert(all.take(actual as int) =~= all);
    buckets
}

/// The counts of buckets in all.
pub open spec fn counted(b: Seq<Bucket>) -> nat
    decreases b.len(),
{
    if b.len() == 0 {
        0
    } else {
        counted(b.drop_last()) + b.last().count as nat
    }
}

proof fn lemma_count_split(s: Seq<u64>, a: int, b: int, c: int)
    requires
        a <= b <= c,
    ensures
        count_in(s, a, c) == count_in(s, a, b) + count_in(s, b, c),
        count_in(s, a, c) <= s.len(),
    decreases s.len(),
{
    if s.len() > 0 {
        lemma_count_split(s.drop_last(), a, b, c);
    }
}

proof fn lemma_count_all(s: Seq<u64>, a: int, b: int)
    requires
        forall|k: int| 0 <= k < s.len() ==> a <= #[trigger] s[k] < b,
    ensures
        count_in(s, a, b) == s.len(),
    decreases s.len(),
{
    if s.len() > 0 {
        let t = s.drop_last();
        assert forall|k: int| 0 <= k < t.len() implies a <= #[trigger] t[k] < b by {
            assert(t[k] == s[k]);
        }
        lemma_count_all(t, a, b);
        assert(s.last() == s[s.len() - 1]);
    }
}

proof fn lemma_counted_prefix(s: Seq<u64>, min: int, max: int, asked: nat, i: int)
    requires
        0 <= min < max,
        asked > 0,
        s.len() <= usize::MAX,
        0 <= i < bucket_number(min, max, asked),
    ensures
        counted(buckets_of(s, min, max, asked).take(i)) == count_in(
            s,
            min,
            min + i * bucket_width(min, max, asked),
        ),
    decreases i,
{
    let b = buckets_of(s, min, max, asked);
    let w = bucket_width(min, max, asked);
    if i == 0 {
        assert(b.take(0) =~= Seq::empty());
        assert(0 * w == 0);
        lemma_count_in_empty(s, min);
    } else {
        lemma_counted_prefix(s, min, max, asked, i - 1);
        assert(b.take(i).drop_last() =~= b.take(i - 1));
        lemma_bucket_bounds(min, max, asked, i - 1);
        lemma_bucket_bounds(min, max, asked, i);
        lemma_count_split(s, min, min + (i - 1) * w, min + i * w);
        lemma_count_split(s, min + (i - 1) * w, min + i * w, min + i * w);
        assert(b.take(i).last() == bucket_at(s, min, max, asked, i - 1));
    }
}

proof fn lemma_count_in_empty(s: Seq<u64>, x: int)
    ensures
        count_in(s, x, x) == 0,
    decreases s.len(),
{
    if s.len() > 0 {
        lemma_count_in_empty(s.drop_last(), x);
    }
}

/// Every sample is in one bucket: the counts add up to the number of samples.
pub proof fn law_buckets_hold_all(s: Seq<u64>, asked: nat)
    requires
        0 < s.len() <= usize::MAX,
        ascending(s),
        asked > 0,
    ensures
        counted(buckets_of(s, s[0] as int, s.last() as int, asked)) == s.len(),
{
    let min = s[0] as int;
    let max = s.last() as int;
    let b = buckets_of(s, min, max, asked);
    assert(s[0] <= s[s.len() - 1]);
    if min == max {
        assert(b.drop_last() =~= Seq::empty());
        assert(counted(b.drop_last()) == 0);
        assert(b.last().count == s.len());
    } else {
        let n = b.len() as int;
        let w = bucket_width(min, max, asked);
        lemma_counted_prefix(s, min, max, asked, n - 1);
        lemma_bucket_bounds(min, max, asked, n - 1);
        assert(b.drop_last() =~= b.take(n - 1));
        assert(b.last() == bucket_at(s, min, max, asked, n - 1));
        lemma_count_split(s, min, min + (n - 1) * w, max + 1);
        lemma_count_split(s, min + (n - 1) * w, max + 1, max + 1);
        assert forall|k: int| 0 <= k < s.len() implies min <= #[trigger] s[k] < max + 1 by {
            assert(s[0] <= s[k]);
            assert(s[k] <= s[s.len() - 1]);
        }
        lemma_count_all(s, min, max + 1);
    }
}

/// The buckets share the range evenly: they follow each other from the least value to the
/// largest, all but the last are as wide as the first, and the last is no narrower and wider
/// by less than there are buckets. Each counts the values in it. There are as many as asked
/// for, or one for each value where there are fewer values.
pub proof fn law_buckets_share_evenly(s: Seq<u64>, asked: nat)
    requires
        0 < s.len() <= usize::MAX,
        ascending(s),
        asked > 0,
        s[0] < s.last() < u64::MAX,
    ensures
        ({
            let b = buckets_of(s, s[0] as int, s.last() as int, asked);
            let n = b.len() as int;
            let width = b[0].high - b[0].low;
            &&& n > 0
            &&& n <= asked
            &&& n == asked || n == s.last() - s[0] + 1
            &&& b[0].low == s[0]
            &&& b[n - 1].high == s.last() + 1
            &&& forall|i: int| 0 <= i < n - 1 ==> (#[trigger] b[i]).high == b[i + 1].low
            &&& forall|i: int| 0 <= i < n - 1 ==> (#[trigger] b[i]).high - b[i].low == width
            &&& width <= b[n - 1].high - b[n - 1].low < width + n
            &&& forall|i: int| 0 <= i < n ==> ((#[trigger] b[i]).is_last <==> i == n - 1)
            &&& forall|i: int|
                0 <= i < n ==> (#[trigger] b[i]).count == s.filter(
                    |x: u64| b[i].low <= x < b[i].high,
                ).len()
        }),
{
    let min = s[0] as int;
    let max = s.last() as int;
    let b = buckets_of(s, min, max, asked);
    let n = b.len() as int;
    let r = max - min + 1;
    let w = bucket_width(min, max, asked);
    assert(n == bucket_number(min, max, asked));
    lemma_bucket_bounds(min, max, asked, 0);
    lemma_bucket_bounds(min, max, asked, n - 1);
    assert(0 * w == 0);
    assert(w * n <= r < w * n + n) by (nonlinear_arith)
        requires
            w == r / n,
            0 < n <= r,
    ;
    assert((n - 1) * w == w * n - w) by (nonlinear_arith);
    assert forall|i: int| 0 <= i < n - 1 implies (#[trigger] b[i]).high == b[i + 1].low && b[i].high
        - b[i].low == w by {
        lemma_bucket_bounds(min, max, asked, i);
        lemma_bucket_bounds(min, max, asked, i + 1);
        assert(b[i] == bucket_at(s, min, max, asked, i));
        assert(b[i + 1] == bucket_at(s, min, max, asked, i + 1));
    }
    assert(b[n - 1] == bucket_at(s, min, max, asked, n - 1));
    assert(b[0] == bucket_at(s, min, max, asked, 0));
    if n == 1 {
        assert(w == r) by (nonlinear_arith)
            requires
                w * n <= r < w * n + n,
                n == 1,
        ;
    }
    assert forall|i: int| 0 <= i < n implies (#[trigger] b[i]).count == s.filter(
        |x: u64| b[i].low <= x < b[i].high,
    ).len() by {
        lemma_bucket_bounds(min, max, asked, i);
        assert(b[i] == bucket_at(s, min, max, asked, i));
        lemma_count_filter(s, b[i].low, b[i].high);
        lemma_count_split(s, b[i].low as int, b[i].high as int, b[i].high as int);
    }
}

proof fn lemma_count_filter(s: Seq<u64>, lo: u64, hi: u64)
    ensures
        count_in(s, lo as int, hi as int) == s.filter(|x: u64| lo <= x < hi).len(),
    decreases s.len(),
{
    reveal(Seq::filter);
    if s.len() > 0 {
        lemma_count_filter(s.drop_last(), lo, hi);
    }
}

/// The share of a bucket, in percent.
pub open spec fn share(count: nat, total: nat) -> Parts {
    product(quotient(of_int(count), of_int(total)), of_int(100))
}

/// The shares of the first `n` buckets, added up one after the other.
pub open spec fn share_up_to(b: Seq<Bucket>, total: nat, n: int) -> Parts
    decreases n,
{
    if n <= 0 {
        (0, 0)
    } else {
        sum(share_up_to(b, total, n - 1), share(b[n - 1].count as nat, total))
    }
}

/// The length of the bar of a bucket: one mark for two percent, and at least one where
/// there is any value.
pub open spec fn bar_len(count: nat, total: nat) -> int {
    let marks = ceiling(quotient(share(count, total), of_int(2)));
    if count == 0 {
        0
    } else if marks < 1 {
        1
    } else if marks > usize::MAX {
        usize::MAX as int
    } else {
        marks as int
    }
}

/// The widths of the columns of values and of counts.
#[derive(Clone, Copy, Debug)]
pub struct Widths {
    pub value: usize,
    pub count: usize,
}

/// The line of a bucket.
pub open spec fn bucket_line(b: Seq<Bucket>, i: int, max: nat, total: nat, w: Widths) -> Seq<char> {
    let n = b[i].count as nat;
    "  ["@ + pad_left(dec(b[i].low as nat), w.value as int) + ", "@ + pad_left(
        dec(
            if b[i].is_last {
                max
            } else {
                b[i].high as nat
            },
        ),
        w.value as int,
    ) + (if b[i].is_last {
        "] | "@
    } else {
        ") | "@
    }) + pad_left(dec(n), w.count as int) + " "@ + pad_left(
        tenths_text(scaled(share(n, total), 10)),
        5,
    ) + "% "@ + pad_left(tenths_text(scaled(share_up_to(b, total, i + 1), 10)), 5) + "% "@
        + repeat('#', bar_len(n, total)) + "\n"@
}

/// The lines of the first `n` buckets.
pub open spec fn bucket_lines(b: Seq<Bucket>, n: int, max: nat, total: nat, w: Widths) -> Seq<char>
    decreases n,
{
    if n <= 0 {
        Seq::empty()
    } else {
        bucket_lines(b, n - 1, max, total, w) + bucket_line(b, n - 1, max, total, w)
    }
}

/// The largest count of the first `n` buckets.
pub open spec fn top_count(b: Seq<Bucket>, n: int) -> usize
    decreases n,
{
    if n <= 0 {
        0
    } else if top_count(b, n - 1) < b[n - 1].count {
        b[n - 1].count
    } else {
        top_count(b, n - 1)
    }
}

/// The width of a column of numbers up to `n`, and at least `least`.
pub open spec fn column(n: nat, least: int) -> int {
    if dec(n).len() < least {
        least
    } else {
        dec(n).len() as int
    }
}

/// The widths of the columns: wide enough for every value and count.
pub open spec fn widths_of(b: Seq<Bucket>, max: nat) -> Widths {
    Widths {
        value: column(max, 3) as usize,
        count: column(top_count(b, b.len() as int) as nat, 5) as usize,
    }
}

/// The value at a percentile of ascending values, with its name.
pub open spec fn percentile_item(s: Seq<u64>, name: Seq<char>, numer: nat, denom: nat) -> Seq<char> {
    name + dec(s[rank_index(s.len(), numer, denom)] as nat)
}

/// The lines of percentiles of ascending values.
pub open spec fn percentile_lines(s: Seq<u64>) -> Seq<char> {
    "\n  percentiles (us):\n"@ + percentile_item(s, "    p1="@, 1, 100) + percentile_item(
        s,
        " p5="@,
        5,
        100,
    ) + percentile_item(s, " p10="@, 10, 100) + percentile_item(s, " p25="@, 25, 100)
        + percentile_item(s, " p50="@, 50, 100) + percentile_item(s, " p75="@, 75, 100)
        + percentile_item(s, " p90="@, 90, 100) + percentile_item(s, " p95="@, 95, 100)
        + percentile_item(s, " p99="@, 99, 100) + percentile_item(s, " p99.9="@, 999, 1000)
        + "\n"@
}

/// The sum of values.
pub open spec fn total(s: Seq<u64>) -> nat
    decreases s.len(),
{
    if s.len() == 0 {
        0
    } else {
        total(s.drop_last()) + s.last() as nat
    }
}

/// The line that sums ascending values up.
pub open spec fn summary_line(s: Seq<u64>) -> Seq<char> {
    "  summary: count="@ + dec(s.len()) + " min="@ + dec(s[0] as nat) + " avg="@ + dec(
        total(s) / s.len(),
    ) + " max="@ + dec(s.last() as nat) + "\n\n"@
}

/// The first line of a histogram, without its end.
pub open spec fn heading(heap: Seq<char>, size: nat, mode: HistMode) -> Seq<char> {
    "--- "@ + heap + " @ "@ + dec(size) + " bytes ("@ + mode_name(mode) + ") ---"@
}

/// The histogram of ascending values.
pub open spec fn histogram_body(s: Seq<u64>, asked: nat) -> Seq<char> {
    let max = s.last();
    let b = buckets_of(s, s[0] as int, max as int, asked);
    bucket_lines(b, b.len() as int, max as nat, s.len(), widths_of(b, max as nat))
        + percentile_lines(s) + summary_line(s)
}

/// A histogram of samples, with its percentiles and a summary.
pub open spec fn histogram_text(
    heap: Seq<char>,
    size: nat,
    mode: HistMode,
    samples: Seq<u64>,
    asked: nat,
) -> Seq<char> {
    if samples.len() == 0 {
        heading(heap, size, mode) + " (no samples)\n\n"@
    } else {
        heading(heap, size, mode) + "\n\n"@ + histogram_body(arranged(samples), asked)
    }
}

fn share_of(count: usize, all: usize) -> (r: Double)
    requires
        all > 0,
    ensures
        r@ == share(count as nat, all as nat),
        r.wf(),
        -200 <= r.exp <= 21,
{
    Double::from_int(count as u64).divided_by(Double::from_int(all as u64)).times(
        Double::from_int(100),
    )
}

fn marks(count: usize, all: usize) -> (r: usize)
    requires
        all > 0,
    ensures
        r == bar_len(count as nat, all as nat),
{
    if count == 0 {
        return 0;
    }
    let n: u128 = share_of(count, all).divided_by(Double::from_int(2)).ceiling_to_int();
    if n < 1 {
        1
    } else if n > usize::MAX as u128 {
        usize::MAX
    } else {
        n as usize
    }
}

fn push_number(out: &mut String, n: u64, width: usize)
    ensures
        final(out)@ == old(out)@ + pad_left(dec(n as nat), width as int),
{
    let s = dec_string(n);
    push_pad_left(out, s.as_str(), width);
}

fn push_share(out: &mut String, d: Double)
    requires
        d.wf(),
    ensures
        final(out)@ == old(out)@ + pad_left(tenths_text(scaled(d@, 10)), 5) + "% "@,
{
    broadcast use group_concat;
    let mut s = String::new();
    d.push_one_decimal(&mut s);
    push_pad_left(out, s.as_str(), 5);
    out.append("% ");
}

fn push_bucket(
    out: &mut String,
    b: &Vec<Bucket>,
    i: usize,
    max: u64,
    all: usize,
    cum: Double,
    w: Widths,
)
    requires
        i < b@.len(),
        all > 0,
        cum.wf(),
        cum@ == share_up_to(b@, all as nat, i + 1),
    ensures
        final(out)@ == old(out)@ + bucket_line(b@, i as int, max as nat, all as nat, w),
{
    broadcast use group_concat;
    let x = b[i];
    out.append("  [");
    push_number(out, x.low, w.value);
    out.append(", ");
    push_number(
        out,
        if x.is_last {
            max
        } else {
            x.high
        },
        w.value,
    );
    if x.is_last {
        out.append("] | ");
    } else {
        out.append(") | ");
    }
    push_number(out, x.count as u64, w.count);
    out.append(" ");
    push_share(out, share_of(x.count, all));
    push_share(out, cum);
    push_repeat(out, '#', marks(x.count, all));
    out.append("\n");
}

fn push_buckets(out: &mut String, b: &Vec<Bucket>, max: u64, all: usize, w: Widths)
    requires
        all > 0,
    ensures
        final(out)@ == old(out)@ + bucket_lines(
            b@,
            b@.len() as int,
            max as nat,
            all as nat,
            w,
        ),
{
    let ghost start = out@;
    let mut cum = Double { mant: 0, exp: 0 };
    let mut i: usize = 0;
    assert(start + Seq::<char>::empty() =~= start);
    while i < b.len()
        invariant
            i <= b@.len(),
            all > 0,
            cum.wf(),
            -200 <= cum.exp <= 81,
            cum.exp == 81 ==> cum.mant < MANT_END,
            cum.mant == 0 ==> cum.exp == 0,
            cum@ == share_up_to(b@, all as nat, i as int),
            out@ == start + bucket_lines(b@, i as int, max as nat, all as nat, w),
        decreases b@.len() - i,
    {
        cum = cum.plus(share_of(b[i].count, all));
        let ghost lines = bucket_lines(b@, i as int, max as nat, all as nat, w);
        let ghost line = bucket_line(b@, i as int, max as nat, all as nat, w);
        push_bucket(out, b, i, max, all, cum, w);
        assert((start + lines) + line =~= start + (lines + line));
        i = i + 1;
    }
}

fn number_len(n: u64, least: usize) -> (r: usize)
    requires
        least <= 20,
    ensures
        r == column(n as nat, least as int),
        column(n as nat, least as int) <= 20,
{
    let mut left: u64 = n / 10;
    let mut len: usize = 1;
    proof {
        lemma_dec_len(n as nat, 20);
    }
    while left > 0
        invariant
            dec(n as nat).len() == len + (if left == 0 {
                0
            } else {
                dec(left as nat).len()
            }),
            dec(n as nat).len() <= 20,
        decreases left,
    {
        left = left / 10;
        len = len + 1;
    }
    if len < least {
        least
    } else {
        len
    }
}

spec fn ten_to(k: nat) -> nat
    decreases k,
{
    if k == 0 {
        1
    } else {
        10 * ten_to((k - 1) as nat)
    }
}

proof fn lemma_dec_len_below(n: nat, k: nat)
    requires
        k > 0,
        n < ten_to(k),
    ensures
        dec(n).len() <= k,
    decreases k,
{
    if n >= 10 {
        if k == 1 {
            assert(ten_to(1) == 10 * ten_to(0));
        }
        lemma_dec_len_below(n / 10, (k - 1) as nat);
    }
}

proof fn lemma_dec_len(n: nat, k: nat)
    requires
        n <= u64::MAX,
        k == 20,
    ensures
        dec(n).len() <= 20,
{
    reveal_with_fuel(ten_to, 21);
    assert(ten_to(20) == 100_000_000_000_000_000_000);
    lemma_dec_len_below(n, 20);
}

fn widths(b: &Vec<Bucket>, max: u64) -> (w: Widths)
    ensures
        w == widths_of(b@, max as nat),
{
    let mut top: usize = 0;
    let mut i: usize = 0;
    while i < b.len()
        invariant
            i <= b@.len(),
            top == top_count(b@, i as int),
        decreases b@.len() - i,
    {
        if top < b[i].count {
            top = b[i].count;
        }
        i = i + 1;
    }
    Widths { value: number_len(max, 3), count: number_len(top as u64, 5) }
}

fn push_percentile(out: &mut String, s: &[u64], name: &str, numer: u64, denom: u64)
    requires
        s@.len() > 0,
        denom > 0,
        numer <= 999,
        s@.len() * 999 <= u64::MAX,
    ensures
        final(out)@ == old(out)@ + percentile_item(s@, name@, numer as nat, denom as nat),
{
    broadcast use group_concat;
    assert(numer * s@.len() <= u64::MAX) by (nonlinear_arith)
        requires
            numer <= 999,
            s@.len() * 999 <= u64::MAX,
    ;
    out.append(name);
    push_dec(out, percentile_frac(s, numer, denom));
}

fn push_percentiles(out: &mut String, s: &[u64])
    requires
        s@.len() > 0,
        s@.len() * 999 <= u64::MAX,
    ensures
        final(out)@ == old(out)@ + percentile_lines(s@),
{
    broadcast use group_concat;
    out.append("\n  percentiles (us):\n");
    push_percentile(out, s, "    p1=", 1, 100);
    push_percentile(out, s, " p5=", 5, 100);
    push_percentile(out, s, " p10=", 10, 100);
    push_percentile(out, s, " p25=", 25, 100);
    push_percentile(out, s, " p50=", 50, 100);
    push_percentile(out, s, " p75=", 75, 100);
    push_percentile(out, s, " p90=", 90, 100);
    push_percentile(out, s, " p95=", 95, 100);
    push_percentile(out, s, " p99=", 99, 100);
    push_percentile(out, s, " p99.9=", 999, 1000);
    out.append("\n");
}

proof fn lemma_total_bound(s: Seq<u64>)
    ensures
        total(s) <= s.len() * u64::MAX,
    decreases s.len(),
{
    if s.len() > 0 {
        lemma_total_bound(s.drop_last());
        assert(s.len() * u64::MAX == (s.len() - 1) * u64::MAX + u64::MAX) by (nonlinear_arith);
    }
}

/// The average of values, rounded down.
pub fn average(s: &[u64]) -> (r: u64)
    requires
        s@.len() > 0,
    ensures
        r == total(s@) / s@.len(),
{
    let n: usize = s.len();
    let mut acc: u128 = 0;
    let mut i: usize = 0;
    assert(s@.take(0) =~= Seq::empty());
    while i < n
        invariant
            i <= n,
            n == s@.len(),
            acc == total(s@.take(i as int)),
        decreases n - i,
    {
        proof {
            assert(s@.take(i + 1).drop_last() =~= s@.take(i as int));
            lemma_total_bound(s@.take(i + 1));
            assert((i + 1) * u64::MAX <= u64::MAX * u64::MAX) by (nonlinear_arith)
                requires
                    i < u64::MAX,
            ;
        }
        acc = acc + s[i] as u128;
        i = i + 1;
    }
    assert(s@.take(n as int) =~= s@);
    proof {
        lemma_total_bound(s@);
        let t = total(s@) as int;
        let k = n as int;
        assert(t / k <= u64::MAX) by (nonlinear_arith)
            requires
                t <= k * u64::MAX,
                k > 0,
        ;
    }
    (acc / n as u128) as u64
}

fn push_summary(out: &mut String, s: &[u64])
    requires
        s@.len() > 0,
    ensures
        final(out)@ == old(out)@ + summary_line(s@),
{
    broadcast use group_concat;
    out.append("  summary: count=");
    push_dec(out, s.len() as u64);
    out.append(" min=");
    push_dec(out, s[0]);
    out.append(" avg=");
    push_dec(out, average(s));
    out.append(" max=");
    push_dec(out, s[s.len() - 1]);
    out.append("\n\n");
}

fn push_heading(out: &mut String, heap: &str, size: u64, mode: HistMode)
    ensures
        final(out)@ == old(out)@ + heading(heap@, size as nat, mode),
{
    broadcast use group_concat;
    out.append("--- ");
    out.append(heap);
    out.append(" @ ");
    push_dec(out, size);
    out.append(" bytes (");
    out.append(mode.as_str());
    out.append(") ---");
}

/// A histogram of samples, with its percentiles and a summary.
pub fn print_histogram(
    heap_name: &str,
    size: u64,
    mode: HistMode,
    samples: &[u64],
    bucket_count: usize,
) -> (s: String)
    requires
        samples@.len() * 999 <= u64::MAX,
        0 < bucket_count,
        forall|i: int, j: int|
            0 <= i < samples@.len() && 0 <= j < samples@.len() ==> #[trigger] samples@[i]
                < u64::MAX || samples@[i] == #[trigger] samples@[j],
    ensures
        s@ == histogram_text(heap_name@, size as nat, mode, samples@, bucket_count as nat),
{
    broadcast use group_concat;
    let mut out = String::new();
    push_heading(&mut out, heap_name, size, mode);
    if samples.len() == 0 {
        out.append(" (no samples)\n\n");
        return out;
    }
    out.append("\n\n");
    let sorted = sorted_values(samples);
    proof {
        lemma_arranged(samples@);
        lemma_arranged_member(samples@, 0);
        lemma_arranged_member(samples@, sorted@.len() - 1);
        assert(sorted@[0] <= sorted@[sorted@.len() - 1]);
    }
    push_body(&mut out, sorted.as_slice(), bucket_count);
    out
}

proof fn lemma_arranged_member(s: Seq<u64>, i: int)
    requires
        0 <= i < s.len(),
    ensures
        s.contains(arranged(s)[i]),
{
    broadcast use vstd::seq_lib::group_to_multiset_ensures;
    lemma_arranged(s);
    let t = arranged(s);
    let x = t[i];
    assert(t.contains(x));
    assert(t.to_multiset().count(x) > 0);
    assert(s.to_multiset().count(x) > 0);
}

fn push_body(out: &mut String, sorted: &[u64], bucket_count: usize)
    requires
        sorted@.len() > 0,
        sorted@.len() * 999 <= u64::MAX,
        ascending(sorted@),
        sorted@[0] <= sorted@.last(),
        sorted@[0] < sorted@.last() ==> sorted@.last() < u64::MAX,
        0 < bucket_count,
    ensures
        final(out)@ == old(out)@ + histogram_body(sorted@, bucket_count as nat),
{
    broadcast use group_concat;
    let n: usize = sorted.len();
    let min: u64 = sorted[0];
    let max: u64 = sorted[n - 1];
    let b = build_buckets(sorted, min, max, bucket_count);
    let w = widths(&b, max);
    push_buckets(out, &b, max, n, w);
    push_percentiles(out, sorted);
    push_summary(out, sorted);
}

/// Names with a comma and a blank between each two.
pub open spec fn comma_list(v: Seq<Seq<char>>) -> Seq<char>
    decreases v.len(),
{
    if v.len() == 0 {
        Seq::empty()
    } else if v.len() == 1 {
        v[0]
    } else {
        comma_list(v.drop_last()) + ", "@ + v.last()
    }
}

/// Sizes as texts.
pub open spec fn size_texts(v: Seq<u64>) -> Seq<Seq<char>> {
    Seq::new(v.len(), |i: int| dec(v[i] as nat))
}

fn push_list(out: &mut String, v: &[String])
    ensures
        final(out)@ == old(out)@ + comma_list(strings(v@)),
{
    broadcast use group_concat;
    let ghost start = out@;
    let ghost all = strings(v@);
    let mut i: usize = 0;
    assert(all.take(0) =~= Seq::empty());
    while i < v.len()
        invariant
            i <= v@.len(),
            all == strings(v@),
            out@ == start + comma_list(all.take(i as int)),
        decreases v@.len() - i,
    {
        proof {
            assert(all.take(i + 1).drop_last() =~= all.take(i as int));
            assert(all.take(i + 1).last() == v@[i as int]@);
        }
        if i > 0 {
            out.append(", ");
        }
        out.append(v[i].as_str());
        i = i + 1;
    }
    assert(all.take(all.len() as int) =~= all);
}

fn push_sizes(out: &mut String, v: &[u64])
    ensures
        final(out)@ == old(out)@ + comma_list(size_texts(v@)),
{
    broadcast use group_concat;
    let ghost start = out@;
    let ghost all = size_texts(v@);
    let mut i: usize = 0;
    assert(all.take(0) =~= Seq::empty());
    while i < v.len()
        invariant
            i <= v@.len(),
            all == size_texts(v@),
            out@ == start + comma_list(all.take(i as int)),
        decreases v@.len() - i,
    {
        proof {
            assert(all.take(i + 1).drop_last() =~= all.take(i as int));
            assert(all.take(i + 1).last() == dec(v@[i as int] as nat));
        }
        if i > 0 {
            out.append(", ");
        }
        push_dec(out, v[i]);
        i = i + 1;
    }
    assert(all.take(all.len() as int) =~= all);
}

/// What is about to be done.
pub open spec fn plan_text(
    heaps: Seq<Seq<char>>,
    sizes: Seq<u64>,
    mode: HistMode,
    samples: nat,
    warmup: nat,
    buckets: nat,
    source: Seq<char>,
) -> Seq<char> {
    "histogram sequence:\n  heaps: ["@ + comma_list(heaps) + "]\n  sizes: ["@ + comma_list(
        size_texts(sizes),
    ) + "] bytes\n  mode: "@ + mode_name(mode) + "\n  samples: "@ + dec(samples) + " (warmup: "@
        + dec(warmup) + ")\n  buckets: "@ + dec(buckets) + " ("@ + source + ")\n"@
}

/// How it is done, and what the columns mean.
pub open spec fn legend_text(samples: nat, warmup: nat) -> Seq<char> {
    "\n  for each (heap, size):\n    warmup("@ + dec(warmup) + ") -> collect("@ + dec(samples)
        + ") -> sort -> bucket -> print\n\nhistogram legend:\n  range_us    latency bucket range [low, high) in microseconds\n  count       samples in this bucket\n  pct         percentage of total samples\n  cum_pct     cumulative percentage\n  bar         visual distribution (each # ~ 2%)\n\n"@
}

fn push_plan(
    out: &mut String,
    heaps: &[String],
    sizes: &[u64],
    mode: HistMode,
    samples: u32,
    warmup: u32,
    bucket_count: usize,
    bucket_source: &str,
)
    ensures
        final(out)@ == old(out)@ + plan_text(
            strings(heaps@),
            sizes@,
            mode,
            samples as nat,
            warmup as nat,
            bucket_count as nat,
            bucket_source@,
        ),
{
    broadcast use group_concat;
    out.append("histogram sequence:\n  heaps: [");
    push_list(out, heaps);
    out.append("]\n  sizes: [");
    push_sizes(out, sizes);
    out.append("] bytes\n  mode: ");
    out.append(mode.as_str());
    out.append("\n  samples: ");
    push_dec(out, samples as u64);
    out.append(" (warmup: ");
    push_dec(out, warmup as u64);
    out.append(")\n  buckets: ");
    push_dec(out, bucket_count as u64);
    out.append(" (");
    out.append(bucket_source);
    out.append(")\n");
}

/// The introduction to the histograms: what is about to be done, and what their columns
/// mean.
pub fn print_sequence(
    heaps: &[String],
    sizes: &[u64],
    mode: HistMode,
    samples: u32,
    warmup: u32,
    bucket_count: usize,
    bucket_source: &str,
) -> (s: String)
    ensures
        s@ == plan_text(
            strings(heaps@),
            sizes@,
            mode,
            samples as nat,
            warmup as nat,
            bucket_count as nat,
            bucket_source@,
        ) + legend_text(samples as nat, warmup as nat),
{
    broadcast use group_concat;
    let mut out = String::new();
    push_plan(&mut out, heaps, sizes, mode, samples, warmup, bucket_count, bucket_source);
    out.append("\n  for each (heap, size):\n    warmup(");
    push_dec(&mut out, warmup as u64);
    out.append(") -> collect(");
    push_dec(&mut out, samples as u64);
    out.append(
        ") -> sort -> bucket -> print\n\nhistogram legend:\n  range_us    latency bucket range [low, high) in microseconds\n  count       samples in this bucket\n  pct         percentage of total samples\n  cum_pct     cumulative percentage\n  bar         visual distribution (each # ~ 2%)\n\n",
    );
    out
}

/// How many buckets to use, and whether that was asked for: none asked for leaves it
/// to the rule.
pub fn bucket_choice(buckets: usize, samples: u32) -> (r: (usize, &'static str))
    ensures
        buckets == 0 ==> r.0 == bucket_rule(samples as nat) && r.1@ == "auto"@,
        buckets > 0 ==> r.0 == buckets && r.1@ == "manual"@,
{
    if buckets == 0 {
        (auto_buckets(samples as usize), "auto")
    } else {
        (buckets, "manual")
    }
}

/// The value at a share of ascending values has at least that share of them up to it, and is
/// the first such: fewer are before it.
pub proof fn law_rank_of_a_share(n: nat, numer: nat, denom: nat)
    requires
        0 < n,
        0 < denom,
        numer <= denom,
    ensures
        ({
            let i = rank_index(n, numer, denom);
            &&& 0 <= i < n
            &&& denom * (i + 1) >= numer * n
            &&& i > 0 ==> denom * i < numer * n
        }),
{
    let x = numer * n;
    let r = (x + denom - 1) / (denom as int);
    assert(denom * r >= x && denom * (r - 1) < x) by (nonlinear_arith)
        requires
            r == (x + denom - 1) / (denom as int),
            denom > 0,
    ;
    assert(x <= denom * n) by (nonlinear_arith)
        requires
            x == numer * n,
            numer <= denom,
    ;
    assert(r <= n) by (nonlinear_arith)
        requires
            denom * (r - 1) < x,
            x <= denom * n,
            denom > 0,
    ;
    if r <= 1 {
        assert(denom * 1 >= x) by (nonlinear_arith)
            requires
                denom * r >= x,
                r <= 1,
                denom > 0,
        ;
    }
}

/// The value at a larger share is no smaller.
pub proof fn law_percentiles_ascend(n: nat, a: nat, b: nat, denom: nat)
    requires
        0 < n,
        0 < denom,
        a <= b <= denom,
    ensures
        rank_index(n, a, denom) <= rank_index(n, b, denom),
{
    let x = a * n;
    let y = b * n;
    assert(x <= y) by (nonlinear_arith)
        requires
            x == a * n,
            y == b * n,
            a <= b,
    ;
    assert((x + denom - 1) / (denom as int) <= (y + denom - 1) / (denom as int))
        by (nonlinear_arith)
        requires
            x <= y,
            denom > 0,
    ;
}

/// The share of a bucket is that of its count in the total, to a tenth of a percent.
pub proof fn law_bucket_share(count: nat, total: nat)
    requires
        0 < total,
        count <= total,
    ensures
        scaled(share(count, total), 10) * total <= 1000 * count + total,
        1000 * count <= scaled(share(count, total), 10) * total + total,
        count == 0 ==> scaled(share(count, total), 10) == 0,
        count == total ==> scaled(share(count, total), 10) == 1000,
{
    let p = share(count, total);
    let t = scaled(p, 10);
    let q = (count as real) / (total as real);
    law_percent(count, total);
    law_percent_ends(total);
    law_scaled(p, 10);
    lemma_divided(count as real, total as real);
    if q > 1real {
        lemma_mul_strict(1real, q, total as real);
    }
    law_near_within(value(p), q * 100real, 8, 100real);
    let w = total as real;
    lemma_mul_mono(t as real, 1000real * q + 1real, w);
    lemma_mul_mono(1000real * q - 1real, t as real, w);
    lemma_real_product(t as int, total as int);
    assert((1000real * q + 1real) * w == 1000real * (q * w) + w) by (nonlinear_arith);
    assert((1000real * q - 1real) * w == 1000real * (q * w) - w) by (nonlinear_arith);
}

/// A bar is empty only for an empty bucket, has a mark for every two percent, to one mark, and
/// at most fifty-one.
pub proof fn law_bar(count: nat, total: nat)
    requires
        0 < total,
        count <= total,
    ensures
        bar_len(count, total) == 0 <==> count == 0,
        count > 0 ==> (bar_len(count, total) - 2) * total <= 50 * count,
        50 * count <= (bar_len(count, total) + 1) * total,
        bar_len(count, total) <= 51,
{
    let p = share(count, total);
    let h = quotient(p, of_int(2));
    let q = (count as real) / (total as real);
    law_of_int(2);
    lemma_mantissa(of_int(2));
    law_percent(count, total);
    lemma_divided(count as real, total as real);
    if q > 1real {
        lemma_mul_strict(1real, q, total as real);
    }
    law_near_within(value(p), q * 100real, 8, 100real);
    law_quotient(p, of_int(2));
    law_near_quotient(value(p), q * 100real, 8, 2real, 2real, 0);
    law_near_near(value(h), value(p) / 2real, 1, q * 100real / 2real, 9);
    law_near_within(value(h), q * 50real, 11, 50real);
    law_ceiling(h);
    let b = bar_len(count, total) as real;
    let w = total as real;
    lemma_real_product((bar_len(count, total) - 2) as int, total as int);
    lemma_real_product((bar_len(count, total) + 1) as int, total as int);
    if count == 0 && q > 0real {
        lemma_mul_strict(0real, q, w);
    }
    lemma_mul_mono(b - 2real, q * 50real, w);
    lemma_mul_mono(q * 50real, b + 1real, w);
    assert((q * 50real) * w == 50real * (q * w)) by (nonlinear_arith);
}

/// The sum of times is that of their parts, whatever the order.
pub proof fn law_total_adds_up(a: Seq<u64>, b: Seq<u64>)
    ensures
        total(a + b) == total(a) + total(b),
        a.len() == 1 ==> total(a) == a[0],
    decreases b.len(),
{
    if b.len() > 0 {
        assert((a + b).drop_last() =~= a + b.drop_last());
        law_total_adds_up(a, b.drop_last());
    } else {
        assert(a + b =~= a);
    }
    if a.len() == 1 {
        assert(a.drop_last() =~= Seq::<u64>::empty());
        assert(total(a.drop_last()) == 0);
    }
}

} // verus!
