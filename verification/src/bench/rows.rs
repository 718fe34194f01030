//! The rows of the tables of measurements.
use crate::double::{
    hundredths_text, int_difference, less, of_int, product, quotient, scaled, tenths_text, Double,
    Parts,
};
use crate::exact::{
    law_less, law_of_int, law_ratio, lemma_divided, lemma_mantissa, lemma_mul_mono,
    lemma_mul_strict, lemma_quotient_exact, lemma_real_product, lemma_thousandth, value,
};
use crate::info::format::pct_text;
use crate::info::types::strings;
use crate::number::{dec, dec_string, push_dec};
use crate::size::{human_size, short_size};
use crate::stats::LatencyStats;
use crate::text::group_concat;
use vstd::prelude::*;

verus! {

/// The sizes at and around which blocks of pages change their order.
pub const ORDER_BOUNDARY_SIZES: [u64; 15] = [
    4096,
    8192,
    16384,
    32768,
    49152,
    61440,
    65536,
    69632,
    131_072,
    262_144,
    524_288,
    1_048_576,
    2_097_152,
    4_194_304,
    8_388_608,
];

/// Sizes that do not fill their pages.
pub const FRAG_SIZES: [u64; 6] = [1, 4095, 4097, 65535, 65537, 100_000];

/// What to measure, and how often.
pub struct BenchConfig<'a> {
    pub sizes: &'a [u64],
    pub iterations: u32,
    pub warmup: u32,
    pub heap_w: usize,
    pub pool_bypass: bool,
    pub drain_count: Option<u32>,
}

/// The times for one size.
#[derive(Clone, Copy, Debug)]
pub struct SizeStats {
    pub size: u64,
    pub latency: LatencyStats,
}

/// A rate in thousands per second, with a decimal below one thousand.
pub open spec fn throughput_text(ops: nat) -> Seq<char> {
    if ops >= 1000 {
        dec(ops / 1000)
    } else {
        tenths_text(scaled(quotient(of_int(ops), of_int(1000)), 10))
    }
}

/// A rate in thousands per second, with a decimal below one thousand.
pub fn format_throughput(ops: u64) -> (s: String)
    ensures
        s@ == throughput_text(ops as nat),
{
    broadcast use group_concat;
    let mut s = String::new();
    if ops >= 1000 {
        push_dec(&mut s, ops / 1000);
    } else {
        Double::from_int(ops).divided_by(Double::from_int(1000)).push_one_decimal(&mut s);
    }
    s
}

/// The row of the times for a size.
pub open spec fn times_row(size: nat, st: LatencyStats) -> Seq<Seq<char>> {
    seq![
        short_size(size),
        dec(st.avg_us as nat),
        dec(st.stddev_us as nat),
        dec(st.p50_us as nat),
        dec(st.p95_us as nat),
        dec(st.p99_us as nat),
        dec(st.p99_9_us as nat),
    ]
}

/// The row of the times for a size.
pub fn latency_row(size: u64, st: &LatencyStats) -> (v: Vec<String>)
    ensures
        strings(v@) == times_row(size as nat, *st),
{
    let mut v: Vec<String> = Vec::new();
    v.push(human_size(size));
    v.push(dec_string(st.avg_us));
    v.push(dec_string(st.stddev_us));
    v.push(dec_string(st.p50_us));
    v.push(dec_string(st.p95_us));
    v.push(dec_string(st.p99_us));
    v.push(dec_string(st.p99_9_us));
    assert(strings(v@) =~= times_row(size as nat, *st));
    v
}

/// The row of the allocation times for a size; `lo` and `hi` bound the 99th percentile.
pub open spec fn alloc_row_text(size: nat, st: LatencyStats, lo: nat, hi: nat) -> Seq<Seq<char>> {
    seq![
        short_size(size),
        dec(st.min_us as nat),
        dec(st.avg_us as nat) + "\u{b1}"@ + dec(st.ci95_us as nat),
        dec(st.trimmed_avg_us as nat),
        dec(st.stddev_us as nat),
        dec(st.p50_us as nat),
        dec(st.p95_us as nat),
        dec(st.p99_us as nat) + "["@ + dec(lo) + "-"@ + dec(hi) + "]"@,
        dec(st.p99_9_us as nat),
        dec(st.max_us as nat),
        throughput_text(st.throughput_ops as nat),
        dec(st.outlier_count as nat),
    ]
}

/// The row of the allocation times for a size.
pub fn alloc_row(size: u64, st: &LatencyStats, p99_lo: u64, p99_hi: u64) -> (v: Vec<String>)
    ensures
        strings(v@) == alloc_row_text(size as nat, *st, p99_lo as nat, p99_hi as nat),
{
    broadcast use group_concat;
    let mut avg = dec_string(st.avg_us);
    avg.append("\u{b1}");
    push_dec(&mut avg, st.ci95_us);
    let mut p99 = dec_string(st.p99_us);
    p99.append("[");
    push_dec(&mut p99, p99_lo);
    p99.append("-");
    push_dec(&mut p99, p99_hi);
    p99.append("]");
    let mut v: Vec<String> = Vec::new();
    v.push(human_size(size));
    v.push(dec_string(st.min_us));
    v.push(avg);
    v.push(dec_string(st.trimmed_avg_us));
    v.push(dec_string(st.stddev_us));
    v.push(dec_string(st.p50_us));
    v.push(dec_string(st.p95_us));
    v.push(p99);
    v.push(dec_string(st.p99_9_us));
    v.push(dec_string(st.max_us));
    v.push(format_throughput(st.throughput_ops));
    v.push(dec_string(st.outlier_count as u64));
    assert(strings(v@) =~= alloc_row_text(size as nat, *st, p99_lo as nat, p99_hi as nat));
    v
}

/// How the rate for a size compares with the first: in percent, and in megabytes per
/// second.
pub open spec fn scaling_row_text(size: nat, ops: nat, base: nat) -> Seq<Seq<char>> {
    seq![
        short_size(size),
        throughput_text(ops),
        tenths_text(scaled(product(quotient(of_int(ops), of_int(base)), of_int(100)), 10)),
        dec(scaled(quotient(product(of_int(ops), of_int(size)), of_int(0x10_0000)), 1)),
    ]
}

/// The row of the rate for a size.
pub fn scaling_row(size: u64, ops: u64, base: u64) -> (v: Vec<String>)
    requires
        base > 0,
    ensures
        strings(v@) == scaling_row_text(size as nat, ops as nat, base as nat),
{
    broadcast use group_concat;
    let mut eff = String::new();
    Double::from_int(ops).divided_by(Double::from_int(base)).times(
        Double::from_int(100),
    ).push_one_decimal(&mut eff);
    let mut bw = String::new();
    Double::from_int(ops).times(Double::from_int(size)).divided_by(
        Double::from_int(0x10_0000),
    ).push_rounded(&mut bw);
    let mut v: Vec<String> = Vec::new();
    v.push(human_size(size));
    v.push(format_throughput(ops));
    v.push(eff);
    v.push(bw);
    assert(strings(v@) =~= scaling_row_text(size as nat, ops as nat, base as nat));
    v
}

/// How long a release takes relative to an allocation; zero where allocations take no
/// time.
pub open spec fn close_ratio(alloc_avg: nat, close_avg: nat) -> Parts {
    if alloc_avg == 0 {
        (0, 0)
    } else {
        quotient(of_int(close_avg), of_int(alloc_avg))
    }
}

/// What a ratio of release to allocation is called.
pub open spec fn close_verdict(r: Parts) -> Seq<char> {
    if less(r, quotient(of_int(1), of_int(2))) {
        "fast"@
    } else if !less(of_int(2), r) {
        "balanced"@
    } else {
        "expensive"@
    }
}

/// The row of releases for a size.
pub open spec fn close_row_text(size: nat, alloc_avg: nat, close_avg: nat) -> Seq<Seq<char>> {
    let r = close_ratio(alloc_avg, close_avg);
    seq![
        short_size(size),
        dec(alloc_avg),
        dec(close_avg),
        hundredths_text(scaled(r, 100)),
        close_verdict(r),
    ]
}

fn word(s: &str) -> (r: String)
    ensures
        r@ == s@,
{
    broadcast use group_concat;
    let mut r = String::new();
    r.append(s);
    r
}

/// The row of releases for a size.
pub fn close_row(size: u64, alloc_avg: u64, close_avg: u64) -> (v: Vec<String>)
    ensures
        strings(v@) == close_row_text(size as nat, alloc_avg as nat, close_avg as nat),
{
    broadcast use group_concat;
    let ratio = if alloc_avg > 0 {
        Double::from_int(close_avg).divided_by(Double::from_int(alloc_avg))
    } else {
        Double { mant: 0, exp: 0 }
    };
    let half = Double::from_int(1).divided_by(Double::from_int(2));
    let verdict: &str = if ratio.is_less(half) {
        "fast"
    } else if !Double::from_int(2).is_less(ratio) {
        "balanced"
    } else {
        "expensive"
    };
    let mut text = String::new();
    ratio.push_two_decimals(&mut text);
    let mut v: Vec<String> = Vec::new();
    v.push(human_size(size));
    v.push(dec_string(alloc_avg));
    v.push(dec_string(close_avg));
    v.push(text);
    v.push(word(verdict));
    assert(strings(v@) =~= close_row_text(size as nat, alloc_avg as nat, close_avg as nat));
    v
}

/// The row of a stage of the pipeline: its time, and its share of all of it.
pub open spec fn stage_row_text(name: Seq<char>, avg: nat, all: nat) -> Seq<Seq<char>> {
    let of: nat = if all == 0 {
        1
    } else {
        all
    };
    seq![
        name,
        dec(avg),
        tenths_text(scaled(product(quotient(of_int(avg), of_int(of)), of_int(100)), 10)),
    ]
}

/// The row of a stage of the pipeline.
pub fn stage_row(name: &str, avg: u64, total_avg: u64) -> (v: Vec<String>)
    ensures
        strings(v@) == stage_row_text(name@, avg as nat, total_avg as nat),
{
    broadcast use group_concat;
    let of: u64 = if total_avg == 0 {
        1
    } else {
        total_avg
    };
    let mut pct = String::new();
    Double::from_int(avg).divided_by(Double::from_int(of)).times(
        Double::from_int(100),
    ).push_one_decimal(&mut pct);
    let mut v: Vec<String> = Vec::new();
    v.push(word(name));
    v.push(dec_string(avg));
    v.push(pct);
    assert(strings(v@) =~= stage_row_text(name@, avg as nat, total_avg as nat));
    v
}

/// What the return to a first size is called, by the later average over the earlier.
pub open spec fn hysteresis_verdict(r: Parts) -> Seq<char> {
    if less(quotient(of_int(11), of_int(10)), r) {
        "degraded"@
    } else if less(r, quotient(of_int(9), of_int(10))) {
        "improved"@
    } else {
        "recovered"@
    }
}

/// The ratio of two averages and what it is called, where the first is not zero.
pub fn hysteresis(first_avg: u64, last_avg: u64) -> (r: Option<(String, &'static str)>)
    ensures
        match r {
            Some(p) => first_avg > 0 && ({
                let q = quotient(of_int(last_avg as nat), of_int(first_avg as nat));
                p.0@ == hundredths_text(scaled(q, 100)) && p.1@ == hysteresis_verdict(q)
            }),
            None => first_avg == 0,
        },
{
    broadcast use group_concat;
    if first_avg == 0 {
        return None;
    }
    let ratio = Double::from_int(last_avg).divided_by(Double::from_int(first_avg));
    let high = Double::from_int(11).divided_by(Double::from_int(10));
    let low = Double::from_int(9).divided_by(Double::from_int(10));
    let verdict: &'static str = if high.is_less(ratio) {
        "degraded"
    } else if ratio.is_less(low) {
        "improved"
    } else {
        "recovered"
    };
    let mut text = String::new();
    ratio.push_two_decimals(&mut text);
    Some((text, verdict))
}

/// By how much one size exceeds another, in percent of the other.
pub open spec fn surplus(more: nat, base: nat, of: nat) -> Seq<char> {
    tenths_text(
        scaled(product(quotient(int_difference(more, base), of_int(of)), of_int(100)), 10),
    )
}

/// By how much a buffer exceeds what was asked for, in percent, with a sign where it
/// falls short; a star below the granularity, where that says nothing.
pub open spec fn frag_text(size: nat, actual: nat, granularity: nat) -> Seq<char> {
    if size < granularity {
        "*"@
    } else if int_difference(size, actual).0 > 0 {
        "-"@ + surplus(size, actual, size)
    } else {
        surplus(actual, size, size)
    }
}

/// By how much a buffer exceeds what was asked for.
pub fn frag_pct(size: u64, actual: u64, granularity: u64) -> (s: String)
    requires
        size > 0,
    ensures
        s@ == frag_text(size as nat, actual as nat, granularity as nat),
{
    broadcast use group_concat;
    let mut s = String::new();
    if size < granularity {
        s.append("*");
        return s;
    }
    let less = Double::difference(size, actual);
    let d = if less.mant > 0 {
        s.append("-");
        less
    } else {
        Double::difference(actual, size)
    };
    d.divided_by(Double::from_int(size)).times(Double::from_int(100)).push_one_decimal(&mut s);
    s
}

proof fn lemma_ratio_side(a: nat, b: nat, n: nat, d: nat)
    requires
        b > 0,
        0 < n <= 1000,
        0 < d <= 1000,
    ensures
        ({
            let x = value(quotient(of_int(a), of_int(b)));
            let y = value(quotient(of_int(n), of_int(d)));
            &&& 100 * a * d <= 99 * n * b ==> x < y
            &&& 100 * a * d >= 101 * n * b ==> x > y
        }),
{
    let p = (a as real) / (b as real);
    let q = (n as real) / (d as real);
    let x = value(quotient(of_int(a), of_int(b)));
    let y = value(quotient(of_int(n), of_int(d)));
    let w = b as real;
    let v = d as real;
    law_ratio(a, b);
    law_ratio(n, d);
    lemma_divided(a as real, w);
    lemma_divided(n as real, v);
    lemma_thousandth(x, p, 5);
    lemma_thousandth(y, q, 5);
    if q <= 0real {
        lemma_mul_mono(q, 0real, v);
    }
    lemma_mul_strict(0real, w, v);
    let u = w * v;
    assert((100real * p) * u == 100real * ((p * w) * v)) by (nonlinear_arith)
        requires
            u == w * v,
    ;
    assert((99real * q) * u == 99real * ((q * v) * w)) by (nonlinear_arith)
        requires
            u == w * v,
    ;
    assert((101real * q) * u == 101real * ((q * v) * w)) by (nonlinear_arith)
        requires
            u == w * v,
    ;
    lemma_real_product(a as int, d as int);
    lemma_real_product(n as int, b as int);
    assert(100 * a * d == 100 * (a * d)) by (nonlinear_arith);
    assert(99 * n * b == 99 * (n * b)) by (nonlinear_arith);
    assert(101 * n * b == 101 * (n * b)) by (nonlinear_arith);
    if 100 * a * d <= 99 * n * b {
        if 100real * p > 99real * q {
            lemma_mul_strict(99real * q, 100real * p, u);
        }
    }
    if 100 * a * d >= 101 * n * b {
        if 100real * p < 101real * q {
            lemma_mul_strict(100real * p, 101real * q, u);
        }
    }
}

/// Closing is called fast where it takes clearly less than half of the time of an allocation,
/// expensive where it takes clearly more than twice the time, and balanced in between.
pub proof fn law_close_verdict(alloc: nat, close: nat)
    requires
        alloc > 0,
    ensures
        200 * close <= 99 * alloc ==> close_verdict(close_ratio(alloc, close)) == "fast"@,
        200 * close >= 101 * alloc && 100 * close <= 198 * alloc ==> close_verdict(
            close_ratio(alloc, close),
        ) == "balanced"@,
        100 * close >= 202 * alloc ==> close_verdict(close_ratio(alloc, close)) == "expensive"@,
{
    let r = close_ratio(alloc, close);
    lemma_ratio_side(close, alloc, 1, 2);
    lemma_ratio_side(close, alloc, 2, 1);
    law_less(r, quotient(of_int(1), of_int(2)));
    law_less(of_int(2), r);
    lemma_by_one(2);
}

proof fn lemma_by_one(n: nat)
    requires
        0 < n <= 1000,
    ensures
        value(quotient(of_int(n), of_int(1))) == value(of_int(n)),
{
    let p = of_int(n);
    law_of_int(n);
    law_of_int(1);
    lemma_mantissa(of_int(1));
    lemma_quotient_exact(n);
}

/// A size is called degraded after a detour where its time is clearly more than a tenth
/// longer, improved where it is clearly more than a tenth shorter, and recovered in between.
pub proof fn law_hysteresis(first: nat, last: nat)
    requires
        first > 0,
    ensures
        1000 * last >= 1111 * first ==> hysteresis_verdict(
            quotient(of_int(last), of_int(first)),
        ) == "degraded"@,
        1000 * last <= 891 * first ==> hysteresis_verdict(
            quotient(of_int(last), of_int(first)),
        ) == "improved"@,
        1000 * last >= 909 * first && 1000 * last <= 1089 * first ==> hysteresis_verdict(
            quotient(of_int(last), of_int(first)),
        ) == "recovered"@,
{
    let r = quotient(of_int(last), of_int(first));
    lemma_ratio_side(last, first, 11, 10);
    lemma_ratio_side(last, first, 9, 10);
    law_less(quotient(of_int(11), of_int(10)), r);
    law_less(r, quotient(of_int(9), of_int(10)));
    assert(1000 * last >= 1111 * first ==> 100 * last * 10 >= 101 * 11 * first);
    assert(1000 * last <= 891 * first ==> 100 * last * 10 <= 99 * 9 * first);
    assert(1000 * last >= 909 * first ==> 100 * last * 10 >= 101 * 9 * first);
    assert(1000 * last <= 1089 * first ==> 100 * last * 10 <= 99 * 11 * first);
}

/// A stage's share is that of its time in the whole, and the rate at a size is in percent of
/// the first.
pub proof fn law_shares_of_stages(name: Seq<char>, avg: nat, all: nat, size: nat, ops: nat, base: nat)
    requires
        all > 0,
        base > 0,
    ensures
        stage_row_text(name, avg, all)[0] == name,
        stage_row_text(name, avg, all)[1] == dec(avg),
        stage_row_text(name, avg, all)[2] + "%"@ == pct_text(avg, all),
        scaling_row_text(size, ops, base)[2] + "%"@ == pct_text(ops, base),
{
}

/// A table of times has each figure below its name.
pub proof fn law_times_below_their_names(size: nat, st: LatencyStats, lo: nat, hi: nat)
    ensures
        times_row(size, st) == seq![
            short_size(size),
            dec(st.avg_us as nat),
            dec(st.stddev_us as nat),
            dec(st.p50_us as nat),
            dec(st.p95_us as nat),
            dec(st.p99_us as nat),
            dec(st.p99_9_us as nat),
        ],
        alloc_row_text(size, st, lo, hi)[1] == dec(st.min_us as nat),
        alloc_row_text(size, st, lo, hi)[9] == dec(st.max_us as nat),
        alloc_row_text(size, st, lo, hi)[5] == dec(st.p50_us as nat),
        alloc_row_text(size, st, lo, hi)[6] == dec(st.p95_us as nat),
{
}

} // verus!
