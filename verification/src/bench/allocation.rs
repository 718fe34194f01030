//! The report of allocation times.
use crate::aging::summary::{field_texts, Field};
use crate::bench::depth::PoolEstimate;
use crate::bench::report::{
    headings, holdable, number, only_if, push_table, push_values, row_texts, shown, signed_text, text, value, Line,
    Shown, Signed,
};
use crate::bench::rows::{
    alloc_row, alloc_row_text, scaling_row, scaling_row_text, SizeStats,
};
use crate::bench::score::{
    detail_view, details_view, outlier_number, quality_scorecard, rating_of, sample_number,
    shortfalls, sides, total_of, Detail, QualityScore, Scored,
};
use crate::exact::{law_less, law_of_int, value as exact_value};
use crate::double::{
    hundredths_text, less, of_int, product, quotient, rounded_up, scaled, tenths_text,
    thousandths_text, Double, Parts,
};
use crate::info::types::strings;
use crate::number::{dec, dec_string, push_dec};
use crate::size::{human_size, short_size};
use crate::stats::LatencyStats;
use crate::text::group_concat;
use vstd::prelude::*;

verus! {

/// Two groups of times: where they lie, which part is fast, and how deep the valley
/// between them is.
#[derive(Clone, Copy, Debug)]
pub struct Bimodal {
    pub fast_us: u64,
    pub slow_us: u64,
    pub fast_part: Double,
    pub valley: Double,
}

/// The allocation times of a size; `p99_lo` and `p99_hi` bound the 99th percentile.
#[derive(Clone, Copy, Debug)]
pub struct AllocTimes {
    pub size: u64,
    pub stats: LatencyStats,
    pub p99_lo: u64,
    pub p99_hi: u64,
    pub bimodal: Option<Bimodal>,
}

/// A line through the times by size: microseconds at size zero and by byte, and how well
/// it fits.
#[derive(Clone, Copy, Debug)]
pub struct Fit {
    pub base_us: Signed,
    pub us_per_byte: Signed,
    pub r_squared: Signed,
}

/// The shape of a distribution.
#[derive(Clone, Copy, Debug)]
pub struct Shape {
    pub skew: Signed,
    pub kurtosis: Signed,
}

/// How the times change from the first half to the second.
#[derive(Clone, Copy, Debug)]
pub struct Drift {
    pub pct: Signed,
    pub first_us: u64,
    pub second_us: u64,
}

/// How far a time tells the next, and how many independent times they amount to.
#[derive(Clone, Copy, Debug)]
pub struct Correlation {
    pub lag: Signed,
    pub ess: Double,
}

/// The average of the first so many times, and how far it can be off.
#[derive(Clone, Copy, Debug)]
pub struct Prefix {
    pub count: usize,
    pub avg_us: u64,
    pub ci95_us: u64,
}

/// What was found out on the times of all sizes, and on those of the last.
#[derive(Clone, Debug)]
pub struct Findings {
    pub regression: Option<Fit>,
    pub shape: Option<Shape>,
    pub entropy: Option<Double>,
    pub drift: Option<Drift>,
    pub warmup_ok: bool,
    pub correlation: Option<Correlation>,
    /// How many times of the last size there are.
    pub samples: usize,
    /// The prefixes of them.
    pub prefixes: Vec<Prefix>,
    pub pool: Option<PoolEstimate>,
}

impl Findings {
    /// Whether its numbers are doubles.
    pub open spec fn wf(self) -> bool {
        &&& self.regression matches Some(f) ==> holdable(f.base_us.size) && holdable(
            f.us_per_byte.size,
        ) && holdable(f.r_squared.size)
        &&& self.shape matches Some(s) ==> holdable(s.skew.size) && holdable(s.kurtosis.size)
        &&& self.entropy matches Some(e) ==> holdable(e)
        &&& self.drift matches Some(d) ==> holdable(d.pct.size)
        &&& self.correlation matches Some(c) ==> holdable(c.lag.size) && holdable(c.ess)
    }
}

/// Whether the numbers of a size's times are doubles.
pub open spec fn times_wf(t: AllocTimes) -> bool {
    &&& t.stats.cv_pct.wf()
    &&& t.bimodal matches Some(b) ==> holdable(b.fast_part) && holdable(b.valley)
}

/// How many times the prefixes of a run take, where there are enough: a quarter, half,
/// three quarters and all.
pub open spec fn prefix_counts(n: nat) -> Seq<nat> {
    if n >= 20 {
        seq![n / 4, n / 2, n * 3 / 4, n]
    } else {
        Seq::empty()
    }
}

/// How many times the prefixes of a run take, where there are enough.
pub fn prefix_lengths(n: usize) -> (v: Vec<usize>)
    ensures
        v@.len() == prefix_counts(n as nat).len(),
        forall|i: int| 0 <= i < v@.len() ==> #[trigger] v@[i] == prefix_counts(n as nat)[i],
{
    if n < 20 {
        return Vec::new();
    }
    let three: usize = (n as u128 * 3 / 4) as usize;
    vec![n / 4, n / 2, three, n]
}

/// In percent.
pub open spec fn percent(p: Parts) -> Parts {
    product(p, of_int(100))
}

/// The values of two groups of times.
pub open spec fn bimodal_fields(b: Bimodal) -> Seq<(Seq<char>, Seq<char>)> {
    seq![
        (
            "fast"@,
            dec(b.fast_us as nat) + "us ("@ + dec(scaled(rounded_up(percent(b.fast_part@)), 1))
                + "%)"@,
        ),
        ("slow"@, dec(b.slow_us as nat) + "us"@),
        ("valley"@, dec(scaled(percent(b.valley@), 1)) + "%"@),
    ]
}

/// The lines on two groups of times, of the sizes that have them.
pub open spec fn bimodal_lines(v: Seq<AllocTimes>) -> Seq<Shown>
    decreases v.len(),
{
    if v.len() == 0 {
        Seq::empty()
    } else {
        let before = bimodal_lines(v.drop_last());
        match v.last().bimodal {
            Some(b) => before.push(
                Shown::Values(
                    "perf::bimodal@"@ + short_size(v.last().size as nat),
                    bimodal_fields(b),
                ),
            ),
            None => before,
        }
    }
}

fn push_bimodal(lines: &mut Vec<Line>, size: u64, b: &Bimodal)
    requires
        holdable(b.fast_part),
        holdable(b.valley),
    ensures
        shown(final(lines)@) == shown(old(lines)@).push(
            Shown::Values("perf::bimodal@"@ + short_size(size as nat), bimodal_fields(*b)),
        ),
{
    broadcast use group_concat;
    let hundred = Double::from_int(100);
    let mut name = text("perf::bimodal@");
    name.append(human_size(size).as_str());
    let mut fast = dec_string(b.fast_us);
    fast.append("us (");
    b.fast_part.times(hundred).round().push_rounded(&mut fast);
    fast.append("%)");
    let mut slow = dec_string(b.slow_us);
    slow.append("us");
    let mut valley = String::new();
    b.valley.times(hundred).push_rounded(&mut valley);
    valley.append("%");
    let fields = vec![
        Field { name: "fast", value: fast },
        Field { name: "slow", value: slow },
        Field { name: "valley", value: valley },
    ];
    assert(field_texts(fields@) =~= bimodal_fields(*b));
    push_values(lines, name, fields);
}

/// The rows of allocation times.
pub open spec fn alloc_rows(v: Seq<AllocTimes>) -> Seq<Seq<Seq<char>>> {
    Seq::new(
        v.len(),
        |i: int|
            alloc_row_text(
                v[i].size as nat,
                v[i].stats,
                v[i].p99_lo as nat,
                v[i].p99_hi as nat,
            ),
    )
}

/// The header of the table of allocation times.
pub open spec fn alloc_header() -> Seq<Seq<char>> {
    seq![
        "size"@,
        "min"@,
        "avg\u{b1}ci95"@,
        "tavg"@,
        "sd"@,
        "p50"@,
        "p95"@,
        "p99[ci95]"@,
        "p99.9"@,
        "max"@,
        "Kops/s"@,
        "out"@,
    ]
}

/// The table of allocation times.
pub open spec fn alloc_table(v: Seq<AllocTimes>) -> Shown {
    Shown::Table(
        "perf::alloc_only"@,
        Some("(us)"@),
        alloc_header(),
        alloc_rows(v),
    )
}

fn push_times(lines: &mut Vec<Line>, times: &[AllocTimes])
    requires
        forall|i: int| 0 <= i < times@.len() ==> times_wf(#[trigger] times@[i]),
    ensures
        shown(final(lines)@) == (shown(old(lines)@) + bimodal_lines(times@)).push(
            alloc_table(times@),
        ),
{
    broadcast use group_concat;
    let ghost start = shown(lines@);
    let mut rows: Vec<Vec<String>> = Vec::new();
    assert(start + bimodal_lines(times@.take(0)) =~= start);
    let mut i: usize = 0;
    while i < times.len()
        invariant
            i <= times@.len(),
            forall|j: int| 0 <= j < times@.len() ==> times_wf(#[trigger] times@[j]),
            shown(lines@) == start + bimodal_lines(times@.take(i as int)),
            rows@.len() == i,
            forall|j: int| 0 <= j < i ==> strings((#[trigger] rows@[j])@) == alloc_rows(times@)[j],
        decreases times@.len() - i,
    {
        let t = &times[i];
        assert(times_wf(times@[i as int]));
        if let Some(b) = &t.bimodal {
            push_bimodal(lines, t.size, b);
        }
        rows.push(alloc_row(t.size, &t.stats, t.p99_lo, t.p99_hi));
        proof {
            assert(times@.take(i + 1).drop_last() =~= times@.take(i as int));
            assert(shown(lines@) =~= start + bimodal_lines(times@.take(i + 1)));
        }
        i = i + 1;
    }
    let header = vec![
        "size",
        "min",
        "avg\u{b1}ci95",
        "tavg",
        "sd",
        "p50",
        "p95",
        "p99[ci95]",
        "p99.9",
        "max",
        "Kops/s",
        "out",
    ];
    proof {
        assert(times@.take(i as int) =~= times@);
        assert(row_texts(rows@) =~= alloc_rows(times@));
        assert(headings(header@) =~= alloc_header());
    }
    push_table(lines, "perf::alloc_only", Some("(us)"), header, rows);
}

/// The line through the times by size.
pub open spec fn model_fields(f: Fit) -> Seq<(Seq<char>, Seq<char>)> {
    seq![
        ("base_us"@, f.base_us.tenths()),
        (
            "us/KB"@,
            signed_text(
                f.us_per_byte.negative,
                thousandths_text(scaled(product(f.us_per_byte.size@, of_int(1024)), 1000)),
            ),
        ),
        ("R\u{b2}"@, f.r_squared.thousandths()),
    ]
}

/// The line through the times by size, where there is one.
pub open spec fn model_lines(f: Option<Fit>) -> Seq<Shown> {
    match f {
        Some(f) => seq![Shown::Values("perf::alloc_model"@, model_fields(f))],
        None => Seq::empty(),
    }
}

fn push_model(lines: &mut Vec<Line>, f: &Option<Fit>)
    requires
        f matches Some(f) ==> holdable(f.base_us.size) && holdable(f.us_per_byte.size)
            && holdable(f.r_squared.size),
    ensures
        shown(final(lines)@) == shown(old(lines)@) + model_lines(*f),
{
    broadcast use group_concat;
    let ghost start = shown(lines@);
    if let Some(f) = f {
        let by_kb = Signed {
            negative: f.us_per_byte.negative,
            size: f.us_per_byte.size.times(Double::from_int(1024)),
        };
        let fields = vec![
            Field { name: "base_us", value: f.base_us.one_decimal() },
            Field { name: "us/KB", value: by_kb.three_decimals() },
            Field { name: "R\u{b2}", value: f.r_squared.three_decimals() },
        ];
        assert(field_texts(fields@) =~= model_fields(*f));
        push_values(lines, text("perf::alloc_model"), fields);
    }
    assert(shown(lines@) =~= start + model_lines(*f));
}

/// The rows of how the rate holds as the size grows.
pub open spec fn scaling_rows(v: Seq<AllocTimes>) -> Seq<Seq<Seq<char>>> {
    Seq::new(
        v.len(),
        |i: int|
            scaling_row_text(
                v[i].size as nat,
                v[i].stats.throughput_ops as nat,
                v[0].stats.throughput_ops as nat,
            ),
    )
}

/// The table of how the rate holds as the size grows, where there are two sizes at least
/// and the first has a rate.
pub open spec fn scaling_lines(v: Seq<AllocTimes>) -> Seq<Shown> {
    only_if(
        v.len() >= 2 && v[0].stats.throughput_ops > 0,
        Shown::Table(
            "perf::scaling"@,
            None,
            seq!["size"@, "Kops/s"@, "eff%"@, "MB/s"@],
            scaling_rows(v),
        ),
    )
}

fn push_scaling(lines: &mut Vec<Line>, times: &[AllocTimes])
    ensures
        shown(final(lines)@) == shown(old(lines)@) + scaling_lines(times@),
{
    let ghost start = shown(lines@);
    if times.len() >= 2 && times[0].stats.throughput_ops > 0 {
        let base: u64 = times[0].stats.throughput_ops;
        let mut rows: Vec<Vec<String>> = Vec::new();
        let mut i: usize = 0;
        while i < times.len()
            invariant
                i <= times@.len(),
                base > 0,
                times@.len() >= 2,
                base == times@[0].stats.throughput_ops,
                rows@.len() == i,
                forall|j: int|
                    0 <= j < i ==> strings((#[trigger] rows@[j])@) == scaling_rows(times@)[j],
            decreases times@.len() - i,
        {
            rows.push(scaling_row(times[i].size, times[i].stats.throughput_ops, base));
            i = i + 1;
        }
        let header = vec!["size", "Kops/s", "eff%", "MB/s"];
        proof {
            assert(row_texts(rows@) =~= scaling_rows(times@));
            assert(headings(header@) =~= seq!["size"@, "Kops/s"@, "eff%"@, "MB/s"@]);
        }
        push_table(lines, "perf::scaling", None, header, rows);
    }
    assert(shown(lines@) =~= start + scaling_lines(times@));
}

/// What a skewness is called.
pub open spec fn tail_name(skew: Signed) -> Seq<char> {
    if skew.above(of_int(2)) {
        "heavy right tail"@
    } else if skew.above(quotient(of_int(1), of_int(2))) {
        "right-skewed"@
    } else if skew.below_minus(quotient(of_int(1), of_int(2))) {
        "left-skewed"@
    } else {
        "symmetric"@
    }
}

/// The line on the shape of the distribution.
pub open spec fn shape_lines(s: Option<Shape>) -> Seq<Shown> {
    match s {
        Some(s) => seq![
            Shown::Values(
                "perf::distribution"@,
                seq![
                    ("skew"@, s.skew.hundredths()),
                    ("kurtosis"@, s.kurtosis.hundredths()),
                    ("shape"@, tail_name(s.skew)),
                ],
            ),
        ],
        None => Seq::empty(),
    }
}

fn push_shape(lines: &mut Vec<Line>, s: &Option<Shape>)
    requires
        s matches Some(s) ==> holdable(s.skew.size) && holdable(s.kurtosis.size),
    ensures
        shown(final(lines)@) == shown(old(lines)@) + shape_lines(*s),
{
    let ghost start = shown(lines@);
    if let Some(s) = s {
        let half = Double::from_int(1).divided_by(Double::from_int(2));
        let tail: &str = if !s.skew.negative && Double::from_int(2).is_less(s.skew.size) {
            "heavy right tail"
        } else if !s.skew.negative && half.is_less(s.skew.size) {
            "right-skewed"
        } else if s.skew.negative && half.is_less(s.skew.size) {
            "left-skewed"
        } else {
            "symmetric"
        };
        let fields = vec![
            Field { name: "skew", value: s.skew.two_decimals() },
            Field { name: "kurtosis", value: s.kurtosis.two_decimals() },
            value("shape", tail),
        ];
        assert(field_texts(fields@) =~= seq![
            ("skew"@, s.skew.hundredths()),
            ("kurtosis"@, s.kurtosis.hundredths()),
            ("shape"@, tail_name(s.skew)),
        ]);
        push_values(lines, text("perf::distribution"), fields);
    }
    assert(shown(lines@) =~= start + shape_lines(*s));
}

/// What an entropy is called.
pub open spec fn entropy_name(e: Parts) -> Seq<char> {
    if less(e, quotient(of_int(3), of_int(10))) {
        "deterministic"@
    } else if less(e, quotient(of_int(7), of_int(10))) {
        "moderate"@
    } else {
        "unpredictable"@
    }
}

/// The line on the entropy.
pub open spec fn entropy_lines(e: Option<Double>) -> Seq<Shown> {
    match e {
        Some(e) => seq![
            Shown::Values(
                "perf::entropy"@,
                seq![
                    ("H"@, hundredths_text(scaled(e@, 100))),
                    ("predict"@, entropy_name(e@)),
                ],
            ),
        ],
        None => Seq::empty(),
    }
}

fn push_entropy(lines: &mut Vec<Line>, e: &Option<Double>)
    requires
        e matches Some(e) ==> holdable(*e),
    ensures
        shown(final(lines)@) == shown(old(lines)@) + entropy_lines(*e),
{
    broadcast use group_concat;
    let ghost start = shown(lines@);
    if let Some(e) = e {
        let ten = Double::from_int(10);
        let label: &str = if e.is_less(Double::from_int(3).divided_by(ten)) {
            "deterministic"
        } else if e.is_less(Double::from_int(7).divided_by(ten)) {
            "moderate"
        } else {
            "unpredictable"
        };
        let mut h = String::new();
        e.push_two_decimals(&mut h);
        let fields = vec![Field { name: "H", value: h }, value("predict", label)];
        assert(field_texts(fields@) =~= seq![
            ("H"@, hundredths_text(scaled(e@, 100))),
            ("predict"@, entropy_name(e@)),
        ]);
        push_values(lines, text("perf::entropy"), fields);
    }
    assert(shown(lines@) =~= start + entropy_lines(*e));
}

/// Whether a drift is worth a warning: more than ten percent either way.
pub open spec fn drifts(d: Drift) -> bool {
    less(of_int(10), d.pct.size@)
}

/// The warning of a drift.
pub open spec fn drift_lines(d: Option<Drift>) -> Seq<Shown> {
    match d {
        Some(d) => only_if(
            drifts(d),
            Shown::Values(
                if d.pct.negative {
                    "perf::drift_warn (improving)"@
                } else {
                    "perf::drift_warn (degrading)"@
                },
                seq![
                    (
                        "drift"@,
                        (if d.pct.negative {
                            "-"@
                        } else {
                            "+"@
                        }) + tenths_text(scaled(d.pct.size@, 10)) + "%"@,
                    ),
                    ("1st_half"@, dec(d.first_us as nat)),
                    ("2nd_half"@, dec(d.second_us as nat)),
                ],
            ),
        ),
        None => Seq::empty(),
    }
}

fn push_drift(lines: &mut Vec<Line>, d: &Option<Drift>)
    requires
        d matches Some(d) ==> holdable(d.pct.size),
    ensures
        shown(final(lines)@) == shown(old(lines)@) + drift_lines(*d),
{
    broadcast use group_concat;
    let ghost start = shown(lines@);
    if let Some(d) = d {
        if Double::from_int(10).is_less(d.pct.size) {
            let mut pct = text(if d.pct.negative {
                "-"
            } else {
                "+"
            });
            d.pct.size.push_one_decimal(&mut pct);
            pct.append("%");
            let fields = vec![
                Field { name: "drift", value: pct },
                number("1st_half", d.first_us),
                number("2nd_half", d.second_us),
            ];
            assert(field_texts(fields@) =~= seq![
                (
                    "drift"@,
                    (if d.pct.negative {
                        "-"@
                    } else {
                        "+"@
                    }) + tenths_text(scaled(d.pct.size@, 10)) + "%"@,
                ),
                ("1st_half"@, dec(d.first_us as nat)),
                ("2nd_half"@, dec(d.second_us as nat)),
            ]);
            let name = text(if d.pct.negative {
                "perf::drift_warn (improving)"
            } else {
                "perf::drift_warn (degrading)"
            });
            push_values(lines, name, fields);
        }
    }
    assert(shown(lines@) =~= start + drift_lines(*d));
}

/// The warning of too short a warm-up.
pub open spec fn warmup_lines(ok: bool) -> Seq<Shown> {
    only_if(
        !ok,
        Shown::Values(
            "perf::warmup_warn"@,
            seq![("hint"@, "first 10% differs from rest: increase --warmup"@)],
        ),
    )
}

fn push_warmup(lines: &mut Vec<Line>, ok: bool)
    ensures
        shown(final(lines)@) == shown(old(lines)@) + warmup_lines(ok),
{
    let ghost start = shown(lines@);
    if !ok {
        let fields = vec![value("hint", "first 10% differs from rest: increase --warmup")];
        assert(field_texts(fields@) =~= seq![
            ("hint"@, "first 10% differs from rest: increase --warmup"@),
        ]);
        push_values(lines, text("perf::warmup_warn"), fields);
    }
    assert(shown(lines@) =~= start + warmup_lines(ok));
}

/// A number rounded to sixty-four bits; the greatest that they hold, where it is above.
pub open spec fn capped_text(p: Parts) -> Seq<char> {
    if less(rounded_up(p), of_int(u64::MAX as nat)) {
        dec(scaled(rounded_up(p), 1))
    } else {
        dec(u64::MAX as nat)
    }
}

/// The line on times that tell the next, where they tell more than a tenth.
pub open spec fn correlation_lines(c: Option<Correlation>, samples: nat) -> Seq<Shown> {
    match c {
        Some(c) => only_if(
            less(quotient(of_int(1), of_int(10)), c.lag.size@),
            Shown::Values(
                "perf::autocorr"@,
                seq![
                    ("lag1_r"@, c.lag.thousandths()),
                    ("N"@, dec(samples)),
                    ("ESS"@, capped_text(c.ess@)),
                ],
            ),
        ),
        None => Seq::empty(),
    }
}

fn push_correlation(lines: &mut Vec<Line>, c: &Option<Correlation>, samples: usize)
    requires
        c matches Some(c) ==> holdable(c.lag.size) && holdable(c.ess),
    ensures
        shown(final(lines)@) == shown(old(lines)@) + correlation_lines(*c, samples as nat),
{
    broadcast use group_concat;
    let ghost start = shown(lines@);
    if let Some(c) = c {
        let tenth = Double::from_int(1).divided_by(Double::from_int(10));
        if tenth.is_less(c.lag.size) {
            let mut ess = String::new();
            let whole = c.ess.round();
            if whole.is_less(Double::from_int(u64::MAX)) {
                whole.push_rounded(&mut ess);
            } else {
                push_dec(&mut ess, u64::MAX);
            }
            let fields = vec![
                Field { name: "lag1_r", value: c.lag.three_decimals() },
                number("N", samples as u64),
                Field { name: "ESS", value: ess },
            ];
            assert(field_texts(fields@) =~= seq![
                ("lag1_r"@, c.lag.thousandths()),
                ("N"@, dec(samples as nat)),
                ("ESS"@, capped_text(c.ess@)),
            ]);
            push_values(lines, text("perf::autocorr"), fields);
        }
    }
    assert(shown(lines@) =~= start + correlation_lines(*c, samples as nat));
}

/// The row of a prefix.
pub open spec fn prefix_row_text(p: Prefix) -> Seq<Seq<char>> {
    seq![dec(p.count as nat), dec(p.avg_us as nat), "\u{b1}"@ + dec(p.ci95_us as nat)]
}

/// The rows of prefixes.
pub open spec fn prefix_rows(v: Seq<Prefix>) -> Seq<Seq<Seq<char>>> {
    Seq::new(v.len(), |i: int| prefix_row_text(v[i]))
}

/// The table of how fast the average settles, where all four prefixes have one.
pub open spec fn convergence_lines(v: Seq<Prefix>) -> Seq<Shown> {
    only_if(
        v.len() == 4,
        Shown::Table(
            "perf::ci_convergence"@,
            Some("(us)"@),
            seq!["N"@, "avg"@, "ci95"@],
            prefix_rows(v),
        ),
    )
}

fn push_convergence(lines: &mut Vec<Line>, v: &[Prefix])
    ensures
        shown(final(lines)@) == shown(old(lines)@) + convergence_lines(v@),
{
    broadcast use group_concat;
    let ghost start = shown(lines@);
    if v.len() == 4 {
        let mut rows: Vec<Vec<String>> = Vec::new();
        let mut i: usize = 0;
        while i < v.len()
            invariant
                i <= v@.len(),
                rows@.len() == i,
                forall|j: int| 0 <= j < i ==> strings((#[trigger] rows@[j])@) == prefix_rows(v@)[j],
            decreases v@.len() - i,
        {
            let mut ci = text("\u{b1}");
            push_dec(&mut ci, v[i].ci95_us);
            let row = vec![dec_string(v[i].count as u64), dec_string(v[i].avg_us), ci];
            assert(strings(row@) =~= prefix_row_text(v@[i as int]));
            rows.push(row);
            i = i + 1;
        }
        let header = vec!["N", "avg", "ci95"];
        proof {
            assert(row_texts(rows@) =~= prefix_rows(v@));
            assert(headings(header@) =~= seq!["N"@, "avg"@, "ci95"@]);
        }
        push_table(lines, "perf::ci_convergence", Some("(us)"), header, rows);
    }
    assert(shown(lines@) =~= start + convergence_lines(v@));
}

/// The line on a side of the quality that falls short, with its advice.
pub open spec fn advice_lines(d: (Seq<char>, Scored)) -> Seq<Shown> {
    match (d.1).1 {
        Some(advice) => seq![
            Shown::Values(
                "perf::quality  "@ + d.0 + "="@ + dec((d.1).0 as nat) + "/20"@,
                seq![("hint"@, advice)],
            ),
        ],
        None => Seq::empty(),
    }
}

/// The lines on the sides of the quality that fall short, with advice.
pub open spec fn all_advice(v: Seq<(Seq<char>, Scored)>) -> Seq<Shown>
    decreases v.len(),
{
    if v.len() == 0 {
        Seq::empty()
    } else {
        all_advice(v.drop_last()) + advice_lines(v.last())
    }
}

/// The lines on the quality of measurements.
pub open spec fn quality_lines(all: Seq<Scored>) -> Seq<Shown> {
    seq![
        Shown::Values(
            "perf::quality"@,
            seq![
                ("score"@, dec(total_of(all)) + "/100"@),
                ("rating"@, rating_of(total_of(all))),
            ],
        ),
    ] + all_advice(shortfalls(all))
}

fn push_advice(lines: &mut Vec<Line>, d: &Detail)
    ensures
        shown(final(lines)@) == shown(old(lines)@) + advice_lines(detail_view(*d)),
{
    broadcast use group_concat;
    let ghost start = shown(lines@);
    if let Some(advice) = d.advice {
        let mut name = text("perf::quality  ");
        name.append(d.name);
        name.append("=");
        push_dec(&mut name, d.score as u64);
        name.append("/20");
        let fields = vec![value("hint", advice)];
        assert(field_texts(fields@) =~= seq![("hint"@, advice@)]);
        push_values(lines, name, fields);
    }
    assert(shown(lines@) =~= start + advice_lines(detail_view(*d)));
}

fn push_quality(lines: &mut Vec<Line>, q: &QualityScore, all: Ghost<Seq<Scored>>)
    requires
        q.total == total_of(all@),
        q.rating@ == rating_of(q.total as nat),
        details_view(q.details@) == shortfalls(all@),
    ensures
        shown(final(lines)@) == shown(old(lines)@) + quality_lines(all@),
{
    broadcast use group_concat;
    let ghost start = shown(lines@);
    let mut score = dec_string(q.total as u64);
    score.append("/100");
    let fields = vec![Field { name: "score", value: score }, value("rating", q.rating)];
    assert(field_texts(fields@) =~= seq![
        ("score"@, dec(total_of(all@)) + "/100"@),
        ("rating"@, rating_of(total_of(all@))),
    ]);
    push_values(lines, text("perf::quality"), fields);
    let ghost mid = shown(lines@);
    let ghost told = details_view(q.details@);
    assert(mid + all_advice(told.take(0)) =~= mid);
    let mut i: usize = 0;
    while i < q.details.len()
        invariant
            i <= q.details@.len(),
            told == details_view(q.details@),
            shown(lines@) == mid + all_advice(told.take(i as int)),
        decreases q.details@.len() - i,
    {
        push_advice(lines, &q.details[i]);
        assert(told.take(i + 1).drop_last() =~= told.take(i as int));
        i = i + 1;
    }
    assert(told.take(i as int) =~= told);
    assert(shown(lines@) =~= start + quality_lines(all@));
}

/// The statistics of all sizes.
pub open spec fn stats_of(v: Seq<AllocTimes>) -> Seq<LatencyStats> {
    Seq::new(v.len(), |i: int| v[i].stats)
}

/// The drift in percent without its sign; zero where there is none.
pub open spec fn drift_size(d: Option<Drift>) -> Parts {
    match d {
        Some(d) => d.pct.size@,
        None => (0, 0),
    }
}

/// The sides of the quality of allocation times.
pub open spec fn quality_sides(v: Seq<AllocTimes>, f: Findings) -> Seq<Scored> {
    sides(stats_of(v), drift_size(f.drift), f.warmup_ok)
}

/// The report of allocation times.
pub open spec fn alloc_lines(v: Seq<AllocTimes>, f: Findings) -> Seq<Shown> {
    bimodal_lines(v) + seq![alloc_table(v)] + model_lines(f.regression) + scaling_lines(v)
        + shape_lines(f.shape) + entropy_lines(f.entropy) + drift_lines(f.drift) + warmup_lines(
        f.warmup_ok,
    ) + correlation_lines(f.correlation, f.samples as nat) + convergence_lines(f.prefixes@)
        + quality_lines(quality_sides(v, f))
}

/// What is kept of allocation times.
#[derive(Clone, Debug)]
pub struct PerfAnalysis {
    pub stats: Vec<SizeStats>,
    pub regression: Option<Fit>,
    pub quality_score: u32,
    pub quality_rating: &'static str,
    /// Zero where there is none.
    pub drift_pct: Signed,
    pub autocorr_r: Option<Signed>,
    pub ess: Option<Double>,
    pub pool_estimate: Option<PoolEstimate>,
}

impl PerfAnalysis {
    /// Whether this is what is kept of the times.
    pub open spec fn of(self, v: Seq<AllocTimes>, f: Findings) -> bool {
        &&& self.stats@.len() == v.len()
        &&& forall|i: int|
            0 <= i < v.len() ==> (#[trigger] self.stats@[i]) == (SizeStats {
                size: v[i].size,
                latency: v[i].stats,
            })
        &&& self.regression == f.regression
        &&& self.quality_score == total_of(quality_sides(v, f))
        &&& self.quality_rating@ == rating_of(self.quality_score as nat)
        &&& self.drift_pct == match f.drift {
            Some(d) => d.pct,
            None => Signed { negative: false, size: Double { mant: 0, exp: 0 } },
        }
        &&& self.autocorr_r == match f.correlation {
            Some(c) => Some(c.lag),
            None => None,
        }
        &&& self.ess == match f.correlation {
            Some(c) => Some(c.ess),
            None => None,
        }
        &&& self.pool_estimate == f.pool
    }
}

/// The report of allocation times, and what is kept of them.
pub fn alloc_report(times: &[AllocTimes], f: &Findings) -> (r: (Vec<Line>, PerfAnalysis))
    requires
        f.wf(),
        forall|i: int| 0 <= i < times@.len() ==> times_wf(#[trigger] times@[i]),
        sample_number(stats_of(times@)) <= usize::MAX,
        outlier_number(stats_of(times@)) <= usize::MAX,
    ensures
        shown(r.0@) == alloc_lines(times@, *f),
        r.1.of(times@, *f),
{
    broadcast use group_concat;
    let mut lines: Vec<Line> = Vec::new();
    assert(shown(lines@) =~= Seq::empty());
    push_times(&mut lines, times);
    assert(shown(lines@) =~= bimodal_lines(times@) + seq![alloc_table(times@)]);
    push_model(&mut lines, &f.regression);
    push_scaling(&mut lines, times);
    push_shape(&mut lines, &f.shape);
    push_entropy(&mut lines, &f.entropy);
    push_drift(&mut lines, &f.drift);
    push_warmup(&mut lines, f.warmup_ok);
    push_correlation(&mut lines, &f.correlation, f.samples);
    push_convergence(&mut lines, f.prefixes.as_slice());
    let drift_pct = match &f.drift {
        Some(d) => d.pct,
        None => Signed { negative: false, size: Double { mant: 0, exp: 0 } },
    };
    let mut all: Vec<LatencyStats> = Vec::new();
    let mut stats: Vec<SizeStats> = Vec::new();
    let mut i: usize = 0;
    while i < times.len()
        invariant
            i <= times@.len(),
            all@ == stats_of(times@).take(i as int),
            stats@.len() == i,
            forall|j: int|
                0 <= j < i ==> (#[trigger] stats@[j]) == (SizeStats {
                    size: times@[j].size,
                    latency: times@[j].stats,
                }),
        decreases times@.len() - i,
    {
        all.push(times[i].stats);
        stats.push(SizeStats { size: times[i].size, latency: times[i].stats });
        assert(all@ =~= stats_of(times@).take(i + 1));
        i = i + 1;
    }
    proof {
        assert(all@ =~= stats_of(times@));
        assert forall|j: int| 0 <= j < all@.len() implies (#[trigger] all@[j]).cv_pct.wf() by {
            assert(times_wf(times@[j]));
        }
    }
    let q = quality_scorecard(all.as_slice(), drift_pct.size, f.warmup_ok);
    assert(drift_pct.size@ == drift_size(f.drift));
    push_quality(&mut lines, &q, Ghost(quality_sides(times@, *f)));
    let (autocorr_r, ess) = match &f.correlation {
        Some(c) => (Some(c.lag), Some(c.ess)),
        None => (None, None),
    };
    let kept = PerfAnalysis {
        stats,
        regression: f.regression,
        quality_score: q.total,
        quality_rating: q.rating,
        drift_pct,
        autocorr_r,
        ess,
        pool_estimate: f.pool,
    };
    (lines, kept)
}

/// A drift is warned of just where it is above ten percent, and is called better or worse by
/// its sign, which is told with it.
pub proof fn law_drift_warning(d: Drift) -> (rest: Seq<(Seq<char>, Seq<char>)>)
    ensures
        exact_value(d.pct.size@) <= 10real ==> drift_lines(Some(d)).len() == 0,
        exact_value(d.pct.size@) > 10real && d.pct.negative ==> drift_lines(Some(d)) == seq![
            Shown::Values(
                "perf::drift_warn (improving)"@,
                seq![("drift"@, "-"@ + tenths_text(scaled(d.pct.size@, 10)) + "%"@)] + rest,
            ),
        ],
        exact_value(d.pct.size@) > 10real && !d.pct.negative ==> drift_lines(Some(d)) == seq![
            Shown::Values(
                "perf::drift_warn (degrading)"@,
                seq![("drift"@, "+"@ + tenths_text(scaled(d.pct.size@, 10)) + "%"@)] + rest,
            ),
        ],
        rest.len() == 2,
        rest[0] == ("1st_half"@, dec(d.first_us as nat)),
        rest[1] == ("2nd_half"@, dec(d.second_us as nat)),
{
    law_of_int(10);
    law_less(of_int(10), d.pct.size@);
    let rest = seq![
        ("1st_half"@, dec(d.first_us as nat)),
        ("2nd_half"@, dec(d.second_us as nat)),
    ];
    let sign = if d.pct.negative {
        "-"@
    } else {
        "+"@
    };
    let first = ("drift"@, sign + tenths_text(scaled(d.pct.size@, 10)) + "%"@);
    assert(seq![first] + rest =~= seq![first, rest[0], rest[1]]);
    rest
}

/// A warm-up that was too short is warned of, and no other.
pub proof fn law_warmup_warning(ok: bool)
    ensures
        warmup_lines(ok).len() == 0 <==> ok,
{
}

/// The prefixes of a run grow from a quarter to all of it.
pub proof fn law_prefixes_grow(n: nat)
    requires
        n >= 20,
    ensures
        prefix_counts(n).len() == 4,
        4 * prefix_counts(n)[0] <= n < 4 * prefix_counts(n)[0] + 4,
        2 * prefix_counts(n)[1] <= n < 2 * prefix_counts(n)[1] + 2,
        4 * prefix_counts(n)[2] <= 3 * n < 4 * prefix_counts(n)[2] + 4,
        prefix_counts(n)[3] == n,
{
}

} // verus!
