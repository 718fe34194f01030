//! How far measurements can be relied on.
use crate::double::{less, of_int, product, quotient, Double, Parts};
use crate::exact::{law_less, law_of_int, law_percent, near, value};
use crate::stats::LatencyStats;
use vstd::prelude::*;

verus! {

/// A limit, and the score below it.
#[derive(Clone, Copy, Debug)]
pub struct Threshold {
    pub limit: Double,
    pub score: u32,
}

/// A limit, and what to advise from it on.
#[derive(Clone, Copy, Debug)]
pub struct Advice {
    pub from: Double,
    pub text: &'static str,
}

/// Which threshold a value is the first below, or their number.
pub open spec fn level(value: Parts, t: Seq<Threshold>) -> int
    decreases t.len(),
{
    if t.len() == 0 || less(value, t[0].limit@) {
        0
    } else {
        1 + level(value, t.skip(1))
    }
}

/// Which advice a value is the first to reach, or their number.
pub open spec fn advised(value: Parts, a: Seq<Advice>) -> int
    decreases a.len(),
{
    if a.len() == 0 || !less(value, a[0].from@) {
        0
    } else {
        1 + advised(value, a.skip(1))
    }
}

/// A score with its advice, as text.
pub type Scored = (u32, Option<Seq<char>>);

/// The score of a value: that of the first threshold that it is below, with the first
/// advice that it reaches; else the least score, with the last advice.
pub open spec fn scored(
    value: Parts,
    t: Seq<Threshold>,
    floor: u32,
    a: Seq<Advice>,
    fallback: Seq<char>,
) -> Scored {
    let i = level(value, t);
    let k = advised(value, a);
    if i >= t.len() {
        (floor, Some(fallback))
    } else if k >= a.len() {
        (t[i].score, None)
    } else {
        (t[i].score, Some(a[k].text@))
    }
}

/// Whether limits can be compared with.
pub open spec fn thresholds_wf(t: Seq<Threshold>) -> bool {
    forall|i: int| 0 <= i < t.len() ==> (#[trigger] t[i]).limit.wf()
}

/// Whether limits of advice can be compared with.
pub open spec fn advice_wf(a: Seq<Advice>) -> bool {
    forall|i: int| 0 <= i < a.len() ==> (#[trigger] a[i]).from.wf()
}

/// A score with its advice.
pub open spec fn score_view(r: (u32, Option<&'static str>)) -> Scored {
    (
        r.0,
        match r.1 {
            Some(s) => Some(s@),
            None => None,
        },
    )
}

/// The score of a value against thresholds, with advice.
pub fn score_threshold(
    value: Double,
    thresholds: &[Threshold],
    floor: u32,
    recs: &[Advice],
    fallback_rec: &'static str,
) -> (r: (u32, Option<&'static str>))
    requires
        value.wf(),
        thresholds_wf(thresholds@),
        advice_wf(recs@),
    ensures
        score_view(r) == scored(value@, thresholds@, floor, recs@, fallback_rec@),
{
    let mut i: usize = 0;
    assert(thresholds@.skip(0) =~= thresholds@);
    while i < thresholds.len() && !value.is_less(thresholds[i].limit)
        invariant
            i <= thresholds@.len(),
            value.wf(),
            thresholds_wf(thresholds@),
            level(value@, thresholds@) == i + level(value@, thresholds@.skip(i as int)),
        decreases thresholds@.len() - i,
    {
        proof {
            assert(thresholds@.skip(i as int).skip(1) =~= thresholds@.skip(i + 1));
        }
        i = i + 1;
    }
    if i >= thresholds.len() {
        return (floor, Some(fallback_rec));
    }
    let mut k: usize = 0;
    assert(recs@.skip(0) =~= recs@);
    while k < recs.len() && value.is_less(recs[k].from)
        invariant
            k <= recs@.len(),
            value.wf(),
            advice_wf(recs@),
            advised(value@, recs@) == k + advised(value@, recs@.skip(k as int)),
        decreases recs@.len() - k,
    {
        proof {
            assert(recs@.skip(k as int).skip(1) =~= recs@.skip(k + 1));
        }
        k = k + 1;
    }
    if k < recs.len() {
        (thresholds[i].score, Some(recs[k].text))
    } else {
        (thresholds[i].score, None)
    }
}

/// The larger of two values.
pub open spec fn greater(a: Parts, b: Parts) -> Parts {
    if less(a, b) {
        b
    } else {
        a
    }
}

/// The largest spread, in percent of the average.
pub open spec fn max_cv(s: Seq<LatencyStats>) -> Parts
    decreases s.len(),
{
    if s.len() == 0 {
        (0, 0)
    } else {
        greater(max_cv(s.drop_last()), s.last().cv_pct@)
    }
}

/// The width of a confidence interval, in percent of the average.
pub open spec fn relative_ci(s: LatencyStats) -> Parts {
    product(quotient(of_int(s.ci95_us as nat), of_int(s.avg_us as nat)), of_int(100))
}

/// The widest confidence interval, in percent of its average, where that is not zero.
pub open spec fn max_ci(s: Seq<LatencyStats>) -> Parts
    decreases s.len(),
{
    if s.len() == 0 {
        (0, 0)
    } else if s.last().avg_us == 0 {
        max_ci(s.drop_last())
    } else {
        greater(max_ci(s.drop_last()), relative_ci(s.last()))
    }
}

/// The samples in all.
pub open spec fn sample_number(s: Seq<LatencyStats>) -> nat
    decreases s.len(),
{
    if s.len() == 0 {
        0
    } else {
        sample_number(s.drop_last()) + s.last().count as nat
    }
}

/// The outliers in all.
pub open spec fn outlier_number(s: Seq<LatencyStats>) -> nat
    decreases s.len(),
{
    if s.len() == 0 {
        0
    } else {
        outlier_number(s.drop_last()) + s.last().outlier_count as nat
    }
}

/// The outliers, in percent of the samples.
pub open spec fn outlier_share(s: Seq<LatencyStats>) -> Parts {
    if sample_number(s) == 0 {
        (0, 0)
    } else {
        product(
            quotient(of_int(outlier_number(s)), of_int(sample_number(s))),
            of_int(100),
        )
    }
}

/// A whole number of percent.
pub open spec fn percent(n: nat) -> Parts {
    of_int(n)
}

/// The score for stability, by the spread.
pub open spec fn stability(p: Parts) -> Scored {
    if less(p, percent(5)) {
        (20, None)
    } else if less(p, percent(10)) {
        (16, None)
    } else if less(p, percent(20)) {
        (8, Some("cv>10%: increase --iterations or reduce load"@))
    } else if less(p, percent(30)) {
        (4, Some("cv>10%: increase --iterations or reduce load"@))
    } else {
        (0, Some("cv>30%: excessive noise, check for interference"@))
    }
}

/// The score for precision, by the confidence interval.
pub open spec fn precision(p: Parts) -> Scored {
    if less(p, percent(3)) {
        (20, None)
    } else if less(p, percent(10)) {
        (16, None)
    } else if less(p, percent(20)) {
        (8, Some("ci>10%: increase --iterations for tighter CI"@))
    } else {
        (0, Some("ci>20%: imprecise, need significantly more iterations"@))
    }
}

/// The score for cleanliness, by the share of outliers.
pub open spec fn cleanliness(p: Parts) -> Scored {
    if less(p, percent(1)) {
        (20, None)
    } else if less(p, percent(5)) {
        (16, None)
    } else if less(p, percent(10)) {
        (8, Some("outliers>5%: consider --drop-caches or isolcpus"@))
    } else {
        (0, Some("outliers>10%: heavy interference, isolate workload"@))
    }
}

/// The score for stationarity, by the drift.
pub open spec fn stationarity(p: Parts) -> Scored {
    if less(p, percent(5)) {
        (20, None)
    } else if less(p, percent(10)) {
        (12, None)
    } else if less(p, percent(20)) {
        (4, Some("drift>10%: increase --warmup or shorten test"@))
    } else {
        (0, Some("drift>20%: thermal throttling or memory pressure"@))
    }
}

/// The score for the warm-up.
pub open spec fn warmup_score(ok: bool) -> Scored {
    if ok {
        (20, None)
    } else {
        (0, Some("warmup insufficient: increase --warmup"@))
    }
}

/// How a total is rated.
pub open spec fn rating_of(total: nat) -> Seq<char> {
    if 90 <= total <= 100 {
        "EXCELLENT"@
    } else if 75 <= total < 90 {
        "GOOD"@
    } else if 50 <= total < 75 {
        "FAIR"@
    } else {
        "NOISY"@
    }
}

/// A side of the quality: its name, its score and what to advise.
#[derive(Clone, Copy, Debug)]
pub struct Detail {
    pub name: &'static str,
    pub score: u32,
    pub advice: Option<&'static str>,
}

/// The quality of measurements.
#[derive(Debug)]
pub struct QualityScore {
    pub total: u32,
    pub rating: &'static str,
    /// The sides that fall short of the full score.
    pub details: Vec<Detail>,
}

/// A side of the quality, as text.
pub open spec fn detail_view(d: Detail) -> (Seq<char>, Scored) {
    (d.name@, score_view((d.score, d.advice)))
}

/// Several sides of the quality.
pub open spec fn details_view(v: Seq<Detail>) -> Seq<(Seq<char>, Scored)> {
    Seq::new(v.len(), |i: int| detail_view(v[i]))
}

/// A side where it falls short.
pub open spec fn shortfall(name: Seq<char>, s: Scored) -> Seq<(Seq<char>, Scored)> {
    if s.0 < 20 {
        seq![(name, s)]
    } else {
        Seq::empty()
    }
}

/// The scores on all sides.
pub open spec fn sides(s: Seq<LatencyStats>, drift: Parts, warmup_ok: bool) -> Seq<Scored> {
    seq![
        stability(max_cv(s)),
        precision(max_ci(s)),
        cleanliness(outlier_share(s)),
        stationarity(drift),
        warmup_score(warmup_ok),
    ]
}

/// The total of the scores.
pub open spec fn total_of(v: Seq<Scored>) -> nat {
    (v[0].0 + v[1].0 + v[2].0 + v[3].0 + v[4].0) as nat
}

/// The sides that fall short.
pub open spec fn shortfalls(v: Seq<Scored>) -> Seq<(Seq<char>, Scored)> {
    shortfall("stability"@, v[0]) + shortfall("precision"@, v[1]) + shortfall("cleanliness"@, v[2])
        + shortfall("stationarity"@, v[3]) + shortfall("warmup"@, v[4])
}

/// The five sides count up to twenty each, so that the total is at most a hundred, and a
/// hundred only where none falls short.
pub proof fn law_score_range(s: Seq<LatencyStats>, drift: Parts, warmup_ok: bool)
    ensures
        total_of(sides(s, drift, warmup_ok)) <= 100,
        total_of(sides(s, drift, warmup_ok)) == 100 <==> shortfalls(
            sides(s, drift, warmup_ok),
        ).len() == 0,
{
}

/// The spread that is scored is the largest of all: no statistics have a larger one, and it
/// is that of some, or none where there are no statistics with a spread.
pub proof fn law_spread_is_the_largest(s: Seq<LatencyStats>)
    ensures
        forall|i: int| 0 <= i < s.len() ==> value((#[trigger] s[i]).cv_pct@) <= value(max_cv(s)),
        max_cv(s) == (0nat, 0int) || exists|i: int|
            0 <= i < s.len() && max_cv(s) == (#[trigger] s[i]).cv_pct@,
    decreases s.len(),
{
    if s.len() > 0 {
        let t = s.drop_last();
        law_spread_is_the_largest(t);
        law_less(max_cv(t), s.last().cv_pct@);
        assert forall|i: int| 0 <= i < s.len() implies value((#[trigger] s[i]).cv_pct@) <= value(
            max_cv(s),
        ) by {
            if i < t.len() {
                assert(t[i] == s[i]);
            }
        }
        if max_cv(s) == s.last().cv_pct@ {
            assert(s[s.len() - 1] == s.last());
        } else if max_cv(t) != (0nat, 0int) {
            let i = choose|i: int| 0 <= i < t.len() && max_cv(t) == (#[trigger] t[i]).cv_pct@;
            assert(s[i] == t[i]);
        }
    }
}

/// The interval that is scored is the widest of all, in percent of its average, of those
/// with an average.
pub proof fn law_interval_is_the_widest(s: Seq<LatencyStats>)
    ensures
        forall|i: int|
            0 <= i < s.len() && (#[trigger] s[i]).avg_us > 0 ==> value(relative_ci(s[i])) <= value(
                max_ci(s),
            ),
        max_ci(s) == (0nat, 0int) || exists|i: int|
            0 <= i < s.len() && (#[trigger] s[i]).avg_us > 0 && max_ci(s) == relative_ci(s[i]),
    decreases s.len(),
{
    if s.len() > 0 {
        let t = s.drop_last();
        law_interval_is_the_widest(t);
        law_less(max_ci(t), relative_ci(s.last()));
        assert forall|i: int| 0 <= i < s.len() && (#[trigger] s[i]).avg_us > 0 implies value(
            relative_ci(s[i]),
        ) <= value(max_ci(s)) by {
            if i < t.len() {
                assert(t[i] == s[i]);
            }
        }
        if s.last().avg_us > 0 && max_ci(s) == relative_ci(s.last()) {
            assert(s[s.len() - 1] == s.last());
        } else if max_ci(t) != (0nat, 0int) {
            let i = choose|i: int|
                0 <= i < t.len() && (#[trigger] t[i]).avg_us > 0 && max_ci(t) == relative_ci(t[i]);
            assert(s[i] == t[i]);
        }
    }
}

/// How wide an interval is taken to be is near a hundred times its width in parts of the
/// average.
pub proof fn law_interval_in_percent(s: LatencyStats)
    requires
        s.avg_us > 0,
    ensures
        near(value(relative_ci(s)), (s.ci95_us as real) / (s.avg_us as real) * 100real, 8),
{
    law_percent(s.ci95_us as nat, s.avg_us as nat);
}

/// The outliers are taken in percent of all samples.
pub proof fn law_outliers_in_percent(s: Seq<LatencyStats>)
    ensures
        sample_number(s) > 0 ==> near(
            value(outlier_share(s)),
            (outlier_number(s) as real) / (sample_number(s) as real) * 100real,
            8,
        ),
        sample_number(s) == 0 ==> outlier_share(s) == (0nat, 0int),
{
    if sample_number(s) > 0 {
        law_percent(outlier_number(s), sample_number(s));
    }
}

/// The samples and the outliers are counted over all statistics, in whatever order.
pub proof fn law_samples_add_up(s: Seq<LatencyStats>, t: Seq<LatencyStats>)
    ensures
        sample_number(s + t) == sample_number(s) + sample_number(t),
        outlier_number(s + t) == outlier_number(s) + outlier_number(t),
        s.len() == 1 ==> sample_number(s) == s[0].count && outlier_number(s)
            == s[0].outlier_count,
    decreases t.len(),
{
    if t.len() > 0 {
        assert((s + t).drop_last() =~= s + t.drop_last());
        law_samples_add_up(s, t.drop_last());
    } else {
        assert(s + t =~= s);
    }
    if s.len() == 1 {
        assert(s.drop_last() =~= Seq::empty());
        assert(sample_number(s.drop_last()) == 0 && outlier_number(s.drop_last()) == 0);
    }
}

/// What each side scores: the full twenty below a small share, less above it, and nothing
/// from a large one on.
pub proof fn law_points(p: Parts)
    ensures
        value(p) < 5real ==> stability(p).0 == 20 && stationarity(p).0 == 20,
        5real <= value(p) < 10real ==> stability(p).0 == 16 && stationarity(p).0 == 12,
        10real <= value(p) < 20real ==> stability(p).0 == 8 && stationarity(p).0 == 4,
        20real <= value(p) < 30real ==> stability(p).0 == 4,
        value(p) >= 20real ==> stationarity(p).0 == 0 && precision(p).0 == 0,
        value(p) >= 30real ==> stability(p).0 == 0,
        value(p) < 3real ==> precision(p).0 == 20,
        3real <= value(p) < 10real ==> precision(p).0 == 16,
        10real <= value(p) < 20real ==> precision(p).0 == 8,
        value(p) < 1real ==> cleanliness(p).0 == 20,
        1real <= value(p) < 5real ==> cleanliness(p).0 == 16,
        5real <= value(p) < 10real ==> cleanliness(p).0 == 8,
        value(p) >= 10real ==> cleanliness(p).0 == 0,
        value(p) >= 10real ==> stability(p).1 is Some && precision(p).1 is Some
            && cleanliness(p).1 is Some && stationarity(p).1 is Some,
{
    law_of_int(1);
    law_of_int(3);
    law_of_int(5);
    law_of_int(10);
    law_of_int(20);
    law_of_int(30);
    law_less(p, percent(1));
    law_less(p, percent(3));
    law_less(p, percent(5));
    law_less(p, percent(10));
    law_less(p, percent(20));
    law_less(p, percent(30));
}

/// Measurements of which any has a spread of thirty percent or more lose all points for
/// stability, and that is the first thing told of them.
pub proof fn law_noise_is_told(
    r: QualityScore,
    s: Seq<LatencyStats>,
    drift: Parts,
    warmup_ok: bool,
    i: int,
)
    requires
        r.total == total_of(sides(s, drift, warmup_ok)),
        details_view(r.details@) == shortfalls(sides(s, drift, warmup_ok)),
        0 <= i < s.len(),
        value(s[i].cv_pct@) >= 30real,
    ensures
        r.total <= 80,
        r.details@.len() > 0,
        r.details@[0].name@ == "stability"@,
        r.details@[0].score == 0,
        r.details@[0].advice is Some,
{
    law_spread_is_the_largest(s);
    law_points(max_cv(s));
    let v = sides(s, drift, warmup_ok);
    assert(shortfalls(v)[0] == ("stability"@, v[0]));
    assert(details_view(r.details@).len() == r.details@.len());
    assert(shortfalls(v).len() > 0);
    assert(details_view(r.details@)[0] == detail_view(r.details@[0]));
}

/// What each side of the quality costs: a drift of twenty percent or more, and a warm-up that
/// was too short, lose twenty points each; measurements with no fault on any side have a
/// hundred.
pub proof fn law_total_of_points(
    r: QualityScore,
    s: Seq<LatencyStats>,
    drift: Parts,
    warmup_ok: bool,
)
    requires
        r.total == total_of(sides(s, drift, warmup_ok)),
    ensures
        value(drift) >= 20real ==> r.total <= 80,
        !warmup_ok ==> r.total <= 80,
        value(drift) >= 20real && !warmup_ok ==> r.total <= 60,
        value(max_cv(s)) < 5real && value(max_ci(s)) < 3real && value(outlier_share(s)) < 1real
            && value(drift) < 5real && warmup_ok ==> r.total == 100,
        value(max_cv(s)) >= 30real && value(max_ci(s)) >= 20real && value(outlier_share(s))
            >= 10real && value(drift) >= 20real && !warmup_ok ==> r.total == 0,
{
    law_points(max_cv(s));
    law_points(max_ci(s));
    law_points(outlier_share(s));
    law_points(drift);
}

/// The rating goes by the total: at least ninety, seventy-five or fifty points of a hundred.
pub proof fn law_ratings(total: nat)
    requires
        total <= 100,
    ensures
        total >= 90 ==> rating_of(total) == "EXCELLENT"@,
        75 <= total < 90 ==> rating_of(total) == "GOOD"@,
        50 <= total < 75 ==> rating_of(total) == "FAIR"@,
        total < 50 ==> rating_of(total) == "NOISY"@,
{
}

fn stability_score(v: Double) -> (r: (u32, Option<&'static str>))
    requires
        v.wf(),
    ensures
        score_view(r) == stability(v@),
{
    if v.is_less(Double::from_int(5)) {
        (20, None)
    } else if v.is_less(Double::from_int(10)) {
        (16, None)
    } else if v.is_less(Double::from_int(20)) {
        (8, Some("cv>10%: increase --iterations or reduce load"))
    } else if v.is_less(Double::from_int(30)) {
        (4, Some("cv>10%: increase --iterations or reduce load"))
    } else {
        (0, Some("cv>30%: excessive noise, check for interference"))
    }
}

fn precision_score(v: Double) -> (r: (u32, Option<&'static str>))
    requires
        v.wf(),
    ensures
        score_view(r) == precision(v@),
{
    if v.is_less(Double::from_int(3)) {
        (20, None)
    } else if v.is_less(Double::from_int(10)) {
        (16, None)
    } else if v.is_less(Double::from_int(20)) {
        (8, Some("ci>10%: increase --iterations for tighter CI"))
    } else {
        (0, Some("ci>20%: imprecise, need significantly more iterations"))
    }
}

fn cleanliness_score(v: Double) -> (r: (u32, Option<&'static str>))
    requires
        v.wf(),
    ensures
        score_view(r) == cleanliness(v@),
{
    if v.is_less(Double::from_int(1)) {
        (20, None)
    } else if v.is_less(Double::from_int(5)) {
        (16, None)
    } else if v.is_less(Double::from_int(10)) {
        (8, Some("outliers>5%: consider --drop-caches or isolcpus"))
    } else {
        (0, Some("outliers>10%: heavy interference, isolate workload"))
    }
}

fn stationarity_score(v: Double) -> (r: (u32, Option<&'static str>))
    requires
        v.wf(),
    ensures
        score_view(r) == stationarity(v@),
{
    if v.is_less(Double::from_int(5)) {
        (20, None)
    } else if v.is_less(Double::from_int(10)) {
        (12, None)
    } else if v.is_less(Double::from_int(20)) {
        (4, Some("drift>10%: increase --warmup or shorten test"))
    } else {
        (0, Some("drift>20%: thermal throttling or memory pressure"))
    }
}

fn spread(all: &[LatencyStats]) -> (r: Double)
    requires
        forall|i: int| 0 <= i < all@.len() ==> (#[trigger] all@[i]).cv_pct.wf(),
    ensures
        r@ == max_cv(all@),
        r.wf(),
{
    let mut r = Double { mant: 0, exp: 0 };
    let mut i: usize = 0;
    assert(all@.take(0) =~= Seq::empty());
    while i < all.len()
        invariant
            i <= all@.len(),
            r.wf(),
            forall|k: int| 0 <= k < all@.len() ==> (#[trigger] all@[k]).cv_pct.wf(),
            r@ == max_cv(all@.take(i as int)),
        decreases all@.len() - i,
    {
        proof {
            assert(all@.take(i + 1).drop_last() =~= all@.take(i as int));
            assert(all@.take(i + 1).last() == all@[i as int]);
        }
        if r.is_less(all[i].cv_pct) {
            r = all[i].cv_pct;
        }
        i = i + 1;
    }
    assert(all@.take(all@.len() as int) =~= all@);
    r
}

fn widest_ci(all: &[LatencyStats]) -> (r: Double)
    ensures
        r@ == max_ci(all@),
        r.wf(),
{
    let mut r = Double { mant: 0, exp: 0 };
    let mut i: usize = 0;
    assert(all@.take(0) =~= Seq::empty());
    while i < all.len()
        invariant
            i <= all@.len(),
            r.wf(),
            r@ == max_ci(all@.take(i as int)),
        decreases all@.len() - i,
    {
        proof {
            assert(all@.take(i + 1).drop_last() =~= all@.take(i as int));
            assert(all@.take(i + 1).last() == all@[i as int]);
        }
        if all[i].avg_us > 0 {
            let p = Double::from_int(all[i].ci95_us).divided_by(
                Double::from_int(all[i].avg_us),
            ).times(Double::from_int(100));
            if r.is_less(p) {
                r = p;
            }
        }
        i = i + 1;
    }
    assert(all@.take(all@.len() as int) =~= all@);
    r
}

proof fn lemma_numbers_grow(s: Seq<LatencyStats>, n: int)
    requires
        0 <= n <= s.len(),
    ensures
        sample_number(s.take(n)) <= sample_number(s),
        outlier_number(s.take(n)) <= outlier_number(s),
    decreases s.len(),
{
    if n == s.len() {
        assert(s.take(n) =~= s);
    } else {
        lemma_numbers_grow(s.drop_last(), n);
        assert(s.drop_last().take(n) =~= s.take(n));
    }
}

fn outliers(all: &[LatencyStats]) -> (r: Double)
    requires
        sample_number(all@) <= usize::MAX,
        outlier_number(all@) <= usize::MAX,
    ensures
        r@ == outlier_share(all@),
        r.wf(),
{
    let mut samples: usize = 0;
    let mut found: usize = 0;
    let mut i: usize = 0;
    assert(all@.take(0) =~= Seq::empty());
    while i < all.len()
        invariant
            i <= all@.len(),
            sample_number(all@) <= usize::MAX,
            outlier_number(all@) <= usize::MAX,
            samples == sample_number(all@.take(i as int)),
            found == outlier_number(all@.take(i as int)),
        decreases all@.len() - i,
    {
        proof {
            lemma_numbers_grow(all@, i + 1);
            assert(all@.take(i + 1).drop_last() =~= all@.take(i as int));
            assert(all@.take(i + 1).last() == all@[i as int]);
        }
        samples = samples + all[i].count;
        found = found + all[i].outlier_count;
        i = i + 1;
    }
    assert(all@.take(all@.len() as int) =~= all@);
    if samples == 0 {
        return Double { mant: 0, exp: 0 };
    }
    Double::from_int(found as u64).divided_by(Double::from_int(samples as u64)).times(
        Double::from_int(100),
    )
}

fn push_detail(v: &mut Vec<Detail>, name: &'static str, s: (u32, Option<&'static str>))
    ensures
        details_view(final(v)@) == details_view(old(v)@) + shortfall(name@, score_view(s)),
{
    let ghost before = details_view(v@);
    if s.0 < 20 {
        v.push(Detail { name, score: s.0, advice: s.1 });
    }
    assert(details_view(v@) =~= before + shortfall(name@, score_view(s)));
}

fn rating(total: u32) -> (s: &'static str)
    ensures
        s@ == rating_of(total as nat),
{
    if 90 <= total && total <= 100 {
        "EXCELLENT"
    } else if 75 <= total && total < 90 {
        "GOOD"
    } else if 50 <= total && total < 75 {
        "FAIR"
    } else {
        "NOISY"
    }
}

/// The quality of measurements: twenty points each for stability, precision,
/// cleanliness, stationarity and warm-up. `drift` is the drift in percent, without its
/// sign.
pub fn quality_scorecard(all_stats: &[LatencyStats], drift: Double, warmup_ok: bool) -> (r:
    QualityScore)
    requires
        drift.wf(),
        forall|i: int| 0 <= i < all_stats@.len() ==> (#[trigger] all_stats@[i]).cv_pct.wf(),
        sample_number(all_stats@) <= usize::MAX,
        outlier_number(all_stats@) <= usize::MAX,
    ensures
        r.total == total_of(sides(all_stats@, drift@, warmup_ok)),
        r.rating@ == rating_of(r.total as nat),
        details_view(r.details@) == shortfalls(sides(all_stats@, drift@, warmup_ok)),
{
    let s0 = stability_score(spread(all_stats));
    let s1 = precision_score(widest_ci(all_stats));
    let s2 = cleanliness_score(outliers(all_stats));
    let s3 = stationarity_score(drift);
    let s4: (u32, Option<&'static str>) = if warmup_ok {
        (20, None)
    } else {
        (0, Some("warmup insufficient: increase --warmup"))
    };
    let ghost all = sides(all_stats@, drift@, warmup_ok);
    proof {
        assert(score_view(s0) == all[0]);
        assert(score_view(s1) == all[1]);
        assert(score_view(s2) == all[2]);
        assert(score_view(s3) == all[3]);
        assert(score_view(s4) == all[4]);
    }
    let total: u32 = s0.0 + s1.0 + s2.0 + s3.0 + s4.0;
    let mut details: Vec<Detail> = Vec::new();
    assert(details_view(details@) =~= Seq::empty());
    push_detail(&mut details, "stability", s0);
    push_detail(&mut details, "precision", s1);
    push_detail(&mut details, "cleanliness", s2);
    push_detail(&mut details, "stationarity", s3);
    push_detail(&mut details, "warmup", s4);
    assert(details_view(details@) =~= shortfalls(all));
    QualityScore { total, rating: rating(total), details }
}

} // verus!
