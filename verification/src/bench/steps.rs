//! Jumps and drops of the allocation time between neighbouring sizes.
use crate::double::{
    held_int, int_difference, less, of_int, product, quotient, rounded_up, Double, Parts,
};
use crate::exact::{
    law_less, law_near_low, law_near_small, law_of_int, law_percent, law_percent_ends, law_scaled,
    lemma_divided, lemma_mul_strict, lemma_near_more, lemma_near_same, lemma_real_product, near,
    value,
};
use crate::histogram::bit_len;
use vstd::arithmetic::power2::{lemma2_to64, lemma_pow2_pos, lemma_pow2_unfold, pow2};
use vstd::prelude::*;

verus! {

/// A jump of the time between two sizes.
#[derive(Clone, Copy, Debug)]
pub struct OrderStep {
    pub size_from: u64,
    pub size_to: u64,
    pub avg_from: u64,
    pub avg_to: u64,
    /// The order of the smallest block that holds the larger size.
    pub order: u32,
    /// By how much the time grows, in percent to one decimal.
    pub increase_pct: Double,
}

/// A drop of the time from one size to the next larger one.
#[derive(Clone, Copy, Debug)]
pub struct Inversion {
    pub smaller_size: u64,
    pub larger_size: u64,
    pub smaller_avg: u64,
    pub larger_avg: u64,
    /// By how much the time falls, in percent to one decimal.
    pub decrease_pct: Double,
}

/// By how many percent `more` exceeds `base`, in percent of `of`.
pub open spec fn excess(more: nat, base: nat, of: nat) -> Parts {
    product(quotient(int_difference(more, base), of_int(of)), of_int(100))
}

/// A number of percent to one decimal.
pub open spec fn to_tenth(p: Parts) -> Parts {
    quotient(rounded_up(product(p, of_int(10))), of_int(10))
}

/// The pages that a size takes.
pub open spec fn page_number(size: nat) -> nat {
    ((size + 4095) / 4096) as nat
}

/// The order of the smallest block of pages that holds a size.
pub open spec fn order_of(size: nat) -> nat {
    if page_number(size) <= 1 {
        0
    } else {
        bit_len((page_number(size) - 1) as nat)
    }
}

/// Whether two neighbouring points are a jump above a threshold.
pub open spec fn jumps(a: (u64, u64), b: (u64, u64), threshold: Parts) -> bool {
    a.1 > 0 && less(threshold, excess(b.1 as nat, a.1 as nat, a.1 as nat))
}

/// Whether a step is that of two neighbouring points.
pub open spec fn is_step(s: OrderStep, a: (u64, u64), b: (u64, u64)) -> bool {
    &&& s.size_from == a.0
    &&& s.size_to == b.0
    &&& s.avg_from == a.1
    &&& s.avg_to == b.1
    &&& s.order == order_of(b.0 as nat)
    &&& s.increase_pct@ == to_tenth(excess(b.1 as nat, a.1 as nat, a.1 as nat))
    &&& s.increase_pct.wf()
}

/// The points where jumps begin, in order.
pub open spec fn jump_points(points: Seq<(u64, u64)>, threshold: Parts) -> Seq<int>
    decreases points.len(),
{
    if points.len() < 2 {
        Seq::empty()
    } else {
        let n = points.len() as int;
        let before = jump_points(points.drop_last(), threshold);
        if jumps(points[n - 2], points[n - 1], threshold) {
            before.push(n - 2)
        } else {
            before
        }
    }
}

/// How much the time grows behind a point.
pub open spec fn growth(points: Seq<(u64, u64)>, i: int) -> Parts {
    to_tenth(excess(points[i + 1].1 as nat, points[i].1 as nat, points[i].1 as nat))
}

/// Where a jump goes among others in descending order: behind all that are not smaller.
pub open spec fn place(points: Seq<(u64, u64)>, sorted: Seq<int>, i: int) -> int
    decreases sorted.len(),
{
    if sorted.len() == 0 || less(growth(points, sorted[0]), growth(points, i)) {
        0
    } else {
        1 + place(points, sorted.skip(1), i)
    }
}

/// Jumps in descending order; of equal ones the first stays first.
pub open spec fn descending(points: Seq<(u64, u64)>, v: Seq<int>) -> Seq<int>
    decreases v.len(),
{
    if v.len() == 0 {
        Seq::empty()
    } else {
        let before = descending(points, v.drop_last());
        before.insert(place(points, before, v.last()), v.last())
    }
}

/// Whether steps are those at the given points.
pub open spec fn steps_at(steps: Seq<OrderStep>, points: Seq<(u64, u64)>, at: Seq<int>) -> bool {
    &&& steps.len() == at.len()
    &&& forall|k: int| 0 <= k < at.len() ==> 0 <= #[trigger] at[k] < points.len() - 1
    &&& forall|k: int|
        0 <= k < steps.len() ==> is_step(#[trigger] steps[k], points[at[k]], points[at[k] + 1])
}

fn excess_of(more: u64, base: u64, of: u64) -> (r: Double)
    requires
        of > 0,
    ensures
        r@ == excess(more as nat, base as nat, of as nat),
        r.wf(),
        -300 <= r.exp <= 100,
{
    Double::difference(more, base).divided_by(Double::from_int(of)).times(Double::from_int(100))
}

fn tenth_of(d: Double) -> (r: Double)
    requires
        d.wf(),
        -300 <= d.exp <= 100,
    ensures
        r@ == to_tenth(d@),
        r.wf(),
{
    d.times(Double::from_int(10)).round().divided_by(Double::from_int(10))
}

/// The order of the smallest block of pages that holds a size.
pub fn buddy_order(size: u64) -> (r: u32)
    ensures
        r == order_of(size as nat),
{
    let pages: u64 = if size % 4096 == 0 {
        size / 4096
    } else {
        size / 4096 + 1
    };
    assert(pages == page_number(size as nat));
    if pages <= 1 {
        return 0;
    }
    let mut left: u64 = pages - 1;
    let mut bits: u32 = 0;
    proof {
        crate::histogram::lemma_bit_len((pages - 1) as nat);
    }
    while left > 0
        invariant
            bit_len((pages - 1) as nat) == bits + bit_len(left as nat),
            bit_len((pages - 1) as nat) <= 64,
        decreases left,
    {
        left = left / 2;
        bits = bits + 1;
    }
    bits
}

fn place_of(steps: &Vec<OrderStep>, x: Double) -> (r: usize)
    requires
        x.wf(),
        forall|k: int| 0 <= k < steps@.len() ==> (#[trigger] steps@[k]).increase_pct.wf(),
    ensures
        r <= steps@.len(),
        forall|points: Seq<(u64, u64)>, at: Seq<int>, i: int| #[trigger]
            steps_at(steps@, points, at) && growth(points, i) == x@ ==> r == #[trigger] place(
                points,
                at,
                i,
            ),
{
    let mut r: usize = 0;
    while r < steps.len() && !steps[r].increase_pct.is_less(x)
        invariant
            r <= steps@.len(),
            x.wf(),
            forall|k: int| 0 <= k < steps@.len() ==> (#[trigger] steps@[k]).increase_pct.wf(),
            forall|k: int| 0 <= k < r ==> !less((#[trigger] steps@[k]).increase_pct@, x@),
        decreases steps@.len() - r,
    {
        r = r + 1;
    }
    proof {
        assert forall|points: Seq<(u64, u64)>, at: Seq<int>, i: int| #[trigger]
            steps_at(steps@, points, at) && growth(points, i) == x@ implies r == #[trigger] place(
            points,
            at,
            i,
        ) by {
            assert forall|k: int| 0 <= k < at.len() implies growth(points, #[trigger] at[k])
                == steps@[k].increase_pct@ by {
                assert(is_step(steps@[k], points[at[k]], points[at[k] + 1]));
            }
            lemma_place(points, at, i, r as int);
        }
    }
    r
}

proof fn lemma_place(points: Seq<(u64, u64)>, at: Seq<int>, i: int, r: int)
    requires
        0 <= r <= at.len(),
        forall|k: int| 0 <= k < r ==> !less(growth(points, #[trigger] at[k]), growth(points, i)),
        r < at.len() ==> less(growth(points, at[r]), growth(points, i)),
    ensures
        place(points, at, i) == r,
    decreases at.len(),
{
    if at.len() > 0 && r > 0 {
        assert(!less(growth(points, at[0]), growth(points, i)));
        let rest = at.skip(1);
        assert forall|k: int| 0 <= k < r - 1 implies !less(
            growth(points, #[trigger] rest[k]),
            growth(points, i),
        ) by {
            assert(rest[k] == at[k + 1]);
        }
        lemma_place(points, rest, i, r - 1);
    }
}

/// The jumps above a threshold, in percent, between neighbouring points of sizes and
/// times; the largest first.
pub fn detect_order_steps(points: &[(u64, u64)], threshold_pct: Double) -> (r: Vec<OrderStep>)
    requires
        threshold_pct.wf(),
    ensures
        steps_at(r@, points@, descending(points@, jump_points(points@, threshold_pct@))),
{
    let mut steps: Vec<OrderStep> = Vec::new();
    let mut at: Ghost<Seq<int>> = Ghost(Seq::empty());
    let n: usize = points.len();
    if n < 2 {
        assert(descending(points@, jump_points(points@, threshold_pct@)) =~= Seq::empty());
        return steps;
    }
    let mut i: usize = 0;
    assert(jump_points(points@.take(1), threshold_pct@) =~= Seq::empty());
    while i < n - 1
        invariant
            n == points@.len(),
            i <= n - 1,
            threshold_pct.wf(),
            at@ == descending(points@, jump_points(points@.take(i + 1), threshold_pct@)),
            steps_at(steps@, points@, at@),
        decreases n - i,
    {
        let (size_from, avg_from) = points[i];
        let (size_to, avg_to) = points[i + 1];
        let ghost was = jump_points(points@.take(i + 1), threshold_pct@);
        let ghost now = points@.take(i + 2);
        proof {
            assert(now.drop_last() =~= points@.take(i + 1));
            assert(now[now.len() - 2] == points@[i as int]);
            assert(now[now.len() - 1] == points@[i + 1]);
        }
        if avg_from > 0 {
            let pct = excess_of(avg_to, avg_from, avg_from);
            if threshold_pct.is_less(pct) {
                let step = OrderStep {
                    size_from,
                    size_to,
                    avg_from,
                    avg_to,
                    order: buddy_order(size_to),
                    increase_pct: tenth_of(pct),
                };
                let ghost old_steps = steps@;
                let ghost old_at = at@;
                proof {
                    assert forall|k: int| 0 <= k < steps@.len() implies (
                    #[trigger] steps@[k]).increase_pct.wf() by {
                        assert(is_step(steps@[k], points@[at@[k]], points@[at@[k] + 1]));
                    }
                }
                let p: usize = place_of(&steps, step.increase_pct);
                proof {
                    assert(growth(points@, i as int) == step.increase_pct@);
                    assert(p == place(points@, at@, i as int));
                    assert(was.push(i as int).drop_last() =~= was);
                    at@ = old_at.insert(p as int, i as int);
                    assert(at@ == descending(points@, was.push(i as int)));
                }
                steps.insert(p, step);
                proof {
                    assert forall|k: int| 0 <= k < steps@.len() implies is_step(
                        #[trigger] steps@[k],
                        points@[at@[k]],
                        points@[at@[k] + 1],
                    ) by {
                        if k < p {
                            assert(is_step(
                                old_steps[k],
                                points@[old_at[k]],
                                points@[old_at[k] + 1],
                            ));
                        } else if k > p {
                            assert(is_step(
                                old_steps[k - 1],
                                points@[old_at[k - 1]],
                                points@[old_at[k - 1] + 1],
                            ));
                        }
                    }
                }
            }
        }
        i = i + 1;
    }
    assert(points@.take(i + 1) =~= points@);
    steps
}

/// Whether the time drops by more than ten percent from one point to the next.
pub open spec fn drops(a: (u64, u64), b: (u64, u64)) -> bool {
    a.1 > 0 && b.1 < a.1 && less(of_int(10), excess(a.1 as nat, b.1 as nat, a.1 as nat))
}

/// Whether an inversion is that of two neighbouring points.
pub open spec fn is_inversion(v: Inversion, a: (u64, u64), b: (u64, u64)) -> bool {
    &&& v.smaller_size == a.0
    &&& v.larger_size == b.0
    &&& v.smaller_avg == a.1
    &&& v.larger_avg == b.1
    &&& v.decrease_pct@ == to_tenth(excess(a.1 as nat, b.1 as nat, a.1 as nat))
    &&& v.decrease_pct.wf()
}

/// The points behind which the time drops, in order.
pub open spec fn drop_points(points: Seq<(u64, u64)>) -> Seq<int>
    decreases points.len(),
{
    if points.len() < 2 {
        Seq::empty()
    } else {
        let n = points.len() as int;
        let before = drop_points(points.drop_last());
        if drops(points[n - 2], points[n - 1]) {
            before.push(n - 2)
        } else {
            before
        }
    }
}

/// Whether inversions are those at the given points.
pub open spec fn inversions_at(v: Seq<Inversion>, points: Seq<(u64, u64)>, at: Seq<int>) -> bool {
    &&& v.len() == at.len()
    &&& forall|k: int| 0 <= k < at.len() ==> 0 <= #[trigger] at[k] < points.len() - 1
    &&& forall|k: int|
        0 <= k < v.len() ==> is_inversion(#[trigger] v[k], points[at[k]], points[at[k] + 1])
}

/// The drops of more than ten percent between neighbouring points, in order.
pub fn detect_inversions(points: &[(u64, u64)]) -> (r: Vec<Inversion>)
    ensures
        inversions_at(r@, points@, drop_points(points@)),
{
    let mut found: Vec<Inversion> = Vec::new();
    let mut at: Ghost<Seq<int>> = Ghost(Seq::empty());
    let n: usize = points.len();
    if n < 2 {
        assert(drop_points(points@) =~= Seq::empty());
        return found;
    }
    let mut i: usize = 0;
    assert(drop_points(points@.take(1)) =~= Seq::empty());
    while i < n - 1
        invariant
            n == points@.len(),
            i <= n - 1,
            at@ == drop_points(points@.take(i + 1)),
            inversions_at(found@, points@, at@),
        decreases n - i,
    {
        let (smaller_size, smaller_avg) = points[i];
        let (larger_size, larger_avg) = points[i + 1];
        let ghost now = points@.take(i + 2);
        let ghost old_at = at@;
        let ghost old_found = found@;
        proof {
            assert(now.drop_last() =~= points@.take(i + 1));
            assert(now[now.len() - 2] == points@[i as int]);
            assert(now[now.len() - 1] == points@[i + 1]);
        }
        if smaller_avg > 0 && larger_avg < smaller_avg {
            let pct = excess_of(smaller_avg, larger_avg, smaller_avg);
            if Double::from_int(10).is_less(pct) {
                found.push(
                    Inversion {
                        smaller_size,
                        larger_size,
                        smaller_avg,
                        larger_avg,
                        decrease_pct: tenth_of(pct),
                    },
                );
                proof {
                    at@ = old_at.push(i as int);
                    assert forall|k: int| 0 <= k < found@.len() implies is_inversion(
                        #[trigger] found@[k],
                        points@[at@[k]],
                        points@[at@[k] + 1],
                    ) by {
                        if k < old_found.len() {
                            assert(is_inversion(
                                old_found[k],
                                points@[old_at[k]],
                                points@[old_at[k] + 1],
                            ));
                        }
                    }
                }
            }
        }
        i = i + 1;
    }
    assert(points@.take(i + 1) =~= points@);
    found
}

proof fn lemma_less_asymmetric(a: Parts, b: Parts)
    requires
        less(a, b),
    ensures
        !less(b, a),
{
    vstd::arithmetic::power2::lemma2_to64();
    assert(a.0 * 1 == a.0 && b.0 * 1 == b.0);
}

/// Whether no jump is followed by a larger one.
pub open spec fn falling(points: Seq<(u64, u64)>, v: Seq<int>) -> bool {
    forall|k: int, m: int|
        0 <= k && m == k + 1 && m < v.len() ==> !less(
            growth(points, #[trigger] v[k]),
            growth(points, #[trigger] v[m]),
        )
}

proof fn lemma_insert_falling(points: Seq<(u64, u64)>, before: Seq<int>, x: int)
    requires
        falling(points, before),
    ensures
        falling(points, before.insert(place(points, before, x), x)),
{
    let p = place(points, before, x);
    lemma_place_bounds(points, before, x);
    let after = before.insert(p, x);
    assert forall|k: int, m: int| 0 <= k && m == k + 1 && m < after.len() implies !less(
        growth(points, #[trigger] after[k]),
        growth(points, #[trigger] after[m]),
    ) by {
        if m < p {
            assert(after[k] == before[k] && after[m] == before[m]);
        } else if m == p {
            assert(after[k] == before[k]);
        } else if k == p {
            assert(after[m] == before[p]);
            lemma_less_asymmetric(growth(points, before[p]), growth(points, x));
        } else {
            assert(after[k] == before[k - 1] && after[m] == before[m - 1]);
        }
    }
}

/// Jumps are listed largest first: none is followed by a larger one.
pub proof fn law_largest_first(points: Seq<(u64, u64)>, v: Seq<int>)
    ensures
        falling(points, descending(points, v)),
    decreases v.len(),
{
    if v.len() > 0 {
        law_largest_first(points, v.drop_last());
        lemma_insert_falling(points, descending(points, v.drop_last()), v.last());
    }
}

/// Listing jumps in order loses none and adds none.
pub proof fn law_jumps_kept(points: Seq<(u64, u64)>, v: Seq<int>)
    ensures
        descending(points, v).to_multiset() == v.to_multiset(),
    decreases v.len(),
{
    broadcast use vstd::seq_lib::group_to_multiset_ensures;
    if v.len() > 0 {
        let front = v.drop_last();
        let before = descending(points, front);
        let x = v.last();
        law_jumps_kept(points, front);
        lemma_place_bounds(points, before, x);
        assert(front.push(x) =~= v);
        lemma_insert_multiset(before, place(points, before, x), x);
    }
}

proof fn lemma_insert_multiset(s: Seq<int>, p: int, x: int)
    requires
        0 <= p <= s.len(),
    ensures
        s.insert(p, x).to_multiset() == s.to_multiset().insert(x),
{
    broadcast use vstd::seq_lib::group_to_multiset_ensures;
    let t = s.insert(p, x);
    assert(t.remove(p) =~= s);
    assert(t[p] == x);
    assert(t.contains(x));
    assert(t.to_multiset().remove(x).insert(x) =~= t.to_multiset());
}

proof fn lemma_place_bounds(points: Seq<(u64, u64)>, sorted: Seq<int>, i: int)
    ensures
        0 <= place(points, sorted, i) <= sorted.len(),
        place(points, sorted, i) > 0 ==> !less(
            growth(points, sorted[place(points, sorted, i) - 1]),
            growth(points, i),
        ),
        place(points, sorted, i) < sorted.len() ==> less(
            growth(points, sorted[place(points, sorted, i)]),
            growth(points, i),
        ),
    decreases sorted.len(),
{
    if sorted.len() > 0 && !less(growth(points, sorted[0]), growth(points, i)) {
        let rest = sorted.skip(1);
        lemma_place_bounds(points, rest, i);
        let q = place(points, rest, i);
        if q > 0 {
            assert(rest[q - 1] == sorted[q]);
        }
        if q < rest.len() {
            assert(rest[q] == sorted[q + 1]);
        }
    }
}

/// The excess of one time over another is a hundred times their difference in parts of a
/// third; without an excess it is nothing.
pub proof fn law_excess(more: nat, base: nat, of: nat)
    requires
        of > 0,
        more <= 0x20_0000_0000_0000,
        base <= 0x20_0000_0000_0000,
    ensures
        base <= more ==> near(
            value(excess(more, base, of)),
            ((more - base) as real) / (of as real) * 100real,
            8,
        ),
        more <= base ==> value(excess(more, base, of)) == 0real,
{
    law_of_int(more);
    law_of_int(base);
    law_scaled(of_int(more), 1);
    law_scaled(of_int(base), 1);
    assert(held_int(more) == more && held_int(base) == base);
    law_percent_ends(of);
    assert(of_int(0) == (0nat, 0int));
    if base < more {
        law_percent((more - base) as nat, of);
    } else if base == more {
        assert(int_difference(more, base) == of_int(0));
        lemma_divided(0real, of as real);
        let z = 0real / (of as real);
        if z > 0real {
            lemma_mul_strict(0real, z, of as real);
        }
        assert(z * 100real == 0real);
        lemma_near_same(0real);
        lemma_near_more(0real, 0real, 0, 8);
    }
}

/// Two neighbouring points are a jump where the time grows by a percent more than the
/// threshold, and none where it grows by a percent less, or falls.
pub proof fn law_jump(a: (u64, u64), b: (u64, u64), threshold: nat)
    requires
        0 < a.1 <= 0x20_0000_0000_0000,
        b.1 <= 0x20_0000_0000_0000,
        1 <= threshold <= 900,
    ensures
        100 * (b.1 - a.1) >= (threshold + 1) * a.1 ==> jumps(a, b, of_int(threshold)),
        100 * (b.1 - a.1) <= (threshold - 1) * a.1 ==> !jumps(a, b, of_int(threshold)),
        b.1 <= a.1 ==> !jumps(a, b, of_int(threshold)),
{
    let p = excess(b.1 as nat, a.1 as nat, a.1 as nat);
    law_excess(b.1 as nat, a.1 as nat, a.1 as nat);
    law_of_int(threshold);
    law_less(of_int(threshold), p);
    if a.1 <= b.1 {
        lemma_percent_side(value(p), (b.1 - a.1) as nat, a.1 as nat, threshold);
    }
}

/// A drop is noted where the time falls by eleven percent or more, and not where it falls by
/// nine or less, or grows.
pub proof fn law_drop(a: (u64, u64), b: (u64, u64))
    requires
        0 < a.1 <= 0x20_0000_0000_0000,
        b.1 <= 0x20_0000_0000_0000,
    ensures
        100 * (a.1 - b.1) >= 11 * a.1 ==> drops(a, b),
        100 * (a.1 - b.1) <= 9 * a.1 ==> !drops(a, b),
{
    let p = excess(a.1 as nat, b.1 as nat, a.1 as nat);
    law_excess(a.1 as nat, b.1 as nat, a.1 as nat);
    law_of_int(10);
    law_less(of_int(10), p);
    if b.1 <= a.1 {
        lemma_percent_side(value(p), (a.1 - b.1) as nat, a.1 as nat, 10);
    }
}

proof fn lemma_percent_side(x: real, d: nat, w: nat, t: nat)
    requires
        0 < w,
        1 <= t <= 900,
        near(x, (d as real) / (w as real) * 100real, 8),
    ensures
        100 * d >= (t + 1) * w ==> x > t as real,
        100 * d <= (t - 1) * w ==> x <= t as real,
{
    let q = (d as real) / (w as real);
    let y = w as real;
    lemma_divided(d as real, y);
    lemma_real_product((t + 1) as int, w as int);
    lemma_real_product((t - 1) as int, w as int);
    assert((q * 100real) * y == 100real * (q * y)) by (nonlinear_arith);
    if 100 * d >= (t + 1) * w {
        let r = (t + 1) as real;
        if q * 100real < r {
            lemma_mul_strict(q * 100real, r, y);
        }
        law_near_low(x, q * 100real, 8, r);
    }
    if 100 * d <= (t - 1) * w {
        let r = (t - 1) as real;
        if q * 100real > r {
            lemma_mul_strict(r, q * 100real, y);
        }
        law_near_small(x, q * 100real, 8, 1000real);
    }
}

/// The jumps that are found are all there are: a point is listed just where a jump begins.
pub proof fn law_all_jumps_found(points: Seq<(u64, u64)>, threshold: Parts, i: int)
    requires
        0 <= i < points.len() - 1,
    ensures
        jump_points(points, threshold).contains(i) <==> jumps(points[i], points[i + 1], threshold),
    decreases points.len(),
{
    lemma_jump_points_below(points.drop_last(), threshold);
    let n = points.len() as int;
    let before = jump_points(points.drop_last(), threshold);
    let all = jump_points(points, threshold);
    if i < n - 2 {
        law_all_jumps_found(points.drop_last(), threshold, i);
        assert(points.drop_last()[i] == points[i] && points.drop_last()[i + 1] == points[i + 1]);
        if before.contains(i) {
            let k = choose|k: int| 0 <= k < before.len() && before[k] == i;
            assert(all[k] == i);
        }
        if all.contains(i) {
            let k = choose|k: int| 0 <= k < all.len() && all[k] == i;
            assert(k < before.len());
            assert(before[k] == i);
        }
    } else {
        if jumps(points[i], points[i + 1], threshold) {
            assert(all[before.len() as int] == i);
        } else {
            assert(all == before);
        }
    }
}

proof fn lemma_jump_points_below(points: Seq<(u64, u64)>, threshold: Parts)
    ensures
        forall|k: int|
            0 <= k < jump_points(points, threshold).len() ==> 0 <= #[trigger] jump_points(
                points,
                threshold,
            )[k] < points.len() - 1,
    decreases points.len(),
{
    if points.len() >= 2 {
        let before = jump_points(points.drop_last(), threshold);
        let all = jump_points(points, threshold);
        lemma_jump_points_below(points.drop_last(), threshold);
        assert forall|k: int| 0 <= k < all.len() implies 0 <= #[trigger] all[k] < points.len()
            - 1 by {
            if k < before.len() {
                assert(all[k] == before[k]);
            }
        }
    }
}

/// The order of a size is that of the smallest block that holds it: a block of its order does,
/// and one of half the size does not.
pub proof fn law_order_holds_size(size: nat)
    requires
        size > 4096,
    ensures
        size <= 4096 * pow2(order_of(size)),
        order_of(size) > 0,
        size > 4096 * pow2((order_of(size) - 1) as nat),
{
    let n = page_number(size);
    lemma_bits_hold((n - 1) as nat);
    lemma_pow2_pos(order_of(size));
}

proof fn lemma_bits_hold(n: nat)
    requires
        n > 0,
    ensures
        bit_len(n) > 0,
        n < pow2(bit_len(n)),
        pow2((bit_len(n) - 1) as nat) <= n,
    decreases n,
{
    lemma2_to64();
    lemma_pow2_unfold(bit_len(n));
    if n / 2 > 0 {
        lemma_bits_hold(n / 2);
        lemma_pow2_unfold(bit_len(n / 2));
    } else {
        assert(bit_len(0) == 0);
        assert(bit_len(n / 2) == 0);
    }
}

} // verus!
