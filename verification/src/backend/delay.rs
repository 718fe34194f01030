//! How long a simulated operation takes.
use crate::random::draw_between;
use vstd::prelude::*;

verus! {

/// The pages that a size takes.
pub open spec fn pages_of(size: nat) -> nat {
    ((size + 4095) / 4096) as nat
}

/// The time that an operation takes without jitter, in nanoseconds: so much per page,
/// times a ratio.
pub open spec fn base_delay(size: nat, ns_per_4k: nat, ratio_num: nat, ratio_den: nat) -> nat {
    pages_of(size) * ns_per_4k * ratio_num / ratio_den
}

/// Whether the times can be computed in machine integers.
pub open spec fn delay_fits(size: nat, ns_per_4k: nat, ratio_num: nat, ratio_den: nat) -> bool {
    &&& ratio_den > 0
    &&& pages_of(size) * ns_per_4k * ratio_num <= u64::MAX
    &&& base_delay(size, ns_per_4k, ratio_num, ratio_den) * 1300 <= u64::MAX
}

/// The time for a given jitter, in thousandths.
pub fn delay_with(size: u64, ns_per_4k: u64, ratio_num: u64, ratio_den: u64, jitter: u64) -> (r: u64)
    requires
        delay_fits(size as nat, ns_per_4k as nat, ratio_num as nat, ratio_den as nat),
        jitter <= 1300,
    ensures
        r == base_delay(size as nat, ns_per_4k as nat, ratio_num as nat, ratio_den as nat) * jitter
            / 1000,
{
    let pages: u64 = if size % 4096 == 0 {
        size / 4096
    } else {
        size / 4096 + 1
    };
    let ghost p = pages as nat;
    let ghost n = ns_per_4k as nat;
    let ghost k = ratio_num as nat;
    assert(p == pages_of(size as nat));
    if ratio_num == 0 || pages == 0 {
        proof {
            assert(p * n * k == 0) by (nonlinear_arith)
                requires
                    p == 0 || k == 0,
            ;
            let d = ratio_den as nat;
            assert(0nat / d == 0) by (nonlinear_arith)
                requires
                    d > 0,
            ;
        }
        return 0;
    }
    assert(p * n <= p * n * k) by (nonlinear_arith)
        requires
            k >= 1,
    ;
    let base: u64 = pages * ns_per_4k * ratio_num / ratio_den;
    assert(base * jitter <= base * 1300) by (nonlinear_arith)
        requires
            jitter <= 1300,
    ;
    base * jitter / 1000
}

/// How long a simulated operation takes, give or take 30 percent: the time for some
/// jitter between 700 and 1300 thousandths, or none where pages take no time.
pub fn sim_delay(size: u64, ns_per_4k: u64, ratio_num: u64, ratio_den: u64) -> (r: u64)
    requires
        delay_fits(size as nat, ns_per_4k as nat, ratio_num as nat, ratio_den as nat),
    ensures
        ns_per_4k == 0 ==> r == 0,
        ns_per_4k > 0 ==> exists|jitter: u64|
            700 <= jitter <= 1300 && r == #[trigger] (base_delay(
                size as nat,
                ns_per_4k as nat,
                ratio_num as nat,
                ratio_den as nat,
            ) * jitter) / 1000,
{
    if ns_per_4k == 0 {
        return 0;
    }
    let jitter: u64 = draw_between(700, 1300);
    delay_with(size, ns_per_4k, ratio_num, ratio_den, jitter)
}

/// A larger buffer is simulated to take no less time, one of as many pages as long, and the
/// time is that of a page for each, times the ratio, without a fraction.
pub proof fn law_delay_by_pages(size: nat, more: nat, ns_per_4k: nat, num: nat, den: nat)
    requires
        size <= more,
        den > 0,
    ensures
        pages_of(size) * 4096 >= size,
        size > 0 ==> (pages_of(size) - 1) * 4096 < size,
        base_delay(size, ns_per_4k, num, den) <= base_delay(more, ns_per_4k, num, den),
        base_delay(size, ns_per_4k, num, den) * den <= pages_of(size) * ns_per_4k * num,
        pages_of(size) * ns_per_4k * num < base_delay(size, ns_per_4k, num, den) * den + den,
{
    let a = pages_of(size) * ns_per_4k * num;
    let b = pages_of(more) * ns_per_4k * num;
    let p = pages_of(size);
    let q = pages_of(more);
    assert(a <= b) by (nonlinear_arith)
        requires
            a == p * ns_per_4k * num,
            b == q * ns_per_4k * num,
            p <= q,
    ;
    assert(a / den <= b / den) by (nonlinear_arith)
        requires
            a <= b,
            den > 0,
    ;
    assert(a / den * den <= a < a / den * den + den) by (nonlinear_arith)
        requires
            den > 0,
    ;
}

} // verus!
