//! Non-negative double-precision numbers as integers: a value is a mantissa of
//! at most 53 bits times a power of two, and every operation gives the double
//! nearest to its exact result, ties to even.
use crate::number::{dec, digit, digit_char, push_dec_wide};
use vstd::arithmetic::power2::{lemma_pow2_pos, lemma_pow2_strictly_increases, lemma_pow2_unfold, pow2};
use vstd::prelude::*;

verus! {

/// The smallest mantissa of a normalized double: two to the power 52.
pub const MANT_MIN: u128 = 0x10_0000_0000_0000;

/// One more than the largest mantissa: two to the power 53.
pub const MANT_END: u128 = 0x20_0000_0000_0000;

/// The integer nearest to `n / d`; of two equally near, the even one.
pub open spec fn round_even(n: nat, d: nat) -> nat {
    let q = n / d;
    let r = n % d;
    if 2 * r < d || (2 * r == d && q % 2 == 0) {
        q
    } else {
        q + 1
    }
}

/// The mantissa and exponent of the double nearest to `(n / d) * 2^e`.
pub open spec fn nearest(n: nat, d: nat, e: int) -> (nat, int)
    decreases
            if n < d * MANT_MIN {
                1int
            } else {
                0int
            },
            if n < d * MANT_MIN {
                d * MANT_END - n
            } else {
                n - d
            },
    when d > 0
    via nearest_decreases
{
    if n == 0 {
        (0, 0)
    } else if n < d * MANT_MIN {
        nearest(2 * n, d, e - 1)
    } else if n >= d * MANT_END {
        nearest(n, 2 * d, e + 1)
    } else {
        (round_even(n, d), e)
    }
}

#[via_fn]
proof fn nearest_decreases(n: nat, d: nat, e: int) {
}

/// A non-negative double: `mant * 2^exp`.
#[derive(Clone, Copy, Debug)]
pub struct Double {
    pub mant: u64,
    pub exp: i32,
}

/// A mantissa and an exponent, in mathematical integers.
pub type Parts = (nat, int);

/// The double nearest to an integer.
pub open spec fn of_int(n: nat) -> Parts {
    nearest(n, 1, 0)
}

/// The double nearest to a quotient.
pub open spec fn quotient(a: Parts, b: Parts) -> Parts {
    nearest(a.0, b.0, a.1 - b.1)
}

/// The double nearest to a product.
pub open spec fn product(a: Parts, b: Parts) -> Parts {
    nearest(a.0 * b.0, 1, a.1 + b.1)
}

/// The double nearest to a sum.
pub open spec fn sum(a: Parts, b: Parts) -> Parts {
    if a.1 <= b.1 {
        nearest(a.0 + b.0 * pow2((b.1 - a.1) as nat), 1, a.1)
    } else {
        nearest(a.0 * pow2((a.1 - b.1) as nat) + b.0, 1, b.1)
    }
}

/// The value times `scale`, rounded to an integer.
pub open spec fn scaled(a: Parts, scale: nat) -> nat {
    if a.1 >= 0 {
        a.0 * scale * pow2(a.1 as nat)
    } else {
        round_even(a.0 * scale, pow2((-a.1) as nat))
    }
}

/// The value rounded to an integer, halves upwards.
pub open spec fn rounded_up(a: Parts) -> Parts {
    if a.1 >= 0 {
        a
    } else {
        let p = pow2((-a.1) as nat);
        of_int(
            (a.0 / p + if 2 * (a.0 % p) >= p {
                1nat
            } else {
                0nat
            }) as nat,
        )
    }
}

/// An integer as a double holds it.
pub open spec fn held_int(n: nat) -> nat {
    scaled(of_int(n), 1)
}

/// The double nearest to the difference of two integers, each as a double holds it;
/// zero where the second is not below the first.
pub open spec fn int_difference(a: nat, b: nat) -> Parts {
    if held_int(a) <= held_int(b) {
        (0, 0)
    } else {
        of_int((held_int(a) - held_int(b)) as nat)
    }
}

/// The least integer that is not below the value.
pub open spec fn ceiling(a: Parts) -> nat {
    if a.1 >= 0 {
        a.0 * pow2(a.1 as nat)
    } else {
        let p = pow2((-a.1) as nat);
        (a.0 / p + if a.0 % p == 0 {
            0nat
        } else {
            1nat
        }) as nat
    }
}

/// The greatest integer that is not above the value.
pub open spec fn floor(a: Parts) -> nat {
    if a.1 >= 0 {
        a.0 * pow2(a.1 as nat)
    } else {
        a.0 / pow2((-a.1) as nat)
    }
}

/// Whether one value is less than another.
pub open spec fn less(a: Parts, b: Parts) -> bool {
    if a.1 >= b.1 {
        a.0 * pow2((a.1 - b.1) as nat) < b.0
    } else {
        a.0 < b.0 * pow2((b.1 - a.1) as nat)
    }
}

impl View for Double {
    type V = Parts;

    open spec fn view(&self) -> Parts {
        (self.mant as nat, self.exp as int)
    }
}

impl Double {
    /// The mantissa has 53 bits (or is their limit) unless it is zero, and the
    /// exponent is far from the ends of its type.
    pub open spec fn wf(self) -> bool {
        &&& self.mant == 0 || MANT_MIN <= self.mant <= MANT_END
        &&& -1_000_000_000 <= self.exp <= 1_000_000_000
    }

    /// The double nearest to an integer.
    pub fn from_int(n: u64) -> (r: Double)
        ensures
            r@ == of_int(n as nat),
            r.wf(),
            n > 0 ==> r.mant > 0,
            -52 <= r.exp <= 11,
            0 < n < 128 ==> r.exp <= -45,
            0 < n < 8192 ==> r.exp <= -40,
    {
        let r = rounded(n as u128, 1, 0);
        proof {
            lemma_pow2_small();
            if r.exp >= 12 {
                lemma_scale_up(n as int, r.exp as nat, 12);
            }
            if r.exp < -52 {
                lemma_scale_down(n as int, (-r.exp) as nat, 53);
            }
            if 0 < n < 128 && r.exp > -45 {
                if r.exp >= 0 {
                    lemma_scale_up(n as int, r.exp as nat, 0);
                } else {
                    lemma_scale_low(n as int, 128, (-r.exp) as nat, 44);
                }
            }
            if 0 < n < 8192 && r.exp > -40 {
                if r.exp >= 0 {
                    lemma_scale_up(n as int, r.exp as nat, 0);
                } else {
                    lemma_scale_low(n as int, 8192, (-r.exp) as nat, 39);
                }
            }
        }
        r
    }

    /// The double nearest to the quotient of two doubles.
    pub fn divided_by(self, other: Double) -> (r: Double)
        requires
            self.wf(),
            other.wf(),
            other.mant > 0,
            -500_000_000 <= self.exp - other.exp <= 500_000_000,
        ensures
            r@ == quotient(self@, other@),
            r.wf(),
            r.mant > 0 <==> self.mant > 0,
            r.mant > 0 ==> self.exp - other.exp - 54 <= r.exp <= self.exp - other.exp - 51,
            r.mant == 0 ==> r.exp == 0,
    {
        let e: i32 = self.exp - other.exp;
        let r = rounded(self.mant as u128, other.mant as u128, e);
        proof {
            if self.mant > 0 {
                lemma_quotient_exp(self.mant as int, other.mant as int, r.exp - e);
            }
        }
        r
    }

    /// The double nearest to the product of two doubles.
    pub fn times(self, other: Double) -> (r: Double)
        requires
            self.wf(),
            other.wf(),
            -500_000_000 <= self.exp + other.exp <= 500_000_000,
        ensures
            r@ == product(self@, other@),
            r.wf(),
            r.mant > 0 <==> self.mant > 0 && other.mant > 0,
            r.mant > 0 ==> self.exp + other.exp <= r.exp <= self.exp + other.exp + 54,
            r.mant == 0 ==> r.exp == 0,
    {
        assert(self.mant as int * other.mant as int <= MANT_END as int * MANT_END as int)
            by (nonlinear_arith)
            requires
                self.mant <= MANT_END,
                other.mant <= MANT_END,
        ;
        let e: i32 = self.exp + other.exp;
        let n: u128 = self.mant as u128 * other.mant as u128;
        let r = rounded(n, 1, e);
        proof {
            if self.mant > 0 && other.mant > 0 {
                assert(self.mant as int * other.mant as int >= MANT_MIN as int * MANT_MIN as int)
                    by (nonlinear_arith)
                    requires
                        self.mant >= MANT_MIN,
                        other.mant >= MANT_MIN,
                ;
                lemma_product_exp(n as int, r.exp - e);
            } else {
                assert(self.mant as int * other.mant as int == 0) by (nonlinear_arith)
                    requires
                        self.mant == 0 || other.mant == 0,
                ;
            }
        }
        r
    }
}

/// How far a quotient lies from the mantissa range: `k` halvings bring it there.
pub open spec fn in_range(n: int, d: int, k: int) -> bool {
    if k >= 0 {
        d * pow2(k as nat) * MANT_MIN <= n < d * pow2(k as nat) * MANT_END
    } else {
        d * MANT_MIN <= n * pow2((-k) as nat) < d * MANT_END
    }
}

proof fn lemma_pow2_small()
    ensures
        pow2(0) == 1,
        pow2(12) == 0x1000,
        pow2(39) == 0x80_0000_0000,
        pow2(44) == 0x1000_0000_0000,
        pow2(50) == 0x4_0000_0000_0000,
        pow2(53) == 0x20_0000_0000_0000,
        pow2(54) == 0x40_0000_0000_0000,
        pow2(55) == 0x80_0000_0000_0000,
{
    vstd::arithmetic::power2::lemma2_to64();
    vstd::arithmetic::power2::lemma2_to64_rest();
}

proof fn lemma_pow2_monotone(a: nat, b: nat)
    requires
        a <= b,
    ensures
        0 < pow2(a) <= pow2(b),
{
    lemma_pow2_pos(a);
    if a < b {
        lemma_pow2_strictly_increases(a, b);
    }
}

proof fn lemma_scale_up(n: int, k: nat, at_least: nat)
    requires
        1 * pow2(k) * MANT_MIN <= n,
        at_least <= k,
    ensures
        pow2(at_least) * MANT_MIN <= n,
{
    lemma_pow2_monotone(at_least, k);
    assert(pow2(at_least) * MANT_MIN <= pow2(k) * MANT_MIN) by (nonlinear_arith)
        requires
            pow2(at_least) <= pow2(k),
    ;
}

proof fn lemma_scale_down(n: int, k: nat, at_least: nat)
    requires
        n >= 1,
        n * pow2(k) < 1 * MANT_END,
        at_least <= k,
    ensures
        pow2(at_least) < MANT_END,
{
    lemma_pow2_monotone(at_least, k);
    assert(pow2(k) <= n * pow2(k)) by (nonlinear_arith)
        requires
            n >= 1,
            pow2(k) > 0,
    ;
}

proof fn lemma_scale_low(n: int, limit: int, k: nat, at_most: nat)
    requires
        0 < n < limit,
        1 * MANT_MIN <= n * pow2(k),
        k <= at_most,
    ensures
        limit * pow2(at_most) > MANT_MIN,
{
    lemma_pow2_monotone(k, at_most);
    assert(n * pow2(k) < limit * pow2(at_most)) by (nonlinear_arith)
        requires
            0 < n < limit,
            0 < pow2(k) <= pow2(at_most),
    ;
}

proof fn lemma_quotient_exp(n: int, d: int, k: int)
    requires
        MANT_MIN <= n <= MANT_END,
        MANT_MIN <= d <= MANT_END,
        in_range(n, d, k),
    ensures
        -54 <= k <= -51,
{
    lemma_pow2_small();
    if k >= 0 {
        lemma_pow2_pos(k as nat);
        assert(d * pow2(k as nat) * MANT_MIN >= MANT_MIN * MANT_MIN) by (nonlinear_arith)
            requires
                d >= MANT_MIN,
                pow2(k as nat) >= 1,
        ;
    } else if k > -51 {
        lemma_pow2_monotone((-k) as nat, 50);
        assert(n * pow2((-k) as nat) <= MANT_END * 0x4_0000_0000_0000) by (nonlinear_arith)
            requires
                0 <= n <= MANT_END,
                0 < pow2((-k) as nat) <= 0x4_0000_0000_0000,
        ;
        assert(d * MANT_MIN >= MANT_MIN * MANT_MIN) by (nonlinear_arith)
            requires
                d >= MANT_MIN,
        ;
    } else if k < -54 {
        lemma_pow2_monotone(55, (-k) as nat);
        assert(n * pow2((-k) as nat) >= MANT_MIN * 0x80_0000_0000_0000) by (nonlinear_arith)
            requires
                n >= MANT_MIN,
                pow2((-k) as nat) >= 0x80_0000_0000_0000,
        ;
        assert(d * MANT_END <= MANT_END * MANT_END) by (nonlinear_arith)
            requires
                0 <= d <= MANT_END,
        ;
    }
}

proof fn lemma_product_exp(n: int, k: int)
    requires
        MANT_MIN * MANT_MIN <= n <= MANT_END * MANT_END,
        in_range(n, 1, k),
    ensures
        0 <= k <= 54,
{
    lemma_pow2_small();
    if k < 0 {
        lemma_pow2_pos((-k) as nat);
        assert(n * pow2((-k) as nat) >= n) by (nonlinear_arith)
            requires
                n >= 0,
                pow2((-k) as nat) >= 1,
        ;
    } else if k > 54 {
        lemma_pow2_monotone(55, k as nat);
        assert(pow2(k as nat) * MANT_MIN >= 0x80_0000_0000_0000 * MANT_MIN) by (nonlinear_arith)
            requires
                pow2(k as nat) >= 0x80_0000_0000_0000,
        ;
    }
}

/// The integer nearest to `n / d`, ties to even.
pub fn rounded_quotient(n: u128, d: u128) -> (r: u128)
    requires
        0 < d <= 0x4000_0000_0000_0000_0000_0000_0000_0000,
        n < u128::MAX,
    ensures
        r == round_even(n as nat, d as nat),
{
    let q: u128 = n / d;
    let r: u128 = n % d;
    assert(q <= n) by (nonlinear_arith)
        requires
            q == n as int / d as int,
            d > 0,
    ;
    if 2 * r < d || (2 * r == d && q % 2 == 0) {
        q
    } else {
        q + 1
    }
}

proof fn lemma_below_pow2(n: int, k: nat, limit: nat)
    requires
        pow2(k) <= n < pow2(limit),
    ensures
        k < limit,
{
    if k >= limit {
        if k > limit {
            lemma_pow2_strictly_increases(limit, k);
        }
    }
}

proof fn lemma_pow2_121()
    ensures
        pow2(121) == 0x200_0000_0000_0000_0000_0000_0000_0000,
        pow2(0) == 1,
{
    vstd::arithmetic::power2::lemma2_to64();
    vstd::arithmetic::power2::lemma2_to64_rest();
    vstd::arithmetic::power2::lemma_pow2_adds(60, 61);
    assert(0x1000_0000_0000_0000 * 0x2000_0000_0000_0000
        == 0x200_0000_0000_0000_0000_0000_0000_0000) by (nonlinear_arith);
}

/// Rounding a quotient between the two mantissa limits stays between them.
proof fn lemma_round_bounds(n: nat, d: nat)
    requires
        d > 0,
        d * MANT_MIN <= n < d * MANT_END,
    ensures
        MANT_MIN <= round_even(n, d) <= MANT_END,
{
    assert(MANT_MIN <= n / d < MANT_END) by (nonlinear_arith)
        requires
            d > 0,
            d * MANT_MIN <= n < d * MANT_END,
    ;
}

/// The double nearest to `(n / d) * 2^e`.
fn rounded(n0: u128, d0: u128, e0: i32) -> (r: Double)
    requires
        0 < d0 <= 0x1_0000_0000_0000_0000,
        n0 <= 0x1_0000_0000_0000_0000_0000_0000_0000,
        -500_000_000 <= e0 <= 500_000_000,
    ensures
        r@ == nearest(n0 as nat, d0 as nat, e0 as int),
        r.wf(),
        n0 > 0 <==> r.mant > 0,
        n0 > 0 ==> in_range(n0 as int, d0 as int, r.exp - e0),
        n0 == 0 ==> r.exp == 0,
{
    if n0 == 0 {
        return Double { mant: 0, exp: 0 };
    }
    let mut n: u128 = n0;
    let mut d: u128 = d0;
    let mut up: i32 = 0;
    let mut down: i32 = 0;
    proof {
        lemma_pow2_121();
    }
    while n < d * MANT_MIN
        invariant
            0 < d0 <= 0x1_0000_0000_0000_0000,
            d == d0,
            0 < n,
            0 < n0 <= 0x1_0000_0000_0000_0000_0000_0000_0000,
            n == n0 * pow2(up as nat),
            up > 0 ==> n < d * MANT_END,
            up == 0 ==> n == n0,
            0 <= up <= 121,
            n >= pow2(up as nat),
            pow2(121) == 0x200_0000_0000_0000_0000_0000_0000_0000,
            pow2(0) == 1,
            -500_000_000 <= e0 <= 500_000_000,
            nearest(n as nat, d as nat, e0 - up) == nearest(n0 as nat, d0 as nat, e0 as int),
        decreases d * MANT_END - n,
    {
        proof {
            lemma_pow2_unfold((up + 1) as nat);
            lemma_below_pow2(n as int, up as nat, 121);
            assert(2 * (n0 * pow2(up as nat)) == n0 * (2 * pow2(up as nat))) by (nonlinear_arith);
        }
        n = 2 * n;
        up = up + 1;
    }
    while n >= d * MANT_END
        invariant
            0 < n <= 0x200_0000_0000_0000_0000_0000_0000_0000,
            d > 0,
            d0 > 0,
            n >= d * MANT_MIN,
            d == d0 * pow2(down as nat),
            n == n0 * pow2(up as nat),
            down > 0 ==> up == 0,
            up > 0 ==> n < d * MANT_END,
            d >= pow2(down as nat),
            0 <= down <= 121,
            0 <= up <= 121,
            pow2(121) == 0x200_0000_0000_0000_0000_0000_0000_0000,
            pow2(0) == 1,
            -500_000_000 <= e0 <= 500_000_000,
            nearest(n as nat, d as nat, e0 - up + down) == nearest(
                n0 as nat,
                d0 as nat,
                e0 as int,
            ),
        decreases n - d,
    {
        proof {
            lemma_pow2_unfold((down + 1) as nat);
            lemma_below_pow2(d as int, down as nat, 121);
            assert(2 * (d0 * pow2(down as nat)) == d0 * (2 * pow2(down as nat)))
                by (nonlinear_arith);
        }
        d = 2 * d;
        down = down + 1;
    }
    proof {
        lemma_round_bounds(n as nat, d as nat);
        assert(n0 * pow2(0) == n0);
        assert(d0 * pow2(0) == d0);
    }
    let mant: u128 = rounded_quotient(n, d);
    Double { mant: mant as u64, exp: e0 - up + down }
}

/// `2^k` for a small `k`.
fn power_of_two(k: u32) -> (r: u128)
    requires
        k <= 120,
    ensures
        r == pow2(k as nat),
{
    proof {
        lemma_pow2_121();
    }
    let mut r: u128 = 1;
    let mut i: u32 = 0;
    while i < k
        invariant
            i <= k <= 120,
            r == pow2(i as nat),
            pow2(121) == 0x200_0000_0000_0000_0000_0000_0000_0000,
        decreases k - i,
    {
        proof {
            lemma_pow2_unfold((i + 1) as nat);
            lemma_pow2_strictly_increases(i as nat, 121);
        }
        r = 2 * r;
        i = i + 1;
    }
    r
}

impl Double {
    /// The value times `scale`, rounded to an integer.
    pub fn scaled_to_int(self, scale: u64) -> (r: u128)
        requires
            self.wf(),
            self.exp <= 40,
            0 < scale <= 1000,
        ensures
            r == scaled(self@, scale as nat),
            r <= 0x4000_0000_0000_0000_0000_0000_0000_0000,
    {
        assert(self.mant as int * scale as int <= MANT_END as int * 1000) by (nonlinear_arith)
            requires
                self.mant <= MANT_END,
                scale <= 1000,
        ;
        let n: u128 = self.mant as u128 * scale as u128;
        if self.exp >= 0 {
            let p: u128 = power_of_two(self.exp as u32);
            proof {
                vstd::arithmetic::power2::lemma2_to64();
                vstd::arithmetic::power2::lemma2_to64_rest();
                if self.exp < 40 {
                    lemma_pow2_strictly_increases(self.exp as nat, 40);
                }
            }
            assert(n as int * p as int <= MANT_END as int * 1000 * 0x100_0000_0000)
                by (nonlinear_arith)
                requires
                    n <= MANT_END * 1000,
                    0 <= p <= 0x100_0000_0000,
            ;
            n * p
        } else if self.exp >= -120 {
            let p: u128 = power_of_two((-self.exp) as u32);
            proof {
                lemma_pow2_121();
                lemma_pow2_pos((-self.exp) as nat);
                lemma_pow2_strictly_increases((-self.exp) as nat, 121);
                assert(n as nat / p as nat <= n) by (nonlinear_arith)
                    requires
                        p >= 1,
                        n >= 0,
                ;
            }
            rounded_quotient(n, p)
        } else {
            proof {
                let k = (-self.exp) as nat;
                lemma_pow2_121();
                lemma_pow2_strictly_increases(120, k);
                lemma_pow2_unfold(121);
                assert(n as nat / pow2(k) == 0 && n as nat % pow2(k) == n) by (nonlinear_arith)
                    requires
                        0 <= n < pow2(k),
                ;
            }
            0
        }
    }

    /// The least integer that is not below the value.
    pub fn ceiling_to_int(self) -> (r: u128)
        requires
            self.wf(),
            self.exp <= 40,
        ensures
            r == ceiling(self@),
    {
        let n: u128 = self.mant as u128;
        if self.exp >= 0 {
            let p: u128 = power_of_two(self.exp as u32);
            proof {
                lemma_small_shift(self.mant as nat, self.exp as nat);
            }
            n * p
        } else if self.exp >= -120 {
            let p: u128 = power_of_two((-self.exp) as u32);
            proof {
                lemma_pow2_pos((-self.exp) as nat);
                assert(n as nat / p as nat <= n) by (nonlinear_arith)
                    requires
                        p >= 1,
                        n >= 0,
                ;
            }
            if n % p == 0 {
                n / p
            } else {
                n / p + 1
            }
        } else {
            proof {
                let k = (-self.exp) as nat;
                lemma_pow2_121();
                lemma_pow2_strictly_increases(120, k);
                lemma_pow2_unfold(121);
                assert(n as nat / pow2(k) == 0 && n as nat % pow2(k) == n) by (nonlinear_arith)
                    requires
                        0 <= n < pow2(k),
                ;
            }
            if n == 0 {
                0
            } else {
                1
            }
        }
    }

    /// The value without its fraction, or a limit that it exceeds.
    pub fn whole_up_to(self, most: u64) -> (r: u64)
        requires
            self.wf(),
        ensures
            r == if floor(self@) < most {
                floor(self@)
            } else {
                most as nat
            },
    {
        let n: u128 = self.mant as u128;
        let whole: u128 = if n == 0 {
            proof {
                if self.exp < 0 {
                    lemma_pow2_pos((-self.exp) as nat);
                    assert(0nat / pow2((-self.exp) as nat) == 0) by (nonlinear_arith)
                        requires
                            pow2((-self.exp) as nat) > 0,
                    ;
                } else {
                    assert(0 * pow2(self.exp as nat) == 0) by (nonlinear_arith);
                }
            }
            0
        } else if self.exp > 40 {
            proof {
                vstd::arithmetic::power2::lemma2_to64();
                vstd::arithmetic::power2::lemma2_to64_rest();
                lemma_pow2_strictly_increases(40, self.exp as nat);
                assert(self.mant as nat * pow2(self.exp as nat) >= MANT_MIN * 0x100_0000_0000)
                    by (nonlinear_arith)
                    requires
                        self.mant >= MANT_MIN,
                        pow2(self.exp as nat) >= 0x100_0000_0000,
                ;
            }
            return most;
        } else if self.exp >= 0 {
            let p: u128 = power_of_two(self.exp as u32);
            proof {
                lemma_small_shift(self.mant as nat, self.exp as nat);
            }
            n * p
        } else if self.exp >= -120 {
            let p: u128 = power_of_two((-self.exp) as u32);
            proof {
                lemma_pow2_pos((-self.exp) as nat);
            }
            n / p
        } else {
            proof {
                let k = (-self.exp) as nat;
                lemma_pow2_121();
                lemma_pow2_strictly_increases(120, k);
                lemma_pow2_unfold(121);
                assert(n as nat / pow2(k) == 0) by (nonlinear_arith)
                    requires
                        0 <= n < pow2(k),
                ;
            }
            0
        };
        if whole < most as u128 {
            whole as u64
        } else {
            most
        }
    }

    /// Whether this value is less than the other.
    pub fn is_less(self, other: Double) -> (r: bool)
        requires
            self.wf(),
            other.wf(),
        ensures
            r == less(self@, other@),
    {
        if self.exp >= other.exp {
            let k: i32 = self.exp - other.exp;
            if k > 60 {
                proof {
                    lemma_big_shift(self.mant as nat, other.mant as nat, k as nat);
                }
                self.mant == 0 && other.mant > 0
            } else {
                let p: u128 = power_of_two(k as u32);
                proof {
                    lemma_small_shift(self.mant as nat, k as nat);
                }
                self.mant as u128 * p < other.mant as u128
            }
        } else {
            let k: i32 = other.exp - self.exp;
            if k > 60 {
                proof {
                    lemma_big_shift(other.mant as nat, self.mant as nat, k as nat);
                }
                other.mant > 0
            } else {
                let p: u128 = power_of_two(k as u32);
                proof {
                    lemma_small_shift(other.mant as nat, k as nat);
                }
                (self.mant as u128) < other.mant as u128 * p
            }
        }
    }
}

proof fn lemma_small_shift(m: nat, k: nat)
    requires
        m <= MANT_END,
        k <= 60,
    ensures
        m * pow2(k) <= u128::MAX,
{
    vstd::arithmetic::power2::lemma2_to64();
    vstd::arithmetic::power2::lemma2_to64_rest();
    if k < 60 {
        lemma_pow2_strictly_increases(k, 60);
    }
    assert(m * pow2(k) <= MANT_END * 0x1000_0000_0000_0000) by (nonlinear_arith)
        requires
            m <= MANT_END,
            pow2(k) <= 0x1000_0000_0000_0000,
    ;
}

/// A non-zero mantissa shifted by more than 60 bits exceeds every mantissa.
proof fn lemma_big_shift(m: nat, other: nat, k: nat)
    requires
        other <= MANT_END,
        k > 60,
    ensures
        m > 0 ==> m * pow2(k) > other,
        m == 0 ==> m * pow2(k) == 0,
{
    vstd::arithmetic::power2::lemma2_to64();
    vstd::arithmetic::power2::lemma2_to64_rest();
    lemma_pow2_strictly_increases(60, k);
    assert(m > 0 ==> m * pow2(k) >= pow2(k)) by (nonlinear_arith);
    assert(0 * pow2(k) == 0) by (nonlinear_arith);
}

/// A number with one decimal, given in tenths.
pub open spec fn tenths_text(t: nat) -> Seq<char> {
    dec(t / 10) + seq!['.', digit((t % 10) as int)]
}

/// Appends a number given in tenths, with one decimal.
pub fn push_tenths(out: &mut String, t: u128)
    ensures
        final(out)@ == old(out)@ + tenths_text(t as nat),
{
    let ghost start = out@;
    push_dec_wide(out, t / 10);
    out.push('.');
    out.push(digit_char((t % 10) as u8));
    assert(out@ =~= start + tenths_text(t as nat));
}

/// A number with three decimals, given in thousandths.
pub open spec fn thousandths_text(t: nat) -> Seq<char> {
    dec(t / 1000) + seq![
        '.',
        digit(((t % 1000) / 100) as int),
        digit(((t % 100) / 10) as int),
        digit((t % 10) as int),
    ]
}

/// Appends a number given in thousandths, with three decimals.
pub fn push_thousandths(out: &mut String, t: u128)
    ensures
        final(out)@ == old(out)@ + thousandths_text(t as nat),
{
    let ghost start = out@;
    push_dec_wide(out, t / 1000);
    out.push('.');
    out.push(digit_char(((t % 1000) / 100) as u8));
    out.push(digit_char(((t % 100) / 10) as u8));
    out.push(digit_char((t % 10) as u8));
    assert(out@ =~= start + thousandths_text(t as nat));
}

/// A number with two decimals, given in hundredths.
pub open spec fn hundredths_text(t: nat) -> Seq<char> {
    dec(t / 100) + seq!['.', digit(((t % 100) / 10) as int), digit((t % 10) as int)]
}

/// Appends a number given in hundredths, with two decimals.
pub fn push_hundredths(out: &mut String, t: u128)
    ensures
        final(out)@ == old(out)@ + hundredths_text(t as nat),
{
    let ghost start = out@;
    push_dec_wide(out, t / 100);
    out.push('.');
    out.push(digit_char(((t % 100) / 10) as u8));
    out.push(digit_char((t % 10) as u8));
    assert(out@ =~= start + hundredths_text(t as nat));
}

/// The number whose digits, the last first, are the given ones.
spec fn digits_value(d: Seq<u8>) -> nat
    decreases d.len(),
{
    if d.len() == 0 {
        0
    } else {
        d[0] as nat + 10 * digits_value(d.skip(1))
    }
}

spec fn are_digits(d: Seq<u8>) -> bool {
    forall|i: int| 0 <= i < d.len() ==> #[trigger] d[i] < 10
}

proof fn lemma_digits_push(d: Seq<u8>, x: u8)
    ensures
        digits_value(d.push(x)) == digits_value(d) + x * pow10(d.len()),
    decreases d.len(),
{
    if d.len() == 0 {
        assert(d.push(x).skip(1) =~= Seq::<u8>::empty());
        assert(digits_value(d.push(x)) == x as nat + 10 * digits_value(d.push(x).skip(1)));
        assert(x * pow10(0) == x) by (nonlinear_arith)
            requires
                pow10(0) == 1,
        ;
    } else {
        assert(d.push(x)[0] == d[0]);
        assert(d.push(x).skip(1) =~= d.skip(1).push(x));
        lemma_digits_push(d.skip(1), x);
        let p = pow10((d.len() - 1) as nat);
        assert(10 * (digits_value(d.skip(1)) + x * p) == 10 * digits_value(d.skip(1)) + x * (10
            * p)) by (nonlinear_arith);
    }
}

spec fn pow10(n: nat) -> nat
    decreases n,
{
    if n == 0 {
        1
    } else {
        10 * pow10((n - 1) as nat)
    }
}

/// Twice a number, digit by digit.
fn doubled(d: &Vec<u8>) -> (r: Vec<u8>)
    requires
        are_digits(d@),
        d@.len() > 0,
        d@.len() > 1 ==> d@.last() > 0,
    ensures
        are_digits(r@),
        r@.len() > 0,
        r@.len() > 1 ==> r@.last() > 0,
        digits_value(r@) == 2 * digits_value(d@),
{
    let mut r: Vec<u8> = Vec::new();
    let mut carry: u8 = 0;
    let mut i: usize = 0;
    while i < d.len()
        invariant
            i <= d@.len(),
            d@.len() > 1 ==> d@.last() > 0,
            are_digits(d@),
            are_digits(r@),
            r@.len() == i,
            carry <= 1,
            digits_value(r@) + carry * pow10(i as nat) == 2 * digits_value(d@.take(i as int)),
            i == d@.len() && i > 1 ==> r@.last() > 0 || carry > 0,
        decreases d@.len() - i,
    {
        let t: u8 = 2 * d[i] + carry;
        proof {
            lemma_digits_push(r@, t % 10);
            lemma_digits_push(d@.take(i as int), d@[i as int]);
            assert(d@.take(i as int).push(d@[i as int]) =~= d@.take(i + 1));
            let p = pow10(i as nat);
            assert((t % 10) * p + (t / 10) * (10 * p) == 2 * (d@[i as int] * p) + carry * p)
                by (nonlinear_arith)
                requires
                    t == 2 * d@[i as int] + carry,
            ;
        }
        r.push(t % 10);
        carry = t / 10;
        i = i + 1;
    }
    assert(d@.take(d@.len() as int) =~= d@);
    if carry > 0 {
        proof {
            lemma_digits_push(r@, carry);
        }
        r.push(carry);
    }
    r
}

proof fn lemma_digits_dec(d: Seq<u8>)
    requires
        are_digits(d),
        d.len() > 0,
        d.len() > 1 ==> d.last() > 0,
    ensures
        dec(digits_value(d)) == Seq::new(d.len(), |i: int| digit(d[d.len() - 1 - i] as int)),
        d.len() > 1 || d.last() > 0 ==> digits_value(d) > 0,
    decreases d.len(),
{
    let text = Seq::new(d.len(), |i: int| digit(d[d.len() - 1 - i] as int));
    let rest = d.skip(1);
    if d.len() == 1 {
        assert(digits_value(rest) == 0);
        assert(dec(digits_value(d)) =~= text);
    } else {
        assert(rest.last() == d.last());
        lemma_digits_dec(rest);
        let n = digits_value(d);
        let m = digits_value(rest);
        assert(n == d[0] + 10 * m);
        assert(n / 10 == m && n % 10 == d[0]);
        let tail = Seq::new(rest.len(), |i: int| digit(rest[rest.len() - 1 - i] as int));
        assert(text =~= tail.push(digit(d[0] as int)));
    }
}

/// Appends `m * 2^k` in decimal.
fn push_shifted(out: &mut String, m: u64, k: u32)
    ensures
        final(out)@ == old(out)@ + dec(m as nat * pow2(k as nat)),
{
    let mut d: Vec<u8> = Vec::new();
    d.push((m % 10) as u8);
    let mut rest: u64 = m / 10;
    let mut scale: Ghost<nat> = Ghost(10);
    proof {
        assert(d@.skip(1) =~= Seq::<u8>::empty());
        assert(digits_value(d@) == d@[0] as nat + 10 * digits_value(d@.skip(1)));
        assert(pow10(1) == 10 * pow10(0));
    }
    while rest > 0
        invariant
            are_digits(d@),
            d@.len() > 0,
            rest == 0 && d@.len() > 1 ==> d@.last() > 0,
            scale@ == pow10(d@.len()),
            digits_value(d@) + rest * scale@ == m,
        decreases rest,
    {
        proof {
            lemma_digits_push(d@, (rest % 10) as u8);
            let q = rest / 10;
            let x = rest % 10;
            let p = scale@;
            assert(x * p + q * (10 * p) == rest * p) by (nonlinear_arith)
                requires
                    rest == 10 * q + x,
            ;
            assert(pow10((d@.len() + 1) as nat) == 10 * pow10(d@.len()));
            scale@ = 10 * scale@;
        }
        d.push((rest % 10) as u8);
        rest = rest / 10;
    }
    let mut i: u32 = 0;
    proof {
        vstd::arithmetic::power2::lemma2_to64();
        assert(m as nat * pow2(0) == m);
    }
    while i < k
        invariant
            i <= k,
            are_digits(d@),
            d@.len() > 0,
            d@.len() > 1 ==> d@.last() > 0,
            digits_value(d@) == m as nat * pow2(i as nat),
        decreases k - i,
    {
        d = doubled(&d);
        proof {
            lemma_pow2_unfold((i + 1) as nat);
            assert(2 * (m as nat * pow2(i as nat)) == m as nat * (2 * pow2(i as nat)))
                by (nonlinear_arith);
        }
        i = i + 1;
    }
    let ghost start = out@;
    let ghost text = Seq::new(d@.len(), |i: int| digit(d@[d@.len() - 1 - i] as int));
    proof {
        lemma_digits_dec(d@);
    }
    let n: usize = d.len();
    let mut j: usize = 0;
    while j < n
        invariant
            j <= n,
            n == d@.len(),
            are_digits(d@),
            text == Seq::new(d@.len(), |i: int| digit(d@[d@.len() - 1 - i] as int)),
            out@ == start + text.take(j as int),
        decreases n - j,
    {
        out.push(digit_char(d[n - 1 - j]));
        proof {
            assert(text.take(j + 1) =~= text.take(j as int).push(text[j as int]));
            assert(start + text.take(j + 1) =~= (start + text.take(j as int)).push(
                text[j as int],
            ));
        }
        j = j + 1;
    }
    assert(text.take(n as int) =~= text);
}

impl Double {
    /// Appends the value with one decimal.
    pub fn push_one_decimal(self, out: &mut String)
        requires
            self.wf(),
        ensures
            final(out)@ == old(out)@ + tenths_text(scaled(self@, 10)),
    {
        if self.exp <= 40 {
            push_tenths(out, self.scaled_to_int(10));
        } else {
            let ghost start = out@;
            let ghost v = self.mant as nat * pow2(self.exp as nat);
            push_shifted(out, self.mant, self.exp as u32);
            out.push('.');
            out.push('0');
            proof {
                assert(self.mant as nat * 10 * pow2(self.exp as nat) == 10 * v)
                    by (nonlinear_arith)
                    requires
                        v == self.mant as nat * pow2(self.exp as nat),
                ;
                let t = scaled(self@, 10);
                assert(t == 10 * v);
                assert(t / 10 == v && t % 10 == 0);
                assert(out@ =~= start + (dec(v) + seq!['.', digit(0)]));
                assert(tenths_text(t) == dec(v) + seq!['.', digit(0)]);
            }
        }
    }

    /// Appends the value with three decimals.
    pub fn push_three_decimals(self, out: &mut String)
        requires
            self.wf(),
        ensures
            final(out)@ == old(out)@ + thousandths_text(scaled(self@, 1000)),
    {
        if self.exp <= 40 {
            push_thousandths(out, self.scaled_to_int(1000));
        } else {
            let ghost start = out@;
            let ghost v = self.mant as nat * pow2(self.exp as nat);
            push_shifted(out, self.mant, self.exp as u32);
            out.push('.');
            out.push('0');
            out.push('0');
            out.push('0');
            proof {
                assert(self.mant as nat * 1000 * pow2(self.exp as nat) == 1000 * v)
                    by (nonlinear_arith)
                    requires
                        v == self.mant as nat * pow2(self.exp as nat),
                ;
                let t = scaled(self@, 1000);
                assert(t == 1000 * v);
                assert(t / 1000 == v && t % 1000 == 0 && t % 100 == 0 && t % 10 == 0);
                assert(out@ =~= start + (dec(v) + seq!['.', digit(0), digit(0), digit(0)]));
                assert(thousandths_text(t) == dec(v) + seq!['.', digit(0), digit(0), digit(0)]);
            }
        }
    }

    /// Appends the value rounded to an integer.
    pub fn push_rounded(self, out: &mut String)
        requires
            self.wf(),
        ensures
            final(out)@ == old(out)@ + dec(scaled(self@, 1)),
    {
        if self.exp <= 40 {
            push_dec_wide(out, self.scaled_to_int(1));
        } else {
            push_shifted(out, self.mant, self.exp as u32);
            assert(self.mant as nat * 1 * pow2(self.exp as nat) == self.mant as nat * pow2(
                self.exp as nat,
            ));
        }
    }
}

proof fn lemma_nearest_halve(n: nat, e: int, j: nat, k: nat)
    requires
        j <= k,
        n >= MANT_MIN * pow2(k),
    ensures
        nearest(n, 1, e) == nearest(n, pow2(j), e + j),
    decreases j,
{
    if j == 0 {
        vstd::arithmetic::power2::lemma2_to64();
    } else {
        let i = (j - 1) as nat;
        lemma_nearest_halve(n, e, i, k);
        lemma_pow2_unfold(j);
        lemma_pow2_pos(i);
        lemma_pow2_monotone(j, k);
        let p = pow2(i);
        let q = pow2(k);
        assert(p * MANT_END <= MANT_MIN * q && p * MANT_MIN <= MANT_MIN * q) by (nonlinear_arith)
            requires
                2 * p <= q,
                MANT_END == 2 * MANT_MIN,
        ;
        assert(n >= pow2(i) * MANT_END);
    }
}

/// A summand more than 57 bits below another does not change the nearest double.
proof fn lemma_far_sum(m: nat, b: nat, e: int, k: nat)
    requires
        MANT_MIN <= m <= MANT_END,
        b <= MANT_END,
        k > 57,
    ensures
        nearest(m * pow2(k) + b, 1, e) == nearest(m, 1, e + k),
{
    let n = m * pow2(k) + b;
    let p = pow2(k);
    vstd::arithmetic::power2::lemma2_to64();
    vstd::arithmetic::power2::lemma2_to64_rest();
    lemma_pow2_strictly_increases(57, k);
    assert(2 * b < p);
    assert(MANT_MIN * p <= m * p) by (nonlinear_arith)
        requires
            MANT_MIN <= m,
    ;
    lemma_nearest_halve(n, e, k, k);
    assert(p * MANT_MIN == MANT_MIN * p) by (nonlinear_arith);
    if m < MANT_END {
        assert(n < p * MANT_END) by (nonlinear_arith)
            requires
                n == m * p + b,
                b < p,
                m + 1 <= MANT_END,
        ;
        assert(n / p == m && n % p == b) by {
            assert(n as int / p as int == m && n as int % p as int == b) by (nonlinear_arith)
                requires
                    n == m * p + b,
                    0 <= b < p,
            ;
        }
        assert(round_even(n, p) == m);
        assert(m / 1 == m && m % 1 == 0);
        assert(round_even(m, 1) == m);
    } else {
        assert(n >= p * MANT_END) by (nonlinear_arith)
            requires
                n == m * p + b,
                m == MANT_END,
        ;
        let q = 2 * p;
        assert(n < q * MANT_END && n >= q * MANT_MIN) by (nonlinear_arith)
            requires
                n == m * p + b,
                q == 2 * p,
                0 <= b < p,
                m == 0x20_0000_0000_0000,
                MANT_END == 0x20_0000_0000_0000,
                MANT_MIN == 0x10_0000_0000_0000,
        ;
        assert(n as int / q as int == MANT_MIN && n as int % q as int == b) by (nonlinear_arith)
            requires
                n == m * p + b,
                q == 2 * p,
                0 <= b < p,
                m == 0x20_0000_0000_0000,
                MANT_MIN == 0x10_0000_0000_0000,
        ;
        assert(round_even(n, q) == MANT_MIN);
        assert(round_even(m, 2) == MANT_MIN);
        assert(nearest(n, p, e + k) == nearest(n, 2 * p, e + k + 1));
        assert(nearest(n, q, e + k + 1) == (MANT_MIN as nat, e + k + 1));
        assert(nearest(m, 1, e + k) == nearest(m, 2, e + k + 1));
        assert(nearest(m, 2, e + k + 1) == (MANT_MIN as nat, e + k + 1));
    }
}

proof fn lemma_sum_exp(n: int, k: int, shift: nat)
    requires
        MANT_MIN <= n <= MANT_END * (pow2(shift) + 1),
        in_range(n, 1, k),
    ensures
        0 <= k <= shift + 2,
{
    lemma_pow2_pos(shift);
    if k < 0 {
        let j = (-k) as nat;
        vstd::arithmetic::power2::lemma2_to64();
        lemma_pow2_monotone(1, j);
        assert(n * pow2(j) >= n * 2) by (nonlinear_arith)
            requires
                pow2(j) >= 2,
                n >= 0,
        ;
    } else if k > shift + 2 {
        lemma_pow2_monotone(shift + 3, k as nat);
        lemma_pow2_unfold(shift + 3);
        lemma_pow2_unfold(shift + 2);
        lemma_pow2_unfold(shift + 1);
        let p = pow2(shift);
        assert(pow2(k as nat) * MANT_MIN > MANT_END * (p + 1)) by (nonlinear_arith)
            requires
                pow2(k as nat) >= 8 * p,
                p >= 1,
                MANT_END == 2 * MANT_MIN,
                MANT_MIN > 0,
        ;
    }
}

/// The double nearest to a mantissa in its range is the mantissa itself, and the one
/// nearest to the limit has half the limit.
proof fn lemma_nearest_to_itself(n: nat, e: int)
    requires
        MANT_MIN <= n <= MANT_END,
    ensures
        n < MANT_END ==> nearest(n, 1, e) == (n, e),
        n == MANT_END ==> nearest(n, 1, e) == (MANT_MIN as nat, e + 1),
{
    if n < MANT_END {
        assert(n / 1 == n && n % 1 == 0);
    } else {
        assert(nearest(n, 1, e) == nearest(n, 2, e + 1));
        assert(n / 2 == MANT_MIN && n % 2 == 0);
    }
}

impl Double {
    /// The double nearest to the sum of two doubles.
    pub fn plus(self, other: Double) -> (r: Double)
        requires
            self.wf(),
            other.wf(),
            -500_000_000 <= self.exp <= 500_000_000,
            -500_000_000 <= other.exp <= 500_000_000,
        ensures
            r@ == sum(self@, other@),
            r.wf(),
            r.mant > 0 ==> r.exp <= self.exp + 2 || r.exp <= other.exp + 2,
            r.mant > 0 ==> self.exp <= r.exp || other.exp <= r.exp,
            r.mant == 0 ==> r.exp == 0,
            self.exp > other.exp + 57 && 0 < self.mant < MANT_END ==> r == self,
            self.exp > other.exp + 57 && self.mant == MANT_END ==> r.mant == MANT_MIN && r.exp
                == self.exp + 1,
    {
        let (lo, hi) = if self.exp <= other.exp {
            (self, other)
        } else {
            (other, self)
        };
        let k: i32 = hi.exp - lo.exp;
        assert(sum(self@, other@) == nearest(
            (lo.mant + hi.mant * pow2(k as nat)) as nat,
            1,
            lo.exp as int,
        ));
        if hi.mant == 0 {
            assert(0 * pow2(k as nat) == 0) by (nonlinear_arith);
            let r = rounded(lo.mant as u128, 1, lo.exp);
            proof {
                if r.mant > 0 {
                    lemma_sum_exp(lo.mant as int, r.exp - lo.exp, 0);
                }
            }
            r
        } else if k <= 57 {
            let p: u128 = power_of_two(k as u32);
            proof {
                vstd::arithmetic::power2::lemma2_to64();
                vstd::arithmetic::power2::lemma2_to64_rest();
                lemma_pow2_monotone(k as nat, 57);
                assert(hi.mant * p <= MANT_END * 0x200_0000_0000_0000) by (nonlinear_arith)
                    requires
                        hi.mant <= MANT_END,
                        p <= 0x200_0000_0000_0000,
                ;
            }
            let n: u128 = lo.mant as u128 + hi.mant as u128 * p;
            let r = rounded(n, 1, lo.exp);
            proof {
                assert(n >= MANT_MIN && n <= MANT_END * (p + 1)) by (nonlinear_arith)
                    requires
                        n == lo.mant + hi.mant * p,
                        MANT_MIN <= hi.mant <= MANT_END,
                        lo.mant <= MANT_END,
                        p >= 1,
                ;
                lemma_sum_exp(n as int, r.exp - lo.exp, k as nat);
            }
            r
        } else {
            proof {
                lemma_far_sum(hi.mant as nat, lo.mant as nat, lo.exp as int, k as nat);
            }
            let r = rounded(hi.mant as u128, 1, hi.exp);
            proof {
                lemma_sum_exp(hi.mant as int, r.exp - hi.exp, 0);
                lemma_nearest_to_itself(hi.mant as nat, hi.exp as int);
            }
            r
        }
    }
}

impl Double {
    /// The value rounded to an integer, halves upwards.
    pub fn round(self) -> (r: Double)
        requires
            self.wf(),
        ensures
            r@ == rounded_up(self@),
            r.wf(),
            r.exp >= 0 ==> r.exp <= self.exp || r.exp <= 11,
            -52 <= r.exp || r == self,
    {
        if self.exp >= 0 {
            return self;
        }
        if self.exp >= -120 {
            let p: u128 = power_of_two((-self.exp) as u32);
            let n: u128 = self.mant as u128;
            proof {
                lemma_pow2_pos((-self.exp) as nat);
                lemma_pow2_121();
                lemma_pow2_strictly_increases((-self.exp) as nat, 121);
                assert(n as nat / p as nat <= n && (n as nat % p as nat) < p) by (nonlinear_arith)
                    requires
                        p >= 1,
                        n >= 0,
                ;
            }
            let up: u128 = if 2 * (n % p) >= p {
                1
            } else {
                0
            };
            Double::from_int((n / p + up) as u64)
        } else {
            proof {
                let k = (-self.exp) as nat;
                let n = self.mant as nat;
                lemma_pow2_121();
                lemma_pow2_strictly_increases(120, k);
                lemma_pow2_unfold(121);
                assert(n / pow2(k) == 0 && n % pow2(k) == n) by (nonlinear_arith)
                    requires
                        0 <= n < pow2(k),
                ;
            }
            Double::from_int(0)
        }
    }

    /// The double nearest to the difference of two integers, each as a double holds it;
    /// zero where the second is not below the first.
    pub fn difference(a: u64, b: u64) -> (r: Double)
        ensures
            r@ == int_difference(a as nat, b as nat),
            r.wf(),
            -52 <= r.exp <= 12,
    {
        let da = Double::from_int(a);
        let x: u128 = da.scaled_to_int(1);
        let y: u128 = Double::from_int(b).scaled_to_int(1);
        if x <= y {
            return Double { mant: 0, exp: 0 };
        }
        proof {
            lemma_held_int(da@);
        }
        let n: u128 = x - y;
        let r = rounded(n, 1, 0);
        proof {
            lemma_pow2_small();
            vstd::arithmetic::power2::lemma2_to64();
            if r.exp >= 13 {
                lemma_scale_up(n as int, r.exp as nat, 13);
            }
            if r.exp < -52 {
                lemma_scale_down(n as int, (-r.exp) as nat, 53);
            }
        }
        r
    }

    /// Appends the value with two decimals.
    pub fn push_two_decimals(self, out: &mut String)
        requires
            self.wf(),
        ensures
            final(out)@ == old(out)@ + hundredths_text(scaled(self@, 100)),
    {
        if self.exp <= 40 {
            push_hundredths(out, self.scaled_to_int(100));
        } else {
            let ghost start = out@;
            let ghost v = self.mant as nat * pow2(self.exp as nat);
            push_shifted(out, self.mant, self.exp as u32);
            out.push('.');
            out.push('0');
            out.push('0');
            proof {
                assert(self.mant as nat * 100 * pow2(self.exp as nat) == 100 * v)
                    by (nonlinear_arith)
                    requires
                        v == self.mant as nat * pow2(self.exp as nat),
                ;
                assert(out@ =~= start + hundredths_text(scaled(self@, 100)));
            }
        }
    }
}

proof fn lemma_held_int(p: Parts)
    requires
        p.0 <= MANT_END,
        p.1 <= 11,
    ensures
        scaled(p, 1) <= 0x1_0000_0000_0000_0000,
{
    vstd::arithmetic::power2::lemma2_to64();
    if p.1 >= 0 {
        lemma_pow2_monotone(p.1 as nat, 11);
        assert(p.0 * 1 * pow2(p.1 as nat) <= MANT_END * 0x800) by (nonlinear_arith)
            requires
                p.0 <= MANT_END,
                pow2(p.1 as nat) <= 0x800,
        ;
    } else {
        let d = pow2((-p.1) as nat);
        lemma_pow2_pos((-p.1) as nat);
        assert((p.0 * 1) / d <= p.0) by (nonlinear_arith)
            requires
                d >= 1,
        ;
    }
}

} // verus!
