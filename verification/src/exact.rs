//! How near doubles come to the numbers that they stand for.
use crate::double::{
    ceiling, less, nearest, of_int, product, quotient, round_even, scaled, sum, Parts, MANT_END, MANT_MIN,
};
use vstd::arithmetic::power2::{lemma_pow2_adds, lemma_pow2_pos, lemma_pow2_unfold, pow2};
use vstd::prelude::*;

verus! {

/// A power of two, as a real number.
pub open spec fn power(e: int) -> real {
    if e >= 0 {
        pow2(e as nat) as real
    } else {
        1real / (pow2((-e) as nat) as real)
    }
}

/// The number that a double is.
pub open spec fn value(p: Parts) -> real {
    (p.0 as real) * power(p.1)
}

/// The part of a number by which the nearest double may miss it.
pub open spec fn ulp() -> real {
    1real / (0x20_0000_0000_0000int as real)
}

/// Whether a number misses another by at most so many of its smallest parts.
pub open spec fn near(x: real, y: real, k: nat) -> bool {
    y - (k as real) * ulp() * y <= x <= y + (k as real) * ulp() * y
}

proof fn lemma_power_step(e: int)
    ensures
        power(e) > 0real,
        power(e) == 2real * power(e - 1),
{
    if e >= 1 {
        lemma_pow2_pos(e as nat);
        lemma_pow2_unfold(e as nat);
        assert(pow2(e as nat) as real == 2real * (pow2((e - 1) as nat) as real));
    } else {
        let p = pow2((-e) as nat) as real;
        let q = pow2((1 - e) as nat) as real;
        lemma_pow2_pos((-e) as nat);
        lemma_pow2_unfold((1 - e) as nat);
        assert(q == 2real * p);
        lemma_pow2_zero();
        assert(p > 0real);
        assert(1real / p == 2real * (1real / q)) by (nonlinear_arith)
            requires
                q == 2real * p,
                p > 0real,
        ;
        assert(1real / p > 0real) by (nonlinear_arith)
            requires
                p > 0real,
        ;
        if e == 0 {
            assert(p == 1real);
            assert(1real / p == 1real) by (nonlinear_arith)
                requires
                    p == 1real,
            ;
        }
    }
}

proof fn lemma_pow2_zero()
    ensures
        pow2(0) == 1,
{
    vstd::arithmetic::power2::lemma2_to64();
}

pub proof fn lemma_real_product(a: int, b: int)
    ensures
        (a * b) as real == (a as real) * (b as real),
{
    assert((a * b) as real == (a as real) * (b as real)) by (nonlinear_arith);
}

proof fn lemma_round_even(n: nat, d: nat)
    requires
        d > 0,
    ensures
        2 * round_even(n, d) * d <= 2 * n + d,
        2 * n <= 2 * round_even(n, d) * d + d,
{
    let q = (n / d) as int;
    let r = (n % d) as int;
    vstd::arithmetic::div_mod::lemma_fundamental_div_mod(n as int, d as int);
    assert(n == q * d + r) by (nonlinear_arith)
        requires
            n == d as int * q + r,
    ;
    assert((q + 1) * d == q * d + d) by (nonlinear_arith);
    assert(2 * round_even(n, d) * d == 2 * (round_even(n, d) * d)) by (nonlinear_arith);
}

/// The double nearest to a quotient times a power of two misses it by at most one part.
pub proof fn law_nearest(n: nat, d: nat, e: int)
    requires
        d > 0,
    ensures
        near(value(nearest(n, d, e)), (n as real) / (d as real) * power(e), 1),
    decreases
            if n < d * MANT_MIN {
                1int
            } else {
                0int
            },
            if n < d * MANT_MIN {
                d * MANT_END - n
            } else {
                n - d
            },
{
    let x = n as real;
    let y = d as real;
    let p = power(e);
    lemma_power_step(e);
    lemma_power_step(e + 1);
    if n == 0 {
        assert(x / y * p == 0real) by (nonlinear_arith)
            requires
                x == 0real,
                y > 0real,
        ;
        assert(value((0, 0)) == 0real) by (nonlinear_arith)
            requires
                value((0, 0)) == 0real * power(0),
        ;
    } else if n < d * MANT_MIN {
        law_nearest(2 * n, d, e - 1);
        let h = power(e - 1);
        assert((2 * n) as real / y * h == x / y * p) by (nonlinear_arith)
            requires
                (2 * n) as real == 2real * x,
                p == 2real * h,
                y > 0real,
        ;
    } else if n >= d * MANT_END {
        law_nearest(n, 2 * d, e + 1);
        let h = power(e + 1);
        assert(x / ((2 * d) as real) * h == x / y * p) by (nonlinear_arith)
            requires
                (2 * d) as real == 2real * y,
                h == 2real * p,
                y > 0real,
        ;
    } else {
        let m = round_even(n, d);
        let r = m as real;
        lemma_round_even(n, d);
        assert(2real * (r * y) <= 2real * x + y && 2real * x <= 2real * (r * y) + y) by {
            lemma_real_product(m as int, d as int);
            assert(2 * m * d == 2 * (m * d)) by (nonlinear_arith);
        }
        let q = x / y;
        assert(q * y == x) by (nonlinear_arith)
            requires
                q == x / y,
                y > 0real,
        ;
        let big = 0x10_0000_0000_0000int as real;
        assert(big * y <= x) by {
            lemma_real_product(MANT_MIN as int, d as int);
            assert(d * MANT_MIN == MANT_MIN * d);
        }
        assert(q - 1real / 2real <= r <= q + 1real / 2real && big <= q) by (nonlinear_arith)
            requires
                2real * (r * y) <= 2real * x + y,
                2real * x <= 2real * (r * y) + y,
                q * y == x,
                big * y <= x,
                y > 0real,
        ;
        assert(1real / 2real <= ulp() * q) by (nonlinear_arith)
            requires
                ulp() == 1real / (2real * big),
                big <= q,
                big == 0x10_0000_0000_0000real,
        ;
        assert(q - ulp() * q <= r <= q + ulp() * q);
        assert(q * p - 1real * ulp() * (q * p) <= r * p <= q * p + 1real * ulp() * (q * p))
            by (nonlinear_arith)
            requires
                q - ulp() * q <= r <= q + ulp() * q,
                p > 0real,
        ;
    }
}

proof fn lemma_power_sum(a: int, b: int)
    ensures
        power(a + b) == power(a) * power(b),
    decreases
            if b >= 0 {
                b
            } else {
                -b
            },
{
    if b == 0 {
        lemma_pow2_zero();
        assert(power(0) == 1real);
        assert(power(a) * 1real == power(a)) by (nonlinear_arith);
    } else if b > 0 {
        lemma_power_sum(a, b - 1);
        lemma_power_step(b);
        lemma_power_step(a + b);
        assert(2real * (power(a) * power(b - 1)) == power(a) * (2real * power(b - 1)))
            by (nonlinear_arith);
    } else {
        lemma_power_sum(a, b + 1);
        lemma_power_step(b + 1);
        lemma_power_step(a + b + 1);
        assert(power(a) * (2real * power(b)) == 2real * (power(a) * power(b)))
            by (nonlinear_arith);
    }
}

/// The double of an integer of at most 53 bits is that integer.
pub proof fn law_small_int(n: nat, e: int)
    requires
        n <= MANT_END,
    ensures
        value(nearest(n, 1, e)) == (n as real) * power(e),
    decreases MANT_END - n,
{
    lemma_power_step(e);
    lemma_power_step(e + 1);
    if n == 0 {
        assert(value((0, 0)) == 0real) by (nonlinear_arith)
            requires
                value((0, 0)) == 0real * power(0),
        ;
        assert(0real * power(e) == 0real) by (nonlinear_arith);
    } else if n < MANT_MIN {
        law_small_int(2 * n, e - 1);
        assert((2 * n) as real * power(e - 1) == (n as real) * power(e)) by (nonlinear_arith)
            requires
                (2 * n) as real == 2real * (n as real),
                power(e) == 2real * power(e - 1),
        ;
    } else if n == MANT_END {
        let m = round_even(n, 2);
        assert(nearest(n, 1, e) == nearest(n, 2, e + 1));
        assert(nearest(n, 2, e + 1) == (m, e + 1));
        assert(2 * m == n);
        assert((m as real) * power(e + 1) == (n as real) * power(e)) by (nonlinear_arith)
            requires
                (n as real) == 2real * (m as real),
                power(e + 1) == 2real * power(e),
        ;
    } else {
        assert(n / 1 == n && n % 1 == 0);
    }
}

/// The double of an integer is near it, and is it where it has at most 53 bits.
pub proof fn law_of_int(n: nat)
    ensures
        near(value(of_int(n)), n as real, 1),
        n <= MANT_END ==> value(of_int(n)) == n as real,
        n > 0 ==> value(of_int(n)) > 0real,
{
    law_nearest(n, 1, 0);
    lemma_pow2_zero();
    assert(power(0) == 1real);
    assert((n as real) / 1real * 1real == n as real);
    if n <= MANT_END {
        law_small_int(n, 0);
    }
    if n > 0 {
        lemma_near_positive(value(of_int(n)), n as real, 1);
    }
}

proof fn lemma_near_positive(x: real, y: real, k: nat)
    requires
        near(x, y, k),
        y > 0real,
        k <= 1000,
    ensures
        x > 0real,
{
    let c = (k as real) * ulp();
    assert(c < 1real) by (nonlinear_arith)
        requires
            c == (k as real) * ulp(),
            k as real <= 1000real,
            0real < ulp() < 1real / 2000real,
    ;
    assert(y - c * y > 0real) by (nonlinear_arith)
        requires
            c < 1real,
            y > 0real,
    ;
}

/// A quotient of doubles is near the quotient of the numbers.
pub proof fn law_quotient(a: Parts, b: Parts)
    requires
        b.0 > 0,
    ensures
        near(value(quotient(a, b)), value(a) / value(b), 1),
        value(b) > 0real,
{
    law_nearest(a.0, b.0, a.1 - b.1);
    lemma_power_sum(a.1 - b.1, b.1);
    lemma_power_step(b.1);
    let x = a.0 as real;
    let y = b.0 as real;
    let p = power(a.1 - b.1);
    let q = power(b.1);
    assert(y * q > 0real) by (nonlinear_arith)
        requires
            y > 0real,
            q > 0real,
    ;
    assert((x * (p * q)) / (y * q) == x / y * p) by (nonlinear_arith)
        requires
            y > 0real,
            q > 0real,
            y * q > 0real,
    ;
}

/// A product of doubles is near the product of the numbers.
pub proof fn law_product(a: Parts, b: Parts)
    ensures
        near(value(product(a, b)), value(a) * value(b), 1),
{
    law_nearest(a.0 * b.0, 1, a.1 + b.1);
    lemma_power_sum(a.1, b.1);
    lemma_real_product(a.0 as int, b.0 as int);
    let x = a.0 as real;
    let y = b.0 as real;
    let p = power(a.1);
    let q = power(b.1);
    assert((x * y) / 1real * (p * q) == (x * p) * (y * q)) by (nonlinear_arith);
}

/// A sum of doubles is near the sum of the numbers.
pub proof fn law_sum(a: Parts, b: Parts)
    ensures
        near(value(sum(a, b)), value(a) + value(b), 1),
{
    if a.1 <= b.1 {
        lemma_sum_of(a, b);
    } else {
        lemma_sum_of(b, a);
        assert(a.0 * pow2((a.1 - b.1) as nat) + b.0 == b.0 + a.0 * pow2((a.1 - b.1) as nat));
    }
}

proof fn lemma_sum_of(a: Parts, b: Parts)
    requires
        a.1 <= b.1,
    ensures
        near(
            value(nearest(a.0 + b.0 * pow2((b.1 - a.1) as nat), 1, a.1)),
            value(a) + value(b),
            1,
        ),
{
    let k = (b.1 - a.1) as nat;
    let n = a.0 + b.0 * pow2(k);
    assert(n >= 0) by (nonlinear_arith)
        requires
            n == a.0 + b.0 * pow2(k),
    ;
    law_nearest(n as nat, 1, a.1);
    lemma_power_sum(a.1, b.1 - a.1);
    lemma_real_product(b.0 as int, pow2(k) as int);
    let x = a.0 as real;
    let y = b.0 as real;
    let p = power(a.1);
    let q = pow2(k) as real;
    assert(power(b.1 - a.1) == q);
    assert((x + y * q) / 1real * p == x * p + y * (p * q)) by (nonlinear_arith);
}

/// One double is less than another just where the numbers are.
pub proof fn law_less(a: Parts, b: Parts)
    ensures
        less(a, b) <==> value(a) < value(b),
{
    let x = a.0 as real;
    let y = b.0 as real;
    lemma_power_step(a.1);
    lemma_power_step(b.1);
    if a.1 >= b.1 {
        let k = (a.1 - b.1) as nat;
        lemma_power_sum(b.1, a.1 - b.1);
        lemma_real_product(a.0 as int, pow2(k) as int);
        let p = power(b.1);
        let q = pow2(k) as real;
        assert(x * (p * q) == (x * q) * p) by (nonlinear_arith);
        assert((x * q) * p < y * p <==> x * q < y) by (nonlinear_arith)
            requires
                p > 0real,
        ;
    } else {
        let k = (b.1 - a.1) as nat;
        lemma_power_sum(a.1, b.1 - a.1);
        lemma_real_product(b.0 as int, pow2(k) as int);
        let p = power(a.1);
        let q = pow2(k) as real;
        assert(y * (p * q) == (y * q) * p) by (nonlinear_arith);
        assert(x * p < (y * q) * p <==> x < y * q) by (nonlinear_arith)
            requires
                p > 0real,
        ;
    }
}

/// A number in parts is the integer nearest to the number times the parts: it misses it by
/// at most a half.
pub proof fn law_scaled(a: Parts, scale: nat)
    ensures
        value(a) * (scale as real) - 1real / 2real <= scaled(a, scale) as real,
        scaled(a, scale) as real <= value(a) * (scale as real) + 1real / 2real,
{
    let x = a.0 as real;
    let s = scale as real;
    lemma_power_step(a.1);
    lemma_real_product(a.0 as int, scale as int);
    if a.1 >= 0 {
        let p = pow2(a.1 as nat);
        lemma_real_product((a.0 * scale) as int, p as int);
        assert((x * s) * (p as real) == (x * (p as real)) * s) by (nonlinear_arith);
    } else {
        let p = pow2((-a.1) as nat);
        lemma_pow2_pos((-a.1) as nat);
        let n = a.0 * scale;
        assert(n >= 0) by (nonlinear_arith)
            requires
                n == a.0 * scale,
        ;
        let m = round_even(n as nat, p);
        lemma_round_even(n as nat, p);
        lemma_real_product(m as int, p as int);
        assert(2 * m * p == 2 * (m * p)) by (nonlinear_arith);
        let r = m as real;
        let y = p as real;
        assert(2real * (r * y) <= 2real * (x * s) + y);
        assert(2real * (x * s) <= 2real * (r * y) + y);
        let w = (x * (1real / y)) * s;
        assert(w * y == x * s) by (nonlinear_arith)
            requires
                w == (x * (1real / y)) * s,
                y > 0real,
        ;
        assert(w - 1real / 2real <= r <= w + 1real / 2real) by (nonlinear_arith)
            requires
                2real * (r * y) <= 2real * (x * s) + y,
                2real * (x * s) <= 2real * (r * y) + y,
                w * y == x * s,
                y > 0real,
        ;
    }
}

pub proof fn lemma_mul_mono(a: real, b: real, c: real)
    requires
        a <= b,
        c >= 0real,
    ensures
        a * c <= b * c,
        c * a <= c * b,
{
    assert(a * c <= b * c && c * a <= c * b) by (nonlinear_arith)
        requires
            a <= b,
            c >= 0real,
    ;
}

proof fn lemma_parts(k: nat)
    requires
        k <= 100,
    ensures
        0real <= (k as real) * ulp() <= 1real / 1000real,
        0real < ulp() <= 1real / 1_000_000real,
{
    let e = ulp();
    assert(0real < e <= 1real / 1_000_000real);
    lemma_mul_mono(k as real, 100real, e);
    lemma_mul_mono(0real, k as real, e);
}

/// Numbers that are near others have a product near the others' product.
pub proof fn law_near_product(x: real, y: real, j: nat, u: real, v: real, k: nat)
    requires
        near(x, y, j),
        near(u, v, k),
        y >= 0real,
        v >= 0real,
        j <= 30,
        k <= 30,
    ensures
        near(x * u, y * v, j + k + 1),
{
    let e = ulp();
    let a = (j as real) * e;
    let b = (k as real) * e;
    let c = ((j + k + 1) as real) * e;
    lemma_parts(j);
    lemma_parts(k);
    assert(c == a + b + e) by (nonlinear_arith)
        requires
            c == ((j + k + 1) as real) * e,
            a == (j as real) * e,
            b == (k as real) * e,
            (j + k + 1) as real == (j as real) + (k as real) + 1real,
    ;
    lemma_mul_mono(j as real, 30real, e);
    lemma_mul_mono(a, 30real * e, b);
    lemma_mul_mono(b, 1real / 1000real, 30real * e);
    assert(a * b <= e);
    lemma_mul_mono(0real, a, b);
    let w = y * v;
    lemma_mul_mono(0real, y, v);
    lemma_mul_mono(a, 1real / 1000real, y);
    lemma_mul_mono(b, 1real / 1000real, v);
    let y1 = y + a * y;
    let v1 = v + b * v;
    let y0 = y - a * y;
    let v0 = v - b * v;
    lemma_mul_mono(x, y1, u);
    lemma_mul_mono(u, v1, y1);
    lemma_mul_mono(y0, x, v0);
    lemma_mul_mono(v0, u, x);
    assert(y1 * v1 == w + (a + b + a * b) * w) by (nonlinear_arith)
        requires
            w == y * v,
            y1 == y + a * y,
            v1 == v + b * v,
    ;
    assert(y0 * v0 == w - (a + b - a * b) * w) by (nonlinear_arith)
        requires
            w == y * v,
            y0 == y - a * y,
            v0 == v - b * v,
    ;
    lemma_mul_mono(a + b + a * b, c, w);
    lemma_mul_mono(a + b - a * b, c, w);
}

/// A number that is near one that is near another is near that other.
pub proof fn law_near_near(x: real, y: real, j: nat, z: real, k: nat)
    requires
        near(x, y, j),
        near(y, z, k),
        z >= 0real,
        j <= 30,
        k <= 30,
    ensures
        near(x, z, j + k + 1),
{
    let e = ulp();
    let a = (j as real) * e;
    lemma_parts(j);
    lemma_parts(k);
    assert(a * 1real == a);
    law_near_product(1real + a, 1real, j, y, z, k);
    law_near_product(1real - a, 1real, j, y, z, k);
    assert((1real + a) * y == y + a * y) by (nonlinear_arith);
    assert((1real - a) * y == y - a * y) by (nonlinear_arith);
    assert(1real * z == z);
}

pub proof fn lemma_divided(x: real, u: real)
    requires
        u > 0real,
    ensures
        (x / u) * u == x,
        x >= 0real ==> x / u >= 0real,
{
    let r = x / u;
    assert(r * u == x) by (nonlinear_arith)
        requires
            r == x / u,
            u > 0real,
    ;
    if r < 0real {
        assert(r * u < 0real) by (nonlinear_arith)
            requires
                r < 0real,
                u > 0real,
        ;
    }
}

pub proof fn lemma_mul_strict(a: real, b: real, c: real)
    requires
        a < b,
        c > 0real,
    ensures
        a * c < b * c,
{
    assert(a * c < b * c) by (nonlinear_arith)
        requires
            a < b,
            c > 0real,
    ;
}

/// Numbers that are near others have a quotient near the others' quotient.
pub proof fn law_near_quotient(x: real, y: real, j: nat, u: real, v: real, k: nat)
    requires
        near(x, y, j),
        near(u, v, k),
        y >= 0real,
        v > 0real,
        j <= 30,
        k <= 30,
    ensures
        u > 0real,
        near(x / u, y / v, j + k + 1),
{
    lemma_near_positive(u, v, k);
    let e = ulp();
    let a = (j as real) * e;
    let b = (k as real) * e;
    let c = ((j + k + 1) as real) * e;
    lemma_parts(j);
    lemma_parts(k);
    lemma_parts(j + k + 1);
    assert(c == a + b + e) by (nonlinear_arith)
        requires
            c == ((j + k + 1) as real) * e,
            a == (j as real) * e,
            b == (k as real) * e,
            (j + k + 1) as real == (j as real) + (k as real) + 1real,
    ;
    lemma_mul_mono(k as real, 30real, e);
    lemma_mul_mono(b, 30real * e, c);
    lemma_mul_mono(c, 1real / 1000real, 30real * e);
    assert(b * c <= e);
    lemma_mul_mono(0real, b, c);
    let q = y / v;
    let r = x / u;
    lemma_divided(y, v);
    lemma_divided(x, u);
    let hi = q + c * q;
    let lo = q - c * q;
    lemma_mul_mono(0real, c, q);
    lemma_mul_mono(c, 1real / 1000real, q);
    let v0 = v - b * v;
    let v1 = v + b * v;
    assert(hi * v0 == y + (c - b - b * c) * y) by (nonlinear_arith)
        requires
            y == q * v,
            hi == q + c * q,
            v0 == v - b * v,
    ;
    assert(lo * v1 == y - (c - b + b * c) * y) by (nonlinear_arith)
        requires
            y == q * v,
            lo == q - c * q,
            v1 == v + b * v,
    ;
    lemma_mul_mono(a, c - b - b * c, y);
    lemma_mul_mono(a, c - b + b * c, y);
    lemma_mul_mono(v0, u, hi);
    lemma_mul_mono(u, v1, lo);
    if r > hi {
        lemma_mul_strict(hi, r, u);
    }
    if r < lo {
        lemma_mul_strict(r, lo, u);
    }
}

/// Whether an integer is nearest to a number, and even where two are.
spec fn rounds(m: nat, x: real) -> bool {
    &&& x - 1real / 2real <= m as real <= x + 1real / 2real
    &&& m as real == x - 1real / 2real || m as real == x + 1real / 2real ==> m % 2 == 0
}

proof fn lemma_rounds(n: nat, d: nat)
    requires
        d > 0,
    ensures
        rounds(round_even(n, d), (n as real) / (d as real)),
{
    let m = round_even(n, d);
    let q = (n / d) as int;
    let r = (n % d) as int;
    let y = d as real;
    let x = (n as real) / y;
    let f = (r as real) / y;
    vstd::arithmetic::div_mod::lemma_fundamental_div_mod(n as int, d as int);
    lemma_real_product(d as int, q);
    lemma_divided(n as real, y);
    lemma_divided(r as real, y);
    assert((q as real + f) * y == y * (q as real) + f * y) by (nonlinear_arith);
    if x < q as real + f {
        lemma_mul_strict(x, q as real + f, y);
    }
    if x > q as real + f {
        lemma_mul_strict(q as real + f, x, y);
    }
    assert(x == q as real + f);
    if 2 * r < d {
        if f >= 1real / 2real {
            lemma_mul_mono(1real / 2real, f, y);
        }
        if f < 0real {
            lemma_mul_strict(f, 0real, y);
        }
    } else if 2 * r == d {
        if f > 1real / 2real {
            lemma_mul_strict(1real / 2real, f, y);
        }
        if f < 1real / 2real {
            lemma_mul_strict(f, 1real / 2real, y);
        }
        assert(m % 2 == 0);
    } else {
        if f <= 1real / 2real {
            lemma_mul_mono(f, 1real / 2real, y);
        }
        if f >= 1real {
            lemma_mul_mono(1real, f, y);
        }
    }
}

proof fn lemma_rounds_monotone(m: nat, x: real, n: nat, y: real)
    requires
        rounds(m, x),
        rounds(n, y),
        x <= y,
    ensures
        m <= n,
{
    if m > n {
        assert(m as real >= n as real + 1real);
    }
}

/// The place of a number between two powers of two, by which it is rounded.
proof fn lemma_shape(n: nat, d: nat, e: int) -> (x: real)
    requires
        d > 0,
        n > 0,
    ensures
        0x10_0000_0000_0000real <= x < 0x20_0000_0000_0000real,
        x * power(nearest(n, d, e).1) == (n as real) / (d as real) * power(e),
        rounds(nearest(n, d, e).0, x),
    decreases
            if n < d * MANT_MIN {
                1int
            } else {
                0int
            },
            if n < d * MANT_MIN {
                d * MANT_END - n
            } else {
                n - d
            },
{
    let x = n as real;
    let y = d as real;
    let p = power(e);
    lemma_power_step(e);
    lemma_power_step(e + 1);
    if n < d * MANT_MIN {
        let h = power(e - 1);
        assert((2 * n) as real / y * h == x / y * p) by (nonlinear_arith)
            requires
                (2 * n) as real == 2real * x,
                p == 2real * h,
                y > 0real,
        ;
        lemma_shape(2 * n, d, e - 1)
    } else if n >= d * MANT_END {
        let h = power(e + 1);
        assert(x / ((2 * d) as real) * h == x / y * p) by (nonlinear_arith)
            requires
                (2 * d) as real == 2real * y,
                h == 2real * p,
                y > 0real,
        ;
        lemma_shape(n, 2 * d, e + 1)
    } else {
        let q = x / y;
        lemma_rounds(n, d);
        lemma_divided(x, y);
        lemma_real_product(MANT_MIN as int, d as int);
        lemma_real_product(MANT_END as int, d as int);
        assert(d * MANT_MIN == MANT_MIN * d && d * MANT_END == MANT_END * d);
        if q < 0x10_0000_0000_0000real {
            lemma_mul_strict(q, 0x10_0000_0000_0000real, y);
        }
        if q >= 0x20_0000_0000_0000real {
            lemma_mul_mono(0x20_0000_0000_0000real, q, y);
        }
        q
    }
}

proof fn lemma_power_monotone(a: int, b: int)
    requires
        a <= b,
    ensures
        0real < power(a) <= power(b),
    decreases b - a,
{
    lemma_power_step(a);
    lemma_power_step(b);
    if a < b {
        lemma_power_monotone(a, b - 1);
        lemma_power_step(b - 1);
    }
}

/// Of two numbers, the one that is not larger has a nearest double that is not larger.
pub proof fn law_nearest_monotone(n: nat, d: nat, e: int, m: nat, c: nat, f: int)
    requires
        d > 0,
        c > 0,
        (n as real) / (d as real) * power(e) <= (m as real) / (c as real) * power(f),
    ensures
        value(nearest(n, d, e)) <= value(nearest(m, c, f)),
{
    let p = nearest(n, d, e);
    let q = nearest(m, c, f);
    lemma_power_step(p.1);
    lemma_power_step(q.1);
    lemma_power_step(f);
    lemma_power_step(e);
    if n == 0 {
        assert(value(p) == 0real) by (nonlinear_arith)
            requires
                value(p) == 0real * power(0),
        ;
        lemma_mul_mono(0real, q.0 as real, power(q.1));
    } else if m == 0 {
        lemma_divided(n as real, d as real);
        let r = (n as real) / (d as real);
        if r <= 0real {
            lemma_mul_mono(r, 0real, d as real);
        }
        lemma_mul_strict(0real, r, power(e));
        assert((m as real) / (c as real) * power(f) == 0real) by (nonlinear_arith)
            requires
                m as real == 0real,
                c as real > 0real,
        ;
    } else {
        let x = lemma_shape(n, d, e);
        let y = lemma_shape(m, c, f);
        let a = power(p.1);
        let b = power(q.1);
        if p.1 == q.1 {
            if x > y {
                lemma_mul_strict(y, x, a);
            }
            lemma_rounds_monotone(p.0, x, q.0, y);
            lemma_mul_mono(p.0 as real, q.0 as real, a);
        } else if p.1 < q.1 {
            lemma_power_monotone(p.1 + 1, q.1);
            lemma_power_step(p.1 + 1);
            assert(2real * a <= b);
            assert(p.0 as real <= 0x20_0000_0000_0000real);
            assert(q.0 as real >= 0x10_0000_0000_0000real);
            lemma_mul_mono(p.0 as real, 0x20_0000_0000_0000real, a);
            lemma_mul_mono(2real * a, b, 0x10_0000_0000_0000real);
            lemma_mul_mono(0x10_0000_0000_0000real, q.0 as real, b);
        } else {
            lemma_power_monotone(q.1 + 1, p.1);
            lemma_power_step(q.1 + 1);
            lemma_mul_mono(0x10_0000_0000_0000real, x, a);
            lemma_mul_strict(y, 0x20_0000_0000_0000real, b);
            lemma_mul_mono(2real * b, a, 0x10_0000_0000_0000real);
        }
    }
}

/// Numbers in the same parts keep their order.
pub proof fn law_scaled_monotone(a: Parts, b: Parts, scale: nat)
    requires
        value(a) <= value(b),
    ensures
        scaled(a, scale) <= scaled(b, scale),
{
    lemma_scaled_rounds(a, scale);
    lemma_scaled_rounds(b, scale);
    lemma_mul_mono(value(a), value(b), scale as real);
    lemma_rounds_monotone(
        scaled(a, scale),
        value(a) * (scale as real),
        scaled(b, scale),
        value(b) * (scale as real),
    );
}

proof fn lemma_scaled_rounds(a: Parts, scale: nat)
    ensures
        rounds(scaled(a, scale), value(a) * (scale as real)),
{
    let x = a.0 as real;
    let s = scale as real;
    lemma_real_product(a.0 as int, scale as int);
    lemma_power_step(a.1);
    if a.1 >= 0 {
        let p = pow2(a.1 as nat);
        lemma_real_product((a.0 * scale) as int, p as int);
        assert((x * s) * (p as real) == (x * (p as real)) * s) by (nonlinear_arith);
        assert(scaled(a, scale) as real == value(a) * s);
    } else {
        let p = pow2((-a.1) as nat);
        lemma_pow2_pos((-a.1) as nat);
        let n = a.0 * scale;
        assert(n >= 0) by (nonlinear_arith)
            requires
                n == a.0 * scale,
        ;
        let y = p as real;
        lemma_rounds(n as nat, p);
        assert((x * s) / y == (x * (1real / y)) * s) by (nonlinear_arith)
            requires
                y > 0real,
        ;
    }
}

/// Rounding up gives the least integer that is not below.
pub proof fn law_ceiling(a: Parts)
    ensures
        value(a) <= ceiling(a) as real,
        (ceiling(a) as real) < value(a) + 1real,
{
    let x = a.0 as real;
    lemma_power_step(a.1);
    if a.1 >= 0 {
        lemma_real_product(a.0 as int, pow2(a.1 as nat) as int);
    } else {
        let p = pow2((-a.1) as nat);
        lemma_pow2_pos((-a.1) as nat);
        let q = (a.0 / p) as int;
        let r = (a.0 % p) as int;
        let y = p as real;
        vstd::arithmetic::div_mod::lemma_fundamental_div_mod(a.0 as int, p as int);
        lemma_real_product(p as int, q);
        let w = value(a);
        lemma_divided(1real, y);
        let inv = 1real / y;
        assert((x * inv) * y == x * (inv * y)) by (nonlinear_arith);
        assert(w * y == x);
        let z = q as real;
        assert(z * y == y * z) by (nonlinear_arith);
        assert((z + 1real) * y == z * y + y) by (nonlinear_arith);
        if r == 0 {
            if w < z {
                lemma_mul_strict(w, z, y);
            }
            if w > z {
                lemma_mul_strict(z, w, y);
            }
        } else {
            if w <= z {
                lemma_mul_mono(w, z, y);
            }
            if w >= z + 1real {
                lemma_mul_mono(z + 1real, w, y);
            }
        }
    }
}

/// The quotient of two integers, as a double, is near the true one.
pub proof fn law_ratio(a: nat, b: nat)
    requires
        b > 0,
    ensures
        near(value(quotient(of_int(a), of_int(b))), (a as real) / (b as real), 5),
{
    let p = of_int(a);
    let q = of_int(b);
    law_of_int(a);
    law_of_int(b);
    lemma_mantissa(q);
    law_quotient(p, q);
    law_near_quotient(value(p), a as real, 1, value(q), b as real, 1);
    lemma_divided(a as real, b as real);
    law_near_near(value(quotient(p, q)), value(p) / value(q), 1, (a as real) / (b as real), 3);
}

pub proof fn lemma_mantissa(p: Parts)
    requires
        value(p) > 0real,
    ensures
        p.0 > 0,
{
    if p.0 == 0 {
        assert(value(p) == 0real) by (nonlinear_arith)
            requires
                value(p) == 0real * power(p.1),
        ;
    }
}

/// The share of one integer in another in percent, as a double, is near the true one.
pub proof fn law_percent(a: nat, b: nat)
    requires
        b > 0,
    ensures
        near(
            value(product(quotient(of_int(a), of_int(b)), of_int(100))),
            (a as real) / (b as real) * 100real,
            8,
        ),
{
    let q = quotient(of_int(a), of_int(b));
    let r = (a as real) / (b as real);
    law_ratio(a, b);
    law_of_int(100);
    law_product(q, of_int(100));
    lemma_divided(a as real, b as real);
    lemma_parts(0);
    law_near_product(value(q), r, 5, 100real, 100real, 0);
    law_near_near(value(product(q, of_int(100))), value(q) * 100real, 1, r * 100real, 6);
}

/// A number near another misses it by less than a given part of an upper bound.
pub proof fn law_near_within(x: real, y: real, k: nat, most: real)
    requires
        near(x, y, k),
        k <= 100,
        0real <= y <= most,
    ensures
        y - most / 1_000_000real <= x <= y + most / 1_000_000real,
{
    let c = (k as real) * ulp();
    let e = ulp();
    assert(e <= 1real / 100_000_000real);
    lemma_mul_mono(k as real, 100real, e);
    assert(0real <= c <= 1real / 1_000_000real) by {
        lemma_parts(k);
    }
    lemma_mul_mono(c, 1real / 1_000_000real, y);
}

/// A number near another misses it by little, where the other is not large.
pub proof fn law_near_small(x: real, y: real, k: nat, most: real)
    requires
        near(x, y, k),
        k <= 100,
        0real <= y <= most,
        most <= 0x1_0000_0000real,
    ensures
        y - 1real / 1000real <= x <= y + 1real / 1000real,
{
    let e = ulp();
    let c = (k as real) * e;
    lemma_mul_mono(k as real, 100real, e);
    lemma_mul_mono(0real, k as real, e);
    lemma_mul_mono(c, 100real * e, y);
    lemma_mul_mono(y, 0x1_0000_0000real, 100real * e);
    lemma_mul_mono(0real, c, y);
}

/// A number near another that is not below a bound is above anything a hundredth lower.
pub proof fn law_near_low(x: real, y: real, k: nat, least: real)
    requires
        near(x, y, k),
        k <= 100,
        1real <= least <= y,
    ensures
        x >= least - least / 1000real,
{
    let c = (k as real) * ulp();
    lemma_parts(k);
    lemma_mul_mono(c, 1real / 1000real, y);
}

/// Sums of numbers near others are near the others' sum.
pub proof fn law_near_sum(x: real, y: real, u: real, v: real, k: nat)
    requires
        near(x, y, k),
        near(u, v, k),
    ensures
        near(x + u, y + v, k),
{
    let c = (k as real) * ulp();
    assert(c * (y + v) == c * y + c * v) by (nonlinear_arith);
}

/// A number is near itself.
pub proof fn lemma_near_same(x: real)
    ensures
        near(x, x, 0),
{
    assert((0nat as real) * ulp() * x == 0real) by (nonlinear_arith);
}

/// A number near another misses it by less than a thousandth.
pub proof fn lemma_thousandth(x: real, y: real, k: nat)
    requires
        near(x, y, k),
        k <= 100,
        y >= 0real,
    ensures
        y - y / 1000real <= x <= y + y / 1000real,
{
    let c = (k as real) * ulp();
    lemma_parts(k);
    lemma_mul_mono(c, 1real / 1000real, y);
}

/// What is near within fewer parts is near within more.
pub proof fn lemma_near_more(x: real, y: real, j: nat, k: nat)
    requires
        near(x, y, j),
        j <= k,
        y >= 0real,
    ensures
        near(x, y, k),
{
    let e = ulp();
    lemma_mul_mono(j as real, k as real, e);
    lemma_mul_mono((j as real) * e, (k as real) * e, y);
}

/// An integer share of another, times a scale, keeps its order as a double.
pub proof fn law_percent_monotone(a: nat, c: nat, b: nat)
    requires
        a <= c,
        b > 0,
    ensures
        value(product(quotient(of_int(a), of_int(b)), of_int(100))) <= value(
            product(quotient(of_int(c), of_int(b)), of_int(100)),
        ),
{
    let h = of_int(100);
    law_of_int(b);
    law_of_int(100);
    lemma_mantissa(of_int(b));
    law_ratio_monotone(a, c, b);
    lemma_product_monotone(quotient(of_int(a), of_int(b)), quotient(of_int(c), of_int(b)), h);
}

proof fn lemma_product_monotone(p: Parts, q: Parts, h: Parts)
    requires
        value(p) <= value(q),
        value(h) >= 0real,
    ensures
        value(product(p, h)) <= value(product(q, h)),
{
    lemma_mul_mono(value(p), value(q), value(h));
    lemma_product_value(p, h);
    lemma_product_value(q, h);
    law_nearest_monotone(p.0 * h.0, 1, p.1 + h.1, q.0 * h.0, 1, q.1 + h.1);
}

proof fn lemma_product_value(a: Parts, b: Parts)
    ensures
        ((a.0 * b.0) as real) / 1real * power(a.1 + b.1) == value(a) * value(b),
{
    lemma_power_sum(a.1, b.1);
    lemma_real_product(a.0 as int, b.0 as int);
    let x = a.0 as real;
    let y = b.0 as real;
    let p = power(a.1);
    let q = power(b.1);
    assert((x * y) / 1real * (p * q) == (x * p) * (y * q)) by (nonlinear_arith);
}

proof fn lemma_quotient_value(a: Parts, b: Parts)
    requires
        b.0 > 0,
    ensures
        (a.0 as real) / (b.0 as real) * power(a.1 - b.1) == value(a) / value(b),
        value(b) > 0real,
{
    lemma_power_sum(a.1 - b.1, b.1);
    lemma_power_step(b.1);
    let x = a.0 as real;
    let y = b.0 as real;
    let p = power(a.1 - b.1);
    let q = power(b.1);
    lemma_mul_strict(0real, y, q);
    assert((x * (p * q)) / (y * q) == x / y * p) by (nonlinear_arith)
        requires
            y > 0real,
            q > 0real,
            y * q > 0real,
    ;
}

/// A larger integer has no smaller quotient by the same integer, as doubles.
pub proof fn law_ratio_monotone(a: nat, c: nat, b: nat)
    requires
        a <= c,
        b > 0,
    ensures
        value(quotient(of_int(a), of_int(b))) <= value(quotient(of_int(c), of_int(b))),
{
    let p = of_int(a);
    let r = of_int(c);
    let q = of_int(b);
    law_of_int(b);
    lemma_mantissa(q);
    lemma_pow2_zero();
    assert(power(0) == 1real);
    assert((a as real) / 1real * 1real == a as real);
    assert((c as real) / 1real * 1real == c as real);
    law_nearest_monotone(a, 1, 0, c, 1, 0);
    lemma_quotient_value(p, q);
    lemma_quotient_value(r, q);
    let x = value(p) / value(q);
    let y = value(r) / value(q);
    lemma_divided(value(p), value(q));
    lemma_divided(value(r), value(q));
    if x > y {
        lemma_mul_strict(y, x, value(q));
    }
    law_nearest_monotone(p.0, q.0, p.1 - q.1, r.0, q.0, r.1 - q.1);
}

/// A small integer over one is that integer.
pub proof fn lemma_quotient_exact(n: nat)
    requires
        0 < n <= MANT_END,
    ensures
        value(quotient(of_int(n), of_int(1))) == n as real,
{
    let p = of_int(n);
    let q = of_int(1);
    law_of_int(n);
    law_of_int(1);
    lemma_mantissa(q);
    lemma_quotient_value(p, q);
    let x = value(p) / 1real;
    assert(x == n as real);
    lemma_pow2_zero();
    assert(power(0) == 1real);
    assert((n as real) / 1real * 1real == n as real);
    law_nearest_monotone(p.0, q.0, p.1 - q.1, n, 1, 0);
    law_nearest_monotone(n, 1, 0, p.0, q.0, p.1 - q.1);
}

/// A whole share is a hundred percent, and none is none.
pub proof fn law_percent_ends(b: nat)
    requires
        b > 0,
    ensures
        value(product(quotient(of_int(b), of_int(b)), of_int(100))) == 100real,
        value(product(quotient(of_int(0), of_int(b)), of_int(100))) == 0real,
{
    let q = of_int(b);
    law_of_int(b);
    law_of_int(0);
    law_of_int(1);
    law_of_int(100);
    lemma_mantissa(q);
    lemma_quotient_value(q, q);
    lemma_divided(value(q), value(q));
    let one = value(q) / value(q);
    if one < 1real {
        lemma_mul_strict(one, 1real, value(q));
    }
    if one > 1real {
        lemma_mul_strict(1real, one, value(q));
    }
    lemma_pow2_zero();
    assert(power(0) == 1real);
    assert(1real / 1real * 1real == 1real);
    law_nearest_monotone(q.0, q.0, 0, 1, 1, 0);
    law_nearest_monotone(1, 1, 0, q.0, q.0, 0);
    let p = quotient(q, q);
    assert(value(p) == 1real);
    lemma_product_value(p, of_int(100));
    let h = of_int(100);
    assert(100real / 1real * 1real == 100real);
    law_nearest_monotone(p.0 * h.0, 1, p.1 + h.1, 100, 1, 0);
    law_nearest_monotone(100, 1, 0, p.0 * h.0, 1, p.1 + h.1);
    assert(of_int(0) == (0nat, 0int));
    assert(quotient(of_int(0), q) == (0nat, 0int));
    assert(0 * h.0 == 0);
    assert(product((0, 0), h) == (0nat, 0int));
    assert(0real * power(0) == 0real);
}

} // verus!
