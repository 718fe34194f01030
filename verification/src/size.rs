//! Sizes as labels, and sizes in whole granules.
use crate::number::{dec, push_dec};
use crate::text::group_concat;
use vstd::arithmetic::power2::is_pow2;
use vstd::prelude::*;

verus! {

/// Whether a size is a whole number of units.
pub open spec fn whole(size: nat, unit: nat) -> bool {
    size >= unit && size % unit == 0
}

/// A size in whole kilobytes or megabytes, else in bytes without a unit.
pub open spec fn short_size(bytes: nat) -> Seq<char> {
    if whole(bytes, 0x10_0000) {
        dec(bytes / 0x10_0000) + "M"@
    } else if whole(bytes, 1024) {
        dec(bytes / 1024) + "K"@
    } else {
        dec(bytes)
    }
}

/// A size in whole kilobytes or megabytes, else in bytes without a unit.
pub fn human_size(bytes: u64) -> (s: String)
    ensures
        s@ == short_size(bytes as nat),
{
    broadcast use group_concat;
    let mut s = String::new();
    if bytes >= 0x10_0000 && bytes % 0x10_0000 == 0 {
        push_dec(&mut s, bytes / 0x10_0000);
        s.append("M");
    } else if bytes >= 1024 && bytes % 1024 == 0 {
        push_dec(&mut s, bytes / 1024);
        s.append("K");
    } else {
        push_dec(&mut s, bytes);
    }
    s
}

/// A power of two in gigabytes, megabytes or kilobytes; another size, and one below a
/// kilobyte, in bytes.
pub open spec fn size_label(size: nat) -> Seq<char> {
    if is_pow2(size as int) && size >= 0x4000_0000 {
        dec(size / 0x4000_0000) + "G"@
    } else if is_pow2(size as int) && size >= 0x10_0000 {
        dec(size / 0x10_0000) + "M"@
    } else if is_pow2(size as int) && size >= 1024 {
        dec(size / 1024) + "K"@
    } else {
        dec(size) + "B"@
    }
}

fn power_of_two(n: u64) -> (r: bool)
    ensures
        r == is_pow2(n as int),
{
    proof {
        reveal(is_pow2);
    }
    if n == 0 {
        return false;
    }
    let mut x: u64 = n;
    while x % 2 == 0
        invariant
            0 < x <= n,
            is_pow2(x as int) == is_pow2(n as int),
        decreases x,
    {
        proof {
            reveal(is_pow2);
        }
        x = x / 2;
    }
    x == 1
}

/// A size as a label: a power of two in the largest unit that is not larger, another in
/// bytes.
pub fn format_size_label(size: u64) -> (s: String)
    ensures
        s@ == size_label(size as nat),
{
    broadcast use group_concat;
    let mut s = String::new();
    let power: bool = power_of_two(size);
    if power && size >= 0x4000_0000 {
        push_dec(&mut s, size / 0x4000_0000);
        s.append("G");
    } else if power && size >= 0x10_0000 {
        push_dec(&mut s, size / 0x10_0000);
        s.append("M");
    } else if power && size >= 1024 {
        push_dec(&mut s, size / 1024);
        s.append("K");
    } else {
        push_dec(&mut s, size);
        s.append("B");
    }
    s
}

/// A size rounded up to a whole number of granules; without granules, as it is.
pub open spec fn aligned(size: nat, granularity: nat) -> nat {
    if granularity == 0 {
        size
    } else {
        ((size + granularity - 1) / (granularity as int) * granularity) as nat
    }
}

/// Rounds a size up to a whole number of granules.
pub fn align_to(size: u64, granularity: u64) -> (r: u64)
    requires
        aligned(size as nat, granularity as nat) <= u64::MAX,
    ensures
        r == aligned(size as nat, granularity as nat),
{
    if granularity == 0 {
        return size;
    }
    let up: u128 = (size as u128 + (granularity - 1) as u128) / granularity as u128;
    assert(up * granularity == aligned(size as nat, granularity as nat));
    (up * granularity as u128) as u64
}

/// A rounded size is a whole number of granules, not below the size and less than one
/// granule above it.
pub proof fn law_align_to(size: nat, granularity: nat)
    requires
        granularity > 0,
    ensures
        aligned(size, granularity) % granularity == 0,
        size <= aligned(size, granularity) < size + granularity,
        size % granularity == 0 ==> aligned(size, granularity) == size,
{
    let g = granularity as int;
    let n = size + g - 1;
    let q = n / g;
    assert(n == q * g + n % g && 0 <= n % g < g) by (nonlinear_arith)
        requires
            g > 0,
            q == n / g,
    ;
    assert(q >= 0) by (nonlinear_arith)
        requires
            g > 0,
            n >= 0,
            q == n / g,
    ;
    assert((q * g) % g == 0) by (nonlinear_arith)
        requires
            g > 0,
    ;
    if size % granularity == 0 {
        let k = size as int / g;
        assert(size == k * g) by (nonlinear_arith)
            requires
                g > 0,
                k == size as int / g,
                size as int % g == 0,
        ;
        assert(q == k) by (nonlinear_arith)
            requires
                g > 0,
                size == k * g,
                n == size + g - 1,
                q == n / g,
        ;
    }
}

/// A size in short is right: the number times its unit is the size.
pub proof fn law_short_size(bytes: nat) -> (r: (nat, nat))
    ensures
        r.0 * r.1 == bytes,
        r.1 == 1 || r.1 == 1024 || r.1 == 1024 * 1024,
        r.1 == 1 ==> short_size(bytes) == dec(bytes),
        r.1 == 1024 ==> short_size(bytes) == dec(r.0) + "K"@,
        r.1 == 1024 * 1024 ==> short_size(bytes) == dec(r.0) + "M"@,
{
    if whole(bytes, 0x10_0000) {
        assert(bytes / 0x10_0000 * 0x10_0000 == bytes);
        (bytes / 0x10_0000, 0x10_0000)
    } else if whole(bytes, 1024) {
        assert(bytes / 1024 * 1024 == bytes);
        (bytes / 1024, 1024)
    } else {
        assert(bytes * 1 == bytes);
        (bytes, 1)
    }
}

} // verus!
