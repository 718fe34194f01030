//! Rendering of sizes, percentages and tables.
use crate::double::{of_int, product, push_tenths, quotient, scaled, tenths_text, Double, Parts};
use crate::exact::{
    law_near_within, law_percent, law_percent_ends, law_percent_monotone, law_ratio, law_scaled,
    law_scaled_monotone, lemma_divided, lemma_mul_mono, lemma_mul_strict, lemma_real_product,
    value,
};
use crate::number::{dec, pad_left, pad_right, push_dec, push_pad_left, push_pad_right, push_repeat, repeat};
use crate::order::strs;
use crate::text::group_concat;
use vstd::prelude::*;
use vstd::utf8::encode_utf8;

verus! {

broadcast use group_concat;

/// The length of a text in bytes of UTF-8.
pub open spec fn byte_len(s: Seq<char>) -> usize {
    encode_utf8(s).len() as usize
}

/// The quotient of two integers in double precision.
pub open spec fn ratio(a: nat, b: nat) -> Parts {
    quotient(of_int(a), of_int(b))
}

/// The quotient of two integers in double precision, to one decimal.
pub open spec fn ratio_text(a: nat, b: nat) -> Seq<char> {
    tenths_text(scaled(ratio(a, b), 10))
}

/// Appends the quotient of two integers to one decimal.
pub fn push_ratio(out: &mut String, a: u64, b: u64)
    requires
        b > 0,
    ensures
        final(out)@ == old(out)@ + ratio_text(a as nat, b as nat),
{
    let q = Double::from_int(a).divided_by(Double::from_int(b));
    push_tenths(out, q.scaled_to_int(10));
}

/// A size in bytes in the largest binary unit up to GiB that it reaches.
pub open spec fn size_text(bytes: nat) -> Seq<char> {
    if bytes < 1024 {
        dec(bytes) + " B"@
    } else if bytes < 0x10_0000 {
        ratio_text(bytes, 1024) + " KiB"@
    } else if bytes < 0x4000_0000 {
        ratio_text(bytes, 0x10_0000) + " MiB"@
    } else {
        ratio_text(bytes, 0x4000_0000) + " GiB"@
    }
}

/// Renders a size in bytes.
pub fn format_size(bytes: u64) -> (s: String)
    ensures
        s@ == size_text(bytes as nat),
{
    let mut s = String::new();
    if bytes < 1024 {
        push_dec(&mut s, bytes);
        s.append(" B");
    } else if bytes < 0x10_0000 {
        push_ratio(&mut s, bytes, 1024);
        s.append(" KiB");
    } else if bytes < 0x4000_0000 {
        push_ratio(&mut s, bytes, 0x10_0000);
        s.append(" MiB");
    } else {
        push_ratio(&mut s, bytes, 0x4000_0000);
        s.append(" GiB");
    }
    s
}

/// The largest number of kB whose bytes fit a machine integer.
pub const MAX_KB: u64 = 0x3f_ffff_ffff_ffff;

/// Renders a size in kB.
pub fn format_size_kb(kb: u64) -> (s: String)
    requires
        kb <= MAX_KB,
    ensures
        s@ == size_text(kb as nat * 1024),
{
    format_size(kb * 1024)
}

/// A share in percent to one decimal; of nothing there is none.
pub open spec fn pct_text(used: nat, total: nat) -> Seq<char> {
    if total == 0 {
        "N/A"@
    } else {
        tenths_text(scaled(product(ratio(used, total), of_int(100)), 10)) + "%"@
    }
}

/// Renders a share in percent.
pub fn pct(used: u64, total: u64) -> (s: String)
    ensures
        s@ == pct_text(used as nat, total as nat),
{
    if total == 0 {
        return "N/A".to_owned();
    }
    let q = Double::from_int(used).divided_by(Double::from_int(total));
    let p = q.times(Double::from_int(100));
    let mut s = String::new();
    push_tenths(&mut s, p.scaled_to_int(10));
    s.append("%");
    s
}

/// The share that is shown is the true one to a tenth of a percent: nothing is `0.0%`, all
/// is `100.0%`, and in between the tenths that are shown miss it by one at most.
pub proof fn law_share_shown(used: nat, total: nat) -> (tenths: nat)
    requires
        0 < total,
        used <= total,
    ensures
        pct_text(used, total) == tenths_text(tenths) + "%"@,
        tenths * total <= 1000 * used + total,
        1000 * used <= tenths * total + total,
        used == 0 ==> tenths == 0,
        used == total ==> tenths == 1000,
{
    let p = product(ratio(used, total), of_int(100));
    let t = scaled(p, 10);
    let share = (used as real) / (total as real);
    law_percent(used, total);
    law_percent_ends(total);
    law_scaled(p, 10);
    lemma_divided(used as real, total as real);
    if share > 1real {
        lemma_mul_strict(1real, share, total as real);
    }
    law_near_within(value(p), share * 100real, 8, 100real);
    let w = total as real;
    lemma_mul_mono(t as real, 1000real * share + 1real, w);
    lemma_mul_mono(1000real * share - 1real, t as real, w);
    lemma_real_product(t as int, total as int);
    assert((1000real * share + 1real) * w == 1000real * (share * w) + w) by (nonlinear_arith);
    assert((1000real * share - 1real) * w == 1000real * (share * w) - w) by (nonlinear_arith);
    t
}

/// Of the same whole, more is shown as no smaller a share.
pub proof fn law_share_grows(less: nat, more: nat, total: nat) -> (tenths: (nat, nat))
    requires
        0 < total,
        less <= more,
    ensures
        pct_text(less, total) == tenths_text(tenths.0) + "%"@,
        pct_text(more, total) == tenths_text(tenths.1) + "%"@,
        tenths.0 <= tenths.1,
{
    let p = product(ratio(less, total), of_int(100));
    let q = product(ratio(more, total), of_int(100));
    law_percent_monotone(less, more, total);
    law_scaled_monotone(p, q, 10);
    (scaled(p, 10), scaled(q, 10))
}

/// A quotient that is shown is the true one to a tenth, as long as it is not so large that a
/// double holds no tenths of it.
pub proof fn law_quotient_shown(a: nat, b: nat) -> (tenths: nat)
    requires
        0 < b,
        a <= 10_000 * b,
    ensures
        ratio_text(a, b) == tenths_text(tenths),
        tenths * b <= 10 * a + b,
        10 * a <= tenths * b + b,
{
    let p = ratio(a, b);
    let t = scaled(p, 10);
    let q = (a as real) / (b as real);
    law_ratio(a, b);
    law_scaled(p, 10);
    lemma_divided(a as real, b as real);
    if q > 10_000real {
        lemma_mul_strict(10_000real, q, b as real);
    }
    law_near_within(value(p), q, 5, 10_000real);
    let w = b as real;
    lemma_mul_mono(t as real, 10real * q + 1real, w);
    lemma_mul_mono(10real * q - 1real, t as real, w);
    lemma_real_product(t as int, b as int);
    assert((10real * q + 1real) * w == 10real * (q * w) + w) by (nonlinear_arith);
    assert((10real * q - 1real) * w == 10real * (q * w) - w) by (nonlinear_arith);
    t
}

/// A size of up to ten thousand GiB is shown in the largest unit that it reaches, and is right
/// to a tenth of the unit; below a KiB it is shown in bytes.
pub proof fn law_size_shown(bytes: nat) -> (r: (nat, nat, Seq<char>))
    requires
        bytes <= 10_000 * 1024 * 1024 * 1024,
    ensures
        bytes < 1024 ==> size_text(bytes) == dec(bytes) + " B"@,
        bytes >= 1024 ==> ({
            let (unit, tenths, name) = r;
            &&& (unit == 1024 && name == " KiB"@ && bytes < 1024 * unit) || (unit == 1024 * 1024
                && name == " MiB"@ && bytes < 1024 * unit) || (unit == 1024 * 1024 * 1024 && name
                == " GiB"@)
            &&& unit <= bytes
            &&& size_text(bytes) == tenths_text(tenths) + name
            &&& tenths * unit <= 10 * bytes + unit
            &&& 10 * bytes <= tenths * unit + unit
        }),
{
    if bytes < 1024 {
        (0, 0, Seq::empty())
    } else if bytes < 0x10_0000 {
        let t = law_quotient_shown(bytes, 1024);
        (1024, t, " KiB"@)
    } else if bytes < 0x4000_0000 {
        let t = law_quotient_shown(bytes, 0x10_0000);
        (0x10_0000, t, " MiB"@)
    } else {
        let t = law_quotient_shown(bytes, 0x4000_0000);
        (0x4000_0000, t, " GiB"@)
    }
}

/// Which way the text of a column is aligned.
#[derive(Clone, Copy, PartialEq, Eq, Structural, Debug)]
pub enum Align {
    Left,
    Right,
}

/// The sum of the widths.
pub open spec fn width_sum(widths: Seq<usize>) -> nat
    decreases widths.len(),
{
    if widths.len() == 0 {
        0
    } else {
        width_sum(widths.drop_last()) + widths.last() as nat
    }
}

/// How wide a table is: its columns and two blanks between each two.
pub open spec fn table_width(widths: Seq<usize>) -> int {
    width_sum(widths) + (widths.len() - 1) * 2
}

/// A line of dashes as wide as the table.
pub open spec fn separator_text(widths: Seq<usize>) -> Seq<char> {
    "  "@ + repeat('-', table_width(widths))
}

/// Renders the line below a table.
pub fn separator(widths: &[usize]) -> (s: String)
    requires
        widths@.len() > 0,
        table_width(widths@) <= usize::MAX,
    ensures
        s@ == separator_text(widths@),
{
    let mut total: usize = 0;
    let mut i: usize = 0;
    while i < widths.len()
        invariant
            i <= widths@.len(),
            widths@.len() > 0,
            table_width(widths@) <= usize::MAX,
            total == width_sum(widths@.take(i as int)),
        decreases widths@.len() - i,
    {
        proof {
            lemma_width_sum(widths@, i + 1);
            assert(widths@.take(i + 1).drop_last() =~= widths@.take(i as int));
        }
        total = total + widths[i];
        i = i + 1;
    }
    assert(widths@.take(widths@.len() as int) =~= widths@);
    let gaps: usize = (widths.len() - 1) * 2;
    let mut s = String::new();
    s.append("  ");
    push_repeat(&mut s, '-', total + gaps);
    s
}

proof fn lemma_width_sum(widths: Seq<usize>, n: int)
    requires
        0 <= n <= widths.len(),
    ensures
        width_sum(widths.take(n)) <= width_sum(widths),
    decreases widths.len() - n,
{
    if n < widths.len() {
        lemma_width_sum(widths, n + 1);
        assert(widths.take(n + 1).drop_last() =~= widths.take(n));
    } else {
        assert(widths.take(n) =~= widths);
    }
}

/// A value in its column. Without a width it takes its own; without an alignment
/// it is on the left.
pub open spec fn cell(
    widths: Seq<usize>,
    aligns: Seq<Align>,
    values: Seq<Seq<char>>,
    i: int,
) -> Seq<char> {
    let w = if i < widths.len() {
        widths[i]
    } else {
        byte_len(values[i])
    };
    if i < aligns.len() && aligns[i] == Align::Right {
        pad_left(values[i], w as int)
    } else {
        pad_right(values[i], w as int)
    }
}

/// The first `n` values, each in its column, two blanks between each two.
pub open spec fn cells(
    widths: Seq<usize>,
    aligns: Seq<Align>,
    values: Seq<Seq<char>>,
    n: int,
) -> Seq<char>
    decreases n,
{
    if n <= 0 {
        Seq::empty()
    } else if n == 1 {
        cell(widths, aligns, values, 0)
    } else {
        cells(widths, aligns, values, n - 1) + "  "@ + cell(widths, aligns, values, n - 1)
    }
}

/// A line of a table, without its end.
pub open spec fn row_text(
    widths: Seq<usize>,
    aligns: Seq<Align>,
    values: Seq<Seq<char>>,
) -> Seq<char> {
    "  "@ + cells(widths, aligns, values, values.len() as int)
}

/// Renders a line of a table.
pub fn format_row(widths: &[usize], aligns: &[Align], values: &[&str]) -> (s: String)
    ensures
        s@ == row_text(widths@, aligns@, strs(values@)),
{
    let ghost vs = strs(values@);
    let mut out = String::new();
    out.append("  ");
    let mut i: usize = 0;
    while i < values.len()
        invariant
            i <= values@.len(),
            vs == strs(values@),
            out@ == "  "@ + cells(widths@, aligns@, vs, i as int),
        decreases values@.len() - i,
    {
        let val: &str = values[i];
        if i > 0 {
            out.append("  ");
        }
        let w: usize = if i < widths.len() {
            widths[i]
        } else {
            val.len()
        };
        if i < aligns.len() && aligns[i] == Align::Right {
            push_pad_left(&mut out, val, w);
        } else {
            push_pad_right(&mut out, val, w);
        }
        i = i + 1;
    }
    out
}

} // verus!
