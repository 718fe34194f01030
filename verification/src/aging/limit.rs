//! Sizes and hold limits as a user writes them.
use crate::number::{all_digits, dec, is_digit, lemma_dec_value, lemma_parse_dec, parse_u64, parsed};
use crate::text::{chars_of, group_concat, is_text, is_white, lemma_trim_twice, string_of, trim, trimmed};
use vstd::prelude::*;
use vstd::slice::slice_subrange;

verus! {

/// How much the workers may hold: nothing, a number of buffers or of bytes.
#[derive(Debug, Clone, Copy, PartialEq, Eq, Structural)]
pub enum HoldLimit {
    Disabled,
    Count(u64),
    Bytes(u64),
}

/// The number of digits that a text begins with.
pub open spec fn digits_len(s: Seq<char>) -> int
    decreases s.len(),
{
    if s.len() == 0 || !is_digit(s[0]) {
        0
    } else {
        1 + digits_len(s.skip(1))
    }
}

/// A character in lower case, if it is a letter of ASCII.
pub open spec fn lower_char(c: char) -> char {
    if 'A' <= c <= 'Z' {
        (c as u32 + 32) as char
    } else {
        c
    }
}

/// A text with the letters of ASCII in lower case.
pub open spec fn lower(s: Seq<char>) -> Seq<char> {
    s.map_values(|c: char| lower_char(c))
}

/// How many bytes a unit stands for, if it is one.
pub open spec fn unit_bytes(unit: Seq<char>) -> Option<nat> {
    let u = lower(unit);
    if u == "k"@ || u == "kib"@ {
        Some(1024)
    } else if u == "m"@ || u == "mib"@ {
        Some(0x10_0000)
    } else if u == "g"@ || u == "gib"@ {
        Some(0x4000_0000)
    } else {
        None
    }
}

/// The size that a text denotes, or what is said of it if it denotes none.
pub open spec fn size_of(text: Seq<char>) -> Result<nat, Seq<char>> {
    let s = trim(text);
    let n = digits_len(s);
    if parsed(s, u64::MAX as nat) is Some {
        Ok(parsed(s, u64::MAX as nat)->0)
    } else if n == s.len() {
        Err("invalid size: "@ + s)
    } else if parsed(s.take(n), u64::MAX as nat) is None {
        Err("invalid number in size: "@ + s)
    } else if unit_bytes(s.skip(n)) is None {
        Err("unknown size suffix '"@ + s.skip(n) + "' in: "@ + s)
    } else if parsed(s.take(n), u64::MAX as nat)->0 * unit_bytes(s.skip(n))->0 > u64::MAX {
        Err("size overflow: "@ + s)
    } else {
        Ok(parsed(s.take(n), u64::MAX as nat)->0 * unit_bytes(s.skip(n))->0)
    }
}

/// The hold limit that a text denotes, or what is said of it.
pub open spec fn limit_of(text: Seq<char>) -> Result<HoldLimit, Seq<char>> {
    let s = trim(text);
    if s == "0"@ {
        Ok(HoldLimit::Disabled)
    } else {
        match parsed(s, u64::MAX as nat) {
            Some(n) => Ok(HoldLimit::Count(n as u64)),
            None => match size_of(s) {
                Ok(n) => Ok(HoldLimit::Bytes(n as u64)),
                Err(e) => Err(e),
            },
        }
    }
}

fn leading_digits(s: &[char]) -> (n: usize)
    ensures
        n == digits_len(s@),
        n <= s@.len(),
{
    let mut n: usize = 0;
    assert(s@.skip(0) =~= s@);
    while n < s.len() && '0' <= s[n] && s[n] <= '9'
        invariant
            n <= s@.len(),
            digits_len(s@) == n + digits_len(s@.skip(n as int)),
        decreases s@.len() - n,
    {
        proof {
            assert(s@.skip(n as int).skip(1) =~= s@.skip(n + 1));
        }
        n = n + 1;
    }
    n
}

fn lowered(s: &[char]) -> (v: Vec<char>)
    ensures
        v@ == lower(s@),
{
    let mut v: Vec<char> = Vec::new();
    let mut i: usize = 0;
    while i < s.len()
        invariant
            i <= s@.len(),
            v@ == lower(s@.take(i as int)),
        decreases s@.len() - i,
    {
        let c = s[i];
        let ghost before = v@;
        if 'A' <= c && c <= 'Z' {
            v.push((c as u8 + 32) as char);
        } else {
            v.push(c);
        }
        proof {
            assert(v@ =~= before.push(lower_char(c)));
            assert(v@ =~= lower(s@.take(i + 1)));
        }
        i = i + 1;
    }
    assert(s@.take(s@.len() as int) =~= s@);
    v
}

fn unit(s: &[char]) -> (r: Option<u64>)
    ensures
        match r {
            Some(n) => unit_bytes(s@) == Some(n as nat),
            None => unit_bytes(s@) is None,
        },
{
    let low = lowered(s);
    let u = low.as_slice();
    if is_text(u, "k") || is_text(u, "kib") {
        Some(1024)
    } else if is_text(u, "m") || is_text(u, "mib") {
        Some(0x10_0000)
    } else if is_text(u, "g") || is_text(u, "gib") {
        Some(0x4000_0000)
    } else {
        None
    }
}

fn said(before: &str, s: &[char]) -> (r: String)
    ensures
        r@ == before@ + s@,
{
    broadcast use group_concat;
    let mut r = String::new();
    r.append(before);
    let t = string_of(s);
    r.append(t.as_str());
    r
}

fn size_of_trimmed(s: &[char]) -> (r: Result<u64, String>)
    requires
        trim(s@) == s@,
    ensures
        match r {
            Ok(n) => size_of(s@) == Ok::<nat, Seq<char>>(n as nat),
            Err(e) => size_of(s@) == Err::<nat, Seq<char>>(e@),
        },
{
    broadcast use group_concat;
    if let Some(n) = parse_u64(s) {
        return Ok(n);
    }
    let pos: usize = leading_digits(s);
    if pos == s.len() {
        return Err(said("invalid size: ", s));
    }
    let digits = slice_subrange(s, 0, pos);
    let suffix = slice_subrange(s, pos, s.len());
    assert(digits@ =~= s@.take(pos as int));
    assert(suffix@ =~= s@.skip(pos as int));
    let num: u64 = match parse_u64(digits) {
        Some(n) => n,
        None => return Err(said("invalid number in size: ", s)),
    };
    let multiplier: u64 = match unit(suffix) {
        Some(m) => m,
        None => {
            let mut e = said("unknown size suffix '", suffix);
            e.append("' in: ");
            let t = string_of(s);
            e.append(t.as_str());
            return Err(e);
        },
    };
    match num.checked_mul(multiplier) {
        Some(n) => Ok(n),
        None => Err(said("size overflow: ", s)),
    }
}

/// Reads a size: a number of bytes, or a number with a unit (K, M, G, KiB, MiB or
/// GiB, in either case).
pub fn parse_size(s: &str) -> (r: Result<u64, String>)
    ensures
        match r {
            Ok(n) => size_of(s@) == Ok::<nat, Seq<char>>(n as nat),
            Err(e) => size_of(s@) == Err::<nat, Seq<char>>(e@),
        },
{
    let all = chars_of(s);
    let t = trimmed(all.as_slice());
    proof {
        lemma_trim_twice(s@);
    }
    size_of_trimmed(t)
}

/// Reads a hold limit: `0` for none, a number of buffers, or a size.
pub fn parse_hold_limit(s: &str) -> (r: Result<HoldLimit, String>)
    ensures
        match r {
            Ok(l) => limit_of(s@) == Ok::<HoldLimit, Seq<char>>(l),
            Err(e) => limit_of(s@) == Err::<HoldLimit, Seq<char>>(e@),
        },
{
    let all = chars_of(s);
    let t = trimmed(all.as_slice());
    proof {
        lemma_trim_twice(s@);
    }
    if is_text(t, "0") {
        return Ok(HoldLimit::Disabled);
    }
    if let Some(n) = parse_u64(t) {
        return Ok(HoldLimit::Count(n));
    }
    match size_of_trimmed(t) {
        Ok(n) => Ok(HoldLimit::Bytes(n)),
        Err(e) => Err(e),
    }
}

proof fn lemma_unit(u: Seq<char>)
    requires
        unit_bytes(u) is Some,
    ensures
        u.len() > 0,
        !is_digit(u[0]),
        !is_white(u.last()),
{
    reveal_strlit("k");
    reveal_strlit("kib");
    reveal_strlit("m");
    reveal_strlit("mib");
    reveal_strlit("g");
    reveal_strlit("gib");
    let low = lower(u);
    assert(low.len() == u.len());
    assert(low[0] == lower_char(u[0]));
    assert(low[low.len() - 1] == lower_char(u[u.len() - 1]));
}

proof fn lemma_digits_len(a: Seq<char>, b: Seq<char>)
    requires
        all_digits(a),
        b.len() > 0,
        !is_digit(b[0]),
    ensures
        digits_len(a + b) == a.len(),
    decreases a.len(),
{
    if a.len() == 0 {
        assert(a + b =~= b);
    } else {
        assert((a + b)[0] == a[0]);
        assert((a + b).skip(1) =~= a.skip(1) + b);
        assert forall|i: int| 0 <= i < a.skip(1).len() implies is_digit(#[trigger] a.skip(1)[i]) by {
            assert(a.skip(1)[i] == a[i + 1]);
        }
        lemma_digits_len(a.skip(1), b);
    }
}

/// A number followed by a unit is that many units of bytes, and alone it is that
/// many bytes.
pub proof fn law_size_with_unit(n: nat, unit: Seq<char>)
    requires
        n <= u64::MAX,
        unit_bytes(unit) is Some,
    ensures
        size_of(dec(n)) == Ok::<nat, Seq<char>>(n),
        n * unit_bytes(unit)->0 <= u64::MAX ==> size_of(dec(n) + unit) == Ok::<nat, Seq<char>>(
            n * unit_bytes(unit)->0,
        ),
        n * unit_bytes(unit)->0 > u64::MAX ==> size_of(dec(n) + unit) is Err,
{
    let a = dec(n);
    let s = a + unit;
    lemma_dec_value(n);
    lemma_parse_dec(n, u64::MAX as nat);
    lemma_unit(unit);
    assert(is_digit(a[0]) && is_digit(a[a.len() - 1]));
    assert(trim(a) == a);
    assert(s[0] == a[0]);
    assert(s.last() == unit.last());
    assert(trim(s) == s);
    lemma_digits_len(a, unit);
    assert(!is_digit(s[a.len() as int]));
    assert(parsed(s, u64::MAX as nat) is None);
    assert(s.take(a.len() as int) =~= a);
    assert(s.skip(a.len() as int) =~= unit);
}

/// A hold limit written as a number is a number of buffers, except that `0` turns
/// holding off.
pub proof fn law_limit_number(n: nat)
    requires
        n <= u64::MAX,
    ensures
        limit_of(dec(n)) == Ok::<HoldLimit, Seq<char>>(
            if n == 0 {
                HoldLimit::Disabled
            } else {
                HoldLimit::Count(n as u64)
            },
        ),
{
    reveal_strlit("0");
    let a = dec(n);
    lemma_dec_value(n);
    lemma_parse_dec(n, u64::MAX as nat);
    assert(is_digit(a[0]) && is_digit(a[a.len() - 1]));
    assert(trim(a) == a);
    lemma_parse_dec(0, u64::MAX as nat);
    assert(dec(0) =~= "0"@);
}

} // verus!
