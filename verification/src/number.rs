//! Numbers as text: decimal output, grouped digits, and parsing.
use vstd::prelude::*;
use vstd::slice::slice_subrange;

verus! {

/// The character of a digit below ten.
pub open spec fn digit(d: int) -> char {
    (48 + d) as char
}

/// The decimal digits of a number, without leading zeros.
pub open spec fn dec(n: nat) -> Seq<char>
    decreases n,
{
    if n < 10 {
        seq![digit(n as int)]
    } else {
        dec(n / 10).push(digit((n % 10) as int))
    }
}

/// The decimal digits of a number, after a minus sign where it is negative.
pub open spec fn dec_int(n: int) -> Seq<char> {
    if n < 0 {
        seq!['-'] + dec((-n) as nat)
    } else {
        dec(n as nat)
    }
}

/// The character of a digit below ten.
pub fn digit_char(d: u8) -> (c: char)
    requires
        d < 10,
    ensures
        c == digit(d as int),
{
    let b: u8 = 48 + d;
    b as char
}

/// Appends the decimal digits of `n`.
pub fn push_dec_wide(out: &mut String, n: u128)
    ensures
        final(out)@ == old(out)@ + dec(n as nat),
    decreases n,
{
    if n >= 10 {
        push_dec_wide(out, n / 10);
    }
    let ghost before = out@;
    out.push(digit_char((n % 10) as u8));
    proof {
        if n >= 10 {
            assert(before.push(digit((n % 10) as int)) =~= old(out)@ + dec((n / 10) as nat).push(
                digit((n % 10) as int),
            ));
        } else {
            assert(before.push(digit(n as int)) =~= old(out)@ + seq![digit(n as int)]);
        }
    }
}

/// Appends the decimal digits of `n`.
pub fn push_dec(out: &mut String, n: u64)
    ensures
        final(out)@ == old(out)@ + dec(n as nat),
{
    push_dec_wide(out, n as u128);
}

/// Appends the decimal digits of a signed number.
pub fn push_dec_int(out: &mut String, n: i64)
    ensures
        final(out)@ == old(out)@ + dec_int(n as int),
{
    if n < 0 {
        out.push('-');
        let ghost mid = out@;
        let magnitude: u64 = (-(n as i128)) as u64;
        push_dec(out, magnitude);
        proof {
            assert(mid + dec(magnitude as nat) =~= old(out)@ + (seq!['-'] + dec(magnitude as nat)));
        }
    } else {
        push_dec(out, n as u64);
    }
}

/// The decimal digits of `n` as a string.
pub fn dec_string(n: u64) -> (s: String)
    ensures
        s@ == dec(n as nat),
{
    let mut s = String::new();
    push_dec(&mut s, n);
    assert(Seq::<char>::empty() + dec(n as nat) =~= dec(n as nat));
    s
}

/// Two digits, the first of them zero below ten.
pub open spec fn dec2(n: nat) -> Seq<char> {
    if n < 10 {
        seq!['0'] + dec(n)
    } else {
        dec(n)
    }
}

/// Appends a number padded with zeros to two digits.
pub fn push_dec2(out: &mut String, n: u64)
    ensures
        final(out)@ == old(out)@ + dec2(n as nat),
{
    let ghost start = out@;
    if n < 10 {
        out.push('0');
        let ghost mid = out@;
        push_dec(out, n);
        assert(mid + dec(n as nat) =~= start + (seq!['0'] + dec(n as nat)));
    } else {
        push_dec(out, n);
    }
}

/// `n` copies of `c`.
pub open spec fn repeat(c: char, n: int) -> Seq<char> {
    Seq::new(
        if n < 0 {
            0
        } else {
            n as nat
        },
        |i: int| c,
    )
}

/// Appends `n` copies of `c`.
pub fn push_repeat(out: &mut String, c: char, n: usize)
    ensures
        final(out)@ == old(out)@ + repeat(c, n as int),
{
    let ghost start = out@;
    let mut i: usize = 0;
    assert(start =~= start + repeat(c, 0));
    while i < n
        invariant
            i <= n,
            out@ == start + repeat(c, i as int),
        decreases n - i,
    {
        out.push(c);
        i = i + 1;
        assert(out@ =~= start + repeat(c, i as int));
    }
}

/// The text padded on the left with blanks to `width` characters.
pub open spec fn pad_left(s: Seq<char>, width: int) -> Seq<char> {
    repeat(' ', width - s.len()) + s
}

/// The text padded on the right with blanks to `width` characters.
pub open spec fn pad_right(s: Seq<char>, width: int) -> Seq<char> {
    s + repeat(' ', width - s.len())
}

/// Appends `s`, right-aligned in `width` characters.
pub fn push_pad_left(out: &mut String, s: &str, width: usize)
    ensures
        final(out)@ == old(out)@ + pad_left(s@, width as int),
{
    let ghost start = out@;
    let n: usize = s.unicode_len();
    if n < width {
        push_repeat(out, ' ', width - n);
    } else {
        assert(start =~= start + repeat(' ', width - s@.len()));
    }
    let ghost mid = out@;
    out.append(s);
    assert(mid + s@ =~= start + (repeat(' ', width - s@.len()) + s@));
}

/// Appends `s`, left-aligned in `width` characters.
pub fn push_pad_right(out: &mut String, s: &str, width: usize)
    ensures
        final(out)@ == old(out)@ + pad_right(s@, width as int),
{
    let ghost start = out@;
    let n: usize = s.unicode_len();
    out.append(s);
    let ghost mid = out@;
    if n < width {
        push_repeat(out, ' ', width - n);
    } else {
        assert(mid =~= mid + repeat(' ', width - s@.len()));
    }
    assert(mid + repeat(' ', width - s@.len()) =~= start + (s@ + repeat(' ', width - s@.len())));
}

/// Whether `c` is one of the digits `0` to `9`.
pub open spec fn is_digit(c: char) -> bool {
    '0' <= c <= '9'
}

/// Whether every character is a digit.
pub open spec fn all_digits(s: Seq<char>) -> bool {
    forall|i: int| 0 <= i < s.len() ==> is_digit(#[trigger] s[i])
}

/// The number that a sequence of digits denotes.
pub open spec fn value(s: Seq<char>) -> nat
    decreases s.len(),
{
    if s.len() == 0 {
        0
    } else {
        value(s.drop_last()) * 10 + (s.last() as int - 48) as nat
    }
}

/// The digits of an unsigned number, which may follow one plus sign.
pub open spec fn unsigned_part(s: Seq<char>) -> Seq<char> {
    if s.len() > 0 && s[0] == '+' {
        s.skip(1)
    } else {
        s
    }
}

/// The unsigned number that a text denotes, if it denotes one of at most `max`.
pub open spec fn parsed(s: Seq<char>, max: nat) -> Option<nat> {
    let d = unsigned_part(s);
    if d.len() > 0 && all_digits(d) && value(d) <= max {
        Some(value(d))
    } else {
        None
    }
}

/// The signed number that a text denotes, if it denotes one that fits in 64 bits.
pub open spec fn parsed_int(s: Seq<char>) -> Option<int> {
    if s.len() > 0 && s[0] == '-' {
        let d = s.skip(1);
        if d.len() > 0 && all_digits(d) && value(d) <= 0x8000_0000_0000_0000 {
            Some(-(value(d) as int))
        } else {
            None
        }
    } else {
        match parsed(s, 0x7fff_ffff_ffff_ffff) {
            Some(n) => Some(n as int),
            None => None,
        }
    }
}

/// A longer sequence of digits denotes no smaller number.
pub proof fn lemma_value_grows(s: Seq<char>, n: int)
    requires
        0 <= n <= s.len(),
        all_digits(s),
    ensures
        value(s.take(n)) <= value(s),
    decreases s.len() - n,
{
    if n < s.len() {
        lemma_value_grows(s, n + 1);
        assert(s.take(n + 1).drop_last() =~= s.take(n));
        assert(is_digit(s[n]));
    } else {
        assert(s.take(n) =~= s);
    }
}

/// Reads digits as a number of at most `max`.
fn parse_digits(s: &[char], max: u64) -> (r: Option<u64>)
    ensures
        match r {
            Some(n) => s@.len() > 0 && all_digits(s@) && value(s@) == n && n <= max,
            None => !(s@.len() > 0 && all_digits(s@) && value(s@) <= max),
        },
{
    if s.len() == 0 {
        return None;
    }
    let mut n: u64 = 0;
    let mut i: usize = 0;
    while i < s.len()
        invariant
            i <= s@.len(),
            all_digits(s@.take(i as int)),
            n == value(s@.take(i as int)),
            n <= max,
        decreases s@.len() - i,
    {
        let c: char = s[i];
        if !('0' <= c && c <= '9') {
            assert(!is_digit(s@[i as int]));
            return None;
        }
        let d: u64 = (c as u32 - 48) as u64;
        let wide: u128 = n as u128 * 10 + d as u128;
        proof {
            let t = s@.take(i + 1);
            assert(t.drop_last() =~= s@.take(i as int));
            assert forall|j: int| 0 <= j < t.len() implies is_digit(#[trigger] t[j]) by {
                if j < i {
                    assert(t[j] == s@.take(i as int)[j]);
                }
            }
            assert(value(t) == wide);
        }
        if wide > max as u128 {
            proof {
                if all_digits(s@) {
                    lemma_value_grows(s@, i + 1);
                }
            }
            return None;
        }
        n = wide as u64;
        i = i + 1;
    }
    assert(s@.take(s@.len() as int) =~= s@);
    Some(n)
}

/// Reads an unsigned number of at most `max`.
pub fn parse_unsigned(s: &[char], max: u64) -> (r: Option<u64>)
    ensures
        match r {
            Some(n) => parsed(s@, max as nat) == Some(n as nat),
            None => parsed(s@, max as nat) is None,
        },
        r matches Some(n) ==> n <= max,
{
    if s.len() > 0 && s[0] == '+' {
        let d = slice_subrange(s, 1, s.len());
        assert(d@ =~= s@.skip(1));
        parse_digits(d, max)
    } else {
        parse_digits(s, max)
    }
}

/// Reads an unsigned number of 64 bits.
pub fn parse_u64(s: &[char]) -> (r: Option<u64>)
    ensures
        match r {
            Some(n) => parsed(s@, u64::MAX as nat) == Some(n as nat),
            None => parsed(s@, u64::MAX as nat) is None,
        },
{
    parse_unsigned(s, u64::MAX)
}

/// Reads an unsigned number of 32 bits.
pub fn parse_u32(s: &[char]) -> (r: Option<u32>)
    ensures
        match r {
            Some(n) => parsed(s@, u32::MAX as nat) == Some(n as nat),
            None => parsed(s@, u32::MAX as nat) is None,
        },
{
    match parse_unsigned(s, u32::MAX as u64) {
        Some(n) => Some(n as u32),
        None => None,
    }
}

/// Reads a signed number of 64 bits.
pub fn parse_i64(s: &[char]) -> (r: Option<i64>)
    ensures
        match r {
            Some(n) => parsed_int(s@) == Some(n as int),
            None => parsed_int(s@) is None,
        },
{
    if s.len() > 0 && s[0] == '-' {
        let d = slice_subrange(s, 1, s.len());
        assert(d@ =~= s@.skip(1));
        match parse_digits(d, 0x8000_0000_0000_0000) {
            Some(n) => Some((-(n as i128)) as i64),
            None => None,
        }
    } else {
        match parse_unsigned(s, 0x7fff_ffff_ffff_ffff) {
            Some(n) => Some(n as i64),
            None => None,
        }
    }
}

/// The value of a hexadecimal digit, if `c` is one.
pub open spec fn hex_digit(c: char) -> Option<int> {
    if '0' <= c <= '9' {
        Some(c as int - 48)
    } else if 'a' <= c <= 'f' {
        Some(c as int - 87)
    } else if 'A' <= c <= 'F' {
        Some(c as int - 55)
    } else {
        None
    }
}

/// Whether every character is a hexadecimal digit.
pub open spec fn all_hex(s: Seq<char>) -> bool {
    forall|i: int| 0 <= i < s.len() ==> hex_digit(#[trigger] s[i]) is Some
}

/// The number that a sequence of hexadecimal digits denotes.
pub open spec fn hex_value(s: Seq<char>) -> nat
    decreases s.len(),
{
    if s.len() == 0 {
        0
    } else {
        hex_value(s.drop_last()) * 16 + (hex_digit(s.last())->0) as nat
    }
}

/// The number that a hexadecimal text denotes, if it fits in 32 bits.
pub open spec fn parsed_hex(s: Seq<char>) -> Option<nat> {
    let d = unsigned_part(s);
    if d.len() > 0 && all_hex(d) && hex_value(d) <= u32::MAX {
        Some(hex_value(d))
    } else {
        None
    }
}

pub proof fn lemma_hex_grows(s: Seq<char>, n: int)
    requires
        0 <= n <= s.len(),
        all_hex(s),
    ensures
        hex_value(s.take(n)) <= hex_value(s),
    decreases s.len() - n,
{
    if n < s.len() {
        lemma_hex_grows(s, n + 1);
        assert(s.take(n + 1).drop_last() =~= s.take(n));
        assert(hex_digit(s[n]) is Some);
    } else {
        assert(s.take(n) =~= s);
    }
}

/// The value of a hexadecimal digit.
fn hex_digit_of(c: char) -> (r: Option<u32>)
    ensures
        match r {
            Some(d) => hex_digit(c) == Some(d as int) && d < 16,
            None => hex_digit(c) is None,
        },
{
    if '0' <= c && c <= '9' {
        Some(c as u32 - 48)
    } else if 'a' <= c && c <= 'f' {
        Some(c as u32 - 87)
    } else if 'A' <= c && c <= 'F' {
        Some(c as u32 - 55)
    } else {
        None
    }
}

/// Reads a hexadecimal number of 32 bits, without a prefix.
pub fn parse_hex(text: &[char]) -> (r: Option<u32>)
    ensures
        match r {
            Some(n) => parsed_hex(text@) == Some(n as nat),
            None => parsed_hex(text@) is None,
        },
{
    let s: &[char] = if text.len() > 0 && text[0] == '+' {
        slice_subrange(text, 1, text.len())
    } else {
        text
    };
    assert(s@ =~= unsigned_part(text@));
    if s.len() == 0 {
        return None;
    }
    let mut n: u32 = 0;
    let mut i: usize = 0;
    while i < s.len()
        invariant
            i <= s@.len(),
            s@ == unsigned_part(text@),
            all_hex(s@.take(i as int)),
            n == hex_value(s@.take(i as int)),
        decreases s@.len() - i,
    {
        match hex_digit_of(s[i]) {
            Some(d) => {
                let wide: u64 = n as u64 * 16 + d as u64;
                proof {
                    let t = s@.take(i + 1);
                    assert(t.drop_last() =~= s@.take(i as int));
                    assert forall|j: int| 0 <= j < t.len() implies hex_digit(
                        #[trigger] t[j],
                    ) is Some by {
                        if j < i {
                            assert(t[j] == s@.take(i as int)[j]);
                        }
                    }
                    assert(hex_value(t) == wide);
                }
                if wide > u32::MAX as u64 {
                    proof {
                        if all_hex(s@) {
                            lemma_hex_grows(s@, i + 1);
                        }
                    }
                    return None;
                }
                n = wide as u32;
            },
            None => {
                assert(hex_digit(s@[i as int]) is None);
                return None;
            },
        }
        i = i + 1;
    }
    assert(s@.take(s@.len() as int) =~= s@);
    Some(n)
}

/// The character of a hexadecimal digit.
pub open spec fn hex_char(d: int) -> char {
    if d < 10 {
        digit(d)
    } else {
        (87 + d) as char
    }
}

/// Eight lower-case hexadecimal digits.
pub open spec fn hex8(n: nat) -> Seq<char> {
    seq![
        hex_char(((n / 0x1000_0000) % 16) as int),
        hex_char(((n / 0x100_0000) % 16) as int),
        hex_char(((n / 0x10_0000) % 16) as int),
        hex_char(((n / 0x1_0000) % 16) as int),
        hex_char(((n / 0x1000) % 16) as int),
        hex_char(((n / 0x100) % 16) as int),
        hex_char(((n / 0x10) % 16) as int),
        hex_char((n % 16) as int),
    ]
}

fn hex_digit_char(d: u32) -> (c: char)
    requires
        d < 16,
    ensures
        c == hex_char(d as int),
{
    if d < 10 {
        digit_char(d as u8)
    } else {
        let b: u8 = 87 + d as u8;
        b as char
    }
}

/// A number as eight hexadecimal digits.
pub fn hex8_string(n: u32) -> (s: String)
    ensures
        s@ == hex8(n as nat),
{
    let mut s = String::new();
    s.push(hex_digit_char((n / 0x1000_0000) % 16));
    s.push(hex_digit_char((n / 0x100_0000) % 16));
    s.push(hex_digit_char((n / 0x10_0000) % 16));
    s.push(hex_digit_char((n / 0x1_0000) % 16));
    s.push(hex_digit_char((n / 0x1000) % 16));
    s.push(hex_digit_char((n / 0x100) % 16));
    s.push(hex_digit_char((n / 0x10) % 16));
    s.push(hex_digit_char(n % 16));
    assert(s@ =~= hex8(n as nat));
    s
}

/// The digits of a number, with a comma before every third digit from the end.
pub open spec fn grouped(n: nat) -> Seq<char>
    decreases n,
{
    if n < 1000 {
        dec(n)
    } else {
        grouped(n / 1000) + seq![
            ',',
            digit(((n % 1000) / 100) as int),
            digit(((n % 100) / 10) as int),
            digit((n % 10) as int),
        ]
    }
}

/// Appends a number with its digits in groups of three.
pub fn push_grouped(out: &mut String, n: u64)
    ensures
        final(out)@ == old(out)@ + grouped(n as nat),
    decreases n,
{
    let ghost start = out@;
    if n < 1000 {
        push_dec(out, n);
    } else {
        push_grouped(out, n / 1000);
        let ghost head = out@;
        let low: u64 = n % 1000;
        out.push(',');
        out.push(digit_char((low / 100) as u8));
        out.push(digit_char(((low % 100) / 10) as u8));
        out.push(digit_char((low % 10) as u8));
        proof {
            assert(low % 100 == n % 100);
            assert(low % 10 == n % 10);
            let tail = seq![
                ',',
                digit(((n % 1000) / 100) as int),
                digit(((n % 100) / 10) as int),
                digit((n % 10) as int),
            ];
            assert(out@ =~= head + tail);
            assert(out@ =~= start + (grouped((n / 1000) as nat) + tail));
        }
    }
}

/// Parsing undoes decimal output.
pub proof fn lemma_parse_dec(n: nat, max: nat)
    requires
        n <= max,
    ensures
        parsed(dec(n), max) == Some(n),
{
    lemma_dec_value(n);
    assert(dec(n)[0] != '+') by {
        assert(is_digit(dec(n)[0]));
    }
}

/// The decimal digits of a number denote it.
pub proof fn lemma_dec_value(n: nat)
    ensures
        dec(n).len() > 0,
        all_digits(dec(n)),
        value(dec(n)) == n,
    decreases n,
{
    if n < 10 {
        assert(dec(n) =~= seq![digit(n as int)]);
        assert(dec(n).drop_last() =~= Seq::empty());
        assert(value(dec(n).drop_last()) == 0);
        assert(dec(n).last() as int == 48 + n);
    } else {
        lemma_dec_value(n / 10);
        let d = digit((n % 10) as int);
        assert(dec(n) == dec(n / 10).push(d));
        assert(dec(n).drop_last() =~= dec(n / 10));
        assert(dec(n).last() == d);
        assert(d as int == 48 + n % 10);
        assert forall|i: int| 0 <= i < dec(n).len() implies is_digit(#[trigger] dec(n)[i]) by {
            if i < dec(n / 10).len() {
                assert(dec(n)[i] == dec(n / 10)[i]);
            }
        }
    }
}

} // verus!
