//! Points in time as dates of the Gregorian calendar.
use crate::number::{dec, dec2, push_dec, push_dec2};
use crate::text::group_concat;
use vstd::prelude::*;

verus! {

/// Whether a year has a day more.
pub open spec fn is_leap(y: nat) -> bool {
    y % 4 == 0 && (y % 100 != 0 || y % 400 == 0)
}

/// The days of a month.
pub open spec fn month_len(y: nat, m: nat) -> nat {
    if m == 2 {
        if is_leap(y) {
            29
        } else {
            28
        }
    } else if m == 4 || m == 6 || m == 9 || m == 11 {
        30
    } else {
        31
    }
}

/// The days of a year.
pub open spec fn year_len(y: nat) -> nat {
    if is_leap(y) {
        366
    } else {
        365
    }
}

/// The days of a year before a month.
pub open spec fn days_before_month(y: nat, m: nat) -> nat
    decreases m,
{
    if m <= 1 {
        0
    } else {
        days_before_month(y, (m - 1) as nat) + month_len(y, (m - 1) as nat)
    }
}

/// The days before a year, from the year zero.
pub open spec fn days_before_year(y: nat) -> nat
    decreases y,
{
    if y == 0 {
        0
    } else {
        days_before_year((y - 1) as nat) + year_len((y - 1) as nat)
    }
}

/// Whether a date is in the calendar.
pub open spec fn is_date(y: nat, m: nat, d: nat) -> bool {
    1 <= m <= 12 && 1 <= d <= month_len(y, m)
}

/// The number of a day, counted from the first day of the year zero.
pub open spec fn day_number(y: nat, m: nat, d: nat) -> int {
    days_before_year(y) + days_before_month(y, m) + d - 1
}

/// The number of the first day of 1970.
pub open spec fn epoch_day() -> int {
    719_528
}

/// The days before a year, in one step.
proof fn lemma_days_before_year(y: nat)
    ensures
        days_before_year(y) == 365 * y + (y + 3) / 4 - (y + 99) / 100 + (y + 399) / 400,
    decreases y,
{
    if y > 0 {
        let p = (y - 1) as nat;
        lemma_days_before_year(p);
        lemma_multiples_of_4(p);
        lemma_multiples_of_100(p);
        lemma_multiples_of_400(p);
        assert(p % 400 == 0 ==> p % 100 == 0);
        assert(p % 100 == 0 ==> p % 4 == 0);
    }
}

/// How many multiples of four are below the next number.
proof fn lemma_multiples_of_4(p: nat)
    ensures
        (p + 4) / 4 == (p + 3) / 4 + if p % 4 == 0 {
            1int
        } else {
            0
        },
{
}

/// How many multiples of a hundred are below the next number.
proof fn lemma_multiples_of_100(p: nat)
    ensures
        (p + 100) / 100 == (p + 99) / 100 + if p % 100 == 0 {
            1int
        } else {
            0
        },
{
}

/// How many multiples of four hundred are below the next number.
proof fn lemma_multiples_of_400(p: nat)
    ensures
        (p + 400) / 400 == (p + 399) / 400 + if p % 400 == 0 {
            1int
        } else {
            0
        },
{
}

/// The days before each month.
proof fn lemma_days_before_month(y: nat)
    ensures
        days_before_month(y, 1) == 0,
        days_before_month(y, 2) == 31,
        days_before_month(y, 3) == 59 + year_len(y) - 365,
        days_before_month(y, 4) == 90 + year_len(y) - 365,
        days_before_month(y, 5) == 120 + year_len(y) - 365,
        days_before_month(y, 6) == 151 + year_len(y) - 365,
        days_before_month(y, 7) == 181 + year_len(y) - 365,
        days_before_month(y, 8) == 212 + year_len(y) - 365,
        days_before_month(y, 9) == 243 + year_len(y) - 365,
        days_before_month(y, 10) == 273 + year_len(y) - 365,
        days_before_month(y, 11) == 304 + year_len(y) - 365,
        days_before_month(y, 12) == 334 + year_len(y) - 365,
{
    reveal_with_fuel(days_before_month, 13);
}

/// The year of a day within four centuries that begin in March, and the day of that year.
proof fn lemma_year_of_era(doe: int, yoe: int, doy: int)
    requires
        0 <= doe < 146_097,
        yoe == (doe - doe / 1460 + doe / 36524 - doe / 146_096) / 365,
        doy == doe - (365 * yoe + yoe / 4 - yoe / 100),
    ensures
        0 <= yoe < 400,
        0 <= doy <= 365,
        doy == 365 ==> (yoe + 1) % 4 == 0 && ((yoe + 1) % 100 != 0 || (yoe + 1) % 400 == 0),
{
    let c = doe / 36524;
    assert(0 <= c <= 4);
    assert(c == 4 ==> doe == 146_096);
}

/// The date of a day, counted from the first day of 1970.
pub fn epoch_days_to_date(days: u64) -> (r: (u64, u64, u64))
    requires
        days <= u64::MAX - 719_468,
    ensures
        is_date(r.0 as nat, r.1 as nat, r.2 as nat),
        day_number(r.0 as nat, r.1 as nat, r.2 as nat) == days + epoch_day(),
{
    let z: u64 = days + 719_468;
    let era: u64 = z / 146_097;
    let doe: u64 = z - era * 146_097;
    let yoe: u64 = (doe - doe / 1460 + doe / 36524 - doe / 146_096) / 365;
    let y: u64 = yoe + era * 400;
    proof {
        lemma_year_of_era(
            doe as int,
            yoe as int,
            doe - (365 * yoe + yoe / 4 - yoe / 100),
        );
    }
    let doy: u64 = doe - (365 * yoe + yoe / 4 - yoe / 100);
    let mp: u64 = (5 * doy + 2) / 153;
    let d: u64 = doy - (153 * mp + 2) / 5 + 1;
    let m: u64 = if mp < 10 {
        mp + 3
    } else {
        mp - 9
    };
    let year: u64 = if m <= 2 {
        y + 1
    } else {
        y
    };
    proof {
        lemma_march_years(era as int, yoe as int);
        lemma_date(y as nat, doy as int, mp as int, year as nat, m as nat, d as int);
        assert(z == 365 * y + y / 4 - y / 100 + y / 400 + doy);
    }
    (year, m, d)
}

/// Years within four centuries, and the same years counted from zero.
proof fn lemma_march_years(era: int, yoe: int)
    requires
        0 <= era,
        0 <= yoe < 400,
    ensures
        ({
            let y = yoe + 400 * era;
            &&& y / 4 == yoe / 4 + 100 * era
            &&& y / 100 == yoe / 100 + 4 * era
            &&& y / 400 == era
            &&& (y + 1) % 4 == (yoe + 1) % 4
            &&& (y + 1) % 100 == (yoe + 1) % 100
            &&& (y + 1) % 400 == (yoe + 1) % 400
        }),
{
}

/// The first of March of a year, and of the year after its January.
proof fn lemma_first_of_march(y: nat)
    ensures
        days_before_year(y) + 59 + year_len(y) - 365 == 60 + 365 * y + y / 4 - y / 100 + y / 400,
        days_before_year(y + 1) == 366 + 365 * y + y / 4 - y / 100 + y / 400,
{
    lemma_days_before_year(y);
    lemma_multiples_of_4(y);
    lemma_multiples_of_100(y);
    lemma_multiples_of_400(y);
    assert(y % 400 == 0 ==> y % 100 == 0);
    assert(y % 100 == 0 ==> y % 4 == 0);
    assert((y + 4) / 4 == y / 4 + 1);
    assert((y + 100) / 100 == y / 100 + 1);
    assert((y + 400) / 400 == y / 400 + 1);
}

/// The date of a day of a year that begins in March.
proof fn lemma_date(y: nat, doy: int, mp: int, year: nat, m: nat, d: int)
    requires
        0 <= doy <= 365,
        doy == 365 ==> is_leap(y + 1),
        mp == (5 * doy + 2) / 153,
        d == doy - (153 * mp + 2) / 5 + 1,
        m == if mp < 10 {
            mp + 3
        } else {
            mp - 9
        },
        year == if m <= 2 {
            y + 1
        } else {
            y
        },
    ensures
        d >= 1,
        is_date(year, m, d as nat),
        day_number(year, m, d as nat) == 60 + 365 * y + y / 4 - y / 100 + y / 400 + doy,
{
    lemma_month(doy, mp);
    lemma_first_of_march(y);
    lemma_days_before_month(year);
}

/// The months of a year that begins in March, by their lengths.
proof fn lemma_month(doy: int, mp: int)
    requires
        0 <= doy <= 365,
        mp == (5 * doy + 2) / 153,
    ensures
        0 <= mp <= 11,
        (153 * mp + 2) / 5 <= doy < (153 * (mp + 1) + 2) / 5,
        mp == 0 ==> doy < 31,
        mp == 1 ==> 31 <= doy < 61,
        mp == 2 ==> 61 <= doy < 92,
        mp == 3 ==> 92 <= doy < 122,
        mp == 4 ==> 122 <= doy < 153,
        mp == 5 ==> 153 <= doy < 184,
        mp == 6 ==> 184 <= doy < 214,
        mp == 7 ==> 214 <= doy < 245,
        mp == 8 ==> 245 <= doy < 275,
        mp == 9 ==> 275 <= doy < 306,
        mp == 10 ==> 306 <= doy < 337,
        mp == 11 ==> 337 <= doy,
        (153 * mp + 2) / 5 == if mp == 0 {
            0
        } else if mp == 1 {
            31
        } else if mp == 2 {
            61
        } else if mp == 3 {
            92
        } else if mp == 4 {
            122
        } else if mp == 5 {
            153
        } else if mp == 6 {
            184
        } else if mp == 7 {
            214
        } else if mp == 8 {
            245
        } else if mp == 9 {
            275
        } else if mp == 10 {
            306
        } else {
            337int
        },
{
}

/// The days before a month end before the year does.
proof fn lemma_month_in_year(y: nat, m: nat)
    requires
        1 <= m <= 12,
    ensures
        days_before_month(y, m) + month_len(y, m) <= year_len(y),
{
    lemma_days_before_month(y);
}

/// Later years begin later.
proof fn lemma_years_grow(a: nat, b: nat)
    requires
        a < b,
    ensures
        days_before_year(a) + year_len(a) <= days_before_year(b),
    decreases b,
{
    if a + 1 < b {
        lemma_years_grow(a, (b - 1) as nat);
    }
}

/// Later months begin later.
proof fn lemma_months_grow(y: nat, a: nat, b: nat)
    requires
        1 <= a < b,
    ensures
        days_before_month(y, a) + month_len(y, a) <= days_before_month(y, b),
    decreases b,
{
    if a + 1 < b {
        lemma_months_grow(y, a, (b - 1) as nat);
    }
}

/// A day has one date: two dates of the calendar with the same number are the same.
pub proof fn law_one_date_per_day(y: nat, m: nat, d: nat, y2: nat, m2: nat, d2: nat)
    requires
        is_date(y, m, d),
        is_date(y2, m2, d2),
        day_number(y, m, d) == day_number(y2, m2, d2),
    ensures
        y == y2,
        m == m2,
        d == d2,
{
    lemma_month_in_year(y, m);
    lemma_month_in_year(y2, m2);
    if y < y2 {
        lemma_years_grow(y, y2);
    } else if y2 < y {
        lemma_years_grow(y2, y);
    }
    if m < m2 {
        lemma_months_grow(y, m, m2);
    } else if m2 < m {
        lemma_months_grow(y, m2, m);
    }
}

/// Four digits, with zeros in front of smaller numbers.
pub open spec fn dec4(n: nat) -> Seq<char> {
    if n < 10 {
        "000"@ + dec(n)
    } else if n < 100 {
        "00"@ + dec(n)
    } else if n < 1000 {
        "0"@ + dec(n)
    } else {
        dec(n)
    }
}

fn push_dec4(out: &mut String, n: u64)
    ensures
        final(out)@ == old(out)@ + dec4(n as nat),
{
    broadcast use group_concat;

    if n < 10 {
        out.append("000");
    } else if n < 100 {
        out.append("00");
    } else if n < 1000 {
        out.append("0");
    }
    push_dec(out, n);
}

/// Whether a text is a point in time: the date and the time of day, by their numbers.
pub open spec fn is_timestamp(s: Seq<char>, y: nat, m: nat, d: nat, second: nat) -> bool {
    s == dec4(y) + "-"@ + dec2(m) + "-"@ + dec2(d) + "T"@ + dec2(second / 3600) + ":"@ + dec2(
        second % 3600 / 60,
    ) + ":"@ + dec2(second % 60) + "Z"@
}

/// The point in time, in seconds from the first day of 1970, as a text; `unknown`
/// where the clock tells none.
pub fn iso8601(secs: Option<u64>) -> (s: String)
    ensures
        match secs {
            Some(n) => exists|y: nat, m: nat, d: nat|
                is_date(y, m, d) && day_number(y, m, d) == n / 86400 + epoch_day()
                    && #[trigger] is_timestamp(s@, y, m, d, (n % 86400) as nat),
            None => s@ == "unknown"@,
        },
{
    broadcast use group_concat;

    let mut s = String::new();
    match secs {
        Some(n) => {
            let (year, month, day) = epoch_days_to_date(n / 86400);
            let t: u64 = n % 86400;
            push_dec4(&mut s, year);
            s.append("-");
            push_dec2(&mut s, month);
            s.append("-");
            push_dec2(&mut s, day);
            s.append("T");
            push_dec2(&mut s, t / 3600);
            s.append(":");
            push_dec2(&mut s, t % 3600 / 60);
            s.append(":");
            push_dec2(&mut s, t % 60);
            s.append("Z");
            assert(is_timestamp(s@, year as nat, month as nat, day as nat, t as nat));
        },
        None => {
            s.append("unknown");
        },
    }
    s
}

} // verus!
