//! The reports of measurements: lines of named values, and tables.
use crate::aging::summary::{field_texts, Field};
use crate::double::{
    hundredths_text, less, scaled, tenths_text, thousandths_text, Double, Parts,
};
use crate::info::types::strings;
use crate::number::{dec, dec_string};
use crate::text::group_concat;
use vstd::prelude::*;

verus! {

/// A part of a report: named values in a line, or a table.
pub enum Line {
    Values { name: String, fields: Vec<Field> },
    Table {
        name: String,
        unit: Option<&'static str>,
        header: Vec<&'static str>,
        rows: Vec<Vec<String>>,
    },
}

/// A part of a report, as text.
pub ghost enum Shown {
    Values(Seq<char>, Seq<(Seq<char>, Seq<char>)>),
    Table(Seq<char>, Option<Seq<char>>, Seq<Seq<char>>, Seq<Seq<Seq<char>>>),
}

/// The texts of a header.
pub open spec fn headings(v: Seq<&str>) -> Seq<Seq<char>> {
    Seq::new(v.len(), |i: int| v[i]@)
}

/// The texts of rows.
pub open spec fn row_texts(v: Seq<Vec<String>>) -> Seq<Seq<Seq<char>>> {
    Seq::new(v.len(), |i: int| strings(v[i]@))
}

impl View for Line {
    type V = Shown;

    open spec fn view(&self) -> Shown {
        match *self {
            Line::Values { name, fields } => Shown::Values(name@, field_texts(fields@)),
            Line::Table { name, unit, header, rows } => Shown::Table(
                name@,
                match unit {
                    Some(u) => Some(u@),
                    None => None,
                },
                headings(header@),
                row_texts(rows@),
            ),
        }
    }
}

/// The parts of a report, as texts.
pub open spec fn shown(v: Seq<Line>) -> Seq<Shown> {
    Seq::new(v.len(), |i: int| v[i]@)
}

pub(crate) fn push_line(lines: &mut Vec<Line>, line: Line)
    ensures
        shown(final(lines)@) == shown(old(lines)@).push(line@),
{
    let ghost before = shown(lines@);
    lines.push(line);
    assert(shown(lines@) =~= before.push(line@));
}

/// Appends a line of named values.
pub(crate) fn push_values(lines: &mut Vec<Line>, name: String, fields: Vec<Field>)
    ensures
        shown(final(lines)@) == shown(old(lines)@).push(
            Shown::Values(name@, field_texts(fields@)),
        ),
{
    push_line(lines, Line::Values { name, fields });
}

/// Appends a table.
pub(crate) fn push_table(
    lines: &mut Vec<Line>,
    name: &str,
    unit: Option<&'static str>,
    header: Vec<&'static str>,
    rows: Vec<Vec<String>>,
)
    ensures
        shown(final(lines)@) == shown(old(lines)@).push(
            Shown::Table(
                name@,
                match unit {
                    Some(u) => Some(u@),
                    None => None,
                },
                headings(header@),
                row_texts(rows@),
            ),
        ),
{
    push_line(lines, Line::Table { name: text(name), unit, header, rows });
}

/// One part of a report, or none.
pub open spec fn only_if(c: bool, s: Shown) -> Seq<Shown> {
    if c {
        seq![s]
    } else {
        Seq::empty()
    }
}

pub(crate) fn text(s: &str) -> (r: String)
    ensures
        r@ == s@,
{
    broadcast use group_concat;
    let mut r = String::new();
    r.append(s);
    r
}

pub(crate) fn value(name: &'static str, s: &str) -> (f: Field)
    ensures
        f.name@ == name@,
        f.value@ == s@,
{
    Field { name, value: text(s) }
}

pub(crate) fn number(name: &'static str, n: u64) -> (f: Field)
    ensures
        f.name@ == name@,
        f.value@ == dec(n as nat),
{
    Field { name, value: dec_string(n) }
}

/// A double with its sign.
#[derive(Clone, Copy, Debug)]
pub struct Signed {
    pub negative: bool,
    pub size: Double,
}

/// Whether a double can be held in sixty-four bits.
pub open spec fn holdable(d: Double) -> bool {
    d.wf() && -1100 <= d.exp <= 1000
}

/// A number with its sign, where it is negative.
pub open spec fn signed_text(negative: bool, digits: Seq<char>) -> Seq<char> {
    if negative {
        "-"@ + digits
    } else {
        digits
    }
}

impl Signed {
    /// The number with one decimal.
    pub open spec fn tenths(self) -> Seq<char> {
        signed_text(self.negative, tenths_text(scaled(self.size@, 10)))
    }

    /// The number with two decimals.
    pub open spec fn hundredths(self) -> Seq<char> {
        signed_text(self.negative, hundredths_text(scaled(self.size@, 100)))
    }

    /// The number with three decimals.
    pub open spec fn thousandths(self) -> Seq<char> {
        signed_text(self.negative, thousandths_text(scaled(self.size@, 1000)))
    }

    /// Whether the number is above another that is not negative.
    pub open spec fn above(self, p: Parts) -> bool {
        !self.negative && less(p, self.size@)
    }

    /// Whether the number is below the negative of another.
    pub open spec fn below_minus(self, p: Parts) -> bool {
        self.negative && less(p, self.size@)
    }

    fn sign(self) -> (s: String)
        ensures
            s@ == signed_text(self.negative, Seq::empty()),
    {
        broadcast use group_concat;
        let mut s = String::new();
        if self.negative {
            s.append("-");
        }
        s
    }

    /// The number with one decimal.
    pub fn one_decimal(self) -> (s: String)
        requires
            self.size.wf(),
        ensures
            s@ == self.tenths(),
    {
        broadcast use group_concat;
        let mut s = self.sign();
        self.size.push_one_decimal(&mut s);
        s
    }

    /// The number with two decimals.
    pub fn two_decimals(self) -> (s: String)
        requires
            self.size.wf(),
        ensures
            s@ == self.hundredths(),
    {
        broadcast use group_concat;
        let mut s = self.sign();
        self.size.push_two_decimals(&mut s);
        s
    }

    /// The number with three decimals.
    pub fn three_decimals(self) -> (s: String)
        requires
            self.size.wf(),
        ensures
            s@ == self.thousandths(),
    {
        broadcast use group_concat;
        let mut s = self.sign();
        self.size.push_three_decimals(&mut s);
        s
    }
}

} // verus!
