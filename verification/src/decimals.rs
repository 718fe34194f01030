//! Numbers with decimals read back as what they were written from.
use crate::double::{hundredths_text, tenths_text, thousandths_text};
use crate::number::{all_digits, dec, lemma_dec_value, value};
use vstd::prelude::*;

verus! {

/// A number with one decimal reads back as its tenths.
pub proof fn law_tenths_read_back(t: nat)
    ensures
        ({
            let s = tenths_text(t);
            let n = s.len() as int;
            &&& n >= 3
            &&& s[n - 2] == '.'
            &&& all_digits(s.take(n - 2))
            &&& all_digits(s.skip(n - 1))
            &&& value(s.take(n - 2)) * 10 + value(s.skip(n - 1)) == t
        }),
{
    let s = tenths_text(t);
    let n = s.len() as int;
    lemma_dec_value(t / 10);
    lemma_dec_value(t % 10);
    assert(s.take(n - 2) =~= dec(t / 10));
    assert(s.skip(n - 1) =~= dec(t % 10));
}

/// A number with two decimals reads back as its hundredths.
pub proof fn law_hundredths_read_back(t: nat)
    ensures
        ({
            let s = hundredths_text(t);
            let n = s.len() as int;
            &&& n >= 4
            &&& s[n - 3] == '.'
            &&& all_digits(s.take(n - 3))
            &&& all_digits(s.skip(n - 2))
            &&& value(s.take(n - 3)) * 100 + value(s.skip(n - 2)) == t
        }),
{
    let s = hundredths_text(t);
    let n = s.len() as int;
    lemma_dec_value(t / 100);
    let two = s.skip(n - 2);
    let a = ((t % 100) / 10) as nat;
    let b = t % 10;
    lemma_dec_value(a);
    lemma_dec_value(b);
    assert(s.take(n - 3) =~= dec(t / 100));
    assert(two.drop_last() =~= dec(a));
    assert(two =~= dec(a) + dec(b));
    assert(two.last() == dec(b)[0]);
    assert(dec(b).drop_last() =~= Seq::<char>::empty());
    assert(value(dec(b).drop_last()) == 0);
    assert(value(two) == a * 10 + b);
}

/// A number with three decimals reads back as its thousandths.
pub proof fn law_thousandths_read_back(t: nat)
    ensures
        ({
            let s = thousandths_text(t);
            let n = s.len() as int;
            &&& n >= 5
            &&& s[n - 4] == '.'
            &&& all_digits(s.take(n - 4))
            &&& all_digits(s.skip(n - 3))
            &&& value(s.take(n - 4)) * 1000 + value(s.skip(n - 3)) == t
        }),
{
    let s = thousandths_text(t);
    let n = s.len() as int;
    lemma_dec_value(t / 1000);
    let three = s.skip(n - 3);
    let a = ((t % 1000) / 100) as nat;
    let b = ((t % 100) / 10) as nat;
    let c = t % 10;
    lemma_dec_value(a);
    lemma_dec_value(b);
    lemma_dec_value(c);
    assert(s.take(n - 4) =~= dec(t / 1000));
    let two = three.drop_last();
    assert(two.drop_last() =~= dec(a));
    assert(two =~= dec(a) + dec(b));
    assert(three =~= dec(a) + dec(b) + dec(c));
    assert(two.last() == dec(b)[0]);
    assert(three.last() == dec(c)[0]);
    assert(dec(b).drop_last() =~= Seq::<char>::empty());
    assert(dec(c).drop_last() =~= Seq::<char>::empty());
    assert(value(dec(b).drop_last()) == 0);
    assert(value(two) == a * 10 + b);
    assert(value(three) == value(two) * 10 + c);
}

} // verus!
