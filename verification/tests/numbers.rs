//! Numbers and words: floating point in whole numbers against the machine's own, decimal
//! and hexadecimal text, and the cutting of text.
use dhp::double::{push_hundredths, push_tenths, push_thousandths, Double};
use dhp::number::{
    dec_string, hex8_string, parse_hex, parse_i64, parse_u32, parse_u64, push_dec2, push_dec_int,
    push_pad_left, push_pad_right, push_repeat,
};
use dhp::order::{sorted_unique, string_less};
use dhp::procfs::{blocks_above_order, max_contiguous_order, pages_of_order, total_free_pages};
use dhp::sort::sorted_values;
use dhp::text::{
    chars_of, find_char, lines_of, same_string, split_at_char, string_of, trimmed, words_of,
};

/// Whole numbers of many sizes, in no order.
fn numbers() -> Vec<u64> {
    let mut v = vec![
        0,
        1,
        2,
        3,
        5,
        7,
        10,
        99,
        100,
        1000,
        1024,
        4095,
        4096,
        65_535,
        1 << 52,
        (1 << 53) - 1,
        1 << 53,
        (1 << 53) + 1,
        (1 << 54) + 2,
        (1 << 54) + 6,
        u64::MAX / 3,
        u64::MAX - 1024,
        u64::MAX - 1,
        u64::MAX,
    ];
    let mut x: u64 = 0x9E37_79B9_7F4A_7C15;
    for i in 0..60u32 {
        x ^= x << 13;
        x ^= x >> 7;
        x ^= x << 17;
        v.push(x >> i);
    }
    v
}

fn shown_one(d: Double) -> String {
    let mut s = String::new();
    d.push_one_decimal(&mut s);
    s
}

fn shown_two(d: Double) -> String {
    let mut s = String::new();
    d.push_two_decimals(&mut s);
    s
}

fn shown_three(d: Double) -> String {
    let mut s = String::new();
    d.push_three_decimals(&mut s);
    s
}

fn shown_whole(d: Double) -> String {
    let mut s = String::new();
    d.push_rounded(&mut s);
    s
}

#[test]
fn whole_numbers_as_the_machine_rounds_them() {
    for n in numbers() {
        assert_eq!(shown_whole(Double::from_int(n)), format!("{:.0}", n as f64));
        assert_eq!(shown_one(Double::from_int(n)), format!("{:.1}", n as f64));
    }
}

#[test]
fn quotients_as_the_machine_rounds_them() {
    for a in numbers() {
        for b in numbers() {
            if b == 0 {
                continue;
            }
            let d = Double::from_int(a).divided_by(Double::from_int(b));
            let f = a as f64 / b as f64;
            assert_eq!(shown_one(d), format!("{f:.1}"), "{a} / {b}");
            assert_eq!(shown_two(d), format!("{f:.2}"), "{a} / {b}");
            assert_eq!(shown_three(d), format!("{f:.3}"), "{a} / {b}");
            assert_eq!(shown_whole(d), format!("{f:.0}"), "{a} / {b}");
        }
    }
}

#[test]
fn products_and_sums_as_the_machine_rounds_them() {
    for a in numbers() {
        for b in numbers() {
            let p = Double::from_int(a).times(Double::from_int(b));
            assert_eq!(
                shown_one(p.divided_by(Double::from_int(1_000_003))),
                format!("{:.1}", a as f64 * b as f64 / 1_000_003.0),
                "{a} * {b}"
            );
            let s = Double::from_int(a).plus(Double::from_int(b));
            assert_eq!(
                shown_three(s.divided_by(Double::from_int(7))),
                format!("{:.3}", (a as f64 + b as f64) / 7.0),
                "{a} + {b}"
            );
            if a >= b {
                assert_eq!(
                    shown_three(Double::difference(a, b).divided_by(Double::from_int(3))),
                    format!("{:.3}", (a as f64 - b as f64) / 3.0),
                    "{a} - {b}"
                );
            }
        }
    }
}

#[test]
fn comparisons_and_rounding_as_the_machine_does_them() {
    for a in numbers() {
        for b in numbers() {
            if b == 0 {
                continue;
            }
            let d = Double::from_int(a).divided_by(Double::from_int(b));
            let f = a as f64 / b as f64;
            assert_eq!(d.is_less(Double::from_int(1)), f < 1.0, "{a} / {b}");
            assert_eq!(
                shown_one(d.round()),
                format!("{:.1}", f.round()),
                "{a} / {b}"
            );
            assert_eq!(d.ceiling_to_int(), f.ceil() as u128, "{a} / {b}");
        }
    }
}

#[test]
fn fixed_decimals() {
    let mut s = String::new();
    push_tenths(&mut s, 125);
    s.push(' ');
    push_hundredths(&mut s, 1205);
    s.push(' ');
    push_thousandths(&mut s, 7);
    assert_eq!(s, "12.5 12.05 0.007");
}

#[test]
fn numbers_as_text() {
    for n in numbers() {
        assert_eq!(dec_string(n), n.to_string());
        let mut s = String::new();
        push_dec_int(&mut s, n as i64);
        assert_eq!(s, (n as i64).to_string());
        assert_eq!(hex8_string(n as u32), format!("{:08x}", n as u32));
    }
}

#[test]
fn padding() {
    let mut s = String::new();
    push_dec2(&mut s, 7);
    push_dec2(&mut s, 123);
    push_repeat(&mut s, '#', 3);
    push_pad_left(&mut s, "ab", 4);
    push_pad_right(&mut s, "cd", 4);
    push_pad_left(&mut s, "long", 2);
    assert_eq!(s, "07123###  abcd  long");
}

#[test]
fn text_as_numbers() {
    for t in [
        "0", "7", "007", "+7", "-7", "", "+", "-", "12a", " 1", "4294967295", "4294967296",
        "18446744073709551615", "18446744073709551616", "9223372036854775807",
        "9223372036854775808", "-9223372036854775808", "-9223372036854775809", "--1", "+-1",
        "-0",
    ] {
        let c = chars_of(t);
        assert_eq!(parse_u64(&c), t.parse::<u64>().ok(), "{t:?}");
        assert_eq!(parse_u32(&c), t.parse::<u32>().ok(), "{t:?}");
        assert_eq!(parse_i64(&c), t.parse::<i64>().ok(), "{t:?}");
    }
}

#[test]
fn text_as_hexadecimal_numbers() {
    for t in ["0", "ff", "FF", "00008002", "100000000", "ffffffff", "", "g", "0x1", "+a"] {
        assert_eq!(
            parse_hex(&chars_of(t)),
            u32::from_str_radix(t, 16).ok(),
            "{t:?}"
        );
    }
}

fn texts(v: Vec<&[char]>) -> Vec<String> {
    v.iter().map(|s| string_of(s)).collect()
}

#[test]
fn text_is_cut_as_std_cuts_it() {
    for t in [
        "", "a", " a b ", "\ta\n\nb\r\nc", "a\n", "\n", "one  two\tthree", "x,y,,z", ",",
        "\u{a0}a\u{3000}b",
    ] {
        let c = chars_of(t);
        assert_eq!(string_of(trimmed(&c)), t.trim(), "{t:?}");
        let lines: Vec<String> = t.lines().map(|s| s.to_string()).collect();
        assert_eq!(texts(lines_of(&c)), lines, "{t:?}");
        let words: Vec<String> = t.split_whitespace().map(|s| s.to_string()).collect();
        assert_eq!(texts(words_of(&c)), words, "{t:?}");
        let parts: Vec<String> = t.split(',').map(|s| s.to_string()).collect();
        assert_eq!(texts(split_at_char(&c, ',')), parts, "{t:?}");
        assert_eq!(
            find_char(&c, 'b'),
            t.chars().position(|x| x == 'b').unwrap_or(c.len()),
            "{t:?}"
        );
    }
}

#[test]
fn texts_are_ordered_as_std_orders_them() {
    let words = ["", "a", "ab", "b", "B", "\u{e9}", "\u{ff5e}", "\u{1f600}", "aa"];
    for a in words {
        for b in words {
            assert_eq!(string_less(a, b), a < b, "{a:?} {b:?}");
            assert_eq!(same_string(a, b), a == b, "{a:?} {b:?}");
        }
    }
    assert_eq!(
        sorted_unique(&vec!["system", "reserved", "system", "cma"]),
        vec!["cma", "reserved", "system"]
    );
}

#[test]
fn values_are_sorted() {
    let v = numbers();
    let mut w = v.clone();
    w.sort();
    assert_eq!(sorted_values(&v), w);
}

#[test]
fn free_pages_of_a_zone() {
    assert_eq!(total_free_pages(&[3, 2, 1]), 3 + 4 + 4);
    assert_eq!(total_free_pages(&[]), 0);
    assert_eq!(max_contiguous_order(&[3, 2, 0, 1, 0]), 3);
    assert_eq!(max_contiguous_order(&[0, 0]), 0);
    assert_eq!(blocks_above_order(&[1, 2, 3, 4], 2), 7);
    assert_eq!(blocks_above_order(&[1, 2], 5), 0);
    assert_eq!(pages_of_order(0), 4096);
    assert_eq!(pages_of_order(10), 4 << 20);
}
