//! Parsers of the kernel's text files.
use crate::info::types::{nats, strings, BufRecord, DebugfsBufEntry, ZoneEntry, ZoneRecord};
use crate::number::{parse_hex, parse_i64, parse_u32, parse_u64, parsed, parsed_hex, parsed_int};
use crate::text::{
    chars_of, find, find_char, has_prefix, is_text, lemma_find, lemma_lines_concat, lines,
    lines_of, same_text, split, split_at_char, starts_with, string_of, strip_prefix, texts, trim,
    trim_start, trimmed, trimmed_start, whole_lines, words, words_of,
};
use vstd::prelude::*;
use vstd::slice::slice_subrange;

verus! {

/// The text without the prefix `0x`, however often it occurs in front.
pub open spec fn strip_0x(s: Seq<char>) -> Seq<char>
    decreases s.len(),
{
    if s.len() >= 2 && s[0] == '0' && s[1] == 'x' {
        strip_0x(s.skip(2))
    } else {
        s
    }
}

fn stripped_0x(s: &[char]) -> (r: &[char])
    ensures
        r@ == strip_0x(s@),
{
    let mut i: usize = 0;
    assert(s@.skip(0) =~= s@);
    while s.len() - i >= 2 && s[i] == '0' && s[i + 1] == 'x'
        invariant
            i <= s@.len(),
            strip_0x(s@.skip(i as int)) == strip_0x(s@),
        decreases s@.len() - i,
    {
        proof {
            assert(s@.skip(i as int).skip(2) =~= s@.skip(i + 2));
        }
        i = i + 2;
    }
    slice_subrange(s, i, s.len())
}

/// A flags field: hexadecimal where it reads so, else decimal, else zero.
pub open spec fn flags_value(field: Seq<char>) -> nat {
    match parsed_hex(strip_0x(trim(field))) {
        Some(n) => n,
        None => match parsed(trim(field), u32::MAX as nat) {
            Some(n) => n,
            None => 0,
        },
    }
}

fn flags_of(field: &[char]) -> (r: u32)
    ensures
        r == flags_value(field@),
{
    let t = trimmed(field);
    match parse_hex(stripped_0x(t)) {
        Some(n) => n,
        None => match parse_u32(t) {
            Some(n) => n,
            None => 0,
        },
    }
}

/// The number in a field, or zero.
pub open spec fn number_or_zero(field: Seq<char>) -> nat {
    match parsed(field, u64::MAX as nat) {
        Some(n) => n,
        None => 0,
    }
}

fn number_of(field: &[char]) -> (r: u64)
    ensures
        r == number_or_zero(field@),
{
    match parse_u64(field) {
        Some(n) => n,
        None => 0,
    }
}

/// The signed number in a field, or zero.
pub open spec fn int_or_zero(field: Seq<char>) -> int {
    match parsed_int(field) {
        Some(n) => n,
        None => 0,
    }
}

fn int_of(field: &[char]) -> (r: i64)
    ensures
        r == int_or_zero(field@),
{
    match parse_i64(field) {
        Some(n) => n,
        None => 0,
    }
}

/// The device named in the eighth field of a buffer line, where there is one.
pub open spec fn inline_devices(fields: Seq<Seq<char>>) -> Seq<Seq<char>> {
    if fields.len() > 7 && trim(fields[7]).len() > 0 && trim(fields[7]) != "Total"@ {
        seq![trim(fields[7])]
    } else {
        Seq::empty()
    }
}

/// The buffer that a line of the buffer list describes, where it describes one:
/// seven fields or more, separated by tabs, the first of them a size.
pub open spec fn buffer_line(line: Seq<char>) -> Option<BufRecord> {
    let t = trim(line);
    let f = split(t, '\t');
    if t.len() == 0 || starts_with(t, "Dma-buf"@) || f.len() < 7 || parsed(
        trim(f[0]),
        u64::MAX as nat,
    ) is None {
        None
    } else {
        Some(
            BufRecord {
                size: parsed(trim(f[0]), u64::MAX as nat)->0,
                flags: flags_value(f[1]),
                mode: flags_value(f[2]),
                count: int_or_zero(trim(f[3])),
                exp_name: trim(f[4]),
                ino: number_or_zero(trim(f[5])),
                name: trim(f[6]),
                devices: inline_devices(f),
            },
        )
    }
}

/// The device that a continuation line names: its first field, unless that is
/// empty, a number or the word `Total`.
pub open spec fn device_line(line: Seq<char>) -> Option<Seq<char>> {
    let t = trim(line);
    let d = trim(split(t, '\t')[0]);
    if t.len() > 0 && d.len() > 0 && d != "Total"@ && parsed(d, u64::MAX as nat) is None {
        Some(d)
    } else {
        None
    }
}

/// Whether a line continues the one before it: it begins with a tab.
pub open spec fn continues(line: Seq<char>) -> bool {
    line.len() > 0 && line[0] == '\t'
}

/// How many lines in front are continuation lines.
pub open spec fn continuation_run(ls: Seq<Seq<char>>) -> nat
    decreases ls.len(),
{
    if ls.len() > 0 && continues(ls[0]) {
        1 + continuation_run(ls.skip(1))
    } else {
        0
    }
}

/// The devices that lines name, in order.
pub open spec fn devices_of(ls: Seq<Seq<char>>) -> Seq<Seq<char>>
    decreases ls.len(),
{
    if ls.len() == 0 {
        Seq::empty()
    } else {
        match device_line(ls.last()) {
            Some(d) => devices_of(ls.drop_last()).push(d),
            None => devices_of(ls.drop_last()),
        }
    }
}

pub proof fn lemma_continuation_run(ls: Seq<Seq<char>>)
    ensures
        continuation_run(ls) <= ls.len(),
        forall|j: int| 0 <= j < continuation_run(ls) ==> continues(#[trigger] ls[j]),
        continuation_run(ls) < ls.len() ==> !continues(ls[continuation_run(ls) as int]),
    decreases ls.len(),
{
    if ls.len() > 0 && continues(ls[0]) {
        lemma_continuation_run(ls.skip(1));
        assert forall|j: int| 0 <= j < continuation_run(ls) implies continues(#[trigger] ls[j]) by {
            if j > 0 {
                assert(ls.skip(1)[j - 1] == ls[j]);
            }
        }
    }
}

/// The buffers of the buffer list: each line that describes one, with the devices
/// of the continuation lines right behind it.
pub open spec fn buffer_records(ls: Seq<Seq<char>>) -> Seq<BufRecord>
    decreases ls.len(),
    via buffer_records_decreases
{
    if ls.len() == 0 {
        Seq::empty()
    } else {
        match buffer_line(ls[0]) {
            None => buffer_records(ls.skip(1)),
            Some(b) => {
                let n = continuation_run(ls.skip(1)) as int;
                seq![
                    BufRecord {
                        devices: b.devices + devices_of(ls.subrange(1, 1 + n)),
                        ..b
                    },
                ] + buffer_records(ls.skip(1 + n))
            },
        }
    }
}

#[via_fn]
proof fn buffer_records_decreases(ls: Seq<Seq<char>>) {
    if ls.len() > 0 {
        lemma_continuation_run(ls.skip(1));
    }
}

proof fn lemma_continuation_concat(x: Seq<Seq<char>>, y: Seq<Seq<char>>)
    requires
        y.len() > 0 ==> !continues(y[0]),
    ensures
        continuation_run(x + y) == continuation_run(x),
    decreases x.len(),
{
    if x.len() > 0 {
        assert((x + y)[0] == x[0]);
        assert((x + y).skip(1) =~= x.skip(1) + y);
        lemma_continuation_concat(x.skip(1), y);
    } else {
        assert(x + y =~= y);
    }
}

proof fn lemma_buffers_concat(x: Seq<Seq<char>>, y: Seq<Seq<char>>)
    requires
        y.len() > 0 ==> !continues(y[0]),
    ensures
        buffer_records(x + y) == buffer_records(x) + buffer_records(y),
    decreases x.len(),
{
    if x.len() == 0 {
        assert(x + y =~= y);
        assert(buffer_records(x) + buffer_records(y) =~= buffer_records(y));
    } else {
        let tail = x.skip(1);
        assert((x + y)[0] == x[0]);
        assert((x + y).skip(1) =~= tail + y);
        match buffer_line(x[0]) {
            None => {
                lemma_buffers_concat(tail, y);
            },
            Some(_) => {
                let n = continuation_run(tail) as int;
                lemma_continuation_run(tail);
                lemma_continuation_concat(tail, y);
                assert((x + y).subrange(1, 1 + n) =~= x.subrange(1, 1 + n));
                assert((x + y).skip(1 + n) =~= x.skip(1 + n) + y);
                lemma_buffers_concat(x.skip(1 + n), y);
                assert(buffer_records(x + y) =~= buffer_records(x) + buffer_records(y));
            },
        }
    }
}

/// A buffer list can be read in parts: where the first part ends with a line and the second
/// does not go on with devices, the buffers of the whole are those of the first part and
/// then those of the second.
pub proof fn law_buffer_list_in_parts(a: Seq<char>, b: Seq<char>)
    requires
        whole_lines(a),
        !continues(b),
    ensures
        buffer_records(lines(a + b)) == buffer_records(lines(a)) + buffer_records(lines(b)),
{
    lemma_lines_concat(a, b);
    lemma_find(b, '\n');
    if b.len() > 0 {
        assert(lines(b)[0].len() > 0 ==> lines(b)[0][0] == b[0]);
    }
    lemma_buffers_concat(lines(a), lines(b));
}

/// The contents of a sequence of entries.
pub open spec fn records(v: Seq<DebugfsBufEntry>) -> Seq<BufRecord> {
    Seq::new(v.len(), |i: int| v[i]@)
}

fn device_of(line: &[char]) -> (r: Option<String>)
    ensures
        match r {
            Some(d) => device_line(line@) == Some(d@),
            None => device_line(line@) is None,
        },
{
    let t = trimmed(line);
    if t.len() == 0 {
        return None;
    }
    let parts = split_at_char(t, '\t');
    assert(texts(parts@)[0] == parts@[0]@);
    let d = trimmed(parts[0]);
    if d.len() > 0 && !is_text(d, "Total") && parse_u64(d).is_none() {
        Some(string_of(d))
    } else {
        None
    }
}

fn buffer_of(line: &[char]) -> (r: Option<DebugfsBufEntry>)
    ensures
        match r {
            Some(b) => buffer_line(line@) == Some(b@),
            None => buffer_line(line@) is None,
        },
{
    let t = trimmed(line);
    if t.len() == 0 || has_prefix(t, "Dma-buf") {
        return None;
    }
    let f = split_at_char(t, '\t');
    let ghost fields = texts(f@);
    assert(forall|i: int| 0 <= i < f@.len() ==> fields[i] == #[trigger] f@[i]@);
    if f.len() < 7 {
        return None;
    }
    match parse_u64(trimmed(f[0])) {
        None => None,
        Some(size) => {
            let mut devices: Vec<String> = Vec::new();
            assert(strings(devices@) =~= Seq::empty());
            if f.len() > 7 {
                let d = trimmed(f[7]);
                if d.len() > 0 && !is_text(d, "Total") {
                    devices.push(string_of(d));
                    assert(strings(devices@) =~= seq![d@]);
                }
            }
            let b = DebugfsBufEntry {
                size,
                flags: flags_of(f[1]),
                mode: flags_of(f[2]),
                count: int_of(trimmed(f[3])),
                exp_name: string_of(trimmed(f[4])),
                ino: number_of(trimmed(f[5])),
                name: string_of(trimmed(f[6])),
                attached_devices: devices,
            };
            assert(buffer_line(line@)->0 =~= b@);
            Some(b)
        },
    }
}

/// Parses the kernel's buffer list, `/sys/kernel/debug/dma_buf/bufinfo`.
pub fn parse_debugfs_bufinfo(content: &str) -> (entries: Vec<DebugfsBufEntry>)
    ensures
        records(entries@) == buffer_records(lines(content@)),
{
    let chars = chars_of(content);
    let ls = lines_of(chars.as_slice());
    let ghost all = lines(content@);
    assert(texts(ls@) == all);
    assert(forall|i: int| 0 <= i < ls@.len() ==> all[i] == #[trigger] ls@[i]@);
    let mut entries: Vec<DebugfsBufEntry> = Vec::new();
    let mut i: usize = 0;
    assert(records(entries@) + buffer_records(all.skip(0)) =~= buffer_records(all)) by {
        assert(all.skip(0) =~= all);
    }
    while i < ls.len()
        invariant
            i <= ls@.len(),
            ls@.len() == all.len(),
            forall|k: int| 0 <= k < ls@.len() ==> all[k] == #[trigger] ls@[k]@,
            records(entries@) + buffer_records(all.skip(i as int)) == buffer_records(all),
        decreases ls@.len() - i,
    {
        let ghost rest = all.skip(i as int);
        let ghost start = i as int;
        assert(rest[0] == all[start]);
        assert(rest.skip(1) =~= all.skip(start + 1));
        match buffer_of(ls[i]) {
            None => {
                i = i + 1;
            },
            Some(entry) => {
                let mut b = entry;
                let ghost b0 = b@;
                let ghost tail = rest.skip(1);
                let ghost n = continuation_run(tail) as int;
                proof {
                    lemma_continuation_run(tail);
                    assert(devices_of(rest.subrange(1, 1)) =~= Seq::empty());
                }
                i = i + 1;
                while i < ls.len() && ls[i].len() > 0 && ls[i][0] == '\t'
                    invariant
                        start + 1 <= i <= ls@.len(),
                        ls@.len() == all.len(),
                        0 <= start < all.len(),
                        rest == all.skip(start),
                        tail == rest.skip(1),
                        n == continuation_run(tail),
                        n <= tail.len(),
                        forall|j: int| 0 <= j < n ==> continues(#[trigger] tail[j]),
                        n < tail.len() ==> !continues(tail[n]),
                        i - start - 1 <= n,
                        forall|k: int| 0 <= k < ls@.len() ==> all[k] == #[trigger] ls@[k]@,
                        b@ == (BufRecord {
                            devices: b0.devices + devices_of(rest.subrange(1, i - start)),
                            ..b0
                        }),
                    decreases ls@.len() - i,
                {
                    let ghost before = b@;
                    let ghost so_far = rest.subrange(1, i - start);
                    let ghost more = rest.subrange(1, i - start + 1);
                    proof {
                        assert(more.drop_last() =~= so_far);
                        assert(more.last() == all[i as int]);
                        assert(tail[i - start - 1] == all[i as int]);
                    }
                    let ghost devs = b.attached_devices@;
                    match device_of(ls[i]) {
                        Some(d) => {
                            let ghost text = d@;
                            b.attached_devices.push(d);
                            assert(strings(b.attached_devices@) =~= strings(devs).push(text));
                            assert(b0.devices + devices_of(so_far).push(text) =~= (b0.devices
                                + devices_of(so_far)).push(text));
                        },
                        None => {},
                    }
                    assert(b@ =~= (BufRecord {
                        devices: b0.devices + devices_of(more),
                        ..b0
                    }));
                    i = i + 1;
                }
                assert(i - start - 1 == n) by {
                    if i < ls@.len() {
                        assert(tail[i - start - 1] == all[i as int]);
                    }
                }
                let ghost before = entries@;
                entries.push(b);
                proof {
                    assert(rest.skip(1 + n) =~= all.skip(i as int));
                    assert(records(entries@) =~= records(before) + seq![b@]);
                    assert(records(before) + (seq![b@] + buffer_records(all.skip(i as int)))
                        =~= records(entries@) + buffer_records(all.skip(i as int)));
                }
            },
        }
    }
    assert(all.skip(all.len() as int) =~= Seq::empty());
    assert(records(entries@) + buffer_records(all.skip(i as int)) =~= records(entries@));
    entries
}

/// The key and the value of a line with a colon.
pub open spec fn key_value(line: Seq<char>) -> Option<(Seq<char>, Seq<char>)> {
    let i = find(line, ':');
    if i < line.len() {
        Some((trim(line.take(i)), trim(line.skip(i + 1))))
    } else {
        None
    }
}

/// The value of the last line with the given key.
pub open spec fn last_value(ls: Seq<Seq<char>>, key: Seq<char>) -> Option<Seq<char>>
    decreases ls.len(),
{
    if ls.len() == 0 {
        None
    } else {
        match key_value(ls.last()) {
            Some((k, v)) => if k == key {
                Some(v)
            } else {
                last_value(ls.drop_last(), key)
            },
            None => last_value(ls.drop_last(), key),
        }
    }
}

/// Whether an optional slice holds the given optional text.
pub open spec fn holds(o: Option<&[char]>, t: Option<Seq<char>>) -> bool {
    match o {
        Some(x) => t == Some(x@),
        None => t is None,
    }
}

fn last_value_of<'a>(ls: &Vec<&'a [char]>, key: &str) -> (r: Option<&'a [char]>)
    ensures
        holds(r, last_value(texts(ls@), key@)),
{
    let ghost all = texts(ls@);
    let mut i: usize = ls.len();
    assert(all.take(i as int) =~= all);
    while i > 0
        invariant
            i <= ls@.len(),
            all == texts(ls@),
            last_value(all, key@) == last_value(all.take(i as int), key@),
        decreases i,
    {
        let ghost t = all.take(i as int);
        let line: &'a [char] = ls[i - 1];
        assert(t.last() == line@);
        assert(t.drop_last() =~= all.take(i - 1));
        let c: usize = find_char(line, ':');
        if c < line.len() {
            let k = slice_subrange(line, 0, c);
            let v = slice_subrange(line, c + 1, line.len());
            assert(k@ =~= line@.take(c as int));
            assert(v@ =~= line@.skip(c + 1));
            if is_text(trimmed(k), key) {
                return Some(trimmed(v));
            }
        }
        i = i - 1;
    }
    None
}

/// Reads the buffer that a descriptor's fdinfo describes: its size, its reference
/// count, its exporter and its name. Without an exporter it is no buffer.
pub fn parse_fdinfo_for_dmabuf(content: &str) -> (r: Option<(u64, i64, String, Option<String>)>)
    ensures
        r is Some <==> last_value(lines(content@), "exp_name"@) is Some,
        r matches Some((size, count, exporter, name)) ==> {
            let ls = lines(content@);
            &&& Some(exporter@) == last_value(ls, "exp_name"@)
            &&& size == match last_value(ls, "size"@) {
                Some(v) => number_or_zero(v),
                None => 0,
            }
            &&& count == match last_value(ls, "count"@) {
                Some(v) => int_or_zero(v),
                None => 0,
            }
            &&& match name {
                Some(n) => last_value(ls, "buf_name"@) == Some(n@),
                None => last_value(ls, "buf_name"@) is None,
            }
        },
{
    let chars = chars_of(content);
    let ls = lines_of(chars.as_slice());
    match last_value_of(&ls, "exp_name") {
        None => None,
        Some(exporter) => {
            let size: u64 = match last_value_of(&ls, "size") {
                Some(v) => number_of(v),
                None => 0,
            };
            let count: i64 = match last_value_of(&ls, "count") {
                Some(v) => int_of(v),
                None => 0,
            };
            let name: Option<String> = match last_value_of(&ls, "buf_name") {
                Some(v) => Some(string_of(v)),
                None => None,
            };
            Some((size, count, string_of(exporter), name))
        },
    }
}

/// Whether `p` occurs in `s`.
pub open spec fn occurs(s: Seq<char>, p: Seq<char>) -> bool {
    exists|i: int| 0 <= i <= s.len() - p.len() && #[trigger] s.subrange(i, i + p.len()) == p
}

pub fn occurs_in(s: &[char], lit: &str) -> (r: bool)
    ensures
        r == occurs(s@, lit@),
{
    let p = chars_of(lit);
    if p.len() > s.len() {
        return false;
    }
    let mut i: usize = 0;
    while i <= s.len() - p.len()
        invariant
            p@ == lit@,
            p@.len() <= s@.len(),
            i <= s@.len() - p@.len() + 1,
            forall|j: int| 0 <= j < i ==> #[trigger] s@.subrange(j, j + p@.len()) != p@,
        decreases s@.len() + 1 - i,
    {
        if same_text(slice_subrange(s, i, i + p.len()), p.as_slice()) {
            return true;
        }
        if i == s.len() - p.len() {
            return false;
        }
        i = i + 1;
    }
    false
}

/// The text without the characters `c` in front.
pub open spec fn strip_start(s: Seq<char>, c: char) -> Seq<char>
    decreases s.len(),
{
    if s.len() > 0 && s[0] == c {
        strip_start(s.skip(1), c)
    } else {
        s
    }
}

/// The text without the characters `c` at its end.
pub open spec fn strip_end(s: Seq<char>, c: char) -> Seq<char>
    decreases s.len(),
{
    if s.len() > 0 && s.last() == c {
        strip_end(s.drop_last(), c)
    } else {
        s
    }
}

/// Removes the characters `c` in front.
pub fn stripped_start(s: &[char], c: char) -> (r: &[char])
    ensures
        r@ == strip_start(s@, c),
{
    let mut i: usize = 0;
    assert(s@.skip(0) =~= s@);
    while i < s.len() && s[i] == c
        invariant
            i <= s@.len(),
            strip_start(s@.skip(i as int), c) == strip_start(s@, c),
        decreases s@.len() - i,
    {
        proof {
            assert(s@.skip(i as int).skip(1) =~= s@.skip(i + 1));
        }
        i = i + 1;
    }
    slice_subrange(s, i, s.len())
}

/// Removes the characters `c` at the end.
pub fn stripped_end(s: &[char], c: char) -> (r: &[char])
    ensures
        r@ == strip_end(s@, c),
{
    let mut i: usize = s.len();
    assert(s@.take(i as int) =~= s@);
    while i > 0 && s[i - 1] == c
        invariant
            i <= s@.len(),
            strip_end(s@.take(i as int), c) == strip_end(s@, c),
        decreases i,
    {
        proof {
            assert(s@.take(i as int).drop_last() =~= s@.take(i - 1));
        }
        i = i - 1;
    }
    slice_subrange(s, 0, i)
}

/// What stands behind `p` in `s`, or nothing where `s` does not begin with it.
pub open spec fn behind(s: Seq<char>, p: Seq<char>) -> Seq<char> {
    if starts_with(s, p) {
        s.skip(p.len() as int)
    } else {
        Seq::empty()
    }
}

fn text_behind<'a>(s: &'a [char], lit: &str) -> (r: &'a [char])
    ensures
        r@ == behind(s@, lit@),
{
    match strip_prefix(s, lit) {
        Some(t) => t,
        None => slice_subrange(s, 0, 0),
    }
}

/// The numbers among the fields, in order.
pub open spec fn numbers(fields: Seq<Seq<char>>) -> Seq<nat>
    decreases fields.len(),
{
    if fields.len() == 0 {
        Seq::empty()
    } else {
        match parsed(trim(fields.last()), u64::MAX as nat) {
            Some(n) => numbers(fields.drop_last()).push(n),
            None => numbers(fields.drop_last()),
        }
    }
}

/// The numbers of a protection line: `protection: (0, 1944, 1944)`.
pub open spec fn protection_values(line: Seq<char>) -> Seq<nat> {
    numbers(split(strip_end(strip_start(trim(behind(line, "protection:"@)), '('), ')'), ','))
}

fn protection_of(line: &[char]) -> (r: Vec<u64>)
    ensures
        nats(r@) == protection_values(line@),
{
    let rest = stripped_end(stripped_start(trimmed(text_behind(line, "protection:")), '('), ')');
    let parts = split_at_char(rest, ',');
    let ghost fields = texts(parts@);
    let mut r: Vec<u64> = Vec::new();
    let mut i: usize = 0;
    assert(fields.take(0) =~= Seq::empty());
    assert(nats(r@) =~= Seq::empty());
    while i < parts.len()
        invariant
            i <= parts@.len(),
            fields == texts(parts@),
            nats(r@) == numbers(fields.take(i as int)),
        decreases parts@.len() - i,
    {
        let ghost t = fields.take(i + 1);
        assert(t.drop_last() =~= fields.take(i as int));
        assert(t.last() == parts@[i as int]@);
        let ghost before = r@;
        match parse_u64(trimmed(parts[i])) {
            Some(n) => {
                r.push(n);
                assert(nats(r@) =~= nats(before).push(n as nat));
            },
            None => {},
        }
        i = i + 1;
    }
    assert(fields.take(fields.len() as int) =~= fields);
    r
}

/// What has been read of `/proc/zoneinfo`: the zone under way and those done.
#[verifier::ext_equal]
pub ghost struct ZoneScan {
    pub node: Option<nat>,
    pub zone: Option<Seq<char>>,
    pub free: nat,
    pub min: nat,
    pub low: nat,
    pub high: nat,
    pub protection: Seq<nat>,
    pub done: Seq<ZoneRecord>,
}

/// The zone under way, where both its node and its name are known.
pub open spec fn zone_record(z: ZoneScan) -> Option<ZoneRecord> {
    match (z.node, z.zone) {
        (Some(node), Some(zone)) => Some(
            ZoneRecord {
                node,
                zone,
                free: z.free,
                min: z.min,
                low: z.low,
                high: z.high,
                protection: z.protection,
            },
        ),
        _ => None,
    }
}

/// The zones that are complete once the zone under way ends.
pub open spec fn zones_done(z: ZoneScan) -> Seq<ZoneRecord> {
    match zone_record(z) {
        Some(r) => z.done.push(r),
        None => z.done,
    }
}

/// Whether a line, without surrounding whitespace, begins a zone.
pub open spec fn is_zone_header(t: Seq<char>) -> bool {
    starts_with(t, "Node"@) && occurs(t, "zone"@)
}

/// A header line ends the zone under way and begins another: `Node 0, zone Normal`.
/// Without a comma neither its node nor its name is known anew.
pub open spec fn after_header(z: ZoneScan, t: Seq<char>) -> ZoneScan {
    let rest = trim_start(behind(t, "Node"@));
    let c = find(rest, ',');
    let named = c < rest.len();
    ZoneScan {
        node: if named {
            parsed(trim(rest.take(c)), u32::MAX as nat)
        } else {
            z.node
        },
        zone: if named {
            Some(trim(behind(trim(rest.skip(c + 1)), "zone"@)))
        } else {
            None
        },
        free: 0,
        min: 0,
        low: 0,
        high: 0,
        protection: if zone_record(z) is Some {
            Seq::empty()
        } else {
            z.protection
        },
        done: zones_done(z),
    }
}

/// The number in the word at `i`, or zero.
pub open spec fn word_number(w: Seq<Seq<char>>, i: int) -> nat {
    if i < w.len() {
        number_or_zero(w[i])
    } else {
        0
    }
}

/// What a line inside a zone sets.
pub open spec fn after_line(z: ZoneScan, t: Seq<char>) -> ZoneScan {
    let w = words(t);
    if z.zone is None || w.len() == 0 {
        z
    } else if w[0] == "pages"@ {
        if w.len() > 1 && w[1] == "free"@ {
            ZoneScan { free: word_number(w, 2), ..z }
        } else {
            z
        }
    } else if w[0] == "nr_free_pages"@ {
        ZoneScan { free: word_number(w, 1), ..z }
    } else if w[0] == "min"@ {
        ZoneScan { min: word_number(w, 1), ..z }
    } else if w[0] == "low"@ {
        ZoneScan { low: word_number(w, 1), ..z }
    } else if w[0] == "high"@ {
        ZoneScan { high: word_number(w, 1), ..z }
    } else if w[0] == "protection:"@ {
        ZoneScan { protection: protection_values(t), ..z }
    } else {
        z
    }
}

/// What one more line changes.
pub open spec fn zone_step(z: ZoneScan, line: Seq<char>) -> ZoneScan {
    let t = trim(line);
    if is_zone_header(t) {
        after_header(z, t)
    } else {
        after_line(z, t)
    }
}

/// The state after reading lines in order.
pub open spec fn zone_scan(ls: Seq<Seq<char>>) -> ZoneScan
    decreases ls.len(),
{
    if ls.len() == 0 {
        ZoneScan {
            node: None,
            zone: None,
            free: 0,
            min: 0,
            low: 0,
            high: 0,
            protection: Seq::empty(),
            done: Seq::empty(),
        }
    } else {
        zone_step(zone_scan(ls.drop_last()), ls.last())
    }
}

/// Whether a line begins a zone with a node and a name: `Node 0, zone Normal`.
pub open spec fn names_zone(line: Seq<char>) -> bool {
    let rest = trim_start(behind(trim(line), "Node"@));
    let c = find(rest, ',');
    &&& is_zone_header(trim(line))
    &&& c < rest.len()
    &&& parsed(trim(rest.take(c)), u32::MAX as nat) is Some
}

/// Whether each line that begins a zone does so with a node and a name.
pub open spec fn zones_named(ls: Seq<Seq<char>>) -> bool {
    forall|i: int|
        0 <= i < ls.len() && is_zone_header(trim(#[trigger] ls[i])) ==> names_zone(ls[i])
}

proof fn lemma_zones_named(ls: Seq<Seq<char>>)
    requires
        zones_named(ls),
    ensures
        zone_record(zone_scan(ls)) is None ==> zone_scan(ls).protection == Seq::<nat>::empty(),
        zone_scan(ls).zone is Some ==> zone_scan(ls).node is Some,
    decreases ls.len(),
{
    if ls.len() > 0 {
        let before = ls.drop_last();
        assert(forall|i: int| 0 <= i < before.len() ==> #[trigger] before[i] == ls[i]);
        lemma_zones_named(before);
        assert(ls.last() == ls[ls.len() - 1]);
    }
}

proof fn lemma_zones_concat(x: Seq<Seq<char>>, y: Seq<Seq<char>>)
    requires
        zones_named(x),
        y.len() > 0,
        names_zone(y[0]),
    ensures
        zone_scan(x + y) == (ZoneScan {
            done: zones_done(zone_scan(x)) + zone_scan(y).done,
            ..zone_scan(y)
        }),
    decreases y.len(),
{
    let before = y.drop_last();
    assert((x + y).drop_last() =~= x + before);
    assert((x + y).last() == y.last());
    if before.len() == 0 {
        lemma_zones_named(x);
        assert(x + before =~= x);
        assert(y.last() == y[0]);
        assert(zone_record(zone_scan(before)) is None);
        assert(zones_done(zone_scan(before)) =~= Seq::empty());
        assert(zone_scan(x + y).protection =~= zone_scan(y).protection);
        assert(zone_scan(x + y) =~= (ZoneScan {
            done: zones_done(zone_scan(x)) + zone_scan(y).done,
            ..zone_scan(y)
        }));
    } else {
        assert(before[0] == y[0]);
        lemma_zones_concat(x, before);
        assert(zone_scan(x + y) =~= (ZoneScan {
            done: zones_done(zone_scan(x)) + zone_scan(y).done,
            ..zone_scan(y)
        }));
    }
}

/// Zones can be read in parts: where the first part ends with a line, its zones have a node
/// and a name, and the second part begins with such a zone, the zones of the whole are those
/// of the first part and then those of the second.
pub proof fn law_zones_in_parts(a: Seq<char>, b: Seq<char>)
    requires
        whole_lines(a),
        zones_named(lines(a)),
        b.len() > 0 ==> names_zone(lines(b)[0]),
    ensures
        zones_done(zone_scan(lines(a + b))) == zones_done(zone_scan(lines(a))) + zones_done(
            zone_scan(lines(b)),
        ),
{
    lemma_lines_concat(a, b);
    lemma_find(b, '\n');
    if b.len() == 0 {
        assert(lines(a) + lines(b) =~= lines(a));
        assert(zones_done(zone_scan(lines(b))) =~= Seq::empty());
    } else {
        lemma_zones_concat(lines(a), lines(b));
    }
    assert(zones_done(zone_scan(lines(a + b))) =~= zones_done(zone_scan(lines(a))) + zones_done(
        zone_scan(lines(b)),
    ));
}

/// The contents of a sequence of zones.
pub open spec fn zone_records(v: Seq<ZoneEntry>) -> Seq<ZoneRecord> {
    Seq::new(v.len(), |i: int| v[i]@)
}

/// The scanner's own state.
struct ZoneReader {
    node: Option<u32>,
    zone: Option<String>,
    free: u64,
    min: u64,
    low: u64,
    high: u64,
    protection: Vec<u64>,
    done: Vec<ZoneEntry>,
}

impl View for ZoneReader {
    type V = ZoneScan;

    closed spec fn view(&self) -> ZoneScan {
        ZoneScan {
            node: match self.node {
                Some(n) => Some(n as nat),
                None => None,
            },
            zone: match self.zone {
                Some(z) => Some(z@),
                None => None,
            },
            free: self.free as nat,
            min: self.min as nat,
            low: self.low as nat,
            high: self.high as nat,
            protection: nats(self.protection@),
            done: zone_records(self.done@),
        }
    }
}

impl ZoneReader {
    /// Ends the zone under way.
    fn finish(&mut self)
        ensures
            final(self)@ == (ZoneScan {
                zone: None,
                protection: if zone_record(old(self)@) is Some {
                    Seq::empty()
                } else {
                    old(self)@.protection
                },
                done: zones_done(old(self)@),
                ..old(self)@
            }),
    {
        let ghost start = self@;
        let ghost before = self.done@;
        let zone = self.zone.take();
        match (self.node, zone) {
            (Some(node), Some(name)) => {
                let mut protection: Vec<u64> = Vec::new();
                std::mem::swap(&mut protection, &mut self.protection);
                let entry = ZoneEntry {
                    node,
                    zone: name,
                    free_pages: self.free,
                    min_watermark: self.min,
                    low_watermark: self.low,
                    high_watermark: self.high,
                    protection,
                };
                assert(entry@ =~= zone_record(start)->0);
                self.done.push(entry);
                assert(zone_records(self.done@) =~= zone_records(before).push(entry@));
                assert(nats(self.protection@) =~= Seq::empty());
            },
            _ => {},
        }
    }

    fn header(&mut self, t: &[char])
        ensures
            final(self)@ == after_header(old(self)@, t@),
    {
        self.finish();
        let rest = trimmed_start(text_behind(t, "Node"));
        let c: usize = find_char(rest, ',');
        if c < rest.len() {
            let node_text = slice_subrange(rest, 0, c);
            let zone_text = slice_subrange(rest, c + 1, rest.len());
            assert(node_text@ =~= rest@.take(c as int));
            assert(zone_text@ =~= rest@.skip(c + 1));
            self.node = parse_u32(trimmed(node_text));
            self.zone = Some(string_of(trimmed(text_behind(trimmed(zone_text), "zone"))));
        }
        self.free = 0;
        self.min = 0;
        self.low = 0;
        self.high = 0;
        assert(self@ =~= after_header(old(self)@, t@));
    }

    fn line(&mut self, t: &[char])
        ensures
            final(self)@ == after_line(old(self)@, t@),
    {
        if self.zone.is_none() {
            return ;
        }
        let w = words_of(t);
        let ghost ws = words(t@);
        assert(forall|i: int| 0 <= i < w@.len() ==> ws[i] == #[trigger] w@[i]@);
        if w.len() == 0 {
            return ;
        }
        let key: &[char] = w[0];
        if is_text(key, "pages") {
            if w.len() > 1 && is_text(w[1], "free") {
                self.free = word_number_of(&w, 2);
            }
        } else if is_text(key, "nr_free_pages") {
            self.free = word_number_of(&w, 1);
        } else if is_text(key, "min") {
            self.min = word_number_of(&w, 1);
        } else if is_text(key, "low") {
            self.low = word_number_of(&w, 1);
        } else if is_text(key, "high") {
            self.high = word_number_of(&w, 1);
        } else if is_text(key, "protection:") {
            self.protection = protection_of(t);
        }
        assert(self@ =~= after_line(old(self)@, t@));
    }
}

fn word_number_of(w: &Vec<&[char]>, i: usize) -> (r: u64)
    ensures
        r == word_number(texts(w@), i as int),
{
    if i < w.len() {
        number_of(w[i])
    } else {
        0
    }
}

/// Parses `/proc/zoneinfo`.
pub fn parse_zoneinfo(content: &str) -> (entries: Vec<ZoneEntry>)
    ensures
        zone_records(entries@) == zones_done(zone_scan(lines(content@))),
{
    let chars = chars_of(content);
    let ls = lines_of(chars.as_slice());
    let ghost all = lines(content@);
    let mut z = ZoneReader {
        node: None,
        zone: None,
        free: 0,
        min: 0,
        low: 0,
        high: 0,
        protection: Vec::new(),
        done: Vec::new(),
    };
    let mut i: usize = 0;
    assert(z@ =~= zone_scan(all.take(0)));
    while i < ls.len()
        invariant
            i <= ls@.len(),
            texts(ls@) == all,
            z@ == zone_scan(all.take(i as int)),
        decreases ls@.len() - i,
    {
        let ghost seen = all.take(i + 1);
        assert(seen.drop_last() =~= all.take(i as int));
        assert(seen.last() == ls@[i as int]@);
        let t = trimmed(ls[i]);
        if has_prefix(t, "Node") && occurs_in(t, "zone") {
            z.header(t);
        } else {
            z.line(t);
        }
        i = i + 1;
    }
    assert(all.take(all.len() as int) =~= all);
    z.finish();
    z.done
}

} // verus!
