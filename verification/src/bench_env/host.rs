//! What the host's files tell of its processor.
use crate::number::{dec, parse_i64, parse_u32, parse_u64, parsed, parsed_int, push_dec};
use crate::order::{string_less, text_less};
use crate::sort::{arranged, ascending, lemma_arranged, sorted_values};
use crate::text::{
    chars_of, find, find_char, group_concat, has_prefix, is_white, lemma_find, lines, lines_of,
    split, split_at_char, starts_with, string_of, strip_prefix, texts, trim, trimmed, white, words,
    words_of,
};
use vstd::prelude::*;
use vstd::slice::slice_subrange;

verus! {

/// The first line of a file that is not empty, without the whitespace around it; none
/// where the file is empty.
pub open spec fn line_text(content: Seq<char>) -> Option<Seq<char>> {
    let ls = lines(trim(content));
    if ls.len() == 0 {
        None
    } else {
        Some(trim(ls[0]))
    }
}

/// The view of a text that may be missing.
pub open spec fn maybe(s: Option<String>) -> Option<Seq<char>> {
    match s {
        Some(t) => Some(t@),
        None => None,
    }
}

fn first_line<'a>(c: &'a [char]) -> (r: Option<&'a [char]>)
    ensures
        match r {
            Some(t) => line_text(c@) == Some(t@),
            None => line_text(c@) is None,
        },
{
    let ls = lines_of(trimmed(c));
    if ls.len() == 0 {
        None
    } else {
        assert(texts(ls@)[0] == ls@[0]@);
        Some(trimmed(ls[0]))
    }
}

/// Reads a single line from a file; none where the file is empty.
pub fn file_line(content: &str) -> (r: Option<String>)
    ensures
        maybe(r) == line_text(content@),
{
    let c = chars_of(content);
    match first_line(c.as_slice()) {
        Some(t) => Some(string_of(t)),
        None => None,
    }
}

/// The frequency that a file of one line holds.
pub open spec fn frequency_in(content: Seq<char>) -> Option<nat> {
    match line_text(content) {
        Some(t) => parsed(t, u64::MAX as nat),
        None => None,
    }
}

/// The frequency that a file of one line holds.
pub fn frequency(content: &str) -> (r: Option<u64>)
    ensures
        match r {
            Some(n) => frequency_in(content@) == Some(n as nat),
            None => frequency_in(content@) is None,
        },
{
    let c = chars_of(content);
    match first_line(c.as_slice()) {
        Some(t) => parse_u64(t),
        None => None,
    }
}

/// The first word that begins with `cma=`, or the number of words.
pub open spec fn cma_index(w: Seq<Seq<char>>) -> int
    decreases w.len(),
{
    if w.len() == 0 || starts_with(w[0], "cma="@) {
        0
    } else {
        1 + cma_index(w.skip(1))
    }
}

/// The size of contiguous memory that the kernel was started with.
pub fn cmdline_cma(content: &str) -> (r: Option<String>)
    ensures
        maybe(r) == ({
            let w = words(content@);
            let i = cma_index(w);
            if i < w.len() {
                Some(w[i])
            } else {
                None
            }
        }),
{
    let c = chars_of(content);
    let w = words_of(c.as_slice());
    let ghost all = texts(w@);
    let mut i: usize = 0;
    assert(all.skip(0) =~= all);
    while i < w.len()
        invariant
            i <= w@.len(),
            all == texts(w@),
            all == words(content@),
            cma_index(all) == i + cma_index(all.skip(i as int)),
        decreases w@.len() - i,
    {
        assert(all.skip(i as int)[0] == w@[i as int]@);
        if has_prefix(w[i], "cma=") {
            return Some(string_of(w[i]));
        }
        assert(all.skip(i as int).skip(1) =~= all.skip(i + 1));
        i = i + 1;
    }
    None
}

/// A text without the colons and whitespace in front.
pub open spec fn behind_colon(s: Seq<char>) -> Seq<char>
    decreases s.len(),
{
    if s.len() > 0 && (s[0] == ':' || is_white(s[0])) {
        behind_colon(s.skip(1))
    } else {
        s
    }
}

fn after_colon(s: &[char]) -> (r: String)
    ensures
        r@ == behind_colon(s@),
{
    let mut i: usize = 0;
    assert(s@.skip(0) =~= s@);
    while i < s.len() && (s[i] == ':' || white(s[i]))
        invariant
            i <= s@.len(),
            behind_colon(s@) == behind_colon(s@.skip(i as int)),
        decreases s@.len() - i,
    {
        assert(s@.skip(i as int).skip(1) =~= s@.skip(i + 1));
        i = i + 1;
    }
    string_of(slice_subrange(s, i, s.len()))
}

/// What a line says of the processor's model.
pub open spec fn model_in(line: Seq<char>) -> Option<Seq<char>> {
    if starts_with(line, "Hardware"@) {
        Some(behind_colon(line.skip("Hardware"@.len() as int)))
    } else if starts_with(line, "model name"@) {
        Some(behind_colon(line.skip("model name"@.len() as int)))
    } else {
        None
    }
}

/// What the first line that says anything says of the processor's model.
pub open spec fn first_model(v: Seq<Seq<char>>) -> Option<Seq<char>>
    decreases v.len(),
{
    if v.len() == 0 {
        None
    } else if model_in(v[0]) is Some {
        model_in(v[0])
    } else {
        first_model(v.skip(1))
    }
}

/// The processor's model.
pub fn cpu_model(content: &str) -> (r: Option<String>)
    ensures
        maybe(r) == first_model(lines(content@)),
{
    let c = chars_of(content);
    let v = lines_of(c.as_slice());
    let ghost all = texts(v@);
    let mut i: usize = 0;
    assert(all.skip(0) =~= all);
    while i < v.len()
        invariant
            i <= v@.len(),
            all == texts(v@),
            all == lines(content@),
            first_model(all) == first_model(all.skip(i as int)),
        decreases v@.len() - i,
    {
        assert(all.skip(i as int)[0] == v@[i as int]@);
        if let Some(t) = strip_prefix(v[i], "Hardware") {
            return Some(after_colon(t));
        }
        if let Some(t) = strip_prefix(v[i], "model name") {
            return Some(after_colon(t));
        }
        assert(all.skip(i as int).skip(1) =~= all.skip(i + 1));
        i = i + 1;
    }
    None
}

/// The cores that a part of a list names: one, or a range; none where it is no number.
pub open spec fn part_cores(part: Seq<char>) -> Seq<u64> {
    let t = trim(part);
    let i = find(t, '-');
    if i < t.len() {
        match (parsed(t.take(i), u32::MAX as nat), parsed(t.skip(i + 1), u32::MAX as nat)) {
            (Some(a), Some(b)) => if a <= b {
                Seq::new((b - a + 1) as nat, |k: int| (a + k) as u64)
            } else {
                Seq::empty()
            },
            _ => Seq::empty(),
        }
    } else {
        match parsed(t, u32::MAX as nat) {
            Some(n) => seq![n as u64],
            None => Seq::empty(),
        }
    }
}

/// The cores that the parts of a list name, in their order.
pub open spec fn all_cores(parts: Seq<Seq<char>>) -> Seq<u64>
    decreases parts.len(),
{
    if parts.len() == 0 {
        Seq::empty()
    } else {
        all_cores(parts.drop_last()) + part_cores(parts.last())
    }
}

/// Numbers of 32 bits as numbers of 64.
pub open spec fn widened(v: Seq<u32>) -> Seq<u64> {
    Seq::new(v.len(), |i: int| v[i] as u64)
}

/// All numbers of cores fit.
proof fn lemma_cores_fit(parts: Seq<Seq<char>>)
    ensures
        forall|i: int|
            0 <= i < all_cores(parts).len() ==> (#[trigger] all_cores(parts)[i]) <= u32::MAX,
    decreases parts.len(),
{
    if parts.len() > 0 {
        lemma_cores_fit(parts.drop_last());
        let before = all_cores(parts.drop_last());
        let last = part_cores(parts.last());
        assert forall|i: int| 0 <= i < last.len() implies (#[trigger] last[i]) <= u32::MAX by {
            let t = trim(parts.last());
            let k = find(t, '-');
            lemma_find(t, '-');
        }
        assert forall|i: int| 0 <= i < all_cores(parts).len() implies (#[trigger] all_cores(
            parts,
        )[i]) <= u32::MAX by {
            if i < before.len() {
                assert(all_cores(parts)[i] == before[i]);
            } else {
                assert(all_cores(parts)[i] == last[i - before.len()]);
            }
        }
    }
}

fn push_part(cores: &mut Vec<u64>, part: &[char])
    ensures
        final(cores)@ == old(cores)@ + part_cores(part@),
{
    let t = trimmed(part);
    let i: usize = find_char(t, '-');
    let ghost start = cores@;
    if i < t.len() {
        let a = parse_u32(slice_subrange(t, 0, i));
        let b = parse_u32(slice_subrange(t, i + 1, t.len()));
        assert(t@.subrange(0, i as int) =~= t@.take(i as int));
        assert(t@.subrange(i + 1, t@.len() as int) =~= t@.skip(i + 1));
        match (a, b) {
            (Some(a), Some(b)) => {
                let mut n: u64 = a as u64;
                assert(start + Seq::<u64>::empty() =~= start);
                assert(Seq::new(0, |k: int| (a + k) as u64) =~= Seq::<u64>::empty());
                while n <= b as u64
                    invariant
                        a <= n,
                        n <= b + 1 || n == a,
                        b <= u32::MAX,
                        cores@ == start + Seq::new((n - a) as nat, |k: int| (a + k) as u64),
                    decreases b + 1 - n,
                {
                    cores.push(n);
                    n = n + 1;
                    assert(cores@ =~= start + Seq::new((n - a) as nat, |k: int| (a + k) as u64));
                }
                proof {
                    if a <= b {
                        assert(part_cores(part@) =~= Seq::new(
                            (n - a) as nat,
                            |k: int| (a + k) as u64,
                        ));
                    } else {
                        assert(part_cores(part@) =~= Seq::<u64>::empty());
                    }
                }
            },
            _ => {
                assert(start + Seq::<u64>::empty() =~= start);
            },
        }
    } else {
        match parse_u32(t) {
            Some(n) => {
                cores.push(n as u64);
                assert(cores@ =~= start + seq![n as u64]);
            },
            None => {
                assert(start + Seq::<u64>::empty() =~= start);
            },
        }
    }
}

/// The cores that a list such as `0-3,6-7` names, in ascending order. What is neither
/// a number nor a range is passed over.
pub fn parse_cpu_range(s: &str) -> (r: Vec<u32>)
    ensures
        widened(r@) == arranged(all_cores(split(s@, ','))),
{
    let c = chars_of(s);
    let parts = split_at_char(c.as_slice(), ',');
    let ghost all = texts(parts@);
    let mut cores: Vec<u64> = Vec::new();
    let mut i: usize = 0;
    assert(all.take(0) =~= Seq::empty());
    while i < parts.len()
        invariant
            i <= parts@.len(),
            all == texts(parts@),
            cores@ == all_cores(all.take(i as int)),
        decreases parts@.len() - i,
    {
        push_part(&mut cores, parts[i]);
        proof {
            assert(all.take(i + 1).drop_last() =~= all.take(i as int));
            assert(all.take(i + 1).last() == parts@[i as int]@);
        }
        i = i + 1;
    }
    assert(all.take(all.len() as int) =~= all);
    let sorted = sorted_values(cores.as_slice());
    proof {
        lemma_cores_fit(all);
        lemma_arranged(all_cores(all));
        lemma_arranged_bounded(all_cores(all));
    }
    let mut r: Vec<u32> = Vec::new();
    let mut k: usize = 0;
    while k < sorted.len()
        invariant
            k <= sorted@.len(),
            forall|j: int| 0 <= j < sorted@.len() ==> (#[trigger] sorted@[j]) <= u32::MAX,
            widened(r@) == sorted@.take(k as int),
        decreases sorted@.len() - k,
    {
        let ghost before = r@;
        r.push(sorted[k] as u32);
        assert(widened(r@) =~= widened(before).push(sorted@[k as int]));
        k = k + 1;
        assert(widened(r@) =~= sorted@.take(k as int));
    }
    assert(sorted@.take(sorted@.len() as int) =~= sorted@);
    r
}

/// Arranging keeps a bound.
proof fn lemma_arranged_bounded(s: Seq<u64>)
    requires
        forall|i: int| 0 <= i < s.len() ==> (#[trigger] s[i]) <= u32::MAX,
    ensures
        forall|i: int| 0 <= i < arranged(s).len() ==> (#[trigger] arranged(s)[i]) <= u32::MAX,
{
    broadcast use vstd::seq_lib::group_to_multiset_ensures;

    lemma_arranged(s);
    assert forall|i: int| 0 <= i < arranged(s).len() implies (#[trigger] arranged(s)[i])
        <= u32::MAX by {
        let x = arranged(s)[i];
        assert(arranged(s).contains(x));
        assert(arranged(s).to_multiset().contains(x));
        assert(s.to_multiset().contains(x));
        assert(s.contains(x));
    }
}

/// The cores come in ascending order, each as often as the list names it.
pub proof fn law_cores_ascend(s: Seq<char>)
    ensures
        ascending(arranged(all_cores(split(s, ',')))),
        arranged(all_cores(split(s, ','))).to_multiset() == all_cores(split(s, ',')).to_multiset(),
{
    lemma_arranged(all_cores(split(s, ',')));
}

/// The core with the highest frequency; of equal ones the last.
pub open spec fn fastest(v: Seq<(u32, u64)>) -> Option<(u32, u64)>
    decreases v.len(),
{
    if v.len() == 0 {
        None
    } else {
        match fastest(v.drop_last()) {
            Some(best) => if v.last().1 >= best.1 {
                Some(v.last())
            } else {
                Some(best)
            },
            None => Some(v.last()),
        }
    }
}

/// The core with the highest frequency, of those whose frequency is known.
pub fn fastest_core(cores: &[(u32, u64)]) -> (r: Option<u32>)
    ensures
        r == match fastest(cores@) {
            Some(best) => Some(best.0),
            None => None,
        },
{
    let mut best: Option<(u32, u64)> = None;
    let mut i: usize = 0;
    assert(cores@.take(0) =~= Seq::empty());
    while i < cores.len()
        invariant
            i <= cores@.len(),
            best == fastest(cores@.take(i as int)),
        decreases cores@.len() - i,
    {
        let c: (u32, u64) = cores[i];
        proof {
            assert(cores@.take(i + 1).drop_last() =~= cores@.take(i as int));
        }
        best = match best {
            Some(b) => if c.1 >= b.1 {
                Some(c)
            } else {
                Some(b)
            },
            None => Some(c),
        };
        i = i + 1;
    }
    assert(cores@.take(cores@.len() as int) =~= cores@);
    match best {
        Some(b) => Some(b.0),
        None => None,
    }
}

/// No core is faster than the fastest.
pub proof fn law_fastest_is_fastest(v: Seq<(u32, u64)>, i: int)
    requires
        0 <= i < v.len(),
    ensures
        fastest(v) matches Some(best) && v[i].1 <= best.1 && v.contains(best),
    decreases v.len(),
{
    let f = v.drop_last();
    if f.len() > 0 {
        law_fastest_is_fastest(f, if i < f.len() {
            i
        } else {
            0
        });
        let best = fastest(f)->0;
        let k = choose|k: int| 0 <= k < f.len() && f[k] == best;
        assert(v[k] == best);
    }
    assert(v.contains(v.last()));
}

/// A thermal zone and its temperature in thousandths of a degree.
#[derive(Clone, Debug)]
pub struct ThermalZone {
    pub zone_type: String,
    pub temp_mc: i32,
}

/// Zones, as values.
pub open spec fn zone_values(v: Seq<ThermalZone>) -> Seq<(Seq<char>, i32)> {
    Seq::new(v.len(), |i: int| (v[i].zone_type@, v[i].temp_mc))
}

/// The temperature that a file holds; zero where it holds none.
pub open spec fn temperature_in(content: Option<Seq<char>>) -> int {
    match content {
        Some(c) => match parsed_int(trim(c)) {
            Some(n) => if i32::MIN <= n <= i32::MAX {
                n
            } else {
                0
            },
            None => 0,
        },
        None => 0,
    }
}

/// A thermal zone from its files; none where it has no type.
pub fn thermal_zone(zone_type: &str, temp: Option<&str>) -> (r: Option<ThermalZone>)
    ensures
        match r {
            Some(z) => z.zone_type@ == trim(zone_type@) && z.zone_type@.len() > 0 && z.temp_mc
                == temperature_in(
                match temp {
                    Some(t) => Some(t@),
                    None => None,
                },
            ),
            None => trim(zone_type@).len() == 0,
        },
{
    let c = chars_of(zone_type);
    let t = trimmed(c.as_slice());
    let mut temp_mc: i32 = 0;
    if let Some(s) = temp {
        let d = chars_of(s);
        match parse_i64(trimmed(d.as_slice())) {
            Some(n) => {
                if n >= i32::MIN as i64 && n <= i32::MAX as i64 {
                    temp_mc = n as i32;
                }
            },
            None => {},
        }
    }
    if t.len() == 0 {
        None
    } else {
        Some(ThermalZone { zone_type: string_of(t), temp_mc })
    }
}

/// Whether a directory's name is that of a thermal zone.
pub fn is_thermal_zone(name: &str) -> (r: bool)
    ensures
        r == starts_with(name@, "thermal_zone"@),
{
    let c = chars_of(name);
    has_prefix(c.as_slice(), "thermal_zone")
}

/// Zones with one more put in its place by its type, behind those of the same type.
pub open spec fn insert_zone(s: Seq<(Seq<char>, i32)>, z: (Seq<char>, i32)) -> Seq<
    (Seq<char>, i32),
>
    decreases s.len(),
{
    if s.len() > 0 && text_less(z.0, s.last().0) {
        insert_zone(s.drop_last(), z).push(s.last())
    } else {
        s.push(z)
    }
}

/// Zones by their types; those of the same type in the order in which they came.
pub open spec fn by_type(s: Seq<(Seq<char>, i32)>) -> Seq<(Seq<char>, i32)>
    decreases s.len(),
{
    if s.len() == 0 {
        Seq::empty()
    } else {
        insert_zone(by_type(s.drop_last()), s.last())
    }
}

/// Where the zones from `i` on are behind the new one and the one before is not, it is
/// put at `i`.
proof fn lemma_insert_zone(s: Seq<(Seq<char>, i32)>, z: (Seq<char>, i32), i: int)
    requires
        0 <= i <= s.len(),
        forall|j: int| i <= j < s.len() ==> text_less(z.0, (#[trigger] s[j]).0),
        i > 0 ==> !text_less(z.0, s[i - 1].0),
    ensures
        insert_zone(s, z) == s.insert(i, z),
    decreases s.len(),
{
    if i < s.len() {
        lemma_insert_zone(s.drop_last(), z, i);
        assert(s.drop_last().insert(i, z).push(s.last()) =~= s.insert(i, z));
    } else {
        assert(s.push(z) =~= s.insert(i, z));
    }
}

/// Zones by their types; those of the same type in the order in which they came.
pub fn sorted_zones(zones: Vec<ThermalZone>) -> (r: Vec<ThermalZone>)
    ensures
        zone_values(r@) == by_type(zone_values(zones@)),
{
    let mut zones = zones;
    let ghost all = zone_values(zones@);
    let n: usize = zones.len();
    let mut r: Vec<ThermalZone> = Vec::new();
    let mut k: usize = 0;
    assert(all.take(0) =~= Seq::empty());
    assert(zone_values(r@) =~= Seq::empty());
    assert(all.skip(0) =~= all);
    while k < n
        invariant
            k <= n == all.len(),
            zone_values(zones@) == all.skip(k as int),
            zone_values(r@) == by_type(all.take(k as int)),
        decreases n - k,
    {
        assert(zones@.len() == zone_values(zones@).len());
        let ghost rest = zone_values(zones@);
        let z = zones.remove(0);
        let ghost value = (z.zone_type@, z.temp_mc);
        assert(value == rest[0]);
        assert(zone_values(zones@) =~= rest.skip(1));
        assert(rest.skip(1) =~= all.skip(k + 1));
        let ghost before = zone_values(r@);
        let mut i: usize = r.len();
        while i > 0 && string_less(z.zone_type.as_str(), r[i - 1].zone_type.as_str())
            invariant
                i <= r@.len(),
                before == zone_values(r@),
                value == (z.zone_type@, z.temp_mc),
                forall|j: int| i <= j < r@.len() ==> text_less(value.0, (#[trigger] before[j]).0),
            decreases i,
        {
            i = i - 1;
        }
        proof {
            lemma_insert_zone(before, value, i as int);
            assert(all.take(k + 1).drop_last() =~= all.take(k as int));
            assert(all.take(k + 1).last() == value);
        }
        r.insert(i, z);
        assert(zone_values(r@) =~= before.insert(i as int, value));
        k = k + 1;
    }
    assert(all.take(all.len() as int) =~= all);
    r
}

/// The directory of a core's frequency files.
pub open spec fn cpufreq_dir(cpu: nat) -> Seq<char> {
    "/sys/devices/system/cpu/cpu"@ + dec(cpu) + "/cpufreq/"@
}

/// The path of one of a core's frequency files.
pub fn cpufreq_path(cpu: u32, file: &str) -> (s: String)
    ensures
        s@ == cpufreq_dir(cpu as nat) + file@,
{
    broadcast use group_concat;

    let mut s = String::new();
    s.append("/sys/devices/system/cpu/cpu");
    push_dec(&mut s, cpu as u64);
    s.append("/cpufreq/");
    s.append(file);
    s
}

} // verus!
