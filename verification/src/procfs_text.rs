//! Parsers of what the kernel tells of memory: figures by name, free blocks by zone and
//! by type, and pressure.
use crate::info::types::{
    BuddyInfoEntry, MemInfo, PageTypeInfoEntry, PsiIo, PsiLine, PsiMemory, VmStat,
};
use crate::number::{dec, lemma_parse_dec, parse_unsigned, parsed};
use crate::text::{
    chars_of, find, find_char, has_prefix, is_text, lines, lines_of, starts_with, string_of,
    strip_prefix, texts, words, words_of,
};
use vstd::prelude::*;
use vstd::slice::slice_subrange;

verus! {

/// The greatest figure that is read; no system reaches it.
pub const MOST_FIGURE: u64 = 0xffff_ffff_ffff;

/// The greatest number of free blocks of an order that is read.
pub const MOST_BLOCKS: u64 = 0x1_0000_0000;

/// How many orders of blocks there are.
pub const ORDERS: usize = 11;

/// A number of at most `max`.
pub open spec fn number_in(s: Seq<char>, max: u64) -> Option<u64> {
    match parsed(s, max as nat) {
        Some(n) => Some(n as u64),
        None => None,
    }
}

fn number_of(s: &[char], max: u64) -> (r: Option<u64>)
    ensures
        r == number_in(s@, max),
{
    parse_unsigned(s, max)
}

// Figures by name.

/// The figure that a line gives for a name, with or without a colon.
pub open spec fn figure_of(line: Seq<char>, name: Seq<char>) -> Option<u64> {
    let w = words(line);
    if w.len() >= 2 && (w[0] == name || w[0] == name + ":"@) {
        number_in(w[1], MOST_FIGURE)
    } else {
        None
    }
}

/// The first figure for a name.
pub open spec fn figure(ls: Seq<Seq<char>>, name: Seq<char>) -> Option<u64>
    decreases ls.len(),
{
    if ls.len() == 0 {
        None
    } else if figure_of(ls[0], name) is Some {
        figure_of(ls[0], name)
    } else {
        figure(ls.skip(1), name)
    }
}

fn is_name(word: &[char], name: &str) -> (r: bool)
    ensures
        r == (word@ == name@ || word@ == name@ + ":"@),
{
    match strip_prefix(word, name) {
        Some(rest) => {
            proof {
                assert(word@ =~= name@ + rest@);
                assert((name@ + ":"@).skip(name@.len() as int) =~= ":"@);
                assert(name@.skip(name@.len() as int) =~= Seq::<char>::empty());
                assert(rest@.len() == 0 ==> rest@ =~= Seq::<char>::empty());
                if rest@.len() == 0 {
                    assert(word@ =~= name@);
                }
            }
            rest.len() == 0 || is_text(rest, ":")
        },
        None => {
            proof {
                assert((name@ + ":"@).take(name@.len() as int) =~= name@);
                assert(name@.take(name@.len() as int) =~= name@);
            }
            false
        },
    }
}

fn figure_at(ls: &Vec<&[char]>, name: &str) -> (r: Option<u64>)
    ensures
        r == figure(texts(ls@), name@),
{
    let ghost all = texts(ls@);
    let mut i: usize = 0;
    assert(all.skip(0) =~= all);
    while i < ls.len()
        invariant
            i <= ls@.len(),
            all == texts(ls@),
            figure(all, name@) == figure(all.skip(i as int), name@),
        decreases ls@.len() - i,
    {
        let w = words_of(ls[i]);
        assert(all.skip(i as int)[0] == ls@[i as int]@);
        if w.len() >= 2 && is_name(w[0], name) {
            assert(texts(w@)[0] == w@[0]@ && texts(w@)[1] == w@[1]@);
            let n = number_of(w[1], MOST_FIGURE);
            if n.is_some() {
                return n;
            }
        } else {
            assert(w@.len() >= 2 ==> texts(w@)[0] == w@[0]@);
        }
        assert(all.skip(i as int).skip(1) =~= all.skip(i + 1));
        i = i + 1;
    }
    assert(all.skip(i as int) =~= Seq::empty());
    None
}

/// The memory that a text tells of; none without its size and what is free and available.
pub open spec fn memory_in(ls: Seq<Seq<char>>) -> Option<MemInfo> {
    match (figure(ls, "MemTotal"@), figure(ls, "MemFree"@), figure(ls, "MemAvailable"@)) {
        (Some(total), Some(free), Some(available)) => Some(
            MemInfo {
                mem_total_kb: total,
                mem_free_kb: free,
                mem_available_kb: available,
                cma_total_kb: figure(ls, "CmaTotal"@),
                cma_free_kb: figure(ls, "CmaFree"@),
                buffers_kb: figure(ls, "Buffers"@),
                cached_kb: figure(ls, "Cached"@),
                active_kb: figure(ls, "Active"@),
                inactive_kb: figure(ls, "Inactive"@),
                shmem_kb: figure(ls, "Shmem"@),
                slab_kb: figure(ls, "Slab"@),
                s_reclaimable_kb: figure(ls, "SReclaimable"@),
                s_unreclaim_kb: figure(ls, "SUnreclaim"@),
                swap_total_kb: figure(ls, "SwapTotal"@),
                swap_free_kb: figure(ls, "SwapFree"@),
                dirty_kb: figure(ls, "Dirty"@),
                writeback_kb: figure(ls, "Writeback"@),
                anon_pages_kb: figure(ls, "AnonPages"@),
                mapped_kb: figure(ls, "Mapped"@),
                zswap_kb: figure(ls, "Zswap"@),
                zswapped_kb: figure(ls, "Zswapped"@),
            },
        ),
        _ => None,
    }
}

/// Reads `/proc/meminfo`.
pub fn parse_meminfo(content: &str) -> (r: Option<MemInfo>)
    ensures
        r == memory_in(lines(content@)),
{
    let c = chars_of(content);
    let ls = lines_of(c.as_slice());
    let total = figure_at(&ls, "MemTotal");
    let free = figure_at(&ls, "MemFree");
    let available = figure_at(&ls, "MemAvailable");
    match (total, free, available) {
        (Some(mem_total_kb), Some(mem_free_kb), Some(mem_available_kb)) => Some(
            MemInfo {
                mem_total_kb,
                mem_free_kb,
                mem_available_kb,
                cma_total_kb: figure_at(&ls, "CmaTotal"),
                cma_free_kb: figure_at(&ls, "CmaFree"),
                buffers_kb: figure_at(&ls, "Buffers"),
                cached_kb: figure_at(&ls, "Cached"),
                active_kb: figure_at(&ls, "Active"),
                inactive_kb: figure_at(&ls, "Inactive"),
                shmem_kb: figure_at(&ls, "Shmem"),
                slab_kb: figure_at(&ls, "Slab"),
                s_reclaimable_kb: figure_at(&ls, "SReclaimable"),
                s_unreclaim_kb: figure_at(&ls, "SUnreclaim"),
                swap_total_kb: figure_at(&ls, "SwapTotal"),
                swap_free_kb: figure_at(&ls, "SwapFree"),
                dirty_kb: figure_at(&ls, "Dirty"),
                writeback_kb: figure_at(&ls, "Writeback"),
                anon_pages_kb: figure_at(&ls, "AnonPages"),
                mapped_kb: figure_at(&ls, "Mapped"),
                zswap_kb: figure_at(&ls, "Zswap"),
                zswapped_kb: figure_at(&ls, "Zswapped"),
            },
        ),
        _ => None,
    }
}

/// The counters that a text tells of.
pub open spec fn counters_in(ls: Seq<Seq<char>>) -> VmStat {
    VmStat {
        compact_stall: figure(ls, "compact_stall"@),
        compact_success: figure(ls, "compact_success"@),
        compact_fail: figure(ls, "compact_fail"@),
        compact_isolated: figure(ls, "compact_isolated"@),
        compactmigrate_scanned: figure(ls, "compact_migrate_scanned"@),
        compactfree_scanned: figure(ls, "compact_free_scanned"@),
        kcompactd_wake: figure(ls, "compact_daemon_wake"@),
        pgalloc_normal: figure(ls, "pgalloc_normal"@),
        pgfree: figure(ls, "pgfree"@),
        pgscan_direct: figure(ls, "pgscan_direct"@),
        pgsteal_direct: figure(ls, "pgsteal_direct"@),
        allocstall_normal: figure(ls, "allocstall_normal"@),
        allocstall_movable: figure(ls, "allocstall_movable"@),
        pgscan_kswapd: figure(ls, "pgscan_kswapd"@),
        pgsteal_kswapd: figure(ls, "pgsteal_kswapd"@),
        pgmigrate_success: figure(ls, "pgmigrate_success"@),
        pgmigrate_fail: figure(ls, "pgmigrate_fail"@),
        cma_alloc_success: figure(ls, "cma_alloc_success"@),
        cma_alloc_fail: figure(ls, "cma_alloc_fail"@),
        nr_free_cma: figure(ls, "nr_free_cma"@),
        oom_kill: figure(ls, "oom_kill"@),
    }
}

/// Reads `/proc/vmstat`.
pub fn parse_vmstat(content: &str) -> (r: VmStat)
    ensures
        r == counters_in(lines(content@)),
{
    let c = chars_of(content);
    let ls = lines_of(c.as_slice());
    VmStat {
        compact_stall: figure_at(&ls, "compact_stall"),
        compact_success: figure_at(&ls, "compact_success"),
        compact_fail: figure_at(&ls, "compact_fail"),
        compact_isolated: figure_at(&ls, "compact_isolated"),
        compactmigrate_scanned: figure_at(&ls, "compact_migrate_scanned"),
        compactfree_scanned: figure_at(&ls, "compact_free_scanned"),
        kcompactd_wake: figure_at(&ls, "compact_daemon_wake"),
        pgalloc_normal: figure_at(&ls, "pgalloc_normal"),
        pgfree: figure_at(&ls, "pgfree"),
        pgscan_direct: figure_at(&ls, "pgscan_direct"),
        pgsteal_direct: figure_at(&ls, "pgsteal_direct"),
        allocstall_normal: figure_at(&ls, "allocstall_normal"),
        allocstall_movable: figure_at(&ls, "allocstall_movable"),
        pgscan_kswapd: figure_at(&ls, "pgscan_kswapd"),
        pgsteal_kswapd: figure_at(&ls, "pgsteal_kswapd"),
        pgmigrate_success: figure_at(&ls, "pgmigrate_success"),
        pgmigrate_fail: figure_at(&ls, "pgmigrate_fail"),
        cma_alloc_success: figure_at(&ls, "cma_alloc_success"),
        cma_alloc_fail: figure_at(&ls, "cma_alloc_fail"),
        nr_free_cma: figure_at(&ls, "nr_free_cma"),
        oom_kill: figure_at(&ls, "oom_kill"),
    }
}

// Free blocks.

/// A word without the comma behind it.
pub open spec fn without_comma(s: Seq<char>) -> Seq<char> {
    if s.len() > 0 && s.last() == ',' {
        s.drop_last()
    } else {
        s
    }
}

fn bare<'a>(s: &'a [char]) -> (r: &'a [char])
    ensures
        r@ == without_comma(s@),
{
    if s.len() > 0 && s[s.len() - 1] == ',' {
        let r = slice_subrange(s, 0, s.len() - 1);
        assert(r@ =~= s@.drop_last());
        r
    } else {
        s
    }
}

/// The numbers of free blocks that words give, by order; what is no number counts as none.
pub open spec fn blocks_in(w: Seq<Seq<char>>) -> Seq<u64> {
    Seq::new(
        if w.len() < ORDERS {
            w.len()
        } else {
            ORDERS as nat
        },
        |i: int|
            match number_in(w[i], MOST_BLOCKS) {
                Some(n) => n,
                None => 0,
            },
    )
}

fn blocks_of(w: &Vec<&[char]>, from: usize) -> (v: Vec<u64>)
    requires
        from <= w@.len(),
    ensures
        v@ == blocks_in(texts(w@).skip(from as int)),
{
    let ghost rest = texts(w@).skip(from as int);
    let mut v: Vec<u64> = Vec::new();
    let mut i: usize = from;
    while i < w.len() && i - from < ORDERS
        invariant
            from <= i <= w@.len(),
            i - from <= ORDERS,
            rest == texts(w@).skip(from as int),
            v@.len() == i - from,
            forall|k: int| 0 <= k < v@.len() ==> (#[trigger] v@[k]) == blocks_in(rest)[k],
        decreases w@.len() - i,
    {
        assert(rest[i - from] == w@[i as int]@);
        let n: u64 = match number_of(w[i], MOST_BLOCKS) {
            Some(n) => n,
            None => 0,
        };
        v.push(n);
        i = i + 1;
    }
    assert(v@ =~= blocks_in(rest));
    v
}

/// The zone that a line tells of: its node, its name and its free blocks.
pub open spec fn zone_of(line: Seq<char>) -> Option<(u64, Seq<char>, Seq<u64>)> {
    let w = words(line);
    if w.len() < 4 {
        None
    } else {
        match number_in(without_comma(w[1]), u32::MAX as u64) {
            Some(node) => Some((node, w[3], blocks_in(w.skip(4)))),
            None => None,
        }
    }
}

/// The zones that lines tell of, in order.
pub open spec fn zones_of(ls: Seq<Seq<char>>) -> Seq<(u64, Seq<char>, Seq<u64>)>
    decreases ls.len(),
{
    if ls.len() == 0 {
        Seq::empty()
    } else {
        match zone_of(ls.last()) {
            Some(z) => zones_of(ls.drop_last()).push(z),
            None => zones_of(ls.drop_last()),
        }
    }
}

/// What entries say of zones.
pub open spec fn zone_entries(v: Seq<BuddyInfoEntry>) -> Seq<(u64, Seq<char>, Seq<u64>)> {
    Seq::new(v.len(), |i: int| (v[i].node as u64, v[i].zone@, v[i].free_counts@))
}

fn zone_at(line: &[char]) -> (r: Option<BuddyInfoEntry>)
    ensures
        match r {
            Some(e) => zone_of(line@) == Some((e.node as u64, e.zone@, e.free_counts@)),
            None => zone_of(line@) is None,
        },
{
    let w = words_of(line);
    let ghost t = texts(w@);
    if w.len() < 4 {
        return None;
    }
    assert(t[1] == w@[1]@ && t[3] == w@[3]@);
    match number_of(bare(w[1]), u32::MAX as u64) {
        Some(node) => Some(
            BuddyInfoEntry {
                node: node as u32,
                zone: string_of(w[3]),
                free_counts: blocks_of(&w, 4),
            },
        ),
        None => None,
    }
}

/// Reads `/proc/buddyinfo`.
pub fn parse_buddyinfo(content: &str) -> (v: Vec<BuddyInfoEntry>)
    ensures
        zone_entries(v@) == zones_of(lines(content@)),
{
    let c = chars_of(content);
    let ls = lines_of(c.as_slice());
    let ghost all = texts(ls@);
    let mut v: Vec<BuddyInfoEntry> = Vec::new();
    let mut i: usize = 0;
    assert(all.take(0) =~= Seq::empty());
    assert(zone_entries(v@) =~= Seq::empty());
    while i < ls.len()
        invariant
            i <= ls@.len(),
            all == texts(ls@),
            zone_entries(v@) == zones_of(all.take(i as int)),
        decreases ls@.len() - i,
    {
        let ghost before = v@;
        assert(all.take(i + 1).drop_last() =~= all.take(i as int));
        assert(all.take(i + 1).last() == ls@[i as int]@);
        match zone_at(ls[i]) {
            Some(e) => {
                v.push(e);
                assert(zone_entries(v@) =~= zone_entries(before).push(
                    (e.node as u64, e.zone@, e.free_counts@),
                ));
            },
            None => {},
        }
        i = i + 1;
    }
    assert(all.take(all.len() as int) =~= all);
    v
}

/// The free blocks of a type that a line tells of: the node, the zone, the type and the
/// blocks.
pub open spec fn type_of(line: Seq<char>) -> Option<(u64, Seq<char>, Seq<char>, Seq<u64>)> {
    let w = words(line);
    if w.len() < 6 || w[0] != "Node"@ || w[4] != "type"@ {
        None
    } else {
        match number_in(without_comma(w[1]), u32::MAX as u64) {
            Some(node) => Some((node, without_comma(w[3]), w[5], blocks_in(w.skip(6)))),
            None => None,
        }
    }
}

/// The free blocks by type that lines tell of, in order.
pub open spec fn types_of(ls: Seq<Seq<char>>) -> Seq<(u64, Seq<char>, Seq<char>, Seq<u64>)>
    decreases ls.len(),
{
    if ls.len() == 0 {
        Seq::empty()
    } else {
        match type_of(ls.last()) {
            Some(z) => types_of(ls.drop_last()).push(z),
            None => types_of(ls.drop_last()),
        }
    }
}

/// What entries say of types.
pub open spec fn type_entries(v: Seq<PageTypeInfoEntry>) -> Seq<
    (u64, Seq<char>, Seq<char>, Seq<u64>),
> {
    Seq::new(
        v.len(),
        |i: int| (v[i].node as u64, v[i].zone@, v[i].page_type@, v[i].free_counts@),
    )
}

fn type_at(line: &[char]) -> (r: Option<PageTypeInfoEntry>)
    ensures
        match r {
            Some(e) => type_of(line@) == Some(
                (e.node as u64, e.zone@, e.page_type@, e.free_counts@),
            ),
            None => type_of(line@) is None,
        },
{
    let w = words_of(line);
    let ghost t = texts(w@);
    if w.len() < 6 {
        return None;
    }
    assert(t[0] == w@[0]@ && t[1] == w@[1]@ && t[3] == w@[3]@ && t[4] == w@[4]@ && t[5] == w@[5]@);
    if !is_text(w[0], "Node") || !is_text(w[4], "type") {
        return None;
    }
    match number_of(bare(w[1]), u32::MAX as u64) {
        Some(node) => Some(
            PageTypeInfoEntry {
                node: node as u32,
                zone: string_of(bare(w[3])),
                page_type: string_of(w[5]),
                free_counts: blocks_of(&w, 6),
            },
        ),
        None => None,
    }
}

/// Reads `/proc/pagetypeinfo`.
pub fn parse_pagetypeinfo(content: &str) -> (v: Vec<PageTypeInfoEntry>)
    ensures
        type_entries(v@) == types_of(lines(content@)),
{
    let c = chars_of(content);
    let ls = lines_of(c.as_slice());
    let ghost all = texts(ls@);
    let mut v: Vec<PageTypeInfoEntry> = Vec::new();
    let mut i: usize = 0;
    assert(all.take(0) =~= Seq::empty());
    assert(type_entries(v@) =~= Seq::empty());
    while i < ls.len()
        invariant
            i <= ls@.len(),
            all == texts(ls@),
            type_entries(v@) == types_of(all.take(i as int)),
        decreases ls@.len() - i,
    {
        let ghost before = v@;
        assert(all.take(i + 1).drop_last() =~= all.take(i as int));
        assert(all.take(i + 1).last() == ls@[i as int]@);
        match type_at(ls[i]) {
            Some(e) => {
                v.push(e);
                assert(type_entries(v@) =~= type_entries(before).push(
                    (e.node as u64, e.zone@, e.page_type@, e.free_counts@),
                ));
            },
            None => {},
        }
        i = i + 1;
    }
    assert(all.take(all.len() as int) =~= all);
    v
}

// Pressure.

/// What stands behind the first word that begins with a key.
pub open spec fn setting(w: Seq<Seq<char>>, key: Seq<char>) -> Option<Seq<char>>
    decreases w.len(),
{
    if w.len() == 0 {
        None
    } else if starts_with(w[0], key) {
        Some(w[0].skip(key.len() as int))
    } else {
        setting(w.skip(1), key)
    }
}

fn setting_at<'a>(w: &Vec<&'a [char]>, key: &str) -> (r: Option<&'a [char]>)
    ensures
        match r {
            Some(t) => setting(texts(w@), key@) == Some(t@),
            None => setting(texts(w@), key@) is None,
        },
{
    let ghost all = texts(w@);
    let mut i: usize = 0;
    assert(all.skip(0) =~= all);
    while i < w.len()
        invariant
            i <= w@.len(),
            all == texts(w@),
            setting(all, key@) == setting(all.skip(i as int), key@),
        decreases w@.len() - i,
    {
        assert(all.skip(i as int)[0] == w@[i as int]@);
        let found = strip_prefix(w[i], key);
        if found.is_some() {
            return found;
        }
        assert(all.skip(i as int).skip(1) =~= all.skip(i + 1));
        i = i + 1;
    }
    assert(all.skip(i as int) =~= Seq::empty());
    None
}

/// A share in percent with two decimals, in hundredths.
pub open spec fn share_in(s: Seq<char>) -> Option<u64> {
    let i = find(s, '.');
    if i < s.len() {
        match (number_in(s.take(i), MOST_FIGURE), number_in(s.skip(i + 1), 99)) {
            (Some(whole), Some(part)) => Some((whole * 100 + part) as u64),
            _ => None,
        }
    } else {
        None
    }
}

fn share_of(s: &[char]) -> (r: Option<u64>)
    ensures
        r == share_in(s@),
{
    let i: usize = find_char(s, '.');
    if i < s.len() {
        let a = slice_subrange(s, 0, i);
        let b = slice_subrange(s, i + 1, s.len());
        assert(a@ =~= s@.take(i as int));
        assert(b@ =~= s@.skip(i + 1));
        match (parse_unsigned(a, MOST_FIGURE), parse_unsigned(b, 99)) {
            (Some(whole), Some(part)) => Some(whole * 100 + part),
            _ => None,
        }
    } else {
        None
    }
}

/// The share behind a key.
pub open spec fn share(w: Seq<Seq<char>>, key: Seq<char>) -> Option<u64> {
    match setting(w, key) {
        Some(t) => share_in(t),
        None => None,
    }
}

fn share_at(w: &Vec<&[char]>, key: &str) -> (r: Option<u64>)
    ensures
        r == share(texts(w@), key@),
{
    match setting_at(w, key) {
        Some(t) => share_of(t),
        None => None,
    }
}

/// The number behind a key.
pub open spec fn count_in(w: Seq<Seq<char>>, key: Seq<char>) -> Option<u64> {
    match setting(w, key) {
        Some(t) => number_in(t, u64::MAX),
        None => None,
    }
}

/// What the words of a line say of pressure.
pub open spec fn pressure_of(w: Seq<Seq<char>>) -> Option<PsiLine> {
    match (
        share(w, "avg10="@),
        share(w, "avg60="@),
        share(w, "avg300="@),
        count_in(w, "total="@),
    ) {
        (Some(avg10), Some(avg60), Some(avg300), Some(total)) => Some(
            PsiLine { avg10, avg60, avg300, total },
        ),
        _ => None,
    }
}

/// What the first line that begins with a word says of pressure.
pub open spec fn pressure_in(ls: Seq<Seq<char>>, kind: Seq<char>) -> Option<PsiLine>
    decreases ls.len(),
{
    if ls.len() == 0 {
        None
    } else if starts_with(ls[0], kind) {
        pressure_of(words(ls[0]))
    } else {
        pressure_in(ls.skip(1), kind)
    }
}

fn pressure_line(line: &[char]) -> (r: Option<PsiLine>)
    ensures
        r == pressure_of(words(line@)),
{
    let w = words_of(line);
    let total: Option<u64> = match setting_at(&w, "total=") {
        Some(t) => number_of(t, u64::MAX),
        None => None,
    };
    let avg10 = share_at(&w, "avg10=");
    let avg60 = share_at(&w, "avg60=");
    let avg300 = share_at(&w, "avg300=");
    match (avg10, avg60, avg300, total) {
        (Some(avg10), Some(avg60), Some(avg300), Some(total)) => Some(
            PsiLine { avg10, avg60, avg300, total },
        ),
        _ => None,
    }
}

fn pressure_at(ls: &Vec<&[char]>, kind: &str) -> (r: Option<PsiLine>)
    ensures
        r == pressure_in(texts(ls@), kind@),
{
    let ghost all = texts(ls@);
    let mut i: usize = 0;
    assert(all.skip(0) =~= all);
    while i < ls.len()
        invariant
            i <= ls@.len(),
            all == texts(ls@),
            pressure_in(all, kind@) == pressure_in(all.skip(i as int), kind@),
        decreases ls@.len() - i,
    {
        assert(all.skip(i as int)[0] == ls@[i as int]@);
        if has_prefix(ls[i], kind) {
            return pressure_line(ls[i]);
        }
        assert(all.skip(i as int).skip(1) =~= all.skip(i + 1));
        i = i + 1;
    }
    assert(all.skip(i as int) =~= Seq::empty());
    None
}

/// Reads `/proc/pressure/memory`: none unless both lines are there.
pub fn parse_psi_memory(content: &str) -> (r: Option<PsiMemory>)
    ensures
        r == match (pressure_in(lines(content@), "some"@), pressure_in(lines(content@), "full"@)) {
            (Some(some), Some(full)) => Some(PsiMemory { some, full }),
            _ => None,
        },
{
    let c = chars_of(content);
    let ls = lines_of(c.as_slice());
    match (pressure_at(&ls, "some"), pressure_at(&ls, "full")) {
        (Some(some), Some(full)) => Some(PsiMemory { some, full }),
        _ => None,
    }
}

/// Reads `/proc/pressure/io`: none unless both lines are there.
pub fn parse_psi_io(content: &str) -> (r: Option<PsiIo>)
    ensures
        r == match (pressure_in(lines(content@), "some"@), pressure_in(lines(content@), "full"@)) {
            (Some(some), Some(full)) => Some(PsiIo { some, full }),
            _ => None,
        },
{
    let c = chars_of(content);
    let ls = lines_of(c.as_slice());
    match (pressure_at(&ls, "some"), pressure_at(&ls, "full")) {
        (Some(some), Some(full)) => Some(PsiIo { some, full }),
        _ => None,
    }
}

/// A line of a name, with or without a colon, and a number gives that number for that name.
pub proof fn law_figure_is_read(line: Seq<char>, name: Seq<char>, n: nat)
    requires
        words(line).len() >= 2,
        words(line)[0] == name || words(line)[0] == name + ":"@,
        words(line)[1] == dec(n),
        n <= MOST_FIGURE,
    ensures
        figure_of(line, name) == Some(n as u64),
{
    lemma_parse_dec(n, MOST_FIGURE as nat);
}

/// The figure for a name is that of the first line that has one, and there is none where no
/// line has.
pub proof fn law_first_figure_counts(ls: Seq<Seq<char>>, name: Seq<char>)
    ensures
        figure(ls, name) is Some ==> exists|i: int|
            0 <= i < ls.len() && figure(ls, name) == figure_of(#[trigger] ls[i], name) && forall|
                j: int,
            |
                0 <= j < i ==> figure_of(#[trigger] ls[j], name) is None,
        figure(ls, name) is None ==> forall|j: int|
            0 <= j < ls.len() ==> figure_of(#[trigger] ls[j], name) is None,
    decreases ls.len(),
{
    if ls.len() > 0 && figure_of(ls[0], name) is None {
        let rest = ls.skip(1);
        law_first_figure_counts(rest, name);
        if figure(ls, name) is Some {
            let i = choose|i: int|
                0 <= i < rest.len() && figure(rest, name) == figure_of(#[trigger] rest[i], name)
                    && forall|j: int| 0 <= j < i ==> figure_of(#[trigger] rest[j], name) is None;
            assert(ls[i + 1] == rest[i]);
            assert forall|j: int| 0 <= j < i + 1 implies figure_of(#[trigger] ls[j], name)
                is None by {
                if j > 0 {
                    assert(ls[j] == rest[j - 1]);
                }
            }
        } else {
            assert forall|j: int| 0 <= j < ls.len() implies figure_of(#[trigger] ls[j], name)
                is None by {
                if j > 0 {
                    assert(ls[j] == rest[j - 1]);
                }
            }
        }
    }
}

/// Each figure of memory is the one with its name.
pub proof fn law_memory_figures(ls: Seq<Seq<char>>, m: MemInfo)
    requires
        memory_in(ls) == Some(m),
    ensures
        figure(ls, "MemTotal"@) == Some(m.mem_total_kb),
        figure(ls, "MemFree"@) == Some(m.mem_free_kb),
        figure(ls, "MemAvailable"@) == Some(m.mem_available_kb),
        figure(ls, "CmaTotal"@) == m.cma_total_kb,
        figure(ls, "CmaFree"@) == m.cma_free_kb,
        figure(ls, "Buffers"@) == m.buffers_kb,
        figure(ls, "Cached"@) == m.cached_kb,
        figure(ls, "Active"@) == m.active_kb,
        figure(ls, "Inactive"@) == m.inactive_kb,
        figure(ls, "Shmem"@) == m.shmem_kb,
        figure(ls, "Slab"@) == m.slab_kb,
        figure(ls, "SReclaimable"@) == m.s_reclaimable_kb,
        figure(ls, "SUnreclaim"@) == m.s_unreclaim_kb,
        figure(ls, "SwapTotal"@) == m.swap_total_kb,
        figure(ls, "SwapFree"@) == m.swap_free_kb,
        figure(ls, "Dirty"@) == m.dirty_kb,
        figure(ls, "Writeback"@) == m.writeback_kb,
        figure(ls, "AnonPages"@) == m.anon_pages_kb,
        figure(ls, "Mapped"@) == m.mapped_kb,
        figure(ls, "Zswap"@) == m.zswap_kb,
        figure(ls, "Zswapped"@) == m.zswapped_kb,
{
}

/// Each counter is the one with its name.
pub proof fn law_counters(ls: Seq<Seq<char>>)
    ensures
        figure(ls, "compact_stall"@) == counters_in(ls).compact_stall,
        figure(ls, "compact_success"@) == counters_in(ls).compact_success,
        figure(ls, "compact_fail"@) == counters_in(ls).compact_fail,
        figure(ls, "pgscan_direct"@) == counters_in(ls).pgscan_direct,
        figure(ls, "pgsteal_direct"@) == counters_in(ls).pgsteal_direct,
        figure(ls, "pgscan_kswapd"@) == counters_in(ls).pgscan_kswapd,
        figure(ls, "pgsteal_kswapd"@) == counters_in(ls).pgsteal_kswapd,
        figure(ls, "allocstall_normal"@) == counters_in(ls).allocstall_normal,
        figure(ls, "allocstall_movable"@) == counters_in(ls).allocstall_movable,
        figure(ls, "pgmigrate_success"@) == counters_in(ls).pgmigrate_success,
        figure(ls, "pgmigrate_fail"@) == counters_in(ls).pgmigrate_fail,
        figure(ls, "cma_alloc_success"@) == counters_in(ls).cma_alloc_success,
        figure(ls, "cma_alloc_fail"@) == counters_in(ls).cma_alloc_fail,
        figure(ls, "oom_kill"@) == counters_in(ls).oom_kill,
{
}

} // verus!
