//! What the information command makes of what it has read.
use crate::info::aggregate::{
    aggregate_debugfs, aggregate_sysfs, debugfs_total_size, debugfs_usage, exporter_totals,
    filter_buffers, filter_holdings, kept_buffers, kept_holdings, summaries, sysfs_total_size,
    sysfs_usage, total_size, totals_fit, Usage,
};
use crate::info::format::{format_size, size_text};
use crate::info::types::{
    memory_context, no_counters, strings, BuddyInfoEntry, BufferSummary, CmaAreaStats,
    DebugfsBufEntry, DmaBufInfo, HeapCaps, HeapEntry, InfoReport, MemInfo, PageTypeInfoEntry,
    ProcessBufEntry, PsiIo, PsiMemory, VmParams, VmStat, ZoneEntry,
};
use crate::number::{dec, push_dec};
use crate::text::group_concat;
use crate::order::{lemma_text_order, lemma_text_transitive, string_less, text_less};
use vstd::prelude::*;

verus! {

/// One character of a permission text.
pub open spec fn bit_char(mode: u32, bit: u32, c: char) -> char {
    if mode & bit != 0 {
        c
    } else {
        '-'
    }
}

/// The type of a file and the permissions of its owner, its group and others.
pub open spec fn permission_text(mode: u32) -> Seq<char> {
    seq![
        if mode & 0xf000 == 0x2000 {
            'c'
        } else if mode & 0xf000 == 0x6000 {
            'b'
        } else {
            '-'
        },
        bit_char(mode, 0x100, 'r'),
        bit_char(mode, 0x80, 'w'),
        bit_char(mode, 0x40, 'x'),
        bit_char(mode, 0x20, 'r'),
        bit_char(mode, 0x10, 'w'),
        bit_char(mode, 0x8, 'x'),
        bit_char(mode, 0x4, 'r'),
        bit_char(mode, 0x2, 'w'),
        bit_char(mode, 0x1, 'x'),
    ]
}

fn push_bit(s: &mut String, mode: u32, bit: u32, c: char)
    ensures
        final(s)@ == old(s)@.push(bit_char(mode, bit, c)),
{
    s.push(
        if mode & bit != 0 {
            c
        } else {
            '-'
        },
    );
}

/// Renders the mode of a file, as in `crw-rw----`.
pub fn format_permissions(mode: u32) -> (s: String)
    ensures
        s@ == permission_text(mode),
{
    let mut s = String::new();
    s.push(
        if mode & 0xf000 == 0x2000 {
            'c'
        } else if mode & 0xf000 == 0x6000 {
            'b'
        } else {
            '-'
        },
    );
    push_bit(&mut s, mode, 0x100, 'r');
    push_bit(&mut s, mode, 0x80, 'w');
    push_bit(&mut s, mode, 0x40, 'x');
    push_bit(&mut s, mode, 0x20, 'r');
    push_bit(&mut s, mode, 0x10, 'w');
    push_bit(&mut s, mode, 0x8, 'x');
    push_bit(&mut s, mode, 0x4, 'r');
    push_bit(&mut s, mode, 0x2, 'w');
    push_bit(&mut s, mode, 0x1, 'x');
    assert(s@ =~= permission_text(mode));
    s
}

/// Heaps sorted by name, with one more behind all that do not come after it.
pub open spec fn insert_heap(s: Seq<HeapEntry>, x: HeapEntry) -> Seq<HeapEntry>
    decreases s.len(),
{
    if s.len() == 0 {
        seq![x]
    } else if text_less(x.name@, s[0].name@) {
        seq![x] + s
    } else {
        seq![s[0]] + insert_heap(s.skip(1), x)
    }
}

/// Heaps in dictionary order of their names; of equal names the first stays first.
pub open spec fn heaps_by_name(s: Seq<HeapEntry>) -> Seq<HeapEntry>
    decreases s.len(),
{
    if s.len() == 0 {
        s
    } else {
        insert_heap(heaps_by_name(s.drop_last()), s.last())
    }
}

proof fn lemma_insert_heap(s: Seq<HeapEntry>, x: HeapEntry, i: int)
    requires
        0 <= i <= s.len(),
        forall|j: int| 0 <= j < i ==> !text_less(x.name@, (#[trigger] s[j]).name@),
        i < s.len() ==> text_less(x.name@, s[i].name@),
    ensures
        insert_heap(s, x) == s.take(i) + seq![x] + s.skip(i),
    decreases i,
{
    if i == 0 {
        assert(s.take(0) + seq![x] + s.skip(0) =~= seq![x] + s);
        if s.len() == 0 {
            assert(seq![x] + s =~= seq![x]);
        }
    } else {
        let t = s.skip(1);
        assert(!text_less(x.name@, s[0].name@));
        assert forall|j: int| 0 <= j < i - 1 implies !text_less(
            x.name@,
            (#[trigger] t[j]).name@,
        ) by {
            assert(t[j] == s[j + 1]);
        }
        lemma_insert_heap(t, x, i - 1);
        assert(seq![s[0]] + (t.take(i - 1) + seq![x] + t.skip(i - 1)) =~= s.take(i) + seq![x]
            + s.skip(i));
    }
}

/// Sorts heaps by name.
pub fn sort_heaps(heaps: Vec<HeapEntry>) -> (r: Vec<HeapEntry>)
    ensures
        r@ == heaps_by_name(heaps@),
{
    let ghost all = heaps@;
    let mut rest = heaps;
    let mut r: Vec<HeapEntry> = Vec::new();
    while rest.len() > 0
        invariant
            rest@.len() <= all.len(),
            rest@ == all.skip(all.len() - rest@.len()),
            r@ == heaps_by_name(all.take(all.len() - rest@.len())),
        decreases rest@.len(),
    {
        let ghost n = all.len() - rest@.len();
        let x = rest.remove(0);
        assert(all.take(n + 1).drop_last() =~= all.take(n));
        assert(all.take(n + 1).last() == x);
        let mut j: usize = 0;
        while j < r.len() && !string_less(x.name.as_str(), r[j].name.as_str())
            invariant
                j <= r@.len(),
                forall|k: int| 0 <= k < j ==> !text_less(x.name@, (#[trigger] r@[k]).name@),
            decreases r@.len() - j,
        {
            j = j + 1;
        }
        proof {
            lemma_insert_heap(r@, x, j as int);
        }
        let ghost before = r@;
        r.insert(j, x);
        assert(r@ =~= before.take(j as int) + seq![x] + before.skip(j as int));
        assert(rest@ =~= all.skip(n + 1));
    }
    assert(all.take(all.len() as int) =~= all);
    r
}

/// Heaps whose names do not descend.
pub open spec fn heaps_sorted(s: Seq<HeapEntry>) -> bool {
    forall|i: int, j: int|
        0 <= i < j < s.len() ==> !text_less((#[trigger] s[j]).name@, (#[trigger] s[i]).name@)
}

proof fn lemma_insert_heap_sorted(s: Seq<HeapEntry>, x: HeapEntry)
    requires
        heaps_sorted(s),
    ensures
        heaps_sorted(insert_heap(s, x)),
        insert_heap(s, x).to_multiset() == s.to_multiset().insert(x),
        forall|k: int|
            0 <= k < insert_heap(s, x).len() ==> (#[trigger] insert_heap(s, x)[k]) == x
                || s.contains(insert_heap(s, x)[k]),
    decreases s.len(),
{
    broadcast use vstd::seq_lib::group_to_multiset_ensures;

    let r = insert_heap(s, x);
    if s.len() == 0 {
        assert(r =~= s.push(x));
    } else if text_less(x.name@, s[0].name@) {
        assert(r =~= seq![x] + s);
        assert forall|i: int, j: int| 0 <= i < j < r.len() implies !text_less(
            (#[trigger] r[j]).name@,
            (#[trigger] r[i]).name@,
        ) by {
            if i == 0 {
                lemma_text_order(x.name@, r[j].name@);
                if text_less(r[j].name@, x.name@) {
                    lemma_text_transitive(r[j].name@, x.name@, s[0].name@);
                    if j > 1 {
                        assert(!text_less(s[j - 1].name@, s[0].name@));
                    } else {
                        lemma_text_order(s[0].name@, s[0].name@);
                    }
                }
            } else {
                assert(r[i] == s[i - 1] && r[j] == s[j - 1]);
            }
        }
        assert forall|k: int| 0 <= k < r.len() implies (#[trigger] r[k]) == x || s.contains(
            r[k],
        ) by {
            if k > 0 {
                assert(s[k - 1] == r[k]);
            }
        }
        vstd::seq_lib::lemma_multiset_commutative(seq![x], s);
        assert(seq![x].to_multiset() =~= vstd::multiset::Multiset::empty().insert(x)) by {
            assert(seq![x] =~= Seq::<HeapEntry>::empty().push(x));
        }
        assert(r.to_multiset() =~= s.to_multiset().insert(x));
    } else {
        let t = s.skip(1);
        assert forall|i: int, j: int| 0 <= i < j < t.len() implies !text_less(
            (#[trigger] t[j]).name@,
            (#[trigger] t[i]).name@,
        ) by {
            assert(t[i] == s[i + 1] && t[j] == s[j + 1]);
        }
        lemma_insert_heap_sorted(t, x);
        let q = insert_heap(t, x);
        assert(r =~= seq![s[0]] + q);
        assert forall|i: int, j: int| 0 <= i < j < r.len() implies !text_less(
            (#[trigger] r[j]).name@,
            (#[trigger] r[i]).name@,
        ) by {
            assert(r[j] == q[j - 1]);
            if i == 0 {
                if r[j] != x {
                    assert(t.contains(q[j - 1]));
                    let k = choose|k: int| 0 <= k < t.len() && t[k] == q[j - 1];
                    assert(s[k + 1] == r[j]);
                    assert(!text_less(s[k + 1].name@, s[0].name@));
                }
            } else {
                assert(r[i] == q[i - 1]);
            }
        }
        assert forall|k: int| 0 <= k < r.len() implies (#[trigger] r[k]) == x || s.contains(
            r[k],
        ) by {
            if k > 0 {
                assert(r[k] == q[k - 1]);
                if r[k] != x {
                    let m = choose|m: int| 0 <= m < t.len() && t[m] == q[k - 1];
                    assert(s[m + 1] == r[k]);
                }
            } else {
                assert(s[0] == r[k]);
            }
        }
        vstd::seq_lib::lemma_multiset_commutative(seq![s[0]], q);
        vstd::seq_lib::lemma_multiset_commutative(seq![s[0]], t);
        assert(s =~= seq![s[0]] + t);
        assert(r.to_multiset() =~= s.to_multiset().insert(x));
    }
}

/// Sorting by name gives names that do not descend, and the same heaps.
pub proof fn law_heaps_sorted(s: Seq<HeapEntry>)
    ensures
        heaps_sorted(heaps_by_name(s)),
        heaps_by_name(s).to_multiset() == s.to_multiset(),
    decreases s.len(),
{
    broadcast use vstd::seq_lib::group_to_multiset_ensures;

    if s.len() > 0 {
        law_heaps_sorted(s.drop_last());
        lemma_insert_heap_sorted(heaps_by_name(s.drop_last()), s.last());
        assert(s =~= s.drop_last().push(s.last()));
    }
}

/// Whether one held buffer is listed before another: the larger first, then the
/// lower process number.
pub open spec fn listed_before(a: ProcessBufEntry, b: ProcessBufEntry) -> bool {
    a.size > b.size || (a.size == b.size && a.pid < b.pid)
}

/// Held buffers in order, with one more behind all that it does not come before.
pub open spec fn insert_holding(s: Seq<ProcessBufEntry>, x: ProcessBufEntry) -> Seq<ProcessBufEntry>
    decreases s.len(),
{
    if s.len() == 0 {
        seq![x]
    } else if listed_before(x, s[0]) {
        seq![x] + s
    } else {
        seq![s[0]] + insert_holding(s.skip(1), x)
    }
}

/// Held buffers, the largest first, then by process number; of two equal in both
/// the first stays first.
pub open spec fn holdings_in_order(s: Seq<ProcessBufEntry>) -> Seq<ProcessBufEntry>
    decreases s.len(),
{
    if s.len() == 0 {
        s
    } else {
        insert_holding(holdings_in_order(s.drop_last()), s.last())
    }
}

proof fn lemma_insert_holding(s: Seq<ProcessBufEntry>, x: ProcessBufEntry, i: int)
    requires
        0 <= i <= s.len(),
        forall|j: int| 0 <= j < i ==> !listed_before(x, #[trigger] s[j]),
        i < s.len() ==> listed_before(x, s[i]),
    ensures
        insert_holding(s, x) == s.take(i) + seq![x] + s.skip(i),
    decreases i,
{
    if i == 0 {
        assert(s.take(0) + seq![x] + s.skip(0) =~= seq![x] + s);
        if s.len() == 0 {
            assert(seq![x] + s =~= seq![x]);
        }
    } else {
        let t = s.skip(1);
        assert(!listed_before(x, s[0]));
        assert forall|j: int| 0 <= j < i - 1 implies !listed_before(x, #[trigger] t[j]) by {
            assert(t[j] == s[j + 1]);
        }
        lemma_insert_holding(t, x, i - 1);
        assert(seq![s[0]] + (t.take(i - 1) + seq![x] + t.skip(i - 1)) =~= s.take(i) + seq![x]
            + s.skip(i));
    }
}

/// Sorts held buffers for listing.
pub fn sort_holdings(entries: Vec<ProcessBufEntry>) -> (r: Vec<ProcessBufEntry>)
    ensures
        r@ == holdings_in_order(entries@),
{
    let ghost all = entries@;
    let mut rest = entries;
    let mut r: Vec<ProcessBufEntry> = Vec::new();
    while rest.len() > 0
        invariant
            rest@.len() <= all.len(),
            rest@ == all.skip(all.len() - rest@.len()),
            r@ == holdings_in_order(all.take(all.len() - rest@.len())),
        decreases rest@.len(),
    {
        let ghost n = all.len() - rest@.len();
        let x = rest.remove(0);
        assert(all.take(n + 1).drop_last() =~= all.take(n));
        assert(all.take(n + 1).last() == x);
        let mut j: usize = 0;
        while j < r.len() && !(x.size > r[j].size || (x.size == r[j].size && x.pid < r[j].pid))
            invariant
                j <= r@.len(),
                forall|k: int| 0 <= k < j ==> !listed_before(x, #[trigger] r@[k]),
            decreases r@.len() - j,
        {
            j = j + 1;
        }
        proof {
            lemma_insert_holding(r@, x, j as int);
        }
        let ghost before = r@;
        r.insert(j, x);
        assert(r@ =~= before.take(j as int) + seq![x] + before.skip(j as int));
        assert(rest@ =~= all.skip(n + 1));
    }
    assert(all.take(all.len() as int) =~= all);
    r
}

/// The buffers that a report counts: the kernel's list where it could be read,
/// else the sysfs directory.
pub open spec fn reported_usage(
    debugfs: Option<Vec<DebugfsBufEntry>>,
    sysfs: Seq<DmaBufInfo>,
) -> Seq<Usage> {
    match debugfs {
        Some(entries) => debugfs_usage(entries@),
        None => sysfs_usage(sysfs),
    }
}

/// The totals of a report: by exporter, in number and in size.
pub fn buffer_totals(debugfs: &Option<Vec<DebugfsBufEntry>>, sysfs: &Vec<DmaBufInfo>) -> (r: (
    Vec<BufferSummary>,
    usize,
    u64,
))
    requires
        totals_fit(reported_usage(*debugfs, sysfs@)),
        total_size(reported_usage(*debugfs, sysfs@)) <= u64::MAX,
    ensures
        summaries(r.0@) == exporter_totals(reported_usage(*debugfs, sysfs@)),
        r.1 == reported_usage(*debugfs, sysfs@).len(),
        r.2 == total_size(reported_usage(*debugfs, sysfs@)),
{
    match debugfs {
        Some(entries) => (
            aggregate_debugfs(entries.as_slice()),
            entries.len(),
            debugfs_total_size(entries.as_slice()),
        ),
        None => (
            aggregate_sysfs(sysfs.as_slice()),
            sysfs.len(),
            sysfs_total_size(sysfs.as_slice()),
        ),
    }
}

/// The contiguous areas of a report: none where the directory has none.
pub fn reported_areas(areas: Vec<CmaAreaStats>) -> (r: Option<Vec<CmaAreaStats>>)
    ensures
        r == if areas@.len() == 0 {
            None
        } else {
            Some(areas)
        },
{
    if areas.len() == 0 {
        None
    } else {
        Some(areas)
    }
}

/// What was read for a report; nothing where it could not be read.
#[derive(Debug)]
pub struct Found {
    pub heaps: Vec<HeapEntry>,
    pub debugfs: Option<Vec<DebugfsBufEntry>>,
    pub sysfs: Vec<DmaBufInfo>,
    pub holdings: Option<Vec<ProcessBufEntry>>,
    pub meminfo: Option<MemInfo>,
    pub vmstat: Option<VmStat>,
    pub vm_params: Option<VmParams>,
    pub zones: Option<Vec<ZoneEntry>>,
    pub buddyinfo: Option<Vec<BuddyInfoEntry>>,
    pub pagetypeinfo: Option<Vec<PageTypeInfoEntry>>,
    pub heap_caps: Option<Vec<HeapCaps>>,
    pub cma_areas: Vec<CmaAreaStats>,
    pub dma_heap_pool_kb: Option<u64>,
    pub psi_memory: Option<PsiMemory>,
    pub psi_io: Option<PsiIo>,
}

/// What a report is asked to hold: single buffers and who holds them, of some heaps or of
/// all; more of the memory; what the heaps can do.
#[derive(Debug)]
pub struct Wanted {
    pub detail: bool,
    pub filter: Option<Vec<String>>,
    pub procfs: bool,
    pub probe: bool,
}

/// The single buffers of a report.
pub open spec fn shown_buffers(listed: Option<Vec<DebugfsBufEntry>>, w: Wanted) -> Option<
    Seq<DebugfsBufEntry>,
> {
    match listed {
        Some(entries) => if w.detail {
            Some(
                match w.filter {
                    Some(heaps) => kept_buffers(entries@, strings(heaps@)),
                    None => entries@,
                },
            )
        } else {
            None
        },
        None => None,
    }
}

/// The holders of buffers of a report.
pub open spec fn shown_holdings(held: Option<Vec<ProcessBufEntry>>, w: Wanted) -> Option<
    Seq<ProcessBufEntry>,
> {
    match held {
        Some(entries) => if w.detail {
            Some(
                match w.filter {
                    Some(heaps) => kept_holdings(entries@, strings(heaps@)),
                    None => entries@,
                },
            )
        } else {
            None
        },
        None => None,
    }
}

/// What is there where it is asked for.
pub open spec fn if_wanted<T>(wanted: bool, x: Option<T>) -> Option<T> {
    if wanted {
        x
    } else {
        None
    }
}

/// The contents of a list that may be missing.
pub open spec fn contents<T>(v: Option<Vec<T>>) -> Option<Seq<T>> {
    match v {
        Some(x) => Some(x@),
        None => None,
    }
}

fn wanted_part<T>(wanted: bool, x: Option<T>) -> (r: Option<T>)
    ensures
        r == if_wanted(wanted, x),
{
    if wanted {
        x
    } else {
        None
    }
}

fn detailed_buffers(entries: Option<Vec<DebugfsBufEntry>>, w: &Wanted) -> (r: Option<
    Vec<DebugfsBufEntry>,
>)
    ensures
        contents(r) == shown_buffers(entries, *w),
{
    if !w.detail {
        return None;
    }
    match entries {
        Some(all) => match &w.filter {
            Some(heaps) => Some(filter_buffers(all, heaps.as_slice())),
            None => Some(all),
        },
        None => None,
    }
}

fn detailed_holdings(entries: Option<Vec<ProcessBufEntry>>, w: &Wanted) -> (r: Option<
    Vec<ProcessBufEntry>,
>)
    ensures
        contents(r) == shown_holdings(entries, *w),
{
    if !w.detail {
        return None;
    }
    match entries {
        Some(all) => match &w.filter {
            Some(heaps) => Some(filter_holdings(all, heaps.as_slice())),
            None => Some(all),
        },
        None => None,
    }
}

/// Makes a report of what was read and is asked for.
pub fn report(found: Found, wanted: &Wanted) -> (r: InfoReport)
    requires
        totals_fit(reported_usage(found.debugfs, found.sysfs@)),
        total_size(reported_usage(found.debugfs, found.sysfs@)) <= u64::MAX,
    ensures
        r.heaps == found.heaps,
        summaries(r.buffer_summary@) == exporter_totals(
            reported_usage(found.debugfs, found.sysfs@),
        ),
        r.total_buffers == reported_usage(found.debugfs, found.sysfs@).len(),
        r.total_buffer_size_bytes == total_size(reported_usage(found.debugfs, found.sysfs@)),
        contents(r.buffers) == shown_buffers(found.debugfs, *wanted),
        contents(r.process_usage) == shown_holdings(found.holdings, *wanted),
        r.memory is Some <==> found.meminfo is Some,
        r.memory matches Some(m) ==> m.meminfo == found.meminfo->0 && m.vmstat == match found.vmstat {
            Some(v) => v,
            None => no_counters(),
        },
        r.vm_params == if_wanted(wanted.procfs, found.vm_params),
        r.zones == if_wanted(wanted.procfs, found.zones),
        r.buddyinfo == if_wanted(wanted.procfs, found.buddyinfo),
        r.pagetypeinfo == if_wanted(wanted.procfs, found.pagetypeinfo),
        r.heap_caps == if_wanted(wanted.probe, found.heap_caps),
        r.cma_areas == if_wanted(
            wanted.procfs && found.cma_areas@.len() > 0,
            Some(found.cma_areas),
        ),
        r.dma_heap_pool_kb == found.dma_heap_pool_kb,
        r.psi_memory == found.psi_memory,
        r.psi_io == found.psi_io,
{
    let (buffer_summary, total_buffers, total_buffer_size_bytes) = buffer_totals(
        &found.debugfs,
        &found.sysfs,
    );
    let buffers = detailed_buffers(found.debugfs, wanted);
    let process_usage = detailed_holdings(found.holdings, wanted);
    InfoReport {
        heaps: found.heaps,
        buffer_summary,
        total_buffers,
        total_buffer_size_bytes,
        buffers,
        process_usage,
        memory: memory_context(found.meminfo, found.vmstat),
        vm_params: wanted_part(wanted.procfs, found.vm_params),
        zones: wanted_part(wanted.procfs, found.zones),
        buddyinfo: wanted_part(wanted.procfs, found.buddyinfo),
        pagetypeinfo: wanted_part(wanted.procfs, found.pagetypeinfo),
        heap_caps: wanted_part(wanted.probe, found.heap_caps),
        cma_areas: wanted_part(wanted.procfs, reported_areas(found.cma_areas)),
        dma_heap_pool_kb: found.dma_heap_pool_kb,
        psi_memory: found.psi_memory,
        psi_io: found.psi_io,
    }
}

/// What is told where a report was written to a file.
pub fn written_line(path: &str, r: &InfoReport) -> (s: String)
    ensures
        s@ == "Info report written to "@ + path@ + " ("@ + dec(r.heaps@.len()) + " heaps, "@ + dec(
            r.total_buffers as nat,
        ) + " buffers, "@ + size_text(r.total_buffer_size_bytes as nat) + ")"@,
{
    broadcast use group_concat;

    let mut s = String::new();
    s.append("Info report written to ");
    s.append(path);
    s.append(" (");
    push_dec(&mut s, r.heaps.len() as u64);
    s.append(" heaps, ");
    push_dec(&mut s, r.total_buffers as u64);
    s.append(" buffers, ");
    s.append(format_size(r.total_buffer_size_bytes).as_str());
    s.append(")");
    s
}

} // verus!
