//! The report's sections on heaps, buffers and processes.
use crate::info::aggregate::{
    aggregate_process_usage, debugfs_total_size, debugfs_usage, holding_size, holdings,
    lemma_holding_grows, lemma_process_totals_fit, process_summaries, process_totals, total_size,
};
use crate::info::format::{
    byte_len, format_row, format_size, format_size_kb, row_text, separator, separator_text,
    size_text, width_sum, Align, MAX_KB,
};
use crate::info::types::{
    strings, BufferSummary, DebugfsBufEntry, HeapCaps, HeapEntry, ProcessBufEntry, ProcessSummary,
    ProcessTotals,
};
use crate::number::{dec, dec_int, dec_string, hex8, hex8_string, push_dec, push_dec_int};
use crate::order::strs;
use crate::text::group_concat;
use vstd::prelude::*;

verus! {

broadcast use group_concat;

/// The widest text in bytes, but no less than `least`.
pub open spec fn widest(names: Seq<Seq<char>>, least: usize) -> usize
    decreases names.len(),
{
    if names.len() == 0 {
        least
    } else {
        let w = widest(names.drop_last(), least);
        if byte_len(names.last()) > w {
            byte_len(names.last())
        } else {
            w
        }
    }
}

/// The width of the widest string.
pub fn widest_of(names: &Vec<&str>, least: usize) -> (r: usize)
    ensures
        r == widest(strs(names@), least),
{
    let ghost ns = strs(names@);
    let mut w: usize = least;
    let mut i: usize = 0;
    assert(ns.take(0) =~= Seq::empty());
    while i < names.len()
        invariant
            i <= names@.len(),
            ns == strs(names@),
            w == widest(ns.take(i as int), least),
        decreases names@.len() - i,
    {
        assert(ns.take(i + 1).drop_last() =~= ns.take(i as int));
        assert(ns.take(i + 1).last() == names@[i as int]@);
        let n: usize = names[i].len();
        if n > w {
            w = n;
        }
        i = i + 1;
    }
    assert(ns.take(ns.len() as int) =~= ns);
    w
}

/// Texts with a separator between each two.
pub open spec fn join(parts: Seq<Seq<char>>, sep: Seq<char>) -> Seq<char>
    decreases parts.len(),
{
    if parts.len() == 0 {
        Seq::empty()
    } else if parts.len() == 1 {
        parts[0]
    } else {
        join(parts.drop_last(), sep) + sep + parts.last()
    }
}

/// Appends the first `n` strings with a separator between each two.
pub fn push_join(out: &mut String, parts: &Vec<String>, n: usize, sep: &str)
    requires
        n <= parts@.len(),
    ensures
        final(out)@ == old(out)@ + join(strings(parts@).take(n as int), sep@),
{
    let ghost all = strings(parts@);
    let ghost start = out@;
    let mut i: usize = 0;
    assert(all.take(0) =~= Seq::empty());
    while i < n
        invariant
            i <= n <= parts@.len(),
            all == strings(parts@),
            out@ == start + join(all.take(i as int), sep@),
        decreases n - i,
    {
        assert(all.take(i + 1).drop_last() =~= all.take(i as int));
        assert(all.take(i + 1).last() == parts@[i as int]@);
        if i > 0 {
            out.append(sep);
        }
        out.append(parts[i].as_str());
        i = i + 1;
    }
}

/// Appends a line of a table.
pub fn push_row(out: &mut String, widths: &[usize], aligns: &[Align], values: &[&str])
    ensures
        final(out)@ == old(out)@ + (row_text(widths@, aligns@, strs(values@)) + "\n"@),
{
    let row = format_row(widths, aligns, values);
    out.append(row.as_str());
    out.append("\n");
}

pub open spec fn heap_names(heaps: Seq<HeapEntry>) -> Seq<Seq<char>> {
    Seq::new(heaps.len(), |i: int| heaps[i].name@)
}

pub open spec fn heap_widths(heaps: Seq<HeapEntry>) -> Seq<usize> {
    seq![widest(heap_names(heaps), 4), 10, 17]
}

pub open spec fn heap_aligns() -> Seq<Align> {
    seq![Align::Left, Align::Left, Align::Left]
}

/// What is shown of a heap: its name, its permissions and whether it can be opened.
pub open spec fn heap_values(h: HeapEntry) -> Seq<Seq<char>> {
    seq![
        h.name@,
        match h.permissions {
            Some(p) => p@,
            None => "----------"@,
        },
        if h.accessible {
            "accessible"@
        } else {
            "permission denied"@
        },
    ]
}

pub open spec fn heap_row(widths: Seq<usize>, h: HeapEntry) -> Seq<char> {
    row_text(widths, heap_aligns(), heap_values(h)) + "\n"@
}

pub open spec fn heap_rows(widths: Seq<usize>, heaps: Seq<HeapEntry>) -> Seq<char>
    decreases heaps.len(),
{
    if heaps.len() == 0 {
        Seq::empty()
    } else {
        heap_rows(widths, heaps.drop_last()) + heap_row(widths, heaps.last())
    }
}

/// The section on heaps.
pub open spec fn heaps_text(heaps: Seq<HeapEntry>) -> Seq<char> {
    "[DMA Heaps]\n"@ + "  /dev/dma_heap/\n"@ + (if heaps.len() == 0 {
        "  (not available - /dev/dma_heap/ not found)\n"@
    } else {
        row_text(heap_widths(heaps), heap_aligns(), seq!["NAME"@, "PERM"@, "STATUS"@]) + "\n"@
            + heap_rows(heap_widths(heaps), heaps)
    }) + "\n"@
}

fn push_heap_rows(out: &mut String, heaps: &Vec<HeapEntry>, widths: &[usize], aligns: &[Align])
    requires
        aligns@ == heap_aligns(),
    ensures
        final(out)@ == old(out)@ + heap_rows(widths@, heaps@),
{
    let ghost start = out@;
    let mut i: usize = 0;
    assert(heaps@.take(0) =~= Seq::empty());
    while i < heaps.len()
        invariant
            i <= heaps@.len(),
            aligns@ == heap_aligns(),
            out@ == start + heap_rows(widths@, heaps@.take(i as int)),
        decreases heaps@.len() - i,
    {
        assert(heaps@.take(i + 1).drop_last() =~= heaps@.take(i as int));
        assert(heaps@.take(i + 1).last() == heaps@[i as int]);
        let h: &HeapEntry = &heaps[i];
        let perm: &str = match &h.permissions {
            Some(p) => p.as_str(),
            None => "----------",
        };
        let status: &str = if h.accessible {
            "accessible"
        } else {
            "permission denied"
        };
        let values: [&str; 3] = [h.name.as_str(), perm, status];
        assert(strs(values@) =~= heap_values(*h));
        push_row(out, widths, aligns, &values);
        i = i + 1;
    }
    assert(heaps@.take(heaps@.len() as int) =~= heaps@);
}

/// Appends the section on heaps.
pub fn push_heaps(out: &mut String, heaps: &Vec<HeapEntry>)
    ensures
        final(out)@ == old(out)@ + heaps_text(heaps@),
{
    out.append("[DMA Heaps]\n");
    out.append("  /dev/dma_heap/\n");
    if heaps.len() == 0 {
        out.append("  (not available - /dev/dma_heap/ not found)\n");
    } else {
        let mut names: Vec<&str> = Vec::new();
        let mut i: usize = 0;
        while i < heaps.len()
            invariant
                i <= heaps@.len(),
                strs(names@) == heap_names(heaps@).take(i as int),
            decreases heaps@.len() - i,
        {
            let ghost before = names@;
            names.push(heaps[i].name.as_str());
            assert(strs(names@) =~= strs(before).push(heaps@[i as int].name@));
            assert(heap_names(heaps@).take(i + 1) =~= heap_names(heaps@).take(i as int).push(
                heaps@[i as int].name@,
            ));
            i = i + 1;
        }
        assert(heap_names(heaps@).take(heaps@.len() as int) =~= heap_names(heaps@));
        let widths: [usize; 3] = [widest_of(&names, 4), 10, 17];
        let aligns: [Align; 3] = [Align::Left, Align::Left, Align::Left];
        let header: [&str; 3] = ["NAME", "PERM", "STATUS"];
        assert(widths@ =~= heap_widths(heaps@));
        assert(aligns@ =~= heap_aligns());
        assert(strs(header@) =~= seq!["NAME"@, "PERM"@, "STATUS"@]);
        push_row(out, &widths, &aligns, &header);
        push_heap_rows(out, heaps, &widths, &aligns);
    }
    out.append("\n");
}

pub open spec fn cap_names(caps: Seq<HeapCaps>) -> Seq<Seq<char>> {
    Seq::new(caps.len(), |i: int| caps[i].name@)
}

pub open spec fn cap_widths(caps: Seq<HeapCaps>) -> Seq<usize> {
    seq![widest(cap_names(caps), 4), 5, 4, 4, 5, 6, 9, 3, 11]
}

pub open spec fn cap_aligns() -> Seq<Align> {
    seq![
        Align::Left,
        Align::Left,
        Align::Left,
        Align::Left,
        Align::Left,
        Align::Left,
        Align::Left,
        Align::Left,
        Align::Left,
    ]
}

/// `Y` for yes, a dash for no.
pub open spec fn yes(b: bool) -> Seq<char> {
    if b {
        "Y"@
    } else {
        "-"@
    }
}

fn yes_or_dash(b: bool) -> (r: &'static str)
    ensures
        r@ == yes(b),
{
    if b {
        "Y"
    } else {
        "-"
    }
}

/// What is shown of a heap's capabilities.
pub open spec fn cap_values(c: HeapCaps) -> Seq<Seq<char>> {
    seq![
        c.name@,
        yes(c.can_alloc),
        yes(c.can_mmap),
        yes(c.can_sync),
        yes(c.can_write),
        yes(c.can_llseek),
        yes(c.can_sync_file),
        yes(c.can_dup),
        dec(c.alloc_granularity as nat),
    ]
}

pub open spec fn cap_row(widths: Seq<usize>, c: HeapCaps) -> Seq<char> {
    row_text(widths, cap_aligns(), cap_values(c)) + "\n"@
}

pub open spec fn cap_rows(widths: Seq<usize>, caps: Seq<HeapCaps>) -> Seq<char>
    decreases caps.len(),
{
    if caps.len() == 0 {
        Seq::empty()
    } else {
        cap_rows(widths, caps.drop_last()) + cap_row(widths, caps.last())
    }
}

pub open spec fn cap_header() -> Seq<Seq<char>> {
    seq![
        "HEAP"@,
        "ALLOC"@,
        "MMAP"@,
        "SYNC"@,
        "WRITE"@,
        "LLSEEK"@,
        "SYNC_FILE"@,
        "DUP"@,
        "GRANULARITY"@,
    ]
}

/// The section on what each heap can do.
pub open spec fn caps_text(caps: Seq<HeapCaps>) -> Seq<char> {
    "[Heap Capabilities]\n"@ + (if caps.len() == 0 {
        "  (no heaps probed)\n"@
    } else {
        row_text(cap_widths(caps), cap_aligns(), cap_header()) + "\n"@ + cap_rows(
            cap_widths(caps),
            caps,
        )
    }) + "\n"@
}

fn push_cap_rows(out: &mut String, caps: &Vec<HeapCaps>, widths: &[usize], aligns: &[Align])
    requires
        aligns@ == cap_aligns(),
    ensures
        final(out)@ == old(out)@ + cap_rows(widths@, caps@),
{
    let ghost start = out@;
    let mut i: usize = 0;
    assert(caps@.take(0) =~= Seq::empty());
    while i < caps.len()
        invariant
            i <= caps@.len(),
            aligns@ == cap_aligns(),
            out@ == start + cap_rows(widths@, caps@.take(i as int)),
        decreases caps@.len() - i,
    {
        assert(caps@.take(i + 1).drop_last() =~= caps@.take(i as int));
        assert(caps@.take(i + 1).last() == caps@[i as int]);
        let c: &HeapCaps = &caps[i];
        let granularity = dec_string(c.alloc_granularity);
        let values: [&str; 9] = [
            c.name.as_str(),
            yes_or_dash(c.can_alloc),
            yes_or_dash(c.can_mmap),
            yes_or_dash(c.can_sync),
            yes_or_dash(c.can_write),
            yes_or_dash(c.can_llseek),
            yes_or_dash(c.can_sync_file),
            yes_or_dash(c.can_dup),
            granularity.as_str(),
        ];
        assert(strs(values@) =~= cap_values(*c));
        push_row(out, widths, aligns, &values);
        i = i + 1;
    }
    assert(caps@.take(caps@.len() as int) =~= caps@);
}

/// Appends the section on what each heap can do.
pub fn push_caps(out: &mut String, caps: &Vec<HeapCaps>)
    ensures
        final(out)@ == old(out)@ + caps_text(caps@),
{
    out.append("[Heap Capabilities]\n");
    if caps.len() == 0 {
        out.append("  (no heaps probed)\n");
    } else {
        let mut names: Vec<&str> = Vec::new();
        let mut i: usize = 0;
        while i < caps.len()
            invariant
                i <= caps@.len(),
                strs(names@) == cap_names(caps@).take(i as int),
            decreases caps@.len() - i,
        {
            let ghost before = names@;
            names.push(caps[i].name.as_str());
            assert(strs(names@) =~= strs(before).push(caps@[i as int].name@));
            assert(cap_names(caps@).take(i + 1) =~= cap_names(caps@).take(i as int).push(
                caps@[i as int].name@,
            ));
            i = i + 1;
        }
        assert(cap_names(caps@).take(caps@.len() as int) =~= cap_names(caps@));
        let widths: [usize; 9] = [widest_of(&names, 4), 5, 4, 4, 5, 6, 9, 3, 11];
        let aligns: [Align; 9] = [
            Align::Left,
            Align::Left,
            Align::Left,
            Align::Left,
            Align::Left,
            Align::Left,
            Align::Left,
            Align::Left,
            Align::Left,
        ];
        let header: [&str; 9] = [
            "HEAP",
            "ALLOC",
            "MMAP",
            "SYNC",
            "WRITE",
            "LLSEEK",
            "SYNC_FILE",
            "DUP",
            "GRANULARITY",
        ];
        assert(widths@ =~= cap_widths(caps@));
        assert(aligns@ =~= cap_aligns());
        assert(strs(header@) =~= cap_header());
        push_row(out, &widths, &aligns, &header);
        push_cap_rows(out, caps, &widths, &aligns);
    }
    out.append("\n");
}

/// The section on the heaps' page pool.
pub open spec fn pool_text(pool_kb: u64) -> Seq<char> {
    "[DMA Heap Page Pool]\n"@ + "  /sys/kernel/dma_heap/total_pools_kb\n\n"@ + "  Pool size: "@
        + size_text(pool_kb as nat * 1024) + "\n"@ + "\n"@
}

/// Appends the section on the heaps' page pool.
pub fn push_pool(out: &mut String, pool_kb: u64)
    requires
        pool_kb <= MAX_KB,
    ensures
        final(out)@ == old(out)@ + pool_text(pool_kb),
{
    out.append("[DMA Heap Page Pool]\n");
    out.append("  /sys/kernel/dma_heap/total_pools_kb\n\n");
    out.append("  Pool size: ");
    out.append(format_size_kb(pool_kb).as_str());
    out.append("\n");
    out.append("\n");
}

pub open spec fn exporter_names(s: Seq<BufferSummary>) -> Seq<Seq<char>> {
    Seq::new(s.len(), |i: int| s[i].exporter_name@)
}

pub open spec fn buffer_widths(s: Seq<BufferSummary>) -> Seq<usize> {
    seq![widest(exporter_names(s), 8), 8, 14, 12, 8]
}

pub open spec fn buffer_aligns() -> Seq<Align> {
    seq![Align::Left, Align::Right, Align::Right, Align::Right, Align::Right]
}

/// The mean size; of no buffers it is zero.
pub open spec fn average_text(size: nat, count: nat) -> Seq<char> {
    if count > 0 {
        size_text(size / count)
    } else {
        "0 B"@
    }
}

fn average(size: u64, count: usize) -> (s: String)
    ensures
        s@ == average_text(size as nat, count as nat),
{
    if count > 0 {
        format_size(size / count as u64)
    } else {
        "0 B".to_owned()
    }
}

/// What is shown of an exporter: its name, its buffers' count, total and mean
/// size, and their references.
pub open spec fn buffer_values(s: BufferSummary) -> Seq<Seq<char>> {
    seq![
        s.exporter_name@,
        dec(s.count as nat),
        size_text(s.total_size_bytes as nat),
        average_text(s.total_size_bytes as nat, s.count as nat),
        dec_int(s.total_refcount as int),
    ]
}

pub open spec fn buffer_rows(widths: Seq<usize>, s: Seq<BufferSummary>) -> Seq<char>
    decreases s.len(),
{
    if s.len() == 0 {
        Seq::empty()
    } else {
        buffer_rows(widths, s.drop_last()) + (row_text(
            widths,
            buffer_aligns(),
            buffer_values(s.last()),
        ) + "\n"@)
    }
}

/// The references of all exporters.
pub open spec fn total_refs(s: Seq<BufferSummary>) -> int
    decreases s.len(),
{
    if s.len() == 0 {
        0
    } else {
        total_refs(s.drop_last()) + s.last().total_refcount as int
    }
}

/// Every running sum of references fits its machine integer.
pub open spec fn refs_fit(s: Seq<BufferSummary>) -> bool {
    forall|n: int| 0 <= n <= s.len() ==> i64::MIN <= #[trigger] total_refs(s.take(n)) <= i64::MAX
}

/// What the last line of the table shows.
pub open spec fn buffer_total_values(s: Seq<BufferSummary>, count: usize, size: u64) -> Seq<
    Seq<char>,
> {
    seq![
        "TOTAL"@,
        dec(count as nat),
        size_text(size as nat),
        average_text(size as nat, count as nat),
        dec_int(total_refs(s)),
    ]
}

pub open spec fn buffer_header() -> Seq<Seq<char>> {
    seq!["EXPORTER"@, "COUNT"@, "TOTAL SIZE"@, "AVG SIZE"@, "REFS"@]
}

/// The table of buffers: a line for each exporter and one for all.
pub open spec fn buffer_table(s: Seq<BufferSummary>, count: usize, size: u64) -> Seq<char> {
    row_text(buffer_widths(s), buffer_aligns(), buffer_header()) + "\n"@ + buffer_rows(
        buffer_widths(s),
        s,
    ) + separator_text(buffer_widths(s)) + "\n"@ + (row_text(
        buffer_widths(s),
        buffer_aligns(),
        buffer_total_values(s, count, size),
    ) + "\n"@)
}

/// The section on buffers, by exporter.
pub open spec fn buffers_text(s: Seq<BufferSummary>, count: usize, size: u64) -> Seq<char> {
    "[DMA Buffers]\n"@ + (if s.len() == 0 && count == 0 {
        "  (not available - /sys/kernel/debug/dma_buf/bufinfo not accessible)\n"@
            + "  (hint: run with root privileges, or enable CONFIG_DEBUG_FS)\n\n"@
            + "  fallback: /sys/kernel/dmabuf/buffers/\n"@
            + "  (not available - CONFIG_DMABUF_SYSFS_STATS not enabled)\n"@
    } else {
        buffer_table(s, count, size)
    }) + "\n"@
}

fn push_buffer_rows(out: &mut String, s: &Vec<BufferSummary>, widths: &[usize], aligns: &[Align])
    requires
        aligns@ == buffer_aligns(),
    ensures
        final(out)@ == old(out)@ + buffer_rows(widths@, s@),
{
    let ghost start = out@;
    let mut i: usize = 0;
    assert(s@.take(0) =~= Seq::empty());
    while i < s.len()
        invariant
            i <= s@.len(),
            aligns@ == buffer_aligns(),
            out@ == start + buffer_rows(widths@, s@.take(i as int)),
        decreases s@.len() - i,
    {
        assert(s@.take(i + 1).drop_last() =~= s@.take(i as int));
        assert(s@.take(i + 1).last() == s@[i as int]);
        let b: &BufferSummary = &s[i];
        let count = dec_string(b.count as u64);
        let size = format_size(b.total_size_bytes);
        let mean = average(b.total_size_bytes, b.count);
        let mut refs = String::new();
        push_dec_int(&mut refs, b.total_refcount);
        let values: [&str; 5] = [
            b.exporter_name.as_str(),
            count.as_str(),
            size.as_str(),
            mean.as_str(),
            refs.as_str(),
        ];
        assert(strs(values@) =~= buffer_values(*b));
        push_row(out, widths, aligns, &values);
        i = i + 1;
    }
    assert(s@.take(s@.len() as int) =~= s@);
}

fn sum_refs(s: &Vec<BufferSummary>) -> (r: i64)
    requires
        refs_fit(s@),
    ensures
        r == total_refs(s@),
{
    let mut r: i64 = 0;
    let mut i: usize = 0;
    assert(s@.take(0) =~= Seq::empty());
    while i < s.len()
        invariant
            i <= s@.len(),
            refs_fit(s@),
            r == total_refs(s@.take(i as int)),
        decreases s@.len() - i,
    {
        assert(s@.take(i + 1).drop_last() =~= s@.take(i as int));
        assert(s@.take(i + 1).last() == s@[i as int]);
        assert(i64::MIN <= total_refs(s@.take(i + 1)) <= i64::MAX);
        r = r + s[i].total_refcount;
        i = i + 1;
    }
    assert(s@.take(s@.len() as int) =~= s@);
    r
}

fn exporter_width(s: &Vec<BufferSummary>) -> (w: usize)
    ensures
        w == widest(exporter_names(s@), 8),
{
    let mut names: Vec<&str> = Vec::new();
    let mut i: usize = 0;
    while i < s.len()
        invariant
            i <= s@.len(),
            strs(names@) == exporter_names(s@).take(i as int),
        decreases s@.len() - i,
    {
        let ghost before = names@;
        names.push(s[i].exporter_name.as_str());
        assert(strs(names@) =~= strs(before).push(s@[i as int].exporter_name@));
        assert(exporter_names(s@).take(i + 1) =~= exporter_names(s@).take(i as int).push(
            s@[i as int].exporter_name@,
        ));
        i = i + 1;
    }
    assert(exporter_names(s@).take(s@.len() as int) =~= exporter_names(s@));
    widest_of(&names, 8)
}

fn push_buffer_total(
    out: &mut String,
    s: &Vec<BufferSummary>,
    count: usize,
    size: u64,
    widths: &[usize],
    aligns: &[Align],
)
    requires
        refs_fit(s@),
    ensures
        final(out)@ == old(out)@ + (row_text(
            widths@,
            aligns@,
            buffer_total_values(s@, count, size),
        ) + "\n"@),
{
    let total = dec_string(count as u64);
    let bytes = format_size(size);
    let mean = average(size, count);
    let mut refs = String::new();
    push_dec_int(&mut refs, sum_refs(s));
    let values: [&str; 5] = [
        "TOTAL",
        total.as_str(),
        bytes.as_str(),
        mean.as_str(),
        refs.as_str(),
    ];
    assert(strs(values@) =~= buffer_total_values(s@, count, size));
    push_row(out, widths, aligns, &values);
}

fn push_buffer_table(out: &mut String, s: &Vec<BufferSummary>, count: usize, size: u64)
    requires
        refs_fit(s@),
        widest(exporter_names(s@), 8) <= usize::MAX - 50,
    ensures
        final(out)@ == old(out)@ + buffer_table(s@, count, size),
{
    let widths: [usize; 5] = [exporter_width(s), 8, 14, 12, 8];
    let aligns: [Align; 5] = [
        Align::Left,
        Align::Right,
        Align::Right,
        Align::Right,
        Align::Right,
    ];
    let header: [&str; 5] = ["EXPORTER", "COUNT", "TOTAL SIZE", "AVG SIZE", "REFS"];
    assert(widths@ =~= buffer_widths(s@));
    assert(aligns@ =~= buffer_aligns());
    assert(strs(header@) =~= buffer_header());
    push_row(out, &widths, &aligns, &header);
    push_buffer_rows(out, s, &widths, &aligns);
    proof {
        lemma_sum_5(widths@);
    }
    let line = separator(&widths);
    out.append(line.as_str());
    out.append("\n");
    push_buffer_total(out, s, count, size, &widths, &aligns);
}

/// Appends the section on buffers.
pub fn push_buffers(out: &mut String, s: &Vec<BufferSummary>, count: usize, size: u64)
    requires
        refs_fit(s@),
        widest(exporter_names(s@), 8) <= usize::MAX - 50,
    ensures
        final(out)@ == old(out)@ + buffers_text(s@, count, size),
{
    out.append("[DMA Buffers]\n");
    if s.len() == 0 && count == 0 {
        out.append("  (not available - /sys/kernel/debug/dma_buf/bufinfo not accessible)\n");
        out.append("  (hint: run with root privileges, or enable CONFIG_DEBUG_FS)\n\n");
        out.append("  fallback: /sys/kernel/dmabuf/buffers/\n");
        out.append("  (not available - CONFIG_DMABUF_SYSFS_STATS not enabled)\n");
    } else {
        push_buffer_table(out, s, count, size);
    }
    out.append("\n");
}

proof fn lemma_sum_5(w: Seq<usize>)
    requires
        w.len() == 5,
    ensures
        width_sum(w) == w[0] + w[1] + w[2] + w[3] + w[4],
{
    reveal_with_fuel(width_sum, 6);
}

pub open spec fn detail_widths() -> Seq<usize> {
    seq![8, 12, 6, 10, 20, 30]
}

pub open spec fn detail_aligns() -> Seq<Align> {
    seq![Align::Right, Align::Right, Align::Right, Align::Left, Align::Left, Align::Left]
}

pub open spec fn detail_header() -> Seq<Seq<char>> {
    seq!["INO"@, "SIZE"@, "REFS"@, "FLAGS"@, "NAME"@, "DEVICES"@]
}

/// The devices of a buffer: at most three of them, and how many more there are.
pub open spec fn devices_text(devices: Seq<Seq<char>>) -> Seq<char> {
    if devices.len() > 3 {
        join(devices.take(3), ", "@) + " (+"@ + dec((devices.len() - 3) as nat) + " more)"@
    } else {
        join(devices, ", "@)
    }
}

fn devices_string(devices: &Vec<String>) -> (s: String)
    ensures
        s@ == devices_text(strings(devices@)),
{
    let mut s = String::new();
    if devices.len() > 3 {
        push_join(&mut s, devices, 3, ", ");
        s.append(" (+");
        push_dec(&mut s, (devices.len() - 3) as u64);
        s.append(" more)");
    } else {
        assert(strings(devices@).take(devices@.len() as int) =~= strings(devices@));
        push_join(&mut s, devices, devices.len(), ", ");
    }
    s
}

/// What is shown of a buffer.
pub open spec fn detail_values(b: DebugfsBufEntry) -> Seq<Seq<char>> {
    seq![
        dec(b.ino as nat),
        size_text(b.size as nat),
        dec_int(b.count as int),
        hex8(b.flags as nat),
        b.name@,
        devices_text(strings(b.attached_devices@)),
    ]
}

pub open spec fn detail_rows(b: Seq<DebugfsBufEntry>) -> Seq<char>
    decreases b.len(),
{
    if b.len() == 0 {
        Seq::empty()
    } else {
        detail_rows(b.drop_last()) + (row_text(
            detail_widths(),
            detail_aligns(),
            detail_values(b.last()),
        ) + "\n"@)
    }
}

/// The section on single buffers.
pub open spec fn details_text(b: Seq<DebugfsBufEntry>) -> Seq<char> {
    "[Buffer Details]\n"@ + "  source: /sys/kernel/debug/dma_buf/bufinfo\n\n"@ + (if b.len()
        == 0 {
        "  (no buffers)\n"@
    } else {
        row_text(detail_widths(), detail_aligns(), detail_header()) + "\n"@ + detail_rows(b)
            + separator_text(detail_widths()) + "\n"@ + "  "@ + dec(b.len()) + " buffers, "@
            + size_text(total_size(debugfs_usage(b))) + " total\n"@
    }) + "\n"@
}

fn push_detail_rows(out: &mut String, b: &Vec<DebugfsBufEntry>, widths: &[usize], aligns: &[Align])
    requires
        widths@ == detail_widths(),
        aligns@ == detail_aligns(),
    ensures
        final(out)@ == old(out)@ + detail_rows(b@),
{
    let ghost start = out@;
    let mut i: usize = 0;
    assert(b@.take(0) =~= Seq::empty());
    while i < b.len()
        invariant
            i <= b@.len(),
            widths@ == detail_widths(),
            aligns@ == detail_aligns(),
            out@ == start + detail_rows(b@.take(i as int)),
        decreases b@.len() - i,
    {
        assert(b@.take(i + 1).drop_last() =~= b@.take(i as int));
        assert(b@.take(i + 1).last() == b@[i as int]);
        let e: &DebugfsBufEntry = &b[i];
        let ino = dec_string(e.ino);
        let size = format_size(e.size);
        let mut refs = String::new();
        push_dec_int(&mut refs, e.count);
        let flags = hex8_string(e.flags);
        let devices = devices_string(&e.attached_devices);
        let values: [&str; 6] = [
            ino.as_str(),
            size.as_str(),
            refs.as_str(),
            flags.as_str(),
            e.name.as_str(),
            devices.as_str(),
        ];
        assert(strs(values@) =~= detail_values(*e));
        push_row(out, widths, aligns, &values);
        i = i + 1;
    }
    assert(b@.take(b@.len() as int) =~= b@);
}

/// Appends the section on single buffers.
pub fn push_details(out: &mut String, b: &Vec<DebugfsBufEntry>)
    requires
        total_size(debugfs_usage(b@)) <= u64::MAX,
    ensures
        final(out)@ == old(out)@ + details_text(b@),
{
    out.append("[Buffer Details]\n");
    out.append("  source: /sys/kernel/debug/dma_buf/bufinfo\n\n");
    if b.len() == 0 {
        out.append("  (no buffers)\n");
    } else {
        let widths: [usize; 6] = [8, 12, 6, 10, 20, 30];
        let aligns: [Align; 6] = [
            Align::Right,
            Align::Right,
            Align::Right,
            Align::Left,
            Align::Left,
            Align::Left,
        ];
        let header: [&str; 6] = ["INO", "SIZE", "REFS", "FLAGS", "NAME", "DEVICES"];
        assert(widths@ =~= detail_widths());
        assert(aligns@ =~= detail_aligns());
        assert(strs(header@) =~= detail_header());
        push_row(out, &widths, &aligns, &header);
        push_detail_rows(out, b, &widths, &aligns);
        proof {
            reveal_with_fuel(width_sum, 7);
        }
        let line = separator(&widths);
        out.append(line.as_str());
        out.append("\n");
        out.append("  ");
        push_dec(out, b.len() as u64);
        out.append(" buffers, ");
        out.append(format_size(debugfs_total_size(b.as_slice())).as_str());
        out.append(" total\n");
    }
    out.append("\n");
}

pub open spec fn process_widths() -> Seq<usize> {
    seq![8, 20, 6, 14]
}

pub open spec fn process_aligns() -> Seq<Align> {
    seq![Align::Right, Align::Left, Align::Right, Align::Right]
}

pub open spec fn process_header() -> Seq<Seq<char>> {
    seq!["PID"@, "PROCESS"@, "FDS"@, "TOTAL SIZE"@]
}

/// What is shown of a process.
pub open spec fn process_values(t: ProcessTotals) -> Seq<Seq<char>> {
    seq![dec(t.pid), t.comm, dec(t.fds), size_text(t.size)]
}

pub open spec fn process_rows(t: Seq<ProcessTotals>) -> Seq<char>
    decreases t.len(),
{
    if t.len() == 0 {
        Seq::empty()
    } else {
        process_rows(t.drop_last()) + (row_text(
            process_widths(),
            process_aligns(),
            process_values(t.last()),
        ) + "\n"@)
    }
}

/// The section on processes.
pub open spec fn processes_text(entries: Seq<ProcessBufEntry>) -> Seq<char> {
    let h = holdings(entries);
    let t = process_totals(h);
    "[Per-Process Usage]\n"@ + "  source: /proc/*/fdinfo/*\n\n"@ + (if entries.len() == 0 {
        "  (not available - requires root to read /proc/*/fdinfo/*)\n"@
    } else {
        row_text(process_widths(), process_aligns(), process_header()) + "\n"@ + process_rows(t)
            + separator_text(process_widths()) + "\n"@ + "  "@ + dec(t.len()) + " processes, "@
            + dec(h.len()) + " FDs, "@ + size_text(holding_size(h)) + " total\n"@
    }) + "\n"@
}

fn push_process_rows(out: &mut String, s: &Vec<ProcessSummary>, widths: &[usize], aligns: &[Align])
    requires
        widths@ == process_widths(),
        aligns@ == process_aligns(),
    ensures
        final(out)@ == old(out)@ + process_rows(process_summaries(s@)),
{
    let ghost start = out@;
    let ghost t = process_summaries(s@);
    let mut i: usize = 0;
    assert(t.take(0) =~= Seq::empty());
    while i < s.len()
        invariant
            i <= s@.len(),
            t == process_summaries(s@),
            widths@ == process_widths(),
            aligns@ == process_aligns(),
            out@ == start + process_rows(t.take(i as int)),
        decreases s@.len() - i,
    {
        assert(t.take(i + 1).drop_last() =~= t.take(i as int));
        assert(t.take(i + 1).last() == s@[i as int]@);
        let p: &ProcessSummary = &s[i];
        let pid = dec_string(p.pid as u64);
        let fds = dec_string(p.fd_count as u64);
        let size = format_size(p.total_size_bytes);
        let values: [&str; 4] = [pid.as_str(), p.comm.as_str(), fds.as_str(), size.as_str()];
        assert(strs(values@) =~= process_values(p@));
        push_row(out, widths, aligns, &values);
        i = i + 1;
    }
    assert(t.take(t.len() as int) =~= t);
}

/// The size of all held buffers.
fn total_held(entries: &Vec<ProcessBufEntry>) -> (r: u64)
    requires
        holding_size(holdings(entries@)) <= u64::MAX,
    ensures
        r == holding_size(holdings(entries@)),
{
    let ghost h = holdings(entries@);
    let mut r: u64 = 0;
    let mut i: usize = 0;
    assert(h.take(0) =~= Seq::empty());
    while i < entries.len()
        invariant
            i <= entries@.len(),
            h == holdings(entries@),
            holding_size(h) <= u64::MAX,
            r == holding_size(h.take(i as int)),
        decreases entries@.len() - i,
    {
        proof {
            lemma_holding_grows(h, i + 1);
            assert(h.take(i + 1).drop_last() =~= h.take(i as int));
            assert(h.take(i + 1).last() == h[i as int]);
        }
        r = r + entries[i].size;
        i = i + 1;
    }
    assert(h.take(h.len() as int) =~= h);
    r
}

/// Appends the section on processes. The last line's totals are those of all
/// entries, which by `law_process_totals_add_up` are the sums of the table.
pub fn push_processes(out: &mut String, entries: &Vec<ProcessBufEntry>)
    requires
        holding_size(holdings(entries@)) <= u64::MAX,
    ensures
        final(out)@ == old(out)@ + processes_text(entries@),
{
    out.append("[Per-Process Usage]\n");
    out.append("  source: /proc/*/fdinfo/*\n\n");
    if entries.len() == 0 {
        out.append("  (not available - requires root to read /proc/*/fdinfo/*)\n");
    } else {
        proof {
            lemma_process_totals_fit(holdings(entries@));
        }
        let summaries = aggregate_process_usage(entries.as_slice());
        let widths: [usize; 4] = [8, 20, 6, 14];
        let aligns: [Align; 4] = [Align::Right, Align::Left, Align::Right, Align::Right];
        let header: [&str; 4] = ["PID", "PROCESS", "FDS", "TOTAL SIZE"];
        assert(widths@ =~= process_widths());
        assert(aligns@ =~= process_aligns());
        assert(strs(header@) =~= process_header());
        push_row(out, &widths, &aligns, &header);
        push_process_rows(out, &summaries, &widths, &aligns);
        proof {
            reveal_with_fuel(width_sum, 5);
        }
        let line = separator(&widths);
        out.append(line.as_str());
        out.append("\n");
        out.append("  ");
        push_dec(out, summaries.len() as u64);
        out.append(" processes, ");
        push_dec(out, entries.len() as u64);
        out.append(" FDs, ");
        out.append(format_size(total_held(entries)).as_str());
        out.append(" total\n");
    }
    out.append("\n");
}

/// The average of buffers times their number is what they are in all, but for a fraction of a
/// byte for each.
pub proof fn law_average_size(size: nat, count: nat) -> (average: nat)
    requires
        count > 0,
    ensures
        average_text(size, count) == size_text(average),
        average * count <= size < average * count + count,
{
    let q = size / count;
    assert(q * count <= size < q * count + count) by (nonlinear_arith)
        requires
            q == size / count,
            count > 0,
    ;
    q
}

/// In the table of buffers each figure stands below its name, and the last line tells the
/// totals.
pub proof fn law_buffer_figures_below_their_names(
    s: BufferSummary,
    all: Seq<BufferSummary>,
    count: usize,
    size: u64,
)
    ensures
        buffer_header()[0] == "EXPORTER"@ && buffer_values(s)[0] == s.exporter_name@,
        buffer_header()[1] == "COUNT"@ && buffer_values(s)[1] == dec(s.count as nat)
            && buffer_total_values(all, count, size)[1] == dec(count as nat),
        buffer_header()[2] == "TOTAL SIZE"@ && buffer_values(s)[2] == size_text(
            s.total_size_bytes as nat,
        ) && buffer_total_values(all, count, size)[2] == size_text(size as nat),
        buffer_header()[4] == "REFS"@ && buffer_values(s)[4] == dec_int(s.total_refcount as int)
            && buffer_total_values(all, count, size)[4] == dec_int(total_refs(all)),
{
}

/// The references in all are those of each, whatever the order.
pub proof fn law_references_add_up(a: Seq<BufferSummary>, b: Seq<BufferSummary>)
    ensures
        total_refs(a + b) == total_refs(a) + total_refs(b),
        a.len() == 1 ==> total_refs(a) == a[0].total_refcount,
    decreases b.len(),
{
    if b.len() > 0 {
        assert((a + b).drop_last() =~= a + b.drop_last());
        law_references_add_up(a, b.drop_last());
    } else {
        assert(a + b =~= a);
    }
    if a.len() == 1 {
        assert(a.drop_last() =~= Seq::empty());
        assert(total_refs(a.drop_last()) == 0);
    }
}

/// What a heap can do is told with a `Y` below its name, what it cannot do with a dash, and a
/// heap is called accessible just where it is.
pub proof fn law_capabilities_below_their_names(c: HeapCaps, h: HeapEntry)
    ensures
        cap_header()[1] == "ALLOC"@ && cap_values(c)[1] == if c.can_alloc {
            "Y"@
        } else {
            "-"@
        },
        cap_header()[2] == "MMAP"@ && cap_values(c)[2] == if c.can_mmap {
            "Y"@
        } else {
            "-"@
        },
        cap_header()[3] == "SYNC"@ && cap_values(c)[3] == if c.can_sync {
            "Y"@
        } else {
            "-"@
        },
        cap_header()[4] == "WRITE"@ && cap_values(c)[4] == if c.can_write {
            "Y"@
        } else {
            "-"@
        },
        cap_header()[5] == "LLSEEK"@ && cap_values(c)[5] == if c.can_llseek {
            "Y"@
        } else {
            "-"@
        },
        cap_header()[6] == "SYNC_FILE"@ && cap_values(c)[6] == if c.can_sync_file {
            "Y"@
        } else {
            "-"@
        },
        cap_header()[7] == "DUP"@ && cap_values(c)[7] == if c.can_dup {
            "Y"@
        } else {
            "-"@
        },
        h.accessible ==> heap_values(h)[2] == "accessible"@,
        !h.accessible ==> heap_values(h)[2] == "permission denied"@,
{
}

/// In the tables of processes and of single buffers each figure stands below its name.
pub proof fn law_process_figures_below_their_names(t: ProcessTotals, b: DebugfsBufEntry)
    ensures
        process_header()[0] == "PID"@ && process_values(t)[0] == dec(t.pid),
        process_header()[1] == "PROCESS"@ && process_values(t)[1] == t.comm,
        process_header()[2] == "FDS"@ && process_values(t)[2] == dec(t.fds),
        process_header()[3] == "TOTAL SIZE"@ && process_values(t)[3] == size_text(t.size),
        detail_header()[0] == "INO"@ && detail_values(b)[0] == dec(b.ino as nat),
        detail_header()[1] == "SIZE"@ && detail_values(b)[1] == size_text(b.size as nat),
        detail_header()[2] == "REFS"@ && detail_values(b)[2] == dec_int(b.count as int),
        detail_header()[4] == "NAME"@ && detail_values(b)[4] == b.name@,
{
}

} // verus!
