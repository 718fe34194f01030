//! The report on an aging run.
use crate::aging::result::{AgingResult, HeapResult, OpResult};
use crate::aging::state::{as_signed, signed, AgingState};
use crate::double::{scaled, tenths_text, thousandths_text};
use crate::info::format::{byte_len, format_row, format_size, row_text, size_text, Align};
use crate::info::types::strings;
use crate::number::{
    dec, dec_int, grouped, push_dec, push_dec_int, push_grouped, push_repeat, repeat,
};
use crate::order::strs;
use crate::stats::LatencyStats;
use crate::text::group_concat;
use vstd::prelude::*;

verus! {

/// A number with a comma before every third digit from the end.
pub fn fmt_num(n: u64) -> (s: String)
    ensures
        s@ == grouped(n as nat),
{
    broadcast use group_concat;
    let mut s = String::new();
    push_grouped(&mut s, n);
    s
}

/// A duration in minutes and seconds, the minutes only where there are any.
pub open spec fn elapsed_text(secs: nat) -> Seq<char> {
    if secs >= 60 {
        dec(secs / 60) + "m "@ + dec(secs % 60) + "s"@
    } else {
        dec(secs) + "s"@
    }
}

/// A duration in minutes and seconds.
pub fn fmt_elapsed(secs: u64) -> (s: String)
    ensures
        s@ == elapsed_text(secs as nat),
{
    broadcast use group_concat;
    let mut s = String::new();
    if secs >= 60 {
        push_dec(&mut s, secs / 60);
        s.append("m ");
        push_dec(&mut s, secs % 60);
        s.append("s");
    } else {
        push_dec(&mut s, secs);
        s.append("s");
    }
    s
}

/// A difference with its sign and unit, or a dash.
pub open spec fn delta_text(val: Option<i64>, unit: Seq<char>) -> Seq<char> {
    match val {
        Some(v) => (if v >= 0 {
            "+"@
        } else {
            ""@
        }) + dec_int(v as int) + " "@ + unit,
        None => "-"@,
    }
}

/// A difference with its sign and unit, or a dash.
pub fn fmt_delta(val: Option<i64>, unit: &str) -> (s: String)
    ensures
        s@ == delta_text(val, unit@),
{
    broadcast use group_concat;
    let mut s = String::new();
    match val {
        Some(v) => {
            if v >= 0 {
                s.append("+");
            } else {
                s.append("");
            }
            push_dec_int(&mut s, v);
            s.append(" ");
            s.append(unit);
        },
        None => s.append("-"),
    }
    s
}

/// The texts of rows.
pub open spec fn row_texts(rows: Seq<Vec<String>>) -> Seq<Seq<Seq<char>>> {
    Seq::new(rows.len(), |i: int| strings(rows[i]@))
}

/// The width of a column: the length of its longest text.
pub open spec fn column_width(
    headers: Seq<Seq<char>>,
    rows: Seq<Seq<Seq<char>>>,
    i: int,
) -> usize
    decreases rows.len(),
{
    if rows.len() == 0 {
        byte_len(headers[i])
    } else {
        let w = column_width(headers, rows.drop_last(), i);
        let row = rows.last();
        if i < row.len() && byte_len(row[i]) > w {
            byte_len(row[i])
        } else {
            w
        }
    }
}

/// The widths of all columns.
pub open spec fn column_widths(headers: Seq<Seq<char>>, rows: Seq<Seq<Seq<char>>>) -> Seq<usize> {
    Seq::new(headers.len(), |i: int| column_width(headers, rows, i))
}

/// As many columns on the right.
pub open spec fn rights(n: nat) -> Seq<Align> {
    Seq::new(n, |i: int| Align::Right)
}

/// A line of a table.
pub open spec fn table_line(widths: Seq<usize>, values: Seq<Seq<char>>) -> Seq<char> {
    "  "@ + row_text(widths, rights(values.len()), values) + "\n"@
}

/// The lines of a table's rows.
pub open spec fn table_lines(widths: Seq<usize>, rows: Seq<Seq<Seq<char>>>) -> Seq<char>
    decreases rows.len(),
{
    if rows.len() == 0 {
        Seq::empty()
    } else {
        table_lines(widths, rows.drop_last()) + table_line(widths, rows.last())
    }
}

/// A table: its header and its rows, every column on the right and as wide as its
/// longest text.
pub open spec fn aligned_table(headers: Seq<Seq<char>>, rows: Seq<Seq<Seq<char>>>) -> Seq<char> {
    let widths = column_widths(headers, rows);
    table_line(widths, headers) + table_lines(widths, rows)
}

fn push_table_line(out: &mut String, widths: &[usize], values: &[&str])
    ensures
        final(out)@ == old(out)@ + table_line(widths@, strs(values@)),
{
    broadcast use group_concat;
    let mut aligns: Vec<Align> = Vec::new();
    let mut i: usize = 0;
    while i < values.len()
        invariant
            i <= values@.len(),
            aligns@ == rights(i as nat),
        decreases values@.len() - i,
    {
        aligns.push(Align::Right);
        i = i + 1;
        assert(aligns@ =~= rights(i as nat));
    }
    let row = format_row(widths, aligns.as_slice(), values);
    out.append("  ");
    out.append(row.as_str());
    out.append("\n");
}

fn row_refs<'a>(row: &'a Vec<String>) -> (v: Vec<&'a str>)
    ensures
        strs(v@) == strings(row@),
{
    let mut v: Vec<&'a str> = Vec::new();
    let mut i: usize = 0;
    while i < row.len()
        invariant
            i <= row@.len(),
            v@.len() == i,
            forall|j: int| 0 <= j < i ==> (#[trigger] v@[j])@ == row@[j]@,
        decreases row@.len() - i,
    {
        v.push(row[i].as_str());
        i = i + 1;
    }
    assert(strs(v@) =~= strings(row@));
    v
}

fn width_of(headers: &[&str], rows: &[Vec<String>], i: usize) -> (w: usize)
    requires
        i < headers@.len(),
    ensures
        w == column_width(strs(headers@), row_texts(rows@), i as int),
{
    let ghost hs = strs(headers@);
    let ghost all = row_texts(rows@);
    let mut w: usize = headers[i].len();
    let mut k: usize = 0;
    assert(all.take(0) =~= Seq::empty());
    while k < rows.len()
        invariant
            k <= rows@.len(),
            all == row_texts(rows@),
            w == column_width(hs, all.take(k as int), i as int),
        decreases rows@.len() - k,
    {
        proof {
            assert(all.take(k + 1).drop_last() =~= all.take(k as int));
            assert(all.take(k + 1).last() == strings(rows@[k as int]@));
        }
        if i < rows[k].len() {
            let n: usize = rows[k][i].as_str().len();
            if n > w {
                w = n;
            }
        }
        k = k + 1;
    }
    assert(all.take(all.len() as int) =~= all);
    w
}

/// Appends a table whose columns are all on the right.
pub fn print_aligned_table(out: &mut String, headers: &[&str], rows: &[Vec<String>])
    ensures
        final(out)@ == old(out)@ + aligned_table(strs(headers@), row_texts(rows@)),
{
    broadcast use group_concat;
    let ghost start = out@;
    let ghost hs = strs(headers@);
    let ghost all = row_texts(rows@);
    let ghost ws = column_widths(hs, all);
    let mut widths: Vec<usize> = Vec::new();
    let mut i: usize = 0;
    while i < headers.len()
        invariant
            i <= headers@.len(),
            hs == strs(headers@),
            all == row_texts(rows@),
            ws == column_widths(hs, all),
            widths@ == ws.take(i as int),
        decreases headers@.len() - i,
    {
        let w: usize = width_of(headers, rows, i);
        widths.push(w);
        proof {
            assert(widths@ =~= ws.take(i + 1));
        }
        i = i + 1;
    }
    assert(ws.take(ws.len() as int) =~= ws);
    push_table_line(out, widths.as_slice(), headers);
    let ghost head = out@;
    let mut k: usize = 0;
    assert(all.take(0) =~= Seq::empty());
    while k < rows.len()
        invariant
            k <= rows@.len(),
            all == row_texts(rows@),
            widths@ == ws,
            out@ == head + table_lines(ws, all.take(k as int)),
        decreases rows@.len() - k,
    {
        proof {
            assert(all.take(k + 1).drop_last() =~= all.take(k as int));
            assert(all.take(k + 1).last() == strings(rows@[k as int]@));
        }
        let refs = row_refs(&rows[k]);
        push_table_line(out, widths.as_slice(), refs.as_slice());
        k = k + 1;
    }
    assert(all.take(all.len() as int) =~= all);
}

/// The time per 4096 bytes of an operation, or a dash where it never ran.
pub open spec fn per_4k_text(op: OpResult) -> Seq<char> {
    if op.count == 0 {
        "-"@
    } else {
        thousandths_text(scaled(op.per_4k_us@, 1000)) + " us"@
    }
}

/// The time per 4096 bytes of an operation, or a dash where it never ran.
pub fn fmt_op_per_4k(op: &OpResult) -> (s: String)
    requires
        op.per_4k_us.wf(),
    ensures
        s@ == per_4k_text(*op),
{
    broadcast use group_concat;
    let mut s = String::new();
    if op.count == 0 {
        s.append("-");
    } else {
        op.per_4k_us.push_three_decimals(&mut s);
        s.append(" us");
    }
    s
}

/// A time, or a dash where nothing was timed.
pub open spec fn us_text(val: nat, count: nat) -> Seq<char> {
    if count == 0 {
        "-"@
    } else {
        dec(val) + " us"@
    }
}

/// A time, or a dash where nothing was timed.
pub fn fmt_op_us(val: u64, count: u64) -> (s: String)
    ensures
        s@ == us_text(val as nat, count as nat),
{
    broadcast use group_concat;
    let mut s = String::new();
    if count == 0 {
        s.append("-");
    } else {
        push_dec(&mut s, val);
        s.append(" us");
    }
    s
}

/// Whether the figures of a heap can be shown.
pub open spec fn heap_shown(h: HeapResult) -> bool {
    &&& h.alloc_lat.per_4k_us.wf()
    &&& h.mmap_lat.per_4k_us.wf()
    &&& h.sync_lat.per_4k_us.wf()
    &&& h.free_lat.per_4k_us.wf()
}

/// The header of the table of heaps.
pub open spec fn heap_headers() -> Seq<Seq<char>> {
    seq![
        "heap"@,
        "alloc"@,
        "free"@,
        "ENOMEM"@,
        "EMFILE"@,
        "alloc/4K"@,
        "mmap/4K"@,
        "sync/4K"@,
        "free/4K"@,
    ]
}

/// The row of a heap.
pub open spec fn heap_row(h: HeapResult) -> Seq<Seq<char>> {
    seq![
        h.name@,
        grouped(h.allocs as nat),
        grouped(h.frees as nat),
        grouped(h.enomem as nat),
        grouped(h.emfile as nat),
        per_4k_text(h.alloc_lat),
        per_4k_text(h.mmap_lat),
        per_4k_text(h.sync_lat),
        per_4k_text(h.free_lat),
    ]
}

/// The rows of all heaps.
pub open spec fn heap_rows(heaps: Seq<HeapResult>) -> Seq<Seq<Seq<char>>> {
    Seq::new(heaps.len(), |i: int| heap_row(heaps[i]))
}

/// The table of heaps; nothing where there are none.
pub open spec fn heap_table_text(heaps: Seq<HeapResult>) -> Seq<char> {
    if heaps.len() == 0 {
        Seq::empty()
    } else {
        "  Per-heap (lat normalized per 4K)\n"@ + aligned_table(heap_headers(), heap_rows(heaps))
            + "\n"@
    }
}

fn copied(s: &str) -> (r: String)
    ensures
        r@ == s@,
{
    broadcast use group_concat;
    let mut r = String::new();
    r.append(s);
    r
}

fn heap_cells(h: &HeapResult) -> (v: Vec<String>)
    requires
        heap_shown(*h),
    ensures
        strings(v@) == heap_row(*h),
{
    let mut v: Vec<String> = Vec::new();
    v.push(copied(h.name.as_str()));
    v.push(fmt_num(h.allocs));
    v.push(fmt_num(h.frees));
    v.push(fmt_num(h.enomem));
    v.push(fmt_num(h.emfile));
    v.push(fmt_op_per_4k(&h.alloc_lat));
    v.push(fmt_op_per_4k(&h.mmap_lat));
    v.push(fmt_op_per_4k(&h.sync_lat));
    v.push(fmt_op_per_4k(&h.free_lat));
    assert(strings(v@) =~= heap_row(*h));
    v
}

/// Appends the table of heaps.
pub fn print_per_heap_table(out: &mut String, heaps: &[HeapResult])
    requires
        forall|i: int| 0 <= i < heaps@.len() ==> heap_shown(#[trigger] heaps@[i]),
    ensures
        final(out)@ == old(out)@ + heap_table_text(heaps@),
{
    broadcast use group_concat;
    if heaps.len() == 0 {
        return ;
    }
    let mut rows: Vec<Vec<String>> = Vec::new();
    let mut i: usize = 0;
    while i < heaps.len()
        invariant
            i <= heaps@.len(),
            rows@.len() == i,
            forall|j: int| 0 <= j < heaps@.len() ==> heap_shown(#[trigger] heaps@[j]),
            forall|j: int| 0 <= j < i ==> strings((#[trigger] rows@[j])@) == heap_row(heaps@[j]),
        decreases heaps@.len() - i,
    {
        let row = heap_cells(&heaps[i]);
        rows.push(row);
        i = i + 1;
    }
    assert(row_texts(rows@) =~= heap_rows(heaps@));
    let headers: [&str; 9] = [
        "heap",
        "alloc",
        "free",
        "ENOMEM",
        "EMFILE",
        "alloc/4K",
        "mmap/4K",
        "sync/4K",
        "free/4K",
    ];
    assert(strs(headers@) =~= heap_headers());
    out.append("  Per-heap (lat normalized per 4K)\n");
    print_aligned_table(out, &headers, rows.as_slice());
    out.append("\n");
}

/// The row of an operation.
pub open spec fn op_row(name: Seq<char>, op: OpResult) -> Seq<Seq<char>> {
    let n = op.count as nat;
    seq![
        name,
        us_text(op.avg_us as nat, n),
        us_text(op.p50_us as nat, n),
        us_text(op.p99_us as nat, n),
        us_text(op.max_us as nat, n),
    ]
}

/// The rows of a heap's operations.
pub open spec fn op_rows(h: HeapResult) -> Seq<Seq<Seq<char>>> {
    seq![
        op_row("alloc"@, h.alloc_lat),
        op_row("mmap"@, h.mmap_lat),
        op_row("sync"@, h.sync_lat),
        op_row("free"@, h.free_lat),
    ]
}

/// The table of a heap's operations.
pub open spec fn op_table_text(h: HeapResult) -> Seq<char> {
    "  Latency per-op: "@ + h.name@ + "\n"@ + aligned_table(
        seq![""@, "avg"@, "p50"@, "p99"@, "max"@],
        op_rows(h),
    ) + "\n"@
}

/// The tables of all heaps' operations.
pub open spec fn op_tables_text(heaps: Seq<HeapResult>) -> Seq<char>
    decreases heaps.len(),
{
    if heaps.len() == 0 {
        Seq::empty()
    } else {
        op_tables_text(heaps.drop_last()) + op_table_text(heaps.last())
    }
}

fn op_cells(name: &str, op: &OpResult) -> (v: Vec<String>)
    ensures
        strings(v@) == op_row(name@, *op),
{
    let mut v: Vec<String> = Vec::new();
    v.push(copied(name));
    v.push(fmt_op_us(op.avg_us, op.count));
    v.push(fmt_op_us(op.p50_us, op.count));
    v.push(fmt_op_us(op.p99_us, op.count));
    v.push(fmt_op_us(op.max_us, op.count));
    assert(strings(v@) =~= op_row(name@, *op));
    v
}

fn push_op_table(out: &mut String, h: &HeapResult)
    ensures
        final(out)@ == old(out)@ + op_table_text(*h),
{
    broadcast use group_concat;
    let mut rows: Vec<Vec<String>> = Vec::new();
    rows.push(op_cells("alloc", &h.alloc_lat));
    rows.push(op_cells("mmap", &h.mmap_lat));
    rows.push(op_cells("sync", &h.sync_lat));
    rows.push(op_cells("free", &h.free_lat));
    assert(row_texts(rows@) =~= op_rows(*h));
    let headers: [&str; 5] = ["", "avg", "p50", "p99", "max"];
    assert(strs(headers@) =~= seq![""@, "avg"@, "p50"@, "p99"@, "max"@]);
    out.append("  Latency per-op: ");
    out.append(h.name.as_str());
    out.append("\n");
    print_aligned_table(out, &headers, rows.as_slice());
    out.append("\n");
}

/// Appends the tables of all heaps' operations.
pub fn print_per_op_latency(out: &mut String, heaps: &[HeapResult])
    ensures
        final(out)@ == old(out)@ + op_tables_text(heaps@),
{
    let ghost start = out@;
    let mut i: usize = 0;
    assert(heaps@.take(0) =~= Seq::empty());
    assert(start + Seq::<char>::empty() =~= start);
    while i < heaps.len()
        invariant
            i <= heaps@.len(),
            out@ == start + op_tables_text(heaps@.take(i as int)),
        decreases heaps@.len() - i,
    {
        proof {
            assert(heaps@.take(i + 1).drop_last() =~= heaps@.take(i as int));
            assert(heaps@.take(i + 1).last() == heaps@[i as int]);
        }
        let ghost shown = op_tables_text(heaps@.take(i as int));
        let ghost table = op_table_text(heaps@[i as int]);
        push_op_table(out, &heaps[i]);
        assert((start + shown) + table =~= start + (shown + table));
        i = i + 1;
    }
    assert(heaps@.take(heaps@.len() as int) =~= heaps@);
}

/// How many stalls memory compaction caused, as a signed number.
pub open spec fn stalls(r: AgingResult) -> Option<i64> {
    match r.compaction_stall_delta {
        Some(n) => Some(signed(n) as i64),
        None => None,
    }
}

/// The memory section; nothing where no figure is there.
pub open spec fn memory_text(r: AgingResult) -> Seq<char> {
    if r.mem_available_delta_mb is None && r.cma_free_delta_kb is None && r.slab_delta_kb is None
        && r.compaction_stall_delta is None {
        Seq::empty()
    } else {
        "  Memory (start -> end delta)\n"@ + "    available : "@ + delta_text(
            r.mem_available_delta_mb,
            "MB"@,
        ) + "\n"@ + "    CMA free  : "@ + delta_text(r.cma_free_delta_kb, "KB"@) + "\n"@
            + "    slab      : "@ + delta_text(r.slab_delta_kb, "KB"@) + "\n"@
            + "    compact   : "@ + delta_text(stalls(r), "stalls"@) + "\n"@ + "\n"@
    }
}

fn push_delta_line(out: &mut String, label: &str, val: Option<i64>, unit: &str)
    ensures
        final(out)@ == old(out)@ + label@ + delta_text(val, unit@) + "\n"@,
{
    broadcast use group_concat;
    let d = fmt_delta(val, unit);
    out.append(label);
    out.append(d.as_str());
    out.append("\n");
}

/// Appends the memory section.
pub fn print_memory_section(out: &mut String, result: &AgingResult)
    ensures
        final(out)@ == old(out)@ + memory_text(*result),
{
    broadcast use group_concat;
    if result.mem_available_delta_mb.is_none() && result.cma_free_delta_kb.is_none()
        && result.slab_delta_kb.is_none() && result.compaction_stall_delta.is_none() {
        return ;
    }
    out.append("  Memory (start -> end delta)\n");
    push_delta_line(out, "    available : ", result.mem_available_delta_mb, "MB");
    push_delta_line(out, "    CMA free  : ", result.cma_free_delta_kb, "KB");
    push_delta_line(out, "    slab      : ", result.slab_delta_kb, "KB");
    let compact: Option<i64> = match result.compaction_stall_delta {
        Some(n) => Some(as_signed(n)),
        None => None,
    };
    push_delta_line(out, "    compact   : ", compact, "stalls");
    out.append("\n");
}

/// Names with a comma and a blank between each two.
pub open spec fn joined(heaps: Seq<HeapResult>) -> Seq<char>
    decreases heaps.len(),
{
    if heaps.len() == 0 {
        Seq::empty()
    } else if heaps.len() == 1 {
        heaps[0].name@
    } else {
        joined(heaps.drop_last()) + ", "@ + heaps.last().name@
    }
}

fn push_names(out: &mut String, heaps: &[HeapResult])
    ensures
        final(out)@ == old(out)@ + joined(heaps@),
{
    broadcast use group_concat;
    let ghost start = out@;
    let mut i: usize = 0;
    assert(heaps@.take(0) =~= Seq::empty());
    while i < heaps.len()
        invariant
            i <= heaps@.len(),
            out@ == start + joined(heaps@.take(i as int)),
        decreases heaps@.len() - i,
    {
        proof {
            assert(heaps@.take(i + 1).drop_last() =~= heaps@.take(i as int));
            assert(heaps@.take(i + 1).last() == heaps@[i as int]);
        }
        if i > 0 {
            out.append(", ");
        }
        out.append(heaps[i].name.as_str());
        i = i + 1;
    }
    assert(heaps@.take(heaps@.len() as int) =~= heaps@);
}

/// The first lines: what was run, for how long, and how much was done.
pub open spec fn run_text(r: AgingResult) -> Seq<char> {
    "  mode        : "@ + r.mode@ + " x "@ + dec(r.threads as nat) + " threads\n"@
        + "  heaps       : "@ + (if r.heap_results@.len() == 0 {
        r.mode@
    } else {
        joined(r.heap_results@)
    }) + "\n"@ + "  elapsed     : "@ + elapsed_text(r.elapsed_secs as nat) + "\n"@
}

/// How much was done.
pub open spec fn work_text(r: AgingResult) -> Seq<char> {
    "  iters       : "@ + grouped(r.total_iters as nat) + " ("@ + (
    match r.throughput_iters_per_sec {
        Some(t) => dec(scaled(t@, 1)),
        None => "-"@,
    }) + "/s)\n"@ + "  alloc/free  : "@ + grouped(r.total_allocs as nat) + " / "@ + grouped(
        r.total_frees as nat,
    ) + "\n"@
}

/// The merges, where there were any.
pub open spec fn merges_text(r: AgingResult) -> Seq<char> {
    if r.total_merges > 0 || r.total_merge_errors > 0 {
        "  merges      : "@ + grouped(r.total_merges as nat) + " (err "@ + dec(
            r.total_merge_errors as nat,
        ) + ")\n"@
    } else {
        Seq::empty()
    }
}

/// How the times changed over the run.
pub open spec fn trend_text(r: AgingResult) -> Seq<char> {
    "  Trend\n"@ + "    baseline  : "@ + (match r.baseline_avg_us {
        Some(v) => dec(v as nat) + " us (5-interval avg)\n"@,
        None => "-\n"@,
    }) + "    final     : "@ + (match r.final_interval_avg_us {
        Some(v) => dec(v as nat) + " us\n"@,
        None => "-\n"@,
    }) + "    trend     : "@ + tenths_text(scaled(r.trend@, 10)) + "x\n"@ + "    peak p99  : "@
        + grouped(r.peak_p99_us as nat) + " us\n"@ + "\n"@
}

/// The whole report.
pub open spec fn summary_text(r: AgingResult, fuzz_mode: bool) -> Seq<char> {
    "\n\u{2500}\u{2500} aging summary "@ + repeat('\u{2500}', 61) + "\n"@ + run_text(r) + work_text(
        r,
    ) + merges_text(r) + "\n"@ + trend_text(r) + heap_table_text(r.heap_results@) + (if fuzz_mode {
        Seq::empty()
    } else {
        op_tables_text(r.heap_results@)
    }) + memory_text(r) + repeat('\u{2500}', 76) + "\n"@
}

/// Whether the figures of a result can be shown.
pub open spec fn shown(r: AgingResult) -> bool {
    &&& r.trend.wf()
    &&& r.throughput_iters_per_sec matches Some(t) ==> t.wf()
    &&& forall|i: int|
        0 <= i < r.heap_results@.len() ==> heap_shown(#[trigger] r.heap_results@[i])
}

fn push_run(out: &mut String, r: &AgingResult)
    ensures
        final(out)@ == old(out)@ + run_text(*r),
{
    broadcast use group_concat;
    let elapsed = fmt_elapsed(r.elapsed_secs);
    out.append("  mode        : ");
    out.append(r.mode.as_str());
    out.append(" x ");
    push_dec(out, r.threads as u64);
    out.append(" threads\n");
    out.append("  heaps       : ");
    if r.heap_results.len() == 0 {
        out.append(r.mode.as_str());
    } else {
        push_names(out, r.heap_results.as_slice());
    }
    out.append("\n");
    out.append("  elapsed     : ");
    out.append(elapsed.as_str());
    out.append("\n");
}

fn push_work(out: &mut String, r: &AgingResult)
    requires
        r.throughput_iters_per_sec matches Some(t) ==> t.wf(),
    ensures
        final(out)@ == old(out)@ + work_text(*r),
{
    broadcast use group_concat;
    out.append("  iters       : ");
    push_grouped(out, r.total_iters);
    out.append(" (");
    match r.throughput_iters_per_sec {
        Some(t) => t.push_rounded(out),
        None => out.append("-"),
    }
    out.append("/s)\n");
    out.append("  alloc/free  : ");
    push_grouped(out, r.total_allocs);
    out.append(" / ");
    push_grouped(out, r.total_frees);
    out.append("\n");
}

fn push_merges(out: &mut String, r: &AgingResult)
    ensures
        final(out)@ == old(out)@ + merges_text(*r),
{
    broadcast use group_concat;
    if r.total_merges > 0 || r.total_merge_errors > 0 {
        out.append("  merges      : ");
        push_grouped(out, r.total_merges);
        out.append(" (err ");
        push_dec(out, r.total_merge_errors);
        out.append(")\n");
    }
}

fn push_trend(out: &mut String, r: &AgingResult)
    requires
        r.trend.wf(),
    ensures
        final(out)@ == old(out)@ + trend_text(*r),
{
    broadcast use group_concat;
    out.append("  Trend\n");
    out.append("    baseline  : ");
    match r.baseline_avg_us {
        Some(v) => {
            push_dec(out, v);
            out.append(" us (5-interval avg)\n");
        },
        None => out.append("-\n"),
    }
    out.append("    final     : ");
    match r.final_interval_avg_us {
        Some(v) => {
            push_dec(out, v);
            out.append(" us\n");
        },
        None => out.append("-\n"),
    }
    out.append("    trend     : ");
    r.trend.push_one_decimal(out);
    out.append("x\n");
    out.append("    peak p99  : ");
    push_grouped(out, r.peak_p99_us);
    out.append(" us\n");
    out.append("\n");
}

/// The whole report.
pub fn print_summary(result: &AgingResult, fuzz_mode: bool) -> (s: String)
    requires
        shown(*result),
    ensures
        s@ == summary_text(*result, fuzz_mode),
{
    broadcast use group_concat;
    let mut out = String::new();
    out.append("\n\u{2500}\u{2500} aging summary ");
    push_repeat(&mut out, '\u{2500}', 61);
    out.append("\n");
    push_run(&mut out, result);
    push_work(&mut out, result);
    push_merges(&mut out, result);
    out.append("\n");
    push_trend(&mut out, result);
    print_per_heap_table(&mut out, result.heap_results.as_slice());
    if !fuzz_mode {
        print_per_op_latency(&mut out, result.heap_results.as_slice());
    }
    print_memory_section(&mut out, result);
    push_repeat(&mut out, '\u{2500}', 76);
    out.append("\n");
    out
}

/// The buffers held, and their size.
pub open spec fn held_text(state: AgingState) -> Seq<char> {
    dec(state.held_bufs as nat) + "("@ + size_text(state.held_bytes as nat) + ")"@
}

fn held(state: &AgingState) -> (s: String)
    ensures
        s@ == held_text(*state),
{
    broadcast use group_concat;
    let size = format_size(state.held_bytes);
    let mut s = String::new();
    push_dec(&mut s, state.held_bufs);
    s.append("(");
    s.append(size.as_str());
    s.append(")");
    s
}

/// A named value of a line of progress.
pub struct Field {
    pub name: &'static str,
    pub value: String,
}

/// The names and values of fields.
pub open spec fn field_texts(v: Seq<Field>) -> Seq<(Seq<char>, Seq<char>)> {
    Seq::new(v.len(), |i: int| (v[i].name@, v[i].value@))
}

/// The fields on what was done: time, iterations, allocations and frees.
pub open spec fn done_fields(elapsed: nat, iters: nat, allocs: nat, frees: nat) -> Seq<
    (Seq<char>, Seq<char>),
> {
    seq![
        ("elapsed"@, dec(elapsed) + "s"@),
        ("iters"@, dec(iters)),
        ("\u{2191}"@, dec(allocs)),
        ("\u{2193}"@, dec(frees)),
    ]
}

/// The fields on the state: errors, buffers held and trend.
pub open spec fn state_fields(state: AgingState) -> Seq<(Seq<char>, Seq<char>)> {
    seq![
        ("err"@, dec(state.total_errors as nat)),
        ("held"@, held_text(state)),
        ("trend"@, tenths_text(scaled(state.trend_parts(), 10)) + "x"@),
    ]
}

fn number_field(name: &'static str, n: u64, unit: &str) -> (f: Field)
    ensures
        f.name@ == name@,
        f.value@ == dec(n as nat) + unit@,
{
    broadcast use group_concat;
    let mut value = String::new();
    push_dec(&mut value, n);
    value.append(unit);
    Field { name, value }
}

fn push_done(v: &mut Vec<Field>, elapsed_secs: u64, iters: u64, allocs: u64, frees: u64)
    ensures
        field_texts(final(v)@) == field_texts(old(v)@) + done_fields(
            elapsed_secs as nat,
            iters as nat,
            allocs as nat,
            frees as nat,
        ),
{
    broadcast use group_concat;
    let ghost start = field_texts(v@);
    proof {
        reveal_strlit("");
        assert(""@ =~= Seq::<char>::empty());
    }
    v.push(number_field("elapsed", elapsed_secs, "s"));
    v.push(number_field("iters", iters, ""));
    v.push(number_field("\u{2191}", allocs, ""));
    v.push(number_field("\u{2193}", frees, ""));
    assert(field_texts(v@) =~= start + done_fields(
        elapsed_secs as nat,
        iters as nat,
        allocs as nat,
        frees as nat,
    ));
}

fn push_state(v: &mut Vec<Field>, state: &AgingState)
    ensures
        field_texts(final(v)@) == field_texts(old(v)@) + state_fields(*state),
{
    broadcast use group_concat;
    let ghost start = field_texts(v@);
    proof {
        reveal_strlit("");
        assert(""@ =~= Seq::<char>::empty());
    }
    v.push(number_field("err", state.total_errors, ""));
    v.push(Field { name: "held", value: held(state) });
    let mut trend = String::new();
    state.trend().push_one_decimal(&mut trend);
    trend.append("x");
    v.push(Field { name: "trend", value: trend });
    assert(field_texts(v@) =~= start + state_fields(*state));
}

/// The fields of a line of progress: what was done since the last, the interval's
/// times but in fuzz mode, and the state.
pub fn progress_fields(
    state: &AgingState,
    elapsed_secs: u64,
    prev_allocs: u64,
    prev_frees: u64,
    avg_us: u64,
    p99_us: u64,
    fuzz_mode: bool,
) -> (v: Vec<Field>)
    requires
        prev_allocs <= state.total_allocs,
        prev_frees <= state.total_frees,
    ensures
        field_texts(v@) == done_fields(
            elapsed_secs as nat,
            state.total_iters as nat,
            (state.total_allocs - prev_allocs) as nat,
            (state.total_frees - prev_frees) as nat,
        ) + (if fuzz_mode {
            Seq::empty()
        } else {
            seq![("avg"@, dec(avg_us as nat) + "us"@), ("p99"@, dec(p99_us as nat) + "us"@)]
        }) + state_fields(*state),
{
    let mut v: Vec<Field> = Vec::new();
    assert(field_texts(v@) =~= Seq::empty());
    push_done(
        &mut v,
        elapsed_secs,
        state.total_iters,
        state.total_allocs - prev_allocs,
        state.total_frees - prev_frees,
    );
    let ghost mid = field_texts(v@);
    if !fuzz_mode {
        v.push(number_field("avg", avg_us, "us"));
        v.push(number_field("p99", p99_us, "us"));
        assert(field_texts(v@) =~= mid + seq![
            ("avg"@, dec(avg_us as nat) + "us"@),
            ("p99"@, dec(p99_us as nat) + "us"@),
        ]);
    } else {
        assert(field_texts(v@) =~= mid + Seq::<(Seq<char>, Seq<char>)>::empty());
    }
    push_state(&mut v, state);
    assert(Seq::<(Seq<char>, Seq<char>)>::empty() + mid =~= mid);
    v
}

/// The state after the times of an interval were taken in; as it was where there were none.
pub open spec fn after_interval(state: AgingState, interval: Option<LatencyStats>) -> AgingState {
    match interval {
        Some(stats) => state.with_interval(stats),
        None => state,
    }
}

/// Whether the times of an interval can be taken in.
pub open spec fn interval_fits(interval: Option<LatencyStats>) -> bool {
    interval matches Some(stats) ==> stats.avg_us * stats.count <= u64::MAX
}

/// The times of an interval in a line of progress.
pub open spec fn interval_fields(interval: Option<LatencyStats>) -> Seq<(Seq<char>, Seq<char>)> {
    let (avg, p99): (nat, nat) = match interval {
        Some(stats) => (stats.avg_us as nat, stats.p99_us as nat),
        None => (0, 0),
    };
    seq![("avg"@, dec(avg) + "us"@), ("p99"@, dec(p99) + "us"@)]
}

/// Takes the times of an interval in, where there are any.
pub fn end_interval(state: &mut AgingState, interval: &Option<LatencyStats>)
    requires
        old(state).wf(),
        interval_fits(*interval),
    ensures
        final(state).wf(),
        *final(state) == after_interval(*old(state), *interval),
{
    match interval {
        Some(stats) => state.update_cumulative(stats),
        None => {},
    }
}

/// What had been done when the last line of progress was told.
#[derive(Debug, Clone, Copy)]
pub struct Progress {
    pub allocs: u64,
    pub frees: u64,
}

impl Progress {
    /// Before the first line.
    pub fn new() -> (r: Progress)
        ensures
            r == (Progress { allocs: 0, frees: 0 }),
    {
        Progress { allocs: 0, frees: 0 }
    }

    /// Ends an interval: takes its times in, and gives the fields of its line.
    pub fn report(
        &mut self,
        state: &mut AgingState,
        interval: &Option<LatencyStats>,
        elapsed_secs: u64,
        fuzz_mode: bool,
    ) -> (v: Vec<Field>)
        requires
            old(state).wf(),
            interval_fits(*interval),
            old(self).allocs <= old(state).total_allocs,
            old(self).frees <= old(state).total_frees,
        ensures
            final(state).wf(),
            *final(state) == after_interval(*old(state), *interval),
            *final(self) == (Progress {
                allocs: old(state).total_allocs,
                frees: old(state).total_frees,
            }),
            field_texts(v@) == done_fields(
                elapsed_secs as nat,
                old(state).total_iters as nat,
                (old(state).total_allocs - old(self).allocs) as nat,
                (old(state).total_frees - old(self).frees) as nat,
            ) + (if fuzz_mode {
                Seq::empty()
            } else {
                interval_fields(*interval)
            }) + state_fields(*final(state)),
    {
        end_interval(state, interval);
        let (avg_us, p99_us): (u64, u64) = match interval {
            Some(stats) => (stats.avg_us, stats.p99_us),
            None => (0, 0),
        };
        let v = progress_fields(
            state,
            elapsed_secs,
            self.allocs,
            self.frees,
            avg_us,
            p99_us,
            fuzz_mode,
        );
        self.allocs = state.total_allocs;
        self.frees = state.total_frees;
        v
    }
}

/// The fields of the last line: what was done in all, and the state.
pub fn complete_fields(state: &AgingState, elapsed_secs: u64) -> (v: Vec<Field>)
    ensures
        field_texts(v@) == done_fields(
            elapsed_secs as nat,
            state.total_iters as nat,
            state.total_allocs as nat,
            state.total_frees as nat,
        ) + state_fields(*state),
{
    let mut v: Vec<Field> = Vec::new();
    assert(field_texts(v@) =~= Seq::empty());
    push_done(&mut v, elapsed_secs, state.total_iters, state.total_allocs, state.total_frees);
    push_state(&mut v, state);
    v
}

/// A result of a run can be shown.
pub proof fn law_result_shown(
    r: AgingResult,
    state: AgingState,
)
    requires
        r.counts(state),
        r.times(state),
    ensures
        shown(r),
{
    assert forall|i: int| 0 <= i < r.heap_results@.len() implies heap_shown(
        #[trigger] r.heap_results@[i],
    ) by {
        assert(r.heap_results@[i].of(state.heap_counters@[i]));
    }
}

/// A loss is told with a minus sign before its size, a gain with a plus sign.
pub proof fn law_sign_of_a_change(v: i64, unit: Seq<char>)
    ensures
        v < 0 ==> delta_text(Some(v), unit) == seq!['-'] + dec((-v) as nat) + " "@ + unit,
        v >= 0 ==> delta_text(Some(v), unit) == seq!['+'] + dec(v as nat) + " "@ + unit,
{
    reveal_strlit("+");
    reveal_strlit("");
    if v < 0 {
        assert(delta_text(Some(v), unit) =~= seq!['-'] + dec((-v) as nat) + " "@ + unit);
    } else {
        assert(delta_text(Some(v), unit) =~= seq!['+'] + dec(v as nat) + " "@ + unit);
    }
}

/// The first line on memory tells the change of the available memory, with its sign.
pub proof fn law_available_memory_is_told(r: AgingResult, d: i64) -> (rest: Seq<char>)
    requires
        r.mem_available_delta_mb == Some(d),
    ensures
        d < 0 ==> memory_text(r) == "  Memory (start -> end delta)\n"@ + "    available : "@ + (
        seq!['-'] + dec((-d) as nat) + " "@ + "MB"@) + rest,
        d >= 0 ==> memory_text(r) == "  Memory (start -> end delta)\n"@ + "    available : "@ + (
        seq!['+'] + dec(d as nat) + " "@ + "MB"@) + rest,
{
    law_sign_of_a_change(d, "MB"@);
    let rest = "\n"@ + "    CMA free  : "@ + delta_text(r.cma_free_delta_kb, "KB"@) + "\n"@
        + "    slab      : "@ + delta_text(r.slab_delta_kb, "KB"@) + "\n"@ + "    compact   : "@
        + delta_text(stalls(r), "stalls"@) + "\n"@ + "\n"@;
    assert(memory_text(r) =~= "  Memory (start -> end delta)\n"@ + "    available : "@ + delta_text(
        Some(d),
        "MB"@,
    ) + rest);
    rest
}

/// A duration is told in minutes and seconds that add up to it, with fewer than sixty seconds.
pub proof fn law_elapsed_adds_up(secs: nat) -> (r: (nat, nat))
    ensures
        r.0 * 60 + r.1 == secs,
        r.1 < 60,
        r.0 > 0 ==> elapsed_text(secs) == dec(r.0) + "m "@ + dec(r.1) + "s"@,
        r.0 == 0 ==> elapsed_text(secs) == dec(r.1) + "s"@,
{
    (secs / 60, secs % 60)
}

/// In the table of heaps each figure stands below its name.
pub proof fn law_heap_figures_below_their_names(h: HeapResult, i: int)
    requires
        0 <= i < heap_headers().len(),
    ensures
        heap_row(h).len() == heap_headers().len(),
        i == 0 ==> heap_headers()[i] == "heap"@ && heap_row(h)[i] == h.name@,
        i == 1 ==> heap_headers()[i] == "alloc"@ && heap_row(h)[i] == grouped(h.allocs as nat),
        i == 2 ==> heap_headers()[i] == "free"@ && heap_row(h)[i] == grouped(h.frees as nat),
        i == 3 ==> heap_headers()[i] == "ENOMEM"@ && heap_row(h)[i] == grouped(h.enomem as nat),
        i == 4 ==> heap_headers()[i] == "EMFILE"@ && heap_row(h)[i] == grouped(h.emfile as nat),
        i == 5 ==> heap_headers()[i] == "alloc/4K"@ && heap_row(h)[i] == per_4k_text(h.alloc_lat),
        i == 6 ==> heap_headers()[i] == "mmap/4K"@ && heap_row(h)[i] == per_4k_text(h.mmap_lat),
        i == 7 ==> heap_headers()[i] == "sync/4K"@ && heap_row(h)[i] == per_4k_text(h.sync_lat),
        i == 8 ==> heap_headers()[i] == "free/4K"@ && heap_row(h)[i] == per_4k_text(h.free_lat),
{
}

} // verus!
