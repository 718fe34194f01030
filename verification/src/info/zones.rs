//! The report's sections on zones, contiguous areas and fragmentation.
use crate::double::tenths_text;
use crate::info::format::{
    format_size, law_share_shown, pct, pct_text, row_text, size_text, Align,
};
use crate::info::report::{push_row, widest, widest_of};
use crate::info::types::{BuddyInfoEntry, CmaAreaStats, PageTypeInfoEntry, ZoneEntry};
use crate::number::{dec, dec_string, pad_left, pad_right, push_dec, push_pad_left, push_pad_right};
use crate::procfs::{
    blocks_above_order, blocks_from, free_pages, highest_order, lemma_blocks_below_pages,
    lemma_highest_order, max_contiguous_order, pages_of_order, total_free_pages, PAGE_SIZE,
};
use crate::order::strs;
use crate::text::{group_concat, same_string};
use vstd::arithmetic::power2::pow2;
use vstd::prelude::*;

verus! {

broadcast use group_concat;

/// Numbers with a comma and a blank between each two.
pub open spec fn join_numbers(v: Seq<u64>) -> Seq<char>
    decreases v.len(),
{
    if v.len() == 0 {
        Seq::empty()
    } else if v.len() == 1 {
        dec(v[0] as nat)
    } else {
        join_numbers(v.drop_last()) + ", "@ + dec(v.last() as nat)
    }
}

fn numbers_string(v: &Vec<u64>) -> (s: String)
    ensures
        s@ == join_numbers(v@),
{
    let mut s = String::new();
    let mut i: usize = 0;
    while i < v.len()
        invariant
            i <= v@.len(),
            s@ == join_numbers(v@.take(i as int)),
        decreases v@.len() - i,
    {
        assert(v@.take(i + 1).drop_last() =~= v@.take(i as int));
        assert(v@.take(i + 1).last() == v@[i as int]);
        if i > 0 {
            s.append(", ");
        }
        push_dec(&mut s, v[i]);
        i = i + 1;
    }
    assert(v@.take(v@.len() as int) =~= v@);
    s
}

pub open spec fn zone_widths() -> Seq<usize> {
    seq![6, 12, 10, 10, 10, 10, 20]
}

pub open spec fn zone_aligns() -> Seq<Align> {
    seq![
        Align::Right,
        Align::Left,
        Align::Right,
        Align::Right,
        Align::Right,
        Align::Right,
        Align::Left,
    ]
}

pub open spec fn zone_header() -> Seq<Seq<char>> {
    seq!["NODE"@, "ZONE"@, "FREE"@, "MIN"@, "LOW"@, "HIGH"@, "PROTECTION"@]
}

/// What is shown of a zone.
pub open spec fn zone_values(z: ZoneEntry) -> Seq<Seq<char>> {
    seq![
        dec(z.node as nat),
        z.zone@,
        dec(z.free_pages as nat),
        dec(z.min_watermark as nat),
        dec(z.low_watermark as nat),
        dec(z.high_watermark as nat),
        join_numbers(z.protection@),
    ]
}

pub open spec fn zone_rows(z: Seq<ZoneEntry>) -> Seq<char>
    decreases z.len(),
{
    if z.len() == 0 {
        Seq::empty()
    } else {
        zone_rows(z.drop_last()) + (row_text(zone_widths(), zone_aligns(), zone_values(z.last()))
            + "\n"@)
    }
}

/// The section on zones.
pub open spec fn zones_text(z: Seq<ZoneEntry>) -> Seq<char> {
    "[Zones]\n"@ + "  /proc/zoneinfo\n\n"@ + (if z.len() == 0 {
        "  (not available)\n"@
    } else {
        row_text(zone_widths(), zone_aligns(), zone_header()) + "\n"@ + zone_rows(z)
    }) + "\n"@
}

fn push_zone_rows(out: &mut String, z: &Vec<ZoneEntry>, widths: &[usize], aligns: &[Align])
    requires
        widths@ == zone_widths(),
        aligns@ == zone_aligns(),
    ensures
        final(out)@ == old(out)@ + zone_rows(z@),
{
    let ghost start = out@;
    let mut i: usize = 0;
    assert(z@.take(0) =~= Seq::empty());
    while i < z.len()
        invariant
            i <= z@.len(),
            widths@ == zone_widths(),
            aligns@ == zone_aligns(),
            out@ == start + zone_rows(z@.take(i as int)),
        decreases z@.len() - i,
    {
        assert(z@.take(i + 1).drop_last() =~= z@.take(i as int));
        assert(z@.take(i + 1).last() == z@[i as int]);
        let e: &ZoneEntry = &z[i];
        let node = dec_string(e.node as u64);
        let free = dec_string(e.free_pages);
        let min = dec_string(e.min_watermark);
        let low = dec_string(e.low_watermark);
        let high = dec_string(e.high_watermark);
        let protection = numbers_string(&e.protection);
        let values: [&str; 7] = [
            node.as_str(),
            e.zone.as_str(),
            free.as_str(),
            min.as_str(),
            low.as_str(),
            high.as_str(),
            protection.as_str(),
        ];
        assert(strs(values@) =~= zone_values(*e));
        push_row(out, widths, aligns, &values);
        i = i + 1;
    }
    assert(z@.take(z@.len() as int) =~= z@);
}

/// Appends the section on zones.
pub fn push_zones(out: &mut String, z: &Vec<ZoneEntry>)
    ensures
        final(out)@ == old(out)@ + zones_text(z@),
{
    out.append("[Zones]\n");
    out.append("  /proc/zoneinfo\n\n");
    if z.len() == 0 {
        out.append("  (not available)\n");
    } else {
        let widths: [usize; 7] = [6, 12, 10, 10, 10, 10, 20];
        let aligns: [Align; 7] = [
            Align::Right,
            Align::Left,
            Align::Right,
            Align::Right,
            Align::Right,
            Align::Right,
            Align::Left,
        ];
        let header: [&str; 7] = ["NODE", "ZONE", "FREE", "MIN", "LOW", "HIGH", "PROTECTION"];
        assert(widths@ =~= zone_widths());
        assert(aligns@ =~= zone_aligns());
        assert(strs(header@) =~= zone_header());
        push_row(out, &widths, &aligns, &header);
        push_zone_rows(out, z, &widths, &aligns);
    }
    out.append("\n");
}

pub open spec fn area_names(a: Seq<CmaAreaStats>) -> Seq<Seq<char>> {
    Seq::new(a.len(), |i: int| a[i].name@)
}

pub open spec fn area_widths(a: Seq<CmaAreaStats>) -> Seq<usize> {
    seq![widest(area_names(a), 4), 14, 14, 14, 14, 10]
}

pub open spec fn area_aligns() -> Seq<Align> {
    seq![Align::Left, Align::Right, Align::Right, Align::Right, Align::Right, Align::Right]
}

pub open spec fn area_header() -> Seq<Seq<char>> {
    seq!["AREA"@, "ALLOC_OK"@, "ALLOC_FAIL"@, "RELEASED"@, "ACTIVE"@, "FAIL%"@]
}

/// The pages allocated and not released.
pub open spec fn active_pages(a: CmaAreaStats) -> nat {
    if a.alloc_pages_success >= a.release_pages_success {
        (a.alloc_pages_success - a.release_pages_success) as nat
    } else {
        0
    }
}

/// What is shown of a contiguous area.
pub open spec fn area_values(a: CmaAreaStats) -> Seq<Seq<char>> {
    seq![
        a.name@,
        dec(a.alloc_pages_success as nat),
        dec(a.alloc_pages_fail as nat),
        dec(a.release_pages_success as nat),
        dec(active_pages(a)),
        pct_text(
            a.alloc_pages_fail as nat,
            (a.alloc_pages_success + a.alloc_pages_fail) as nat,
        ),
    ]
}

pub open spec fn area_rows(widths: Seq<usize>, a: Seq<CmaAreaStats>) -> Seq<char>
    decreases a.len(),
{
    if a.len() == 0 {
        Seq::empty()
    } else {
        area_rows(widths, a.drop_last()) + (row_text(widths, area_aligns(), area_values(a.last()))
            + "\n"@)
    }
}

/// The section on contiguous areas.
pub open spec fn areas_text(a: Seq<CmaAreaStats>) -> Seq<char> {
    "[CMA Areas]\n"@ + "  /sys/kernel/mm/cma/\n\n"@ + (if a.len() == 0 {
        "  (not available - CONFIG_CMA_SYSFS not enabled)\n"@
    } else {
        row_text(area_widths(a), area_aligns(), area_header()) + "\n"@ + area_rows(
            area_widths(a),
            a,
        )
    }) + "\n"@
}

/// The attempts of each area fit their machine integer.
pub open spec fn areas_fit(a: Seq<CmaAreaStats>) -> bool {
    forall|i: int|
        0 <= i < a.len() ==> (#[trigger] a[i]).alloc_pages_success + a[i].alloc_pages_fail
            <= u64::MAX
}

fn push_area_rows(out: &mut String, a: &Vec<CmaAreaStats>, widths: &[usize], aligns: &[Align])
    requires
        areas_fit(a@),
        aligns@ == area_aligns(),
    ensures
        final(out)@ == old(out)@ + area_rows(widths@, a@),
{
    let ghost start = out@;
    let mut i: usize = 0;
    assert(a@.take(0) =~= Seq::empty());
    while i < a.len()
        invariant
            i <= a@.len(),
            areas_fit(a@),
            aligns@ == area_aligns(),
            out@ == start + area_rows(widths@, a@.take(i as int)),
        decreases a@.len() - i,
    {
        assert(a@.take(i + 1).drop_last() =~= a@.take(i as int));
        assert(a@.take(i + 1).last() == a@[i as int]);
        let e: &CmaAreaStats = &a[i];
        let ok = dec_string(e.alloc_pages_success);
        let fail = dec_string(e.alloc_pages_fail);
        let released = dec_string(e.release_pages_success);
        let active = dec_string(e.alloc_pages_success.saturating_sub(e.release_pages_success));
        let rate = pct(e.alloc_pages_fail, e.alloc_pages_success + e.alloc_pages_fail);
        let values: [&str; 6] = [
            e.name.as_str(),
            ok.as_str(),
            fail.as_str(),
            released.as_str(),
            active.as_str(),
            rate.as_str(),
        ];
        assert(strs(values@) =~= area_values(*e));
        push_row(out, widths, aligns, &values);
        i = i + 1;
    }
    assert(a@.take(a@.len() as int) =~= a@);
}

/// Appends the section on contiguous areas.
pub fn push_areas(out: &mut String, a: &Vec<CmaAreaStats>)
    requires
        areas_fit(a@),
    ensures
        final(out)@ == old(out)@ + areas_text(a@),
{
    out.append("[CMA Areas]\n");
    out.append("  /sys/kernel/mm/cma/\n\n");
    if a.len() == 0 {
        out.append("  (not available - CONFIG_CMA_SYSFS not enabled)\n");
    } else {
        let mut names: Vec<&str> = Vec::new();
        let mut i: usize = 0;
        while i < a.len()
            invariant
                i <= a@.len(),
                strs(names@) == area_names(a@).take(i as int),
            decreases a@.len() - i,
        {
            let ghost before = names@;
            names.push(a[i].name.as_str());
            assert(strs(names@) =~= strs(before).push(a@[i as int].name@));
            assert(area_names(a@).take(i + 1) =~= area_names(a@).take(i as int).push(
                a@[i as int].name@,
            ));
            i = i + 1;
        }
        assert(area_names(a@).take(a@.len() as int) =~= area_names(a@));
        let widths: [usize; 6] = [widest_of(&names, 4), 14, 14, 14, 14, 10];
        let aligns: [Align; 6] = [
            Align::Left,
            Align::Right,
            Align::Right,
            Align::Right,
            Align::Right,
            Align::Right,
        ];
        let header: [&str; 6] = ["AREA", "ALLOC_OK", "ALLOC_FAIL", "RELEASED", "ACTIVE", "FAIL%"];
        assert(widths@ =~= area_widths(a@));
        assert(aligns@ =~= area_aligns());
        assert(strs(header@) =~= area_header());
        push_row(out, &widths, &aligns, &header);
        push_area_rows(out, a, &widths, &aligns);
    }
    out.append("\n");
}

/// The free blocks of one zone.
#[verifier::ext_equal]
pub ghost struct FreeBlocks {
    pub node: nat,
    pub zone: Seq<char>,
    pub counts: Seq<u64>,
}

/// The free blocks of one zone, by order.
pub struct OrderRow<'a> {
    pub node: u32,
    pub zone: &'a str,
    pub counts: &'a [u64],
}

pub open spec fn free_blocks(rows: Seq<OrderRow<'_>>) -> Seq<FreeBlocks> {
    Seq::new(
        rows.len(),
        |i: int|
            FreeBlocks { node: rows[i].node as nat, zone: rows[i].zone@, counts: rows[i].counts@ },
    )
}

/// The bytes in free blocks fit their machine integer.
pub open spec fn blocks_fit(rows: Seq<FreeBlocks>) -> bool {
    forall|i: int|
        0 <= i < rows.len() ==> free_pages((#[trigger] rows[i]).counts) * PAGE_SIZE <= u64::MAX
}

pub open spec fn row_zones(rows: Seq<FreeBlocks>) -> Seq<Seq<char>> {
    Seq::new(rows.len(), |i: int| rows[i].zone)
}

pub open spec fn order_widths(rows: Seq<FreeBlocks>) -> Seq<usize> {
    seq![4, widest(row_zones(rows), 4), 10, 10, 10, 10]
}

pub open spec fn order_aligns() -> Seq<Align> {
    seq![Align::Right, Align::Left, Align::Right, Align::Right, Align::Right, Align::Right]
}

pub open spec fn order_header() -> Seq<Seq<char>> {
    seq!["NODE"@, "ZONE"@, "TOTAL FREE"@, "MAX BLOCK"@, "BLK>=64K"@, "BLK>=2M"@]
}

/// What is shown of a zone's free blocks: their total size, the largest block, and
/// how many blocks have at least 64 KiB (order 4) and 2 MiB (order 9).
pub open spec fn order_values(b: FreeBlocks) -> Seq<Seq<char>> {
    seq![
        dec(b.node),
        b.zone,
        size_text(free_pages(b.counts) * PAGE_SIZE as nat),
        size_text(pow2(highest_order(b.counts)) * PAGE_SIZE as nat),
        dec(blocks_from(b.counts, 4)),
        dec(blocks_from(b.counts, 9)),
    ]
}

pub open spec fn order_rows(widths: Seq<usize>, rows: Seq<FreeBlocks>) -> Seq<char>
    decreases rows.len(),
{
    if rows.len() == 0 {
        Seq::empty()
    } else {
        order_rows(widths, rows.drop_last()) + (row_text(
            widths,
            order_aligns(),
            order_values(rows.last()),
        ) + "\n"@)
    }
}

/// The summary of free blocks by zone; nothing where there is no zone.
pub open spec fn order_summary_text(title: Seq<char>, rows: Seq<FreeBlocks>) -> Seq<char> {
    if rows.len() == 0 {
        Seq::empty()
    } else {
        "  "@ + title + "\n"@ + row_text(order_widths(rows), order_aligns(), order_header())
            + "\n"@ + order_rows(order_widths(rows), rows) + "\n"@
    }
}

fn push_order_rows(out: &mut String, rows: &[OrderRow<'_>], widths: &[usize], aligns: &[Align])
    requires
        blocks_fit(free_blocks(rows@)),
        aligns@ == order_aligns(),
    ensures
        final(out)@ == old(out)@ + order_rows(widths@, free_blocks(rows@)),
{
    let ghost start = out@;
    let ghost all = free_blocks(rows@);
    let mut i: usize = 0;
    assert(all.take(0) =~= Seq::empty());
    while i < rows.len()
        invariant
            i <= rows@.len(),
            all == free_blocks(rows@),
            blocks_fit(all),
            aligns@ == order_aligns(),
            out@ == start + order_rows(widths@, all.take(i as int)),
        decreases rows@.len() - i,
    {
        assert(all.take(i + 1).drop_last() =~= all.take(i as int));
        let ghost b = all[i as int];
        assert(all.take(i + 1).last() == b);
        let r: &OrderRow<'_> = &rows[i];
        proof {
            lemma_highest_order(b.counts);
            lemma_blocks_below_pages(b.counts, 4);
            lemma_blocks_below_pages(b.counts, 9);
            vstd::arithmetic::power2::lemma2_to64();
            assert(pow2(highest_order(b.counts)) * PAGE_SIZE <= u64::MAX) by {
                if highest_order(b.counts) != 0 {
                    assert(pow2(highest_order(b.counts)) * PAGE_SIZE <= free_pages(b.counts)
                        * PAGE_SIZE) by (nonlinear_arith)
                        requires
                            pow2(highest_order(b.counts)) <= free_pages(b.counts),
                    ;
                }
            }
        }
        let node = dec_string(r.node as u64);
        let total = format_size(total_free_pages(r.counts) * PAGE_SIZE);
        let largest = format_size(pages_of_order(max_contiguous_order(r.counts)));
        let medium = dec_string(blocks_above_order(r.counts, 4));
        let large = dec_string(blocks_above_order(r.counts, 9));
        let values: [&str; 6] = [
            node.as_str(),
            r.zone,
            total.as_str(),
            largest.as_str(),
            medium.as_str(),
            large.as_str(),
        ];
        assert(strs(values@) =~= order_values(b));
        push_row(out, widths, aligns, &values);
        i = i + 1;
    }
    assert(all.take(all.len() as int) =~= all);
}

/// Appends a summary of free blocks by zone.
pub fn format_order_summary(out: &mut String, title: &str, rows: &[OrderRow<'_>])
    requires
        blocks_fit(free_blocks(rows@)),
    ensures
        final(out)@ == old(out)@ + order_summary_text(title@, free_blocks(rows@)),
{
    if rows.len() == 0 {
        return ;
    }
    let ghost all = free_blocks(rows@);
    out.append("  ");
    out.append(title);
    out.append("\n");
    let mut zones: Vec<&str> = Vec::new();
    let mut i: usize = 0;
    while i < rows.len()
        invariant
            i <= rows@.len(),
            all == free_blocks(rows@),
            strs(zones@) == row_zones(all).take(i as int),
        decreases rows@.len() - i,
    {
        let ghost before = zones@;
        zones.push(rows[i].zone);
        assert(strs(zones@) =~= strs(before).push(rows@[i as int].zone@));
        assert(row_zones(all).take(i + 1) =~= row_zones(all).take(i as int).push(
            rows@[i as int].zone@,
        ));
        i = i + 1;
    }
    assert(row_zones(all).take(all.len() as int) =~= row_zones(all));
    let widths: [usize; 6] = [4, widest_of(&zones, 4), 10, 10, 10, 10];
    let aligns: [Align; 6] = [
        Align::Right,
        Align::Left,
        Align::Right,
        Align::Right,
        Align::Right,
        Align::Right,
    ];
    let header: [&str; 6] = ["NODE", "ZONE", "TOTAL FREE", "MAX BLOCK", "BLK>=64K", "BLK>=2M"];
    assert(widths@ =~= order_widths(all));
    assert(aligns@ =~= order_aligns());
    assert(strs(header@) =~= order_header());
    push_row(out, &widths, &aligns, &header);
    push_order_rows(out, rows, &widths, &aligns);
    out.append("\n");
}

/// The free blocks that `/proc/buddyinfo` lists.
pub open spec fn buddy_blocks(buddy: Seq<BuddyInfoEntry>) -> Seq<FreeBlocks> {
    Seq::new(
        buddy.len(),
        |i: int|
            FreeBlocks {
                node: buddy[i].node as nat,
                zone: buddy[i].zone@,
                counts: buddy[i].free_counts@,
            },
    )
}

/// Appends the summary of `/proc/buddyinfo`.
pub fn format_frag_summary(out: &mut String, buddy: &[BuddyInfoEntry])
    requires
        blocks_fit(buddy_blocks(buddy@)),
    ensures
        final(out)@ == old(out)@ + order_summary_text(
            "Summary (page size: 4 KiB):"@,
            buddy_blocks(buddy@),
        ),
{
    let mut rows: Vec<OrderRow<'_>> = Vec::new();
    let mut i: usize = 0;
    while i < buddy.len()
        invariant
            i <= buddy@.len(),
            free_blocks(rows@) == buddy_blocks(buddy@).take(i as int),
        decreases buddy@.len() - i,
    {
        let ghost before = rows@;
        rows.push(
            OrderRow {
                node: buddy[i].node,
                zone: buddy[i].zone.as_str(),
                counts: buddy[i].free_counts.as_slice(),
            },
        );
        assert(free_blocks(rows@) =~= free_blocks(before).push(buddy_blocks(buddy@)[i as int]));
        i = i + 1;
    }
    assert(buddy_blocks(buddy@).take(buddy@.len() as int) =~= buddy_blocks(buddy@));
    format_order_summary(out, "Summary (page size: 4 KiB):", rows.as_slice());
}

/// The free blocks of the migrate type `CMA` that `/proc/pagetypeinfo` lists.
pub open spec fn cma_blocks(pti: Seq<PageTypeInfoEntry>) -> Seq<FreeBlocks>
    decreases pti.len(),
{
    if pti.len() == 0 {
        Seq::empty()
    } else {
        let p = pti.last();
        if p.page_type@ == "CMA"@ {
            cma_blocks(pti.drop_last()).push(
                FreeBlocks { node: p.node as nat, zone: p.zone@, counts: p.free_counts@ },
            )
        } else {
            cma_blocks(pti.drop_last())
        }
    }
}

/// Appends the summary of the migrate type `CMA`.
pub fn format_cma_migrate_summary(out: &mut String, pti: &[PageTypeInfoEntry])
    requires
        blocks_fit(cma_blocks(pti@)),
    ensures
        final(out)@ == old(out)@ + order_summary_text(
            "CMA migrate type summary (page size: 4 KiB):"@,
            cma_blocks(pti@),
        ),
{
    let mut rows: Vec<OrderRow<'_>> = Vec::new();
    let mut i: usize = 0;
    assert(free_blocks(rows@) =~= cma_blocks(pti@.take(0)));
    while i < pti.len()
        invariant
            i <= pti@.len(),
            free_blocks(rows@) == cma_blocks(pti@.take(i as int)),
        decreases pti@.len() - i,
    {
        let ghost before = rows@;
        assert(pti@.take(i + 1).drop_last() =~= pti@.take(i as int));
        assert(pti@.take(i + 1).last() == pti@[i as int]);
        let p: &PageTypeInfoEntry = &pti[i];
        if same_string(p.page_type.as_str(), "CMA") {
            rows.push(
                OrderRow {
                    node: p.node,
                    zone: p.zone.as_str(),
                    counts: p.free_counts.as_slice(),
                },
            );
            assert(free_blocks(rows@) =~= free_blocks(before).push(
                FreeBlocks { node: p.node as nat, zone: p.zone@, counts: p.free_counts@ },
            ));
        }
        i = i + 1;
    }
    assert(pti@.take(pti@.len() as int) =~= pti@);
    format_order_summary(
        out,
        "CMA migrate type summary (page size: 4 KiB):",
        rows.as_slice(),
    );
}

/// The orders below `n`, each in a column of its own.
pub open spec fn order_columns(n: nat) -> Seq<char>
    decreases n,
{
    if n == 0 {
        Seq::empty()
    } else {
        order_columns((n - 1) as nat) + (" "@ + pad_left(dec((n - 1) as nat), 5))
    }
}

/// Counts, each in a column of its own.
pub open spec fn count_columns(c: Seq<u64>) -> Seq<char>
    decreases c.len(),
{
    if c.len() == 0 {
        Seq::empty()
    } else {
        count_columns(c.drop_last()) + (" "@ + pad_left(dec(c.last() as nat), 5))
    }
}

fn push_column(out: &mut String, n: u64)
    ensures
        final(out)@ == old(out)@ + (" "@ + pad_left(dec(n as nat), 5)),
{
    out.append(" ");
    push_pad_left(out, dec_string(n).as_str(), 5);
}

fn push_order_columns(out: &mut String, n: usize)
    ensures
        final(out)@ == old(out)@ + order_columns(n as nat),
{
    let ghost start = out@;
    let mut i: usize = 0;
    while i < n
        invariant
            i <= n,
            out@ == start + order_columns(i as nat),
        decreases n - i,
    {
        push_column(out, i as u64);
        i = i + 1;
    }
}

fn push_count_columns(out: &mut String, c: &Vec<u64>)
    ensures
        final(out)@ == old(out)@ + count_columns(c@),
{
    let ghost start = out@;
    let mut i: usize = 0;
    assert(c@.take(0) =~= Seq::empty());
    while i < c.len()
        invariant
            i <= c@.len(),
            out@ == start + count_columns(c@.take(i as int)),
        decreases c@.len() - i,
    {
        assert(c@.take(i + 1).drop_last() =~= c@.take(i as int));
        assert(c@.take(i + 1).last() == c@[i as int]);
        push_column(out, c[i]);
        i = i + 1;
    }
    assert(c@.take(c@.len() as int) =~= c@);
}

/// The largest number of orders of any zone.
pub open spec fn buddy_orders(b: Seq<BuddyInfoEntry>) -> nat
    decreases b.len(),
{
    if b.len() == 0 {
        0
    } else {
        let n = buddy_orders(b.drop_last());
        if b.last().free_counts@.len() > n {
            b.last().free_counts@.len()
        } else {
            n
        }
    }
}

pub open spec fn buddy_row(b: BuddyInfoEntry) -> Seq<char> {
    "  "@ + pad_left(dec(b.node as nat), 4) + "  "@ + pad_right(b.zone@, 11) + count_columns(
        b.free_counts@,
    ) + "\n"@
}

pub open spec fn buddy_rows(b: Seq<BuddyInfoEntry>) -> Seq<char>
    decreases b.len(),
{
    if b.len() == 0 {
        Seq::empty()
    } else {
        buddy_rows(b.drop_last()) + buddy_row(b.last())
    }
}

/// The free blocks of `/proc/buddyinfo`, in full.
pub open spec fn buddy_table(b: Seq<BuddyInfoEntry>) -> Seq<char> {
    "  /proc/buddyinfo\n\n"@ + "  NODE  ZONE       "@ + order_columns(buddy_orders(b)) + "\n"@
        + buddy_rows(b) + "\n"@
}

/// The free blocks of `/proc/buddyinfo`, in full and in summary.
pub open spec fn buddy_text(b: Seq<BuddyInfoEntry>) -> Seq<char> {
    buddy_table(b) + order_summary_text("Summary (page size: 4 KiB):"@, buddy_blocks(b))
}

fn push_buddy_rows(out: &mut String, b: &Vec<BuddyInfoEntry>)
    ensures
        final(out)@ == old(out)@ + buddy_rows(b@),
{
    let ghost start = out@;
    let mut i: usize = 0;
    assert(b@.take(0) =~= Seq::empty());
    while i < b.len()
        invariant
            i <= b@.len(),
            out@ == start + buddy_rows(b@.take(i as int)),
        decreases b@.len() - i,
    {
        assert(b@.take(i + 1).drop_last() =~= b@.take(i as int));
        assert(b@.take(i + 1).last() == b@[i as int]);
        let e: &BuddyInfoEntry = &b[i];
        out.append("  ");
        push_pad_left(out, dec_string(e.node as u64).as_str(), 4);
        out.append("  ");
        push_pad_right(out, e.zone.as_str(), 11);
        push_count_columns(out, &e.free_counts);
        out.append("\n");
        i = i + 1;
    }
    assert(b@.take(b@.len() as int) =~= b@);
}

fn buddy_orders_of(b: &Vec<BuddyInfoEntry>) -> (r: usize)
    ensures
        r == buddy_orders(b@),
{
    let mut orders: usize = 0;
    let mut i: usize = 0;
    assert(b@.take(0) =~= Seq::empty());
    while i < b.len()
        invariant
            i <= b@.len(),
            orders == buddy_orders(b@.take(i as int)),
        decreases b@.len() - i,
    {
        assert(b@.take(i + 1).drop_last() =~= b@.take(i as int));
        assert(b@.take(i + 1).last() == b@[i as int]);
        if b[i].free_counts.len() > orders {
            orders = b[i].free_counts.len();
        }
        i = i + 1;
    }
    assert(b@.take(b@.len() as int) =~= b@);
    orders
}

fn push_buddy_table(out: &mut String, b: &Vec<BuddyInfoEntry>)
    ensures
        final(out)@ == old(out)@ + buddy_table(b@),
{
    out.append("  /proc/buddyinfo\n\n");
    out.append("  NODE  ZONE       ");
    push_order_columns(out, buddy_orders_of(b));
    out.append("\n");
    push_buddy_rows(out, b);
    out.append("\n");
}

fn push_buddy(out: &mut String, b: &Vec<BuddyInfoEntry>)
    requires
        blocks_fit(buddy_blocks(b@)),
    ensures
        final(out)@ == old(out)@ + buddy_text(b@),
{
    push_buddy_table(out, b);
    format_frag_summary(out, b.as_slice());
}

/// The largest number of orders of any zone and migrate type.
pub open spec fn type_orders(p: Seq<PageTypeInfoEntry>) -> nat
    decreases p.len(),
{
    if p.len() == 0 {
        0
    } else {
        let n = type_orders(p.drop_last());
        if p.last().free_counts@.len() > n {
            p.last().free_counts@.len()
        } else {
            n
        }
    }
}

pub open spec fn type_row(p: PageTypeInfoEntry) -> Seq<char> {
    "  "@ + pad_left(dec(p.node as nat), 4) + "  "@ + pad_right(p.zone@, 11) + " "@ + pad_right(
        p.page_type@,
        14,
    ) + count_columns(p.free_counts@) + "\n"@
}

pub open spec fn type_rows(p: Seq<PageTypeInfoEntry>) -> Seq<char>
    decreases p.len(),
{
    if p.len() == 0 {
        Seq::empty()
    } else {
        type_rows(p.drop_last()) + type_row(p.last())
    }
}

/// The free blocks of `/proc/pagetypeinfo`, in full.
pub open spec fn types_table(p: Seq<PageTypeInfoEntry>) -> Seq<char> {
    "  /proc/pagetypeinfo (free pages count per migrate type)\n\n"@
        + "  NODE  ZONE        TYPE          "@ + order_columns(type_orders(p)) + "\n"@ + type_rows(
        p,
    ) + "\n"@
}

/// The free blocks of `/proc/pagetypeinfo`, in full, and the summary of type `CMA`.
pub open spec fn types_text(p: Seq<PageTypeInfoEntry>) -> Seq<char> {
    types_table(p) + order_summary_text(
        "CMA migrate type summary (page size: 4 KiB):"@,
        cma_blocks(p),
    )
}

fn push_type_rows(out: &mut String, p: &Vec<PageTypeInfoEntry>)
    ensures
        final(out)@ == old(out)@ + type_rows(p@),
{
    let ghost start = out@;
    let mut i: usize = 0;
    assert(p@.take(0) =~= Seq::empty());
    while i < p.len()
        invariant
            i <= p@.len(),
            out@ == start + type_rows(p@.take(i as int)),
        decreases p@.len() - i,
    {
        assert(p@.take(i + 1).drop_last() =~= p@.take(i as int));
        assert(p@.take(i + 1).last() == p@[i as int]);
        let e: &PageTypeInfoEntry = &p[i];
        out.append("  ");
        push_pad_left(out, dec_string(e.node as u64).as_str(), 4);
        out.append("  ");
        push_pad_right(out, e.zone.as_str(), 11);
        out.append(" ");
        push_pad_right(out, e.page_type.as_str(), 14);
        push_count_columns(out, &e.free_counts);
        out.append("\n");
        i = i + 1;
    }
    assert(p@.take(p@.len() as int) =~= p@);
}

fn type_orders_of(p: &Vec<PageTypeInfoEntry>) -> (r: usize)
    ensures
        r == type_orders(p@),
{
    let mut orders: usize = 0;
    let mut i: usize = 0;
    assert(p@.take(0) =~= Seq::empty());
    while i < p.len()
        invariant
            i <= p@.len(),
            orders == type_orders(p@.take(i as int)),
        decreases p@.len() - i,
    {
        assert(p@.take(i + 1).drop_last() =~= p@.take(i as int));
        assert(p@.take(i + 1).last() == p@[i as int]);
        if p[i].free_counts.len() > orders {
            orders = p[i].free_counts.len();
        }
        i = i + 1;
    }
    assert(p@.take(p@.len() as int) =~= p@);
    orders
}

fn push_types_table(out: &mut String, p: &Vec<PageTypeInfoEntry>)
    ensures
        final(out)@ == old(out)@ + types_table(p@),
{
    out.append("  /proc/pagetypeinfo (free pages count per migrate type)\n\n");
    out.append("  NODE  ZONE        TYPE          ");
    push_order_columns(out, type_orders_of(p));
    out.append("\n");
    push_type_rows(out, p);
    out.append("\n");
}

fn push_types(out: &mut String, p: &Vec<PageTypeInfoEntry>)
    requires
        blocks_fit(cma_blocks(p@)),
    ensures
        final(out)@ == old(out)@ + types_text(p@),
{
    push_types_table(out, p);
    format_cma_migrate_summary(out, p.as_slice());
}

/// The section on fragmentation; nothing where neither file could be read.
pub open spec fn fragmentation_text(
    b: Option<Vec<BuddyInfoEntry>>,
    p: Option<Vec<PageTypeInfoEntry>>,
) -> Seq<char> {
    if b is None && p is None {
        Seq::empty()
    } else {
        "[Fragmentation]\n"@ + (match b {
            Some(v) => buddy_text(v@),
            None => Seq::empty(),
        }) + (match p {
            Some(v) => types_text(v@),
            None => Seq::empty(),
        })
    }
}

/// Appends the section on fragmentation.
pub fn push_fragmentation(
    out: &mut String,
    b: &Option<Vec<BuddyInfoEntry>>,
    p: &Option<Vec<PageTypeInfoEntry>>,
)
    requires
        *b matches Some(v) ==> blocks_fit(buddy_blocks(v@)),
        *p matches Some(v) ==> blocks_fit(cma_blocks(v@)),
    ensures
        final(out)@ == old(out)@ + fragmentation_text(*b, *p),
{
    if b.is_none() && p.is_none() {
        return ;
    }
    out.append("[Fragmentation]\n");
    match b {
        Some(v) => push_buddy(out, v),
        None => {},
    }
    match p {
        Some(v) => push_types(out, v),
        None => {},
    }
}

/// What is active of an area is what was allocated and not released, and the share of
/// failures is that among all allocations, to a tenth of a percent.
pub proof fn law_area_figures(a: CmaAreaStats) -> (tenths: nat)
    requires
        a.release_pages_success <= a.alloc_pages_success,
        0 < a.alloc_pages_success + a.alloc_pages_fail,
    ensures
        active_pages(a) + a.release_pages_success == a.alloc_pages_success,
        area_values(a) == seq![
            a.name@,
            dec(a.alloc_pages_success as nat),
            dec(a.alloc_pages_fail as nat),
            dec(a.release_pages_success as nat),
            dec((a.alloc_pages_success - a.release_pages_success) as nat),
            tenths_text(tenths) + "%"@,
        ],
        tenths * (a.alloc_pages_success + a.alloc_pages_fail) <= 1000 * a.alloc_pages_fail + (
        a.alloc_pages_success + a.alloc_pages_fail),
        1000 * a.alloc_pages_fail <= tenths * (a.alloc_pages_success + a.alloc_pages_fail) + (
        a.alloc_pages_success + a.alloc_pages_fail),
        a.alloc_pages_fail == 0 ==> tenths == 0,
        a.alloc_pages_success == 0 ==> tenths == 1000,
        area_header() == seq![
            "AREA"@,
            "ALLOC_OK"@,
            "ALLOC_FAIL"@,
            "RELEASED"@,
            "ACTIVE"@,
            "FAIL%"@,
        ],
{
    law_share_shown(
        a.alloc_pages_fail as nat,
        (a.alloc_pages_success + a.alloc_pages_fail) as nat,
    )
}

/// The summary of free blocks tells the free bytes, the largest block, and how many blocks
/// hold 64 KiB, of sixteen pages, and 2 MiB, of 512.
pub proof fn law_free_blocks_told(b: FreeBlocks)
    ensures
        order_header()[2] == "TOTAL FREE"@ && order_values(b)[2] == size_text(
            free_pages(b.counts) * 4096,
        ),
        order_header()[3] == "MAX BLOCK"@ && order_values(b)[3] == size_text(
            pow2(highest_order(b.counts)) * 4096,
        ),
        order_header()[4] == "BLK>=64K"@ && order_values(b)[4] == dec(blocks_from(b.counts, 4)),
        order_header()[5] == "BLK>=2M"@ && order_values(b)[5] == dec(blocks_from(b.counts, 9)),
        order_header()[0] == "NODE"@ && order_values(b)[0] == dec(b.node),
        order_header()[1] == "ZONE"@ && order_values(b)[1] == b.zone,
{
}

/// In the table of zones each figure stands below its name.
pub proof fn law_zone_figures_below_their_names(z: ZoneEntry)
    ensures
        zone_header()[0] == "NODE"@ && zone_values(z)[0] == dec(z.node as nat),
        zone_header()[1] == "ZONE"@ && zone_values(z)[1] == z.zone@,
        zone_header()[2] == "FREE"@ && zone_values(z)[2] == dec(z.free_pages as nat),
        zone_header()[3] == "MIN"@ && zone_values(z)[3] == dec(z.min_watermark as nat),
        zone_header()[4] == "LOW"@ && zone_values(z)[4] == dec(z.low_watermark as nat),
        zone_header()[5] == "HIGH"@ && zone_values(z)[5] == dec(z.high_watermark as nat),
        zone_header()[6] == "PROTECTION"@ && zone_values(z)[6] == join_numbers(z.protection@),
{
}

} // verus!
