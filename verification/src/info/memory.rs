//! The report's sections on pressure, memory and kernel settings.
use crate::double::{hundredths_text, push_hundredths, tenths_text};
use crate::info::format::{
    format_size_kb, law_share_grows, law_share_shown, pct, pct_text, push_ratio, ratio_text,
    size_text, MAX_KB,
};
use crate::info::types::{MemInfo, MemoryContext, PsiIo, PsiLine, PsiMemory, VmParams, VmStat};
use crate::number::{dec, dec_string, pad_left, pad_right, push_dec, push_pad_left, push_pad_right};
use crate::text::group_concat;
use vstd::prelude::*;

verus! {

broadcast use group_concat;

/// A pressure average, right-aligned in six characters.
pub open spec fn average_cell(hundredths: u64) -> Seq<char> {
    pad_left(hundredths_text(hundredths as nat), 6)
}

/// A line of pressure.
pub open spec fn psi_line_text(label: Seq<char>, l: PsiLine) -> Seq<char> {
    "  "@ + pad_right(label, 8) + " avg10="@ + average_cell(l.avg10) + "%  avg60="@ + average_cell(
        l.avg60,
    ) + "%  avg300="@ + average_cell(l.avg300) + "%  total="@ + dec(l.total as nat) + " us\n"@
}

fn push_average(out: &mut String, hundredths: u64)
    ensures
        final(out)@ == old(out)@ + average_cell(hundredths),
{
    let mut s = String::new();
    push_hundredths(&mut s, hundredths as u128);
    push_pad_left(out, s.as_str(), 6);
}

fn push_psi_line(out: &mut String, label: &str, l: &PsiLine)
    ensures
        final(out)@ == old(out)@ + psi_line_text(label@, *l),
{
    out.append("  ");
    push_pad_right(out, label, 8);
    out.append(" avg10=");
    push_average(out, l.avg10);
    out.append("%  avg60=");
    push_average(out, l.avg60);
    out.append("%  avg300=");
    push_average(out, l.avg300);
    out.append("%  total=");
    push_dec(out, l.total);
    out.append(" us\n");
}

/// The section on pressure; empty where neither file could be read.
pub open spec fn pressure_text(memory: Option<PsiMemory>, io: Option<PsiIo>) -> Seq<char> {
    if memory is None && io is None {
        Seq::empty()
    } else {
        "[Pressure]\n"@ + "  /proc/pressure/{memory,io}\n\n"@ + (match memory {
            Some(p) => psi_line_text("mem some"@, p.some) + psi_line_text("mem full"@, p.full),
            None => Seq::empty(),
        }) + (match io {
            Some(p) => psi_line_text("io  some"@, p.some) + psi_line_text("io  full"@, p.full),
            None => Seq::empty(),
        }) + "\n"@
    }
}

/// Appends the section on pressure.
pub fn push_pressure(out: &mut String, memory: &Option<PsiMemory>, io: &Option<PsiIo>)
    ensures
        final(out)@ == old(out)@ + pressure_text(*memory, *io),
{
    if memory.is_none() && io.is_none() {
        return ;
    }
    out.append("[Pressure]\n");
    out.append("  /proc/pressure/{memory,io}\n\n");
    match memory {
        Some(p) => {
            push_psi_line(out, "mem some", &p.some);
            push_psi_line(out, "mem full", &p.full);
        },
        None => {},
    }
    match io {
        Some(p) => {
            push_psi_line(out, "io  some", &p.some);
            push_psi_line(out, "io  full", &p.full);
        },
        None => {},
    }
    out.append("\n");
}

/// A size in kB, or a dash where it is not reported.
pub open spec fn kb_text(kb: Option<u64>) -> Seq<char> {
    match kb {
        Some(n) => size_text(n as nat * 1024),
        None => "-"@,
    }
}

/// Whether a size in kB, where it is reported, fits in bytes.
pub open spec fn kb_fits(kb: Option<u64>) -> bool {
    kb matches Some(n) ==> n <= MAX_KB
}

fn kb_string(kb: Option<u64>) -> (s: String)
    requires
        kb_fits(kb),
    ensures
        s@ == kb_text(kb),
{
    match kb {
        Some(n) => format_size_kb(n),
        None => "-".to_owned(),
    }
}

/// Three labels with a size each.
pub open spec fn triple_text(
    a: Seq<char>,
    x: Seq<char>,
    b: Seq<char>,
    y: Seq<char>,
    c: Seq<char>,
    z: Seq<char>,
) -> Seq<char> {
    "  "@ + pad_right(a, 14) + " "@ + pad_left(x, 10) + "    "@ + pad_right(b, 14) + " "@
        + pad_left(y, 10) + "    "@ + pad_right(c, 14) + " "@ + pad_left(z, 10) + "\n"@
}

fn push_triple(out: &mut String, a: &str, x: &str, b: &str, y: &str, c: &str, z: &str)
    ensures
        final(out)@ == old(out)@ + triple_text(a@, x@, b@, y@, c@, z@),
{
    out.append("  ");
    push_pad_right(out, a, 14);
    out.append(" ");
    push_pad_left(out, x, 10);
    out.append("    ");
    push_pad_right(out, b, 14);
    out.append(" ");
    push_pad_left(out, y, 10);
    out.append("    ");
    push_pad_right(out, c, 14);
    out.append(" ");
    push_pad_left(out, z, 10);
    out.append("\n");
}

/// Three labels with a size each, where at least one of them is to be shown.
pub open spec fn shown_triple(
    show: bool,
    a: Seq<char>,
    x: Option<u64>,
    b: Seq<char>,
    y: Option<u64>,
    c: Seq<char>,
    z: Option<u64>,
) -> Seq<char> {
    if show {
        triple_text(a, kb_text(x), b, kb_text(y), c, kb_text(z))
    } else {
        Seq::empty()
    }
}

fn push_shown_triple(
    out: &mut String,
    show: bool,
    a: &str,
    x: Option<u64>,
    b: &str,
    y: Option<u64>,
    c: &str,
    z: Option<u64>,
)
    requires
        kb_fits(x),
        kb_fits(y),
        kb_fits(z),
    ensures
        final(out)@ == old(out)@ + shown_triple(show, a@, x, b@, y, c@, z),
{
    if show {
        push_triple(
            out,
            a,
            kb_string(x).as_str(),
            b,
            kb_string(y).as_str(),
            c,
            kb_string(z).as_str(),
        );
    }
}

/// The lines on how memory is used.
pub open spec fn usage_text(m: MemInfo) -> Seq<char> {
    triple_text(
        "Total"@,
        size_text(m.mem_total_kb as nat * 1024),
        "Free"@,
        size_text(m.mem_free_kb as nat * 1024),
        "Available"@,
        size_text(m.mem_available_kb as nat * 1024),
    ) + shown_triple(
        m.buffers_kb is Some || m.cached_kb is Some || m.shmem_kb is Some,
        "Buffers"@,
        m.buffers_kb,
        "Cached"@,
        m.cached_kb,
        "Shmem"@,
        m.shmem_kb,
    ) + shown_triple(
        m.active_kb is Some || m.inactive_kb is Some || m.slab_kb is Some,
        "Active"@,
        m.active_kb,
        "Inactive"@,
        m.inactive_kb,
        "Slab"@,
        m.slab_kb,
    ) + shown_triple(
        m.anon_pages_kb is Some || m.mapped_kb is Some || m.dirty_kb is Some,
        "AnonPages"@,
        m.anon_pages_kb,
        "Mapped"@,
        m.mapped_kb,
        "Dirty"@,
        m.dirty_kb,
    ) + shown_triple(
        m.s_reclaimable_kb is Some || m.s_unreclaim_kb is Some,
        "SReclaimable"@,
        m.s_reclaimable_kb,
        "SUnreclaim"@,
        m.s_unreclaim_kb,
        "Writeback"@,
        m.writeback_kb,
    ) + "\n"@
}

/// Every reported size in kB fits in bytes.
pub open spec fn meminfo_fits(m: MemInfo) -> bool {
    &&& m.mem_total_kb <= MAX_KB
    &&& m.mem_free_kb <= MAX_KB
    &&& m.mem_available_kb <= MAX_KB
    &&& kb_fits(m.cma_total_kb)
    &&& kb_fits(m.cma_free_kb)
    &&& kb_fits(m.buffers_kb)
    &&& kb_fits(m.cached_kb)
    &&& kb_fits(m.active_kb)
    &&& kb_fits(m.inactive_kb)
    &&& kb_fits(m.shmem_kb)
    &&& kb_fits(m.slab_kb)
    &&& kb_fits(m.s_reclaimable_kb)
    &&& kb_fits(m.s_unreclaim_kb)
    &&& kb_fits(m.swap_total_kb)
    &&& kb_fits(m.swap_free_kb)
    &&& kb_fits(m.dirty_kb)
    &&& kb_fits(m.writeback_kb)
    &&& kb_fits(m.anon_pages_kb)
    &&& kb_fits(m.mapped_kb)
    &&& kb_fits(m.zswap_kb)
    &&& kb_fits(m.zswapped_kb)
}

fn push_usage(out: &mut String, m: &MemInfo)
    requires
        meminfo_fits(*m),
    ensures
        final(out)@ == old(out)@ + usage_text(*m),
{
    push_triple(
        out,
        "Total",
        format_size_kb(m.mem_total_kb).as_str(),
        "Free",
        format_size_kb(m.mem_free_kb).as_str(),
        "Available",
        format_size_kb(m.mem_available_kb).as_str(),
    );
    push_shown_triple(
        out,
        m.buffers_kb.is_some() || m.cached_kb.is_some() || m.shmem_kb.is_some(),
        "Buffers",
        m.buffers_kb,
        "Cached",
        m.cached_kb,
        "Shmem",
        m.shmem_kb,
    );
    push_shown_triple(
        out,
        m.active_kb.is_some() || m.inactive_kb.is_some() || m.slab_kb.is_some(),
        "Active",
        m.active_kb,
        "Inactive",
        m.inactive_kb,
        "Slab",
        m.slab_kb,
    );
    push_shown_triple(
        out,
        m.anon_pages_kb.is_some() || m.mapped_kb.is_some() || m.dirty_kb.is_some(),
        "AnonPages",
        m.anon_pages_kb,
        "Mapped",
        m.mapped_kb,
        "Dirty",
        m.dirty_kb,
    );
    push_shown_triple(
        out,
        m.s_reclaimable_kb.is_some() || m.s_unreclaim_kb.is_some(),
        "SReclaimable",
        m.s_reclaimable_kb,
        "SUnreclaim",
        m.s_unreclaim_kb,
        "Writeback",
        m.writeback_kb,
    );
    out.append("\n");
}

/// A difference that does not go below zero.
pub open spec fn less_by(a: u64, b: u64) -> nat {
    if a >= b {
        (a - b) as nat
    } else {
        0
    }
}

/// Two sizes and a remark.
pub open spec fn pair_text(
    a: Seq<char>,
    x: u64,
    b: Seq<char>,
    y: u64,
    remark: Seq<char>,
) -> Seq<char> {
    a + pad_left(size_text(x as nat * 1024), 10) + b + pad_left(size_text(y as nat * 1024), 10)
        + "   ("@ + remark + ")\n"@
}

fn push_pair(out: &mut String, a: &str, x: u64, b: &str, y: u64, remark: &str)
    requires
        x <= MAX_KB,
        y <= MAX_KB,
    ensures
        final(out)@ == old(out)@ + pair_text(a@, x, b@, y, remark@),
{
    out.append(a);
    push_pad_left(out, format_size_kb(x).as_str(), 10);
    out.append(b);
    push_pad_left(out, format_size_kb(y).as_str(), 10);
    out.append("   (");
    out.append(remark);
    out.append(")\n");
}

/// The line on swap.
pub open spec fn swap_text(m: MemInfo) -> Seq<char> {
    match (m.swap_total_kb, m.swap_free_kb) {
        (Some(total), Some(free)) => pair_text(
            "  Swap Total "@,
            total,
            "    Swap Free  "@,
            free,
            pct_text(less_by(total, free), total as nat) + " used"@,
        ),
        _ => Seq::empty(),
    }
}

/// How much larger the swapped pages are than the pool that holds them.
pub open spec fn zswap_ratio(pool: u64, orig: u64) -> Seq<char> {
    if pool > 0 {
        ratio_text(orig as nat, pool as nat) + "x"@
    } else {
        "N/A"@
    }
}

/// The line on compressed swap.
pub open spec fn zswap_text(m: MemInfo) -> Seq<char> {
    match (m.zswap_kb, m.zswapped_kb) {
        (Some(pool), Some(orig)) => pair_text(
            "  Zswap Pool "@,
            pool,
            "    Zswapped   "@,
            orig,
            zswap_ratio(pool, orig) + " ratio"@,
        ),
        _ => Seq::empty(),
    }
}

/// A counter, or a dash where it is not reported.
pub open spec fn counter_text(c: Option<u64>) -> Seq<char> {
    match c {
        Some(n) => dec(n as nat),
        None => "-"@,
    }
}

fn counter_string(c: Option<u64>) -> (s: String)
    ensures
        s@ == counter_text(c),
{
    match c {
        Some(n) => dec_string(n),
        None => "-".to_owned(),
    }
}

/// The lines on the contiguous memory area.
pub open spec fn cma_text(m: MemInfo, v: VmStat) -> Seq<char> {
    match (m.cma_total_kb, m.cma_free_kb) {
        (Some(total), Some(free)) => pair_text(
            "  CMA Total  "@,
            total,
            "    CMA Free   "@,
            free,
            pct_text(less_by(total, free), total as nat) + " used"@,
        ) + (if v.cma_alloc_success is Some || v.cma_alloc_fail is Some {
            "  CMA Alloc   ok: "@ + counter_text(v.cma_alloc_success) + "    fail: "@
                + counter_text(v.cma_alloc_fail) + "\n"@
        } else {
            Seq::empty()
        }),
        _ => Seq::empty(),
    }
}

fn push_swap(out: &mut String, m: &MemInfo)
    requires
        meminfo_fits(*m),
    ensures
        final(out)@ == old(out)@ + swap_text(*m),
{
    match (m.swap_total_kb, m.swap_free_kb) {
        (Some(total), Some(free)) => {
            let mut remark = pct(total.saturating_sub(free), total);
            remark.append(" used");
            push_pair(out, "  Swap Total ", total, "    Swap Free  ", free, remark.as_str());
        },
        _ => {},
    }
}

fn push_zswap(out: &mut String, m: &MemInfo)
    requires
        meminfo_fits(*m),
    ensures
        final(out)@ == old(out)@ + zswap_text(*m),
{
    match (m.zswap_kb, m.zswapped_kb) {
        (Some(pool), Some(orig)) => {
            let mut remark = String::new();
            if pool > 0 {
                push_ratio(&mut remark, orig, pool);
                remark.append("x");
            } else {
                remark.append("N/A");
            }
            remark.append(" ratio");
            push_pair(out, "  Zswap Pool ", pool, "    Zswapped   ", orig, remark.as_str());
        },
        _ => {},
    }
}

fn push_cma(out: &mut String, m: &MemInfo, v: &VmStat)
    requires
        meminfo_fits(*m),
    ensures
        final(out)@ == old(out)@ + cma_text(*m, *v),
{
    match (m.cma_total_kb, m.cma_free_kb) {
        (Some(total), Some(free)) => {
            let mut remark = pct(total.saturating_sub(free), total);
            remark.append(" used");
            push_pair(out, "  CMA Total  ", total, "    CMA Free   ", free, remark.as_str());
            if v.cma_alloc_success.is_some() || v.cma_alloc_fail.is_some() {
                out.append("  CMA Alloc   ok: ");
                out.append(counter_string(v.cma_alloc_success).as_str());
                out.append("    fail: ");
                out.append(counter_string(v.cma_alloc_fail).as_str());
                out.append("\n");
            }
        },
        _ => {},
    }
}

/// The line on the contiguous memory area tells its total and what is free of it, and the
/// share of the total that is not free, to a tenth of a percent: `0.0%` where all is free,
/// `100.0%` where nothing is.
pub proof fn law_cma_share_is_the_used_one(m: MemInfo, v: VmStat, total: u64, free: u64) -> (r: (
    nat,
    Seq<char>,
))
    requires
        m.cma_total_kb == Some(total),
        m.cma_free_kb == Some(free),
        0 < total,
        free <= total,
    ensures
        cma_text(m, v) == "  CMA Total  "@ + pad_left(size_text(total as nat * 1024), 10)
            + "    CMA Free   "@ + pad_left(size_text(free as nat * 1024), 10) + "   ("@
            + tenths_text(r.0) + "%"@ + " used"@ + ")\n"@ + r.1,
        r.0 * total <= 1000 * (total - free) + total,
        1000 * (total - free) <= r.0 * total + total,
        free == total ==> r.0 == 0,
        free == 0 ==> r.0 == 1000,
{
    let t = law_share_shown((total - free) as nat, total as nat);
    let rest = if v.cma_alloc_success is Some || v.cma_alloc_fail is Some {
        "  CMA Alloc   ok: "@ + counter_text(v.cma_alloc_success) + "    fail: "@ + counter_text(
            v.cma_alloc_fail,
        ) + "\n"@
    } else {
        Seq::empty()
    };
    (t, rest)
}

/// The line on swap tells its total and what is free of it, and the share of the total that
/// is not free, to a tenth of a percent.
pub proof fn law_swap_share_is_the_used_one(m: MemInfo, total: u64, free: u64) -> (tenths: nat)
    requires
        m.swap_total_kb == Some(total),
        m.swap_free_kb == Some(free),
        0 < total,
        free <= total,
    ensures
        swap_text(m) == "  Swap Total "@ + pad_left(size_text(total as nat * 1024), 10)
            + "    Swap Free  "@ + pad_left(size_text(free as nat * 1024), 10) + "   ("@
            + tenths_text(tenths) + "%"@ + " used"@ + ")\n"@,
        tenths * total <= 1000 * (total - free) + total,
        1000 * (total - free) <= tenths * total + total,
        free == total ==> tenths == 0,
        free == 0 ==> tenths == 1000,
{
    law_share_shown((total - free) as nat, total as nat)
}

/// The more of the area is free, the smaller is the used share that is shown, or it stays the
/// same.
pub proof fn law_cma_share_falls(m: MemInfo, n: MemInfo, v: VmStat, total: u64, free: u64, more: u64) -> (r:
    (nat, nat, Seq<char>, Seq<char>, Seq<char>))
    requires
        m.cma_total_kb == Some(total),
        n.cma_total_kb == Some(total),
        m.cma_free_kb == Some(free),
        n.cma_free_kb == Some(more),
        0 < total,
        free <= more <= total,
    ensures
        cma_text(m, v) == r.2 + "   ("@ + tenths_text(r.0) + "%"@ + " used"@ + r.4,
        cma_text(n, v) == r.3 + "   ("@ + tenths_text(r.1) + "%"@ + " used"@ + r.4,
        r.1 <= r.0,
{
    let t = law_share_grows((total - more) as nat, (total - free) as nat, total as nat);
    let rest = if v.cma_alloc_success is Some || v.cma_alloc_fail is Some {
        "  CMA Alloc   ok: "@ + counter_text(v.cma_alloc_success) + "    fail: "@ + counter_text(
            v.cma_alloc_fail,
        ) + "\n"@
    } else {
        Seq::empty()
    };
    let head = "  CMA Total  "@ + pad_left(size_text(total as nat * 1024), 10)
        + "    CMA Free   "@;
    let one = head + pad_left(size_text(free as nat * 1024), 10);
    let two = head + pad_left(size_text(more as nat * 1024), 10);
    let last = ")\n"@ + rest;
    assert(cma_text(m, v) =~= one + "   ("@ + tenths_text(t.1) + "%"@ + " used"@ + last);
    assert(cma_text(n, v) =~= two + "   ("@ + tenths_text(t.0) + "%"@ + " used"@ + last);
    (t.1, t.0, one, two, last)
}

/// A counter, zero where it is not reported.
pub open spec fn count_or_zero(c: Option<u64>) -> nat {
    match c {
        Some(n) => n as nat,
        None => 0,
    }
}

fn counter_or_zero(c: Option<u64>) -> (r: u64)
    ensures
        r == count_or_zero(c),
{
    match c {
        Some(n) => n,
        None => 0,
    }
}

/// A label and a counter, where it is reported.
pub open spec fn labelled(label: Seq<char>, c: Option<u64>, end: Seq<char>) -> Seq<char> {
    match c {
        Some(n) => label + dec(n as nat) + end,
        None => Seq::empty(),
    }
}

fn push_labelled(out: &mut String, label: &str, c: Option<u64>, end: &str)
    ensures
        final(out)@ == old(out)@ + labelled(label@, c, end@),
{
    match c {
        Some(n) => {
            out.append(label);
            push_dec(out, n);
            out.append(end);
        },
        None => {},
    }
}

/// The lines on compaction.
pub open spec fn compaction_text(v: VmStat) -> Seq<char> {
    if v.compact_stall is None {
        Seq::empty()
    } else {
        "  Compaction  stall: "@ + dec(count_or_zero(v.compact_stall)) + "  success: "@ + dec(
            count_or_zero(v.compact_success),
        ) + "  fail: "@ + dec(count_or_zero(v.compact_fail)) + "  ("@ + pct_text(
            count_or_zero(v.compact_success),
            count_or_zero(v.compact_stall),
        ) + " success rate)\n"@ + (if v.compact_isolated is Some
            || v.compactmigrate_scanned is Some {
            "              "@ + labelled("isolated: "@, v.compact_isolated, "  "@) + labelled(
                "migrate_scan: "@,
                v.compactmigrate_scanned,
                "  "@,
            ) + labelled("free_scan: "@, v.compactfree_scanned, "  "@) + labelled(
                "kcompactd: "@,
                v.kcompactd_wake,
                ""@,
            ) + "\n"@
        } else {
            Seq::empty()
        }) + "\n"@
    }
}

fn push_compaction(out: &mut String, v: &VmStat)
    ensures
        final(out)@ == old(out)@ + compaction_text(*v),
{
    if v.compact_stall.is_none() {
        return ;
    }
    let stall: u64 = counter_or_zero(v.compact_stall);
    let success: u64 = counter_or_zero(v.compact_success);
    out.append("  Compaction  stall: ");
    push_dec(out, stall);
    out.append("  success: ");
    push_dec(out, success);
    out.append("  fail: ");
    push_dec(out, counter_or_zero(v.compact_fail));
    out.append("  (");
    out.append(pct(success, stall).as_str());
    out.append(" success rate)\n");
    if v.compact_isolated.is_some() || v.compactmigrate_scanned.is_some() {
        out.append("              ");
        push_labelled(out, "isolated: ", v.compact_isolated, "  ");
        push_labelled(out, "migrate_scan: ", v.compactmigrate_scanned, "  ");
        push_labelled(out, "free_scan: ", v.compactfree_scanned, "  ");
        push_labelled(out, "kcompactd: ", v.kcompactd_wake, "");
        out.append("\n");
    }
    out.append("\n");
}

/// The line on one way of reclaiming pages.
pub open spec fn reclaim_line(label: Seq<char>, scan: Option<u64>, steal: Option<u64>) -> Seq<
    char,
> {
    match (scan, steal) {
        (Some(a), Some(b)) => label + pad_right(dec(a as nat), 10) + " steal: "@ + pad_right(
            dec(b as nat),
            10,
        ) + " ("@ + pct_text(b as nat, a as nat) + " efficiency)\n"@,
        _ => Seq::empty(),
    }
}

fn push_reclaim_line(out: &mut String, label: &str, scan: Option<u64>, steal: Option<u64>)
    ensures
        final(out)@ == old(out)@ + reclaim_line(label@, scan, steal),
{
    match (scan, steal) {
        (Some(a), Some(b)) => {
            out.append(label);
            push_pad_right(out, dec_string(a).as_str(), 10);
            out.append(" steal: ");
            push_pad_right(out, dec_string(b).as_str(), 10);
            out.append(" (");
            out.append(pct(b, a).as_str());
            out.append(" efficiency)\n");
        },
        _ => {},
    }
}

/// The lines on reclaim.
pub open spec fn reclaim_text(v: VmStat) -> Seq<char> {
    if v.pgscan_direct is None && v.pgscan_kswapd is None {
        Seq::empty()
    } else {
        "  Reclaim\n"@ + reclaim_line("    direct    scan: "@, v.pgscan_direct, v.pgsteal_direct)
            + reclaim_line("    kswapd    scan: "@, v.pgscan_kswapd, v.pgsteal_kswapd) + (
        if v.allocstall_normal is Some || v.allocstall_movable is Some {
            "    stalls    normal: "@ + dec(count_or_zero(v.allocstall_normal)) + "  movable: "@
                + dec(count_or_zero(v.allocstall_movable)) + "\n"@
        } else {
            Seq::empty()
        }) + labelled("    oom_kill: "@, v.oom_kill, "\n"@) + "\n"@
    }
}

fn push_reclaim(out: &mut String, v: &VmStat)
    ensures
        final(out)@ == old(out)@ + reclaim_text(*v),
{
    if v.pgscan_direct.is_none() && v.pgscan_kswapd.is_none() {
        return ;
    }
    out.append("  Reclaim\n");
    push_reclaim_line(out, "    direct    scan: ", v.pgscan_direct, v.pgsteal_direct);
    push_reclaim_line(out, "    kswapd    scan: ", v.pgscan_kswapd, v.pgsteal_kswapd);
    if v.allocstall_normal.is_some() || v.allocstall_movable.is_some() {
        out.append("    stalls    normal: ");
        push_dec(out, counter_or_zero(v.allocstall_normal));
        out.append("  movable: ");
        push_dec(out, counter_or_zero(v.allocstall_movable));
        out.append("\n");
    }
    push_labelled(out, "    oom_kill: ", v.oom_kill, "\n");
    out.append("\n");
}

/// The lines on migration.
pub open spec fn migration_text(v: VmStat) -> Seq<char> {
    if v.pgmigrate_success is None && v.pgmigrate_fail is None {
        Seq::empty()
    } else {
        let ok = count_or_zero(v.pgmigrate_success);
        let fail = count_or_zero(v.pgmigrate_fail);
        "  Migration   ok: "@ + dec(ok) + "  fail: "@ + dec(fail) + "  ("@ + pct_text(
            ok,
            ok + fail,
        ) + " success rate)\n"@ + "\n"@
    }
}

fn push_migration(out: &mut String, v: &VmStat)
    requires
        count_or_zero(v.pgmigrate_success) + count_or_zero(v.pgmigrate_fail) <= u64::MAX,
    ensures
        final(out)@ == old(out)@ + migration_text(*v),
{
    if v.pgmigrate_success.is_none() && v.pgmigrate_fail.is_none() {
        return ;
    }
    let ok: u64 = counter_or_zero(v.pgmigrate_success);
    let fail: u64 = counter_or_zero(v.pgmigrate_fail);
    out.append("  Migration   ok: ");
    push_dec(out, ok);
    out.append("  fail: ");
    push_dec(out, fail);
    out.append("  (");
    out.append(pct(ok, ok + fail).as_str());
    out.append(" success rate)\n");
    out.append("\n");
}

/// The rate behind the counters of compaction is that of the successes among the stalls.
pub proof fn law_compaction_rate(v: VmStat, stall: u64, success: u64) -> (r: (
    nat,
    Seq<char>,
    Seq<char>,
))
    requires
        v.compact_stall == Some(stall),
        v.compact_success == Some(success),
        0 < stall,
        success <= stall,
    ensures
        compaction_text(v) == "  Compaction  stall: "@ + dec(stall as nat) + "  success: "@ + dec(
            success as nat,
        ) + r.1 + "  ("@ + tenths_text(r.0) + "%"@ + " success rate)\n"@ + r.2,
        r.0 * stall <= 1000 * success + stall,
        1000 * success <= r.0 * stall + stall,
        success == stall ==> r.0 == 1000,
        success == 0 ==> r.0 == 0,
{
    let t = law_share_shown(success as nat, stall as nat);
    let rest = (if v.compact_isolated is Some || v.compactmigrate_scanned is Some {
        "              "@ + labelled("isolated: "@, v.compact_isolated, "  "@) + labelled(
            "migrate_scan: "@,
            v.compactmigrate_scanned,
            "  "@,
        ) + labelled("free_scan: "@, v.compactfree_scanned, "  "@) + labelled(
            "kcompactd: "@,
            v.kcompactd_wake,
            ""@,
        ) + "\n"@
    } else {
        Seq::empty()
    }) + "\n"@;
    (t, "  fail: "@ + dec(count_or_zero(v.compact_fail)), rest)
}

/// The efficiency of reclaim is the share of the scanned pages that were stolen.
pub proof fn law_reclaim_efficiency(label: Seq<char>, scan: u64, steal: u64) -> (tenths: nat)
    requires
        0 < scan,
        steal <= scan,
    ensures
        reclaim_line(label, Some(scan), Some(steal)) == label + pad_right(dec(scan as nat), 10)
            + " steal: "@ + pad_right(dec(steal as nat), 10) + " ("@ + tenths_text(tenths) + "%"@
            + " efficiency)\n"@,
        tenths * scan <= 1000 * steal + scan,
        1000 * steal <= tenths * scan + scan,
        steal == scan ==> tenths == 1000,
        steal == 0 ==> tenths == 0,
{
    law_share_shown(steal as nat, scan as nat)
}

/// The lines on reclaim tell of direct reclaim and of the reclaim in the background, each
/// with its own counters.
pub proof fn law_reclaim_told(v: VmStat) -> (rest: Seq<char>)
    requires
        v.pgscan_direct is Some,
        v.pgsteal_direct is Some,
        v.pgscan_kswapd is Some,
        v.pgsteal_kswapd is Some,
    ensures
        reclaim_text(v) == "  Reclaim\n"@ + reclaim_line(
            "    direct    scan: "@,
            Some(v.pgscan_direct->0),
            Some(v.pgsteal_direct->0),
        ) + reclaim_line(
            "    kswapd    scan: "@,
            Some(v.pgscan_kswapd->0),
            Some(v.pgsteal_kswapd->0),
        ) + rest,
{
    (if v.allocstall_normal is Some || v.allocstall_movable is Some {
        "    stalls    normal: "@ + dec(count_or_zero(v.allocstall_normal)) + "  movable: "@ + dec(
            count_or_zero(v.allocstall_movable),
        ) + "\n"@
    } else {
        Seq::empty()
    }) + labelled("    oom_kill: "@, v.oom_kill, "\n"@) + "\n"@
}

/// The rate behind the counters of migration is that of the successes among all.
pub proof fn law_migration_rate(v: VmStat, ok: u64, fail: u64) -> (tenths: nat)
    requires
        v.pgmigrate_success == Some(ok),
        v.pgmigrate_fail == Some(fail),
        0 < ok + fail,
    ensures
        migration_text(v) == "  Migration   ok: "@ + dec(ok as nat) + "  fail: "@ + dec(
            fail as nat,
        ) + "  ("@ + tenths_text(tenths) + "%"@ + " success rate)\n"@ + "\n"@,
        tenths * (ok + fail) <= 1000 * ok + (ok + fail),
        1000 * ok <= tenths * (ok + fail) + (ok + fail),
        fail == 0 ==> tenths == 1000,
        ok == 0 ==> tenths == 0,
{
    law_share_shown(ok as nat, (ok + fail) as nat)
}

/// The section on memory.
pub open spec fn memory_text(memory: Option<MemoryContext>) -> Seq<char> {
    match memory {
        Some(c) => "[Memory]\n"@ + "  /proc/meminfo + /proc/vmstat\n\n"@ + usage_text(c.meminfo)
            + swap_text(c.meminfo) + zswap_text(c.meminfo) + cma_text(c.meminfo, c.vmstat) + "\n"@
            + compaction_text(c.vmstat) + reclaim_text(c.vmstat) + migration_text(c.vmstat),
        None => "[Memory]\n"@ + "  (not available on this platform)\n\n"@,
    }
}

/// Every figure of the memory section fits its machine integer.
pub open spec fn memory_fits(memory: Option<MemoryContext>) -> bool {
    memory matches Some(c) ==> meminfo_fits(c.meminfo) && count_or_zero(c.vmstat.pgmigrate_success)
        + count_or_zero(c.vmstat.pgmigrate_fail) <= u64::MAX
}

/// Appends the section on memory.
pub fn push_memory(out: &mut String, memory: &Option<MemoryContext>)
    requires
        memory_fits(*memory),
    ensures
        final(out)@ == old(out)@ + memory_text(*memory),
{
    match memory {
        Some(c) => {
            out.append("[Memory]\n");
            out.append("  /proc/meminfo + /proc/vmstat\n\n");
            push_usage(out, &c.meminfo);
            push_swap(out, &c.meminfo);
            push_zswap(out, &c.meminfo);
            push_cma(out, &c.meminfo, &c.vmstat);
            out.append("\n");
            push_compaction(out, &c.vmstat);
            push_reclaim(out, &c.vmstat);
            push_migration(out, &c.vmstat);
        },
        None => {
            out.append("[Memory]\n");
            out.append("  (not available on this platform)\n\n");
        },
    }
}

/// A kernel setting, where it could be read.
pub open spec fn param_line(name: Seq<char>, value: Option<u64>) -> Seq<char> {
    match value {
        Some(n) => "  "@ + pad_right(name, 26) + " "@ + pad_left(dec(n as nat), 8) + "\n"@,
        None => Seq::empty(),
    }
}

fn push_param(out: &mut String, name: &str, value: Option<u64>)
    ensures
        final(out)@ == old(out)@ + param_line(name@, value),
{
    match value {
        Some(n) => {
            out.append("  ");
            push_pad_right(out, name, 26);
            out.append(" ");
            push_pad_left(out, dec_string(n).as_str(), 8);
            out.append("\n");
        },
        None => {},
    }
}

/// The section on kernel settings.
pub open spec fn params_text(p: VmParams) -> Seq<char> {
    "[VM Parameters]\n"@ + "  /proc/sys/vm/\n\n"@ + param_line(
        "min_free_kbytes"@,
        p.min_free_kbytes,
    ) + param_line("watermark_scale_factor"@, p.watermark_scale_factor) + param_line(
        "swappiness"@,
        p.swappiness,
    ) + param_line("compact_unevictable"@, p.compact_unevictable_allowed) + "\n"@
}

/// Appends the section on kernel settings.
pub fn push_params(out: &mut String, p: &VmParams)
    ensures
        final(out)@ == old(out)@ + params_text(*p),
{
    out.append("[VM Parameters]\n");
    out.append("  /proc/sys/vm/\n\n");
    push_param(out, "min_free_kbytes", p.min_free_kbytes);
    push_param(out, "watermark_scale_factor", p.watermark_scale_factor);
    push_param(out, "swappiness", p.swappiness);
    push_param(out, "compact_unevictable", p.compact_unevictable_allowed);
    out.append("\n");
}

} // verus!
