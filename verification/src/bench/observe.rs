//! What is told of free memory while buffers come and go.
use crate::double::{of_int, product, quotient, scaled, tenths_text, Double};
use crate::info::types::{BuddyInfoEntry, PageTypeInfoEntry};
use crate::number::{dec, push_dec};
use crate::procfs::{pages_above_order, pages_from};
use crate::text::{group_concat, same_string};
use vstd::prelude::*;

verus! {

/// The smallest order of the blocks whose pages are counted.
pub const HIGH_ORDER: usize = 4;

/// What is told of a zone's free pages.
pub open spec fn buddy_line(label: Seq<char>, e: BuddyInfoEntry) -> Seq<char> {
    "fragmentation: buddyinfo label="@ + label + " node="@ + dec(e.node as nat) + " zone="@
        + e.zone@ + " high_order_free="@ + dec(pages_from(e.free_counts@, HIGH_ORDER as int))
        + "\n"@
}

/// What is told of the free pages of all zones.
pub open spec fn buddy_text(label: Seq<char>, v: Seq<BuddyInfoEntry>) -> Seq<char>
    decreases v.len(),
{
    if v.len() == 0 {
        Seq::empty()
    } else {
        buddy_text(label, v.drop_last()) + buddy_line(label, v.last())
    }
}

fn push_buddy_line(out: &mut String, label: &str, e: &BuddyInfoEntry)
    requires
        pages_from(e.free_counts@, HIGH_ORDER as int) <= u64::MAX,
    ensures
        final(out)@ == old(out)@ + buddy_line(label@, *e),
{
    broadcast use group_concat;

    out.append("fragmentation: buddyinfo label=");
    out.append(label);
    out.append(" node=");
    push_dec(out, e.node as u64);
    out.append(" zone=");
    out.append(e.zone.as_str());
    out.append(" high_order_free=");
    push_dec(out, pages_above_order(e.free_counts.as_slice(), HIGH_ORDER));
    out.append("\n");
}

/// What is told of the free pages of all zones.
pub fn buddyinfo_summary(label: &str, entries: &[BuddyInfoEntry]) -> (s: String)
    requires
        forall|i: int|
            0 <= i < entries@.len() ==> pages_from(
                (#[trigger] entries@[i]).free_counts@,
                HIGH_ORDER as int,
            ) <= u64::MAX,
    ensures
        s@ == buddy_text(label@, entries@),
{
    let mut s = String::new();
    let mut i: usize = 0;
    assert(entries@.take(0) =~= Seq::empty());
    while i < entries.len()
        invariant
            i <= entries@.len(),
            forall|i: int|
                0 <= i < entries@.len() ==> pages_from(
                    (#[trigger] entries@[i]).free_counts@,
                    HIGH_ORDER as int,
                ) <= u64::MAX,
            s@ == buddy_text(label@, entries@.take(i as int)),
        decreases entries@.len() - i,
    {
        push_buddy_line(&mut s, label, &entries[i]);
        assert(entries@.take(i + 1).drop_last() =~= entries@.take(i as int));
        i = i + 1;
    }
    assert(entries@.take(entries@.len() as int) =~= entries@);
    s
}

/// Whether pages of a type are told of.
pub open spec fn is_told(page_type: Seq<char>) -> bool {
    page_type == "CMA"@ || page_type == "Movable"@ || page_type == "Unmovable"@
}

/// What is told of a type's free pages in a zone.
pub open spec fn page_type_line(label: Seq<char>, e: PageTypeInfoEntry) -> Seq<char> {
    "fragmentation: pagetypeinfo label="@ + label + " node="@ + dec(e.node as nat) + " zone="@
        + e.zone@ + " page_type="@ + e.page_type@ + " high_order_free="@ + dec(
        pages_from(e.free_counts@, HIGH_ORDER as int),
    ) + "\n"@
}

/// What is told of the free pages by type.
pub open spec fn page_type_text(label: Seq<char>, v: Seq<PageTypeInfoEntry>) -> Seq<char>
    decreases v.len(),
{
    if v.len() == 0 {
        Seq::empty()
    } else {
        page_type_text(label, v.drop_last()) + if is_told(v.last().page_type@) {
            page_type_line(label, v.last())
        } else {
            Seq::empty()
        }
    }
}

fn push_page_type_line(out: &mut String, label: &str, e: &PageTypeInfoEntry)
    requires
        pages_from(e.free_counts@, HIGH_ORDER as int) <= u64::MAX,
    ensures
        final(out)@ == old(out)@ + page_type_line(label@, *e),
{
    broadcast use group_concat;

    out.append("fragmentation: pagetypeinfo label=");
    out.append(label);
    out.append(" node=");
    push_dec(out, e.node as u64);
    out.append(" zone=");
    out.append(e.zone.as_str());
    out.append(" page_type=");
    out.append(e.page_type.as_str());
    out.append(" high_order_free=");
    push_dec(out, pages_above_order(e.free_counts.as_slice(), HIGH_ORDER));
    out.append("\n");
}

/// What is told of the free pages by type: contiguous, movable and unmovable.
pub fn pagetypeinfo_summary(label: &str, entries: &[PageTypeInfoEntry]) -> (s: String)
    requires
        forall|i: int|
            0 <= i < entries@.len() ==> pages_from(
                (#[trigger] entries@[i]).free_counts@,
                HIGH_ORDER as int,
            ) <= u64::MAX,
    ensures
        s@ == page_type_text(label@, entries@),
{
    let mut s = String::new();
    let mut i: usize = 0;
    assert(entries@.take(0) =~= Seq::empty());
    while i < entries.len()
        invariant
            i <= entries@.len(),
            forall|i: int|
                0 <= i < entries@.len() ==> pages_from(
                    (#[trigger] entries@[i]).free_counts@,
                    HIGH_ORDER as int,
                ) <= u64::MAX,
            s@ == page_type_text(label@, entries@.take(i as int)),
        decreases entries@.len() - i,
    {
        let ghost before = s@;
        let t: &str = entries[i].page_type.as_str();
        if same_string(t, "CMA") || same_string(t, "Movable") || same_string(t, "Unmovable") {
            push_page_type_line(&mut s, label, &entries[i]);
        } else {
            assert(before + Seq::<char>::empty() =~= before);
        }
        assert(entries@.take(i + 1).drop_last() =~= entries@.take(i as int));
        i = i + 1;
    }
    assert(entries@.take(entries@.len() as int) =~= entries@);
    s
}

/// The way in which half of the buffers are released, as it is told.
pub open spec fn release_text(pattern: Seq<char>) -> Seq<char> {
    if pattern == "sequential"@ {
        "                           alloc 100 mixed -> free first half -> realloc 32KB -> cleanup\n"@
    } else {
        "                           alloc 100 mixed -> free even indices -> realloc 32KB -> cleanup\n"@
    }
}

/// What is told before the observation of fragmentation.
pub fn fragmentation_sequence(heap: &str, pattern: &str) -> (s: String)
    ensures
        s@ == "fragmentation sequence:\n  heap: "@ + heap@ + "\n  pattern: "@ + pattern@
            + "\n\n  1. buddyinfo_track      snapshot /proc/buddyinfo before/after 100x1MB alloc/free\n                           -> high_order_free before vs after\n  2. interleave_pattern    4-phase fragmentation inducer:\n"@
            + release_text(pattern@)
            + "                           -> released, reallocated, buddyinfo per phase\n  3. pagetypeinfo_track    snapshot /proc/pagetypeinfo before/during/after 50x1MB cycle\n                           -> CMA/Movable/Unmovable high-order counts\n\nfragmentation result legend:\n  high_order_free   free pages at order >= 4 (higher = less fragmented)\n  released          buffers freed in pattern phase\n  reallocated       successful reallocs after release\n  page_type         migration type (CMA/Movable/Unmovable)\n\n"@,
{
    broadcast use group_concat;

    let mut s = String::new();
    s.append("fragmentation sequence:\n  heap: ");
    s.append(heap);
    s.append("\n  pattern: ");
    s.append(pattern);
    s.append(
        "\n\n  1. buddyinfo_track      snapshot /proc/buddyinfo before/after 100x1MB alloc/free\n                           -> high_order_free before vs after\n  2. interleave_pattern    4-phase fragmentation inducer:\n",
    );
    if same_string(pattern, "sequential") {
        s.append(
            "                           alloc 100 mixed -> free first half -> realloc 32KB -> cleanup\n",
        );
    } else {
        s.append(
            "                           alloc 100 mixed -> free even indices -> realloc 32KB -> cleanup\n",
        );
    }
    s.append(
        "                           -> released, reallocated, buddyinfo per phase\n  3. pagetypeinfo_track    snapshot /proc/pagetypeinfo before/during/after 50x1MB cycle\n                           -> CMA/Movable/Unmovable high-order counts\n\nfragmentation result legend:\n  high_order_free   free pages at order >= 4 (higher = less fragmented)\n  released          buffers freed in pattern phase\n  reallocated       successful reallocs after release\n  page_type         migration type (CMA/Movable/Unmovable)\n\n",
    );
    s
}

/// What is told before the tests of fences.
pub fn sync_file_sequence(heap: &str) -> (s: String)
    ensures
        s@ == "sync_file sequence:\n  heap: "@ + heap@
            + "\n\n  1. export           alloc -> sync_file_create -> verify fd >= 0\n  2. import           export -> sync_file_import -> verify fd >= 0\n\nsync_file result legend:\n  sync_fd    exported sync_file descriptor\n  import_fd  imported sync_file descriptor\n\n"@,
{
    broadcast use group_concat;

    let mut s = String::new();
    s.append("sync_file sequence:\n  heap: ");
    s.append(heap);
    s.append(
        "\n\n  1. export           alloc -> sync_file_create -> verify fd >= 0\n  2. import           export -> sync_file_import -> verify fd >= 0\n\nsync_file result legend:\n  sync_fd    exported sync_file descriptor\n  import_fd  imported sync_file descriptor\n\n",
    );
    s
}

/// How much of released memory came back, in percent to one decimal. Memory that
/// shrank meanwhile counts as none.
pub fn recovery_pct(before_kb: u64, after_kb: u64, expected_kb: u64) -> (s: String)
    ensures
        s@ == tenths_text(
            if expected_kb > 0 {
                scaled(
                    product(
                        quotient(
                            of_int(
                                if after_kb >= before_kb {
                                    (after_kb - before_kb) as nat
                                } else {
                                    0
                                },
                            ),
                            of_int(expected_kb as nat),
                        ),
                        of_int(100),
                    ),
                    10,
                )
            } else {
                0
            },
        ),
{
    broadcast use group_concat;

    let mut s = String::new();
    if expected_kb > 0 {
        let freed: u64 = after_kb.saturating_sub(before_kb);
        Double::from_int(freed).divided_by(Double::from_int(expected_kb)).times(
            Double::from_int(100),
        ).push_one_decimal(&mut s);
    } else {
        crate::double::push_tenths(&mut s, 0);
    }
    s
}

} // verus!
