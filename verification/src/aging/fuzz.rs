//! What a fuzzing worker may do, and how it chooses.
use crate::backend::ioctl::{DMA_BUF_SYNC_READ, DMA_BUF_SYNC_RW, DMA_BUF_SYNC_WRITE};
use crate::info::types::HeapCaps;
use crate::random::{draw_byte, draw_choice, draw_index, draw_weight};
use rand::rngs::SmallRng;
use vstd::prelude::*;

verus! {

/// The sizes to allocate, at and around page and order boundaries.
pub const FUZZ_SIZES: [u64; 9] = [
    1,
    4095,
    4096,
    4097,
    65535,
    65536,
    65537,
    1_048_576,
    8_388_608,
];

/// What to do with a buffer.
#[derive(Debug, Clone, Copy, PartialEq, Eq, Structural)]
pub enum Pipeline {
    AllocClose,
    AllocMmapClose,
    PartialMmap,
    WriteOnly,
    WriteReadVerify,
    WriteNoSync,
    DoubleMmap,
    DupAndOperate,
    LlseekAfterWrite,
    SyncFileRoundtrip,
    AllocHold,
}

/// What to fill a buffer with.
#[derive(Debug, Clone, Copy, PartialEq, Eq, Structural)]
pub enum WritePattern {
    Zero,
    AllOnes,
    Pattern(u8),
}

/// How often a pipeline is chosen, relative to the others; 0 where the heap cannot do
/// it.
pub open spec fn weight(caps: HeapCaps, p: Pipeline) -> nat {
    match p {
        Pipeline::AllocClose => 10,
        Pipeline::AllocHold => 20,
        Pipeline::AllocMmapClose | Pipeline::PartialMmap => if caps.can_mmap {
            5
        } else {
            0
        },
        Pipeline::WriteOnly | Pipeline::WriteReadVerify => if caps.can_mmap && caps.can_write {
            15
        } else {
            0
        },
        Pipeline::WriteNoSync | Pipeline::DoubleMmap => if caps.can_mmap && caps.can_write {
            5
        } else {
            0
        },
        Pipeline::DupAndOperate => if caps.can_dup {
            5
        } else {
            0
        },
        Pipeline::LlseekAfterWrite => if caps.can_llseek && caps.can_mmap && caps.can_write {
            5
        } else {
            0
        },
        Pipeline::SyncFileRoundtrip => if caps.can_sync_file {
            5
        } else {
            0
        },
    }
}

/// A table that lists a pipeline with its weight, or leaves it out at weight zero.
pub open spec fn entry(caps: HeapCaps, p: Pipeline) -> Seq<(Pipeline, u32)> {
    if weight(caps, p) == 0 {
        Seq::empty()
    } else {
        seq![(p, weight(caps, p) as u32)]
    }
}

/// The pipelines that a heap can do, with their weights.
pub open spec fn weighted_table(caps: HeapCaps) -> Seq<(Pipeline, u32)> {
    entry(caps, Pipeline::AllocClose) + entry(caps, Pipeline::AllocHold) + entry(
        caps,
        Pipeline::AllocMmapClose,
    ) + entry(caps, Pipeline::PartialMmap) + entry(caps, Pipeline::WriteOnly) + entry(
        caps,
        Pipeline::WriteReadVerify,
    ) + entry(caps, Pipeline::WriteNoSync) + entry(caps, Pipeline::DoubleMmap) + entry(
        caps,
        Pipeline::DupAndOperate,
    ) + entry(caps, Pipeline::LlseekAfterWrite) + entry(caps, Pipeline::SyncFileRoundtrip)
}

/// The weights of a table in all.
pub open spec fn total_weight(table: Seq<(Pipeline, u32)>) -> nat
    decreases table.len(),
{
    if table.len() == 0 {
        0
    } else {
        total_weight(table.drop_last()) + table.last().1 as nat
    }
}

fn push_entry(table: &mut Vec<(Pipeline, u32)>, p: Pipeline, weight: u32)
    ensures
        final(table)@ == old(table)@ + seq![(p, weight)],
{
    let ghost start = table@;
    table.push((p, weight));
    assert(table@ =~= start + seq![(p, weight)]);
}

/// The pipelines that a heap can do, with their weights.
pub fn build_weighted_table(caps: &HeapCaps) -> (table: Vec<(Pipeline, u32)>)
    ensures
        table@ == weighted_table(*caps),
{
    let mut table: Vec<(Pipeline, u32)> = Vec::new();
    push_entry(&mut table, Pipeline::AllocClose, 10);
    push_entry(&mut table, Pipeline::AllocHold, 20);
    if caps.can_mmap {
        push_entry(&mut table, Pipeline::AllocMmapClose, 5);
        push_entry(&mut table, Pipeline::PartialMmap, 5);
    }
    if caps.can_mmap && caps.can_write {
        push_entry(&mut table, Pipeline::WriteOnly, 15);
        push_entry(&mut table, Pipeline::WriteReadVerify, 15);
        push_entry(&mut table, Pipeline::WriteNoSync, 5);
        push_entry(&mut table, Pipeline::DoubleMmap, 5);
    }
    if caps.can_dup {
        push_entry(&mut table, Pipeline::DupAndOperate, 5);
    }
    if caps.can_llseek && caps.can_mmap && caps.can_write {
        push_entry(&mut table, Pipeline::LlseekAfterWrite, 5);
    }
    if caps.can_sync_file {
        push_entry(&mut table, Pipeline::SyncFileRoundtrip, 5);
    }
    assert(table@ =~= weighted_table(*caps));
    table
}

/// Where a number falls when the weights of a table are laid end to end: the index of
/// the entry, or the length of the table where it falls behind.
pub open spec fn slot(table: Seq<(Pipeline, u32)>, val: nat) -> int
    decreases table.len(),
{
    if table.len() == 0 || val < table[0].1 {
        0
    } else {
        1 + slot(table.skip(1), (val - table[0].1) as nat)
    }
}

/// The pipeline that a number falls to.
pub open spec fn picked(table: Seq<(Pipeline, u32)>, val: nat) -> Pipeline {
    let i = slot(table, val);
    if i < table.len() {
        table[i].0
    } else {
        Pipeline::AllocClose
    }
}

/// The pipeline that a number falls to.
pub fn pick(table: &[(Pipeline, u32)], val: u32) -> (p: Pipeline)
    ensures
        p == picked(table@, val as nat),
{
    let mut left: u32 = val;
    let mut i: usize = 0;
    assert(table@.skip(0) =~= table@);
    while i < table.len()
        invariant
            i <= table@.len(),
            slot(table@, val as nat) == i + slot(table@.skip(i as int), left as nat),
        decreases table@.len() - i,
    {
        let (p, w) = table[i];
        if left < w {
            return p;
        }
        proof {
            assert(table@.skip(i as int).skip(1) =~= table@.skip(i + 1));
        }
        left = left - w;
        i = i + 1;
    }
    Pipeline::AllocClose
}

proof fn lemma_weight_grows(table: Seq<(Pipeline, u32)>, n: int)
    requires
        0 <= n <= table.len(),
    ensures
        total_weight(table.take(n)) <= total_weight(table),
    decreases table.len() - n,
{
    if n == table.len() {
        assert(table.take(n) =~= table);
    } else {
        lemma_weight_grows(table, n + 1);
        assert(table.take(n + 1).drop_last() =~= table.take(n));
    }
}

/// Chooses a pipeline of a table at random: one that some number below the total
/// weight falls to, or the plainest where all weights are zero.
pub fn select_pipeline(table: &[(Pipeline, u32)], rng: &mut SmallRng) -> (p: Pipeline)
    requires
        total_weight(table@) <= u32::MAX,
    ensures
        total_weight(table@) == 0 ==> p == Pipeline::AllocClose,
        total_weight(table@) > 0 ==> exists|val: nat|
            val < total_weight(table@) && p == #[trigger] picked(table@, val),
{
    let mut total: u32 = 0;
    let mut i: usize = 0;
    assert(table@.take(0) =~= Seq::empty());
    while i < table.len()
        invariant
            i <= table@.len(),
            total_weight(table@) <= u32::MAX,
            total == total_weight(table@.take(i as int)),
        decreases table@.len() - i,
    {
        proof {
            lemma_weight_grows(table@, i + 1);
            assert(table@.take(i + 1).drop_last() =~= table@.take(i as int));
        }
        total = total + table[i].1;
        i = i + 1;
    }
    assert(table@.take(table@.len() as int) =~= table@);
    if total == 0 {
        return Pipeline::AllocClose;
    }
    let val: u32 = draw_weight(rng, 0, total);
    pick(table, val)
}

/// The pattern of a choice among three.
pub open spec fn pattern_of(choice: u8, byte: u8) -> WritePattern {
    if choice == 0 {
        WritePattern::Zero
    } else if choice == 1 {
        WritePattern::AllOnes
    } else {
        WritePattern::Pattern(byte)
    }
}

/// Chooses a pattern at random.
pub fn random_write_pattern(rng: &mut SmallRng) -> (p: WritePattern)
    ensures
        exists|choice: u8, byte: u8| choice < 3 && p == #[trigger] pattern_of(choice, byte),
{
    let choice: u8 = draw_choice(rng, 0, 3);
    if choice == 0 {
        assert(pattern_of(0, 0) == WritePattern::Zero);
        WritePattern::Zero
    } else if choice == 1 {
        assert(pattern_of(1, 0) == WritePattern::AllOnes);
        WritePattern::AllOnes
    } else {
        let byte: u8 = draw_byte(rng);
        assert(pattern_of(2, byte) == WritePattern::Pattern(byte));
        WritePattern::Pattern(byte)
    }
}

/// The direction of a choice among three.
pub open spec fn direction_of(choice: u8) -> u64 {
    if choice == 0 {
        DMA_BUF_SYNC_READ
    } else if choice == 1 {
        DMA_BUF_SYNC_WRITE
    } else {
        DMA_BUF_SYNC_RW
    }
}

/// Chooses a direction at random.
pub fn random_sync_flags(rng: &mut SmallRng) -> (flags: u64)
    ensures
        exists|choice: u8| choice < 3 && flags == #[trigger] direction_of(choice),
{
    let choice: u8 = draw_choice(rng, 0, 3);
    let flags: u64 = if choice == 0 {
        DMA_BUF_SYNC_READ
    } else if choice == 1 {
        DMA_BUF_SYNC_WRITE
    } else {
        DMA_BUF_SYNC_RW
    };
    assert(flags == direction_of(choice));
    flags
}

/// The byte that a pattern fills with.
pub open spec fn byte_of(pat: WritePattern) -> u8 {
    match pat {
        WritePattern::Zero => 0x00,
        WritePattern::AllOnes => 0xff,
        WritePattern::Pattern(b) => b,
    }
}

/// The byte that a pattern fills with.
pub fn pattern_byte(pat: WritePattern) -> (b: u8)
    ensures
        b == byte_of(pat),
{
    match pat {
        WritePattern::Zero => 0x00,
        WritePattern::AllOnes => 0xff,
        WritePattern::Pattern(b) => b,
    }
}

/// A size, capped where there is a cap.
pub open spec fn capped(size: u64, cap: Option<u64>) -> u64 {
    match cap {
        Some(max) => if size > max {
            max
        } else {
            size
        },
        None => size,
    }
}

/// Caps a size.
pub fn capped_size(size: u64, cap: Option<u64>) -> (r: u64)
    ensures
        r == capped(size, cap),
{
    match cap {
        Some(max) => if size > max {
            max
        } else {
            size
        },
        None => size,
    }
}

/// Chooses a size at random.
pub fn random_size(rng: &mut SmallRng) -> (size: u64)
    ensures
        FUZZ_SIZES@.contains(size),
{
    let i: usize = draw_index(rng, 0, 9);
    let size: u64 = FUZZ_SIZES[i];
    assert(FUZZ_SIZES@[i as int] == size);
    size
}

proof fn lemma_slot_in_range(table: Seq<(Pipeline, u32)>, val: nat)
    requires
        val < total_weight(table),
    ensures
        0 <= slot(table, val) < table.len(),
        table[slot(table, val)].1 > 0,
    decreases table.len(),
{
    if val < table[0].1 {
    } else {
        lemma_weight_split(table);
        let rest = table.skip(1);
        let left = (val - table[0].1) as nat;
        lemma_slot_in_range(rest, left);
        assert(rest[slot(rest, left)] == table[slot(table, val)]);
    }
}

proof fn lemma_weight_split(table: Seq<(Pipeline, u32)>)
    requires
        table.len() > 0,
    ensures
        total_weight(table) == table[0].1 + total_weight(table.skip(1)),
    decreases table.len(),
{
    if table.len() == 1 {
        assert(table.skip(1) =~= Seq::empty());
        assert(table.drop_last() =~= Seq::empty());
    } else {
        lemma_weight_split(table.drop_last());
        assert(table.drop_last().skip(1) =~= table.skip(1).drop_last());
        assert(table.drop_last()[0] == table[0]);
        assert(table.skip(1).last() == table.last());
    }
}

proof fn lemma_slot_reaches(table: Seq<(Pipeline, u32)>, i: int)
    requires
        0 <= i < table.len(),
        table[i].1 > 0,
    ensures
        exists|val: nat| val < total_weight(table) && #[trigger] slot(table, val) == i,
    decreases table.len(),
{
    lemma_weight_split(table);
    if i == 0 {
        assert(slot(table, 0) == 0);
    } else {
        lemma_slot_reaches(table.skip(1), i - 1);
        let v = choose|val: nat|
            val < total_weight(table.skip(1)) && #[trigger] slot(table.skip(1), val) == i - 1;
        assert(slot(table, (v + table[0].1) as nat) == i);
    }
}

/// A pipeline is chosen for some number below the total weight if and only if it is in
/// the table with a weight above zero.
pub proof fn law_every_pipeline_can_be_chosen(table: Seq<(Pipeline, u32)>, p: Pipeline)
    ensures
        (exists|val: nat| val < total_weight(table) && #[trigger] picked(table, val) == p) <==> (
        exists|i: int| 0 <= i < table.len() && (#[trigger] table[i]).0 == p && table[i].1 > 0),
{
    if exists|val: nat| val < total_weight(table) && #[trigger] picked(table, val) == p {
        let val = choose|val: nat| val < total_weight(table) && #[trigger] picked(table, val) == p;
        lemma_slot_in_range(table, val);
        assert(table[slot(table, val)].0 == p);
    }
    if exists|i: int| 0 <= i < table.len() && (#[trigger] table[i]).0 == p && table[i].1 > 0 {
        let i = choose|i: int|
            0 <= i < table.len() && (#[trigger] table[i]).0 == p && table[i].1 > 0;
        lemma_slot_reaches(table, i);
        let val = choose|val: nat| val < total_weight(table) && #[trigger] slot(table, val) == i;
        assert(picked(table, val) == p);
    }
}

proof fn lemma_total_of_entry(t: Seq<(Pipeline, u32)>, caps: HeapCaps, p: Pipeline)
    ensures
        total_weight(t + entry(caps, p)) == total_weight(t) + weight(caps, p),
{
    if weight(caps, p) == 0 {
        assert(t + entry(caps, p) =~= t);
    } else {
        assert((t + entry(caps, p)).drop_last() =~= t);
    }
}

/// The table of a heap has between 30 and 95 parts of weight, so that something can
/// always be chosen.
pub proof fn law_table_weight(caps: HeapCaps)
    ensures
        30 <= total_weight(weighted_table(caps)) <= 95,
{
    let t0 = entry(caps, Pipeline::AllocClose);
    assert(Seq::<(Pipeline, u32)>::empty() + t0 =~= t0);
    lemma_total_of_entry(Seq::empty(), caps, Pipeline::AllocClose);
    let t1 = t0 + entry(caps, Pipeline::AllocHold);
    lemma_total_of_entry(t0, caps, Pipeline::AllocHold);
    let t2 = t1 + entry(caps, Pipeline::AllocMmapClose);
    lemma_total_of_entry(t1, caps, Pipeline::AllocMmapClose);
    let t3 = t2 + entry(caps, Pipeline::PartialMmap);
    lemma_total_of_entry(t2, caps, Pipeline::PartialMmap);
    let t4 = t3 + entry(caps, Pipeline::WriteOnly);
    lemma_total_of_entry(t3, caps, Pipeline::WriteOnly);
    let t5 = t4 + entry(caps, Pipeline::WriteReadVerify);
    lemma_total_of_entry(t4, caps, Pipeline::WriteReadVerify);
    let t6 = t5 + entry(caps, Pipeline::WriteNoSync);
    lemma_total_of_entry(t5, caps, Pipeline::WriteNoSync);
    let t7 = t6 + entry(caps, Pipeline::DoubleMmap);
    lemma_total_of_entry(t6, caps, Pipeline::DoubleMmap);
    let t8 = t7 + entry(caps, Pipeline::DupAndOperate);
    lemma_total_of_entry(t7, caps, Pipeline::DupAndOperate);
    let t9 = t8 + entry(caps, Pipeline::LlseekAfterWrite);
    lemma_total_of_entry(t8, caps, Pipeline::LlseekAfterWrite);
    lemma_total_of_entry(t9, caps, Pipeline::SyncFileRoundtrip);
}

/// A capped size is no larger than the size or the cap, and is one of them.
pub proof fn law_capped(size: u64, cap: Option<u64>)
    ensures
        capped(size, cap) <= size,
        cap matches Some(max) ==> capped(size, cap) <= max,
        capped(size, cap) == size || cap == Some(capped(size, cap)),
        cap is None ==> capped(size, cap) == size,
{
}

/// A pipeline is only chosen on a heap that can do all that it needs.
pub proof fn law_pipelines_need_their_capabilities(caps: HeapCaps)
    ensures
        !caps.can_mmap ==> weight(caps, Pipeline::AllocMmapClose) == 0 && weight(
            caps,
            Pipeline::PartialMmap,
        ) == 0 && weight(caps, Pipeline::WriteOnly) == 0 && weight(
            caps,
            Pipeline::WriteReadVerify,
        ) == 0 && weight(caps, Pipeline::WriteNoSync) == 0 && weight(caps, Pipeline::DoubleMmap)
            == 0 && weight(caps, Pipeline::LlseekAfterWrite) == 0,
        !caps.can_write ==> weight(caps, Pipeline::WriteOnly) == 0 && weight(
            caps,
            Pipeline::WriteReadVerify,
        ) == 0 && weight(caps, Pipeline::LlseekAfterWrite) == 0,
        !caps.can_dup ==> weight(caps, Pipeline::DupAndOperate) == 0,
        !caps.can_llseek ==> weight(caps, Pipeline::LlseekAfterWrite) == 0,
        !caps.can_sync_file ==> weight(caps, Pipeline::SyncFileRoundtrip) == 0,
        caps.can_mmap && caps.can_write ==> weight(caps, Pipeline::WriteReadVerify) > 0,
        weight(caps, Pipeline::AllocHold) > weight(caps, Pipeline::AllocClose) > 0,
{
}

/// How many of the first numbers choose an entry of a table.
pub open spec fn chosen_by(table: Seq<(Pipeline, u32)>, n: nat, i: int) -> nat
    decreases n,
{
    if n == 0 {
        0
    } else {
        chosen_by(table, (n - 1) as nat, i) + if slot(table, (n - 1) as nat) == i {
            1nat
        } else {
            0nat
        }
    }
}

proof fn lemma_slot(table: Seq<(Pipeline, u32)>, val: nat, i: int)
    requires
        0 <= i < table.len(),
    ensures
        slot(table, val) == i <==> total_weight(table.take(i)) <= val < total_weight(
            table.take(i + 1),
        ),
        slot(table, val) >= 0,
    decreases table.len(),
{
    let rest = table.skip(1);
    let first = table[0].1 as nat;
    lemma_total_front(table, i + 1);
    if i > 0 {
        lemma_total_front(table, i);
        if val >= first {
            lemma_slot(rest, (val - first) as nat, i - 1);
            assert(rest.take(i) =~= table.take(i + 1).skip(1));
            assert(rest.take(i - 1) =~= table.take(i).skip(1));
        }
    } else {
        assert(table.take(0) =~= Seq::empty());
        assert(table.take(1).skip(1) =~= Seq::empty());
        if val >= first && rest.len() > 0 {
            lemma_slot(rest, (val - first) as nat, 0);
        }
    }
}

proof fn lemma_total_front(table: Seq<(Pipeline, u32)>, n: int)
    requires
        0 < n <= table.len(),
    ensures
        total_weight(table.take(n)) == table[0].1 + total_weight(table.take(n).skip(1)),
    decreases n,
{
    let t = table.take(n);
    if n == 1 {
        assert(t.drop_last() =~= Seq::empty());
        assert(t.skip(1) =~= Seq::empty());
        assert(total_weight(t.drop_last()) == 0);
    } else {
        lemma_total_front(table, n - 1);
        assert(t.drop_last() =~= table.take(n - 1));
        assert(t.skip(1).drop_last() =~= table.take(n - 1).skip(1));
        assert(t.skip(1).last() == t.last());
    }
}

/// Over all numbers below the total weight, each pipeline is chosen as often as its weight
/// says.
pub proof fn law_chosen_by_weight(table: Seq<(Pipeline, u32)>, n: nat, i: int)
    requires
        0 <= i < table.len(),
        n <= total_weight(table),
    ensures
        n >= total_weight(table.take(i + 1)) ==> chosen_by(table, n, i) == table[i].1,
        n <= total_weight(table.take(i)) ==> chosen_by(table, n, i) == 0,
        total_weight(table.take(i)) <= n <= total_weight(table.take(i + 1)) ==> chosen_by(
            table,
            n,
            i,
        ) == n - total_weight(table.take(i)),
    decreases n,
{
    assert(table.take(i + 1).drop_last() =~= table.take(i));
    assert(table.take(i + 1).last() == table[i]);
    if n > 0 {
        law_chosen_by_weight(table, (n - 1) as nat, i);
        lemma_slot(table, (n - 1) as nat, i);
    }
}

} // verus!
