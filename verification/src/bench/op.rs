//! The operations that can be measured one by one.
use crate::backend::ioctl::{
    DMA_BUF_SYNC_END, DMA_BUF_SYNC_READ, DMA_BUF_SYNC_RW, DMA_BUF_SYNC_START, DMA_BUF_SYNC_WRITE,
};
use crate::info::types::{strings, HeapCaps};
use crate::number::{dec, dec_string};
use crate::size::{human_size, short_size};
use crate::stats::LatencyStats;
use crate::text::{
    chars_of, group_concat, is_text, split, split_at_char, string_of, texts, trim, trimmed,
};
use vstd::prelude::*;

verus! {

/// An operation to measure.
#[derive(Debug, Clone, Copy, PartialEq, Eq, Structural)]
pub enum Op {
    Alloc,
    Mmap,
    Munmap,
    SyncStartW,
    SyncEndW,
    SyncStartR,
    SyncEndR,
    SyncStartRw,
    SyncEndRw,
    Close,
    Dup,
    Llseek,
    ExportSyncFile,
    ImportSyncFile,
    Pipeline,
}

/// The name of an operation.
pub open spec fn op_name(op: Op) -> Seq<char> {
    match op {
        Op::Alloc => "alloc"@,
        Op::Mmap => "mmap"@,
        Op::Munmap => "munmap"@,
        Op::SyncStartW => "sync_start_w"@,
        Op::SyncEndW => "sync_end_w"@,
        Op::SyncStartR => "sync_start_r"@,
        Op::SyncEndR => "sync_end_r"@,
        Op::SyncStartRw => "sync_start_rw"@,
        Op::SyncEndRw => "sync_end_rw"@,
        Op::Close => "close"@,
        Op::Dup => "dup"@,
        Op::Llseek => "llseek"@,
        Op::ExportSyncFile => "export_sync_file"@,
        Op::ImportSyncFile => "import_sync_file"@,
        Op::Pipeline => "pipeline"@,
    }
}

/// All operations in the order in which they are run.
pub open spec fn all_ops() -> Seq<Op> {
    seq![
        Op::Alloc,
        Op::Mmap,
        Op::Munmap,
        Op::SyncStartW,
        Op::SyncEndW,
        Op::SyncStartR,
        Op::SyncEndR,
        Op::SyncStartRw,
        Op::SyncEndRw,
        Op::Close,
        Op::Dup,
        Op::Llseek,
        Op::ExportSyncFile,
        Op::ImportSyncFile,
        Op::Pipeline,
    ]
}

/// Where a name stands among operations, or their number.
pub open spec fn name_position(ops: Seq<Op>, name: Seq<char>) -> int
    decreases ops.len(),
{
    if ops.len() == 0 || op_name(ops[0]) == name {
        0
    } else {
        1 + name_position(ops.skip(1), name)
    }
}

/// The operation of a name, if it is one.
pub open spec fn op_of(name: Seq<char>) -> Option<Op> {
    let i = name_position(all_ops(), name);
    if i < all_ops().len() {
        Some(all_ops()[i])
    } else {
        None
    }
}

/// The operations that names stand for, or the first name that stands for none.
pub open spec fn ops_of(names: Seq<Seq<char>>) -> Result<Seq<Op>, Seq<char>>
    decreases names.len(),
{
    if names.len() == 0 {
        Ok(Seq::empty())
    } else {
        match ops_of(names.drop_last()) {
            Err(e) => Err(e),
            Ok(v) => match op_of(trim(names.last())) {
                Some(op) => Ok(v.push(op)),
                None => Err("unknown op: "@ + trim(names.last())),
            },
        }
    }
}

impl Op {
    /// The name of the operation.
    pub fn name(self) -> (s: &'static str)
        ensures
            s@ == op_name(self),
    {
        match self {
            Op::Alloc => "alloc",
            Op::Mmap => "mmap",
            Op::Munmap => "munmap",
            Op::SyncStartW => "sync_start_w",
            Op::SyncEndW => "sync_end_w",
            Op::SyncStartR => "sync_start_r",
            Op::SyncEndR => "sync_end_r",
            Op::SyncStartRw => "sync_start_rw",
            Op::SyncEndRw => "sync_end_rw",
            Op::Close => "close",
            Op::Dup => "dup",
            Op::Llseek => "llseek",
            Op::ExportSyncFile => "export_sync_file",
            Op::ImportSyncFile => "import_sync_file",
            Op::Pipeline => "pipeline",
        }
    }

    /// All operations in the order in which they are run.
    pub fn all() -> (v: Vec<Op>)
        ensures
            v@ == all_ops(),
    {
        let v = vec![
            Op::Alloc,
            Op::Mmap,
            Op::Munmap,
            Op::SyncStartW,
            Op::SyncEndW,
            Op::SyncStartR,
            Op::SyncEndR,
            Op::SyncStartRw,
            Op::SyncEndRw,
            Op::Close,
            Op::Dup,
            Op::Llseek,
            Op::ExportSyncFile,
            Op::ImportSyncFile,
            Op::Pipeline,
        ];
        assert(v@ =~= all_ops());
        v
    }

    fn find(name: &[char]) -> (r: Option<Op>)
        ensures
            r == op_of(name@),
    {
        let ops = Op::all();
        let mut i: usize = 0;
        assert(all_ops().skip(0) =~= all_ops());
        while i < ops.len()
            invariant
                i <= ops@.len(),
                ops@ == all_ops(),
                name_position(all_ops(), name@) == i + name_position(
                    all_ops().skip(i as int),
                    name@,
                ),
            decreases ops@.len() - i,
        {
            if is_text(name, ops[i].name()) {
                return Some(ops[i]);
            }
            proof {
                assert(all_ops().skip(i as int).skip(1) =~= all_ops().skip(i + 1));
            }
            i = i + 1;
        }
        None
    }

    /// Reads names with commas between them.
    pub fn parse_list(s: &str) -> (r: Result<Vec<Op>, String>)
        ensures
            match r {
                Ok(v) => ops_of(split(s@, ',')) == Ok::<Seq<Op>, Seq<char>>(v@),
                Err(e) => ops_of(split(s@, ',')) == Err::<Seq<Op>, Seq<char>>(e@),
            },
    {
        broadcast use group_concat;
        let chars = chars_of(s);
        let names = split_at_char(chars.as_slice(), ',');
        let ghost all = texts(names@);
        let mut v: Vec<Op> = Vec::new();
        let mut i: usize = 0;
        assert(all.take(0) =~= Seq::empty());
        assert(v@ =~= Seq::empty());
        while i < names.len()
            invariant
                i <= names@.len(),
                all == texts(names@),
                all == split(s@, ','),
                ops_of(all.take(i as int)) == Ok::<Seq<Op>, Seq<char>>(v@),
            decreases names@.len() - i,
        {
            let name = trimmed(names[i]);
            proof {
                assert(all.take(i + 1).drop_last() =~= all.take(i as int));
                assert(all.take(i + 1).last() == names@[i as int]@);
            }
            match Op::find(name) {
                Some(op) => v.push(op),
                None => {
                    let mut e = String::new();
                    e.append("unknown op: ");
                    let t = string_of(name);
                    e.append(t.as_str());
                    proof {
                        lemma_ops_stop(all, i + 1);
                    }
                    return Err(e);
                },
            }
            i = i + 1;
        }
        assert(all.take(all.len() as int) =~= all);
        Ok(v)
    }
}

proof fn lemma_ops_stop(names: Seq<Seq<char>>, n: int)
    requires
        0 <= n <= names.len(),
        ops_of(names.take(n)) is Err,
    ensures
        ops_of(names) == ops_of(names.take(n)),
    decreases names.len(),
{
    if n == names.len() {
        assert(names.take(n) =~= names);
    } else {
        let front = names.drop_last();
        assert(front.take(n) =~= names.take(n));
        lemma_ops_stop(front, n);
    }
}

/// The name of an operation stands for it, and for no other.
pub proof fn law_names_are_distinct(op: Op)
    ensures
        op_of(op_name(op)) == Some(op),
{
    lemma_name_lens();
    lemma_positions(op);
}

proof fn lemma_name_lens()
    ensures
        forall|a: Op, b: Op| #[trigger] op_name(a) == #[trigger] op_name(b) ==> a == b,
{
    reveal_strlit("alloc");
    reveal_strlit("mmap");
    reveal_strlit("munmap");
    reveal_strlit("sync_start_w");
    reveal_strlit("sync_end_w");
    reveal_strlit("sync_start_r");
    reveal_strlit("sync_end_r");
    reveal_strlit("sync_start_rw");
    reveal_strlit("sync_end_rw");
    reveal_strlit("close");
    reveal_strlit("dup");
    reveal_strlit("llseek");
    reveal_strlit("export_sync_file");
    reveal_strlit("import_sync_file");
    reveal_strlit("pipeline");
    assert forall|a: Op, b: Op| #[trigger] op_name(a) == #[trigger] op_name(b) implies a == b by {
        let s = op_name(a);
        let t = op_name(b);
        assert(s.len() == t.len());
        assert(s[0] == t[0]);
        assert(s[1] == t[1]);
        assert(s[s.len() - 1] == t[t.len() - 1]);
    }
}

spec fn op_index(op: Op) -> int {
    match op {
        Op::Alloc => 0,
        Op::Mmap => 1,
        Op::Munmap => 2,
        Op::SyncStartW => 3,
        Op::SyncEndW => 4,
        Op::SyncStartR => 5,
        Op::SyncEndR => 6,
        Op::SyncStartRw => 7,
        Op::SyncEndRw => 8,
        Op::Close => 9,
        Op::Dup => 10,
        Op::Llseek => 11,
        Op::ExportSyncFile => 12,
        Op::ImportSyncFile => 13,
        Op::Pipeline => 14,
    }
}

proof fn lemma_position_at(ops: Seq<Op>, i: int)
    requires
        0 <= i < ops.len(),
        forall|j: int, k: int| 0 <= j < k < ops.len() ==> ops[j] != ops[k],
        forall|a: Op, b: Op| #[trigger] op_name(a) == #[trigger] op_name(b) ==> a == b,
    ensures
        name_position(ops, op_name(ops[i])) == i,
    decreases ops.len(),
{
    if i > 0 {
        assert(ops[0] != ops[i]);
        let rest = ops.skip(1);
        assert forall|j: int, k: int| 0 <= j < k < rest.len() implies rest[j] != rest[k] by {
            assert(ops[j + 1] != ops[k + 1]);
        }
        assert(rest[i - 1] == ops[i]);
        lemma_position_at(rest, i - 1);
    }
}

proof fn lemma_positions(op: Op)
    requires
        forall|a: Op, b: Op| #[trigger] op_name(a) == #[trigger] op_name(b) ==> a == b,
    ensures
        op_of(op_name(op)) == Some(op),
{
    let ops = all_ops();
    assert(ops[op_index(op)] == op);
    assert forall|j: int, k: int| 0 <= j < k < ops.len() implies ops[j] != ops[k] by {
        assert(op_index(ops[j]) == j);
        assert(op_index(ops[k]) == k);
    }
    lemma_position_at(ops, op_index(op));
}

/// All operations are listed, each once.
pub proof fn law_all_ops_listed(op: Op)
    ensures
        all_ops().contains(op),
        all_ops().no_duplicates(),
{
    let ops = all_ops();
    assert(ops[op_index(op)] == op);
    assert forall|j: int, k: int| 0 <= j < ops.len() && 0 <= k < ops.len() && j != k implies ops[j]
        != ops[k] by {
        assert(op_index(ops[j]) == j);
        assert(op_index(ops[k]) == k);
    }
}

/// The flags of a synchronisation to measure, and of the one that undoes it.
pub open spec fn flags_of(op: Op) -> Option<(u64, u64)> {
    match op {
        Op::SyncStartW => Some(
            (DMA_BUF_SYNC_START | DMA_BUF_SYNC_WRITE, DMA_BUF_SYNC_END | DMA_BUF_SYNC_WRITE),
        ),
        Op::SyncEndW => Some(
            (DMA_BUF_SYNC_END | DMA_BUF_SYNC_WRITE, DMA_BUF_SYNC_START | DMA_BUF_SYNC_WRITE),
        ),
        Op::SyncStartR => Some(
            (DMA_BUF_SYNC_START | DMA_BUF_SYNC_READ, DMA_BUF_SYNC_END | DMA_BUF_SYNC_READ),
        ),
        Op::SyncEndR => Some(
            (DMA_BUF_SYNC_END | DMA_BUF_SYNC_READ, DMA_BUF_SYNC_START | DMA_BUF_SYNC_READ),
        ),
        Op::SyncStartRw => Some(
            (DMA_BUF_SYNC_START | DMA_BUF_SYNC_RW, DMA_BUF_SYNC_END | DMA_BUF_SYNC_RW),
        ),
        Op::SyncEndRw => Some(
            (DMA_BUF_SYNC_END | DMA_BUF_SYNC_RW, DMA_BUF_SYNC_START | DMA_BUF_SYNC_RW),
        ),
        _ => None,
    }
}

/// Whether a heap can do an operation.
pub open spec fn can_do(op: Op, caps: HeapCaps) -> bool {
    match op {
        Op::Alloc | Op::Close => true,
        Op::Dup => caps.can_dup,
        Op::Llseek => caps.can_llseek,
        Op::ExportSyncFile | Op::ImportSyncFile => caps.can_sync_file,
        _ => caps.can_mmap,
    }
}

impl Op {
    /// Whether a heap can do the operation; where not, it is left out.
    pub fn supported(self, caps: &HeapCaps) -> (r: bool)
        ensures
            r == can_do(self, *caps),
    {
        match self {
            Op::Alloc | Op::Close => true,
            Op::Dup => caps.can_dup,
            Op::Llseek => caps.can_llseek,
            Op::ExportSyncFile | Op::ImportSyncFile => caps.can_sync_file,
            _ => caps.can_mmap,
        }
    }

    /// The flags of a synchronisation to measure, and of the one that undoes it; none
    /// for an operation of another sort.
    pub fn sync_flags(self) -> (r: Option<(u64, u64)>)
        ensures
            r == flags_of(self),
    {
        match self {
            Op::SyncStartW => Some(
                (DMA_BUF_SYNC_START | DMA_BUF_SYNC_WRITE, DMA_BUF_SYNC_END | DMA_BUF_SYNC_WRITE),
            ),
            Op::SyncEndW => Some(
                (DMA_BUF_SYNC_END | DMA_BUF_SYNC_WRITE, DMA_BUF_SYNC_START | DMA_BUF_SYNC_WRITE),
            ),
            Op::SyncStartR => Some(
                (DMA_BUF_SYNC_START | DMA_BUF_SYNC_READ, DMA_BUF_SYNC_END | DMA_BUF_SYNC_READ),
            ),
            Op::SyncEndR => Some(
                (DMA_BUF_SYNC_END | DMA_BUF_SYNC_READ, DMA_BUF_SYNC_START | DMA_BUF_SYNC_READ),
            ),
            Op::SyncStartRw => Some(
                (DMA_BUF_SYNC_START | DMA_BUF_SYNC_RW, DMA_BUF_SYNC_END | DMA_BUF_SYNC_RW),
            ),
            Op::SyncEndRw => Some(
                (DMA_BUF_SYNC_END | DMA_BUF_SYNC_RW, DMA_BUF_SYNC_START | DMA_BUF_SYNC_RW),
            ),
            _ => None,
        }
    }

    /// The name under which the operation's outcome is reported.
    pub fn test_name(self) -> (s: String)
        ensures
            s@ == "microbench::"@ + op_name(self),
    {
        broadcast use group_concat;
        let mut s = String::new();
        s.append("microbench::");
        s.append(self.name());
        s
    }
}

/// What to measure on a heap.
pub struct MicrobenchConfig {
    pub ops: Vec<Op>,
    pub sizes: Vec<u64>,
    pub iterations: u32,
    pub warmup: u32,
    pub heap_w: usize,
}

/// The row of a size in the table of an operation.
pub open spec fn op_row(size: nat, st: LatencyStats) -> Seq<Seq<char>> {
    seq![
        short_size(size),
        dec(st.avg_us as nat),
        dec(st.stddev_us as nat),
        dec(st.p50_us as nat),
        dec(st.p95_us as nat),
        dec(st.p99_us as nat),
        dec(st.p99_9_us as nat),
        dec(st.throughput_ops as nat),
    ]
}

/// The row of a size in the table of an operation.
pub fn size_row(size: u64, st: &LatencyStats) -> (v: Vec<String>)
    ensures
        strings(v@) == op_row(size as nat, *st),
{
    let mut v: Vec<String> = Vec::new();
    v.push(human_size(size));
    v.push(dec_string(st.avg_us));
    v.push(dec_string(st.stddev_us));
    v.push(dec_string(st.p50_us));
    v.push(dec_string(st.p95_us));
    v.push(dec_string(st.p99_us));
    v.push(dec_string(st.p99_9_us));
    v.push(dec_string(st.throughput_ops));
    assert(strings(v@) =~= op_row(size as nat, *st));
    v
}

proof fn lemma_name_trimmed(op: Op)
    ensures
        trim(op_name(op)) == op_name(op),
{
    reveal_strlit("alloc");
    reveal_strlit("mmap");
    reveal_strlit("munmap");
    reveal_strlit("sync_start_w");
    reveal_strlit("sync_end_w");
    reveal_strlit("sync_start_r");
    reveal_strlit("sync_end_r");
    reveal_strlit("sync_start_rw");
    reveal_strlit("sync_end_rw");
    reveal_strlit("close");
    reveal_strlit("dup");
    reveal_strlit("llseek");
    reveal_strlit("export_sync_file");
    reveal_strlit("import_sync_file");
    reveal_strlit("pipeline");
    let s = op_name(op);
    assert(!crate::text::is_white(s[0]));
    assert(!crate::text::is_white(s[s.len() - 1]));
}

/// The names of operations.
pub open spec fn op_names(ops: Seq<Op>) -> Seq<Seq<char>> {
    Seq::new(ops.len(), |i: int| op_name(ops[i]))
}

/// Reading the names of operations gives the operations.
pub proof fn law_names_read_back(ops: Seq<Op>)
    ensures
        ops_of(op_names(ops)) == Ok::<Seq<Op>, Seq<char>>(ops),
    decreases ops.len(),
{
    if ops.len() == 0 {
        assert(ops =~= Seq::empty());
    } else {
        law_names_read_back(ops.drop_last());
        assert(op_names(ops).drop_last() =~= op_names(ops.drop_last()));
        lemma_name_trimmed(ops.last());
        law_names_are_distinct(ops.last());
        assert(ops.drop_last().push(ops.last()) =~= ops);
    }
}

/// An operation that starts an access is timed with the flags of a start and followed by the
/// end of the same access, and one that ends an access the other way round.
pub proof fn law_accesses_start_and_end()
    ensures
        flags_of(Op::SyncStartW) == Some((2u64, 6u64)),
        flags_of(Op::SyncEndW) == Some((6u64, 2u64)),
        flags_of(Op::SyncStartR) == Some((1u64, 5u64)),
        flags_of(Op::SyncEndR) == Some((5u64, 1u64)),
        flags_of(Op::SyncStartRw) == Some((3u64, 7u64)),
        flags_of(Op::SyncEndRw) == Some((7u64, 3u64)),
{
    assert(0u64 | 2 == 2 && 4u64 | 2 == 6 && 0u64 | 1 == 1 && 4u64 | 1 == 5 && 0u64 | 3 == 3
        && 4u64 | 3 == 7) by (bit_vector);
}

/// An operation is left out only where the heap lacks what it needs.
pub proof fn law_operations_need_their_capabilities(caps: HeapCaps)
    ensures
        can_do(Op::Alloc, caps) && can_do(Op::Close, caps),
        can_do(Op::Dup, caps) <==> caps.can_dup,
        can_do(Op::Llseek, caps) <==> caps.can_llseek,
        can_do(Op::ExportSyncFile, caps) <==> caps.can_sync_file,
        can_do(Op::ImportSyncFile, caps) <==> caps.can_sync_file,
        can_do(Op::Mmap, caps) <==> caps.can_mmap,
        can_do(Op::SyncStartW, caps) <==> caps.can_mmap,
        can_do(Op::Pipeline, caps) <==> caps.can_mmap,
{
}

/// In the table of an operation each figure stands below its name.
pub proof fn law_figures_of_an_operation(size: nat, st: LatencyStats)
    ensures
        op_row(size, st) == seq![
            short_size(size),
            dec(st.avg_us as nat),
            dec(st.stddev_us as nat),
            dec(st.p50_us as nat),
            dec(st.p95_us as nat),
            dec(st.p99_us as nat),
            dec(st.p99_9_us as nat),
            dec(st.throughput_ops as nat),
        ],
{
}

} // verus!
