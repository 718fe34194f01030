//! Follow mode: one status line per sample, with what changed since the last.
use crate::info::aggregate::{
    count_of, debugfs_total_size, debugfs_usage, size_of, sysfs_total_size, total_size, Usage,
};
use crate::info::collect::reported_usage;
use crate::info::format::{
    format_size, format_size_kb, push_ratio, ratio_text, size_text, MAX_KB,
};
use crate::info::memory::count_or_zero;
use crate::info::report::join;
use crate::info::types::{
    strings, DebugfsBufEntry, DmaBufInfo, MemInfo, PsiMemory, VmStat,
};
use crate::number::{dec, dec2, dec_int, push_dec, push_dec2, push_dec_int};
use crate::text::{group_concat, same_string};
use vstd::prelude::*;

verus! {

broadcast use group_concat;

/// Changes of the counters that tell of memory pressure.
#[derive(Debug, Clone, Copy)]
pub struct VmStatDelta {
    pub pgscan_direct: u64,
    pub pgsteal_direct: u64,
    pub pgscan_kswapd: u64,
    pub compact_stall: u64,
    pub allocstall_normal: u64,
    pub oom_kill: u64,
}

/// How much a counter grew; none where it shrank. A counter that is not reported
/// counts as zero.
pub open spec fn growth(before: Option<u64>, after: Option<u64>) -> nat {
    let a = count_or_zero(before);
    let b = count_or_zero(after);
    if b >= a {
        (b - a) as nat
    } else {
        0
    }
}

fn growth_of(before: Option<u64>, after: Option<u64>) -> (r: u64)
    ensures
        r == growth(before, after),
{
    let a: u64 = match before {
        Some(n) => n,
        None => 0,
    };
    let b: u64 = match after {
        Some(n) => n,
        None => 0,
    };
    b.saturating_sub(a)
}

impl VmStatDelta {
    /// Each counter's growth from `p` to `c`.
    pub open spec fn of(self, p: VmStat, c: VmStat) -> bool {
        &&& self.pgscan_direct == growth(p.pgscan_direct, c.pgscan_direct)
        &&& self.pgsteal_direct == growth(p.pgsteal_direct, c.pgsteal_direct)
        &&& self.pgscan_kswapd == growth(p.pgscan_kswapd, c.pgscan_kswapd)
        &&& self.compact_stall == growth(p.compact_stall, c.compact_stall)
        &&& self.allocstall_normal == growth(p.allocstall_normal, c.allocstall_normal)
        &&& self.oom_kill == growth(p.oom_kill, c.oom_kill)
    }

    /// What changed between two samples; nothing is known unless both were taken.
    pub fn compute(prev: Option<&VmStat>, curr: Option<&VmStat>) -> (r: Option<VmStatDelta>)
        ensures
            r is Some <==> prev is Some && curr is Some,
            r matches Some(d) ==> d.of(*prev->0, *curr->0),
    {
        match (prev, curr) {
            (Some(p), Some(c)) => Some(
                VmStatDelta {
                    pgscan_direct: growth_of(p.pgscan_direct, c.pgscan_direct),
                    pgsteal_direct: growth_of(p.pgsteal_direct, c.pgsteal_direct),
                    pgscan_kswapd: growth_of(p.pgscan_kswapd, c.pgscan_kswapd),
                    compact_stall: growth_of(p.compact_stall, c.compact_stall),
                    allocstall_normal: growth_of(p.allocstall_normal, c.allocstall_normal),
                    oom_kill: growth_of(p.oom_kill, c.oom_kill),
                },
            ),
            _ => None,
        }
    }

    /// Whether any counter grew.
    pub open spec fn active(self) -> bool {
        self.pgscan_direct > 0 || self.pgsteal_direct > 0 || self.pgscan_kswapd > 0
            || self.compact_stall > 0 || self.allocstall_normal > 0 || self.oom_kill > 0
    }

    /// Whether any counter grew.
    pub fn has_activity(&self) -> (r: bool)
        ensures
            r == self.active(),
    {
        self.pgscan_direct > 0 || self.pgsteal_direct > 0 || self.pgscan_kswapd > 0
            || self.compact_stall > 0 || self.allocstall_normal > 0 || self.oom_kill > 0
    }

    /// The counters that grew, each with its growth. Pages stolen in direct reclaim are
    /// shown beside those scanned, and only where some were scanned.
    pub open spec fn parts(self) -> Seq<Seq<char>> {
        (if self.pgscan_direct > 0 {
            seq![
                "direct_reclaim: +"@ + dec(self.pgscan_direct as nat) + "/+"@ + dec(
                    self.pgsteal_direct as nat,
                ),
            ]
        } else {
            Seq::empty()
        }) + grown("kswapd: +"@, self.pgscan_kswapd) + grown("compact: +"@, self.compact_stall)
            + grown("alloc_stall: +"@, self.allocstall_normal) + grown(
            "oom_kill: +"@,
            self.oom_kill,
        )
    }
}

/// A counter with its growth, where it grew.
pub open spec fn grown(label: Seq<char>, n: u64) -> Seq<Seq<char>> {
    if n > 0 {
        seq![label + dec(n as nat)]
    } else {
        Seq::empty()
    }
}

/// The line below the status line.
pub open spec fn activity_text(d: VmStatDelta) -> Seq<char> {
    "           "@ + join(d.parts(), "  "@)
}

proof fn lemma_join_push(s: Seq<Seq<char>>, x: Seq<char>, sep: Seq<char>)
    ensures
        join(s.push(x), sep) == if s.len() == 0 {
            x
        } else {
            join(s, sep) + sep + x
        },
{
    assert(s.push(x).drop_last() =~= s);
}

fn push_part(out: &mut String, Ghost(so_far): Ghost<Seq<Seq<char>>>, first: bool, label: &str, n: u64)
    requires
        first == (so_far.len() == 0),
        old(out)@ == "           "@ + join(so_far, "  "@),
    ensures
        final(out)@ == "           "@ + join(so_far + grown(label@, n), "  "@),
{
    if n > 0 {
        if !first {
            out.append("  ");
        }
        out.append(label);
        push_dec(out, n);
        proof {
            lemma_join_push(so_far, label@ + dec(n as nat), "  "@);
            assert(so_far + grown(label@, n) =~= so_far.push(label@ + dec(n as nat)));
            assert(join(so_far, "  "@) == Seq::<char>::empty() || so_far.len() > 0);
        }
    } else {
        assert(so_far + grown(label@, n) =~= so_far);
    }
}

/// Renders the line below the status line.
pub fn activity_line(d: &VmStatDelta) -> (out: String)
    ensures
        out@ == activity_text(*d),
{
    let mut out = String::new();
    out.append("           ");
    let ghost mut parts: Seq<Seq<char>> = Seq::empty();
    let mut first: bool = true;
    if d.pgscan_direct > 0 {
        out.append("direct_reclaim: +");
        push_dec(&mut out, d.pgscan_direct);
        out.append("/+");
        push_dec(&mut out, d.pgsteal_direct);
        proof {
            parts = seq![
                "direct_reclaim: +"@ + dec(d.pgscan_direct as nat) + "/+"@ + dec(
                    d.pgsteal_direct as nat,
                ),
            ];
        }
        first = false;
    }
    push_part(&mut out, Ghost(parts), first, "kswapd: +", d.pgscan_kswapd);
    first = first && d.pgscan_kswapd == 0;
    let ghost parts = parts + grown("kswapd: +"@, d.pgscan_kswapd);
    push_part(&mut out, Ghost(parts), first, "compact: +", d.compact_stall);
    first = first && d.compact_stall == 0;
    let ghost parts = parts + grown("compact: +"@, d.compact_stall);
    push_part(&mut out, Ghost(parts), first, "alloc_stall: +", d.allocstall_normal);
    first = first && d.allocstall_normal == 0;
    let ghost parts = parts + grown("alloc_stall: +"@, d.allocstall_normal);
    push_part(&mut out, Ghost(parts), first, "oom_kill: +", d.oom_kill);
    out
}

/// A signed change in bytes.
pub open spec fn size_signed_text(bytes: int) -> Seq<char> {
    if bytes >= 0 {
        "+"@ + size_text(bytes as nat)
    } else {
        "-"@ + size_text((-bytes) as nat)
    }
}

/// Renders a signed change in bytes.
pub fn format_size_signed(bytes: i64) -> (s: String)
    ensures
        s@ == size_signed_text(bytes as int),
{
    let mut s = String::new();
    if bytes >= 0 {
        s.append("+");
        s.append(format_size(bytes as u64).as_str());
    } else {
        s.append("-");
        let magnitude: u64 = (-(bytes as i128)) as u64;
        s.append(format_size(magnitude).as_str());
    }
    s
}

/// The time of day in UTC of a moment in seconds since the epoch.
pub open spec fn clock_text(secs: nat) -> Seq<char> {
    dec2((secs % 86400) / 3600) + ":"@ + dec2((secs % 3600) / 60) + ":"@ + dec2(secs % 60)
}

/// Renders the time of day in UTC: hours, minutes and seconds.
pub fn clock(secs: u64) -> (s: String)
    ensures
        s@ == clock_text(secs as nat),
{
    let mut s = String::new();
    push_dec2(&mut s, (secs % 86400) / 3600);
    s.append(":");
    push_dec2(&mut s, (secs % 3600) / 60);
    s.append(":");
    push_dec2(&mut s, secs % 60);
    s
}

/// What follow mode samples. The pressure average is in hundredths of a percent.
#[derive(Debug, Clone, Copy)]
pub struct FollowSnapshot {
    pub total_buffers: usize,
    pub total_size: u64,
    pub mem_available_kb: Option<u64>,
    pub vmstat: Option<VmStat>,
    pub psi_mem_avg10: Option<u64>,
    pub pool_kb: Option<u64>,
}

/// A number with its sign, zero with a plus.
pub open spec fn signed_text(n: int) -> Seq<char> {
    if n >= 0 {
        "+"@ + dec(n as nat)
    } else {
        dec_int(n)
    }
}

/// What changed in the number and the size of buffers.
pub open spec fn change_text(prev: Option<FollowSnapshot>, snap: FollowSnapshot) -> Seq<char> {
    match prev {
        Some(p) => if p.total_buffers == snap.total_buffers && p.total_size == snap.total_size {
            "  (no change)"@
        } else {
            "  ("@ + signed_text(snap.total_buffers - p.total_buffers) + " bufs, "@
                + size_signed_text(snap.total_size - p.total_size) + ")"@
        },
        None => Seq::empty(),
    }
}

/// The sampled figures fit: sizes in kB in bytes, sums in signed integers.
pub open spec fn snapshot_fits(s: FollowSnapshot) -> bool {
    &&& s.total_buffers <= i64::MAX
    &&& s.total_size <= i64::MAX
    &&& s.mem_available_kb matches Some(kb) ==> kb <= MAX_KB
    &&& s.pool_kb matches Some(kb) ==> kb <= MAX_KB
}

/// The status line of a sample.
pub open spec fn status_text(
    secs: nat,
    heaps: nat,
    prev: Option<FollowSnapshot>,
    snap: FollowSnapshot,
) -> Seq<char> {
    "["@ + clock_text(secs) + "] heaps="@ + dec(heaps) + " bufs="@ + dec(
        snap.total_buffers as nat,
    ) + " size="@ + size_text(snap.total_size as nat) + " mem_avail="@ + (
    match snap.mem_available_kb {
        Some(kb) => size_text(kb as nat * 1024),
        None => "N/A"@,
    }) + (match snap.psi_mem_avg10 {
        Some(h) => " psi="@ + ratio_text(h as nat, 100) + "%"@,
        None => Seq::empty(),
    }) + (match snap.pool_kb {
        Some(kb) => " pool="@ + size_text(kb as nat * 1024),
        None => Seq::empty(),
    }) + change_text(prev, snap)
}

fn push_change(out: &mut String, prev: &Option<FollowSnapshot>, snap: &FollowSnapshot)
    requires
        snapshot_fits(*snap),
        *prev matches Some(p) ==> snapshot_fits(p),
    ensures
        final(out)@ == old(out)@ + change_text(*prev, *snap),
{
    match prev {
        Some(p) => {
            let bufs: i64 = snap.total_buffers as i64 - p.total_buffers as i64;
            let size: i64 = snap.total_size as i64 - p.total_size as i64;
            if bufs == 0 && size == 0 {
                out.append("  (no change)");
            } else {
                out.append("  (");
                if bufs >= 0 {
                    out.append("+");
                }
                push_dec_int(out, bufs);
                out.append(" bufs, ");
                out.append(format_size_signed(size).as_str());
                out.append(")");
            }
        },
        None => {},
    }
}

/// Renders the status line of a sample.
pub fn status_line(
    secs: u64,
    heaps: usize,
    prev: &Option<FollowSnapshot>,
    snap: &FollowSnapshot,
) -> (out: String)
    requires
        snapshot_fits(*snap),
        *prev matches Some(p) ==> snapshot_fits(p),
    ensures
        out@ == status_text(secs as nat, heaps as nat, *prev, *snap),
{
    let mut out = String::new();
    out.append("[");
    out.append(clock(secs).as_str());
    out.append("] heaps=");
    push_dec(&mut out, heaps as u64);
    out.append(" bufs=");
    push_dec(&mut out, snap.total_buffers as u64);
    out.append(" size=");
    out.append(format_size(snap.total_size).as_str());
    out.append(" mem_avail=");
    match snap.mem_available_kb {
        Some(kb) => out.append(format_size_kb(kb).as_str()),
        None => out.append("N/A"),
    }
    match snap.psi_mem_avg10 {
        Some(h) => {
            out.append(" psi=");
            push_ratio(&mut out, h, 100);
            out.append("%");
        },
        None => {},
    }
    match snap.pool_kb {
        Some(kb) => {
            out.append(" pool=");
            out.append(format_size_kb(kb).as_str());
        },
        None => {},
    }
    push_change(&mut out, prev, snap);
    out
}

/// The buffers of one heap, on the line below the status line; from the second
/// sample on their number is repeated.
pub open spec fn heap_usage_text(u: Seq<Usage>, heap: Seq<char>, again: bool) -> Seq<char> {
    "  "@ + heap + ": "@ + dec(count_of(u, heap)) + " bufs "@ + size_text(size_of(u, heap)) + (
    if again {
        " ("@ + dec(count_of(u, heap)) + ")"@
    } else {
        Seq::empty()
    })
}

/// Renders the buffers of one heap.
pub fn heap_usage(entries: &[DebugfsBufEntry], heap: &str, again: bool) -> (out: String)
    requires
        size_of(debugfs_usage(entries@), heap@) <= u64::MAX,
    ensures
        out@ == heap_usage_text(debugfs_usage(entries@), heap@, again),
{
    let ghost u = debugfs_usage(entries@);
    let mut count: u64 = 0;
    let mut size: u64 = 0;
    let mut i: usize = 0;
    assert(u.take(0) =~= Seq::empty());
    while i < entries.len()
        invariant
            i <= entries@.len(),
            u == debugfs_usage(entries@),
            size_of(u, heap@) <= u64::MAX,
            count <= i,
            count == count_of(u.take(i as int), heap@),
            size == size_of(u.take(i as int), heap@),
        decreases entries@.len() - i,
    {
        proof {
            lemma_size_grows(u, heap@, i + 1);
            assert(u.take(i + 1).drop_last() =~= u.take(i as int));
            assert(u.take(i + 1).last() == u[i as int]);
        }
        if same_string(entries[i].exp_name.as_str(), heap) {
            count = count + 1;
            size = size + entries[i].size;
        }
        i = i + 1;
    }
    assert(u.take(u.len() as int) =~= u);
    let mut out = String::new();
    out.append("  ");
    out.append(heap);
    out.append(": ");
    push_dec(&mut out, count);
    out.append(" bufs ");
    out.append(format_size(size).as_str());
    if again {
        out.append(" (");
        push_dec(&mut out, count);
        out.append(")");
    }
    out
}

proof fn lemma_size_grows(u: Seq<Usage>, name: Seq<char>, n: int)
    requires
        0 <= n <= u.len(),
    ensures
        size_of(u.take(n), name) <= size_of(u, name),
    decreases u.len() - n,
{
    if n < u.len() {
        lemma_size_grows(u, name, n + 1);
        assert(u.take(n + 1).drop_last() =~= u.take(n));
    } else {
        assert(u.take(n) =~= u);
    }
}

/// Takes a sample: the buffers of the kernel's list where it could be read, else those of
/// the sysfs directory, and what else could be read.
pub fn sample(
    listed: &Option<Vec<DebugfsBufEntry>>,
    sysfs: &Vec<DmaBufInfo>,
    memory: Option<MemInfo>,
    vmstat: Option<VmStat>,
    psi: Option<PsiMemory>,
    pool_kb: Option<u64>,
) -> (r: FollowSnapshot)
    requires
        total_size(reported_usage(*listed, sysfs@)) <= u64::MAX,
    ensures
        r == (FollowSnapshot {
            total_buffers: reported_usage(*listed, sysfs@).len() as usize,
            total_size: total_size(reported_usage(*listed, sysfs@)) as u64,
            mem_available_kb: match memory {
                Some(m) => Some(m.mem_available_kb),
                None => None,
            },
            vmstat,
            psi_mem_avg10: match psi {
                Some(p) => Some(p.some.avg10),
                None => None,
            },
            pool_kb,
        }),
{
    let (total_buffers, total_size): (usize, u64) = match listed {
        Some(entries) => (entries.len(), debugfs_total_size(entries.as_slice())),
        None => (sysfs.len(), sysfs_total_size(sysfs.as_slice())),
    };
    FollowSnapshot {
        total_buffers,
        total_size,
        mem_available_kb: match memory {
            Some(m) => Some(m.mem_available_kb),
            None => None,
        },
        vmstat,
        psi_mem_avg10: match psi {
            Some(p) => Some(p.some.avg10),
            None => None,
        },
        pool_kb,
    }
}

/// The growth of all counters.
pub open spec fn growths(p: VmStat, c: VmStat) -> VmStatDelta {
    VmStatDelta {
        pgscan_direct: growth(p.pgscan_direct, c.pgscan_direct) as u64,
        pgsteal_direct: growth(p.pgsteal_direct, c.pgsteal_direct) as u64,
        pgscan_kswapd: growth(p.pgscan_kswapd, c.pgscan_kswapd) as u64,
        compact_stall: growth(p.compact_stall, c.compact_stall) as u64,
        allocstall_normal: growth(p.allocstall_normal, c.allocstall_normal) as u64,
        oom_kill: growth(p.oom_kill, c.oom_kill) as u64,
    }
}

/// The line on activity since the last sample, where there was any.
pub open spec fn activity_part(prev: Option<FollowSnapshot>, snap: FollowSnapshot) -> Seq<char> {
    match prev {
        Some(p) => match (p.vmstat, snap.vmstat) {
            (Some(a), Some(b)) => if growths(a, b).active() {
                activity_text(growths(a, b)) + "\n"@
            } else {
                Seq::empty()
            },
            _ => Seq::empty(),
        },
        None => Seq::empty(),
    }
}

/// The buffers of several heaps, side by side.
pub open spec fn usages_text(u: Seq<Usage>, heaps: Seq<Seq<char>>, again: bool) -> Seq<char>
    decreases heaps.len(),
{
    if heaps.len() == 0 {
        Seq::empty()
    } else {
        usages_text(u, heaps.drop_last(), again) + heap_usage_text(u, heaps.last(), again)
    }
}

/// The line on heaps, where they are asked for and the kernel's list could be read.
pub open spec fn usage_part(
    listed: Option<Vec<DebugfsBufEntry>>,
    detail: bool,
    heaps: Seq<Seq<char>>,
    again: bool,
) -> Seq<char> {
    match listed {
        Some(entries) => if detail && heaps.len() > 0 {
            usages_text(debugfs_usage(entries@), heaps, again) + "\n"@
        } else {
            Seq::empty()
        },
        None => Seq::empty(),
    }
}

fn push_activity(out: &mut String, prev: &Option<FollowSnapshot>, snap: &FollowSnapshot)
    ensures
        final(out)@ == old(out)@ + activity_part(*prev, *snap),
{
    let earlier: Option<&VmStat> = match prev {
        Some(p) => p.vmstat.as_ref(),
        None => None,
    };
    match VmStatDelta::compute(earlier, snap.vmstat.as_ref()) {
        Some(d) => {
            assert(d == growths(prev->0.vmstat->0, snap.vmstat->0));
            if d.has_activity() {
                out.append(activity_line(&d).as_str());
                out.append("\n");
            }
        },
        None => {},
    }
}

fn push_usages(out: &mut String, entries: &[DebugfsBufEntry], heaps: &[String], again: bool)
    requires
        forall|i: int|
            0 <= i < heaps@.len() ==> size_of(
                debugfs_usage(entries@),
                #[trigger] strings(heaps@)[i],
            ) <= u64::MAX,
    ensures
        final(out)@ == old(out)@ + usages_text(debugfs_usage(entries@), strings(heaps@), again),
{
    let ghost start = out@;
    let ghost all = strings(heaps@);
    let ghost u = debugfs_usage(entries@);
    let mut i: usize = 0;
    assert(all.take(0) =~= Seq::empty());
    while i < heaps.len()
        invariant
            i <= heaps@.len(),
            all == strings(heaps@),
            u == debugfs_usage(entries@),
            forall|k: int| 0 <= k < heaps@.len() ==> size_of(u, #[trigger] all[k]) <= u64::MAX,
            out@ == start + usages_text(u, all.take(i as int), again),
        decreases heaps@.len() - i,
    {
        assert(all[i as int] == heaps@[i as int]@);
        out.append(heap_usage(entries, heaps[i].as_str(), again).as_str());
        assert(all.take(i + 1).drop_last() =~= all.take(i as int));
        i = i + 1;
    }
    assert(all.take(all.len() as int) =~= all);
}

/// What is told of a sample: the status line, the activity since the last sample, and the
/// heaps asked for.
pub fn turn(
    secs: u64,
    heap_count: usize,
    prev: &Option<FollowSnapshot>,
    snap: &FollowSnapshot,
    listed: &Option<Vec<DebugfsBufEntry>>,
    detail: bool,
    heaps: &[String],
) -> (out: String)
    requires
        snapshot_fits(*snap),
        *prev matches Some(p) ==> snapshot_fits(p),
        *listed matches Some(entries) ==> forall|i: int|
            0 <= i < heaps@.len() ==> size_of(
                debugfs_usage(entries@),
                #[trigger] strings(heaps@)[i],
            ) <= u64::MAX,
    ensures
        out@ == status_text(secs as nat, heap_count as nat, *prev, *snap) + "\n"@ + activity_part(
            *prev,
            *snap,
        ) + usage_part(*listed, detail, strings(heaps@), prev is Some),
{
    let mut out = status_line(secs, heap_count, prev, snap);
    out.append("\n");
    push_activity(&mut out, prev, snap);
    match listed {
        Some(entries) => {
            if detail && heaps.len() > 0 {
                push_usages(&mut out, entries.as_slice(), heaps, prev.is_some());
                out.append("\n");
            }
        },
        None => {},
    }
    out
}

/// Counters never shrink in what follow mode shows: samples the same give no
/// activity, and an inactive change shows no counter.
pub proof fn law_no_change_no_activity(d: VmStatDelta, v: VmStat)
    requires
        d.of(v, v),
    ensures
        !d.active(),
        d.parts() == Seq::<Seq<char>>::empty(),
{
    assert(d.parts() =~= Seq::<Seq<char>>::empty());
}

/// There is activity just where some counter is shown, unless pages were stolen in direct
/// reclaim and none scanned.
pub proof fn law_activity_is_shown(d: VmStatDelta)
    requires
        d.pgsteal_direct > 0 ==> d.pgscan_direct > 0,
    ensures
        d.active() <==> d.parts().len() > 0,
{
}

/// Whether a reading and what it grew by make a later reading; one that is not larger did not
/// grow.
pub open spec fn adds_up(before: Option<u64>, by: u64, after: Option<u64>) -> bool {
    match (before, after) {
        (Some(a), Some(b)) => (a <= b ==> a + by == b) && (b <= a ==> by == 0),
        _ => true,
    }
}

/// A counter that grew is shown with what it grew by: with the earlier reading that gives the
/// later one. One that shrank is taken not to have grown.
pub proof fn law_growth_adds_up(d: VmStatDelta, p: VmStat, c: VmStat)
    requires
        d.of(p, c),
    ensures
        adds_up(p.pgscan_direct, d.pgscan_direct, c.pgscan_direct),
        adds_up(p.pgsteal_direct, d.pgsteal_direct, c.pgsteal_direct),
        adds_up(p.pgscan_kswapd, d.pgscan_kswapd, c.pgscan_kswapd),
        adds_up(p.compact_stall, d.compact_stall, c.compact_stall),
        adds_up(p.allocstall_normal, d.allocstall_normal, c.allocstall_normal),
        adds_up(p.oom_kill, d.oom_kill, c.oom_kill),
{
}

/// The change since the last sample is told with its direction: more buffers and bytes with a
/// plus sign, fewer with a minus sign, and as many as were added or taken away.
pub proof fn law_change_has_its_direction(p: FollowSnapshot, s: FollowSnapshot)
    ensures
        p.total_buffers == s.total_buffers && p.total_size == s.total_size ==> change_text(
            Some(p),
            s,
        ) == "  (no change)"@,
        p.total_buffers < s.total_buffers && p.total_size <= s.total_size ==> change_text(
            Some(p),
            s,
        ) == "  ("@ + ("+"@ + dec((s.total_buffers - p.total_buffers) as nat)) + " bufs, "@ + ("+"@
            + size_text((s.total_size - p.total_size) as nat)) + ")"@,
        s.total_buffers < p.total_buffers && s.total_size < p.total_size ==> change_text(
            Some(p),
            s,
        ) == "  ("@ + (seq!['-'] + dec((p.total_buffers - s.total_buffers) as nat)) + " bufs, "@ + (
        "-"@ + size_text((p.total_size - s.total_size) as nat)) + ")"@,
{
}

/// The time of day adds up to the seconds since midnight.
pub proof fn law_clock_adds_up(secs: nat) -> (r: (nat, nat, nat, nat))
    ensures
        clock_text(secs) == dec2(r.0) + ":"@ + dec2(r.1) + ":"@ + dec2(r.2),
        r.0 < 24,
        r.1 < 60,
        r.2 < 60,
        secs == r.3 * 86400 + r.0 * 3600 + r.1 * 60 + r.2,
{
    let days = secs / 86400;
    let day = secs % 86400;
    let hour = secs % 3600;
    vstd::arithmetic::div_mod::lemma_mod_mod(secs as int, 3600, 24);
    vstd::arithmetic::div_mod::lemma_mod_mod(secs as int, 60, 60);
    assert(day % 3600 == hour);
    assert(hour % 60 == secs % 60);
    assert(secs == days * 86400 + day);
    assert(day == (day / 3600) * 3600 + hour);
    assert(hour == (hour / 60) * 60 + hour % 60);
    (day / 3600, hour / 60, secs % 60, days)
}

/// The status line tells the time, the heaps, the buffers, their size and the available memory.
pub proof fn law_status_line(
    secs: nat,
    heaps: nat,
    prev: Option<FollowSnapshot>,
    s: FollowSnapshot,
    kb: u64,
) -> (rest: Seq<char>)
    requires
        s.mem_available_kb == Some(kb),
    ensures
        status_text(secs, heaps, prev, s) == "["@ + clock_text(secs) + "] heaps="@ + dec(heaps)
            + " bufs="@ + dec(s.total_buffers as nat) + " size="@ + size_text(s.total_size as nat)
            + " mem_avail="@ + size_text(kb as nat * 1024) + rest,
{
    (match s.psi_mem_avg10 {
        Some(h) => " psi="@ + ratio_text(h as nat, 100) + "%"@,
        None => Seq::empty(),
    }) + (match s.pool_kb {
        Some(kb) => " pool="@ + size_text(kb as nat * 1024),
        None => Seq::empty(),
    }) + change_text(prev, s)
}

} // verus!
