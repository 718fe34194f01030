//! What is told of the host and its state before measurements.
use crate::bench_env::env::{EnvControlStatus, Status};
use crate::bench_env::host::{maybe, zone_values, ThermalZone};
use crate::double::{hundredths_text, of_int, push_hundredths, quotient, scaled, tenths_text, Double};
use crate::info::parse::{occurs, occurs_in};
use crate::info::report::{join, push_join};
use crate::info::types::strings;
use crate::number::{dec, dec_int, push_dec, push_dec_int};
use crate::text::{chars_of, group_concat, string_of};
use crate::info::format::law_quotient_shown;
use vstd::prelude::*;
use vstd::slice::slice_subrange;

verus! {

/// The state of the host at the time of measurements.
#[derive(Clone, Debug)]
pub struct BenchContext {
    pub timestamp: String,
    pub dhp_version: String,
    pub env_control: EnvControlStatus,
    pub bench_cpu: u32,
    pub bench_cpu_cur_freq_khz: Option<u64>,
    pub bench_cpu_governor: Option<String>,
    pub mem_available_kb: Option<u64>,
    pub cma_free_kb: Option<u64>,
    pub swap_free_kb: Option<u64>,
    pub pool_size_kb: Option<u64>,
    pub thermal: Vec<ThermalZone>,
    /// Memory pressure over ten seconds, in hundredths of a percent.
    pub psi_memory_avg10: Option<u64>,
}

/// What stays the same of a host.
#[derive(Clone, Debug)]
pub struct DeviceIdentity {
    pub model: Option<String>,
    pub board: Option<String>,
    pub fingerprint: Option<String>,
    pub sdk: Option<String>,
    pub kernel_version: Option<String>,
    pub cmdline_cma: Option<String>,
    pub cpu_model: Option<String>,
    pub cpu_arch: String,
    pub cores_online: Vec<u32>,
    pub bench_cpu_max_freq_khz: Option<u64>,
    pub mem_total_kb: Option<u64>,
    pub cma_total_kb: Option<u64>,
    pub swap_total_kb: Option<u64>,
    pub heaps: Vec<String>,
}

/// A mark for what was set, and for what was not.
pub open spec fn mark(applied: bool) -> Seq<char> {
    if applied {
        "✓"@
    } else {
        "✗"@
    }
}

fn mark_of(applied: bool) -> (r: &'static str)
    ensures
        r@ == mark(applied),
{
    if applied {
        "✓"
    } else {
        "✗"
    }
}

/// A text where there is one, between two others; nothing where there is none.
pub open spec fn between(before: Seq<char>, s: Option<Seq<char>>, after: Seq<char>) -> Seq<char> {
    match s {
        Some(t) => before + t + after,
        None => Seq::empty(),
    }
}

fn push_between(out: &mut String, before: &str, s: &Option<String>, after: &str)
    ensures
        final(out)@ == old(out)@ + between(before@, maybe(*s), after@),
{
    broadcast use group_concat;

    match s {
        Some(t) => {
            out.append(before);
            out.append(t.as_str());
            out.append(after);
        },
        None => {},
    }
}

/// An amount in a larger unit where there is one, between two texts; otherwise another text.
pub open spec fn amount(
    before: Seq<char>,
    n: Option<u64>,
    unit: nat,
    after: Seq<char>,
    otherwise: Seq<char>,
) -> Seq<char> {
    match n {
        Some(v) => before + dec(v as nat / unit) + after,
        None => otherwise,
    }
}

fn push_amount(
    out: &mut String,
    before: &str,
    n: Option<u64>,
    unit: u64,
    after: &str,
    otherwise: &str,
)
    requires
        unit > 0,
    ensures
        final(out)@ == old(out)@ + amount(before@, n, unit as nat, after@, otherwise@),
{
    broadcast use group_concat;

    match n {
        Some(v) => {
            out.append(before);
            push_dec(out, v / unit);
            out.append(after);
        },
        None => {
            out.append(otherwise);
        },
    }
}

/// What is told of the core.
pub open spec fn core_text(cpu: nat, freq: Option<u64>, governor: Option<Seq<char>>) -> Seq<char> {
    "  cpu"@ + dec(cpu) + " @ "@ + amount(""@, freq, 1000, " MHz"@, "? MHz"@) + " (governor: "@ + (
    match governor {
        Some(g) => g,
        None => "?"@,
    }) + ")\n"@
}

/// What is told of what was set.
pub open spec fn control_text(s: Status) -> Seq<char> {
    "  affinity: "@ + mark(s.affinity_applied) + " | governor: "@ + mark(s.governor_applied)
        + between(" (was: "@, s.governor_original, ")"@) + " | nice: "@ + dec_int(
        s.nice_value as int,
    ) + " "@ + mark(s.nice_applied) + "\n"@
}

/// What is told of the memory.
pub open spec fn memory_text(avail: Option<u64>, cma: Option<u64>, pool: Option<u64>) -> Seq<char> {
    "  mem avail: "@ + amount(""@, avail, 1024, " MB"@, "?"@) + amount(
        " | CMA free: "@,
        cma,
        1024,
        " MB"@,
        ""@,
    ) + amount(" | pool: "@, pool, 1024, " MB"@, ""@) + "\n"@
}

/// A temperature in degrees, to one decimal.
pub open spec fn degrees(mc: int) -> Seq<char> {
    (if mc < 0 {
        "-"@
    } else {
        ""@
    }) + tenths_text(
        scaled(
            quotient(
                of_int(
                    if mc < 0 {
                        (-mc) as nat
                    } else {
                        mc as nat
                    },
                ),
                of_int(1000),
            ),
            10,
        ),
    )
}

/// What is told of a zone.
pub open spec fn zone_text(z: (Seq<char>, i32)) -> Seq<char> {
    z.0 + " "@ + degrees(z.1 as int) + "°C"@
}

/// What is told of the zones of the processor, of the first four of them.
pub open spec fn zone_texts(v: Seq<(Seq<char>, i32)>) -> Seq<Seq<char>>
    decreases v.len(),
{
    if v.len() == 0 {
        Seq::empty()
    } else {
        let before = zone_texts(v.drop_last());
        if before.len() < 4 && occurs(v.last().0, "cpu"@) {
            before.push(zone_text(v.last()))
        } else {
            before
        }
    }
}

/// What is told of the temperatures: nothing where no zone is the processor's.
pub open spec fn thermal_text(v: Seq<(Seq<char>, i32)>) -> Seq<char> {
    let t = zone_texts(v);
    if t.len() == 0 {
        Seq::empty()
    } else {
        "  thermal: "@ + join(t, ", "@) + "\n"@
    }
}

/// What is told of memory pressure.
pub open spec fn pressure_text(psi: Option<u64>) -> Seq<char> {
    match psi {
        Some(n) => "  PSI mem avg10: "@ + hundredths_text(n as nat) + "%\n"@,
        None => Seq::empty(),
    }
}

fn push_degrees(out: &mut String, mc: i32)
    ensures
        final(out)@ == old(out)@ + degrees(mc as int),
{
    broadcast use group_concat;

    let n: i64 = mc as i64;
    let m: u64 = if n < 0 {
        out.append("-");
        (-n) as u64
    } else {
        out.append("");
        n as u64
    };
    Double::from_int(m).divided_by(Double::from_int(1000)).push_one_decimal(out);
}

fn cpu_zones(v: &Vec<ThermalZone>) -> (r: Vec<String>)
    ensures
        strings(r@) == zone_texts(zone_values(v@)),
{
    let ghost all = zone_values(v@);
    let mut r: Vec<String> = Vec::new();
    let mut i: usize = 0;
    assert(all.take(0) =~= Seq::empty());
    assert(strings(r@) =~= Seq::empty());
    while i < v.len()
        invariant
            i <= v@.len(),
            all == zone_values(v@),
            strings(r@) == zone_texts(all.take(i as int)),
        decreases v@.len() - i,
    {
        let c = chars_of(v[i].zone_type.as_str());
        proof {
            assert(all.take(i + 1).drop_last() =~= all.take(i as int));
            assert(all.take(i + 1).last() == all[i as int]);
            assert(r@.len() == strings(r@).len());
        }
        if r.len() < 4 && occurs_in(c.as_slice(), "cpu") {
            let ghost before = strings(r@);
            let mut t = String::new();
            push_zone(&mut t, &v[i]);
            assert(Seq::<char>::empty() + zone_text(all[i as int]) =~= zone_text(all[i as int]));
            r.push(t);
            assert(strings(r@) =~= before.push(zone_text(all[i as int])));
        }
        i = i + 1;
    }
    assert(all.take(all.len() as int) =~= all);
    r
}

fn push_zone(t: &mut String, z: &ThermalZone)
    ensures
        final(t)@ == old(t)@ + zone_text((z.zone_type@, z.temp_mc)),
{
    broadcast use group_concat;

    t.append(z.zone_type.as_str());
    t.append(" ");
    push_degrees(t, z.temp_mc);
    t.append("°C");
}

impl BenchContext {
    /// What is told of the state before measurements.
    pub open spec fn header_text(self) -> Seq<char> {
        "── bench context ───────────────────────────────────────\n"@
            + core_text(
            self.bench_cpu as nat,
            self.bench_cpu_cur_freq_khz,
            maybe(self.bench_cpu_governor),
        ) + control_text(self.env_control@) + memory_text(
            self.mem_available_kb,
            self.cma_free_kb,
            self.pool_size_kb,
        ) + thermal_text(zone_values(self.thermal@)) + pressure_text(self.psi_memory_avg10)
            + "────────────────────────────────────────────────────────\n"@
    }

    /// What is told of the state before measurements.
    pub fn header(&self) -> (s: String)
        ensures
            s@ == self.header_text(),
    {
        broadcast use group_concat;

        let mut s = String::new();
        s.append("── bench context ───────────────────────────────────────\n");
        self.push_core(&mut s);
        self.push_control(&mut s);
        self.push_memory(&mut s);
        self.push_thermal(&mut s);
        match self.psi_memory_avg10 {
            Some(n) => {
                s.append("  PSI mem avg10: ");
                push_hundredths(&mut s, n as u128);
                s.append("%\n");
            },
            None => {},
        }
        s.append("────────────────────────────────────────────────────────\n");
        s
    }

    fn push_core(&self, s: &mut String)
        ensures
            final(s)@ == old(s)@ + core_text(
                self.bench_cpu as nat,
                self.bench_cpu_cur_freq_khz,
                maybe(self.bench_cpu_governor),
            ),
    {
        broadcast use group_concat;

        s.append("  cpu");
        push_dec(s, self.bench_cpu as u64);
        s.append(" @ ");
        push_amount(s, "", self.bench_cpu_cur_freq_khz, 1000, " MHz", "? MHz");
        s.append(" (governor: ");
        match &self.bench_cpu_governor {
            Some(g) => {
                s.append(g.as_str());
            },
            None => {
                s.append("?");
            },
        }
        s.append(")\n");
    }

    fn push_control(&self, s: &mut String)
        ensures
            final(s)@ == old(s)@ + control_text(self.env_control@),
    {
        broadcast use group_concat;

        let c = &self.env_control;
        s.append("  affinity: ");
        s.append(mark_of(c.affinity_applied));
        s.append(" | governor: ");
        s.append(mark_of(c.governor_applied));
        push_between(s, " (was: ", &c.governor_original, ")");
        s.append(" | nice: ");
        push_dec_int(s, c.nice_value as i64);
        s.append(" ");
        s.append(mark_of(c.nice_applied));
        s.append("\n");
    }

    fn push_memory(&self, s: &mut String)
        ensures
            final(s)@ == old(s)@ + memory_text(
                self.mem_available_kb,
                self.cma_free_kb,
                self.pool_size_kb,
            ),
    {
        broadcast use group_concat;

        s.append("  mem avail: ");
        push_amount(s, "", self.mem_available_kb, 1024, " MB", "?");
        push_amount(s, " | CMA free: ", self.cma_free_kb, 1024, " MB", "");
        push_amount(s, " | pool: ", self.pool_size_kb, 1024, " MB", "");
        s.append("\n");
    }

    fn push_thermal(&self, s: &mut String)
        ensures
            final(s)@ == old(s)@ + thermal_text(zone_values(self.thermal@)),
    {
        broadcast use group_concat;

        let zones = cpu_zones(&self.thermal);
        assert(zones@.len() == strings(zones@).len());
        if zones.len() > 0 {
            s.append("  thermal: ");
            assert(strings(zones@).take(zones@.len() as int) =~= strings(zones@));
            push_join(s, &zones, zones.len(), ", ");
            s.append("\n");
        }
    }
}

/// The bytes of a character in UTF-8.
pub open spec fn utf8_len(c: char) -> nat {
    if (c as u32) < 0x80 {
        1
    } else if (c as u32) < 0x800 {
        2
    } else if (c as u32) < 0x1_0000 {
        3
    } else {
        4
    }
}

/// How many characters of a text take no more than `n` bytes together.
pub open spec fn chars_within(s: Seq<char>, n: nat) -> nat
    decreases s.len(),
{
    if s.len() == 0 || utf8_len(s[0]) > n {
        0
    } else {
        1 + chars_within(s.skip(1), (n - utf8_len(s[0])) as nat)
    }
}

/// The bytes of a text.
pub open spec fn utf8_size(s: Seq<char>) -> nat
    decreases s.len(),
{
    if s.len() == 0 {
        0
    } else {
        utf8_size(s.drop_last()) + utf8_len(s.last())
    }
}

/// Whether a text can be cut after `n` bytes, that is between two characters.
pub open spec fn can_cut(s: Seq<char>, n: nat) -> bool {
    utf8_size(s) > n ==> utf8_size(s.take(chars_within(s, n) as int)) == n
}

/// A text that is cut after `n` bytes.
pub open spec fn cut(s: Seq<char>, n: nat) -> Seq<char> {
    s.take(chars_within(s, n) as int)
}

/// The first bytes of a text: as many characters as fit.
fn first_bytes(s: &str, n: usize) -> (r: String)
    ensures
        r@ == cut(s@, n as nat),
{
    let c = chars_of(s);
    let mut left: usize = n;
    let mut i: usize = 0;
    assert(c@.skip(0) =~= c@);
    proof {
        lemma_chars_within(s@, n as nat);
    }
    while i < c.len()
        invariant
            i <= c@.len(),
            c@ == s@,
            left <= n,
            chars_within(s@, n as nat) == i + chars_within(c@.skip(i as int), left as nat),
        decreases c@.len() - i,
    {
        let k: u32 = c[i] as u32;
        let len: usize = if k < 0x80 {
            1
        } else if k < 0x800 {
            2
        } else if k < 0x1_0000 {
            3
        } else {
            4
        };
        if len > left {
            assert(c@.subrange(0, i as int) =~= s@.take(i as int));
            return string_of(slice_subrange(c.as_slice(), 0, i));
        }
        assert(c@.skip(i as int).skip(1) =~= c@.skip(i + 1));
        left = left - len;
        i = i + 1;
    }
    assert(c@.subrange(0, i as int) =~= s@.take(i as int));
    string_of(slice_subrange(c.as_slice(), 0, i))
}

/// No more characters fit than there are.
proof fn lemma_chars_within(s: Seq<char>, n: nat)
    ensures
        chars_within(s, n) <= s.len(),
    decreases s.len(),
{
    if s.len() > 0 && utf8_len(s[0]) <= n {
        lemma_chars_within(s.skip(1), (n - utf8_len(s[0])) as nat);
    }
}

/// How much of the kernel's version is told, in bytes.
pub const KERNEL_SHOWN: usize = 60;

/// The kernel's version, as it is told.
pub open spec fn kernel_text(version: Option<Seq<char>>) -> Seq<char> {
    match version {
        Some(v) => cut(v, KERNEL_SHOWN as nat),
        None => "unknown kernel"@,
    }
}

impl DeviceIdentity {
    /// What is told of the host.
    pub open spec fn header_text(self) -> Seq<char> {
        self.device_line() + self.kernel_line() + self.memory_line()
    }

    /// What is told of the device.
    pub open spec fn device_line(self) -> Seq<char> {
        "── device ──────────────────────────────────────────────\n  "@
            + (match maybe(self.model) {
            Some(m) => m,
            None => "unknown"@,
        }) + between(" ("@, maybe(self.board), ")"@) + between(" | SDK "@, maybe(self.sdk), ""@)
            + "\n"@
    }

    /// What is told of the kernel and the processor.
    pub open spec fn kernel_line(self) -> Seq<char> {
        "  "@ + kernel_text(maybe(self.kernel_version)) + " | "@ + self.cpu_arch@ + " "@ + dec(
            self.cores_online@.len(),
        ) + " cores\n"@
    }

    /// What is told of the memory and the heaps.
    pub open spec fn memory_line(self) -> Seq<char> {
        "  "@ + amount(""@, self.mem_total_kb, 1_048_576, " GB"@, "?"@) + " RAM"@ + amount(
            " | CMA "@,
            self.cma_total_kb,
            1024,
            " MB"@,
            ""@,
        ) + " | "@ + join(strings(self.heaps@), ", "@) + "\n"@
    }

    /// What is told of the host.
    pub fn header(&self) -> (s: String)
        requires
            self.kernel_version matches Some(v) ==> can_cut(v@, KERNEL_SHOWN as nat),
        ensures
            s@ == self.header_text(),
    {
        broadcast use group_concat;

        let mut s = String::new();
        self.push_device(&mut s);
        self.push_kernel(&mut s);
        self.push_memory(&mut s);
        s
    }

    fn push_device(&self, s: &mut String)
        ensures
            final(s)@ == old(s)@ + self.device_line(),
    {
        broadcast use group_concat;

        s.append("── device ──────────────────────────────────────────────\n  ");
        match &self.model {
            Some(m) => {
                s.append(m.as_str());
            },
            None => {
                s.append("unknown");
            },
        }
        push_between(s, " (", &self.board, ")");
        push_between(s, " | SDK ", &self.sdk, "");
        s.append("\n");
    }

    fn push_kernel(&self, s: &mut String)
        ensures
            final(s)@ == old(s)@ + self.kernel_line(),
    {
        broadcast use group_concat;

        s.append("  ");
        match &self.kernel_version {
            Some(v) => {
                let short = first_bytes(v.as_str(), KERNEL_SHOWN);
                s.append(short.as_str());
            },
            None => {
                s.append("unknown kernel");
            },
        }
        s.append(" | ");
        s.append(self.cpu_arch.as_str());
        s.append(" ");
        push_dec(s, self.cores_online.len() as u64);
        s.append(" cores\n");
    }

    fn push_memory(&self, s: &mut String)
        ensures
            final(s)@ == old(s)@ + self.memory_line(),
    {
        broadcast use group_concat;

        s.append("  ");
        push_amount(s, "", self.mem_total_kb, 1_048_576, " GB", "?");
        s.append(" RAM");
        push_amount(s, " | CMA ", self.cma_total_kb, 1024, " MB", "");
        s.append(" | ");
        assert(strings(self.heaps@).take(self.heaps@.len() as int) =~= strings(self.heaps@));
        push_join(s, &self.heaps, self.heaps.len(), ", ");
        s.append("\n");
    }
}

/// A temperature is told with its sign and right to a tenth of a degree.
pub proof fn law_degrees(mc: int) -> (tenths: nat)
    requires
        -10_000_000 <= mc <= 10_000_000,
    ensures
        mc >= 0 ==> degrees(mc) == ""@ + tenths_text(tenths),
        mc < 0 ==> degrees(mc) == "-"@ + tenths_text(tenths),
        mc >= 0 ==> 1000 * tenths <= 10 * mc + 1000 && 10 * mc <= 1000 * tenths + 1000,
        mc < 0 ==> 1000 * tenths <= 10 * -mc + 1000 && 10 * -mc <= 1000 * tenths + 1000,
{
    let n: nat = if mc < 0 {
        (-mc) as nat
    } else {
        mc as nat
    };
    law_quotient_shown(n, 1000)
}

} // verus!
