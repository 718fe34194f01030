//! The reports of the other benchmarks.
use crate::aging::summary::{field_texts, Field};
use crate::bench::op::{op_name, op_row, size_row, Op};
use crate::bench::report::{
    headings, holdable, number, only_if, push_table, push_values, row_texts, shown, text, value,
    Line, Shown, Signed,
};
use crate::bench::rows::{
    close_row, close_row_text, frag_pct, frag_text, hysteresis, hysteresis_verdict, latency_row,
    stage_row, stage_row_text, times_row, SizeStats, FRAG_SIZES,
};
use crate::bench::steps::{
    descending, detect_inversions, detect_order_steps, drop_points, inversions_at, is_inversion,
    is_step, jump_points, steps_at, Inversion, OrderStep,
};
use crate::double::{hundredths_text, of_int, quotient, scaled, tenths_text, Double};
use crate::info::types::strings;
use crate::number::{dec, dec_string, push_dec};
use crate::size::{align_to, aligned, human_size, short_size};
use crate::stats::LatencyStats;
use crate::text::group_concat;
use vstd::prelude::*;

verus! {

/// The header of a table of times by size.
pub open spec fn times_header() -> Seq<Seq<char>> {
    seq!["size"@, "avg"@, "sd"@, "p50"@, "p95"@, "p99"@, "p99.9"@]
}

/// The rows of times by size.
pub open spec fn times_rows(v: Seq<SizeStats>) -> Seq<Seq<Seq<char>>> {
    Seq::new(v.len(), |i: int| times_row(v[i].size as nat, v[i].latency))
}

/// A table of times by size.
pub open spec fn times_table(name: Seq<char>, v: Seq<SizeStats>) -> Shown {
    Shown::Table(name, Some("(us)"@), times_header(), times_rows(v))
}

fn push_times_table(lines: &mut Vec<Line>, name: &str, rows: Vec<Vec<String>>, v: Ghost<
    Seq<SizeStats>,
>)
    requires
        rows@.len() == v@.len(),
        forall|i: int| 0 <= i < rows@.len() ==> strings((#[trigger] rows@[i])@) == times_rows(v@)[i],
    ensures
        shown(final(lines)@) == shown(old(lines)@).push(times_table(name@, v@)),
{
    let header = vec!["size", "avg", "sd", "p50", "p95", "p99", "p99.9"];
    proof {
        assert(headings(header@) =~= times_header());
        assert(row_texts(rows@) =~= times_rows(v@));
    }
    push_table(lines, name, Some("(us)"), header, rows);
}

fn rows_of(v: &[SizeStats]) -> (rows: Vec<Vec<String>>)
    ensures
        rows@.len() == v@.len(),
        forall|i: int| 0 <= i < rows@.len() ==> strings((#[trigger] rows@[i])@) == times_rows(v@)[i],
{
    let mut rows: Vec<Vec<String>> = Vec::new();
    let mut i: usize = 0;
    while i < v.len()
        invariant
            i <= v@.len(),
            rows@.len() == i,
            forall|j: int| 0 <= j < i ==> strings((#[trigger] rows@[j])@) == times_rows(v@)[j],
        decreases v@.len() - i,
    {
        rows.push(latency_row(v[i].size, &v[i].latency));
        i = i + 1;
    }
    rows
}

/// The times of the whole pipeline for a size, and the averages of its stages: the
/// allocation, the mapping, the start and end of the access for writing, the writing, and
/// the access for reading.
#[derive(Clone, Copy, Debug)]
pub struct PipelineTimes {
    pub whole: SizeStats,
    pub alloc_us: u64,
    pub mmap_us: u64,
    pub sync_w_us: u64,
    pub write_us: u64,
    pub sync_r_us: u64,
}

/// The rows of the stages.
pub open spec fn stage_rows(t: PipelineTimes) -> Seq<Seq<Seq<char>>> {
    let all = t.whole.latency.avg_us as nat;
    seq![
        stage_row_text("alloc"@, t.alloc_us as nat, all),
        stage_row_text("mmap"@, t.mmap_us as nat, all),
        stage_row_text("sync_w"@, t.sync_w_us as nat, all),
        stage_row_text("write"@, t.write_us as nat, all),
        stage_row_text("sync_r"@, t.sync_r_us as nat, all),
    ]
}

/// The table of the stages for a size.
pub open spec fn breakdown(t: PipelineTimes) -> Shown {
    Shown::Table(
        "perf::pipeline_breakdown@"@ + short_size(t.whole.size as nat),
        Some("(us)"@),
        seq!["stage"@, "avg"@, "%"@],
        stage_rows(t),
    )
}

/// The times of the whole pipeline.
pub open spec fn wholes(v: Seq<PipelineTimes>) -> Seq<SizeStats> {
    Seq::new(v.len(), |i: int| v[i].whole)
}

/// The report of the pipeline: the stages for each size, then all sizes.
pub open spec fn pipeline_lines(v: Seq<PipelineTimes>) -> Seq<Shown> {
    Seq::new(v.len(), |i: int| breakdown(v[i])).push(
        times_table("perf::full_pipeline"@, wholes(v)),
    )
}

fn push_breakdown(lines: &mut Vec<Line>, t: &PipelineTimes)
    ensures
        shown(final(lines)@) == shown(old(lines)@).push(breakdown(*t)),
{
    broadcast use group_concat;
    let all: u64 = t.whole.latency.avg_us;
    let mut name = text("perf::pipeline_breakdown@");
    name.append(human_size(t.whole.size).as_str());
    let rows = vec![
        stage_row("alloc", t.alloc_us, all),
        stage_row("mmap", t.mmap_us, all),
        stage_row("sync_w", t.sync_w_us, all),
        stage_row("write", t.write_us, all),
        stage_row("sync_r", t.sync_r_us, all),
    ];
    let header = vec!["stage", "avg", "%"];
    proof {
        assert(headings(header@) =~= seq!["stage"@, "avg"@, "%"@]);
        assert(row_texts(rows@) =~= stage_rows(*t));
    }
    push_table(lines, name.as_str(), Some("(us)"), header, rows);
}

/// The report of the pipeline.
pub fn pipeline_report(times: &[PipelineTimes]) -> (lines: Vec<Line>)
    ensures
        shown(lines@) == pipeline_lines(times@),
{
    let mut lines: Vec<Line> = Vec::new();
    let mut rows: Vec<Vec<String>> = Vec::new();
    let mut i: usize = 0;
    while i < times.len()
        invariant
            i <= times@.len(),
            lines@.len() == i,
            forall|j: int| 0 <= j < i ==> #[trigger] shown(lines@)[j] == breakdown(times@[j]),
            rows@.len() == i,
            forall|j: int|
                0 <= j < i ==> strings((#[trigger] rows@[j])@) == times_rows(wholes(times@))[j],
        decreases times@.len() - i,
    {
        let ghost before = shown(lines@);
        push_breakdown(&mut lines, &times[i]);
        proof {
            assert(shown(lines@).len() == i + 1);
            assert forall|j: int| 0 <= j < i + 1 implies #[trigger] shown(lines@)[j] == breakdown(
                times@[j],
            ) by {
                if j < i {
                    assert(before[j] == breakdown(times@[j]));
                }
            }
        }
        rows.push(latency_row(times[i].whole.size, &times[i].whole.latency));
        i = i + 1;
    }
    assert(shown(lines@) =~= Seq::new(times@.len(), |j: int| breakdown(times@[j])));
    push_times_table(&mut lines, "perf::full_pipeline", rows, Ghost(wholes(times@)));
    lines
}

/// The times of releases for a size, and the average of the allocations before them.
#[derive(Clone, Copy, Debug)]
pub struct CloseTimes {
    pub close: SizeStats,
    pub alloc_us: u64,
}

/// The times of releases.
pub open spec fn closes(v: Seq<CloseTimes>) -> Seq<SizeStats> {
    Seq::new(v.len(), |i: int| v[i].close)
}

/// The rows of releases against allocations.
pub open spec fn ratio_rows(v: Seq<CloseTimes>) -> Seq<Seq<Seq<char>>> {
    Seq::new(
        v.len(),
        |i: int|
            close_row_text(
                v[i].close.size as nat,
                v[i].alloc_us as nat,
                v[i].close.latency.avg_us as nat,
            ),
    )
}

/// The report of releases: their times, then how they compare with allocations.
pub open spec fn close_lines(v: Seq<CloseTimes>) -> Seq<Shown> {
    seq![times_table("perf::close"@, closes(v))] + only_if(
        v.len() > 0,
        Shown::Table(
            "perf::close_ratio"@,
            None,
            seq!["size"@, "alloc"@, "close"@, "ratio"@, "verdict"@],
            ratio_rows(v),
        ),
    )
}

/// The report of releases.
pub fn close_report(times: &[CloseTimes]) -> (lines: Vec<Line>)
    ensures
        shown(lines@) == close_lines(times@),
{
    let mut lines: Vec<Line> = Vec::new();
    let mut rows: Vec<Vec<String>> = Vec::new();
    let mut ratios: Vec<Vec<String>> = Vec::new();
    let mut i: usize = 0;
    while i < times.len()
        invariant
            i <= times@.len(),
            rows@.len() == i,
            ratios@.len() == i,
            forall|j: int|
                0 <= j < i ==> strings((#[trigger] rows@[j])@) == times_rows(closes(times@))[j],
            forall|j: int| 0 <= j < i ==> strings((#[trigger] ratios@[j])@) == ratio_rows(times@)[j],
        decreases times@.len() - i,
    {
        let t = &times[i];
        rows.push(latency_row(t.close.size, &t.close.latency));
        ratios.push(close_row(t.close.size, t.alloc_us, t.close.latency.avg_us));
        i = i + 1;
    }
    assert(shown(lines@) =~= Seq::empty());
    push_times_table(&mut lines, "perf::close", rows, Ghost(closes(times@)));
    if times.len() > 0 {
        let header = vec!["size", "alloc", "close", "ratio", "verdict"];
        proof {
            assert(headings(header@) =~= seq!["size"@, "alloc"@, "close"@, "ratio"@, "verdict"@]);
            assert(row_texts(ratios@) =~= ratio_rows(times@));
        }
        push_table(&mut lines, "perf::close_ratio", None, header, ratios);
    }
    assert(shown(lines@) =~= close_lines(times@));
    lines
}

/// The sizes and average times.
pub open spec fn sweep_points(v: Seq<SizeStats>) -> Seq<(u64, u64)> {
    Seq::new(v.len(), |i: int| (v[i].size, v[i].latency.avg_us))
}

/// Two times, the earlier and the later.
pub open spec fn change_text(from: u64, to: u64) -> Seq<char> {
    dec(from as nat) + "\u{2192}"@ + dec(to as nat) + "us"@
}

/// The line on a jump.
pub open spec fn step_line(s: OrderStep) -> Shown {
    Shown::Values(
        "perf::order_step (order "@ + dec(s.order as nat) + ")"@,
        step_fields(s),
    )
}

/// The values of a jump.
pub open spec fn step_fields(s: OrderStep) -> Seq<(Seq<char>, Seq<char>)> {
    seq![
        ("from"@, short_size(s.size_from as nat)),
        ("to"@, short_size(s.size_to as nat)),
        ("avg"@, change_text(s.avg_from, s.avg_to)),
        ("+%"@, tenths_text(scaled(s.increase_pct@, 10))),
    ]
}

/// The values of a drop.
pub open spec fn inversion_fields(v: Inversion) -> Seq<(Seq<char>, Seq<char>)> {
    seq![
        ("larger"@, short_size(v.larger_size as nat)),
        ("smaller"@, short_size(v.smaller_size as nat)),
        ("avg"@, change_text(v.smaller_avg, v.larger_avg)),
        ("-%"@, tenths_text(scaled(v.decrease_pct@, 10))),
    ]
}

/// The lines on jumps.
pub open spec fn step_lines(v: Seq<OrderStep>) -> Seq<Shown> {
    Seq::new(v.len(), |i: int| step_line(v[i]))
}

/// The lines on drops.
pub open spec fn inversion_lines(v: Seq<Inversion>) -> Seq<Shown> {
    Seq::new(v.len(), |i: int| Shown::Values("perf::inversion"@, inversion_fields(v[i])))
}

/// Whether lines are the report of a sweep: the times, the jumps of more than twenty
/// percent, the largest first, and the drops of more than ten.
pub open spec fn boundary_told(v: Seq<SizeStats>, lines: Seq<Shown>) -> bool {
    let p = sweep_points(v);
    exists|steps: Seq<OrderStep>, drops: Seq<Inversion>|
        #![trigger step_lines(steps), inversion_lines(drops)]
        {
            &&& steps_at(steps, p, descending(p, jump_points(p, of_int(20))))
            &&& inversions_at(drops, p, drop_points(p))
            &&& lines == seq![times_table("perf::order_boundary"@, v)] + step_lines(steps)
                + inversion_lines(drops)
        }
}

fn change(from: u64, to: u64) -> (s: String)
    ensures
        s@ == change_text(from, to),
{
    broadcast use group_concat;
    let mut s = dec_string(from);
    s.append("\u{2192}");
    push_dec(&mut s, to);
    s.append("us");
    s
}

fn push_step(lines: &mut Vec<Line>, s: &OrderStep)
    requires
        s.increase_pct.wf(),
    ensures
        shown(final(lines)@) == shown(old(lines)@).push(step_line(*s)),
{
    broadcast use group_concat;
    let mut name = text("perf::order_step (order ");
    push_dec(&mut name, s.order as u64);
    name.append(")");
    let mut pct = String::new();
    s.increase_pct.push_one_decimal(&mut pct);
    let fields = vec![
        Field { name: "from", value: human_size(s.size_from) },
        Field { name: "to", value: human_size(s.size_to) },
        Field { name: "avg", value: change(s.avg_from, s.avg_to) },
        Field { name: "+%", value: pct },
    ];
    assert(field_texts(fields@) =~= step_fields(*s));
    push_values(lines, name, fields);
}

fn push_inversion(lines: &mut Vec<Line>, v: &Inversion)
    requires
        v.decrease_pct.wf(),
    ensures
        shown(final(lines)@) == shown(old(lines)@).push(
            Shown::Values("perf::inversion"@, inversion_fields(*v)),
        ),
{
    broadcast use group_concat;
    let mut pct = String::new();
    v.decrease_pct.push_one_decimal(&mut pct);
    let fields = vec![
        Field { name: "larger", value: human_size(v.larger_size) },
        Field { name: "smaller", value: human_size(v.smaller_size) },
        Field { name: "avg", value: change(v.smaller_avg, v.larger_avg) },
        Field { name: "-%", value: pct },
    ];
    assert(field_texts(fields@) =~= inversion_fields(*v));
    push_values(lines, text("perf::inversion"), fields);
}

/// The report of a sweep over the sizes where the order of blocks changes.
pub fn boundary_report(times: &[SizeStats]) -> (lines: Vec<Line>)
    ensures
        boundary_told(times@, shown(lines@)),
{
    let mut points: Vec<(u64, u64)> = Vec::new();
    let mut i: usize = 0;
    while i < times.len()
        invariant
            i <= times@.len(),
            points@ == sweep_points(times@).take(i as int),
        decreases times@.len() - i,
    {
        points.push((times[i].size, times[i].latency.avg_us));
        assert(points@ =~= sweep_points(times@).take(i + 1));
        i = i + 1;
    }
    let ghost p = sweep_points(times@);
    assert(points@ =~= p);
    let mut lines: Vec<Line> = Vec::new();
    assert(shown(lines@) =~= Seq::empty());
    push_times_table(&mut lines, "perf::order_boundary", rows_of(times), Ghost(times@));
    let ghost start = shown(lines@);
    assert(start =~= seq![times_table("perf::order_boundary"@, times@)]);
    let steps = detect_order_steps(points.as_slice(), Double::from_int(20));
    let ghost at = descending(p, jump_points(p, of_int(20)));
    assert(start + step_lines(steps@.take(0)) =~= start);
    let mut i: usize = 0;
    while i < steps.len()
        invariant
            i <= steps@.len(),
            steps_at(steps@, p, at),
            shown(lines@) == start + step_lines(steps@.take(i as int)),
        decreases steps@.len() - i,
    {
        assert(is_step(steps@[i as int], p[at[i as int]], p[at[i as int] + 1]));
        push_step(&mut lines, &steps[i]);
        i = i + 1;
        assert(shown(lines@) =~= start + step_lines(steps@.take(i as int)));
    }
    assert(steps@.take(i as int) =~= steps@);
    let ghost mid = shown(lines@);
    let drops = detect_inversions(points.as_slice());
    let ghost at = drop_points(p);
    assert(mid + inversion_lines(drops@.take(0)) =~= mid);
    let mut i: usize = 0;
    while i < drops.len()
        invariant
            i <= drops@.len(),
            inversions_at(drops@, p, at),
            shown(lines@) == mid + inversion_lines(drops@.take(i as int)),
        decreases drops@.len() - i,
    {
        assert(is_inversion(drops@[i as int], p[at[i as int]], p[at[i as int] + 1]));
        push_inversion(&mut lines, &drops[i]);
        i = i + 1;
        assert(shown(lines@) =~= mid + inversion_lines(drops@.take(i as int)));
    }
    assert(drops@.take(i as int) =~= drops@);
    lines
}

/// A test of whether two groups of times differ.
#[derive(Clone, Copy, Debug)]
pub struct Effect {
    pub t_stat: Signed,
    pub cohens_d: Signed,
    pub sig: &'static str,
    pub effect: &'static str,
}

/// The values of times before and after a pool is filled.
pub open spec fn warm_fields(cold: LatencyStats, warm: LatencyStats) -> Seq<
    (Seq<char>, Seq<char>),
> {
    seq![
        ("cold_p50"@, dec(cold.p50_us as nat)),
        ("cold_p95"@, dec(cold.p95_us as nat)),
        ("warm_p50"@, dec(warm.p50_us as nat)),
        ("warm_p95"@, dec(warm.p95_us as nat)),
    ]
}

/// The values of a test.
pub open spec fn effect_fields(e: Effect) -> Seq<(Seq<char>, Seq<char>)> {
    seq![
        ("t"@, e.t_stat.hundredths()),
        ("d"@, e.cohens_d.hundredths()),
        ("sig"@, e.sig@),
        ("effect"@, e.effect@),
    ]
}

/// The report of filling a pool.
pub open spec fn warm_lines(cold: LatencyStats, warm: LatencyStats, e: Option<Effect>) -> Seq<
    Shown,
> {
    seq![Shown::Values("perf::pool_warmup"@, warm_fields(cold, warm))] + match e {
        Some(e) => seq![Shown::Values("perf::pool_effect"@, effect_fields(e))],
        None => Seq::empty(),
    }
}

/// The report of filling a pool.
pub fn warmup_report(cold: &LatencyStats, warm: &LatencyStats, e: &Option<Effect>) -> (lines: Vec<
    Line,
>)
    requires
        e matches Some(e) ==> holdable(e.t_stat.size) && holdable(e.cohens_d.size),
    ensures
        shown(lines@) == warm_lines(*cold, *warm, *e),
{
    let mut lines: Vec<Line> = Vec::new();
    let fields = vec![
        number("cold_p50", cold.p50_us),
        number("cold_p95", cold.p95_us),
        number("warm_p50", warm.p50_us),
        number("warm_p95", warm.p95_us),
    ];
    assert(field_texts(fields@) =~= warm_fields(*cold, *warm));
    assert(shown(lines@) =~= Seq::empty());
    push_values(&mut lines, text("perf::pool_warmup"), fields);
    if let Some(e) = e {
        let fields = vec![
            Field { name: "t", value: e.t_stat.two_decimals() },
            Field { name: "d", value: e.cohens_d.two_decimals() },
            value("sig", e.sig),
            value("effect", e.effect),
        ];
        assert(field_texts(fields@) =~= effect_fields(*e));
        push_values(&mut lines, text("perf::pool_effect"), fields);
    }
    assert(shown(lines@) =~= warm_lines(*cold, *warm, *e));
    lines
}

/// The middle of the first ten and of the last ten times of a phase.
#[derive(Clone, Copy, Debug)]
pub struct Phase {
    pub number: u32,
    pub size: u64,
    pub first_us: u64,
    pub last_us: u64,
}

/// The rows of phases.
pub open spec fn phase_rows(v: Seq<Phase>) -> Seq<Seq<Seq<char>>> {
    Seq::new(
        v.len(),
        |i: int|
            seq![
                dec(v[i].number as nat),
                short_size(v[i].size as nat),
                dec(v[i].first_us as nat),
                dec(v[i].last_us as nat),
            ],
    )
}

/// The values of a return to the first size.
pub open spec fn return_fields(first: u64, last: u64) -> Seq<(Seq<char>, Seq<char>)> {
    let q = quotient(of_int(last as nat), of_int(first as nat));
    seq![
        ("ph1_avg"@, dec(first as nat)),
        ("ph3_avg"@, dec(last as nat)),
        ("ratio"@, hundredths_text(scaled(q, 100))),
        ("verdict"@, hysteresis_verdict(q)),
    ]
}

/// The line on the return to the first size, where both phases have an average and the
/// first is not zero.
pub open spec fn return_lines(averages: Option<(u64, u64)>) -> Seq<Shown> {
    match averages {
        Some(a) => only_if(
            a.0 > 0,
            Shown::Values("perf::hysteresis"@, return_fields(a.0, a.1)),
        ),
        None => Seq::empty(),
    }
}

/// The line on how soon a phase settles, where it does.
pub open spec fn settled_lines(phase: nat, after: Option<usize>) -> Seq<Shown> {
    match after {
        Some(n) => seq![
            Shown::Values(
                "perf::converge_ph"@ + dec(phase),
                seq![("after"@, dec(n as nat) + " allocs"@)],
            ),
        ],
        None => Seq::empty(),
    }
}

/// The report of a change of size and back.
pub open spec fn switch_lines(
    phases: Seq<Phase>,
    averages: Option<(u64, u64)>,
    second: Option<usize>,
    third: Option<usize>,
) -> Seq<Shown> {
    seq![
        Shown::Table(
            "perf::size_switch"@,
            None,
            seq!["ph"@, "size"@, "first10_p50"@, "last10_p50"@],
            phase_rows(phases),
        ),
    ] + return_lines(averages) + settled_lines(2, second) + settled_lines(3, third)
}

fn push_settled(lines: &mut Vec<Line>, phase: u64, after: Option<usize>)
    ensures
        shown(final(lines)@) == shown(old(lines)@) + settled_lines(phase as nat, after),
{
    broadcast use group_concat;
    let ghost start = shown(lines@);
    if let Some(n) = after {
        let mut name = text("perf::converge_ph");
        push_dec(&mut name, phase);
        let mut many = dec_string(n as u64);
        many.append(" allocs");
        let fields = vec![Field { name: "after", value: many }];
        assert(field_texts(fields@) =~= seq![("after"@, dec(n as nat) + " allocs"@)]);
        push_values(lines, name, fields);
    }
    assert(shown(lines@) =~= start + settled_lines(phase as nat, after));
}

/// The report of a change of size and back: `averages` are those of the first and third
/// phase, `second` and `third` after how many allocations those phases settle.
pub fn switch_report(
    phases: &[Phase],
    averages: Option<(u64, u64)>,
    second: Option<usize>,
    third: Option<usize>,
) -> (lines: Vec<Line>)
    ensures
        shown(lines@) == switch_lines(phases@, averages, second, third),
{
    let mut rows: Vec<Vec<String>> = Vec::new();
    let mut i: usize = 0;
    while i < phases.len()
        invariant
            i <= phases@.len(),
            rows@.len() == i,
            forall|j: int| 0 <= j < i ==> strings((#[trigger] rows@[j])@) == phase_rows(phases@)[j],
        decreases phases@.len() - i,
    {
        let p = &phases[i];
        let row = vec![
            dec_string(p.number as u64),
            human_size(p.size),
            dec_string(p.first_us),
            dec_string(p.last_us),
        ];
        assert(strings(row@) =~= phase_rows(phases@)[i as int]);
        rows.push(row);
        i = i + 1;
    }
    let header = vec!["ph", "size", "first10_p50", "last10_p50"];
    proof {
        assert(headings(header@) =~= seq!["ph"@, "size"@, "first10_p50"@, "last10_p50"@]);
        assert(row_texts(rows@) =~= phase_rows(phases@));
    }
    let mut lines: Vec<Line> = Vec::new();
    assert(shown(lines@) =~= Seq::empty());
    push_table(&mut lines, "perf::size_switch", None, header, rows);
    let ghost start = shown(lines@);
    if let Some((first, last)) = averages {
        if let Some((ratio, verdict)) = hysteresis(first, last) {
            let fields = vec![
                number("ph1_avg", first),
                number("ph3_avg", last),
                Field { name: "ratio", value: ratio },
                value("verdict", verdict),
            ];
            assert(field_texts(fields@) =~= return_fields(first, last));
            push_values(&mut lines, text("perf::hysteresis"), fields);
        }
    }
    assert(shown(lines@) =~= start + return_lines(averages));
    push_settled(&mut lines, 2, second);
    push_settled(&mut lines, 3, third);
    assert(shown(lines@) =~= switch_lines(phases@, averages, second, third));
    lines
}

/// The row of a buffer that does not fill its pages.
pub open spec fn frag_row(size: u64, actual: i64, granularity: u64) -> Seq<Seq<char>> {
    seq![
        dec(size as nat),
        dec(actual as nat),
        dec(aligned(size as nat, granularity as nat)),
        frag_text(size as nat, actual as nat, granularity as nat),
    ]
}

/// The rows of buffers that do not fill their pages.
pub open spec fn frag_rows(actual: Seq<i64>, granularity: u64) -> Seq<Seq<Seq<char>>> {
    Seq::new(actual.len(), |i: int| frag_row(FRAG_SIZES@[i], actual[i], granularity))
}

/// The report of buffers that do not fill their pages: what was asked for, what came,
/// what whole granules take, and the surplus.
pub fn frag_report(actual: &[i64], granularity: u64) -> (lines: Vec<Line>)
    requires
        actual@.len() <= 6,
        forall|i: int| 0 <= i < actual@.len() ==> #[trigger] actual@[i] >= 0,
        forall|i: int|
            0 <= i < 6 ==> aligned(#[trigger] FRAG_SIZES@[i] as nat, granularity as nat)
                <= u64::MAX,
    ensures
        shown(lines@) == seq![
            Shown::Table(
                "perf::internal_frag"@,
                None,
                seq!["req"@, "actual"@, "expected"@, "frag%"@],
                frag_rows(actual@, granularity),
            ),
        ],
{
    let mut rows: Vec<Vec<String>> = Vec::new();
    let mut i: usize = 0;
    while i < actual.len()
        invariant
            i <= actual@.len() <= 6,
            forall|j: int| 0 <= j < actual@.len() ==> #[trigger] actual@[j] >= 0,
            forall|j: int|
                0 <= j < 6 ==> aligned(#[trigger] FRAG_SIZES@[j] as nat, granularity as nat)
                    <= u64::MAX,
            rows@.len() == i,
            forall|j: int|
                0 <= j < i ==> strings((#[trigger] rows@[j])@) == frag_rows(
                    actual@,
                    granularity,
                )[j],
        decreases actual@.len() - i,
    {
        let size: u64 = FRAG_SIZES[i];
        assert(size > 0);
        let got: u64 = actual[i] as u64;
        let row = vec![
            dec_string(size),
            dec_string(got),
            dec_string(align_to(size, granularity)),
            frag_pct(size, got, granularity),
        ];
        assert(strings(row@) =~= frag_row(size, actual@[i as int], granularity));
        rows.push(row);
        i = i + 1;
    }
    let header = vec!["req", "actual", "expected", "frag%"];
    proof {
        assert(headings(header@) =~= seq!["req"@, "actual"@, "expected"@, "frag%"@]);
        assert(row_texts(rows@) =~= frag_rows(actual@, granularity));
    }
    let mut lines: Vec<Line> = Vec::new();
    push_table(&mut lines, "perf::internal_frag", None, header, rows);
    assert(shown(lines@) =~= seq![
        Shown::Table(
            "perf::internal_frag"@,
            None,
            seq!["req"@, "actual"@, "expected"@, "frag%"@],
            frag_rows(actual@, granularity),
        ),
    ]);
    lines
}

/// The rows of the times of an operation.
pub open spec fn op_rows(v: Seq<SizeStats>) -> Seq<Seq<Seq<char>>> {
    Seq::new(v.len(), |i: int| op_row(v[i].size as nat, v[i].latency))
}

/// The header of the table of an operation.
pub open spec fn op_header() -> Seq<Seq<char>> {
    seq!["size"@, "avg"@, "sd"@, "p50"@, "p95"@, "p99"@, "p99.9"@, "ops/s"@]
}

/// The table of the times of an operation.
pub fn op_report(op: Op, times: &[SizeStats]) -> (line: Line)
    ensures
        line@ == Shown::Table(
            "microbench::"@ + op_name(op),
            Some("(us)"@),
            op_header(),
            op_rows(times@),
        ),
{
    let mut rows: Vec<Vec<String>> = Vec::new();
    let mut i: usize = 0;
    while i < times.len()
        invariant
            i <= times@.len(),
            rows@.len() == i,
            forall|j: int| 0 <= j < i ==> strings((#[trigger] rows@[j])@) == op_rows(times@)[j],
        decreases times@.len() - i,
    {
        rows.push(size_row(times[i].size, &times[i].latency));
        i = i + 1;
    }
    let header = vec!["size", "avg", "sd", "p50", "p95", "p99", "p99.9", "ops/s"];
    proof {
        assert(headings(header@) =~= op_header());
        assert(row_texts(rows@) =~= op_rows(times@));
    }
    Line::Table { name: op.test_name(), unit: Some("(us)"), header, rows }
}

} // verus!
