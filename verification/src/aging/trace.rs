//! What is told of an aging run while it goes on: when, and which counters.
use crate::aging::state::{as_signed, signed, AgingState};
use crate::double::{floor, of_int, product, Double};
use vstd::prelude::*;

verus! {

/// So many milliseconds go by between two looks at whether a run is over.
pub const REPORT_CHUNK_MS: u64 = 10;

/// What one who tells of a run does next.
#[derive(Clone, Copy, PartialEq, Eq, Structural, Debug)]
pub enum ReporterAction {
    /// Stops: the run is over.
    Stop,
    /// Waits so many milliseconds.
    Sleep(u64),
    /// Tells of the interval.
    Report,
}

/// What comes next, after so many milliseconds of an interval: nothing once the run is
/// over; a wait, in short chunks, until the interval is over; and then the report.
pub open spec fn next_action(running: bool, waited_ms: u64, interval_ms: u64) -> ReporterAction {
    if !running {
        ReporterAction::Stop
    } else if waited_ms >= interval_ms {
        ReporterAction::Report
    } else if interval_ms - waited_ms < REPORT_CHUNK_MS {
        ReporterAction::Sleep((interval_ms - waited_ms) as u64)
    } else {
        ReporterAction::Sleep(REPORT_CHUNK_MS)
    }
}

/// What comes next, after so many milliseconds of an interval.
pub fn reporter_step(running: bool, waited_ms: u64, interval_ms: u64) -> (r: ReporterAction)
    ensures
        r == next_action(running, waited_ms, interval_ms),
{
    if !running {
        return ReporterAction::Stop;
    }
    if waited_ms >= interval_ms {
        return ReporterAction::Report;
    }
    let left: u64 = interval_ms - waited_ms;
    if left < REPORT_CHUNK_MS {
        ReporterAction::Sleep(left)
    } else {
        ReporterAction::Sleep(REPORT_CHUNK_MS)
    }
}

/// As long as a run goes on and an interval is not over, there is a wait, and it does not
/// go beyond the interval.
pub proof fn law_waits_end_at_the_interval(waited_ms: u64, interval_ms: u64)
    requires
        waited_ms < interval_ms,
    ensures
        next_action(true, waited_ms, interval_ms) matches ReporterAction::Sleep(ms) && 0 < ms
            && waited_ms + ms <= interval_ms,
{
}

/// A counter of a trace.
#[derive(Clone, Copy, Debug)]
pub struct Counter {
    pub name: &'static str,
    pub value: i64,
}

/// The names and values of counters.
pub open spec fn counted(v: Seq<Counter>) -> Seq<(Seq<char>, int)> {
    Seq::new(v.len(), |i: int| (v[i].name@, v[i].value as int))
}

/// The trend in hundredths, without its fraction, or the largest number.
pub open spec fn trend_hundredths(state: AgingState) -> int {
    let f = floor(product(state.trend_parts(), of_int(100)));
    if f < i64::MAX {
        f as int
    } else {
        i64::MAX as int
    }
}

/// The counters of a run: what is held, the trend, and how often memory or descriptors
/// ran out.
pub fn trace_counters(state: &AgingState) -> (v: Vec<Counter>)
    ensures
        counted(v@) == seq![
            ("held_bufs"@, signed(state.held_bufs)),
            ("held_bytes_mb"@, (state.held_bytes / 0x10_0000) as int),
            ("trend_x100"@, trend_hundredths(*state)),
            ("enomem_total"@, signed(state.total_enomem)),
            ("emfile_total"@, signed(state.total_emfile)),
        ],
{
    let trend = state.trend().times(Double::from_int(100)).whole_up_to(i64::MAX as u64);
    let v: Vec<Counter> = vec![
        Counter { name: "held_bufs", value: as_signed(state.held_bufs) },
        Counter { name: "held_bytes_mb", value: (state.held_bytes / 0x10_0000) as i64 },
        Counter { name: "trend_x100", value: trend as i64 },
        Counter { name: "enomem_total", value: as_signed(state.total_enomem) },
        Counter { name: "emfile_total", value: as_signed(state.total_emfile) },
    ];
    assert(counted(v@) =~= seq![
        ("held_bufs"@, signed(state.held_bufs)),
        ("held_bytes_mb"@, (state.held_bytes / 0x10_0000) as int),
        ("trend_x100"@, trend_hundredths(*state)),
        ("enomem_total"@, signed(state.total_enomem)),
        ("emfile_total"@, signed(state.total_emfile)),
    ]);
    v
}

} // verus!
