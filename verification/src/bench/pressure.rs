//! Memory pressure: how much to allocate, how often to try again, and what came of it.
use crate::number::{dec, dec_int, push_dec, push_dec_wide, push_dec_int};
use crate::text::{
    chars_of, group_concat, is_text, lines, lines_of, string_of, trim, trimmed, words, words_of,
};
use vstd::prelude::*;
use vstd::slice::slice_subrange;

verus! {

/// The least share of the allocations that is tried, in percent.
pub const MIN_RETRY_RATIO: u32 = 70;

/// By how much the share is lowered after a worker was killed.
pub const RETRY_STEP: u32 = 10;

/// The most allocations that are made to exhaust a heap.
pub const MAX_EXHAUST_ALLOCS: usize = 10_000;

/// How many are made where the available memory is not known.
pub const DEFAULT_EXHAUST_LIMIT: usize = 500;

/// One part in so many of the available memory is used.
pub const MEM_USAGE_FRACTION: u64 = 4;

/// How many allocations of a size exhaust a quarter of the available memory: at least
/// one, at most ten thousand.
pub open spec fn exhaust_limit(available_kb: nat, alloc_size: nat) -> nat {
    let n = available_kb * 1024 / 4 / alloc_size;
    if n < 1 {
        1
    } else if n > 10_000 {
        10_000
    } else {
        n
    }
}

/// How many allocations of a size to make, given the available memory where it is
/// known.
pub fn safe_exhaust_limit(available_kb: Option<u64>, alloc_size: u64) -> (r: usize)
    requires
        available_kb is Some ==> alloc_size > 0,
        available_kb matches Some(kb) ==> kb * 1024 <= u64::MAX,
    ensures
        r == match available_kb {
            Some(kb) => exhaust_limit(kb as nat, alloc_size as nat),
            None => 500,
        },
{
    match available_kb {
        Some(kb) => {
            let usable: u64 = kb * 1024 / MEM_USAGE_FRACTION;
            let n: u64 = usable / alloc_size;
            if n < 1 {
                1
            } else if n > MAX_EXHAUST_ALLOCS as u64 {
                MAX_EXHAUST_ALLOCS
            } else {
                n as usize
            }
        },
        None => DEFAULT_EXHAUST_LIMIT,
    }
}

/// The allocations of an attempt.
pub open spec fn attempt_allocs(max_allocs: nat, ratio: nat) -> nat {
    max_allocs * ratio / 100
}

/// The allocations of an attempt at a share of them.
pub fn adjusted_allocs(max_allocs: usize, ratio: u32) -> (r: usize)
    requires
        ratio <= 100,
        max_allocs * ratio <= usize::MAX,
    ensures
        r == attempt_allocs(max_allocs as nat, ratio as nat),
        r <= max_allocs,
{
    proof {
        let m = max_allocs as int;
        let k = ratio as int;
        assert(m * k / 100 <= m) by (nonlinear_arith)
            requires
                0 <= k <= 100,
                m >= 0,
        ;
    }
    max_allocs * ratio as usize / 100
}

/// How a worker ended: with an exit code, or by a signal.
#[derive(Debug, Clone, Copy, PartialEq, Eq, Structural)]
pub enum WorkerEnd {
    Exit(i32),
    Killed,
}

/// What to do after a worker has ended.
#[derive(Debug, Clone, Copy, PartialEq, Eq, Structural)]
pub enum Next {
    /// Read its output.
    Read,
    /// Try again at a smaller share.
    Retry(u32),
    /// Report its exit code.
    ReportExit(i32),
    /// Report that it was killed even at the least share.
    ReportKilled,
}

/// What follows the end of a worker at a share of the allocations.
pub open spec fn next_of(end: WorkerEnd, ratio: u32) -> Next {
    match end {
        WorkerEnd::Exit(code) => if code == 0 {
            Next::Read
        } else {
            Next::ReportExit(code)
        },
        WorkerEnd::Killed => if ratio > MIN_RETRY_RATIO {
            Next::Retry((ratio - RETRY_STEP) as u32)
        } else {
            Next::ReportKilled
        },
    }
}

/// Decides what follows the end of a worker.
pub fn next_attempt(end: WorkerEnd, ratio: u32) -> (r: Next)
    ensures
        r == next_of(end, ratio),
{
    match end {
        WorkerEnd::Exit(code) => if code == 0 {
            Next::Read
        } else {
            Next::ReportExit(code)
        },
        WorkerEnd::Killed => if ratio > MIN_RETRY_RATIO {
            Next::Retry(ratio - RETRY_STEP)
        } else {
            Next::ReportKilled
        },
    }
}

/// The share after so many killed workers, starting with all allocations.
pub open spec fn ratio_after(kills: nat) -> Option<u32>
    decreases kills,
{
    if kills == 0 {
        Some(100)
    } else {
        match ratio_after((kills - 1) as nat) {
            Some(r) => match next_of(WorkerEnd::Killed, r) {
                Next::Retry(s) => Some(s),
                _ => None,
            },
            None => None,
        }
    }
}

/// There are four attempts, at 100, 90, 80 and 70 percent, and no more.
pub proof fn law_four_attempts(kills: nat)
    ensures
        kills < 4 ==> ratio_after(kills) == Some((100 - 10 * kills) as u32),
        kills >= 4 ==> ratio_after(kills) is None,
    decreases kills,
{
    if kills > 0 {
        law_four_attempts((kills - 1) as nat);
    }
}

/// What is said of a worker that ended with an exit code.
pub open spec fn exit_text(code: int) -> Seq<char> {
    "worker exit code "@ + dec_int(code)
}

/// What is said of a worker that ended with an exit code.
pub fn exit_message(code: i32) -> (s: String)
    ensures
        s@ == exit_text(code as int),
{
    broadcast use group_concat;
    let mut s = String::new();
    s.append("worker exit code ");
    push_dec_int(&mut s, code as i64);
    s
}

/// What is said of a worker that was killed at the least share.
pub open spec fn killed_text(ratio: nat, allocs: nat) -> Seq<char> {
    "worker OOM killed even at "@ + dec(ratio) + "% ("@ + dec(allocs) + " allocs)"@
}

/// What is said of a worker that was killed at the least share.
pub fn killed_message(ratio: u32, allocs: usize) -> (s: String)
    ensures
        s@ == killed_text(ratio as nat, allocs as nat),
{
    broadcast use group_concat;
    let mut s = String::new();
    s.append("worker OOM killed even at ");
    push_dec(&mut s, ratio as u64);
    s.append("% (");
    push_dec(&mut s, allocs as u64);
    s.append(" allocs)");
    s
}

/// The outcome of a test.
#[derive(Debug)]
pub struct SubTestResult {
    pub name: String,
    pub passed: bool,
    pub skipped: bool,
    pub error: Option<String>,
}

/// An outcome: the name of the test, whether it passed or was skipped, and what is said
/// of it.
#[verifier::ext_equal]
pub ghost struct Outcome {
    pub name: Seq<char>,
    pub passed: bool,
    pub skipped: bool,
    pub error: Option<Seq<char>>,
}

impl View for SubTestResult {
    type V = Outcome;

    open spec fn view(&self) -> Outcome {
        Outcome {
            name: self.name@,
            passed: self.passed,
            skipped: self.skipped,
            error: match self.error {
                Some(e) => Some(e@),
                None => None,
            },
        }
    }
}

/// Several outcomes.
pub open spec fn outcomes(v: Seq<SubTestResult>) -> Seq<Outcome> {
    Seq::new(v.len(), |i: int| v[i]@)
}

/// Where a text first occurs in another, or the other's length.
pub open spec fn occurrence(s: Seq<char>, p: Seq<char>) -> int
    decreases s.len(),
{
    if s.len() == 0 || (p.len() <= s.len() && s.take(p.len() as int) == p) {
        0
    } else {
        1 + occurrence(s.skip(1), p)
    }
}

/// Whether a text occurs in another.
pub open spec fn holds(s: Seq<char>, p: Seq<char>) -> bool {
    occurrence(s, p) < s.len()
}

/// The name of the test in a line: the first word behind the first double colon.
pub open spec fn test_name(line: Seq<char>) -> Seq<char> {
    if !holds(line, "::"@) {
        "unknown"@
    } else {
        let w = words(line.skip(occurrence(line, "::"@) + 2));
        if w.len() == 0 {
            "unknown"@
        } else {
            w[0]
        }
    }
}

/// What a line of a worker's output says: the outcome of a test, or nothing.
pub open spec fn line_outcome(line: Seq<char>, ratio: nat) -> Option<Outcome> {
    let t = trim(line);
    if holds(t, "[PASS]"@) {
        Some(
            Outcome {
                name: test_name(t),
                passed: true,
                skipped: false,
                error: if ratio < 100 {
                    Some("at "@ + dec(ratio) + "% capacity"@)
                } else {
                    None
                },
            },
        )
    } else if holds(t, "[FAIL]"@) {
        Some(Outcome { name: test_name(t), passed: false, skipped: false, error: Some(t) })
    } else {
        None
    }
}

/// What lines of a worker's output say.
pub open spec fn output_outcomes(lines: Seq<Seq<char>>, ratio: nat) -> Seq<Outcome>
    decreases lines.len(),
{
    if lines.len() == 0 {
        Seq::empty()
    } else {
        let before = output_outcomes(lines.drop_last(), ratio);
        match line_outcome(lines.last(), ratio) {
            Some(o) => before.push(o),
            None => before,
        }
    }
}

fn find_text(s: &[char], p: &str) -> (r: usize)
    requires
        p@.len() > 0,
    ensures
        r == occurrence(s@, p@),
        r <= s@.len(),
        r < s@.len() ==> r + p@.len() <= s@.len(),
{
    let pat = chars_of(p);
    let n: usize = pat.len();
    let mut i: usize = 0;
    assert(s@.skip(0) =~= s@);
    while i < s.len()
        invariant
            i <= s@.len(),
            n == pat@.len(),
            n > 0,
            pat@ == p@,
            occurrence(s@, p@) == i + occurrence(s@.skip(i as int), p@),
        decreases s@.len() - i,
    {
        if s.len() - i >= n {
            let part = slice_subrange(s, i, i + n);
            assert(part@ =~= s@.skip(i as int).take(n as int));
            if is_text(part, p) {
                return i;
            }
        }
        proof {
            assert(s@.skip(i as int).skip(1) =~= s@.skip(i + 1));
        }
        i = i + 1;
    }
    i
}

fn extract(line: &[char]) -> (s: String)
    ensures
        s@ == test_name(line@),
{
    broadcast use group_concat;
    proof {
        reveal_strlit("::");
    }
    let pos: usize = find_text(line, "::");
    let mut s = String::new();
    if pos < line.len() {
        let rest = slice_subrange(line, pos + 2, line.len());
        assert(rest@ =~= line@.skip(pos + 2));
        let w = words_of(rest);
        if w.len() > 0 {
            return string_of(w[0]);
        }
    }
    s.append("unknown");
    s
}

/// The name of the test in a line of a worker's output.
pub fn extract_test_name(line: &str) -> (s: String)
    ensures
        s@ == test_name(line@),
{
    let c = chars_of(line);
    extract(c.as_slice())
}

fn read_line(line: &[char], ratio: u32) -> (r: Option<SubTestResult>)
    ensures
        match r {
            Some(o) => line_outcome(line@, ratio as nat) == Some(o@),
            None => line_outcome(line@, ratio as nat) is None,
        },
{
    broadcast use group_concat;
    proof {
        reveal_strlit("[PASS]");
        reveal_strlit("[FAIL]");
    }
    let t = trimmed(line);
    if find_text(t, "[PASS]") < t.len() {
        let error: Option<String> = if ratio < 100 {
            let mut e = String::new();
            e.append("at ");
            push_dec(&mut e, ratio as u64);
            e.append("% capacity");
            Some(e)
        } else {
            None
        };
        Some(SubTestResult { name: extract(t), passed: true, skipped: false, error })
    } else if find_text(t, "[FAIL]") < t.len() {
        Some(
            SubTestResult {
                name: extract(t),
                passed: false,
                skipped: false,
                error: Some(string_of(t)),
            },
        )
    } else {
        None
    }
}

/// Reads the outcomes of tests from a worker's output.
pub fn parse_worker_output(stdout: &str, ratio: u32) -> (r: Vec<SubTestResult>)
    ensures
        outcomes(r@) == output_outcomes(lines(stdout@), ratio as nat),
{
    let c = chars_of(stdout);
    let all = lines_of(c.as_slice());
    let ghost texts = crate::text::texts(all@);
    let mut r: Vec<SubTestResult> = Vec::new();
    let mut i: usize = 0;
    assert(texts.take(0) =~= Seq::empty());
    assert(outcomes(r@) =~= Seq::empty());
    while i < all.len()
        invariant
            i <= all@.len(),
            texts == crate::text::texts(all@),
            outcomes(r@) == output_outcomes(texts.take(i as int), ratio as nat),
        decreases all@.len() - i,
    {
        proof {
            assert(texts.take(i + 1).drop_last() =~= texts.take(i as int));
            assert(texts.take(i + 1).last() == all@[i as int]@);
        }
        let ghost before = r@;
        match read_line(all[i], ratio) {
            Some(o) => {
                r.push(o);
                assert(outcomes(r@) =~= outcomes(before).push(o@));
            },
            None => {},
        }
        i = i + 1;
    }
    assert(texts.take(texts.len() as int) =~= texts);
    r
}

/// The outcome that stands for a worker that did not end well.
pub open spec fn worker_failed(message: Seq<char>) -> Outcome {
    Outcome {
        name: "pressure_subprocess"@,
        passed: false,
        skipped: false,
        error: Some(message),
    }
}

/// The outcome of a worker that ended with an exit code.
pub fn exit_outcome(code: i32) -> (r: SubTestResult)
    ensures
        r@ == worker_failed(exit_text(code as int)),
{
    SubTestResult {
        name: "pressure_subprocess".to_owned(),
        passed: false,
        skipped: false,
        error: Some(exit_message(code)),
    }
}

/// The outcome of a worker that was killed at the least share.
pub fn killed_outcome(ratio: u32, allocs: usize) -> (r: SubTestResult)
    ensures
        r@ == worker_failed(killed_text(ratio as nat, allocs as nat)),
{
    SubTestResult {
        name: "pressure_subprocess".to_owned(),
        passed: false,
        skipped: false,
        error: Some(killed_message(ratio, allocs)),
    }
}

/// What follows the end of a worker, with what there is to tell.
#[derive(Debug)]
pub enum Followed {
    /// Another worker, at a smaller share.
    Again(u32),
    /// These outcomes, and this error.
    Told(Vec<SubTestResult>, Option<String>),
}

/// The outcomes that a worker's end leaves to tell, where no other worker follows.
pub open spec fn left_to_tell(
    end: WorkerEnd,
    stdout: Seq<char>,
    max_allocs: nat,
    ratio: u32,
) -> Seq<Outcome> {
    match next_of(end, ratio) {
        Next::Read => output_outcomes(lines(stdout), ratio as nat),
        Next::Retry(_) => Seq::empty(),
        Next::ReportExit(code) => seq![worker_failed(exit_text(code as int))],
        Next::ReportKilled => seq![
            worker_failed(killed_text(ratio as nat, attempt_allocs(max_allocs, ratio as nat))),
        ],
    }
}

/// Goes on after a worker has ended, at a share of the allocations: with another worker, or
/// with what there is to tell. How a worker ended is an outcome, and never an error.
pub fn after_worker(end: WorkerEnd, stdout: &str, max_allocs: usize, ratio: u32) -> (r: Followed)
    requires
        ratio <= 100,
        max_allocs * ratio <= usize::MAX,
    ensures
        match r {
            Followed::Again(smaller) => next_of(end, ratio) == Next::Retry(smaller),
            Followed::Told(results, error) => {
                &&& !(next_of(end, ratio) is Retry)
                &&& outcomes(results@) == left_to_tell(end, stdout@, max_allocs as nat, ratio)
                &&& error is None
            },
        },
{
    let mut results: Vec<SubTestResult> = Vec::new();
    match next_attempt(end, ratio) {
        Next::Read => {
            results = parse_worker_output(stdout, ratio);
        },
        Next::Retry(smaller) => {
            return Followed::Again(smaller);
        },
        Next::ReportExit(code) => {
            results.push(exit_outcome(code));
        },
        Next::ReportKilled => {
            results.push(killed_outcome(ratio, adjusted_allocs(max_allocs, ratio)));
        },
    }
    assert(outcomes(results@) =~= left_to_tell(end, stdout@, max_allocs as nat, ratio));
    Followed::Told(results, None)
}

/// How many allocations each worker of a run is asked for, the first at a share of them all,
/// where the workers end one after the other in these ways.
pub open spec fn asked_of_workers(
    max_allocs: nat,
    ratio: u32,
    ends: Seq<(WorkerEnd, Seq<char>)>,
) -> Seq<nat>
    decreases ends.len(),
{
    if ends.len() == 0 {
        Seq::empty()
    } else {
        seq![attempt_allocs(max_allocs, ratio as nat)] + match next_of(ends[0].0, ratio) {
            Next::Retry(smaller) => asked_of_workers(max_allocs, smaller, ends.skip(1)),
            _ => Seq::empty(),
        }
    }
}

/// What such a run tells, once no worker follows.
pub open spec fn run_tells(
    max_allocs: nat,
    ratio: u32,
    ends: Seq<(WorkerEnd, Seq<char>)>,
) -> Option<Seq<Outcome>>
    decreases ends.len(),
{
    if ends.len() == 0 {
        None
    } else {
        match next_of(ends[0].0, ratio) {
            Next::Retry(smaller) => run_tells(max_allocs, smaller, ends.skip(1)),
            _ => Some(left_to_tell(ends[0].0, ends[0].1, max_allocs, ratio)),
        }
    }
}

/// Where every worker is killed there are four, at 100, 90, 80 and 70 percent of the
/// allocations, and the run tells of one failed test.
pub proof fn law_four_killed_workers(max_allocs: nat, ends: Seq<(WorkerEnd, Seq<char>)>)
    requires
        ends.len() >= 4,
        forall|i: int| 0 <= i < 4 ==> (#[trigger] ends[i]).0 is Killed,
    ensures
        asked_of_workers(max_allocs, 100, ends) == seq![
            max_allocs * 100 / 100,
            max_allocs * 90 / 100,
            max_allocs * 80 / 100,
            max_allocs * 70 / 100,
        ],
        run_tells(max_allocs, 100, ends) == Some(
            seq![worker_failed(killed_text(70, (max_allocs * 70 / 100) as nat))],
        ),
{
    let e1 = ends.skip(1);
    let e2 = e1.skip(1);
    let e3 = e2.skip(1);
    assert(e1[0] == ends[1]);
    assert(e2[0] == ends[2]);
    assert(e3[0] == ends[3]);
    let last = asked_of_workers(max_allocs, 70, e3);
    assert(last =~= seq![attempt_allocs(max_allocs, 70)]);
    let third = asked_of_workers(max_allocs, 80, e2);
    assert(third =~= seq![attempt_allocs(max_allocs, 80), attempt_allocs(max_allocs, 70)]);
    let second = asked_of_workers(max_allocs, 90, e1);
    assert(second == seq![attempt_allocs(max_allocs, 90)] + third);
    assert(asked_of_workers(max_allocs, 100, ends) == seq![attempt_allocs(max_allocs, 100)]
        + second);
    assert(run_tells(max_allocs, 70, e3) is Some);
    assert(run_tells(max_allocs, 80, e2) == run_tells(max_allocs, 70, e3));
    assert(run_tells(max_allocs, 90, e1) == run_tells(max_allocs, 80, e2));
}

/// A worker that ends by itself ends the run, at whatever share: the run tells what its
/// output tells, or of one failed test with its exit code.
pub proof fn law_exit_ends_the_run(
    max_allocs: nat,
    ratio: u32,
    ends: Seq<(WorkerEnd, Seq<char>)>,
)
    requires
        ends.len() > 0,
        ends[0].0 is Exit,
    ensures
        asked_of_workers(max_allocs, ratio, ends) == seq![
            attempt_allocs(max_allocs, ratio as nat),
        ],
        run_tells(max_allocs, ratio, ends) == Some(
            if ends[0].0 == WorkerEnd::Exit(0) {
                output_outcomes(lines(ends[0].1), ratio as nat)
            } else {
                seq![worker_failed(exit_text(ends[0].0->Exit_0 as int))]
            },
        ),
{
}

/// The line on filling a heap.
pub open spec fn exhaust_text(heap: Seq<char>, count: nat, total_mb: nat, avg_us: nat) -> Seq<char> {
    "["@ + heap + "] pressure::gradual_exhaust count="@ + dec(count) + " total_mb="@ + dec(total_mb)
        + " avg_latency_us="@ + dec(avg_us)
}

/// The line on filling a heap with `count` buffers.
pub fn exhaust_line(heap: &str, count: usize, alloc_size: u64, avg_us: u64) -> (s: String)
    ensures
        s@ == exhaust_text(
            heap@,
            count as nat,
            (count * alloc_size) as nat / 0x10_0000,
            avg_us as nat,
        ),
{
    broadcast use group_concat;
    let mut s = String::new();
    s.append("[");
    s.append(heap);
    s.append("] pressure::gradual_exhaust count=");
    push_dec(&mut s, count as u64);
    s.append(" total_mb=");
    proof {
        let a = count as int;
        let b = alloc_size as int;
        assert(0 <= a * b <= u64::MAX * u64::MAX) by (nonlinear_arith)
            requires
                0 <= a <= u64::MAX,
                0 <= b <= u64::MAX,
        ;
    }
    push_dec_wide(&mut s, count as u128 * alloc_size as u128 / 0x10_0000);
    s.append(" avg_latency_us=");
    push_dec(&mut s, avg_us);
    s
}

/// The line on recovery.
pub open spec fn recovery_text(
    heap: Seq<char>,
    before: nat,
    released: nat,
    recovered: nat,
    avg_us: nat,
) -> Seq<char> {
    "["@ + heap + "] pressure::recovery total_before="@ + dec(before) + " released="@ + dec(
        released,
    ) + " recovered="@ + dec(recovered) + " avg_recovery_us="@ + dec(avg_us)
}

/// The line on several at once.
pub open spec fn concurrent_text(heap: Seq<char>, workers: nat, each: nat, failures: nat) -> Seq<
    char,
> {
    "["@ + heap + "] pressure::pressure_concurrent workers="@ + dec(workers)
        + " allocs_per_worker="@ + dec(each) + " unexpected_failures="@ + dec(failures)
}

/// The line on recovery after some buffers were released.
pub fn recovery_line(heap: &str, before: usize, released: usize, recovered: usize, avg_us: u64) -> (s:
    String)
    ensures
        s@ == recovery_text(
            heap@,
            before as nat,
            released as nat,
            recovered as nat,
            avg_us as nat,
        ),
{
    broadcast use group_concat;
    let mut s = String::new();
    s.append("[");
    s.append(heap);
    s.append("] pressure::recovery total_before=");
    push_dec(&mut s, before as u64);
    s.append(" released=");
    push_dec(&mut s, released as u64);
    s.append(" recovered=");
    push_dec(&mut s, recovered as u64);
    s.append(" avg_recovery_us=");
    push_dec(&mut s, avg_us);
    s
}

/// The line on several at once.
pub fn concurrent_line(heap: &str, workers: usize, each: usize, failures: usize) -> (s: String)
    ensures
        s@ == concurrent_text(heap@, workers as nat, each as nat, failures as nat),
{
    broadcast use group_concat;
    let mut s = String::new();
    s.append("[");
    s.append(heap);
    s.append("] pressure::pressure_concurrent workers=");
    push_dec(&mut s, workers as u64);
    s.append(" allocs_per_worker=");
    push_dec(&mut s, each as u64);
    s.append(" unexpected_failures=");
    push_dec(&mut s, failures as u64);
    s
}

/// A heap is filled with no more than a quarter of the available memory, unless a single
/// buffer is more than that, and with no fewer buffers than fit, up to ten thousand.
pub proof fn law_exhaust_uses_a_quarter(available_kb: nat, alloc_size: nat)
    requires
        alloc_size > 0,
    ensures
        1 <= exhaust_limit(available_kb, alloc_size) <= 10_000,
        exhaust_limit(available_kb, alloc_size) > 1 ==> 4 * (exhaust_limit(
            available_kb,
            alloc_size,
        ) * alloc_size) <= available_kb * 1024,
        exhaust_limit(available_kb, alloc_size) < 10_000 ==> available_kb * 1024 < 4 * ((
        exhaust_limit(available_kb, alloc_size) + 1) * alloc_size),
{
    let all = available_kb * 1024;
    let quarter = all / 4;
    let n = quarter / alloc_size;
    assert(n * alloc_size <= quarter && quarter < (n + 1) * alloc_size) by (nonlinear_arith)
        requires
            n == quarter / alloc_size,
            alloc_size > 0,
    ;
    assert(4 * quarter <= all < 4 * quarter + 4);
    let k = exhaust_limit(available_kb, alloc_size);
    if k > 1 {
        assert(k * alloc_size <= n * alloc_size) by (nonlinear_arith)
            requires
                k <= n,
        ;
    }
    if k < 10_000 {
        assert((n + 1) * alloc_size <= (k + 1) * alloc_size) by (nonlinear_arith)
            requires
                n <= k,
        ;
    }
}

} // verus!
