//! Several workloads, one after the other, and what is told of them.
use crate::backend::ioctl::Errno;
use crate::backend::protocol::{Answers, ContainerBackend, DmaBufBackend, HeapBackend};
use crate::bench::pressure::{outcomes, Outcome, SubTestResult};
use crate::order::strs;
use crate::text::group_concat;
use crate::workload::run::{run_script, Run};
use crate::workload::step::{ran, Mark, Step};
use nix::errno::Errno as Raw;
use vstd::prelude::*;

verus! {

/// The words that `nix::errno::Errno` has for the error with this number: the error's name
/// and what it means. The number is one of those that the system uses.
pub uninterp spec fn numbered_error(code: i32) -> Seq<char>;

/// An error in words: its name and what it means.
pub open spec fn errno_text(e: Errno) -> Seq<char> {
    match e {
        Errno::EPERM => "EPERM: Operation not permitted"@,
        Errno::ENOENT => "ENOENT: No such file or directory"@,
        Errno::EIO => "EIO: I/O error"@,
        Errno::EBADF => "EBADF: Bad file number"@,
        Errno::ENOMEM => "ENOMEM: Out of memory"@,
        Errno::EACCES => "EACCES: Permission denied"@,
        Errno::EFAULT => "EFAULT: Bad address"@,
        Errno::ENODEV => "ENODEV: No such device"@,
        Errno::EINVAL => "EINVAL: Invalid argument"@,
        Errno::EMFILE => "EMFILE: Too many open files"@,
        Errno::ENOTTY => "ENOTTY: Not a typewriter"@,
        Errno::ENOSPC => "ENOSPC: No space left on device"@,
        Errno::Other(n) => numbered_error(n),
    }
}

/// `Display` of `nix::errno::Errno`: an error is shown as its name, a colon, a space and
/// what it means. For an error with a name here the words are written out. For any other
/// they are those of the error that `nix::errno::Errno::from_raw` gives for its number;
/// nothing more is said of them.
#[verifier::external_body]
fn shown(e: Errno) -> (s: String)
    ensures
        e matches Errno::Other(n) ==> s@ == numbered_error(n),
        !(e is Other) ==> s@ == errno_text(e),
{
    let raw = match e {
        Errno::EPERM => Raw::EPERM, Errno::ENOENT => Raw::ENOENT, Errno::EIO => Raw::EIO,
        Errno::EBADF => Raw::EBADF, Errno::ENOMEM => Raw::ENOMEM, Errno::EACCES => Raw::EACCES,
        Errno::EFAULT => Raw::EFAULT, Errno::ENODEV => Raw::ENODEV, Errno::EINVAL => Raw::EINVAL,
        Errno::EMFILE => Raw::EMFILE, Errno::ENOTTY => Raw::ENOTTY, Errno::ENOSPC => Raw::ENOSPC,
        Errno::Other(n) => Raw::from_raw(n),
    };
    raw.to_string()
}

/// An error in words: its name and what it means.
pub fn errno_name(e: Errno) -> (s: String)
    ensures
        s@ == errno_text(e),
{
    shown(e)
}

/// A workload to run, under a name, unless it is to be skipped.
pub struct Planned {
    pub name: String,
    pub steps: Vec<Step>,
    pub slots: usize,
    pub skip: bool,
}

/// A workload to run, as values.
#[verifier::ext_equal]
pub ghost struct Plan {
    pub name: Seq<char>,
    pub steps: Seq<Step>,
    pub slots: nat,
    pub skip: bool,
}

impl View for Planned {
    type V = Plan;

    open spec fn view(&self) -> Plan {
        Plan {
            name: self.name@,
            steps: self.steps@,
            slots: self.slots as nat,
            skip: self.skip,
        }
    }
}

/// Workloads to run, as values.
pub open spec fn plans(v: Seq<Planned>) -> Seq<Plan> {
    Seq::new(v.len(), |i: int| v[i]@)
}

/// A workload to run.
pub fn planned(name: &str, steps: Vec<Step>, slots: usize, skip: bool) -> (r: Planned)
    ensures
        r@ == (Plan { name: name@, steps: steps@, slots: slots as nat, skip }),
{
    Planned { name: name.to_owned(), steps, slots, skip }
}

/// Whether a workload leads from one backend to another with a result. One that is
/// skipped does nothing, and well.
pub open spec fn plan_ran<B: Answers>(
    a: B,
    p: Plan,
    names: Seq<Seq<char>>,
    result: Result<(), Errno>,
    b: B,
) -> bool {
    if p.skip {
        result == Ok::<(), Errno>(()) && b == a
    } else {
        exists|marks: Seq<Mark>| #[trigger]
            ran(a, p.steps, names, p.slots, result, marks, b)
    }
}

/// Whether workloads, one after the other, lead from one backend to another with these
/// results.
pub open spec fn suite_ran<B: Answers>(
    a: B,
    suite: Seq<Plan>,
    names: Seq<Seq<char>>,
    results: Seq<Result<(), Errno>>,
    b: B,
) -> bool
    decreases suite.len(),
{
    if suite.len() == 0 {
        results.len() == 0 && b == a
    } else {
        let p = suite.last();
        &&& results.len() == suite.len()
        &&& exists|m: B| #[trigger]
            plan_ran(m, p, names, results.last(), b) && suite_ran(
                a,
                suite.drop_last(),
                names,
                results.drop_last(),
                m,
            )
    }
}

/// What is told of a result.
pub open spec fn told(p: Plan, result: Result<(), Errno>) -> Outcome {
    Outcome {
        name: p.name,
        passed: result is Ok,
        skipped: p.skip,
        error: match result {
            Ok(_) => None,
            Err(e) => Some(errno_text(e)),
        },
    }
}

/// What is told of results.
pub open spec fn all_told(
    suite: Seq<Plan>,
    results: Seq<Result<(), Errno>>,
) -> Seq<Outcome> {
    Seq::new(suite.len(), |i: int| told(suite[i], results[i]))
}

/// What is told of the first failure.
pub open spec fn first_failure(
    stage: Seq<char>,
    suite: Seq<Plan>,
    results: Seq<Result<(), Errno>>,
) -> Option<Seq<char>>
    decreases suite.len(),
{
    if suite.len() == 0 {
        None
    } else {
        match first_failure(stage, suite.drop_last(), results.drop_last()) {
            Some(t) => Some(t),
            None => match results.last() {
                Ok(_) => None,
                Err(e) => Some(
                    stage + " '"@ + suite.last().name + "' failed: "@ + errno_text(e),
                ),
            },
        }
    }
}

/// There is a result of each workload.
pub proof fn lemma_as_many<B: Answers>(
    a: B,
    suite: Seq<Plan>,
    names: Seq<Seq<char>>,
    results: Seq<Result<(), Errno>>,
    b: B,
)
    requires
        suite_ran(a, suite, names, results, b),
    ensures
        results.len() == suite.len(),
{
}

fn tell(p: &Planned, result: Result<(), Errno>) -> (r: SubTestResult)
    ensures
        r@ == told(p@, result),
{
    broadcast use group_concat;

    let mut name = String::new();
    name.append(p.name.as_str());
    let error: Option<String> = match result {
        Ok(_) => None,
        Err(e) => Some(errno_name(e)),
    };
    SubTestResult { name, passed: result.is_ok(), skipped: p.skip, error }
}

fn failure(stage: &str, name: &str, e: Errno) -> (s: String)
    ensures
        s@ == stage@ + " '"@ + name@ + "' failed: "@ + errno_text(e),
{
    broadcast use group_concat;

    let mut s = String::new();
    s.append(stage);
    s.append(" '");
    s.append(name);
    s.append("' failed: ");
    s.append(errno_name(e).as_str());
    s
}

/// The view of a text that may be missing.
pub open spec fn maybe_text(s: Option<String>) -> Option<Seq<char>> {
    match s {
        Some(t) => Some(t@),
        None => None,
    }
}

/// Whether a workload leads from one backend to another with a result and times. One
/// that is skipped does nothing, and well.
pub open spec fn plan_timed<B: Answers>(
    a: B,
    p: Plan,
    names: Seq<Seq<char>>,
    run: Run,
    b: B,
) -> bool {
    if p.skip {
        run.result is Ok && run.marks@.len() == 0 && b == a
    } else {
        ran(a, p.steps, names, p.slots, run.result, run.marks@, b)
    }
}

/// Whether workloads, one after the other, lead from one backend to another with these
/// results and times.
pub open spec fn suite_timed<B: Answers>(
    a: B,
    suite: Seq<Plan>,
    names: Seq<Seq<char>>,
    runs: Seq<Run>,
    b: B,
) -> bool
    decreases suite.len(),
{
    if suite.len() == 0 {
        runs.len() == 0 && b == a
    } else {
        let p = suite.last();
        &&& runs.len() == suite.len()
        &&& exists|m: B| #[trigger]
            plan_timed(m, p, names, runs.last(), b) && suite_timed(
                a,
                suite.drop_last(),
                names,
                runs.drop_last(),
                m,
            )
    }
}

/// Runs workloads one after the other, all of them even if some fail, tells of each, and
/// of the first that failed, and gives the times of each.
pub fn run_suite_timed<B: HeapBackend + DmaBufBackend + ContainerBackend>(
    backend: &mut B,
    stage: &str,
    names: &[&str],
    suite: &Vec<Planned>,
) -> (r: (Vec<SubTestResult>, Option<String>, Vec<Run>))
    requires
        old(backend).valid(),
    ensures
        final(backend).valid(),
        final(backend).opened() == old(backend).opened(),
        suite_told(*old(backend), stage@, plans(suite@), strs(names@), r.0@, r.1, *final(backend)),
        suite_timed(*old(backend), plans(suite@), strs(names@), r.2@, *final(backend)),
{
    let ghost a = *backend;
    let ghost n = strs(names@);
    let ghost all = plans(suite@);
    let mut results: Ghost<Seq<Result<(), Errno>>> = Ghost(Seq::empty());
    let mut runs: Vec<Run> = Vec::new();
    let mut told_of: Vec<SubTestResult> = Vec::new();
    let mut first: Option<String> = None;
    let mut i: usize = 0;
    assert(all.take(0) =~= Seq::empty());
    assert(outcomes(told_of@) =~= all_told(all.take(0), results@));
    while i < suite.len()
        invariant
            i <= suite@.len(),
            n == strs(names@),
            all == plans(suite@),
            backend.valid(),
            backend.opened() == a.opened(),
            results@.len() == i,
            suite_ran(a, all.take(i as int), n, results@, *backend),
            runs@.len() == i,
            suite_timed(a, all.take(i as int), n, runs@, *backend),
            outcomes(told_of@) == all_told(all.take(i as int), results@),
            maybe_text(first) == first_failure(stage@, all.take(i as int), results@),
        decreases suite@.len() - i,
    {
        let ghost before = *backend;
        let ghost prior = results@;
        let p: &Planned = &suite[i];
        let ghost before_runs = runs@;
        let run: Run = if p.skip {
            Run { result: Ok(()), marks: Vec::new() }
        } else {
            run_script(backend, p.steps.as_slice(), names, p.slots)
        };
        let result: Result<(), Errno> = run.result;
        runs.push(run);
        proof {
            results@ = prior.push(result);
            assert(results@.drop_last() =~= prior);
            assert(all.take(i + 1).drop_last() =~= all.take(i as int));
            assert(all.take(i + 1).last() == p@);
            assert(runs@.drop_last() =~= before_runs);
            assert(plan_timed(before, all.take(i + 1).last(), n, runs@.last(), *backend));
            assert(plan_ran(before, all.take(i + 1).last(), n, results@.last(), *backend));
        }
        let ghost earlier = outcomes(told_of@);
        told_of.push(tell(p, result));
        proof {
            assert(outcomes(told_of@) =~= earlier.push(told(p@, result)));
            assert(outcomes(told_of@) =~= all_told(all.take(i + 1), results@));
        }
        if first.is_none() {
            match result {
                Ok(_) => {},
                Err(e) => {
                    first = Some(failure(stage, p.name.as_str(), e));
                },
            }
        }
        i = i + 1;
    }
    assert(all.take(all.len() as int) =~= all);
    assert(suite_ran(a, all, n, results@, *backend));
    (told_of, first, runs)
}

/// Tells of one workload more, of which a result has come from elsewhere.
pub(crate) fn tell_more(
    stage: &str,
    mut told_of: Vec<SubTestResult>,
    first: Option<String>,
    p: &Planned,
    result: Result<(), Errno>,
    Ghost(suite): Ghost<Seq<Plan>>,
    Ghost(results): Ghost<Seq<Result<(), Errno>>>,
) -> (r: (Vec<SubTestResult>, Option<String>))
    requires
        suite.len() == results.len(),
        outcomes(told_of@) == all_told(suite, results),
        maybe_text(first) == first_failure(stage@, suite, results),
    ensures
        outcomes(r.0@) == all_told(suite.push(p@), results.push(result)),
        maybe_text(r.1) == first_failure(stage@, suite.push(p@), results.push(result)),
{
    let ghost earlier = outcomes(told_of@);
    told_of.push(tell(p, result));
    proof {
        assert(suite.push(p@).drop_last() =~= suite);
        assert(results.push(result).drop_last() =~= results);
        assert(outcomes(told_of@) =~= earlier.push(told(p@, result)));
        assert(outcomes(told_of@) =~= all_told(suite.push(p@), results.push(result)));
    }
    if first.is_some() {
        return (told_of, first);
    }
    match result {
        Ok(_) => (told_of, None),
        Err(e) => {
            let text = failure(stage, p.name.as_str(), e);
            (told_of, Some(text))
        },
    }
}

/// Runs workloads one after the other, all of them even if some fail, and tells of
/// each, and of the first that failed.
pub fn run_suite<B: HeapBackend + DmaBufBackend + ContainerBackend>(
    backend: &mut B,
    stage: &str,
    names: &[&str],
    suite: &Vec<Planned>,
) -> (r: (Vec<SubTestResult>, Option<String>))
    requires
        old(backend).valid(),
    ensures
        final(backend).valid(),
        final(backend).opened() == old(backend).opened(),
        suite_told(*old(backend), stage@, plans(suite@), strs(names@), r.0@, r.1, *final(backend)),
{
    let (told_of, first, _) = run_suite_timed(backend, stage, names, suite);
    (told_of, first)
}

/// Tests by their names, each with its result, and whether it was skipped.
pub open spec fn tested(tests: Seq<(&str, Result<(), Errno>, bool)>) -> Seq<Plan> {
    Seq::new(
        tests.len(),
        |i: int| Plan { name: tests[i].0@, steps: Seq::empty(), slots: 0, skip: tests[i].2 },
    )
}

/// The results of tests.
pub open spec fn results_of(tests: Seq<(&str, Result<(), Errno>, bool)>) -> Seq<
    Result<(), Errno>,
> {
    Seq::new(tests.len(), |i: int| tests[i].1)
}

/// Tells of each test, and of the first that failed.
pub fn collect_test_results(stage: &str, tests: &[(&str, Result<(), Errno>, bool)]) -> (r: (
    Vec<SubTestResult>,
    Option<String>,
))
    ensures
        outcomes(r.0@) == all_told(tested(tests@), results_of(tests@)),
        maybe_text(r.1) == first_failure(stage@, tested(tests@), results_of(tests@)),
{
    let ghost all = tested(tests@);
    let ghost results = results_of(tests@);
    let mut told_of: Vec<SubTestResult> = Vec::new();
    let mut first: Option<String> = None;
    let mut i: usize = 0;
    assert(outcomes(told_of@) =~= all_told(all.take(0), results.take(0)));
    while i < tests.len()
        invariant
            i <= tests@.len(),
            all == tested(tests@),
            results == results_of(tests@),
            outcomes(told_of@) == all_told(all.take(i as int), results.take(i as int)),
            maybe_text(first) == first_failure(
                stage@,
                all.take(i as int),
                results.take(i as int),
            ),
        decreases tests@.len() - i,
    {
        let (name, result, skip) = tests[i];
        let p = planned(name, Vec::new(), 0, skip);
        let ghost earlier = outcomes(told_of@);
        told_of.push(tell(&p, result));
        proof {
            assert(all.take(i + 1).drop_last() =~= all.take(i as int));
            assert(results.take(i + 1).drop_last() =~= results.take(i as int));
            assert(p@.steps =~= Seq::<Step>::empty());
            assert(all[i as int] == p@);
            assert(outcomes(told_of@) =~= earlier.push(told(p@, result)));
            assert(outcomes(told_of@) =~= all_told(all.take(i + 1), results.take(i + 1)));
        }
        if first.is_none() {
            match result {
                Ok(_) => {},
                Err(e) => {
                    first = Some(failure(stage, name, e));
                },
            }
        }
        i = i + 1;
    }
    assert(all.take(all.len() as int) =~= all);
    assert(results.take(results.len() as int) =~= results);
    (told_of, first)
}

/// Whether what is told of workloads is what came of them.
pub open spec fn suite_told<B: Answers>(
    a: B,
    stage: Seq<char>,
    suite: Seq<Plan>,
    names: Seq<Seq<char>>,
    told_of: Seq<SubTestResult>,
    first: Option<String>,
    b: B,
) -> bool {
    exists|results: Seq<Result<(), Errno>>| #[trigger]
        suite_ran(a, suite, names, results, b) && outcomes(told_of) == all_told(
            suite,
            results,
        ) && maybe_text(first) == first_failure(stage, suite, results)
}

/// There is a first failure just where not all passed.
pub proof fn law_failure_is_told(
    stage: Seq<char>,
    suite: Seq<Plan>,
    results: Seq<Result<(), Errno>>,
)
    requires
        results.len() == suite.len(),
    ensures
        first_failure(stage, suite, results) is None <==> forall|i: int|
            0 <= i < suite.len() ==> (#[trigger] all_told(suite, results)[i]).passed,
    decreases suite.len(),
{
    if suite.len() > 0 {
        let s = suite.drop_last();
        let r = results.drop_last();
        law_failure_is_told(stage, s, r);
        assert forall|i: int| 0 <= i < s.len() implies all_told(s, r)[i] == #[trigger] all_told(
            suite,
            results,
        )[i] by {}
        let k = suite.len() - 1;
        assert(all_told(suite, results)[k].passed == (results.last() is Ok));
        if first_failure(stage, suite, results) is None {
            assert forall|i: int| 0 <= i < suite.len() implies (#[trigger] all_told(
                suite,
                results,
            )[i]).passed by {
                if i < k {
                    assert(all_told(s, r)[i].passed);
                }
            }
        } else if forall|i: int|
            0 <= i < suite.len() ==> (#[trigger] all_told(suite, results)[i]).passed {
            assert forall|i: int| 0 <= i < s.len() implies (#[trigger] all_told(
                s,
                r,
            )[i]).passed by {
                assert(all_told(suite, results)[i].passed);
            }
        }
    }
}

} // verus!
