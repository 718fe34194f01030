//! Measuring how times are distributed.
use crate::backend::protocol::{Answers, ContainerBackend, DmaBufBackend, HeapBackend};
use crate::bench::pressure::{outcomes, Outcome, SubTestResult};
use crate::cli::HistMode;
use crate::info::types::strings;
use crate::number::{dec, push_dec};
use crate::text::group_concat;
use crate::workload::run::{of_channel, Run};
use crate::workload::script::{
    allocate, dropped, push_all, push_dropped, push_repeated, repeated, run_timed, timed_on, shut,
    unmap,
};
use crate::workload::step::{must, Op, Step};
use crate::workload::suite::{errno_name, errno_text, maybe_text};
use crate::workload::sweep::{
    lemma_swept_none, lemma_swept_push, lemma_used_quiet, passing, push_body, push_used, sweep_start,
    swept, used,
};
use crate::workload::times::{
    all_go_on, law_all_times_noted, lemma_note, lemma_noted_repeated, lemma_notes_sum, lemma_quiet,
    lemma_quiet_sum, lemma_repeated_go_on, lemma_times_len, noted_by, occurrences, quiet,
};
use vstd::prelude::*;

verus! {

/// What is done with a buffer in a mode.
pub open spec fn pipeline(size: u64, mode: HistMode) -> Seq<Step> {
    match mode {
        HistMode::FullPipeline => used(1, size) + dropped(1),
        _ => passing(size),
    }
}

fn pipeline_steps(size: u64, mode: HistMode) -> (v: Vec<Step>)
    ensures
        v@ == pipeline(size, mode),
{
    let mut v: Vec<Step> = Vec::new();
    match mode {
        HistMode::FullPipeline => {
            push_used(&mut v, 1, size);
        },
        _ => {
            v.push(allocate(1, size));
        },
    }
    let ghost first = v@;
    push_dropped(&mut v, 1);
    proof {
        assert(first =~= match mode {
            HistMode::FullPipeline => used(1, size),
            _ => seq![allocate(1, size)],
        });
    }
    v
}

/// One sample: the time of all that is done with a buffer, or of its release alone.
pub open spec fn sample(size: u64, mode: HistMode, channel: usize) -> Seq<Step> {
    match mode {
        HistMode::CloseOnly => seq![
            allocate(1, size),
            must(Op::Start),
            unmap(1),
            shut(1),
            must(Op::Split { channel }),
        ],
        _ => seq![must(Op::Start)] + pipeline(size, mode) + seq![must(Op::Split { channel })],
    }
}

fn sample_steps(size: u64, mode: HistMode, channel: usize) -> (v: Vec<Step>)
    ensures
        v@ == sample(size, mode, channel),
{
    let mut v: Vec<Step> = Vec::new();
    match mode {
        HistMode::CloseOnly => {
            v.push(allocate(1, size));
            v.push(must(Op::Start));
            v.push(unmap(1));
            v.push(shut(1));
        },
        _ => {
            v.push(must(Op::Start));
            push_all(&mut v, pipeline_steps(size, mode).as_slice());
        },
    }
    v.push(must(Op::Split { channel }));
    assert(v@ =~= sample(size, mode, channel));
    v
}

/// The samples of one size, after some that are not noted.
pub open spec fn samples_of(
    size: u64,
    mode: HistMode,
    warmup: nat,
    samples: nat,
    channel: usize,
) -> Seq<Step> {
    repeated(pipeline(size, mode), warmup) + repeated(sample(size, mode, channel), samples)
}

/// The samples of each of the first sizes, on the channel after its number.
pub open spec fn bodies(
    sizes: Seq<u64>,
    mode: HistMode,
    warmup: nat,
    samples: nat,
    n: nat,
) -> Seq<Seq<Step>> {
    Seq::new(n, |i: int| samples_of(sizes[i], mode, warmup, samples, (i + 1) as usize))
}

/// The samples of all sizes, on one heap.
pub open spec fn collection(sizes: Seq<u64>, mode: HistMode, warmup: nat, samples: nat) -> Seq<
    Step,
> {
    swept(bodies(sizes, mode, warmup, samples, sizes.len()))
}

fn collection_steps(sizes: &[u64], mode: HistMode, warmup: u32, samples: u32) -> (v: Vec<Step>)
    requires
        sizes@.len() < usize::MAX,
    ensures
        v@ == collection(sizes@, mode, warmup as nat, samples as nat),
{
    let mut v = sweep_start();
    let mut i: usize = 0;
    assert(bodies(sizes@, mode, warmup as nat, samples as nat, 0) =~= Seq::empty());
    while i < sizes.len()
        invariant
            i <= sizes@.len() < usize::MAX,
            v@ == swept(bodies(sizes@, mode, warmup as nat, samples as nat, i as nat)),
        decreases sizes@.len() - i,
    {
        let size: u64 = sizes[i];
        let mut body: Vec<Step> = Vec::new();
        let ghost none = body@;
        push_repeated(&mut body, pipeline_steps(size, mode).as_slice(), warmup);
        assert(none + repeated(pipeline(size, mode), warmup as nat) =~= repeated(
            pipeline(size, mode),
            warmup as nat,
        ));
        push_repeated(&mut body, sample_steps(size, mode, i + 1).as_slice(), samples);
        let ghost b = bodies(sizes@, mode, warmup as nat, samples as nat, i as nat);
        push_body(&mut v, body.as_slice(), Ghost(b));
        i = i + 1;
        assert(b.push(body@) =~= bodies(sizes@, mode, warmup as nat, samples as nat, i as nat));
    }
    v
}

/// Collects the samples of all sizes on one heap.
pub fn collect<B: HeapBackend + DmaBufBackend + ContainerBackend>(
    backend: &mut B,
    heap: &str,
    sizes: &[u64],
    mode: HistMode,
    warmup: u32,
    samples: u32,
) -> (r: Run)
    requires
        old(backend).valid(),
        sizes@.len() < usize::MAX,
    ensures
        final(backend).valid(),
        timed_on(
            *old(backend),
            collection(sizes@, mode, warmup as nat, samples as nat),
            heap@,
            2,
            r,
            *final(backend),
        ),
        final(backend).opened() == old(backend).opened(),
{
    run_timed(backend, collection_steps(sizes, mode, warmup, samples).as_slice(), heap, 2)
}

/// What is told of a heap: of each size that was done, and of what failed.
pub open spec fn heap_told(heap: Seq<char>, sizes: Seq<u64>, run: Run) -> Seq<Outcome> {
    let marks = of_channel(run.marks@, 0).len();
    let done = if marks == 0 {
        0
    } else if marks - 1 < sizes.len() {
        marks - 1
    } else {
        sizes.len() as int
    };
    Seq::new(done as nat, |i: int| size_passed(heap, sizes[i])) + match run.result {
        Ok(_) => Seq::empty(),
        Err(e) => seq![
            Outcome {
                name: if marks == 0 {
                    heap + "@open"@
                } else if done < sizes.len() {
                    heap + "@"@ + dec(sizes[done] as nat)
                } else {
                    heap
                },
                passed: false,
                skipped: false,
                error: Some(errno_text(e)),
            },
        ],
    }
}

/// What is told of a size that was done.
pub open spec fn size_passed(heap: Seq<char>, size: u64) -> Outcome {
    Outcome { name: heap + "@"@ + dec(size as nat), passed: true, skipped: false, error: None }
}

fn size_name(heap: &str, size: u64) -> (s: String)
    ensures
        s@ == heap@ + "@"@ + dec(size as nat),
{
    broadcast use group_concat;

    let mut s = String::new();
    s.append(heap);
    s.append("@");
    push_dec(&mut s, size);
    s
}

fn open_name(heap: &str) -> (s: String)
    ensures
        s@ == heap@ + "@open"@,
{
    broadcast use group_concat;

    let mut s = String::new();
    s.append(heap);
    s.append("@open");
    s
}

fn tell_heap(told_of: &mut Vec<SubTestResult>, heap: &str, sizes: &[u64], run: &Run)
    ensures
        outcomes(final(told_of)@) == outcomes(old(told_of)@) + heap_told(heap@, sizes@, *run),
{
    let ghost start = outcomes(told_of@);
    let marks: usize = run.times(0).len();
    let done: usize = if marks == 0 {
        0
    } else if marks - 1 < sizes.len() {
        marks - 1
    } else {
        sizes.len()
    };
    let ghost passed = Seq::new(done as nat, |i: int| size_passed(heap@, sizes@[i]));
    let mut i: usize = 0;
    assert(start + passed.take(0) =~= start);
    while i < done
        invariant
            i <= done <= sizes@.len(),
            passed == Seq::new(done as nat, |k: int| size_passed(heap@, sizes@[k])),
            outcomes(told_of@) == start + passed.take(i as int),
        decreases done - i,
    {
        let ghost before = outcomes(told_of@);
        let t = SubTestResult {
            name: size_name(heap, sizes[i]),
            passed: true,
            skipped: false,
            error: None,
        };
        assert(t@ == size_passed(heap@, sizes@[i as int]));
        told_of.push(t);
        i = i + 1;
        assert(outcomes(told_of@) =~= before.push(t@));
        assert(outcomes(told_of@) =~= start + passed.take(i as int));
    }
    assert(passed.take(done as int) =~= passed);
    let ghost before = outcomes(told_of@);
    match run.result {
        Ok(_) => {
            assert(start + passed =~= start + heap_told(heap@, sizes@, *run));
        },
        Err(e) => {
            let name = if marks == 0 {
                open_name(heap)
            } else if done < sizes.len() {
                size_name(heap, sizes[done])
            } else {
                heap.to_owned()
            };
            let t = SubTestResult {
                name,
                passed: false,
                skipped: false,
                error: Some(errno_name(e)),
            };
            told_of.push(t);
            assert(outcomes(told_of@) =~= before.push(t@));
            assert(outcomes(told_of@) =~= start + heap_told(heap@, sizes@, *run));
        },
    }
}

/// Whether samples were collected on heaps, one after the other, until one failed.
pub open spec fn heaps_ran<B: Answers>(
    a: B,
    heaps: Seq<Seq<char>>,
    steps: Seq<Step>,
    runs: Seq<Run>,
    b: B,
) -> bool
    decreases runs.len(),
{
    if runs.len() == 0 {
        b == a
    } else {
        exists|m: B| #[trigger]
            timed_on(m, steps, heaps[runs.len() - 1], 2, runs.last(), b) && heaps_ran(
                a,
                heaps,
                steps,
                runs.drop_last(),
                m,
            )
    }
}

/// Whether the runs go on until one fails, or until there is no other heap.
pub open spec fn until_failure(runs: Seq<Run>, heaps: nat) -> bool {
    &&& runs.len() <= heaps
    &&& forall|i: int| 0 <= i < runs.len() - 1 ==> (#[trigger] runs[i]).result is Ok
    &&& runs.len() < heaps ==> runs.len() > 0 && runs.last().result is Err
}

/// What is told of heaps.
pub open spec fn all_heaps_told(heaps: Seq<Seq<char>>, sizes: Seq<u64>, runs: Seq<Run>) -> Seq<
    Outcome,
>
    decreases runs.len(),
{
    if runs.len() == 0 {
        Seq::empty()
    } else {
        all_heaps_told(heaps, sizes, runs.drop_last()) + heap_told(
            heaps[runs.len() - 1],
            sizes,
            runs.last(),
        )
    }
}

/// What failed, if anything.
pub open spec fn what_failed(runs: Seq<Run>) -> Option<Seq<char>> {
    if runs.len() > 0 && runs.last().result is Err {
        Some(errno_text(runs.last().result->Err_0))
    } else {
        None
    }
}

/// Collects samples of all sizes on heaps, one after the other, until one fails, and
/// tells of each heap and size.
pub fn run<B: HeapBackend + DmaBufBackend + ContainerBackend>(
    backend: &mut B,
    heaps: &[String],
    sizes: &[u64],
    samples: u32,
    warmup: u32,
    mode: HistMode,
) -> (r: (Vec<SubTestResult>, Option<String>, Vec<Run>))
    requires
        old(backend).valid(),
        sizes@.len() < usize::MAX,
    ensures
        final(backend).valid(),
        final(backend).opened() == old(backend).opened(),
        heaps_ran(
            *old(backend),
            strings(heaps@),
            collection(sizes@, mode, warmup as nat, samples as nat),
            r.2@,
            *final(backend),
        ),
        until_failure(r.2@, heaps@.len()),
        outcomes(r.0@) == all_heaps_told(strings(heaps@), sizes@, r.2@),
        maybe_text(r.1) == what_failed(r.2@),
{
    let ghost a = *backend;
    let ghost names = strings(heaps@);
    let ghost steps = collection(sizes@, mode, warmup as nat, samples as nat);
    let mut told_of: Vec<SubTestResult> = Vec::new();
    let mut runs: Vec<Run> = Vec::new();
    let mut i: usize = 0;
    assert(outcomes(told_of@) =~= Seq::empty());
    while i < heaps.len()
        invariant
            i <= heaps@.len(),
            sizes@.len() < usize::MAX,
            names == strings(heaps@),
            a == *old(backend),
            steps == collection(sizes@, mode, warmup as nat, samples as nat),
            backend.valid(),
            backend.opened() == a.opened(),
            runs@.len() == i,
            forall|k: int| 0 <= k < i ==> (#[trigger] runs@[k]).result is Ok,
            heaps_ran(a, names, steps, runs@, *backend),
            outcomes(told_of@) == all_heaps_told(names, sizes@, runs@),
        decreases heaps@.len() - i,
    {
        let ghost before = *backend;
        let ghost prior = runs@;
        let run = collect(backend, heaps[i].as_str(), sizes, mode, warmup, samples);
        assert(timed_on(before, steps, names[i as int], 2, run, *backend));
        tell_heap(&mut told_of, heaps[i].as_str(), sizes, &run);
        let failed: Option<String> = match run.result {
            Ok(_) => None,
            Err(e) => Some(errno_name(e)),
        };
        runs.push(run);
        proof {
            assert(runs@.drop_last() =~= prior);
            assert(runs@.last() == run);
            assert(heaps_ran(a, names, steps, runs@, *backend));
        }
        if failed.is_some() {
            return (told_of, failed, runs);
        }
        i = i + 1;
    }
    (told_of, None, runs)
}

proof fn lemma_pipeline_quiet(size: u64, mode: HistMode)
    ensures
        quiet(pipeline(size, mode)),
{
    assert(quiet(dropped(1)));
    assert(quiet(seq![allocate(1, size)]));
    lemma_used_quiet(1, size);
    lemma_quiet_sum(used(1, size), dropped(1));
    lemma_quiet_sum(seq![allocate(1, size)], dropped(1));
}

proof fn lemma_sample(size: u64, mode: HistMode, channel: usize, c: usize)
    ensures
        all_go_on(sample(size, mode, channel)),
        occurrences(noted_by(sample(size, mode, channel)), c) == if c == channel {
            1nat
        } else {
            0
        },
{
    let mark = seq![must(Op::Split { channel })];
    lemma_note(mark[0], channel, c);
    let before = match mode {
        HistMode::CloseOnly => seq![allocate(1, size), must(Op::Start), unmap(1), shut(1)],
        _ => seq![must(Op::Start)] + pipeline(size, mode),
    };
    assert(quiet(seq![must(Op::Start)]));
    lemma_pipeline_quiet(size, mode);
    lemma_quiet_sum(seq![must(Op::Start)], pipeline(size, mode));
    assert(quiet(before));
    lemma_quiet(before, c);
    lemma_notes_sum(before, mark, c);
    assert(sample(size, mode, channel) =~= before + mark);
}

proof fn lemma_collected(
    sizes: Seq<u64>,
    mode: HistMode,
    warmup: nat,
    samples: nat,
    n: nat,
    c: usize,
)
    requires
        n <= sizes.len() < usize::MAX,
    ensures
        all_go_on(swept(bodies(sizes, mode, warmup, samples, n))),
        occurrences(noted_by(swept(bodies(sizes, mode, warmup, samples, n))), c) == if c == 0 {
            n + 1
        } else if c <= n {
            samples
        } else {
            0
        },
    decreases n,
{
    let all = bodies(sizes, mode, warmup, samples, n);
    if n == 0 {
        assert(all =~= Seq::empty());
        lemma_swept_none(c);
    } else {
        let before = bodies(sizes, mode, warmup, samples, (n - 1) as nat);
        let size = sizes[n - 1];
        let warm = repeated(pipeline(size, mode), warmup);
        let timed = repeated(sample(size, mode, n as usize), samples);
        lemma_collected(sizes, mode, warmup, samples, (n - 1) as nat, c);
        lemma_pipeline_quiet(size, mode);
        lemma_quiet(pipeline(size, mode), c);
        lemma_noted_repeated(pipeline(size, mode), warmup, c);
        lemma_repeated_go_on(pipeline(size, mode), warmup);
        lemma_sample(size, mode, n as usize, c);
        lemma_noted_repeated(sample(size, mode, n as usize), samples, c);
        lemma_repeated_go_on(sample(size, mode, n as usize), samples);
        lemma_notes_sum(warm, timed, c);
        lemma_swept_push(before, warm + timed, c);
        assert(all =~= before.push(warm + timed));
        assert(warmup * 0 == 0);
        assert(samples * 1 == samples);
        assert(samples * 0 == 0);
    }
}

/// Where all goes well, there are as many samples of each size as asked for, on the
/// channel after its number, and a mark for the heap and for each size.
pub proof fn law_all_sizes_sampled<B: Answers>(
    a: B,
    heap: Seq<char>,
    sizes: Seq<u64>,
    mode: HistMode,
    warmup: nat,
    samples: nat,
    run: Run,
    b: B,
    c: usize,
)
    requires
        sizes.len() < usize::MAX,
        timed_on(a, collection(sizes, mode, warmup, samples), heap, 2, run, b),
        run.result is Ok,
    ensures
        c == 0 ==> of_channel(run.marks@, c).len() == sizes.len() + 1,
        1 <= c <= sizes.len() ==> of_channel(run.marks@, c).len() == samples,
{
    lemma_collected(sizes, mode, warmup, samples, sizes.len(), c);
    law_all_times_noted(
        a,
        collection(sizes, mode, warmup, samples),
        seq![heap],
        2,
        run.result,
        run.marks@,
        b,
    );
    lemma_times_len(run.marks@, c);
}

} // verus!
