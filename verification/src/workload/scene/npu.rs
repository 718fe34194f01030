//! Inference.
use crate::backend::protocol::{Answers, ContainerBackend, DmaBufBackend, HeapBackend};
use crate::bench::pressure::SubTestResult;
use crate::order::strs;
use crate::backend::ioctl::Errno;
use crate::bench::pressure::outcomes;
use crate::scenario::npu::{chunk_params, chunks, NpuConfig};
use crate::workload::pools::{
    grouped, looked_at, push_grouped, push_looked_at, push_written, written,
};
use crate::workload::run::Run;
use crate::workload::scene::common::{any_failed, jobs_result, pool_bulk, push_pool_bulk};
use crate::workload::script::{
    allocate, allocation, dropped, open_heap, push_dropped, push_releases, push_repeated, releases,
    repeated, run_timed, timed_on,
};
use crate::workload::stage::{staged_ran, Out, Staged};
use crate::workload::step::{expecting, must, Expect, Op, Step};
use crate::workload::suite::{
    all_told, collect_test_results, first_failure, maybe_text, results_of, tested,
};
use vstd::prelude::*;

verus! {

/// The sizes of the buffers that are asked for while a model is held.
pub const PROBE_SIZES: [u64; 3] = [4096, 65536, 1_048_576];

/// The chunks of the model.
pub open spec fn model(c: NpuConfig) -> nat {
    chunks(c.model_size as nat, c.chunk_size as nat).0
}

/// The chunks of a model of half the size.
pub open spec fn half_model(c: NpuConfig) -> nat {
    chunks(c.model_size as nat / 2, c.chunk_size as nat).0
}

/// The bytes of a chunk of the model.
pub open spec fn model_chunk(c: NpuConfig) -> u64 {
    chunks(c.model_size as nat, c.chunk_size as nat).1 as u64
}

/// The bytes of a chunk of a model of half the size.
pub open spec fn half_chunk(c: NpuConfig) -> u64 {
    chunks(c.model_size as nat / 2, c.chunk_size as nat).1 as u64
}

/// Whether the numbers of chunks fit machine integers.
pub open spec fn npu_fits(c: NpuConfig) -> bool {
    model(c) + half_model(c) + 3 <= usize::MAX
}

/// The first chunks are written.
pub open spec fn weights(n: nat, size: u64) -> Seq<Step>
    decreases n,
{
    if n == 0 {
        Seq::empty()
    } else {
        weights((n - 1) as nat, size) + written(n as usize, size, 0xcc)
    }
}

/// The model is loaded: the allocations are timed on channel 0, and together on
/// channel 1.
pub open spec fn loaded(c: NpuConfig) -> Seq<Step> {
    seq![open_heap()] + grouped(1, model(c), model_chunk(c), 0, 1) + weights(
        model(c),
        model_chunk(c),
    )
}

fn loaded_steps(config: &NpuConfig) -> (v: Vec<Step>)
    requires
        npu_fits(*config),
    ensures
        v@ == loaded(*config),
{
    let (n, size) = chunk_params(config.model_size, config.chunk_size);
    let mut v: Vec<Step> = vec![open_heap()];
    push_grouped(&mut v, 1, n, size, 0, 1);
    let ghost start = v@;
    assert(start + Seq::<Step>::empty() =~= start);
    let mut i: usize = 0;
    while i < n
        invariant
            i <= n < usize::MAX,
            v@ == start + weights(i as nat, size),
        decreases n - i,
    {
        let ghost before = weights(i as nat, size);
        i = i + 1;
        push_written(&mut v, i, size, 0xcc);
        assert(v@ =~= start + (before + written(i, size, 0xcc)));
    }
    v
}

/// A buffer of another size is asked for while the model is held.
pub open spec fn probe(c: NpuConfig, k: int) -> Seq<Step> {
    seq![
        must(Op::Start),
        allocate((model(c) + 1) as usize, PROBE_SIZES@[k]),
        must(Op::Split { channel: (2 + k) as usize }),
    ] + dropped((model(c) + 1) as usize)
}

/// The first stages of loading a model.
pub open spec fn load_stages(c: NpuConfig, n: nat) -> Seq<Seq<Step>> {
    Seq::new(
        n,
        |i: int|
            if i == 0 {
                loaded(c)
            } else {
                probe(c, i - 1)
            },
    )
}

/// What came of loading a model: the times, and whether each buffer asked for came. Those
/// that came are timed on the channels from 2 on.
pub struct ModelLoad {
    pub run: Run,
    pub probes: Vec<bool>,
}

/// Whether a stage went well, or memory was used up.
pub open spec fn passable(out: Out) -> bool {
    out.result is Ok || out.result == Err::<(), Errno>(Errno::ENOMEM)
}

/// What is told of loading a model: memory that is used up is no failure of it.
pub open spec fn load_told(outs: Seq<Out>, r: ModelLoad) -> bool {
    &&& outs.len() > 0
    &&& r.run.marks@ == outs.last().end.marks
    &&& if outs[0].result is Err {
        outs.len() == 1 && r.run.result == outs[0].result && r.probes@.len() == 0
    } else {
        &&& forall|i: int| 0 <= i < outs.len() - 1 ==> passable(#[trigger] outs[i])
        &&& forall|i: int|
            0 <= i < r.probes@.len() ==> #[trigger] r.probes@[i] == (outs[i + 1].result is Ok)
        &&& if passable(outs.last()) {
            outs.len() == 4 && r.run.result is Ok && r.probes@.len() == 3
        } else {
            r.run.result == outs.last().result && r.probes@.len() == outs.len() - 2
        }
    }
}

/// Whether loading a model leads from one backend to another.
pub open spec fn load_ran<B: Answers>(
    a: B,
    heap: Seq<char>,
    c: NpuConfig,
    r: ModelLoad,
    b: B,
) -> bool {
    exists|outs: Seq<Out>| #[trigger]
        staged_ran(a, load_stages(c, outs.len()), seq![heap], model(c) + 2, outs, b) && load_told(
            outs,
            r,
        )
}

/// Loads a model, and asks for buffers of other sizes while it is held.
pub fn npu_model_load<B: HeapBackend + DmaBufBackend + ContainerBackend>(
    backend: &mut B,
    heap: &str,
    config: &NpuConfig,
) -> (r: ModelLoad)
    requires
        old(backend).valid(),
        npu_fits(*config),
    ensures
        final(backend).valid(),
        load_ran(*old(backend), heap@, *config, r, *final(backend)),
        final(backend).opened() == old(backend).opened(),
{
    let ghost a = *backend;
    let names: [&str; 1] = [heap];
    assert(strs(names@) =~= seq![heap@]);
    let (n, _) = chunk_params(config.model_size, config.chunk_size);
    let mut s = Staged::new(n + 2, backend, &names);
    let mut result = s.stage(backend, loaded_steps(config).as_slice(), &names, Ghost(a));
    assert(s.stages@ =~= load_stages(*config, 1));
    let mut probes: Vec<bool> = Vec::new();
    let mut k: usize = 0;
    let ghost first = result;
    while k < 3 && result.is_ok()
        invariant
            k <= 3,
            n == model(*config),
            npu_fits(*config),
            strs(names@) == seq![heap@],
            s.slots == n + 2,
            s.led(a, strs(names@), *backend),
            s.outs@.len() == k + 1,
            s.stages@ == load_stages(*config, (k + 1) as nat),
            s.outs@[0].result == first,
            first is Err ==> k == 0 && result == first && probes@.len() == 0,
            first is Ok ==> {
                &&& forall|i: int| 0 <= i < s.outs@.len() - 1 ==> passable(#[trigger] s.outs@[i])
                &&& forall|i: int|
                    0 <= i < probes@.len() ==> #[trigger] probes@[i] == (s.outs@[i + 1].result is Ok)
                &&& if result is Ok {
                    probes@.len() == k && passable(s.outs@.last())
                } else {
                    k > 0 && result == s.outs@.last().result && !passable(s.outs@.last())
                        && probes@.len() == k - 1
                }
            },
        decreases 3 - k,
    {
        let ghost outs = s.outs@;
        let mut steps: Vec<Step> = vec![
            must(Op::Start),
            allocate(n + 1, PROBE_SIZES[k]),
            must(Op::Split { channel: 2 + k }),
        ];
        push_dropped(&mut steps, n + 1);
        assert(steps@ =~= probe(*config, k as int));
        let got = s.stage(backend, steps.as_slice(), &names, Ghost(a));
        k = k + 1;
        proof {
            assert(s.stages@ =~= load_stages(*config, (k + 1) as nat));
            assert(s.outs@[0] == outs[0]);
            assert forall|i: int| 0 <= i < s.outs@.len() - 1 implies passable(
                #[trigger] s.outs@[i],
            ) by {
                assert(s.outs@[i] == outs[i]);
                if i == outs.len() - 1 {
                    assert(outs[i] == outs.last());
                }
            }
            assert forall|i: int| 0 <= i < probes@.len() implies #[trigger] probes@[i] == (
            s.outs@[i + 1].result is Ok) by {
                assert(s.outs@[i + 1] == outs[i + 1]);
            }
        }
        match got {
            Ok(_) => {
                probes.push(true);
            },
            Err(e) => {
                if e == Errno::ENOMEM {
                    probes.push(false);
                } else {
                    result = Err(e);
                }
            },
        }
        assert(s.outs@[k as int] == s.outs@.last());
    }
    let ghost outs = s.outs@;
    let marks = s.session.marks.clone();
    let ghost end = s.session@;
    s.end(backend, &names, Ghost(a));
    let r = ModelLoad { run: Run { result, marks }, probes };
    proof {
        assert(r.run.marks@ =~= end.marks);
        assert(outs.last().end == end);
        if first is Ok {
            if result is Err {
                assert(!passable(outs.last()));
            }
        }
        assert(load_told(outs, r));
        assert(staged_ran(
            a,
            load_stages(*config, outs.len()),
            seq![heap@],
            model(*config) + 2,
            outs,
            *backend,
        ));
    }
    r
}

/// One inference: the input is allocated and written, the output allocated and looked at,
/// and both are released.
pub open spec fn inference(c: NpuConfig) -> Seq<Step> {
    let input = (model(c) + 1) as usize;
    let output = (model(c) + 2) as usize;
    seq![must(Op::Start), allocate(input, c.input_size)] + written(input, c.input_size, 0xaa) + seq![
        allocate(output, c.output_size),
    ] + looked_at(output) + dropped(input) + dropped(output) + seq![must(Op::Split { channel: 0 })]
}

/// A model is held while inferences are made.
pub open spec fn inferred(c: NpuConfig) -> Seq<Step> {
    seq![open_heap()] + pool_bulk(1, model(c), model_chunk(c)) + repeated(
        inference(c),
        c.iterations as nat,
    )
}

fn inferred_steps(config: &NpuConfig) -> (v: Vec<Step>)
    requires
        npu_fits(*config),
    ensures
        v@ == inferred(*config),
{
    let (n, size) = chunk_params(config.model_size, config.chunk_size);
    let mut once: Vec<Step> = vec![must(Op::Start), allocate(n + 1, config.input_size)];
    push_written(&mut once, n + 1, config.input_size, 0xaa);
    let ghost one = once@;
    once.push(allocate(n + 2, config.output_size));
    assert(once@ =~= one + seq![allocate((n + 2) as usize, config.output_size)]);
    push_looked_at(&mut once, n + 2);
    push_dropped(&mut once, n + 1);
    push_dropped(&mut once, n + 2);
    let ghost two = once@;
    once.push(must(Op::Split { channel: 0 }));
    assert(once@ =~= two + seq![must(Op::Split { channel: 0 })]);
    assert(once@ =~= inference(*config));
    let mut v: Vec<Step> = vec![open_heap()];
    push_pool_bulk(&mut v, 1, n, size);
    push_repeated(&mut v, once.as_slice(), config.iterations);
    v
}

/// Models are switched: one of half the size is loaded, the whole one beside it (on
/// channels 0 and 1), the first is released (on channel 2), and a third takes its place
/// (on channels 3 and 4).
pub open spec fn models_switched(c: NpuConfig) -> Seq<Step> {
    let chunk = half_chunk(c);
    seq![open_heap()] + pool_bulk(1, half_model(c), chunk) + grouped(
        1 + half_model(c) as int,
        model(c),
        chunk,
        0,
        1,
    ) + seq![must(Op::Start)] + releases(1, half_model(c)) + seq![must(Op::Total { channel: 2 })]
        + grouped(1, half_model(c), chunk, 3, 4)
}

fn models_switched_steps(config: &NpuConfig) -> (v: Vec<Step>)
    requires
        npu_fits(*config),
    ensures
        v@ == models_switched(*config),
{
    let (half, chunk) = chunk_params(config.model_size / 2, config.chunk_size);
    let (whole, _) = chunk_params(config.model_size, config.chunk_size);
    let mut v: Vec<Step> = vec![open_heap()];
    push_pool_bulk(&mut v, 1, half, chunk);
    push_grouped(&mut v, 1 + half, whole, chunk, 0, 1);
    let ghost one = v@;
    v.push(must(Op::Start));
    assert(v@ =~= one + seq![must(Op::Start)]);
    push_releases(&mut v, 1, half);
    let ghost two = v@;
    v.push(must(Op::Total { channel: 2 }));
    assert(v@ =~= two + seq![must(Op::Total { channel: 2 })]);
    push_grouped(&mut v, 1, half, chunk, 3, 4);
    v
}

/// The input and the output come and go.
pub open spec fn exchange(c: NpuConfig) -> Seq<Step> {
    let input = (model(c) + 1) as usize;
    let output = (model(c) + 2) as usize;
    seq![must(Op::Start), allocate(input, c.input_size), allocate(output, c.output_size)] + dropped(
        input,
    ) + dropped(output) + seq![must(Op::Split { channel: 0 })]
}

/// A model is held for long.
pub open spec fn sustained(c: NpuConfig) -> Seq<Step> {
    seq![open_heap()] + pool_bulk(1, model(c), model_chunk(c)) + repeated(
        exchange(c),
        c.iterations as nat,
    )
}

fn sustained_steps(config: &NpuConfig) -> (v: Vec<Step>)
    requires
        npu_fits(*config),
    ensures
        v@ == sustained(*config),
{
    let (n, size) = chunk_params(config.model_size, config.chunk_size);
    let mut once: Vec<Step> = vec![
        must(Op::Start),
        allocate(n + 1, config.input_size),
        allocate(n + 2, config.output_size),
    ];
    push_dropped(&mut once, n + 1);
    push_dropped(&mut once, n + 2);
    let ghost two = once@;
    once.push(must(Op::Split { channel: 0 }));
    assert(once@ =~= two + seq![must(Op::Split { channel: 0 })]);
    assert(once@ =~= exchange(*config));
    let mut v: Vec<Step> = vec![open_heap()];
    push_pool_bulk(&mut v, 1, n, size);
    push_repeated(&mut v, once.as_slice(), config.iterations);
    v
}

/// One input of a client comes and goes; memory that is used up ends the client well.
pub open spec fn client_turn(c: NpuConfig) -> Seq<Step> {
    seq![
        must(Op::Start),
        expecting(allocation(1, c.input_size), Expect::OrEnd(Errno::ENOMEM)),
    ] + dropped(1) + seq![must(Op::Split { channel: 0 })]
}

/// A client, with its share of the iterations.
pub open spec fn client(c: NpuConfig) -> Seq<Step> {
    seq![open_heap()] + repeated(client_turn(c), (c.iterations / c.clients) as nat)
}

fn client_steps(config: &NpuConfig) -> (v: Vec<Step>)
    requires
        config.clients > 0,
    ensures
        v@ == client(*config),
{
    let mut once: Vec<Step> = vec![
        must(Op::Start),
        expecting(allocation(1, config.input_size), Expect::OrEnd(Errno::ENOMEM)),
    ];
    push_dropped(&mut once, 1);
    let ghost two = once@;
    once.push(must(Op::Split { channel: 0 }));
    assert(once@ =~= two + seq![must(Op::Split { channel: 0 })]);
    assert(once@ =~= client_turn(*config));
    let mut v: Vec<Step> = vec![open_heap()];
    push_repeated(&mut v, once.as_slice(), config.iterations / config.clients);
    v
}

/// Makes inferences.
pub fn npu_inference_loop<B: HeapBackend + DmaBufBackend + ContainerBackend>(
    backend: &mut B,
    heap: &str,
    config: &NpuConfig,
) -> (r: Run)
    requires
        old(backend).valid(),
        npu_fits(*config),
    ensures
        final(backend).valid(),
        timed_on(
            *old(backend),
            inferred(*config),
            heap@,
            model(*config) + 3,
            r,
            *final(backend),
        ),
        final(backend).opened() == old(backend).opened(),
{
    let (n, _) = chunk_params(config.model_size, config.chunk_size);
    let steps = inferred_steps(config);
    run_timed(backend, steps.as_slice(), heap, n + 3)
}

/// Switches models.
pub fn npu_model_switch<B: HeapBackend + DmaBufBackend + ContainerBackend>(
    backend: &mut B,
    heap: &str,
    config: &NpuConfig,
) -> (r: Run)
    requires
        old(backend).valid(),
        npu_fits(*config),
    ensures
        final(backend).valid(),
        timed_on(
            *old(backend),
            models_switched(*config),
            heap@,
            model(*config) + half_model(*config) + 1,
            r,
            *final(backend),
        ),
        final(backend).opened() == old(backend).opened(),
{
    let (n, _) = chunk_params(config.model_size, config.chunk_size);
    let (half, _) = chunk_params(config.model_size / 2, config.chunk_size);
    let steps = models_switched_steps(config);
    run_timed(backend, steps.as_slice(), heap, n + half + 1)
}

/// Holds a model for long.
pub fn npu_sustained<B: HeapBackend + DmaBufBackend + ContainerBackend>(
    backend: &mut B,
    heap: &str,
    config: &NpuConfig,
) -> (r: Run)
    requires
        old(backend).valid(),
        npu_fits(*config),
    ensures
        final(backend).valid(),
        timed_on(
            *old(backend),
            sustained(*config),
            heap@,
            model(*config) + 3,
            r,
            *final(backend),
        ),
        final(backend).opened() == old(backend).opened(),
{
    let (n, _) = chunk_params(config.model_size, config.chunk_size);
    let steps = sustained_steps(config);
    run_timed(backend, steps.as_slice(), heap, n + 3)
}

/// Runs one client.
pub fn npu_client<B: HeapBackend + DmaBufBackend + ContainerBackend>(
    backend: &mut B,
    heap: &str,
    config: &NpuConfig,
) -> (r: Run)
    requires
        old(backend).valid(),
        config.clients > 0,
    ensures
        final(backend).valid(),
        timed_on(
            *old(backend),
            client(*config),
            heap@,
            2,
            r,
            *final(backend),
        ),
        final(backend).opened() == old(backend).opened(),
{
    let steps = client_steps(config);
    run_timed(backend, steps.as_slice(), heap, 2)
}

/// Whether clients, one after the other, lead from one backend to another.
pub open spec fn clients_ran<B: Answers>(
    a: B,
    heap: Seq<char>,
    c: NpuConfig,
    runs: Seq<Run>,
    b: B,
) -> bool
    decreases runs.len(),
{
    if runs.len() == 0 {
        b == a
    } else {
        exists|m: B| #[trigger]
            timed_on(m, client(c), heap, 2, runs.last(), b) && clients_ran(
                a,
                heap,
                c,
                runs.drop_last(),
                m,
            )
    }
}

/// Runs several clients. Here they take their turns.
pub fn npu_concurrent<B: HeapBackend + DmaBufBackend + ContainerBackend>(
    backend: &mut B,
    heap: &str,
    config: &NpuConfig,
) -> (r: (Result<(), Errno>, Vec<Run>))
    requires
        old(backend).valid(),
    ensures
        final(backend).valid(),
        clients_ran(*old(backend), heap@, *config, r.1@, *final(backend)),
        r.1@.len() == config.clients,
        r.0 == if any_failed(r.1@) {
            Err::<(), Errno>(Errno::EIO)
        } else {
            Ok(())
        },
        final(backend).opened() == old(backend).opened(),
{
    let ghost a = *backend;
    let mut runs: Vec<Run> = Vec::new();
    let mut i: u32 = 0;
    while i < config.clients
        invariant
            i <= config.clients,
            backend.valid(),
            backend.opened() == a.opened(),
            runs@.len() == i,
            clients_ran(a, heap@, *config, runs@, *backend),
        decreases config.clients - i,
    {
        let ghost before = *backend;
        let ghost prior = runs@;
        let run = npu_client(backend, heap, config);
        runs.push(run);
        proof {
            assert(runs@.drop_last() =~= prior);
            assert(timed_on(before, client(*config), heap@, 2, runs@.last(), *backend));
        }
        i = i + 1;
    }
    (jobs_result(&runs), runs)
}

/// What came of the workloads of inference.
pub struct NpuRuns {
    pub load: ModelLoad,
    pub inferences: Run,
    pub switch: Run,
    pub sustained: Run,
    pub clients: Vec<Run>,
}

/// The results of the workloads of inference.
pub open spec fn npu_results(r: NpuRuns) -> Seq<(&'static str, Result<(), Errno>, bool)> {
    seq![
        ("model_load", r.load.run.result, false),
        ("inference_loop", r.inferences.result, false),
        ("model_switch", r.switch.result, false),
        ("sustained", r.sustained.result, false),
        (
            "concurrent",
            if any_failed(r.clients@) {
                Err::<(), Errno>(Errno::EIO)
            } else {
                Ok(())
            },
            false,
        ),
    ]
}

/// Whether all workloads of inference, one after the other, lead from one backend to
/// another.
pub open spec fn npu_ran<B: Answers>(
    a: B,
    heap: Seq<char>,
    c: NpuConfig,
    r: NpuRuns,
    b: B,
) -> bool {
    exists|m1: B, m2: B, m3: B, m4: B|
        #![trigger load_ran(a, heap, c, r.load, m1), timed_on(m1, inferred(c), heap, model(c) + 3, r.inferences, m2), timed_on(m2, models_switched(c), heap, model(c) + half_model(c) + 1, r.switch, m3), timed_on(m3, sustained(c), heap, model(c) + 3, r.sustained, m4)]
        {
            &&& load_ran(a, heap, c, r.load, m1)
            &&& timed_on(m1, inferred(c), heap, model(c) + 3, r.inferences, m2)
            &&& timed_on(
                m2,
                models_switched(c),
                heap,
                model(c) + half_model(c) + 1,
                r.switch,
                m3,
            )
            &&& timed_on(m3, sustained(c), heap, model(c) + 3, r.sustained, m4)
            &&& clients_ran(m4, heap, c, r.clients@, b)
            &&& r.clients@.len() == c.clients
        }
}

impl NpuRuns {
    /// Tells of each workload, and of the first that failed.
    pub fn tell(&self) -> (r: (Vec<SubTestResult>, Option<String>))
        ensures
            outcomes(r.0@) == all_told(
                tested(npu_results(*self)),
                results_of(npu_results(*self)),
            ),
            maybe_text(r.1) == first_failure(
                "npu"@,
                tested(npu_results(*self)),
                results_of(npu_results(*self)),
            ),
    {
        let tests: [(&'static str, Result<(), Errno>, bool); 5] = [
            ("model_load", self.load.run.result, false),
            ("inference_loop", self.inferences.result, false),
            ("model_switch", self.switch.result, false),
            ("sustained", self.sustained.result, false),
            ("concurrent", jobs_result(&self.clients), false),
        ];
        assert(tests@ =~= npu_results(*self));
        collect_test_results("npu", &tests)
    }
}

/// Runs all workloads of inference.
pub fn run<B: HeapBackend + DmaBufBackend + ContainerBackend>(
    backend: &mut B,
    heap: &str,
    config: &NpuConfig,
) -> (r: (Vec<SubTestResult>, Option<String>, NpuRuns))
    requires
        old(backend).valid(),
        npu_fits(*config),
        config.clients > 0,
    ensures
        final(backend).valid(),
        final(backend).opened() == old(backend).opened(),
        npu_ran(*old(backend), heap@, *config, r.2, *final(backend)),
        outcomes(r.0@) == all_told(
            tested(npu_results(r.2)),
            results_of(npu_results(r.2)),
        ),
        maybe_text(r.1) == first_failure(
            "npu"@,
            tested(npu_results(r.2)),
            results_of(npu_results(r.2)),
        ),
{
    let ghost a = *backend;
    let load = npu_model_load(backend, heap, config);
    let ghost m1 = *backend;
    let inferences = npu_inference_loop(backend, heap, config);
    let ghost m2 = *backend;
    let switch = npu_model_switch(backend, heap, config);
    let ghost m3 = *backend;
    let sustained_run = npu_sustained(backend, heap, config);
    let ghost m4 = *backend;
    let (_, clients) = npu_concurrent(backend, heap, config);
    let runs = NpuRuns { load, inferences, switch, sustained: sustained_run, clients };
    proof {
        let c = *config;
        assert(load_ran(a, heap@, c, runs.load, m1));
        assert(timed_on(m1, inferred(c), heap@, model(c) + 3, runs.inferences, m2));
        assert(timed_on(
            m2,
            models_switched(c),
            heap@,
            model(c) + half_model(c) + 1,
            runs.switch,
            m3,
        ));
        assert(timed_on(m3, sustained(c), heap@, model(c) + 3, runs.sustained, m4));
        assert(npu_ran(a, heap@, c, runs, *backend));
    }
    let (told_of, first) = runs.tell();
    (told_of, first, runs)
}

} // verus!
