//! Drawing.
use crate::backend::protocol::{ContainerBackend, DmaBufBackend, HeapBackend};
use crate::bench::pressure::SubTestResult;
use crate::order::strs;
use crate::scenario::gpu::{
    evict_count, evicted_per_round, evicted_slots, evictions, law_evictions, GpuConfig,
    APP_LAUNCH_SIZES, APP_SWITCH_SIZE,
};
use crate::workload::run::Run;
use crate::workload::scene::common::{pool_bulk, push_pool_bulk};
use crate::workload::script::{
    allocate, bulk, dropped, open_heap, push_bulk, push_dropped, push_releases, push_repeated,
    releases, repeated, run_timed, timed_on,
};
use crate::workload::step::{must, Op, Step};
use crate::workload::suite::{
    planned, plans, run_suite_timed, suite_timed, suite_told, Plan, Planned,
};
use vstd::prelude::*;

verus! {

/// Whether the numbers fit machine integers.
pub open spec fn gpu_fits(c: GpuConfig) -> bool {
    &&& c.buffer_count < usize::MAX
    &&& c.pool_size < usize::MAX
    &&& c.pool_size * c.evict_pct <= u64::MAX
}

/// The first buffers of an application, of mixed sizes, each timed on channel 0.
pub open spec fn launching(n: nat) -> Seq<Step>
    decreases n,
{
    if n == 0 {
        seq![open_heap(), must(Op::Start)]
    } else {
        launching((n - 1) as nat) + seq![
            allocate(n as usize, APP_LAUNCH_SIZES@[(n - 1) % 7]),
            must(Op::Split { channel: 0 }),
        ]
    }
}

/// An application starts: all its buffers together are timed on channel 1.
pub open spec fn launched(c: GpuConfig) -> Seq<Step> {
    launching(c.buffer_count as nat) + seq![must(Op::Total { channel: 1 })]
}

fn launched_steps(config: &GpuConfig) -> (v: Vec<Step>)
    requires
        gpu_fits(*config),
    ensures
        v@ == launched(*config),
{
    let mut v: Vec<Step> = vec![open_heap(), must(Op::Start)];
    assert(v@ =~= seq![open_heap(), must(Op::Start)]);
    let mut i: usize = 0;
    while i < config.buffer_count
        invariant
            i <= config.buffer_count < usize::MAX,
            v@ == launching(i as nat),
        decreases config.buffer_count - i,
    {
        let ghost before = v@;
        let size: u64 = APP_LAUNCH_SIZES[i % 7];
        v.push(allocate(i + 1, size));
        v.push(must(Op::Split { channel: 0 }));
        i = i + 1;
        assert(v@ =~= before + seq![
            allocate(i, APP_LAUNCH_SIZES@[(i - 1) % 7]),
            must(Op::Split { channel: 0 }),
        ]);
    }
    let ghost before = v@;
    v.push(must(Op::Total { channel: 1 }));
    assert(v@ =~= before + seq![must(Op::Total { channel: 1 })]);
    v
}

/// The buffers of an application come and go.
pub open spec fn one_switch(c: GpuConfig) -> Seq<Step> {
    seq![must(Op::Start)] + pool_bulk(1, c.buffer_count as nat, APP_SWITCH_SIZE) + releases(
        1,
        c.buffer_count as nat,
    ) + seq![must(Op::Total { channel: 0 })]
}

/// Applications are switched.
pub open spec fn apps_switched(c: GpuConfig) -> Seq<Step> {
    seq![open_heap()] + repeated(one_switch(c), c.switch_count as nat)
}

fn apps_switched_steps(config: &GpuConfig) -> (v: Vec<Step>)
    requires
        gpu_fits(*config),
    ensures
        v@ == apps_switched(*config),
{
    let mut once: Vec<Step> = vec![must(Op::Start)];
    push_pool_bulk(&mut once, 1, config.buffer_count, APP_SWITCH_SIZE);
    push_releases(&mut once, 1, config.buffer_count);
    let ghost before = once@;
    once.push(must(Op::Total { channel: 0 }));
    assert(once@ =~= before + seq![must(Op::Total { channel: 0 })]);
    assert(once@ =~= one_switch(*config));
    let mut v: Vec<Step> = vec![open_heap()];
    push_repeated(&mut v, once.as_slice(), config.switch_count);
    v
}

/// The textures with these numbers go.
pub open spec fn evicting(slots: Seq<usize>) -> Seq<Step>
    decreases slots.len(),
{
    if slots.len() == 0 {
        Seq::empty()
    } else {
        evicting(slots.drop_last()) + dropped((slots.last() + 1) as usize)
    }
}

/// The textures with these numbers come again.
pub open spec fn reloading(slots: Seq<usize>, size: u64) -> Seq<Step> {
    Seq::new(slots.len(), |i: int| allocate((slots[i] + 1) as usize, size))
}

/// One round: textures go, and come again.
pub open spec fn texture_round(c: GpuConfig, round: nat) -> Seq<Step> {
    let slots = evictions(c.pool_size as nat, round, evicted_per_round(c));
    seq![must(Op::Start)] + evicting(slots) + reloading(slots, c.texture_size) + seq![
        must(Op::Total { channel: 0 }),
    ]
}

/// Textures go and come again, so many rounds.
pub open spec fn streamed(c: GpuConfig, n: nat) -> Seq<Step>
    decreases n,
{
    if n == 0 {
        seq![open_heap()] + bulk(1, c.pool_size as nat, c.texture_size)
    } else {
        streamed(c, (n - 1) as nat) + texture_round(c, (n - 1) as nat)
    }
}

fn push_round(v: &mut Vec<Step>, config: &GpuConfig, round: u32)
    requires
        gpu_fits(*config),
    ensures
        final(v)@ == old(v)@ + texture_round(*config, round as nat),
{
    let ghost start = v@;
    let slots = evicted_slots(config.pool_size, round, evict_count(config));
    proof {
        law_evictions(config.pool_size as nat, round as nat, evicted_per_round(*config));
    }
    v.push(must(Op::Start));
    let ghost one = v@;
    let mut i: usize = 0;
    assert(slots@.take(0) =~= Seq::empty());
    assert(one + Seq::<Step>::empty() =~= one);
    while i < slots.len()
        invariant
            i <= slots@.len(),
            config.pool_size < usize::MAX,
            forall|k: int| 0 <= k < slots@.len() ==> (#[trigger] slots@[k]) < config.pool_size,
            v@ == one + evicting(slots@.take(i as int)),
        decreases slots@.len() - i,
    {
        let ghost before = evicting(slots@.take(i as int));
        assert(slots@[i as int] < config.pool_size);
        push_dropped(v, slots[i] + 1);
        assert(slots@.take(i + 1).drop_last() =~= slots@.take(i as int));
        assert(v@ =~= one + (before + dropped((slots@[i as int] + 1) as usize)));
        i = i + 1;
    }
    assert(slots@.take(slots@.len() as int) =~= slots@);
    let ghost two = v@;
    let ghost all = reloading(slots@, config.texture_size);
    let mut j: usize = 0;
    assert(two + all.take(0) =~= two);
    while j < slots.len()
        invariant
            j <= slots@.len(),
            config.pool_size < usize::MAX,
            forall|k: int| 0 <= k < slots@.len() ==> (#[trigger] slots@[k]) < config.pool_size,
            all == reloading(slots@, config.texture_size),
            v@ == two + all.take(j as int),
        decreases slots@.len() - j,
    {
        assert(slots@[j as int] < config.pool_size);
        v.push(allocate(slots[j] + 1, config.texture_size));
        j = j + 1;
        assert(v@ =~= two + all.take(j as int));
    }
    assert(all.take(all.len() as int) =~= all);
    v.push(must(Op::Total { channel: 0 }));
    assert(v@ =~= start + texture_round(*config, round as nat));
}

fn streamed_steps(config: &GpuConfig) -> (v: Vec<Step>)
    requires
        gpu_fits(*config),
    ensures
        v@ == streamed(*config, config.evict_rounds as nat),
{
    let mut v: Vec<Step> = vec![open_heap()];
    push_bulk(&mut v, 1, config.pool_size, config.texture_size);
    let mut round: u32 = 0;
    while round < config.evict_rounds
        invariant
            round <= config.evict_rounds,
            gpu_fits(*config),
            v@ == streamed(*config, round as nat),
        decreases config.evict_rounds - round,
    {
        push_round(&mut v, config, round);
        round = round + 1;
    }
    v
}

/// Starts an application.
pub fn gpu_app_launch<B: HeapBackend + DmaBufBackend + ContainerBackend>(
    backend: &mut B,
    heap: &str,
    config: &GpuConfig,
) -> (r: Run)
    requires
        old(backend).valid(),
        gpu_fits(*config),
    ensures
        final(backend).valid(),
        timed_on(
            *old(backend),
            launched(*config),
            heap@,
            config.buffer_count as nat + 1,
            r,
            *final(backend),
        ),
        final(backend).opened() == old(backend).opened(),
{
    let steps = launched_steps(config);
    run_timed(backend, steps.as_slice(), heap, config.buffer_count + 1)
}

/// Switches applications.
pub fn gpu_app_switch<B: HeapBackend + DmaBufBackend + ContainerBackend>(
    backend: &mut B,
    heap: &str,
    config: &GpuConfig,
) -> (r: Run)
    requires
        old(backend).valid(),
        gpu_fits(*config),
    ensures
        final(backend).valid(),
        timed_on(
            *old(backend),
            apps_switched(*config),
            heap@,
            config.buffer_count as nat + 1,
            r,
            *final(backend),
        ),
        final(backend).opened() == old(backend).opened(),
{
    let steps = apps_switched_steps(config);
    run_timed(backend, steps.as_slice(), heap, config.buffer_count + 1)
}

/// Streams textures.
pub fn gpu_game_texture<B: HeapBackend + DmaBufBackend + ContainerBackend>(
    backend: &mut B,
    heap: &str,
    config: &GpuConfig,
) -> (r: Run)
    requires
        old(backend).valid(),
        gpu_fits(*config),
    ensures
        final(backend).valid(),
        timed_on(
            *old(backend),
            streamed(*config, config.evict_rounds as nat),
            heap@,
            config.pool_size as nat + 1,
            r,
            *final(backend),
        ),
        final(backend).opened() == old(backend).opened(),
{
    let steps = streamed_steps(config);
    run_timed(backend, steps.as_slice(), heap, config.pool_size + 1)
}

/// All of these workloads.
pub open spec fn gpu_plan(c: GpuConfig) -> Seq<Plan> {
    seq![
        Plan { name: "app_launch"@, steps: launched(c), slots: c.buffer_count as nat + 1, skip: false },
        Plan { name: "app_switch"@, steps: apps_switched(c), slots: c.buffer_count as nat + 1, skip: false },
        Plan { name: "game_texture"@, steps: streamed(c, c.evict_rounds as nat), slots: c.pool_size as nat + 1, skip: false },
    ]
}

fn gpu_plan_list(config: &GpuConfig) -> (v: Vec<Planned>)
    requires
        gpu_fits(*config),
    ensures
        plans(v@) == gpu_plan(*config),
{
    let mut v: Vec<Planned> = Vec::new();
    v.push(planned("app_launch", launched_steps(config), config.buffer_count + 1, false));
    v.push(planned("app_switch", apps_switched_steps(config), config.buffer_count + 1, false));
    v.push(planned("game_texture", streamed_steps(config), config.pool_size + 1, false));
    assert(plans(v@) =~= gpu_plan(*config));
    v
}

/// Runs all workloads of drawing.
pub fn run<B: HeapBackend + DmaBufBackend + ContainerBackend>(
    backend: &mut B,
    heap: &str,
    config: &GpuConfig,
) -> (r: (Vec<SubTestResult>, Option<String>, Vec<Run>))
    requires
        old(backend).valid(),
        gpu_fits(*config),
    ensures
        final(backend).valid(),
        final(backend).opened() == old(backend).opened(),
        suite_told(
            *old(backend),
            "gpu"@,
            gpu_plan(*config),
            seq![heap@],
            r.0@,
            r.1,
            *final(backend),
        ),
        suite_timed(
            *old(backend),
            gpu_plan(*config),
            seq![heap@],
            r.2@,
            *final(backend),
        ),
{
    let names: [&str; 1] = [heap];
    assert(strs(names@) =~= seq![heap@]);
    run_suite_timed(backend, "gpu", &names, &gpu_plan_list(config))
}

} // verus!
