//! Showing pictures.
use crate::backend::protocol::{ContainerBackend, DmaBufBackend, HeapBackend};
use crate::bench::pressure::SubTestResult;
use crate::order::strs;
use crate::scenario::display::{
    framebuffer_size, layer, layer_size, screen, turned, turned_size,
    DisplayConfig,
};
use crate::workload::pools::{pool_buffer, pooled, push_pooled};
use crate::workload::run::Run;
use crate::workload::scene::common::{framed, pool_bulk, push_framed, push_pool_bulk};
use crate::workload::script::{open_heap, push_releases, releases, run_timed, timed_on};
use crate::workload::step::{must, Op, Step};
use crate::workload::suite::{
    planned, plans, run_suite_timed, suite_timed, suite_told, Plan, Planned,
};
use vstd::prelude::*;

verus! {

/// Whether the sizes fit machine integers.
pub open spec fn display_fits(c: DisplayConfig) -> bool {
    &&& c.width * c.height * 4 <= u64::MAX
    &&& c.buffers < usize::MAX
    &&& c.layers < usize::MAX
}

/// Whether there is a buffer for the pictures to be shown.
pub open spec fn display_shows(c: DisplayConfig) -> bool {
    c.buffers > 0 || c.frames == 0
}

/// Pictures are shown in turn.
pub open spec fn flipped(c: DisplayConfig) -> Seq<Step> {
    let size = screen(c.width as nat, c.height as nat) as u64;
    seq![open_heap()] + pooled(1, c.buffers as nat, size) + framed(
        1,
        c.buffers as nat,
        size,
        false,
        0,
        c.frames as nat,
    )
}

fn flipped_steps(config: &DisplayConfig) -> (v: Vec<Step>)
    requires
        display_fits(*config),
        display_shows(*config),
    ensures
        v@ == flipped(*config),
{
    let size: u64 = framebuffer_size(config.width, config.height);
    let mut v: Vec<Step> = vec![open_heap()];
    push_pooled(&mut v, 1, config.buffers, size);
    push_framed(&mut v, 1, config.buffers, size, false, 0, config.frames);
    v
}

/// One turn of the screen: buffers of the new shape come and go.
pub open spec fn turn_once(c: DisplayConfig, cycle: nat) -> Seq<Step> {
    seq![must(Op::Start)] + pool_bulk(1, c.buffers as nat, turned(c, cycle) as u64) + releases(
        1,
        c.buffers as nat,
    ) + seq![must(Op::Total { channel: 0 })]
}

/// The screen is turned so many times.
pub open spec fn rotated(c: DisplayConfig, n: nat) -> Seq<Step>
    decreases n,
{
    if n == 0 {
        seq![open_heap()]
    } else {
        rotated(c, (n - 1) as nat) + turn_once(c, (n - 1) as nat)
    }
}

fn rotated_steps(config: &DisplayConfig) -> (v: Vec<Step>)
    requires
        display_fits(*config),
    ensures
        v@ == rotated(*config, config.rotation_cycles as nat),
{
    let mut v: Vec<Step> = vec![open_heap()];
    assert(v@ =~= seq![open_heap()]);
    let mut i: u32 = 0;
    while i < config.rotation_cycles
        invariant
            i <= config.rotation_cycles,
            display_fits(*config),
            v@ == rotated(*config, i as nat),
        decreases config.rotation_cycles - i,
    {
        let ghost before = v@;
        let size: u64 = turned_size(config, i);
        v.push(must(Op::Start));
        push_pool_bulk(&mut v, 1, config.buffers, size);
        push_releases(&mut v, 1, config.buffers);
        v.push(must(Op::Total { channel: 0 }));
        assert(v@ =~= before + turn_once(*config, i as nat));
        i = i + 1;
    }
    v
}

/// The first layers are allocated, each timed on channel 0.
pub open spec fn layers(c: DisplayConfig, n: nat) -> Seq<Step>
    decreases n,
{
    if n == 0 {
        seq![open_heap(), must(Op::Start)]
    } else {
        layers(c, (n - 1) as nat) + seq![
            pool_buffer(n as usize, layer(c, (n - 1) as nat) as u64),
            must(Op::Split { channel: 0 }),
        ]
    }
}

/// All layers are allocated, together timed on channel 1.
pub open spec fn layered(c: DisplayConfig) -> Seq<Step> {
    layers(c, c.layers as nat) + seq![must(Op::Total { channel: 1 })]
}

fn layered_steps(config: &DisplayConfig) -> (v: Vec<Step>)
    requires
        display_fits(*config),
    ensures
        v@ == layered(*config),
{
    let mut v: Vec<Step> = vec![open_heap(), must(Op::Start)];
    assert(v@ =~= seq![open_heap(), must(Op::Start)]);
    let mut i: usize = 0;
    while i < config.layers
        invariant
            i <= config.layers < usize::MAX,
            display_fits(*config),
            v@ == layers(*config, i as nat),
        decreases config.layers - i,
    {
        let ghost before = v@;
        v.push(pool_buffer(i + 1, layer_size(config, i)));
        v.push(must(Op::Split { channel: 0 }));
        i = i + 1;
        assert(v@ =~= before + seq![
            pool_buffer(i, layer(*config, (i - 1) as nat) as u64),
            must(Op::Split { channel: 0 }),
        ]);
    }
    let ghost before = v@;
    v.push(must(Op::Total { channel: 1 }));
    assert(v@ =~= before + seq![must(Op::Total { channel: 1 })]);
    v
}

/// Shows pictures in turn.
pub fn display_flip<B: HeapBackend + DmaBufBackend + ContainerBackend>(
    backend: &mut B,
    heap: &str,
    config: &DisplayConfig,
) -> (r: Run)
    requires
        old(backend).valid(),
        display_fits(*config),
        display_shows(*config),
    ensures
        final(backend).valid(),
        timed_on(
            *old(backend),
            flipped(*config),
            heap@,
            config.buffers as nat + 1,
            r,
            *final(backend),
        ),
        final(backend).opened() == old(backend).opened(),
{
    let steps = flipped_steps(config);
    run_timed(backend, steps.as_slice(), heap, config.buffers + 1)
}

/// Turns the screen.
pub fn display_rotation<B: HeapBackend + DmaBufBackend + ContainerBackend>(
    backend: &mut B,
    heap: &str,
    config: &DisplayConfig,
) -> (r: Run)
    requires
        old(backend).valid(),
        display_fits(*config),
    ensures
        final(backend).valid(),
        timed_on(
            *old(backend),
            rotated(*config, config.rotation_cycles as nat),
            heap@,
            config.buffers as nat + 1,
            r,
            *final(backend),
        ),
        final(backend).opened() == old(backend).opened(),
{
    let steps = rotated_steps(config);
    run_timed(backend, steps.as_slice(), heap, config.buffers + 1)
}

/// Allocates layers.
pub fn display_multi_layer<B: HeapBackend + DmaBufBackend + ContainerBackend>(
    backend: &mut B,
    heap: &str,
    config: &DisplayConfig,
) -> (r: Run)
    requires
        old(backend).valid(),
        display_fits(*config),
    ensures
        final(backend).valid(),
        timed_on(
            *old(backend),
            layered(*config),
            heap@,
            config.layers as nat + 1,
            r,
            *final(backend),
        ),
        final(backend).opened() == old(backend).opened(),
{
    let steps = layered_steps(config);
    run_timed(backend, steps.as_slice(), heap, config.layers + 1)
}

/// All of these workloads.
pub open spec fn display_plan(c: DisplayConfig) -> Seq<Plan> {
    seq![
        Plan { name: "flip"@, steps: flipped(c), slots: c.buffers as nat + 1, skip: false },
        Plan { name: "rotation"@, steps: rotated(c, c.rotation_cycles as nat), slots: c.buffers as nat + 1, skip: false },
        Plan { name: "multi_layer"@, steps: layered(c), slots: c.layers as nat + 1, skip: false },
    ]
}

fn display_plan_list(config: &DisplayConfig) -> (v: Vec<Planned>)
    requires
        display_fits(*config),
        display_shows(*config),
    ensures
        plans(v@) == display_plan(*config),
{
    let mut v: Vec<Planned> = Vec::new();
    v.push(planned("flip", flipped_steps(config), config.buffers + 1, false));
    v.push(planned("rotation", rotated_steps(config), config.buffers + 1, false));
    v.push(planned("multi_layer", layered_steps(config), config.layers + 1, false));
    assert(plans(v@) =~= display_plan(*config));
    v
}

/// Runs all workloads of the display.
pub fn run<B: HeapBackend + DmaBufBackend + ContainerBackend>(
    backend: &mut B,
    heap: &str,
    config: &DisplayConfig,
) -> (r: (Vec<SubTestResult>, Option<String>, Vec<Run>))
    requires
        old(backend).valid(),
        display_fits(*config),
        display_shows(*config),
    ensures
        final(backend).valid(),
        final(backend).opened() == old(backend).opened(),
        suite_told(
            *old(backend),
            "display"@,
            display_plan(*config),
            seq![heap@],
            r.0@,
            r.1,
            *final(backend),
        ),
        suite_timed(
            *old(backend),
            display_plan(*config),
            seq![heap@],
            r.2@,
            *final(backend),
        ),
{
    let names: [&str; 1] = [heap];
    assert(strs(names@) =~= seq![heap@]);
    run_suite_timed(backend, "display", &names, &display_plan_list(config))
}

} // verus!
