//! Decoding video.
use crate::backend::protocol::{ContainerBackend, DmaBufBackend, HeapBackend};
use crate::bench::pressure::SubTestResult;
use crate::order::strs;
use crate::scenario::codec::{nv12, nv12_size, CodecConfig, CodecPlan};
use crate::workload::pools::{
    frame_byte, looked_at, pooled, push_looked_at, push_pooled, push_written, turn, written,
};
use crate::workload::run::Run;
use crate::workload::scene::common::{framed, push_framed, switched, switched_steps};
use crate::workload::script::{open_heap, run_timed, timed_on};
use crate::workload::step::{must, Op, Step};
use crate::workload::suite::{
    planned, plans, run_suite_timed, suite_timed, suite_told, Plan, Planned,
};
use vstd::prelude::*;

verus! {

/// How many pictures the encoder has.
pub const ENCODER_POOL: usize = 4;

/// Whether the pictures' sizes fit machine integers.
pub open spec fn codec_fits(c: CodecPlan) -> bool {
    &&& c.width * c.height * 3 <= u64::MAX
    &&& c.dpb_size + 1 + ENCODER_POOL <= usize::MAX
    &&& 2 * c.resolutions.len() <= usize::MAX
    &&& forall|i: int|
        0 <= i < c.resolutions.len() ==> (#[trigger] c.resolutions[i]).0 * c.resolutions[i].1 * 3
            <= u64::MAX
}

/// Whether there is a buffer for the pictures to be decoded.
pub open spec fn codec_shows(c: CodecPlan) -> bool {
    c.dpb_size > 0 || c.frames == 0
}

/// Pictures are decoded: the pool's allocation is timed on channel 0, the pictures on
/// channel 1.
pub open spec fn decoded(c: CodecPlan) -> Seq<Step> {
    let size = nv12(c.width as nat, c.height as nat) as u64;
    seq![open_heap(), must(Op::Start)] + pooled(1, c.dpb_size as nat, size) + seq![
        must(Op::Total { channel: 0 }),
    ] + framed(1, c.dpb_size as nat, size, true, 1, c.frames as nat)
}

fn decoded_steps(config: &CodecConfig) -> (v: Vec<Step>)
    requires
        codec_fits(config@),
        codec_shows(config@),
    ensures
        v@ == decoded(config@),
{
    let size: u64 = nv12_size(config.width, config.height);
    let mut v: Vec<Step> = vec![open_heap(), must(Op::Start)];
    push_pooled(&mut v, 1, config.dpb_size, size);
    let ghost before = v@;
    v.push(must(Op::Total { channel: 0 }));
    assert(v@ =~= before + seq![must(Op::Total { channel: 0 })]);
    push_framed(&mut v, 1, config.dpb_size, size, true, 1, config.frames);
    v
}

/// The bytes of a picture at each resolution.
pub open spec fn picture_sizes(c: CodecPlan) -> Seq<u64> {
    Seq::new(
        c.resolutions.len(),
        |i: int| nv12(c.resolutions[i].0 as nat, c.resolutions[i].1 as nat) as u64,
    )
}

/// The resolution changes.
pub open spec fn adapted(c: CodecPlan) -> Seq<Step> {
    switched(picture_sizes(c), c.dpb_size as nat, c.resolutions.len())
}

fn adapted_steps(config: &CodecConfig) -> (v: Vec<Step>)
    requires
        codec_fits(config@),
    ensures
        v@ == adapted(config@),
{
    let mut sizes: Vec<u64> = Vec::new();
    let mut i: usize = 0;
    while i < config.resolutions.len()
        invariant
            i <= config.resolutions@.len(),
            codec_fits(config@),
            sizes@ == picture_sizes(config@).take(i as int),
        decreases config.resolutions@.len() - i,
    {
        let (w, h) = config.resolutions[i];
        assert(config@.resolutions[i as int] == (w, h));
        sizes.push(nv12_size(w, h));
        i = i + 1;
        assert(sizes@ =~= picture_sizes(config@).take(i as int));
    }
    assert(sizes@ =~= picture_sizes(config@));
    switched_steps(sizes.as_slice(), config.dpb_size)
}

/// One picture is decoded, and encoded at half the width and height.
pub open spec fn recoded(dpb: nat, size: u64, half: u64, f: nat) -> Seq<Step> {
    seq![must(Op::Start)] + written(turn(1, dpb, f), size, frame_byte(f)) + written(
        turn(1 + dpb as int, ENCODER_POOL as nat, f),
        half,
        frame_byte(f),
    ) + looked_at(turn(1 + dpb as int, ENCODER_POOL as nat, f)) + seq![must(Op::Split { channel: 0 })]
}

/// Pictures are decoded and encoded.
pub open spec fn all_recoded(dpb: nat, size: u64, half: u64, n: nat) -> Seq<Step>
    decreases n,
{
    if n == 0 {
        Seq::empty()
    } else {
        all_recoded(dpb, size, half, (n - 1) as nat) + recoded(dpb, size, half, (n - 1) as nat)
    }
}

/// Transcoding.
pub open spec fn transcoded(c: CodecPlan) -> Seq<Step> {
    let size = nv12(c.width as nat, c.height as nat) as u64;
    let half = nv12(c.width as nat / 2, c.height as nat / 2) as u64;
    seq![open_heap()] + pooled(1, c.dpb_size as nat, size) + pooled(
        1 + c.dpb_size,
        ENCODER_POOL as nat,
        half,
    ) + all_recoded(c.dpb_size as nat, size, half, c.frames as nat)
}

fn transcoded_steps(config: &CodecConfig) -> (v: Vec<Step>)
    requires
        codec_fits(config@),
        codec_shows(config@),
    ensures
        v@ == transcoded(config@),
{
    let size: u64 = nv12_size(config.width, config.height);
    proof {
        let w = config.width as int;
        let h = config.height as int;
        assert((w / 2) * (h / 2) <= w * h) by (nonlinear_arith)
            requires
                0 <= w,
                0 <= h,
        ;
    }
    let half: u64 = nv12_size(config.width / 2, config.height / 2);
    let dpb: usize = config.dpb_size;
    let mut v: Vec<Step> = vec![open_heap()];
    push_pooled(&mut v, 1, dpb, size);
    push_pooled(&mut v, 1 + dpb, ENCODER_POOL, half);
    let ghost start = v@;
    let mut f: u32 = 0;
    assert(start + Seq::<Step>::empty() =~= start);
    while f < config.frames
        invariant
            f <= config.frames,
            dpb == config.dpb_size,
            codec_fits(config@),
            codec_shows(config@),
            v@ == start + all_recoded(dpb as nat, size, half, f as nat),
        decreases config.frames - f,
    {
        let ghost before = all_recoded(dpb as nat, size, half, f as nat);
        let place: usize = 1 + (f as usize) % dpb;
        let other: usize = 1 + dpb + (f as usize) % ENCODER_POOL;
        let byte: u8 = (f % 256) as u8;
        assert(place == turn(1, dpb as nat, f as nat));
        assert(other == turn(1 + dpb, ENCODER_POOL as nat, f as nat));
        assert(byte == frame_byte(f as nat));
        v.push(must(Op::Start));
        push_written(&mut v, place, size, byte);
        push_written(&mut v, other, half, byte);
        push_looked_at(&mut v, other);
        v.push(must(Op::Split { channel: 0 }));
        assert(v@ =~= start + (before + recoded(dpb as nat, size, half, f as nat)));
        f = f + 1;
    }
    v
}

/// Decodes pictures.
pub fn codec_decode<B: HeapBackend + DmaBufBackend + ContainerBackend>(
    backend: &mut B,
    heap: &str,
    config: &CodecConfig,
) -> (r: Run)
    requires
        old(backend).valid(),
        codec_fits(config@),
        codec_shows(config@),
    ensures
        final(backend).valid(),
        timed_on(
            *old(backend),
            decoded(config@),
            heap@,
            config.dpb_size as nat + 1,
            r,
            *final(backend),
        ),
        final(backend).opened() == old(backend).opened(),
{
    let steps = decoded_steps(config);
    run_timed(backend, steps.as_slice(), heap, config.dpb_size + 1)
}

/// Changes the resolution.
pub fn codec_adaptive<B: HeapBackend + DmaBufBackend + ContainerBackend>(
    backend: &mut B,
    heap: &str,
    config: &CodecConfig,
) -> (r: Run)
    requires
        old(backend).valid(),
        codec_fits(config@),
    ensures
        final(backend).valid(),
        timed_on(
            *old(backend),
            adapted(config@),
            heap@,
            config.dpb_size as nat + 1,
            r,
            *final(backend),
        ),
        final(backend).opened() == old(backend).opened(),
{
    let steps = adapted_steps(config);
    run_timed(backend, steps.as_slice(), heap, config.dpb_size + 1)
}

/// Decodes and encodes pictures.
pub fn codec_transcode<B: HeapBackend + DmaBufBackend + ContainerBackend>(
    backend: &mut B,
    heap: &str,
    config: &CodecConfig,
) -> (r: Run)
    requires
        old(backend).valid(),
        codec_fits(config@),
        codec_shows(config@),
    ensures
        final(backend).valid(),
        timed_on(
            *old(backend),
            transcoded(config@),
            heap@,
            config.dpb_size as nat + 5,
            r,
            *final(backend),
        ),
        final(backend).opened() == old(backend).opened(),
{
    let steps = transcoded_steps(config);
    run_timed(backend, steps.as_slice(), heap, config.dpb_size + 5)
}

/// All of these workloads.
pub open spec fn codec_plan(c: CodecPlan) -> Seq<Plan> {
    seq![
        Plan { name: "decode"@, steps: decoded(c), slots: c.dpb_size as nat + 1, skip: false },
        Plan { name: "adaptive"@, steps: adapted(c), slots: c.dpb_size as nat + 1, skip: false },
        Plan { name: "transcode"@, steps: transcoded(c), slots: c.dpb_size as nat + 5, skip: false },
    ]
}

fn codec_plan_list(config: &CodecConfig) -> (v: Vec<Planned>)
    requires
        codec_fits(config@),
        codec_shows(config@),
    ensures
        plans(v@) == codec_plan(config@),
{
    let mut v: Vec<Planned> = Vec::new();
    v.push(planned("decode", decoded_steps(config), config.dpb_size + 1, false));
    v.push(planned("adaptive", adapted_steps(config), config.dpb_size + 1, false));
    v.push(planned("transcode", transcoded_steps(config), config.dpb_size + 5, false));
    assert(plans(v@) =~= codec_plan(config@));
    v
}

/// Runs all workloads of video.
pub fn run<B: HeapBackend + DmaBufBackend + ContainerBackend>(
    backend: &mut B,
    heap: &str,
    config: &CodecConfig,
) -> (r: (Vec<SubTestResult>, Option<String>, Vec<Run>))
    requires
        old(backend).valid(),
        codec_fits(config@),
        codec_shows(config@),
    ensures
        final(backend).valid(),
        final(backend).opened() == old(backend).opened(),
        suite_told(
            *old(backend),
            "codec"@,
            codec_plan(config@),
            seq![heap@],
            r.0@,
            r.1,
            *final(backend),
        ),
        suite_timed(
            *old(backend),
            codec_plan(config@),
            seq![heap@],
            r.2@,
            *final(backend),
        ),
{
    let names: [&str; 1] = [heap];
    assert(strs(names@) =~= seq![heap@]);
    run_suite_timed(backend, "codec", &names, &codec_plan_list(config))
}

} // verus!
