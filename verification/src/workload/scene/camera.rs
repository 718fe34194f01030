//! Taking pictures.
use crate::backend::protocol::{Answers, ContainerBackend, DmaBufBackend, HeapBackend};
use crate::bench::pressure::SubTestResult;
use crate::scenario::camera::{image_size, multiplier, CameraConfig, CameraPlan};
use crate::backend::ioctl::Errno;
use crate::bench::pressure::outcomes;
use crate::workload::pools::{grouped, pooled, push_grouped, push_pooled};
use crate::workload::run::Run;
use crate::workload::scene::common::{
    any_failed, framed, job_plans, jobs_ran, jobs_result, push_framed, run_jobs, switched,
    switched_steps, Job, JobPlan,
};
use crate::workload::script::{
    open_heap, push_releases, releases, run_timed, timed_on,
};
use crate::workload::step::{must, Op, Step};
use crate::workload::suite::{
    all_told, collect_test_results, first_failure, maybe_text, results_of, tested,
};
use vstd::prelude::*;

verus! {

/// Whether the pictures' sizes fit machine integers, and a stream that writes pictures
/// has buffers for them.
pub open spec fn camera_fits(c: CameraPlan) -> bool {
    &&& c.width * c.height * multiplier(c.format) <= u64::MAX
    &&& c.pool_size < usize::MAX
    &&& c.burst_count < usize::MAX
    &&& 2 * c.resolutions.len() <= usize::MAX
    &&& forall|i: int|
        0 <= i < c.resolutions.len() ==> (#[trigger] c.resolutions[i]).0 * c.resolutions[i].1
            * multiplier(c.format) <= u64::MAX
    &&& forall|i: int|
        0 <= i < c.streams.len() ==> (#[trigger] c.streams[i]).width * c.streams[i].height
            * multiplier(c.streams[i].format) <= u64::MAX && c.streams[i].pool_size < usize::MAX
            && (c.streams[i].pool_size > 0 || c.streams[i].frames == 0)
}

/// Whether there is a buffer for the preview pictures.
pub open spec fn camera_shows(c: CameraPlan) -> bool {
    c.pool_size > 0 || c.frames == 0
}

/// Preview pictures are written to a pool.
pub open spec fn previewed(c: CameraPlan) -> Seq<Step> {
    let size = image_size(c.format, c.width as nat, c.height as nat) as u64;
    seq![open_heap()] + pooled(1, c.pool_size as nat, size) + framed(
        1,
        c.pool_size as nat,
        size,
        false,
        0,
        c.frames as nat,
    )
}

fn previewed_steps(config: &CameraConfig) -> (v: Vec<Step>)
    requires
        camera_fits(config@),
        camera_shows(config@),
    ensures
        v@ == previewed(config@),
{
    let size: u64 = config.format.buffer_size(config.width, config.height);
    let mut v: Vec<Step> = vec![open_heap()];
    push_pooled(&mut v, 1, config.pool_size, size);
    push_framed(&mut v, 1, config.pool_size, size, false, 0, config.frames);
    v
}

/// A burst: the allocations are timed on channel 0 and together on channel 1, the
/// release of all on channel 2.
pub open spec fn captured(c: CameraPlan) -> Seq<Step> {
    let size = image_size(c.burst_format, 4000, 3000) as u64;
    seq![open_heap()] + grouped(1, c.burst_count as nat, size, 0, 1) + seq![must(Op::Start)]
        + releases(1, c.burst_count as nat) + seq![must(Op::Total { channel: 2 })]
}

fn captured_steps(config: &CameraConfig) -> (v: Vec<Step>)
    requires
        camera_fits(config@),
    ensures
        v@ == captured(config@),
{
    let size: u64 = config.burst_format.buffer_size(4000, 3000);
    let mut v: Vec<Step> = vec![open_heap()];
    push_grouped(&mut v, 1, config.burst_count as usize, size, 0, 1);
    let ghost before = v@;
    v.push(must(Op::Start));
    assert(v@ =~= before + seq![must(Op::Start)]);
    push_releases(&mut v, 1, config.burst_count as usize);
    let ghost later = v@;
    v.push(must(Op::Total { channel: 2 }));
    assert(v@ =~= later + seq![must(Op::Total { channel: 2 })]);
    v
}

/// The bytes of a picture at each resolution.
pub open spec fn image_sizes(c: CameraPlan) -> Seq<u64> {
    Seq::new(
        c.resolutions.len(),
        |i: int|
            image_size(c.format, c.resolutions[i].0 as nat, c.resolutions[i].1 as nat) as u64,
    )
}

/// The changes of resolution.
pub open spec fn resized(c: CameraPlan) -> Seq<Step> {
    switched(image_sizes(c), c.pool_size as nat, c.resolutions.len())
}

fn resized_steps(config: &CameraConfig) -> (v: Vec<Step>)
    requires
        camera_fits(config@),
    ensures
        v@ == resized(config@),
{
    let mut sizes: Vec<u64> = Vec::new();
    let mut i: usize = 0;
    while i < config.resolutions.len()
        invariant
            i <= config.resolutions@.len(),
            camera_fits(config@),
            sizes@ == image_sizes(config@).take(i as int),
        decreases config.resolutions@.len() - i,
    {
        let (w, h) = config.resolutions[i];
        assert(config@.resolutions[i as int] == (w, h));
        sizes.push(config.format.buffer_size(w, h));
        i = i + 1;
        assert(sizes@ =~= image_sizes(config@).take(i as int));
    }
    assert(sizes@ =~= image_sizes(config@));
    switched_steps(sizes.as_slice(), config.pool_size)
}

/// The streams.
pub open spec fn stream_jobs(c: CameraPlan, heap: Seq<char>) -> Seq<JobPlan> {
    Seq::new(
        c.streams.len(),
        |i: int|
            JobPlan {
                heap,
                size: image_size(
                    c.streams[i].format,
                    c.streams[i].width as nat,
                    c.streams[i].height as nat,
                ) as u64,
                pool: c.streams[i].pool_size as nat,
                frames: c.streams[i].frames as nat,
            },
    )
}

/// The streams, each to be run by itself.
pub fn stream_list<'a>(config: &CameraConfig, heap: &'a str) -> (v: Vec<Job<'a>>)
    requires
        camera_fits(config@),
    ensures
        job_plans(v@) == stream_jobs(config@, heap@),
        forall|i: int| 0 <= i < v@.len() ==> (#[trigger] v@[i]).pool < usize::MAX,
{
    let mut v: Vec<Job<'a>> = Vec::new();
    let mut i: usize = 0;
    while i < config.streams.len()
        invariant
            i <= config.streams@.len(),
            camera_fits(config@),
            v@.len() == i,
            forall|k: int| 0 <= k < i ==> (#[trigger] v@[k]).pool < usize::MAX,
            forall|k: int| 0 <= k < i ==> (#[trigger] v@[k])@ == stream_jobs(config@, heap@)[k],
        decreases config.streams@.len() - i,
    {
        let s = config.streams[i];
        assert(config@.streams[i as int] == s);
        let size: u64 = s.format.buffer_size(s.width, s.height);
        v.push(Job { heap, size, pool: s.pool_size, frames: s.frames });
        assert(v@[i as int]@ =~= stream_jobs(config@, heap@)[i as int]);
        i = i + 1;
    }
    assert(job_plans(v@) =~= stream_jobs(config@, heap@));
    v
}

/// Writes preview pictures.
pub fn camera_preview<B: HeapBackend + DmaBufBackend + ContainerBackend>(
    backend: &mut B,
    heap: &str,
    config: &CameraConfig,
) -> (r: Run)
    requires
        old(backend).valid(),
        camera_fits(config@),
        camera_shows(config@),
    ensures
        final(backend).valid(),
        timed_on(
            *old(backend),
            previewed(config@),
            heap@,
            config.pool_size as nat + 1,
            r,
            *final(backend),
        ),
        final(backend).opened() == old(backend).opened(),
{
    let steps = previewed_steps(config);
    run_timed(backend, steps.as_slice(), heap, config.pool_size + 1)
}

/// Takes a burst.
pub fn camera_capture<B: HeapBackend + DmaBufBackend + ContainerBackend>(
    backend: &mut B,
    heap: &str,
    config: &CameraConfig,
) -> (r: Run)
    requires
        old(backend).valid(),
        camera_fits(config@),
    ensures
        final(backend).valid(),
        timed_on(
            *old(backend),
            captured(config@),
            heap@,
            config.burst_count as nat + 1,
            r,
            *final(backend),
        ),
        final(backend).opened() == old(backend).opened(),
{
    let steps = captured_steps(config);
    run_timed(backend, steps.as_slice(), heap, config.burst_count as usize + 1)
}

/// Changes the resolution.
pub fn camera_switch<B: HeapBackend + DmaBufBackend + ContainerBackend>(
    backend: &mut B,
    heap: &str,
    config: &CameraConfig,
) -> (r: Run)
    requires
        old(backend).valid(),
        camera_fits(config@),
    ensures
        final(backend).valid(),
        timed_on(
            *old(backend),
            resized(config@),
            heap@,
            config.pool_size as nat + 1,
            r,
            *final(backend),
        ),
        final(backend).opened() == old(backend).opened(),
{
    let steps = resized_steps(config);
    run_timed(backend, steps.as_slice(), heap, config.pool_size + 1)
}

/// Runs several streams. Here they take their turns.
pub fn camera_multi_stream<B: HeapBackend + DmaBufBackend + ContainerBackend>(
    backend: &mut B,
    heap: &str,
    config: &CameraConfig,
) -> (r: (Result<(), Errno>, Vec<Run>))
    requires
        old(backend).valid(),
        camera_fits(config@),
    ensures
        final(backend).valid(),
        jobs_ran(*old(backend), stream_jobs(config@, heap@), r.1@, *final(backend)),
        r.0 == if any_failed(r.1@) {
            Err::<(), Errno>(Errno::EIO)
        } else {
            Ok(())
        },
        final(backend).opened() == old(backend).opened(),
{
    let jobs = stream_list(config, heap);
    let runs = run_jobs(backend, jobs.as_slice());
    (jobs_result(&runs), runs)
}

/// The tests of the camera, with their results.
pub open spec fn camera_tests(
    preview: Result<(), Errno>,
    capture: Result<(), Errno>,
    switch: Result<(), Errno>,
    streams: Result<(), Errno>,
) -> Seq<(&'static str, Result<(), Errno>, bool)> {
    seq![
        ("preview", preview, false),
        ("capture", capture, false),
        ("switch", switch, false),
        ("multi_stream", streams, false),
    ]
}

/// What came of the camera's workloads.
pub struct CameraRuns {
    pub preview: Run,
    pub capture: Run,
    pub switch: Run,
    pub streams: Vec<Run>,
}

/// Whether all workloads of the camera, one after the other, lead from one backend to
/// another.
pub open spec fn camera_ran<B: Answers>(
    a: B,
    heap: Seq<char>,
    c: CameraPlan,
    r: CameraRuns,
    b: B,
) -> bool {
    exists|m1: B, m2: B, m3: B|
        #![trigger timed_on(a, previewed(c), heap, (c.pool_size + 1) as nat, r.preview, m1), timed_on(m1, captured(c), heap, (c.burst_count + 1) as nat, r.capture, m2), timed_on(m2, resized(c), heap, (c.pool_size + 1) as nat, r.switch, m3)]
        {
            &&& timed_on(a, previewed(c), heap, (c.pool_size + 1) as nat, r.preview, m1)
            &&& timed_on(m1, captured(c), heap, (c.burst_count + 1) as nat, r.capture, m2)
            &&& timed_on(m2, resized(c), heap, (c.pool_size + 1) as nat, r.switch, m3)
            &&& jobs_ran(m3, stream_jobs(c, heap), r.streams@, b)
        }
}

/// The results of the camera's workloads.
pub open spec fn camera_results(r: CameraRuns) -> Seq<(&'static str, Result<(), Errno>, bool)> {
    camera_tests(
        r.preview.result,
        r.capture.result,
        r.switch.result,
        if any_failed(r.streams@) {
            Err::<(), Errno>(Errno::EIO)
        } else {
            Ok(())
        },
    )
}

impl CameraRuns {
    /// Tells of each workload, and of the first that failed.
    pub fn tell(&self) -> (r: (Vec<SubTestResult>, Option<String>))
        ensures
            outcomes(r.0@) == all_told(
                tested(camera_results(*self)),
                results_of(camera_results(*self)),
            ),
            maybe_text(r.1) == first_failure(
                "camera"@,
                tested(camera_results(*self)),
                results_of(camera_results(*self)),
            ),
    {
        let tests: [(&'static str, Result<(), Errno>, bool); 4] = [
            ("preview", self.preview.result, false),
            ("capture", self.capture.result, false),
            ("switch", self.switch.result, false),
            ("multi_stream", jobs_result(&self.streams), false),
        ];
        assert(tests@ =~= camera_results(*self));
        collect_test_results("camera", &tests)
    }
}

/// Runs all workloads of the camera.
pub fn run<B: HeapBackend + DmaBufBackend + ContainerBackend>(
    backend: &mut B,
    heap: &str,
    config: &CameraConfig,
) -> (r: (Vec<SubTestResult>, Option<String>, CameraRuns))
    requires
        old(backend).valid(),
        camera_fits(config@),
        camera_shows(config@),
    ensures
        final(backend).valid(),
        final(backend).opened() == old(backend).opened(),
        camera_ran(*old(backend), heap@, config@, r.2, *final(backend)),
        outcomes(r.0@) == all_told(
            tested(camera_results(r.2)),
            results_of(camera_results(r.2)),
        ),
        maybe_text(r.1) == first_failure(
            "camera"@,
            tested(camera_results(r.2)),
            results_of(camera_results(r.2)),
        ),
{
    let ghost a = *backend;
    let preview = camera_preview(backend, heap, config);
    let ghost m1 = *backend;
    let capture = camera_capture(backend, heap, config);
    let ghost m2 = *backend;
    let switch = camera_switch(backend, heap, config);
    let ghost m3 = *backend;
    let (_, streams) = camera_multi_stream(backend, heap, config);
    let runs = CameraRuns { preview, capture, switch, streams };
    proof {
        let c = config@;
        assert(timed_on(a, previewed(c), heap@, (c.pool_size + 1) as nat, runs.preview, m1));
        assert(timed_on(m1, captured(c), heap@, (c.burst_count + 1) as nat, runs.capture, m2));
        assert(timed_on(m2, resized(c), heap@, (c.pool_size + 1) as nat, runs.switch, m3));
        assert(camera_ran(a, heap@, c, runs, *backend));
    }
    let (told_of, first) = runs.tell();
    (told_of, first, runs)
}

} // verus!
