//! Several parts of a device at once.
use crate::backend::protocol::{Answers, ContainerBackend, DmaBufBackend, HeapBackend};
use crate::bench::pressure::SubTestResult;
use crate::backend::ioctl::Errno;
use crate::bench::pressure::outcomes;
use crate::scenario::pipeline::{
    part_values, role_heap, scene_parts, PipelineConfig, PipelinePlan, Scene,
};
use crate::workload::run::Run;
use crate::workload::scene::common::{
    any_failed, job_plans, jobs_ran, jobs_result, run_jobs, Job, JobPlan,
};
use crate::workload::suite::{
    all_told, collect_test_results, first_failure, maybe_text, results_of, tested,
};
use vstd::prelude::*;

verus! {

/// The parts of a scene at work, each on the heap of its role.
pub open spec fn scene_jobs(scene: Scene, c: PipelinePlan, heap: Seq<char>) -> Seq<JobPlan> {
    let parts = scene_parts(scene);
    Seq::new(
        parts.len(),
        |i: int|
            JobPlan {
                heap: role_heap(c.workloads, parts[i].0, heap),
                size: parts[i].1 as u64,
                pool: parts[i].2,
                frames: c.frames as nat,
            },
    )
}

/// The parts of a scene, each to be run by itself.
pub fn scene_list<'a>(scene: Scene, config: &'a PipelineConfig, heap: &'a str) -> (v: Vec<
    Job<'a>,
>)
    ensures
        job_plans(v@) == scene_jobs(scene, config@, heap@),
        forall|i: int| 0 <= i < v@.len() ==> (#[trigger] v@[i]).pool <= 8,
{
    let parts = scene.parts();
    let ghost all = scene_jobs(scene, config@, heap@);
    let mut v: Vec<Job<'a>> = Vec::new();
    let mut i: usize = 0;
    while i < parts.len()
        invariant
            i <= parts@.len(),
            part_values(parts@) == scene_parts(scene),
            all == scene_jobs(scene, config@, heap@),
            v@.len() == i,
            forall|k: int| 0 <= k < i ==> (#[trigger] v@[k]).pool <= 8,
            forall|k: int| 0 <= k < i ==> (#[trigger] v@[k])@ == all[k],
        decreases parts@.len() - i,
    {
        let p = &parts[i];
        assert(part_values(parts@)[i as int] == (p.role@, p.size as nat, p.pool as nat));
        assert(p.pool <= 8) by {
            assert(scene_parts(scene)[i as int].2 <= 8);
        }
        let own = config.heap_for_role(p.role, heap);
        v.push(Job { heap: own, size: p.size, pool: p.pool, frames: config.frames });
        assert(v@[i as int]@ =~= all[i as int]);
        i = i + 1;
    }
    assert(job_plans(v@) =~= all);
    v
}

/// Runs a scene. Here its parts take their turns.
pub fn run_scene<B: HeapBackend + DmaBufBackend + ContainerBackend>(
    backend: &mut B,
    heap: &str,
    scene: Scene,
    config: &PipelineConfig,
) -> (r: (Result<(), Errno>, Vec<Run>))
    requires
        old(backend).valid(),
    ensures
        final(backend).valid(),
        jobs_ran(*old(backend), scene_jobs(scene, config@, heap@), r.1@, *final(backend)),
        r.0 == if any_failed(r.1@) {
            Err::<(), Errno>(Errno::EIO)
        } else {
            Ok(())
        },
        final(backend).opened() == old(backend).opened(),
{
    let jobs = scene_list(scene, config, heap);
    let runs = run_jobs(backend, jobs.as_slice());
    (jobs_result(&runs), runs)
}

/// What came of all scenes.
pub struct SceneRuns {
    pub preview: Vec<Run>,
    pub call: Vec<Run>,
    pub ai: Vec<Run>,
    pub heavy: Vec<Run>,
}

/// The result of several at once.
pub open spec fn together(runs: Seq<Run>) -> Result<(), Errno> {
    if any_failed(runs) {
        Err::<(), Errno>(Errno::EIO)
    } else {
        Ok(())
    }
}

/// The results of all scenes.
pub open spec fn scene_results(r: SceneRuns) -> Seq<(&'static str, Result<(), Errno>, bool)> {
    seq![
        ("camera_preview", together(r.preview@), false),
        ("video_call", together(r.call@), false),
        ("ai_camera", together(r.ai@), false),
        ("heavy", together(r.heavy@), false),
    ]
}

/// Whether all scenes, one after the other, lead from one backend to another.
pub open spec fn scenes_ran<B: Answers>(
    a: B,
    heap: Seq<char>,
    c: PipelinePlan,
    r: SceneRuns,
    b: B,
) -> bool {
    exists|m1: B, m2: B, m3: B|
        #![trigger jobs_ran(a, scene_jobs(Scene::CameraPreview, c, heap), r.preview@, m1), jobs_ran(m1, scene_jobs(Scene::VideoCall, c, heap), r.call@, m2), jobs_ran(m2, scene_jobs(Scene::AiCamera, c, heap), r.ai@, m3)]
        {
            &&& jobs_ran(a, scene_jobs(Scene::CameraPreview, c, heap), r.preview@, m1)
            &&& jobs_ran(m1, scene_jobs(Scene::VideoCall, c, heap), r.call@, m2)
            &&& jobs_ran(m2, scene_jobs(Scene::AiCamera, c, heap), r.ai@, m3)
            &&& jobs_ran(m3, scene_jobs(Scene::Heavy, c, heap), r.heavy@, b)
        }
}

impl SceneRuns {
    /// Tells of each scene, and of the first that failed.
    pub fn tell(&self) -> (r: (Vec<SubTestResult>, Option<String>))
        ensures
            outcomes(r.0@) == all_told(
                tested(scene_results(*self)),
                results_of(scene_results(*self)),
            ),
            maybe_text(r.1) == first_failure(
                "pipeline scenario"@,
                tested(scene_results(*self)),
                results_of(scene_results(*self)),
            ),
    {
        let tests: [(&'static str, Result<(), Errno>, bool); 4] = [
            ("camera_preview", jobs_result(&self.preview), false),
            ("video_call", jobs_result(&self.call), false),
            ("ai_camera", jobs_result(&self.ai), false),
            ("heavy", jobs_result(&self.heavy), false),
        ];
        assert(tests@ =~= scene_results(*self));
        collect_test_results("pipeline scenario", &tests)
    }
}

/// Runs all scenes.
pub fn run<B: HeapBackend + DmaBufBackend + ContainerBackend>(
    backend: &mut B,
    heap: &str,
    config: &PipelineConfig,
) -> (r: (Vec<SubTestResult>, Option<String>, SceneRuns))
    requires
        old(backend).valid(),
    ensures
        final(backend).valid(),
        final(backend).opened() == old(backend).opened(),
        scenes_ran(*old(backend), heap@, config@, r.2, *final(backend)),
        outcomes(r.0@) == all_told(
            tested(scene_results(r.2)),
            results_of(scene_results(r.2)),
        ),
        maybe_text(r.1) == first_failure(
            "pipeline scenario"@,
            tested(scene_results(r.2)),
            results_of(scene_results(r.2)),
        ),
{
    let ghost a = *backend;
    let (_, preview) = run_scene(backend, heap, Scene::CameraPreview, config);
    let ghost m1 = *backend;
    let (_, call) = run_scene(backend, heap, Scene::VideoCall, config);
    let ghost m2 = *backend;
    let (_, ai) = run_scene(backend, heap, Scene::AiCamera, config);
    let ghost m3 = *backend;
    let (_, heavy) = run_scene(backend, heap, Scene::Heavy, config);
    let runs = SceneRuns { preview, call, ai, heavy };
    proof {
        let c = config@;
        assert(jobs_ran(a, scene_jobs(Scene::CameraPreview, c, heap@), runs.preview@, m1));
        assert(jobs_ran(m1, scene_jobs(Scene::VideoCall, c, heap@), runs.call@, m2));
        assert(jobs_ran(m2, scene_jobs(Scene::AiCamera, c, heap@), runs.ai@, m3));
        assert(scenes_ran(a, heap@, c, runs, *backend));
    }
    let (told_of, first) = runs.tell();
    (told_of, first, runs)
}

} // verus!
