//! Workloads of several subsystems at once.
use crate::backend::ioctl::Errno;
use crate::scenario::codec::{nv12, nv12_size};
use crate::text::same_string;
use vstd::prelude::*;

verus! {

/// The combined workloads' settings.
#[derive(Debug)]
pub struct PipelineConfig {
    pub frames: u32,
    /// Heaps for some of the roles; the others use the heap at hand.
    pub workloads: Vec<(String, String)>,
}

/// The heaps for some of the roles, as texts.
pub open spec fn roles(v: Seq<(String, String)>) -> Seq<(Seq<char>, Seq<char>)> {
    Seq::new(v.len(), |i: int| (v[i].0@, v[i].1@))
}

/// The combined workloads' settings, as values.
#[verifier::ext_equal]
pub ghost struct PipelinePlan {
    pub frames: u32,
    pub workloads: Seq<(Seq<char>, Seq<char>)>,
}

impl View for PipelineConfig {
    type V = PipelinePlan;

    open spec fn view(&self) -> PipelinePlan {
        PipelinePlan { frames: self.frames, workloads: roles(self.workloads@) }
    }
}

/// The settings where none are given.
pub open spec fn pipeline_defaults() -> PipelinePlan {
    PipelinePlan { frames: 30, workloads: Seq::empty() }
}

impl Default for PipelineConfig {
    fn default() -> (r: Self)
        ensures
            r@ == pipeline_defaults(),
    {
        let r = PipelineConfig { frames: 30, workloads: Vec::new() };
        assert(r@ =~= pipeline_defaults());
        r
    }
}

impl Clone for PipelineConfig {
    fn clone(&self) -> (r: Self)
        ensures
            r@ == self@,
    {
        let mut workloads: Vec<(String, String)> = Vec::new();
        let mut i: usize = 0;
        while i < self.workloads.len()
            invariant
                i <= self.workloads@.len(),
                roles(workloads@) == roles(self.workloads@).take(i as int),
            decreases self.workloads@.len() - i,
        {
            let ghost before = roles(workloads@);
            workloads.push(
                (self.workloads[i].0.as_str().to_owned(), self.workloads[i].1.as_str().to_owned()),
            );
            assert(roles(workloads@) =~= before.push(roles(self.workloads@)[i as int]));
            i = i + 1;
            assert(roles(workloads@) =~= roles(self.workloads@).take(i as int));
        }
        assert(roles(self.workloads@).take(self.workloads@.len() as int) =~= roles(
            self.workloads@,
        ));
        PipelineConfig { frames: self.frames, workloads }
    }
}

/// The heap of a role: the first that is given for it, or the one at hand.
pub open spec fn role_heap(
    workloads: Seq<(Seq<char>, Seq<char>)>,
    role: Seq<char>,
    default_heap: Seq<char>,
) -> Seq<char>
    decreases workloads.len(),
{
    if workloads.len() == 0 {
        default_heap
    } else if workloads[0].0 == role {
        workloads[0].1
    } else {
        role_heap(workloads.skip(1), role, default_heap)
    }
}

impl PipelineConfig {
    /// The heap of a role.
    pub fn heap_for_role<'a>(&'a self, role: &str, default_heap: &'a str) -> (r: &'a str)
        ensures
            r@ == role_heap(self@.workloads, role@, default_heap@),
    {
        let ghost all = roles(self.workloads@);
        let mut i: usize = 0;
        assert(all.skip(0) =~= all);
        while i < self.workloads.len()
            invariant
                i <= self.workloads@.len(),
                all == roles(self.workloads@),
                role_heap(all, role@, default_heap@) == role_heap(
                    all.skip(i as int),
                    role@,
                    default_heap@,
                ),
            decreases self.workloads@.len() - i,
        {
            assert(all.skip(i as int)[0] == all[i as int]);
            if same_string(self.workloads[i].0.as_str(), role) {
                return self.workloads[i].1.as_str();
            }
            assert(all.skip(i as int).skip(1) =~= all.skip(i + 1));
            i = i + 1;
        }
        default_heap
    }
}

/// The bytes of an ARGB8888 picture: four for each pixel.
pub fn argb_size(width: u32, height: u32) -> (r: u64)
    requires
        width * height * 4 <= u64::MAX,
    ensures
        r == width * height * 4,
{
    proof {
        assert(width * height <= 0xffff_ffff * 0xffff_ffff) by (nonlinear_arith)
            requires
                width <= 0xffff_ffff,
                height <= 0xffff_ffff,
        ;
    }
    width as u64 * height as u64 * 4
}

/// The combined workloads.
#[derive(Clone, Copy, PartialEq, Eq, Structural, Debug)]
pub enum Scene {
    CameraPreview,
    VideoCall,
    AiCamera,
    Heavy,
}

/// One subsystem of a combined workload: its role, the bytes of its buffers, and how
/// many it cycles through. With none, it allocates for each frame.
pub struct Part {
    pub role: &'static str,
    pub size: u64,
    pub pool: usize,
}

/// The name of a scene.
pub open spec fn scene_name(scene: Scene) -> Seq<char> {
    match scene {
        Scene::CameraPreview => "camera_preview"@,
        Scene::VideoCall => "video_call"@,
        Scene::AiCamera => "ai_camera"@,
        Scene::Heavy => "heavy"@,
    }
}

/// The parts, as values.
pub open spec fn part_values(v: Seq<Part>) -> Seq<(Seq<char>, nat, nat)> {
    Seq::new(v.len(), |i: int| (v[i].role@, v[i].size as nat, v[i].pool as nat))
}

/// The bytes of the input of an inference.
pub const INFERENCE_INPUT: u64 = 602_112;

/// The subsystems of a scene.
pub open spec fn scene_parts(scene: Scene) -> Seq<(Seq<char>, nat, nat)> {
    match scene {
        Scene::CameraPreview => seq![
            ("camera"@, nv12(1920, 1080), 4nat),
            ("display"@, 8_294_400nat, 3nat),
            ("gpu"@, 8_294_400nat, 2nat),
        ],
        Scene::VideoCall => seq![
            ("camera"@, nv12(1280, 720), 4nat),
            ("codec"@, nv12(1280, 720), 4nat),
            ("codec"@, nv12(1280, 720), 8nat),
            ("display"@, 3_686_400nat, 3nat),
        ],
        Scene::AiCamera => seq![
            ("camera"@, nv12(1920, 1080), 4nat),
            ("npu"@, INFERENCE_INPUT as nat, 0nat),
            ("display"@, 8_294_400nat, 3nat),
        ],
        Scene::Heavy => seq![
            ("camera"@, nv12(1920, 1080), 4nat),
            ("codec"@, nv12(1920, 1080), 8nat),
            ("gpu"@, 8_294_400nat, 3nat),
            ("npu"@, INFERENCE_INPUT as nat, 0nat),
            ("display"@, 8_294_400nat, 3nat),
        ],
    }
}

impl Scene {
    /// The name of a scene.
    pub fn name(self) -> (r: &'static str)
        ensures
            r@ == scene_name(self),
    {
        match self {
            Scene::CameraPreview => "camera_preview",
            Scene::VideoCall => "video_call",
            Scene::AiCamera => "ai_camera",
            Scene::Heavy => "heavy",
        }
    }

    /// The subsystems of a scene.
    pub fn parts(self) -> (r: Vec<Part>)
        ensures
            part_values(r@) == scene_parts(self),
    {
        let full: u64 = nv12_size(1920, 1080);
        let half: u64 = nv12_size(1280, 720);
        let screen: u64 = argb_size(1080, 1920);
        let small: u64 = argb_size(720, 1280);
        let v: Vec<Part> = match self {
            Scene::CameraPreview => vec![
                Part { role: "camera", size: full, pool: 4 },
                Part { role: "display", size: screen, pool: 3 },
                Part { role: "gpu", size: screen, pool: 2 },
            ],
            Scene::VideoCall => vec![
                Part { role: "camera", size: half, pool: 4 },
                Part { role: "codec", size: half, pool: 4 },
                Part { role: "codec", size: half, pool: 8 },
                Part { role: "display", size: small, pool: 3 },
            ],
            Scene::AiCamera => vec![
                Part { role: "camera", size: full, pool: 4 },
                Part { role: "npu", size: INFERENCE_INPUT, pool: 0 },
                Part { role: "display", size: screen, pool: 3 },
            ],
            Scene::Heavy => vec![
                Part { role: "camera", size: full, pool: 4 },
                Part { role: "codec", size: full, pool: 8 },
                Part { role: "gpu", size: screen, pool: 3 },
                Part { role: "npu", size: INFERENCE_INPUT, pool: 0 },
                Part { role: "display", size: screen, pool: 3 },
            ],
        };
        assert(part_values(v@) =~= scene_parts(self));
        v
    }
}

/// Whether the parts of a workload all succeeded; any failure is an input/output error.
pub fn check_failures(failures: usize) -> (r: Result<(), Errno>)
    ensures
        r == if failures > 0 {
            Err::<(), Errno>(Errno::EIO)
        } else {
            Ok(())
        },
{
    if failures > 0 {
        return Err(Errno::EIO);
    }
    Ok(())
}

} // verus!
