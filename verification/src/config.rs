//! The workloads' settings: from a file, with single values given otherwise.
use crate::scenario::camera::{camera_defaults, CameraConfig, CameraPlan};
use crate::scenario::codec::{codec_defaults, CodecConfig, CodecPlan};
use crate::scenario::display::{display_defaults, DisplayConfig};
use crate::scenario::gpu::{gpu_defaults, GpuConfig};
use crate::scenario::npu::{npu_defaults, NpuConfig};
use crate::scenario::pipeline::{pipeline_defaults, PipelineConfig, PipelinePlan};
use vstd::prelude::*;

verus! {

/// The settings of a file, for those workloads that it names.
#[derive(Clone, Debug)]
pub struct ScenarioConfigs {
    pub npu: Option<NpuConfig>,
    pub camera: Option<CameraConfig>,
    pub display: Option<DisplayConfig>,
    pub codec: Option<CodecConfig>,
    pub gpu: Option<GpuConfig>,
    pub pipeline: Option<PipelineConfig>,
}

impl Default for ScenarioConfigs {
    fn default() -> (r: Self)
        ensures
            r.npu is None,
            r.camera is None,
            r.display is None,
            r.codec is None,
            r.gpu is None,
            r.pipeline is None,
    {
        ScenarioConfigs {
            npu: None,
            camera: None,
            display: None,
            codec: None,
            gpu: None,
            pipeline: None,
        }
    }
}

/// The settings of all workloads.
pub struct AllResolved {
    pub npu: NpuConfig,
    pub camera: CameraConfig,
    pub display: DisplayConfig,
    pub codec: CodecConfig,
    pub gpu: GpuConfig,
    pub pipeline: PipelineConfig,
}

/// A value where one is given, and the other where none is.
pub open spec fn given<T>(value: Option<T>, otherwise: T) -> T {
    match value {
        Some(v) => v,
        None => otherwise,
    }
}

/// The settings of the inference workload: those of the file or the usual ones, with
/// the given values in their place.
pub open spec fn npu_resolved(
    json: Option<NpuConfig>,
    iterations: Option<u32>,
    clients: Option<u32>,
) -> NpuConfig {
    let base = given(json, npu_defaults());
    NpuConfig {
        iterations: given(iterations, base.iterations),
        clients: given(clients, base.clients),
        ..base
    }
}

/// The settings of the camera workload.
pub open spec fn camera_resolved(
    json: Option<CameraPlan>,
    width: Option<u32>,
    height: Option<u32>,
    frames: Option<u32>,
) -> CameraPlan {
    let base = given(json, camera_defaults());
    CameraPlan {
        width: given(width, base.width),
        height: given(height, base.height),
        frames: given(frames, base.frames),
        ..base
    }
}

/// The settings of the display workload.
pub open spec fn display_resolved(
    json: Option<DisplayConfig>,
    width: Option<u32>,
    height: Option<u32>,
    frames: Option<u32>,
) -> DisplayConfig {
    let base = given(json, display_defaults());
    DisplayConfig {
        width: given(width, base.width),
        height: given(height, base.height),
        frames: given(frames, base.frames),
        ..base
    }
}

/// The settings of the video workload.
pub open spec fn codec_resolved(
    json: Option<CodecPlan>,
    width: Option<u32>,
    height: Option<u32>,
    frames: Option<u32>,
) -> CodecPlan {
    let base = given(json, codec_defaults());
    CodecPlan {
        width: given(width, base.width),
        height: given(height, base.height),
        frames: given(frames, base.frames),
        ..base
    }
}

/// The settings of the graphics workload.
pub open spec fn gpu_resolved(
    json: Option<GpuConfig>,
    buffer_count: Option<usize>,
    texture_size: Option<u64>,
) -> GpuConfig {
    let base = given(json, gpu_defaults());
    GpuConfig {
        buffer_count: given(buffer_count, base.buffer_count),
        texture_size: given(texture_size, base.texture_size),
        ..base
    }
}

/// The settings of the combined workloads.
pub open spec fn pipeline_resolved(json: Option<PipelinePlan>, frames: Option<u32>) -> PipelinePlan {
    let base = given(json, pipeline_defaults());
    PipelinePlan { frames: given(frames, base.frames), ..base }
}

/// The values behind a reference that may be there.
pub open spec fn behind<T>(o: Option<&T>) -> Option<T> {
    match o {
        Some(v) => Some(*v),
        None => None,
    }
}

/// The settings of the inference workload.
pub fn resolve_npu(
    json: Option<&NpuConfig>,
    iterations: Option<u32>,
    clients: Option<u32>,
) -> (r: NpuConfig)
    ensures
        r == npu_resolved(behind(json), iterations, clients),
{
    let mut cfg: NpuConfig = match json {
        Some(c) => *c,
        None => NpuConfig::default(),
    };
    if let Some(v) = iterations {
        cfg.iterations = v;
    }
    if let Some(v) = clients {
        cfg.clients = v;
    }
    cfg
}

/// The settings of the camera workload.
pub fn resolve_camera(
    json: Option<&CameraConfig>,
    width: Option<u32>,
    height: Option<u32>,
    frames: Option<u32>,
) -> (r: CameraConfig)
    ensures
        r@ == camera_resolved(
            match json {
                Some(c) => Some(c@),
                None => None,
            },
            width,
            height,
            frames,
        ),
{
    let mut cfg: CameraConfig = match json {
        Some(c) => c.clone(),
        None => CameraConfig::default(),
    };
    if let Some(v) = width {
        cfg.width = v;
    }
    if let Some(v) = height {
        cfg.height = v;
    }
    if let Some(v) = frames {
        cfg.frames = v;
    }
    cfg
}

/// The settings of the display workload.
pub fn resolve_display(
    json: Option<&DisplayConfig>,
    width: Option<u32>,
    height: Option<u32>,
    frames: Option<u32>,
) -> (r: DisplayConfig)
    ensures
        r == display_resolved(behind(json), width, height, frames),
{
    let mut cfg: DisplayConfig = match json {
        Some(c) => *c,
        None => DisplayConfig::default(),
    };
    if let Some(v) = width {
        cfg.width = v;
    }
    if let Some(v) = height {
        cfg.height = v;
    }
    if let Some(v) = frames {
        cfg.frames = v;
    }
    cfg
}

/// The settings of the video workload.
pub fn resolve_codec(
    json: Option<&CodecConfig>,
    width: Option<u32>,
    height: Option<u32>,
    frames: Option<u32>,
) -> (r: CodecConfig)
    ensures
        r@ == codec_resolved(
            match json {
                Some(c) => Some(c@),
                None => None,
            },
            width,
            height,
            frames,
        ),
{
    let mut cfg: CodecConfig = match json {
        Some(c) => c.clone(),
        None => CodecConfig::default(),
    };
    if let Some(v) = width {
        cfg.width = v;
    }
    if let Some(v) = height {
        cfg.height = v;
    }
    if let Some(v) = frames {
        cfg.frames = v;
    }
    cfg
}

/// The settings of the graphics workload.
pub fn resolve_gpu(
    json: Option<&GpuConfig>,
    buffer_count: Option<usize>,
    texture_size: Option<u64>,
) -> (r: GpuConfig)
    ensures
        r == gpu_resolved(behind(json), buffer_count, texture_size),
{
    let mut cfg: GpuConfig = match json {
        Some(c) => *c,
        None => GpuConfig::default(),
    };
    if let Some(v) = buffer_count {
        cfg.buffer_count = v;
    }
    if let Some(v) = texture_size {
        cfg.texture_size = v;
    }
    cfg
}

/// The settings of the combined workloads.
pub fn resolve_pipeline(json: Option<&PipelineConfig>, frames: Option<u32>) -> (r: PipelineConfig)
    ensures
        r@ == pipeline_resolved(
            match json {
                Some(c) => Some(c@),
                None => None,
            },
            frames,
        ),
{
    let mut cfg: PipelineConfig = match json {
        Some(c) => c.clone(),
        None => PipelineConfig::default(),
    };
    if let Some(v) = frames {
        cfg.frames = v;
    }
    cfg
}

/// The camera settings of a file.
pub open spec fn file_camera(json: Option<&ScenarioConfigs>) -> Option<CameraPlan> {
    match json {
        Some(c) => match c.camera {
            Some(v) => Some(v@),
            None => None,
        },
        None => None,
    }
}

/// The video settings of a file.
pub open spec fn file_codec(json: Option<&ScenarioConfigs>) -> Option<CodecPlan> {
    match json {
        Some(c) => match c.codec {
            Some(v) => Some(v@),
            None => None,
        },
        None => None,
    }
}

/// The settings of combined workloads of a file.
pub open spec fn file_pipeline(json: Option<&ScenarioConfigs>) -> Option<PipelinePlan> {
    match json {
        Some(c) => match c.pipeline {
            Some(v) => Some(v@),
            None => None,
        },
        None => None,
    }
}

/// The settings of all workloads, from the file alone.
pub fn resolve_all_defaults(json: Option<&ScenarioConfigs>) -> (r: AllResolved)
    ensures
        r.npu == npu_resolved(
            match json {
                Some(c) => c.npu,
                None => None,
            },
            None,
            None,
        ),
        r.camera@ == camera_resolved(file_camera(json), None, None, None),
        r.display == display_resolved(
            match json {
                Some(c) => c.display,
                None => None,
            },
            None,
            None,
            None,
        ),
        r.codec@ == codec_resolved(file_codec(json), None, None, None),
        r.gpu == gpu_resolved(
            match json {
                Some(c) => c.gpu,
                None => None,
            },
            None,
            None,
        ),
        r.pipeline@ == pipeline_resolved(file_pipeline(json), None),
{
    match json {
        Some(c) => AllResolved {
            npu: resolve_npu(c.npu.as_ref(), None, None),
            camera: resolve_camera(c.camera.as_ref(), None, None, None),
            display: resolve_display(c.display.as_ref(), None, None, None),
            codec: resolve_codec(c.codec.as_ref(), None, None, None),
            gpu: resolve_gpu(c.gpu.as_ref(), None, None),
            pipeline: resolve_pipeline(c.pipeline.as_ref(), None),
        },
        None => AllResolved {
            npu: resolve_npu(None, None, None),
            camera: resolve_camera(None, None, None, None),
            display: resolve_display(None, None, None, None),
            codec: resolve_codec(None, None, None, None),
            gpu: resolve_gpu(None, None, None),
            pipeline: resolve_pipeline(None, None),
        },
    }
}

/// The settings that a file holds where it holds all the usual ones.
pub fn default_configs() -> (r: ScenarioConfigs)
    ensures
        r.npu == Some(npu_defaults()),
        r.camera matches Some(c) && c@ == camera_defaults(),
        r.display == Some(display_defaults()),
        r.codec matches Some(c) && c@ == codec_defaults(),
        r.gpu == Some(gpu_defaults()),
        r.pipeline matches Some(c) && c@ == pipeline_defaults(),
{
    ScenarioConfigs {
        npu: Some(NpuConfig::default()),
        camera: Some(CameraConfig::default()),
        display: Some(DisplayConfig::default()),
        codec: Some(CodecConfig::default()),
        gpu: Some(GpuConfig::default()),
        pipeline: Some(PipelineConfig::default()),
    }
}

/// A file of the usual settings says the same as no file.
pub proof fn law_defaults_are_neutral(
    a: Option<u32>,
    b: Option<u32>,
    c: Option<u32>,
    n: Option<usize>,
    s: Option<u64>,
)
    ensures
        npu_resolved(Some(npu_defaults()), a, b) == npu_resolved(None, a, b),
        camera_resolved(Some(camera_defaults()), a, b, c) == camera_resolved(None, a, b, c),
        display_resolved(Some(display_defaults()), a, b, c) == display_resolved(None, a, b, c),
        codec_resolved(Some(codec_defaults()), a, b, c) == codec_resolved(None, a, b, c),
        gpu_resolved(Some(gpu_defaults()), n, s) == gpu_resolved(None, n, s),
        pipeline_resolved(Some(pipeline_defaults()), a) == pipeline_resolved(None, a),
{
}

/// What was resolved once stays as it is: with the same values given again, or none.
pub proof fn law_resolving_twice(
    npu: Option<NpuConfig>,
    camera: Option<CameraPlan>,
    pipeline: Option<PipelinePlan>,
    a: Option<u32>,
    b: Option<u32>,
    c: Option<u32>,
)
    ensures
        npu_resolved(Some(npu_resolved(npu, a, b)), a, b) == npu_resolved(npu, a, b),
        npu_resolved(Some(npu_resolved(npu, a, b)), None, None) == npu_resolved(npu, a, b),
        camera_resolved(Some(camera_resolved(camera, a, b, c)), a, b, c) == camera_resolved(
            camera,
            a,
            b,
            c,
        ),
        camera_resolved(Some(camera_resolved(camera, a, b, c)), None, None, None)
            == camera_resolved(camera, a, b, c),
        pipeline_resolved(Some(pipeline_resolved(pipeline, a)), a) == pipeline_resolved(
            pipeline,
            a,
        ),
        pipeline_resolved(Some(pipeline_resolved(pipeline, a)), None) == pipeline_resolved(
            pipeline,
            a,
        ),
{
}

/// What is asked for on the command line counts before what a file says, and that before the
/// defaults; what is not asked for stays as it is.
pub proof fn law_command_line_first(json: CameraPlan, npu: NpuConfig, w: u32, h: u32, f: u32)
    ensures
        camera_resolved(Some(json), Some(w), Some(h), Some(f)) == (CameraPlan {
            width: w,
            height: h,
            frames: f,
            ..json
        }),
        camera_resolved(Some(json), None, None, None) == json,
        camera_resolved(None, None, None, None) == camera_defaults(),
        npu_resolved(Some(npu), Some(f), None).iterations == f,
        npu_resolved(Some(npu), Some(f), None).clients == npu.clients,
        npu_resolved(Some(npu), None, Some(f)).clients == f,
        npu_resolved(Some(npu), None, Some(f)).iterations == npu.iterations,
        npu_resolved(Some(npu), None, None) == npu,
        npu_resolved(None, None, None) == npu_defaults(),
{
}

} // verus!
