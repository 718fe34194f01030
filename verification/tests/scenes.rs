//! Workloads of subsystems on the simulated device.
use dhp::backend::driver::{heap_path, Driver, RealBackend, Request};
use dhp::backend::ioctl::{Errno, SEEK_CUR};
use dhp::backend::mock::MockBackend;
use dhp::backend::model::SimConfig;
use dhp::backend::protocol::{ContainerBackend, DmaBufBackend, HeapBackend, Reply};
use dhp::scenario::camera::{CameraConfig, CameraFormat, StreamConfig};
use dhp::scenario::codec::CodecConfig;
use dhp::scenario::display::DisplayConfig;
use dhp::scenario::gpu::GpuConfig;
use dhp::scenario::npu::NpuConfig;
use dhp::scenario::pipeline::{PipelineConfig, Scene};
use dhp::workload::held::BufferPool;
use dhp::workload::pools::{push_looked_at, push_written, run_stream};
use dhp::workload::scene::camera::{
    camera_capture, camera_multi_stream, camera_preview, camera_switch,
};
use dhp::workload::scene::codec::{codec_adaptive, codec_decode, codec_transcode};
use dhp::workload::scene::common::push_pool_bulk;
use dhp::workload::scene::display::{display_flip, display_multi_layer, display_rotation};
use dhp::workload::scene::gpu::{gpu_app_launch, gpu_app_switch, gpu_game_texture};
use dhp::workload::scene::npu::{
    npu_concurrent, npu_inference_loop, npu_model_load, npu_model_switch, npu_sustained,
};
use dhp::workload::scene::pipeline::run_scene;
use dhp::workload::scene::{camera, codec, display, gpu, npu, pipeline};
use dhp::workload::script::{allocate, open_heap, run_timed};

fn camera_config() -> CameraConfig {
    CameraConfig {
        width: 320,
        height: 240,
        format: CameraFormat::Nv12,
        pool_size: 4,
        fps: 30,
        frames: 20,
        burst_format: CameraFormat::Raw10,
        burst_count: 5,
        resolutions: vec![(320, 240), (640, 480), (320, 240)],
        streams: vec![
            StreamConfig {
                width: 320,
                height: 240,
                format: CameraFormat::Nv12,
                pool_size: 3,
                frames: 10,
            },
            StreamConfig {
                width: 160,
                height: 120,
                format: CameraFormat::Nv12,
                pool_size: 2,
                frames: 10,
            },
        ],
    }
}

fn codec_config() -> CodecConfig {
    CodecConfig {
        width: 320,
        height: 240,
        dpb_size: 4,
        fps: 30,
        frames: 20,
        resolutions: vec![(160, 120), (320, 240), (160, 120)],
    }
}

fn display_config() -> DisplayConfig {
    DisplayConfig {
        width: 320,
        height: 480,
        buffers: 3,
        fps: 60,
        frames: 20,
        rotation_cycles: 4,
        layers: 4,
    }
}

fn gpu_config() -> GpuConfig {
    GpuConfig {
        buffer_count: 10,
        switch_count: 3,
        texture_size: 4096,
        pool_size: 10,
        evict_pct: 30,
        evict_rounds: 3,
    }
}

fn npu_config() -> NpuConfig {
    NpuConfig {
        model_size: 4096 * 4,
        chunk_size: 4096,
        input_size: 4096,
        output_size: 4096,
        iterations: 20,
        clients: 2,
    }
}

fn pipeline_config() -> PipelineConfig {
    PipelineConfig { frames: 10, workloads: Vec::new() }
}

/// A driver on the simulated device that remembers which buffers were synchronised.
struct Recorder {
    inner: MockBackend,
    synced: Vec<i32>,
}

fn done(r: Result<(), Errno>) -> Reply {
    match r {
        Ok(()) => Reply::Done,
        Err(e) => Reply::Failed(e),
    }
}

fn fd(r: Result<i32, Errno>) -> Reply {
    match r {
        Ok(n) => Reply::Fd(n),
        Err(e) => Reply::Failed(e),
    }
}

impl Driver for Recorder {
    fn call(&mut self, request: Request) -> Reply {
        let b = &mut self.inner;
        match request {
            Request::Open { path } => {
                fd(HeapBackend::open(b, path.strip_prefix("/dev/dma_heap/").unwrap()))
            }
            Request::Allocate { heap, len, fd_flags, heap_flags } => {
                fd(HeapBackend::allocate(b, heap, len, fd_flags, heap_flags))
            }
            Request::Mmap { fd, len } => match DmaBufBackend::mmap(b, fd, len) {
                Ok(m) => Reply::Mapped(m),
                Err(e) => Reply::Failed(e),
            },
            Request::Munmap { mapping } => done(b.munmap(mapping)),
            Request::Fill { mapping, at, len, pattern } => done(b.fill(mapping, at, len, pattern)),
            Request::Sync { fd, flags } => {
                self.synced.push(fd);
                done(DmaBufBackend::sync(b, fd, flags))
            }
            Request::Close { fd } => {
                done(DmaBufBackend::close(b, fd).or_else(|_| HeapBackend::close_heap(b, fd)))
            }
            _ => Reply::Failed(Errno::ENOTTY),
        }
    }
}

#[test]
fn buffer_pool_round_robin() {
    let mut b = MockBackend::new();
    let heap = HeapBackend::open(&mut b, "system").unwrap();
    let mut pool = BufferPool::new(&mut b, heap, 4096, 3).unwrap();
    assert_eq!(pool.len(), 3);
    assert!(!pool.is_empty());

    let fd0 = pool.next().fd;
    let fd1 = pool.next().fd;
    let fd2 = pool.next().fd;
    let fd0_again = pool.next().fd;
    assert_eq!(fd0, fd0_again);
    assert_ne!(fd0, fd1);
    assert_ne!(fd1, fd2);
}

#[test]
fn a_stream_goes_through_its_pool() {
    let mut b =
        RealBackend::new(Recorder { inner: MockBackend::new(), synced: Vec::new() });
    let run = run_stream(&mut b, "system", 4096, 3, 4);
    run.result.unwrap();
    assert_eq!(run.marks.len(), 4);
    // Each frame starts and ends one synchronised write.
    let fds: Vec<i32> = b.driver.synced.iter().step_by(2).copied().collect();
    assert_eq!(fds.len(), 4);
    assert_eq!(fds[0], fds[3]);
    assert_ne!(fds[0], fds[1]);
    assert_ne!(fds[1], fds[2]);
    assert!(b.open.is_empty());
    assert_eq!(b.driver.inner.buffer_count(), 0);
}

/// A driver that gives the same reply to everything.
struct Constant(Reply);

impl Driver for Constant {
    fn call(&mut self, _: Request) -> Reply {
        self.0
    }
}

#[test]
fn descriptors_are_never_taken_twice() {
    let mut b = RealBackend::new(Constant(Reply::Fd(7)));
    assert_eq!(b.open("system"), Ok(7));
    assert_eq!(b.open("system"), Err(Errno::EIO));
    assert_eq!(b.allocate(7, 4096, 0, 0), Err(Errno::EIO));
    assert_eq!(b.close_heap(7), Err(Errno::EIO));
    assert_eq!(b.open_container_device(), Ok(7));
    assert_eq!(b.merge(7, &[1, 2]), Err(Errno::EIO));
}

#[test]
fn failures_of_a_driver_are_passed_on() {
    let mut b = RealBackend::new(Constant(Reply::Failed(Errno::ENOMEM)));
    assert_eq!(b.open("system"), Err(Errno::ENOMEM));
    assert_eq!(b.close(3), Err(Errno::ENOMEM));
    assert_eq!(b.sync(3, 1), Err(Errno::ENOMEM));
    assert_eq!(b.mmap(3, 0), Err(Errno::EINVAL));
    assert_eq!(b.llseek(3, 0, SEEK_CUR), Err(Errno::EINVAL));
    assert_eq!(heap_path("system"), "/dev/dma_heap/system");
}

#[test]
fn scenes_without_buffers() {
    let mut b = MockBackend::new();
    let c = DisplayConfig { buffers: 0, ..display_config() };
    display_rotation(&mut b, "system", &c).result.unwrap();
    let run = display_multi_layer(&mut b, "system", &c);
    run.result.unwrap();
    assert_eq!(run.marks.iter().filter(|m| m.channel == 0).count(), 4);
    display_flip(&mut b, "system", &DisplayConfig { frames: 0, ..c }).result.unwrap();
    let c = CameraConfig { pool_size: 0, ..camera_config() };
    camera_capture(&mut b, "system", &c).result.unwrap();
    camera_switch(&mut b, "system", &c).result.unwrap();
    let c = CodecConfig { dpb_size: 0, frames: 0, ..codec_config() };
    codec_transcode(&mut b, "system", &c).result.unwrap();
    assert_eq!(b.buffer_count(), 0);
}

#[test]
fn bulk_alloc_returns_latencies() {
    let mut b = MockBackend::new();
    let mut steps = vec![open_heap()];
    dhp::workload::pools::push_grouped(&mut steps, 1, 10, 4096, 0, 1);
    let run = run_timed(&mut b, &steps, "system", 11);
    run.result.unwrap();
    assert_eq!(run.marks.iter().filter(|m| m.channel == 0).count(), 10);
    assert_eq!(b.buffer_count(), 0);
}

#[test]
fn untimed_bulk_notes_nothing() {
    let mut b = MockBackend::new();
    let mut steps = vec![open_heap()];
    push_pool_bulk(&mut steps, 1, 10, 4096);
    let run = run_timed(&mut b, &steps, "system", 11);
    run.result.unwrap();
    assert!(run.marks.is_empty());
}

#[test]
fn fill_and_read_sync() {
    let mut b = MockBackend::new();
    let mut steps = vec![open_heap(), allocate(1, 4096)];
    push_written(&mut steps, 1, 4096, 0xAA);
    push_looked_at(&mut steps, 1);
    run_timed(&mut b, &steps, "system", 2).result.unwrap();
}

#[test]
fn buffer_pool_no_leak() {
    let mut b = MockBackend::new();
    let heap = HeapBackend::open(&mut b, "system").unwrap();
    let pool = BufferPool::new(&mut b, heap, 4096, 5).unwrap();
    assert_eq!(pool.len(), 5);
    assert_eq!(b.buffer_count(), 5);
    pool.release(&mut b);
    assert_eq!(b.buffer_count(), 0);
}

#[test]
fn an_empty_pool() {
    let mut b = MockBackend::new();
    let heap = HeapBackend::open(&mut b, "system").unwrap();
    let pool = BufferPool::new(&mut b, heap, 4096, 0).unwrap();
    assert!(pool.is_empty());
    pool.release(&mut b);
}

#[test]
fn a_pool_that_cannot_be_made() {
    let sim = SimConfig { enomem_threshold: Some(3), ..Default::default() };
    let mut b = MockBackend::with_sim(sim);
    let heap = HeapBackend::open(&mut b, "system").unwrap();
    assert!(matches!(BufferPool::new(&mut b, heap, 4096, 5), Err(Errno::ENOMEM)));
    assert_eq!(b.buffer_count(), 0);
    assert!(BufferPool::new(&mut b, heap, 4096, 3).is_ok());
}

#[test]
fn preview_runs() {
    let mut b = MockBackend::new();
    camera_preview(&mut b, "system", &camera_config()).result.unwrap();
}

#[test]
fn capture_runs() {
    let mut b = MockBackend::new();
    camera_capture(&mut b, "system", &camera_config()).result.unwrap();
}

#[test]
fn switch_runs() {
    let mut b = MockBackend::new();
    camera_switch(&mut b, "system", &camera_config()).result.unwrap();
}

#[test]
fn multi_stream_runs() {
    let mut b = MockBackend::new();
    camera_multi_stream(&mut b, "system", &camera_config()).0.unwrap();
}

#[test]
fn camera_run_passes() {
    let mut b = MockBackend::new();
    let (results, err, _) = camera::run(&mut b, "system", &camera_config());
    assert!(err.is_none());
    assert!(results.iter().all(|t| t.passed));
    assert_eq!(b.buffer_count(), 0);
}

#[test]
fn preview_no_leak() {
    let mut b = MockBackend::new();
    camera_preview(&mut b, "system", &camera_config()).result.unwrap();
    assert_eq!(b.buffer_count(), 0);
}

#[test]
fn capture_no_leak() {
    let mut b = MockBackend::new();
    camera_capture(&mut b, "system", &camera_config()).result.unwrap();
    assert_eq!(b.buffer_count(), 0);
}

#[test]
fn decode_runs() {
    let mut b = MockBackend::new();
    codec_decode(&mut b, "system", &codec_config()).result.unwrap();
}

#[test]
fn decode_no_leak() {
    let mut b = MockBackend::new();
    codec_decode(&mut b, "system", &codec_config()).result.unwrap();
    assert_eq!(b.buffer_count(), 0);
}

#[test]
fn adaptive_runs() {
    let mut b = MockBackend::new();
    codec_adaptive(&mut b, "system", &codec_config()).result.unwrap();
}

#[test]
fn adaptive_no_leak() {
    let mut b = MockBackend::new();
    codec_adaptive(&mut b, "system", &codec_config()).result.unwrap();
    assert_eq!(b.buffer_count(), 0);
}

#[test]
fn transcode_runs() {
    let mut b = MockBackend::new();
    codec_transcode(&mut b, "system", &codec_config()).result.unwrap();
}

#[test]
fn transcode_no_leak() {
    let mut b = MockBackend::new();
    codec_transcode(&mut b, "system", &codec_config()).result.unwrap();
    assert_eq!(b.buffer_count(), 0);
}

#[test]
fn codec_run_passes() {
    let mut b = MockBackend::new();
    let (results, err, _) = codec::run(&mut b, "system", &codec_config());
    assert!(err.is_none());
    assert!(results.iter().all(|t| t.passed));
    assert_eq!(b.buffer_count(), 0);
}

#[test]
fn flip_runs() {
    let mut b = MockBackend::new();
    display_flip(&mut b, "system", &display_config()).result.unwrap();
}

#[test]
fn flip_no_leak() {
    let mut b = MockBackend::new();
    display_flip(&mut b, "system", &display_config()).result.unwrap();
    assert_eq!(b.buffer_count(), 0);
}

#[test]
fn rotation_runs() {
    let mut b = MockBackend::new();
    display_rotation(&mut b, "system", &display_config()).result.unwrap();
}

#[test]
fn rotation_no_leak() {
    let mut b = MockBackend::new();
    display_rotation(&mut b, "system", &display_config()).result.unwrap();
    assert_eq!(b.buffer_count(), 0);
}

#[test]
fn multi_layer_runs() {
    let mut b = MockBackend::new();
    display_multi_layer(&mut b, "system", &display_config()).result.unwrap();
}

#[test]
fn multi_layer_no_leak() {
    let mut b = MockBackend::new();
    display_multi_layer(&mut b, "system", &display_config()).result.unwrap();
    assert_eq!(b.buffer_count(), 0);
}

#[test]
fn display_run_passes() {
    let mut b = MockBackend::new();
    let (results, err, _) = display::run(&mut b, "system", &display_config());
    assert!(err.is_none());
    assert!(results.iter().all(|t| t.passed));
    assert_eq!(b.buffer_count(), 0);
}

#[test]
fn app_launch_runs() {
    let mut b = MockBackend::new();
    gpu_app_launch(&mut b, "system", &gpu_config()).result.unwrap();
}

#[test]
fn app_launch_no_leak() {
    let mut b = MockBackend::new();
    gpu_app_launch(&mut b, "system", &gpu_config()).result.unwrap();
    assert_eq!(b.buffer_count(), 0);
}

#[test]
fn app_switch_runs() {
    let mut b = MockBackend::new();
    gpu_app_switch(&mut b, "system", &gpu_config()).result.unwrap();
}

#[test]
fn app_switch_no_leak() {
    let mut b = MockBackend::new();
    gpu_app_switch(&mut b, "system", &gpu_config()).result.unwrap();
    assert_eq!(b.buffer_count(), 0);
}

#[test]
fn game_texture_runs() {
    let mut b = MockBackend::new();
    gpu_game_texture(&mut b, "system", &gpu_config()).result.unwrap();
}

#[test]
fn game_texture_no_leak() {
    let mut b = MockBackend::new();
    gpu_game_texture(&mut b, "system", &gpu_config()).result.unwrap();
    assert_eq!(b.buffer_count(), 0);
}

#[test]
fn gpu_run_passes() {
    let mut b = MockBackend::new();
    let (results, err, _) = gpu::run(&mut b, "system", &gpu_config());
    assert!(err.is_none());
    assert!(results.iter().all(|t| t.passed));
    assert_eq!(b.buffer_count(), 0);
}

#[test]
fn model_load_runs() {
    let mut b = MockBackend::new();
    npu_model_load(&mut b, "system", &npu_config()).run.result.unwrap();
}

#[test]
fn model_load_no_leak() {
    let mut b = MockBackend::new();
    npu_model_load(&mut b, "system", &npu_config()).run.result.unwrap();
    assert_eq!(b.buffer_count(), 0);
}

#[test]
fn inference_loop_runs() {
    let mut b = MockBackend::new();
    npu_inference_loop(&mut b, "system", &npu_config()).result.unwrap();
}

#[test]
fn inference_loop_no_leak() {
    let mut b = MockBackend::new();
    npu_inference_loop(&mut b, "system", &npu_config()).result.unwrap();
    assert_eq!(b.buffer_count(), 0);
}

#[test]
fn model_switch_runs() {
    let mut b = MockBackend::new();
    npu_model_switch(&mut b, "system", &npu_config()).result.unwrap();
}

#[test]
fn model_switch_no_leak() {
    let mut b = MockBackend::new();
    npu_model_switch(&mut b, "system", &npu_config()).result.unwrap();
    assert_eq!(b.buffer_count(), 0);
}

#[test]
fn sustained_runs() {
    let mut b = MockBackend::new();
    npu_sustained(&mut b, "system", &npu_config()).result.unwrap();
}

#[test]
fn concurrent_runs() {
    let mut b = MockBackend::new();
    npu_concurrent(&mut b, "system", &npu_config()).0.unwrap();
}

#[test]
fn npu_run_passes() {
    let mut b = MockBackend::new();
    let (results, err, _) = npu::run(&mut b, "system", &npu_config());
    assert!(err.is_none());
    assert!(results.iter().all(|t| t.passed));
    assert_eq!(b.buffer_count(), 0);
}

#[test]
fn camera_preview_runs() {
    let mut b = MockBackend::new();
    run_scene(&mut b, "system", Scene::CameraPreview, &pipeline_config()).0.unwrap();
}

#[test]
fn video_call_runs() {
    let mut b = MockBackend::new();
    run_scene(&mut b, "system", Scene::VideoCall, &pipeline_config()).0.unwrap();
}

#[test]
fn ai_camera_runs() {
    let mut b = MockBackend::new();
    run_scene(&mut b, "system", Scene::AiCamera, &pipeline_config()).0.unwrap();
}

#[test]
fn heavy_runs() {
    let mut b = MockBackend::new();
    run_scene(&mut b, "system", Scene::Heavy, &pipeline_config()).0.unwrap();
}

#[test]
fn pipeline_run_passes() {
    let mut b = MockBackend::new();
    let (results, err, _) = pipeline::run(&mut b, "system", &pipeline_config());
    assert!(err.is_none());
    assert!(results.iter().all(|t| t.passed));
    assert_eq!(b.buffer_count(), 0);
}

#[test]
fn heavy_no_leak() {
    let mut b = MockBackend::new();
    run_scene(&mut b, "system", Scene::Heavy, &pipeline_config()).0.unwrap();
    assert_eq!(b.buffer_count(), 0);
}
