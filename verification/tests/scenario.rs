//! The sizes and settings of the scenarios.
use dhp::config::{resolve_camera, resolve_npu, resolve_pipeline};
use dhp::scenario::camera::{CameraConfig, CameraFormat};
use dhp::scenario::codec::nv12_size;
use dhp::scenario::display::framebuffer_size;
use dhp::scenario::npu::NpuConfig;
use dhp::scenario::pipeline::PipelineConfig;

#[test]
fn buffer_size_nv12() {
    assert_eq!(CameraFormat::Nv12.buffer_size(1920, 1080), 3_110_400);
}

#[test]
fn buffer_size_raw10() {
    assert_eq!(CameraFormat::Raw10.buffer_size(4000, 3000), 15_000_000);
}

#[test]
fn buffer_size_raw16() {
    assert_eq!(CameraFormat::Raw16.buffer_size(4000, 3000), 24_000_000);
}

#[test]
fn nv12_size_calc() {
    assert_eq!(nv12_size(1920, 1080), 1920 * 1080 * 3 / 2);
}

#[test]
fn framebuffer_size_calc() {
    assert_eq!(framebuffer_size(1440, 3200), 1440 * 3200 * 4);
}

#[test]
fn heap_for_role_default() {
    let cfg = PipelineConfig { frames: 10, workloads: vec![] };
    assert_eq!(cfg.heap_for_role("camera", "system"), "system");
}

#[test]
fn heap_for_role_override() {
    let cfg = PipelineConfig {
        frames: 10,
        workloads: vec![("camera".into(), "camera_heap".into())],
    };
    assert_eq!(cfg.heap_for_role("camera", "system"), "camera_heap");
    assert_eq!(cfg.heap_for_role("display", "system"), "system");
}

#[test]
fn resolve_npu_json_only() {
    let npu = NpuConfig { iterations: 50, clients: 2, ..Default::default() };
    let resolved = resolve_npu(Some(&npu), None, None);
    assert_eq!(resolved.iterations, 50);
    assert_eq!(resolved.clients, 2);
}

#[test]
fn resolve_npu_cli_override() {
    let npu = NpuConfig { iterations: 50, ..Default::default() };
    let resolved = resolve_npu(Some(&npu), Some(10), None);
    assert_eq!(resolved.iterations, 10);
    assert_eq!(resolved.clients, 4);
}

#[test]
fn resolve_npu_no_json() {
    let resolved = resolve_npu(None, Some(25), Some(8));
    assert_eq!(resolved.iterations, 25);
    assert_eq!(resolved.clients, 8);
}

#[test]
fn resolve_camera_cli_override() {
    let cam = CameraConfig::default();
    let resolved = resolve_camera(Some(&cam), Some(3840), None, Some(200));
    assert_eq!(resolved.width, 3840);
    assert_eq!(resolved.height, 1080);
    assert_eq!(resolved.frames, 200);
}

#[test]
fn resolve_pipeline_frames() {
    let resolved = resolve_pipeline(None, Some(60));
    assert_eq!(resolved.frames, 60);
    assert!(resolved.workloads.is_empty());
}
