//! Workloads as those of the parts of a device.
pub mod camera;
pub mod codec;
pub mod common;
pub mod counts;
pub mod display;
pub mod gpu;
pub mod npu;
pub mod pipeline;
