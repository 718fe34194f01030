//! Simulated device workloads and how they are configured.
pub mod camera;
pub mod codec;
pub mod display;
pub mod gpu;
pub mod npu;
pub mod pipeline;
