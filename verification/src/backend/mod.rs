//! Heap and buffer operations, and a simulation of them in memory.
pub mod delay;
pub mod ioctl;
pub mod laws;
pub mod mock;
pub mod model;
pub mod protocol;
pub mod simulated;
pub mod driver;
