//! Sustained allocation and release: limits, counters, pools and reports.
pub mod limit;
pub mod latency;
pub mod state;
pub mod result;
pub mod summary;
pub mod trace;
pub mod pool;
pub mod fuzz;
pub mod fill;
