//! DMA heap information: what the kernel reports, its totals and its rendering.
pub mod aggregate;
pub mod collect;
pub mod follow;
pub mod format;
pub mod human;
pub mod memory;
pub mod parse;
pub mod report;
pub mod types;
pub mod zones;
