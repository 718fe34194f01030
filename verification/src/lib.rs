//! Probing of DMA heaps: an in-memory device, the system's reports about its
//! memory, the workloads that exercise a heap and the texts that tell of them.
pub mod aging;
pub mod backend;
pub mod bench;
pub mod bench_env;
pub mod cli;
pub mod config;
pub mod decimals;
pub mod double;
pub mod exact;
pub mod histogram;
pub mod info;
pub mod number;
pub mod order;
pub mod procfs;
pub mod procfs_text;
pub mod random;
pub mod scenario;
pub mod size;
pub mod sort;
pub mod stats;
pub mod text;
pub mod workload;
