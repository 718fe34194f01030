//! Workloads on heaps and buffers: lists of steps, and how they are run.
pub mod clock;
pub mod step;
pub mod held;
pub mod keep;
pub mod run;
pub mod script;
pub mod basic;
pub mod negative;
pub mod sync_file;
pub mod edge;
pub mod suite;
pub mod container;
pub mod times;
pub mod measure;
pub mod fragmentation;
pub mod reuse;
pub mod stage;
pub mod pressure;
pub mod purpose;
pub mod sweep;
pub mod distribution;
pub mod perf;
pub mod pools;
pub mod scene;
pub mod worker;
pub mod fuzzing;
pub mod microbench;
pub mod benches;
pub mod soak;
