//! The commands and options of the program.
use vstd::prelude::*;

verus! {

/// What to run, and the options that every command takes.
#[derive(Debug)]
pub struct Cli {
    pub command: Command,
    /// The heaps to use; all of the system's where not given.
    pub heaps: Option<Vec<String>>,
    /// Whether to mark the trace.
    pub trace: bool,
    /// Whether to collect the heaps' statistics before and after.
    pub sysfs: bool,
    /// Whether to collect memory statistics before and after.
    pub procfs: bool,
    /// Where to write results.
    pub output: Option<String>,
    /// How much to tell: nothing, information, debugging, everything.
    pub verbose: u8,
    /// Where to log.
    pub log: Option<String>,
    /// How much to log.
    pub log_level: LogLevel,
}

/// A command with its options.
#[allow(inconsistent_fields)]
#[derive(Debug)]
pub enum Command {
    Basic { sizes: Vec<u64> },
    Perf {
        sizes: Option<Vec<u64>>,
        iterations: u32,
        warmup: u32,
        pool_bypass: bool,
        drain_count: Option<u32>,
    },
    Pressure { alloc_size: u64, max_allocs: Option<usize> },
    Negative,
    Aging {
        size: Option<String>,
        threads: u32,
        duration: Option<u64>,
        iterations: Option<u64>,
        report_interval: u64,
        fuzz: bool,
        max_hold: String,
        close_settle_us: u64,
        seed: Option<u64>,
    },
    Histogram {
        sizes: Vec<u64>,
        samples: u32,
        warmup: u32,
        mode: HistMode,
        buckets: usize,
        pool_bypass: bool,
        drain_count: Option<u32>,
    },
    Microbench {
        ops: Option<String>,
        sizes: Vec<u64>,
        iterations: u32,
        warmup: u32,
        cpu: Option<u32>,
        no_env_control: bool,
    },
    Container,
    All,
    Info { detail: bool, probe: bool, dump: bool, follow: bool, interval: u64 },
}

/// What a histogram measures.
#[derive(Debug, Clone, Copy, PartialEq, Eq, Structural)]
pub enum HistMode {
    /// The allocation alone.
    AllocOnly,
    /// Allocation, mapping, synchronised access and release.
    FullPipeline,
    /// The release alone.
    CloseOnly,
}

/// How much to log.
#[derive(Debug, Clone, Copy, PartialEq, Eq, Structural)]
pub enum LogLevel {
    Error,
    Warn,
    Info,
    Debug,
    Trace,
}

/// The name of a mode.
pub open spec fn mode_name(mode: HistMode) -> Seq<char> {
    match mode {
        HistMode::AllocOnly => "alloc-only"@,
        HistMode::FullPipeline => "full-pipeline"@,
        HistMode::CloseOnly => "close-only"@,
    }
}

impl HistMode {
    /// The name of the mode.
    pub fn as_str(self) -> (s: &'static str)
        ensures
            s@ == mode_name(self),
    {
        match self {
            HistMode::AllocOnly => "alloc-only",
            HistMode::FullPipeline => "full-pipeline",
            HistMode::CloseOnly => "close-only",
        }
    }
}

/// The name of a level.
pub open spec fn level_name(level: LogLevel) -> Seq<char> {
    match level {
        LogLevel::Error => "error"@,
        LogLevel::Warn => "warn"@,
        LogLevel::Info => "info"@,
        LogLevel::Debug => "debug"@,
        LogLevel::Trace => "trace"@,
    }
}

impl LogLevel {
    /// The name of the level.
    pub fn as_str(self) -> (s: &'static str)
        ensures
            s@ == level_name(self),
    {
        match self {
            LogLevel::Error => "error",
            LogLevel::Warn => "warn",
            LogLevel::Info => "info",
            LogLevel::Debug => "debug",
            LogLevel::Trace => "trace",
        }
    }
}

impl Default for LogLevel {
    fn default() -> (r: Self)
        ensures
            r == LogLevel::Trace,
    {
        LogLevel::Trace
    }
}

} // verus!
