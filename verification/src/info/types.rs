//! The data of an information report.
use vstd::prelude::*;

verus! {

/// A heap device under the heap directory.
#[derive(Debug, Clone)]
pub struct HeapEntry {
    pub name: String,
    pub path: String,
    pub accessible: bool,
    pub permissions: Option<String>,
}

/// One buffer of the kernel's buffer list.
#[derive(Debug, Clone)]
pub struct DebugfsBufEntry {
    pub size: u64,
    pub flags: u32,
    pub mode: u32,
    pub count: i64,
    pub exp_name: String,
    pub ino: u64,
    pub name: String,
    pub attached_devices: Vec<String>,
}

/// The contents of a `DebugfsBufEntry`.
#[verifier::ext_equal]
pub ghost struct BufRecord {
    pub size: nat,
    pub flags: nat,
    pub mode: nat,
    pub count: int,
    pub exp_name: Seq<char>,
    pub ino: nat,
    pub name: Seq<char>,
    pub devices: Seq<Seq<char>>,
}

/// The texts of a sequence of strings.
pub open spec fn strings(v: Seq<String>) -> Seq<Seq<char>> {
    Seq::new(v.len(), |i: int| v[i]@)
}

impl View for DebugfsBufEntry {
    type V = BufRecord;

    open spec fn view(&self) -> BufRecord {
        BufRecord {
            size: self.size as nat,
            flags: self.flags as nat,
            mode: self.mode as nat,
            count: self.count as int,
            exp_name: self.exp_name@,
            ino: self.ino as nat,
            name: self.name@,
            devices: strings(self.attached_devices@),
        }
    }
}

/// One buffer of the sysfs buffer directory.
#[derive(Debug, Clone)]
pub struct DmaBufInfo {
    pub ino: u64,
    pub size: u64,
    pub exporter_name: String,
}

/// One buffer that a process holds open.
#[derive(Debug, Clone)]
pub struct ProcessBufEntry {
    pub pid: u32,
    pub comm: String,
    pub fd: u32,
    pub size: u64,
    pub count: i64,
    pub exp_name: String,
    pub name: Option<String>,
}

/// The buffers of one exporter, in total.
#[derive(Debug, Clone)]
pub struct BufferSummary {
    pub exporter_name: String,
    pub count: usize,
    pub total_size_bytes: u64,
    pub total_refcount: i64,
}

/// The contents of a `BufferSummary`.
#[verifier::ext_equal]
pub ghost struct ExporterTotals {
    pub name: Seq<char>,
    pub count: nat,
    pub size: nat,
    pub refs: int,
}

impl View for BufferSummary {
    type V = ExporterTotals;

    open spec fn view(&self) -> ExporterTotals {
        ExporterTotals {
            name: self.exporter_name@,
            count: self.count as nat,
            size: self.total_size_bytes as nat,
            refs: self.total_refcount as int,
        }
    }
}

/// The buffers of one process, in total.
#[derive(Debug, Clone)]
pub struct ProcessSummary {
    pub pid: u32,
    pub comm: String,
    pub fd_count: usize,
    pub total_size_bytes: u64,
}

/// The contents of a `ProcessSummary`.
#[verifier::ext_equal]
pub ghost struct ProcessTotals {
    pub pid: nat,
    pub comm: Seq<char>,
    pub fds: nat,
    pub size: nat,
}

impl View for ProcessSummary {
    type V = ProcessTotals;

    open spec fn view(&self) -> ProcessTotals {
        ProcessTotals {
            pid: self.pid as nat,
            comm: self.comm@,
            fds: self.fd_count as nat,
            size: self.total_size_bytes as nat,
        }
    }
}

/// Values of `/proc/meminfo`, in kB.
#[derive(Debug, Clone, Copy)]
pub struct MemInfo {
    pub mem_total_kb: u64,
    pub mem_free_kb: u64,
    pub mem_available_kb: u64,
    pub cma_total_kb: Option<u64>,
    pub cma_free_kb: Option<u64>,
    pub buffers_kb: Option<u64>,
    pub cached_kb: Option<u64>,
    pub active_kb: Option<u64>,
    pub inactive_kb: Option<u64>,
    pub shmem_kb: Option<u64>,
    pub slab_kb: Option<u64>,
    pub s_reclaimable_kb: Option<u64>,
    pub s_unreclaim_kb: Option<u64>,
    pub swap_total_kb: Option<u64>,
    pub swap_free_kb: Option<u64>,
    pub dirty_kb: Option<u64>,
    pub writeback_kb: Option<u64>,
    pub anon_pages_kb: Option<u64>,
    pub mapped_kb: Option<u64>,
    pub zswap_kb: Option<u64>,
    pub zswapped_kb: Option<u64>,
}

/// Counters of `/proc/vmstat`.
#[derive(Debug, Clone, Copy)]
pub struct VmStat {
    pub compact_stall: Option<u64>,
    pub compact_success: Option<u64>,
    pub compact_fail: Option<u64>,
    pub compact_isolated: Option<u64>,
    pub compactmigrate_scanned: Option<u64>,
    pub compactfree_scanned: Option<u64>,
    pub kcompactd_wake: Option<u64>,
    pub pgalloc_normal: Option<u64>,
    pub pgfree: Option<u64>,
    pub pgscan_direct: Option<u64>,
    pub pgsteal_direct: Option<u64>,
    pub allocstall_normal: Option<u64>,
    pub allocstall_movable: Option<u64>,
    pub pgscan_kswapd: Option<u64>,
    pub pgsteal_kswapd: Option<u64>,
    pub pgmigrate_success: Option<u64>,
    pub pgmigrate_fail: Option<u64>,
    pub cma_alloc_success: Option<u64>,
    pub cma_alloc_fail: Option<u64>,
    pub nr_free_cma: Option<u64>,
    pub oom_kill: Option<u64>,
}

/// Counters of which none was reported.
pub open spec fn no_counters() -> VmStat {
    VmStat {
        compact_stall: None,
        compact_success: None,
        compact_fail: None,
        compact_isolated: None,
        compactmigrate_scanned: None,
        compactfree_scanned: None,
        kcompactd_wake: None,
        pgalloc_normal: None,
        pgfree: None,
        pgscan_direct: None,
        pgsteal_direct: None,
        allocstall_normal: None,
        allocstall_movable: None,
        pgscan_kswapd: None,
        pgsteal_kswapd: None,
        pgmigrate_success: None,
        pgmigrate_fail: None,
        cma_alloc_success: None,
        cma_alloc_fail: None,
        nr_free_cma: None,
        oom_kill: None,
    }
}

impl Default for VmStat {
    fn default() -> (r: Self)
        ensures
            r == no_counters(),
    {
        VmStat {
            compact_stall: None,
            compact_success: None,
            compact_fail: None,
            compact_isolated: None,
            compactmigrate_scanned: None,
            compactfree_scanned: None,
            kcompactd_wake: None,
            pgalloc_normal: None,
            pgfree: None,
            pgscan_direct: None,
            pgsteal_direct: None,
            allocstall_normal: None,
            allocstall_movable: None,
            pgscan_kswapd: None,
            pgsteal_kswapd: None,
            pgmigrate_success: None,
            pgmigrate_fail: None,
            cma_alloc_success: None,
            cma_alloc_fail: None,
            nr_free_cma: None,
            oom_kill: None,
        }
    }
}

/// The state of memory at one moment.
#[derive(Debug, Clone, Copy)]
pub struct MemoryContext {
    pub meminfo: MemInfo,
    pub vmstat: VmStat,
}

/// Joins the two sources of memory figures.
pub fn build_memory_context(meminfo: &MemInfo, vmstat: &VmStat) -> (r: MemoryContext)
    ensures
        r.meminfo == *meminfo,
        r.vmstat == *vmstat,
{
    MemoryContext { meminfo: *meminfo, vmstat: *vmstat }
}

/// The memory state of a report: none without `/proc/meminfo`; counters that
/// could not be read count as not reported.
pub fn memory_context(meminfo: Option<MemInfo>, vmstat: Option<VmStat>) -> (r: Option<MemoryContext>)
    ensures
        r is Some <==> meminfo is Some,
        r matches Some(m) ==> m.meminfo == meminfo->0 && m.vmstat == match vmstat {
            Some(v) => v,
            None => no_counters(),
        },
{
    match (meminfo, vmstat) {
        (Some(m), Some(v)) => Some(build_memory_context(&m, &v)),
        (Some(m), None) => Some(build_memory_context(&m, &VmStat::default())),
        (None, _) => None,
    }
}

/// Settings under `/proc/sys/vm`.
#[derive(Debug, Clone, Copy)]
pub struct VmParams {
    pub min_free_kbytes: Option<u64>,
    pub watermark_scale_factor: Option<u64>,
    pub compact_unevictable_allowed: Option<u64>,
    pub swappiness: Option<u64>,
}

/// One memory zone of `/proc/zoneinfo`.
#[derive(Debug, Clone)]
pub struct ZoneEntry {
    pub node: u32,
    pub zone: String,
    pub free_pages: u64,
    pub min_watermark: u64,
    pub low_watermark: u64,
    pub high_watermark: u64,
    pub protection: Vec<u64>,
}

/// The contents of a `ZoneEntry`.
#[verifier::ext_equal]
pub ghost struct ZoneRecord {
    pub node: nat,
    pub zone: Seq<char>,
    pub free: nat,
    pub min: nat,
    pub low: nat,
    pub high: nat,
    pub protection: Seq<nat>,
}

/// A sequence of machine integers as mathematical ones.
pub open spec fn nats(v: Seq<u64>) -> Seq<nat> {
    Seq::new(v.len(), |i: int| v[i] as nat)
}

impl View for ZoneEntry {
    type V = ZoneRecord;

    open spec fn view(&self) -> ZoneRecord {
        ZoneRecord {
            node: self.node as nat,
            zone: self.zone@,
            free: self.free_pages as nat,
            min: self.min_watermark as nat,
            low: self.low_watermark as nat,
            high: self.high_watermark as nat,
            protection: nats(self.protection@),
        }
    }
}

/// Free blocks per order of one zone, from `/proc/buddyinfo`.
#[derive(Debug, Clone)]
pub struct BuddyInfoEntry {
    pub node: u32,
    pub zone: String,
    pub free_counts: Vec<u64>,
}

/// Free blocks per order of one zone and migrate type, from `/proc/pagetypeinfo`.
#[derive(Debug, Clone)]
pub struct PageTypeInfoEntry {
    pub node: u32,
    pub zone: String,
    pub page_type: String,
    pub free_counts: Vec<u64>,
}

/// What a heap and its buffers can do.
#[derive(Debug, Clone)]
pub struct HeapCaps {
    pub name: String,
    pub can_alloc: bool,
    pub can_mmap: bool,
    pub can_sync: bool,
    pub can_write: bool,
    pub can_llseek: bool,
    pub can_sync_file: bool,
    pub can_dup: bool,
    pub alloc_granularity: u64,
}

/// Page counters of one CMA area.
#[derive(Debug, Clone)]
pub struct CmaAreaStats {
    pub name: String,
    pub alloc_pages_success: u64,
    pub alloc_pages_fail: u64,
    pub release_pages_success: u64,
}

/// One line of a pressure file. The averages are in hundredths of a percent, the
/// precision in which the kernel prints them; the total is in microseconds.
#[derive(Debug, Clone, Copy)]
pub struct PsiLine {
    pub avg10: u64,
    pub avg60: u64,
    pub avg300: u64,
    pub total: u64,
}

/// Memory pressure.
#[derive(Debug, Clone, Copy)]
pub struct PsiMemory {
    pub some: PsiLine,
    pub full: PsiLine,
}

/// I/O pressure.
#[derive(Debug, Clone, Copy)]
pub struct PsiIo {
    pub some: PsiLine,
    pub full: PsiLine,
}

/// All that the information command shows.
#[derive(Debug, Clone)]
pub struct InfoReport {
    pub heaps: Vec<HeapEntry>,
    pub buffer_summary: Vec<BufferSummary>,
    pub total_buffers: usize,
    pub total_buffer_size_bytes: u64,
    pub buffers: Option<Vec<DebugfsBufEntry>>,
    pub process_usage: Option<Vec<ProcessBufEntry>>,
    pub memory: Option<MemoryContext>,
    pub vm_params: Option<VmParams>,
    pub zones: Option<Vec<ZoneEntry>>,
    pub buddyinfo: Option<Vec<BuddyInfoEntry>>,
    pub pagetypeinfo: Option<Vec<PageTypeInfoEntry>>,
    pub heap_caps: Option<Vec<HeapCaps>>,
    pub cma_areas: Option<Vec<CmaAreaStats>>,
    /// Size of the heaps' page pool in kB, where the kernel reports it.
    pub dma_heap_pool_kb: Option<u64>,
    pub psi_memory: Option<PsiMemory>,
    pub psi_io: Option<PsiIo>,
}

} // verus!
