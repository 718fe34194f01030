//! The information report: parsing, totals and text.
use dhp::info::aggregate::{aggregate_debugfs, aggregate_process_usage, aggregate_sysfs};
use dhp::info::format::{format_size, pct};
use dhp::info::human::format_human;
use dhp::info::parse::{parse_debugfs_bufinfo, parse_fdinfo_for_dmabuf, parse_zoneinfo};
use dhp::info::types::{
    BuddyInfoEntry, BufferSummary, DebugfsBufEntry, DmaBufInfo, HeapEntry, InfoReport, MemInfo,
    MemoryContext, PageTypeInfoEntry, ProcessBufEntry, PsiLine, PsiMemory, VmStat,
};
use dhp::info::zones::{format_cma_migrate_summary, format_frag_summary};

const DEBUGFS_BUFINFO_FIXTURE: &str = "\
Dma-buf Objects:
size\tflags\tmode\tcount\texp_name\tino\tname
65536\t00008002\t00080007\t2\tsystem\t1234\tcamera_preview
\tmali0\t1
\tdisplay0\t1
\tTotal 2 devices attached
4096\t00008002\t00080007\t1\tsystem\t1235\tnpu_input
\tnpu0\t1
\tTotal 1 devices attached
1048576\t00008002\t00080007\t3\treserved\t1236\t<none>
\tmali0\t1
\tTotal 1 devices attached

Total 3 objects, 1118208 bytes
";

const ZONEINFO_FIXTURE: &str = "\
Node 0, zone      DMA
  pages free     3968
        boost    0
        min      4
        low      8
        high     12
        spanned  4095
        present  3998
        managed  3968
        cma      0
        protection: (0, 1944, 1944, 1944, 1944)
Node 0, zone    Normal
  pages free     497664
        boost    0
        min      4636
        low      10044
        high     15452
        spanned  524288
        present  524288
        managed  498324
        cma      32768
        protection: (0, 0, 0, 0, 0)
";

#[test]
fn info_format_size_bytes() {
    assert_eq!(format_size(0), "0 B");
    assert_eq!(format_size(512), "512 B");
    assert_eq!(format_size(1023), "1023 B");
}

#[test]
fn info_format_size_kib() {
    assert_eq!(format_size(1024), "1.0 KiB");
    assert_eq!(format_size(1536), "1.5 KiB");
}

#[test]
fn info_format_size_mib() {
    assert_eq!(format_size(1024 * 1024), "1.0 MiB");
    assert_eq!(format_size(4 * 1024 * 1024), "4.0 MiB");
}

#[test]
fn info_format_size_gib() {
    assert_eq!(format_size(1024 * 1024 * 1024), "1.0 GiB");
}

#[test]
fn info_pct_normal() {
    assert_eq!(pct(50, 100), "50.0%");
    assert_eq!(pct(1, 3), "33.3%");
}

#[test]
fn info_pct_zero_total() {
    assert_eq!(pct(0, 0), "N/A");
}

#[test]
fn info_parse_fdinfo_dmabuf() {
    let content = "\
pos:	0
flags:	02000002
mnt_id:	13
ino:	1234
exp_name:	system
size:	65536
count:	2
buf_name:	camera_preview
";
    let result = parse_fdinfo_for_dmabuf(content);
    assert!(result.is_some());
    let (size, count, exp, name) = result.unwrap();
    assert_eq!(size, 65536);
    assert_eq!(count, 2);
    assert_eq!(exp, "system");
    assert_eq!(name, Some("camera_preview".to_string()));
}

#[test]
fn info_parse_fdinfo_non_dmabuf() {
    let content = "\
pos:	0
flags:	02000002
mnt_id:	13
";
    assert!(parse_fdinfo_for_dmabuf(content).is_none());
}

#[test]
fn info_format_human_empty_report() {
    let report = InfoReport {
        heaps: Vec::new(),
        buffer_summary: Vec::new(),
        total_buffers: 0,
        total_buffer_size_bytes: 0,
        buffers: None,
        process_usage: None,
        memory: None,
        vm_params: None,
        zones: None,
        buddyinfo: None,
        pagetypeinfo: None,
        heap_caps: None,
        cma_areas: None,
        dma_heap_pool_kb: None,
        psi_memory: None,
        psi_io: None,
    };
    let output = format_human(&report);
    assert!(output.contains("[DMA Heaps]"));
    assert!(output.contains("not available"));
    assert!(output.contains("[DMA Buffers]"));
    assert!(output.contains("[Memory]"));
}

#[test]
fn info_format_human_with_heaps_and_memory() {
    let report = InfoReport {
        heaps: vec![HeapEntry {
            name: "system".into(),
            path: "/dev/dma_heap/system".into(),
            accessible: true,
            permissions: Some("crw-rw----".into()),
        }],
        buffer_summary: vec![BufferSummary {
            exporter_name: "system".into(),
            count: 5,
            total_size_bytes: 5 * 4096,
            total_refcount: 10,
        }],
        total_buffers: 5,
        total_buffer_size_bytes: 5 * 4096,
        buffers: None,
        process_usage: None,
        memory: Some(MemoryContext {
            meminfo: MemInfo {
                mem_total_kb: 8_052_444,
                mem_free_kb: 3_145_728,
                mem_available_kb: 5_242_880,
                cma_total_kb: Some(262_144),
                cma_free_kb: Some(131_072),
                buffers_kb: Some(123_456),
                cached_kb: Some(1_234_567),
                active_kb: Some(3_355_443),
                inactive_kb: Some(1_572_864),
                shmem_kb: Some(65_536),
                slab_kb: Some(262_144),
                s_reclaimable_kb: None,
                s_unreclaim_kb: None,
                swap_total_kb: None,
                swap_free_kb: None,
                dirty_kb: None,
                writeback_kb: None,
                anon_pages_kb: None,
                mapped_kb: None,
                zswap_kb: None,
                zswapped_kb: None,
            },
            vmstat: VmStat {
                compact_stall: Some(42),
                compact_success: Some(30),
                compact_fail: Some(12),
                cma_alloc_success: Some(100),
                cma_alloc_fail: Some(2),
                nr_free_cma: Some(32_768),
                ..VmStat::default()
            },
        }),
        vm_params: None,
        zones: None,
        buddyinfo: None,
        pagetypeinfo: None,
        heap_caps: None,
        cma_areas: None,
        dma_heap_pool_kb: None,
        psi_memory: None,
        psi_io: None,
    };
    let output = format_human(&report);
    assert!(output.contains("system"));
    assert!(output.contains("accessible"));
    assert!(output.contains("EXPORTER"));
    assert!(output.contains("TOTAL"));
    assert!(output.contains("CMA Total"));
    assert!(output.contains("Compaction"));
}

#[test]
fn info_format_human_with_detail() {
    let report = InfoReport {
        heaps: Vec::new(),
        buffer_summary: Vec::new(),
        total_buffers: 1,
        total_buffer_size_bytes: 4096,
        buffers: Some(vec![DebugfsBufEntry {
            size: 4096,
            flags: 0x0000_8002,
            mode: 0x0008_0007,
            count: 2,
            exp_name: "system".into(),
            ino: 1234,
            name: "test_buf".into(),
            attached_devices: vec!["mali0".into()],
        }]),
        process_usage: Some(Vec::new()),
        memory: None,
        vm_params: None,
        zones: None,
        buddyinfo: None,
        pagetypeinfo: None,
        heap_caps: None,
        cma_areas: None,
        dma_heap_pool_kb: None,
        psi_memory: None,
        psi_io: None,
    };
    let output = format_human(&report);
    assert!(output.contains("[Buffer Details]"));
    assert!(output.contains("test_buf"));
    assert!(output.contains("mali0"));
    assert!(output.contains("[Per-Process Usage]"));
}

#[test]
fn collect_parse_fdinfo_dmabuf() {
    let content = "\
pos:	0
flags:	02000002
mnt_id:	13
ino:	1234
exp_name:	system
size:	65536
count:	2
buf_name:	camera_preview
";
    let result = parse_fdinfo_for_dmabuf(content);
    assert!(result.is_some());
    let (size, count, exp, name) = result.unwrap();
    assert_eq!(size, 65536);
    assert_eq!(count, 2);
    assert_eq!(exp, "system");
    assert_eq!(name, Some("camera_preview".to_string()));
}

#[test]
fn collect_parse_fdinfo_non_dmabuf() {
    let content = "\
pos:	0
flags:	02000002
mnt_id:	13
";
    assert!(parse_fdinfo_for_dmabuf(content).is_none());
}

#[test]
fn format_format_size_bytes() {
    assert_eq!(format_size(0), "0 B");
    assert_eq!(format_size(512), "512 B");
    assert_eq!(format_size(1023), "1023 B");
}

#[test]
fn format_format_size_kib() {
    assert_eq!(format_size(1024), "1.0 KiB");
    assert_eq!(format_size(1536), "1.5 KiB");
}

#[test]
fn format_format_size_mib() {
    assert_eq!(format_size(1024 * 1024), "1.0 MiB");
    assert_eq!(format_size(4 * 1024 * 1024), "4.0 MiB");
}

#[test]
fn format_format_size_gib() {
    assert_eq!(format_size(1024 * 1024 * 1024), "1.0 GiB");
}

#[test]
fn format_pct_normal() {
    assert_eq!(pct(50, 100), "50.0%");
    assert_eq!(pct(1, 3), "33.3%");
}

#[test]
fn format_pct_zero_total() {
    assert_eq!(pct(0, 0), "N/A");
}

#[test]
fn format_format_human_empty_report() {
    let report = InfoReport {
        heaps: Vec::new(),
        buffer_summary: Vec::new(),
        total_buffers: 0,
        total_buffer_size_bytes: 0,
        buffers: None,
        process_usage: None,
        memory: None,
        vm_params: None,
        zones: None,
        buddyinfo: None,
        pagetypeinfo: None,
        heap_caps: None,
        cma_areas: None,
        dma_heap_pool_kb: None,
        psi_memory: None,
        psi_io: None,
    };
    let output = format_human(&report);
    assert!(output.contains("[DMA Heaps]"));
    assert!(output.contains("not available"));
    assert!(output.contains("[DMA Buffers]"));
    assert!(output.contains("[Memory]"));
}

#[test]
fn format_format_human_with_heaps_and_memory() {
    let report = InfoReport {
        heaps: vec![HeapEntry {
            name: "system".into(),
            path: "/dev/dma_heap/system".into(),
            accessible: true,
            permissions: Some("crw-rw----".into()),
        }],
        buffer_summary: vec![BufferSummary {
            exporter_name: "system".into(),
            count: 5,
            total_size_bytes: 5 * 4096,
            total_refcount: 10,
        }],
        total_buffers: 5,
        total_buffer_size_bytes: 5 * 4096,
        buffers: None,
        process_usage: None,
        memory: Some(MemoryContext {
            meminfo: MemInfo {
                mem_total_kb: 8_052_444,
                mem_free_kb: 3_145_728,
                mem_available_kb: 5_242_880,
                cma_total_kb: Some(262_144),
                cma_free_kb: Some(131_072),
                buffers_kb: Some(123_456),
                cached_kb: Some(1_234_567),
                active_kb: Some(3_355_443),
                inactive_kb: Some(1_572_864),
                shmem_kb: Some(65_536),
                slab_kb: Some(262_144),
                s_reclaimable_kb: Some(196_608),
                s_unreclaim_kb: Some(65_536),
                swap_total_kb: Some(2_097_152),
                swap_free_kb: Some(1_835_008),
                dirty_kb: Some(12_288),
                writeback_kb: Some(256),
                anon_pages_kb: Some(2_097_152),
                mapped_kb: Some(524_288),
                zswap_kb: Some(16_384),
                zswapped_kb: Some(65_536),
            },
            vmstat: VmStat {
                compact_stall: Some(42),
                compact_success: Some(30),
                compact_fail: Some(12),
                compact_isolated: Some(500),
                compactmigrate_scanned: Some(8000),
                compactfree_scanned: Some(12_000),
                kcompactd_wake: Some(15),
                pgalloc_normal: Some(123_456),
                pgfree: Some(234_567),
                pgscan_direct: Some(3000),
                pgsteal_direct: Some(2800),
                allocstall_normal: Some(5),
                allocstall_movable: Some(2),
                pgscan_kswapd: Some(50_000),
                pgsteal_kswapd: Some(48_000),
                pgmigrate_success: Some(7500),
                pgmigrate_fail: Some(300),
                cma_alloc_success: Some(100),
                cma_alloc_fail: Some(2),
                nr_free_cma: Some(32_768),
                oom_kill: Some(0),
            },
        }),
        vm_params: None,
        zones: None,
        buddyinfo: None,
        pagetypeinfo: None,
        heap_caps: None,
        cma_areas: None,
        dma_heap_pool_kb: None,
        psi_memory: Some(PsiMemory {
            some: PsiLine {
                avg10: 123,
                avg60: 456,
                avg300: 789,
                total: 123_456,
            },
            full: PsiLine {
                avg10: 10,
                avg60: 20,
                avg300: 30,
                total: 7890,
            },
        }),
        psi_io: None,
    };
    let output = format_human(&report);
    assert!(output.contains("system"));
    assert!(output.contains("accessible"));
    assert!(output.contains("EXPORTER"));
    assert!(output.contains("TOTAL"));
    assert!(output.contains("CMA Total"));
    assert!(output.contains("Compaction"));
    assert!(output.contains("Swap Total"));
    assert!(output.contains("AnonPages"));
    assert!(output.contains("SReclaimable"));
    assert!(output.contains("Reclaim"));
    assert!(output.contains("direct"));
    assert!(output.contains("kswapd"));
    assert!(output.contains("Migration"));
    assert!(output.contains("[Pressure]"));
    assert!(output.contains("mem some"));
    assert!(output.contains("avg10="));
    assert!(output.contains("1.23%"));
    assert!(output.contains("isolated:"));
    assert!(output.contains("migrate_scan:"));
    assert!(output.contains("Zswap Pool"));
    assert!(output.contains("Zswapped"));
    assert!(output.contains("4.0x ratio"));
}

#[test]
fn format_format_human_with_detail() {
    let report = InfoReport {
        heaps: Vec::new(),
        buffer_summary: Vec::new(),
        total_buffers: 1,
        total_buffer_size_bytes: 4096,
        buffers: Some(vec![DebugfsBufEntry {
            size: 4096,
            flags: 0x0000_8002,
            mode: 0x0008_0007,
            count: 2,
            exp_name: "system".into(),
            ino: 1234,
            name: "test_buf".into(),
            attached_devices: vec!["mali0".into()],
        }]),
        process_usage: Some(Vec::new()),
        memory: None,
        vm_params: None,
        zones: None,
        buddyinfo: None,
        pagetypeinfo: None,
        heap_caps: None,
        cma_areas: None,
        dma_heap_pool_kb: None,
        psi_memory: None,
        psi_io: None,
    };
    let output = format_human(&report);
    assert!(output.contains("[Buffer Details]"));
    assert!(output.contains("test_buf"));
    assert!(output.contains("mali0"));
    assert!(output.contains("[Per-Process Usage]"));
}

#[test]
fn format_frag_summary_basic() {
    let buddy = vec![BuddyInfoEntry {
        node: 0,
        zone: "Normal".into(),
        free_counts: vec![512, 320, 189, 100, 52, 28, 15, 7, 3, 1, 98],
    }];
    let mut out = String::new();
    format_frag_summary(&mut out, &buddy);

    assert!(out.contains("Summary"));
    assert!(out.contains("TOTAL FREE"));
    assert!(out.contains("MAX BLOCK"));
    assert!(out.contains("BLK>=64K"));
    assert!(out.contains("BLK>=2M"));
    assert!(out.contains("Normal"));
    assert!(out.contains("4.0 MiB"));
    assert!(out.contains("204"));
    assert!(out.contains("99"));
}

#[test]
fn format_cma_migrate_summary_basic() {
    let pti = vec![
        PageTypeInfoEntry {
            node: 0,
            zone: "Normal".into(),
            page_type: "Movable".into(),
            free_counts: vec![400, 260, 150, 85, 45, 25, 14, 7, 3, 1, 98],
        },
        PageTypeInfoEntry {
            node: 0,
            zone: "Normal".into(),
            page_type: "CMA".into(),
            free_counts: vec![12, 10, 9, 5, 2, 1, 0, 0, 0, 0, 0],
        },
    ];
    let mut out = String::new();
    format_cma_migrate_summary(&mut out, &pti);

    assert!(out.contains("CMA migrate type"));
    assert!(out.contains("Normal"));
    assert!(out.contains('3'));
}

#[test]
fn format_frag_summary_empty_zone() {
    let buddy = vec![BuddyInfoEntry {
        node: 0,
        zone: "DMA".into(),
        free_counts: vec![0, 0, 0, 0, 0, 0, 0, 0, 0, 0, 0],
    }];
    let mut out = String::new();
    format_frag_summary(&mut out, &buddy);
    assert!(out.contains("4.0 KiB"));
}

#[test]
fn info_parse_debugfs_bufinfo_basic() {
    let entries = parse_debugfs_bufinfo(DEBUGFS_BUFINFO_FIXTURE);
    assert_eq!(entries.len(), 3);

    assert_eq!(entries[0].size, 65536);
    assert_eq!(entries[0].exp_name, "system");
    assert_eq!(entries[0].ino, 1234);
    assert_eq!(entries[0].name, "camera_preview");
    assert_eq!(entries[0].count, 2);
    assert!(entries[0].attached_devices.contains(&"mali0".to_string()));
    assert!(
        entries[0]
            .attached_devices
            .contains(&"display0".to_string())
    );

    assert_eq!(entries[1].size, 4096);
    assert_eq!(entries[1].name, "npu_input");

    assert_eq!(entries[2].size, 1_048_576);
    assert_eq!(entries[2].exp_name, "reserved");
}

#[test]
fn info_parse_debugfs_bufinfo_empty() {
    let entries = parse_debugfs_bufinfo("");
    assert!(entries.is_empty());
}

#[test]
fn info_aggregate_debugfs_groups_by_exporter() {
    let entries = parse_debugfs_bufinfo(DEBUGFS_BUFINFO_FIXTURE);
    let summary = aggregate_debugfs(&entries);
    assert_eq!(summary.len(), 2);

    let reserved = summary
        .iter()
        .find(|s| s.exporter_name == "reserved")
        .unwrap();
    assert_eq!(reserved.count, 1);
    assert_eq!(reserved.total_size_bytes, 1_048_576);

    let system = summary
        .iter()
        .find(|s| s.exporter_name == "system")
        .unwrap();
    assert_eq!(system.count, 2);
    assert_eq!(system.total_size_bytes, 65536 + 4096);
    assert_eq!(system.total_refcount, 3);
}

#[test]
fn info_aggregate_sysfs_groups_by_exporter() {
    let buffers = vec![
        DmaBufInfo {
            ino: 1,
            size: 4096,
            exporter_name: "system".into(),
        },
        DmaBufInfo {
            ino: 2,
            size: 8192,
            exporter_name: "system".into(),
        },
        DmaBufInfo {
            ino: 3,
            size: 1024,
            exporter_name: "other".into(),
        },
    ];
    let summary = aggregate_sysfs(&buffers);
    assert_eq!(summary.len(), 2);
    let sys = summary
        .iter()
        .find(|s| s.exporter_name == "system")
        .unwrap();
    assert_eq!(sys.count, 2);
    assert_eq!(sys.total_size_bytes, 4096 + 8192);
}

#[test]
fn a_buffer_list_in_parts() {
    let a = "4096\t0\t0\t1\tsystem\t7\tfirst\n\tgpu\n";
    let b = "8192\t0\t0\t2\tcma\t8\tsecond\n\tdisplay\n\tcamera\n";
    let whole = parse_debugfs_bufinfo(&format!("{a}{b}"));
    let parts: Vec<_> =
        parse_debugfs_bufinfo(a).into_iter().chain(parse_debugfs_bufinfo(b)).collect();
    assert_eq!(format!("{whole:?}"), format!("{parts:?}"));
    assert_eq!(whole.len(), 2);
    assert_eq!(whole[0].attached_devices, ["gpu"]);
    assert_eq!(whole[1].attached_devices, ["display", "camera"]);
    // Devices at the beginning go to the buffer before them.
    let c = parse_debugfs_bufinfo(&format!("{a}\tcamera\n"));
    assert_eq!(c[0].attached_devices, ["gpu", "camera"]);
    assert!(parse_debugfs_bufinfo("\tcamera\n").is_empty());
}

#[test]
fn zones_in_parts() {
    let a = "Node 0, zone DMA\n  pages free 5\n        min 1\n        protection: (0, 9)\n";
    let b = "Node 1, zone Normal\n  pages free 6\n";
    let whole = parse_zoneinfo(&format!("{a}{b}"));
    let parts: Vec<_> = parse_zoneinfo(a).into_iter().chain(parse_zoneinfo(b)).collect();
    assert_eq!(format!("{whole:?}"), format!("{parts:?}"));
    assert_eq!(whole.len(), 2);
    assert_eq!(whole[0].protection, [0, 9]);
    assert_eq!((whole[1].node, whole[1].free_pages, whole[1].min_watermark), (1, 6, 0));
    assert!(whole[1].protection.is_empty());
    // A zone without a node leaves its protection to the next.
    let odd = "Node x, zone DMA\n        protection: (0, 9)\n";
    assert_eq!(parse_zoneinfo(&format!("{odd}{b}"))[0].protection, [0, 9]);
}

#[test]
fn info_parse_zoneinfo_basic() {
    let zones = parse_zoneinfo(ZONEINFO_FIXTURE);
    assert_eq!(zones.len(), 2);

    assert_eq!(zones[0].node, 0);
    assert_eq!(zones[0].zone, "DMA");
    assert_eq!(zones[0].free_pages, 3968);
    assert_eq!(zones[0].min_watermark, 4);
    assert_eq!(zones[0].low_watermark, 8);
    assert_eq!(zones[0].high_watermark, 12);
    assert_eq!(zones[0].protection, vec![0, 1944, 1944, 1944, 1944]);

    assert_eq!(zones[1].zone, "Normal");
    assert_eq!(zones[1].free_pages, 497_664);
    assert_eq!(zones[1].min_watermark, 4636);
}

#[test]
fn info_parse_zoneinfo_empty() {
    let zones = parse_zoneinfo("");
    assert!(zones.is_empty());
}

#[test]
fn info_aggregate_process_usage_groups_by_pid() {
    let entries = vec![
        ProcessBufEntry {
            pid: 100,
            comm: "proc_a".into(),
            fd: 3,
            size: 4096,
            count: 1,
            exp_name: "system".into(),
            name: None,
        },
        ProcessBufEntry {
            pid: 100,
            comm: "proc_a".into(),
            fd: 4,
            size: 8192,
            count: 1,
            exp_name: "system".into(),
            name: None,
        },
        ProcessBufEntry {
            pid: 200,
            comm: "proc_b".into(),
            fd: 5,
            size: 65536,
            count: 2,
            exp_name: "reserved".into(),
            name: Some("buf".into()),
        },
    ];
    let summaries = aggregate_process_usage(&entries);
    assert_eq!(summaries.len(), 2);
    assert_eq!(summaries[0].pid, 200);
    assert_eq!(summaries[0].total_size_bytes, 65536);
    assert_eq!(summaries[0].fd_count, 1);
    assert_eq!(summaries[1].pid, 100);
    assert_eq!(summaries[1].total_size_bytes, 4096 + 8192);
    assert_eq!(summaries[1].fd_count, 2);
}

#[test]
fn collect_parse_debugfs_bufinfo_basic() {
    let entries = parse_debugfs_bufinfo(DEBUGFS_BUFINFO_FIXTURE);
    assert_eq!(entries.len(), 3);

    assert_eq!(entries[0].size, 65536);
    assert_eq!(entries[0].exp_name, "system");
    assert_eq!(entries[0].ino, 1234);
    assert_eq!(entries[0].name, "camera_preview");
    assert_eq!(entries[0].count, 2);
    assert!(entries[0].attached_devices.contains(&"mali0".to_string()));
    assert!(
        entries[0]
            .attached_devices
            .contains(&"display0".to_string())
    );

    assert_eq!(entries[1].size, 4096);
    assert_eq!(entries[1].name, "npu_input");

    assert_eq!(entries[2].size, 1_048_576);
    assert_eq!(entries[2].exp_name, "reserved");
}

#[test]
fn collect_parse_debugfs_bufinfo_empty() {
    let entries = parse_debugfs_bufinfo("");
    assert!(entries.is_empty());
}

#[test]
fn collect_aggregate_debugfs_groups_by_exporter() {
    let entries = parse_debugfs_bufinfo(DEBUGFS_BUFINFO_FIXTURE);
    let summary = aggregate_debugfs(&entries);
    assert_eq!(summary.len(), 2);

    let reserved = summary
        .iter()
        .find(|s| s.exporter_name == "reserved")
        .unwrap();
    assert_eq!(reserved.count, 1);
    assert_eq!(reserved.total_size_bytes, 1_048_576);

    let system = summary
        .iter()
        .find(|s| s.exporter_name == "system")
        .unwrap();
    assert_eq!(system.count, 2);
    assert_eq!(system.total_size_bytes, 65536 + 4096);
    assert_eq!(system.total_refcount, 3);
}

#[test]
fn collect_aggregate_sysfs_groups_by_exporter() {
    let buffers = vec![
        DmaBufInfo {
            ino: 1,
            size: 4096,
            exporter_name: "system".into(),
        },
        DmaBufInfo {
            ino: 2,
            size: 8192,
            exporter_name: "system".into(),
        },
        DmaBufInfo {
            ino: 3,
            size: 1024,
            exporter_name: "other".into(),
        },
    ];
    let summary = aggregate_sysfs(&buffers);
    assert_eq!(summary.len(), 2);
    let sys = summary
        .iter()
        .find(|s| s.exporter_name == "system")
        .unwrap();
    assert_eq!(sys.count, 2);
    assert_eq!(sys.total_size_bytes, 4096 + 8192);
}

#[test]
fn collect_parse_zoneinfo_basic() {
    let zones = parse_zoneinfo(ZONEINFO_FIXTURE);
    assert_eq!(zones.len(), 2);

    assert_eq!(zones[0].node, 0);
    assert_eq!(zones[0].zone, "DMA");
    assert_eq!(zones[0].free_pages, 3968);
    assert_eq!(zones[0].min_watermark, 4);
    assert_eq!(zones[0].low_watermark, 8);
    assert_eq!(zones[0].high_watermark, 12);
    assert_eq!(zones[0].protection, vec![0, 1944, 1944, 1944, 1944]);

    assert_eq!(zones[1].zone, "Normal");
    assert_eq!(zones[1].free_pages, 497_664);
    assert_eq!(zones[1].min_watermark, 4636);
}

#[test]
fn collect_parse_zoneinfo_empty() {
    let zones = parse_zoneinfo("");
    assert!(zones.is_empty());
}

#[test]
fn collect_aggregate_process_usage_groups_by_pid() {
    let entries = vec![
        ProcessBufEntry {
            pid: 100,
            comm: "proc_a".into(),
            fd: 3,
            size: 4096,
            count: 1,
            exp_name: "system".into(),
            name: None,
        },
        ProcessBufEntry {
            pid: 100,
            comm: "proc_a".into(),
            fd: 4,
            size: 8192,
            count: 1,
            exp_name: "system".into(),
            name: None,
        },
        ProcessBufEntry {
            pid: 200,
            comm: "proc_b".into(),
            fd: 5,
            size: 65536,
            count: 2,
            exp_name: "reserved".into(),
            name: Some("buf".into()),
        },
    ];
    let summaries = aggregate_process_usage(&entries);
    assert_eq!(summaries.len(), 2);
    assert_eq!(summaries[0].pid, 200);
    assert_eq!(summaries[0].total_size_bytes, 65536);
    assert_eq!(summaries[0].fd_count, 1);
    assert_eq!(summaries[1].pid, 100);
    assert_eq!(summaries[1].total_size_bytes, 4096 + 8192);
    assert_eq!(summaries[1].fd_count, 2);
}

#[test]
fn format_cma_migrate_summary_no_cma_rows() {
    let pti = vec![PageTypeInfoEntry {
        node: 0,
        zone: "Normal".into(),
        page_type: "Movable".into(),
        free_counts: vec![100, 50],
    }];
    let mut out = String::new();
    format_cma_migrate_summary(&mut out, &pti);
    assert!(out.is_empty());
}
