//! The kernel's texts on memory.
use dhp::procfs_text::{
    parse_buddyinfo, parse_meminfo, parse_pagetypeinfo, parse_psi_io, parse_psi_memory,
    parse_vmstat,
};

#[test]
fn figures_of_memory() {
    let text = "MemTotal:        8000000 kB\nMemFree:         1000000 kB\nMemAvailable:    4000000 kB\nBuffers:           12345 kB\nSwapTotal:             0 kB\nActive(anon):      999 kB\nActive:            777 kB\n";
    let m = parse_meminfo(text).unwrap();
    assert_eq!(m.mem_total_kb, 8_000_000);
    assert_eq!(m.mem_free_kb, 1_000_000);
    assert_eq!(m.mem_available_kb, 4_000_000);
    assert_eq!(m.buffers_kb, Some(12_345));
    assert_eq!(m.swap_total_kb, Some(0));
    assert_eq!(m.active_kb, Some(777));
    assert_eq!(m.cma_total_kb, None);
}

#[test]
fn memory_without_its_size_is_not_told() {
    assert!(parse_meminfo("").is_none());
    assert!(parse_meminfo("MemTotal: 1 kB\nMemFree: 1 kB\n").is_none());
    assert!(parse_meminfo("MemTotal: x kB\nMemFree: 1 kB\nMemAvailable: 1 kB\n").is_none());
}

#[test]
fn counters_of_memory() {
    let v = parse_vmstat("nr_free_pages 1\ncompact_stall 7\ncompact_migrate_scanned 9\noom_kill 2\npgfree none\n");
    assert_eq!(v.compact_stall, Some(7));
    assert_eq!(v.compactmigrate_scanned, Some(9));
    assert_eq!(v.oom_kill, Some(2));
    assert_eq!(v.pgfree, None);
    assert_eq!(v.pgscan_direct, None);
}

#[test]
fn free_blocks_by_zone() {
    let v = parse_buddyinfo(
        "Node 0, zone      DMA      1      2      3\nnothing\nNode 1, zone   Normal      4      x      6\n",
    );
    assert_eq!(v.len(), 2);
    assert_eq!((v[0].node, v[0].zone.as_str()), (0, "DMA"));
    assert_eq!(v[0].free_counts, vec![1, 2, 3]);
    assert_eq!((v[1].node, v[1].zone.as_str()), (1, "Normal"));
    assert_eq!(v[1].free_counts, vec![4, 0, 6]);
    let long = parse_buddyinfo("Node 0, zone DMA 1 2 3 4 5 6 7 8 9 10 11 12 13");
    assert_eq!(long[0].free_counts.len(), 11);
}

#[test]
fn free_blocks_by_type() {
    let v = parse_pagetypeinfo(
        "Page block order: 9\n\nFree pages count per migrate type at order 0 1\nNode    0, zone      DMA, type    Unmovable      1      0\nNode    0, zone   Normal, type          CMA      5      6\nNode 0, zone Normal\n",
    );
    assert_eq!(v.len(), 2);
    assert_eq!(v[0].zone, "DMA");
    assert_eq!(v[0].page_type, "Unmovable");
    assert_eq!(v[1].page_type, "CMA");
    assert_eq!(v[1].free_counts, vec![5, 6]);
}

#[test]
fn pressure_in_hundredths() {
    let text = "some avg10=1.23 avg60=0.05 avg300=100.00 total=4567\nfull avg10=0.00 avg60=0.00 avg300=0.00 total=8\n";
    let p = parse_psi_memory(text).unwrap();
    assert_eq!(p.some.avg10, 123);
    assert_eq!(p.some.avg60, 5);
    assert_eq!(p.some.avg300, 10_000);
    assert_eq!(p.some.total, 4567);
    assert_eq!(p.full.total, 8);
    assert_eq!(parse_psi_io(text).unwrap().some.avg10, 123);
    assert!(parse_psi_memory("some avg10=1.23 avg60=0.05 avg300=0.00 total=1\n").is_none());
    assert!(parse_psi_io("some avg10=1 avg60=0.05 avg300=0.00 total=1\nfull\n").is_none());
}
