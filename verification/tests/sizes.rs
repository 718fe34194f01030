//! Sizes and other numbers as text.
use dhp::bench::op::Op;
use dhp::bench::rows::format_throughput;
use dhp::size::{align_to, format_size_label, human_size};

#[test]
fn label_kib() {
    assert_eq!(format_size_label(4096), "4K");
    assert_eq!(format_size_label(65536), "64K");
}

#[test]
fn label_mib() {
    assert_eq!(format_size_label(1_048_576), "1M");
    assert_eq!(format_size_label(8 * 1_048_576), "8M");
}

#[test]
fn label_gib() {
    assert_eq!(format_size_label(1_073_741_824), "1G");
}

#[test]
fn label_bytes() {
    assert_eq!(format_size_label(1), "1B");
    assert_eq!(format_size_label(4097), "4097B");
}

#[test]
fn align_to_zero_size() {
    assert_eq!(align_to(0, 4096), 0);
}

#[test]
fn align_to_zero_granularity() {
    assert_eq!(align_to(4096, 0), 4096);
    assert_eq!(align_to(0, 0), 0);
    assert_eq!(align_to(1, 0), 1);
}

#[test]
fn align_to_exact() {
    assert_eq!(align_to(4096, 4096), 4096);
    assert_eq!(align_to(8192, 4096), 8192);
}

#[test]
fn align_to_rounds_up() {
    assert_eq!(align_to(1, 4096), 4096);
    assert_eq!(align_to(4097, 4096), 8192);
    assert_eq!(align_to(4095, 4096), 4096);
}

#[test]
fn human_size_formatting() {
    assert_eq!(human_size(4096), "4K");
    assert_eq!(human_size(65536), "64K");
    assert_eq!(human_size(1_048_576), "1M");
    assert_eq!(human_size(4097), "4097");
}

#[test]
fn human_size_kilobytes() {
    assert_eq!(human_size(4096), "4K");
    assert_eq!(human_size(65536), "64K");
}

#[test]
fn human_size_megabytes() {
    assert_eq!(human_size(1_048_576), "1M");
    assert_eq!(human_size(8_388_608), "8M");
}

#[test]
fn human_size_unaligned() {
    assert_eq!(human_size(4095), "4095");
    assert_eq!(human_size(49152), "48K");
    assert_eq!(human_size(1), "1");
}

#[test]
fn format_throughput_kops() {
    assert_eq!(format_throughput(100_000), "100");
    assert_eq!(format_throughput(23810), "23");
    assert_eq!(format_throughput(1000), "1");
    assert_eq!(format_throughput(500), "0.5");
    assert_eq!(format_throughput(150), "0.1");
    assert_eq!(format_throughput(50), "0.1");
    assert_eq!(format_throughput(0), "0.0");
}

#[test]
fn op_parse_all() {
    let ops = Op::parse_list("alloc,mmap,close").unwrap();
    assert_eq!(ops, vec![Op::Alloc, Op::Mmap, Op::Close]);
}

#[test]
fn op_parse_unknown() {
    assert!(Op::parse_list("alloc,bogus").is_err());
}

#[test]
fn op_parse_sync_rw() {
    let ops = Op::parse_list("sync_start_rw,sync_end_rw").unwrap();
    assert_eq!(ops, vec![Op::SyncStartRw, Op::SyncEndRw]);
}
