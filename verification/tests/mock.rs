//! The simulated device.
use dhp::backend::ioctl::{
    DmaBufExportSyncFile, DmaBufImportSyncFile, DmaHeapAllocationData, Errno, DMA_BUF_SYNC_END,
    DMA_BUF_SYNC_READ, DMA_BUF_SYNC_RW, DMA_BUF_SYNC_START, DMA_BUF_SYNC_WRITE,
    DMA_HEAP_ALLOC_FD_FLAGS, MAX_BUFCON_SRC_BUFS, SEEK_CUR, SEEK_END, SEEK_SET,
};
use dhp::backend::mock::MockBackend;
use dhp::backend::model::{SimConfig, MAX_ALLOC_SIZE, MOCK_FD_START};

const O_APPEND: u32 = 0o2000;

fn request(len: u64, fd_flags: u32, heap_flags: u64) -> DmaHeapAllocationData {
    DmaHeapAllocationData { len, fd: 0, fd_flags, heap_flags }
}

fn open_and_alloc(b: &mut MockBackend, size: u64) -> (i32, i32) {
    let heap_fd = b.open("system").unwrap();
    let mut data = request(size, DMA_HEAP_ALLOC_FD_FLAGS, 0);
    b.allocate(heap_fd, &mut data).unwrap();
    (heap_fd, data.fd as i32)
}

// ── Heap alloc tests ──

#[test]
fn alloc_basic() {
    let mut b = MockBackend::new();
    let (heap_fd, buf_fd) = open_and_alloc(&mut b, 4096);
    assert!(buf_fd >= MOCK_FD_START);
    b.close(buf_fd).unwrap();
    b.close_heap(heap_fd).unwrap();
}

#[test]
fn alloc_zeroed() {
    let mut b = MockBackend::new();
    let (_heap_fd, buf_fd) = open_and_alloc(&mut b, 4096);
    let mapping = b.mmap(buf_fd, 4096).unwrap();
    let bytes = b.read(&mapping).unwrap();
    assert_eq!(bytes.len(), 4096);
    assert!(bytes.iter().all(|&byte| byte == 0));
}

#[test]
fn mock_alloc_zero_size() {
    let mut b = MockBackend::new();
    let heap_fd = b.open("system").unwrap();
    let mut data = request(0, DMA_HEAP_ALLOC_FD_FLAGS, 0);
    assert_eq!(b.allocate(heap_fd, &mut data), Err(Errno::EINVAL));
}

#[test]
fn mock_alloc_invalid_fd_flags() {
    let mut b = MockBackend::new();
    let heap_fd = b.open("system").unwrap();
    let mut data = request(4096, O_APPEND, 0);
    assert_eq!(b.allocate(heap_fd, &mut data), Err(Errno::EINVAL));
}

#[test]
fn mock_alloc_invalid_heap_flags() {
    let mut b = MockBackend::new();
    let heap_fd = b.open("system").unwrap();
    let mut data = request(4096, DMA_HEAP_ALLOC_FD_FLAGS, 1);
    assert_eq!(b.allocate(heap_fd, &mut data), Err(Errno::EINVAL));
}

#[test]
fn mock_alloc_on_closed_heap() {
    let mut b = MockBackend::new();
    let heap_fd = b.open("system").unwrap();
    b.close_heap(heap_fd).unwrap();
    let mut data = request(4096, DMA_HEAP_ALLOC_FD_FLAGS, 0);
    assert_eq!(b.allocate(heap_fd, &mut data), Err(Errno::EBADF));
}

#[test]
fn alloc_page_aligns() {
    let mut b = MockBackend::new();
    let (_heap_fd, buf_fd) = open_and_alloc(&mut b, 1); // 1 byte -> aligned to 4096
    let size = b.llseek(buf_fd, 0, SEEK_END).unwrap();
    assert_eq!(size, 4096);
}

#[test]
fn alloc_enomem_huge_size() {
    let mut b = MockBackend::new();
    let heap_fd = b.open("system").unwrap();
    let mut data = request(MAX_ALLOC_SIZE + 1, DMA_HEAP_ALLOC_FD_FLAGS, 0);
    assert_eq!(b.allocate(heap_fd, &mut data), Err(Errno::ENOMEM));
}


#[test]
fn sync_valid_flags() {
    let mut b = MockBackend::new();
    let (_heap_fd, buf_fd) = open_and_alloc(&mut b, 4096);

    // START + READ
    b.sync(buf_fd, DMA_BUF_SYNC_START | DMA_BUF_SYNC_READ)
        .unwrap();
    b.sync(buf_fd, DMA_BUF_SYNC_END | DMA_BUF_SYNC_READ)
        .unwrap();

    // START + WRITE
    b.sync(buf_fd, DMA_BUF_SYNC_START | DMA_BUF_SYNC_WRITE)
        .unwrap();
    b.sync(buf_fd, DMA_BUF_SYNC_END | DMA_BUF_SYNC_WRITE)
        .unwrap();

    // START + RW
    b.sync(buf_fd, DMA_BUF_SYNC_START | DMA_BUF_SYNC_RW)
        .unwrap();
    b.sync(buf_fd, DMA_BUF_SYNC_END | DMA_BUF_SYNC_RW).unwrap();
}

#[test]
fn mock_sync_invalid_flags() {
    let mut b = MockBackend::new();
    let (_heap_fd, buf_fd) = open_and_alloc(&mut b, 4096);

    // No READ/WRITE bit
    assert_eq!(b.sync(buf_fd, DMA_BUF_SYNC_START), Err(Errno::EINVAL));

    // Invalid bits set (bit 3 = 0x8)
    assert_eq!(b.sync(buf_fd, 0x8 | DMA_BUF_SYNC_READ), Err(Errno::EINVAL));

    // Zero flags
    assert_eq!(b.sync(buf_fd, 0), Err(Errno::EINVAL));
}

#[test]
fn sync_on_bad_fd() {
    let mut b = MockBackend::new();
    assert_eq!(
        b.sync(9999, DMA_BUF_SYNC_START | DMA_BUF_SYNC_READ),
        Err(Errno::EBADF)
    );
}


#[test]
fn mmap_and_access() {
    let mut b = MockBackend::new();
    let (_heap_fd, buf_fd) = open_and_alloc(&mut b, 4096);

    let mapping = b.mmap(buf_fd, 4096).unwrap();
    let pattern: Vec<u8> = (0..4096usize).map(|i| (i & 0xFF) as u8).collect();
    assert!(b.write(&mapping, &pattern));
    let bytes = b.read(&mapping).unwrap();
    for (i, &byte) in bytes.iter().enumerate() {
        assert_eq!(byte, (i & 0xFF) as u8);
    }
}

#[test]
fn mock_mmap_beyond_size() {
    let mut b = MockBackend::new();
    let (_heap_fd, buf_fd) = open_and_alloc(&mut b, 4096);
    assert_eq!(b.mmap(buf_fd, 8192), Err(Errno::EINVAL));
}


#[test]
fn llseek_size() {
    let mut b = MockBackend::new();
    let (_heap_fd, buf_fd) = open_and_alloc(&mut b, 65536);
    let size = b.llseek(buf_fd, 0, SEEK_END).unwrap();
    assert_eq!(size, 65536);

    // SEEK_SET resets to 0
    let pos = b.llseek(buf_fd, 0, SEEK_SET).unwrap();
    assert_eq!(pos, 0);
}

#[test]
fn llseek_invalid_whence() {
    let mut b = MockBackend::new();
    let (_heap_fd, buf_fd) = open_and_alloc(&mut b, 4096);
    assert_eq!(b.llseek(buf_fd, 0, SEEK_CUR), Err(Errno::EINVAL));
}

#[test]
fn llseek_nonzero_offset() {
    let mut b = MockBackend::new();
    let (_heap_fd, buf_fd) = open_and_alloc(&mut b, 4096);
    assert_eq!(b.llseek(buf_fd, 1, SEEK_SET), Err(Errno::EINVAL));
    assert_eq!(b.llseek(buf_fd, 1, SEEK_END), Err(Errno::EINVAL));
}


#[test]
fn close_then_access() {
    let mut b = MockBackend::new();
    let (_heap_fd, buf_fd) = open_and_alloc(&mut b, 4096);
    b.close(buf_fd).unwrap();
    assert_eq!(b.mmap(buf_fd, 4096), Err(Errno::EBADF));
    assert_eq!(
        b.sync(buf_fd, DMA_BUF_SYNC_START | DMA_BUF_SYNC_READ),
        Err(Errno::EBADF)
    );
    assert_eq!(b.llseek(buf_fd, 0, SEEK_END), Err(Errno::EBADF));
}

#[test]
fn close_bad_fd() {
    let mut b = MockBackend::new();
    assert_eq!(b.close(9999), Err(Errno::EBADF));
}

#[test]
fn dup_and_close() {
    let mut b = MockBackend::new();
    let (_heap_fd, buf_fd) = open_and_alloc(&mut b, 4096);
    let dup_fd = b.dup(buf_fd).unwrap();
    assert_ne!(buf_fd, dup_fd);

    // Close original, dup should still work
    b.close(buf_fd).unwrap();
    let size = b.llseek(dup_fd, 0, SEEK_END).unwrap();
    assert_eq!(size, 4096);

    b.close(dup_fd).unwrap();
}

#[test]
fn dup_shares_data() {
    let mut b = MockBackend::new();
    let (_heap_fd, buf_fd) = open_and_alloc(&mut b, 4096);

    let mapping = b.mmap(buf_fd, 4096).unwrap();
    let mut bytes = b.read(&mapping).unwrap();
    bytes[0] = 0xAB;
    assert!(b.write(&mapping, &bytes));
    let dup_fd = b.dup(buf_fd).unwrap();
    let dup_mapping = b.mmap(dup_fd, 4096).unwrap();
    assert_eq!(b.read(&dup_mapping).unwrap()[0], 0xAB);
}

#[test]
fn export_sync_file() {
    let mut b = MockBackend::new();
    let (_heap_fd, buf_fd) = open_and_alloc(&mut b, 4096);
    let mut data = DmaBufExportSyncFile {
        flags: DMA_BUF_SYNC_READ as u32,
        fd: -1,
    };
    b.export_sync_file(buf_fd, &mut data).unwrap();
    assert!(data.fd >= MOCK_FD_START);
    b.close(data.fd).unwrap();
}

#[test]
fn mock_export_sync_file_invalid_flags() {
    let mut b = MockBackend::new();
    let (_heap_fd, buf_fd) = open_and_alloc(&mut b, 4096);
    let mut data = DmaBufExportSyncFile { flags: 0, fd: -1 };
    assert_eq!(b.export_sync_file(buf_fd, &mut data), Err(Errno::EINVAL));
}

#[test]
fn import_sync_file() {
    let mut b = MockBackend::new();
    let (_heap_fd, buf_fd) = open_and_alloc(&mut b, 4096);

    // First export to get a valid sync_file fd
    let mut export_data = DmaBufExportSyncFile {
        flags: DMA_BUF_SYNC_WRITE as u32,
        fd: -1,
    };
    b.export_sync_file(buf_fd, &mut export_data).unwrap();

    // Import it back
    let import_data = DmaBufImportSyncFile {
        flags: DMA_BUF_SYNC_WRITE as u32,
        fd: export_data.fd,
    };
    b.import_sync_file(buf_fd, import_data).unwrap();
}

#[test]
fn import_sync_file_invalid_flags() {
    let mut b = MockBackend::new();
    let (_heap_fd, buf_fd) = open_and_alloc(&mut b, 4096);

    let mut export_data = DmaBufExportSyncFile {
        flags: DMA_BUF_SYNC_READ as u32,
        fd: -1,
    };
    b.export_sync_file(buf_fd, &mut export_data).unwrap();

    let import_data = DmaBufImportSyncFile {
        flags: 0,
        fd: export_data.fd,
    };
    assert_eq!(b.import_sync_file(buf_fd, import_data), Err(Errno::EINVAL));
}

#[test]
fn import_sync_file_bad_sync_fd() {
    let mut b = MockBackend::new();
    let (_heap_fd, buf_fd) = open_and_alloc(&mut b, 4096);
    let import_data = DmaBufImportSyncFile {
        flags: DMA_BUF_SYNC_READ as u32,
        fd: 9999,
    };
    assert_eq!(b.import_sync_file(buf_fd, import_data), Err(Errno::EINVAL));
}

#[test]
fn open_empty_name() {
    let mut b = MockBackend::new();
    assert_eq!(b.open(""), Err(Errno::ENOENT));
}

#[test]
fn close_heap_bad_fd() {
    let mut b = MockBackend::new();
    assert_eq!(b.close_heap(9999), Err(Errno::EBADF));
}


#[test]
fn sim_enomem_triggers() {
    let mut b = MockBackend::with_sim(SimConfig {
        enomem_threshold: Some(3),
        ..Default::default()
    });
    let heap_fd = b.open("system").unwrap();
    // First 3 allocs succeed (threshold=3 means fail when buffers.len() >= 3)
    for _ in 0..3 {
        let mut data = request(4096, DMA_HEAP_ALLOC_FD_FLAGS, 0);
        b.allocate(heap_fd, &mut data).unwrap();
    }
    // 4th alloc should fail with ENOMEM
    let mut data = request(4096, DMA_HEAP_ALLOC_FD_FLAGS, 0);
    assert_eq!(b.allocate(heap_fd, &mut data), Err(Errno::ENOMEM));
}

#[test]
fn sim_fail_every_nth() {
    let mut b = MockBackend::with_sim(SimConfig {
        fail_every_nth: 3,
        ..Default::default()
    });
    let heap_fd = b.open("system").unwrap();
    let mut results = Vec::new();
    for _ in 0..6 {
        let mut data = request(4096, DMA_HEAP_ALLOC_FD_FLAGS, 0);
        results.push(b.allocate(heap_fd, &mut data));
    }
    // Every 3rd alloc (index 2, 5) returns EIO
    assert!(results[0].is_ok());
    assert!(results[1].is_ok());
    assert_eq!(results[2], Err(Errno::EIO));
    assert!(results[3].is_ok());
    assert!(results[4].is_ok());
    assert_eq!(results[5], Err(Errno::EIO));
}

#[test]
fn sim_corruption_detected() {
    let mut b = MockBackend::with_sim(SimConfig {
        corrupt_every_nth: 1,
        ..Default::default()
    });
    let (_heap_fd, buf_fd) = open_and_alloc(&mut b, 4096);
    // Buffer starts zeroed, mmap with corrupt_every_nth=1 flips byte 0
    let mapping = b.mmap(buf_fd, 4096).unwrap();
    let first_byte = b.read(&mapping).unwrap()[0];
    assert_eq!(first_byte, 0xFF, "first byte should be flipped from 0x00");
}

#[test]
fn sim_no_corruption_without_config() {
    let mut b = MockBackend::new();
    let (_heap_fd, buf_fd) = open_and_alloc(&mut b, 4096);
    let mapping = b.mmap(buf_fd, 4096).unwrap();
    let first_byte = b.read(&mapping).unwrap()[0];
    assert_eq!(first_byte, 0x00, "no corruption without SimConfig");
}

#[test]
fn sim_enomem_recovers_after_free() {
    let mut b = MockBackend::with_sim(SimConfig {
        enomem_threshold: Some(2),
        ..Default::default()
    });
    let heap_fd = b.open("system").unwrap();
    // Alloc 2 buffers
    let mut fds = Vec::new();
    for _ in 0..2 {
        let mut data = request(4096, DMA_HEAP_ALLOC_FD_FLAGS, 0);
        b.allocate(heap_fd, &mut data).unwrap();
        fds.push(data.fd as i32);
    }
    // Next alloc fails
    let mut data = request(4096, DMA_HEAP_ALLOC_FD_FLAGS, 0);
    assert_eq!(b.allocate(heap_fd, &mut data), Err(Errno::ENOMEM));
    // Free one buffer
    b.close(fds[0]).unwrap();
    // Now alloc should succeed again
    let mut data2 = request(4096, DMA_HEAP_ALLOC_FD_FLAGS, 0);
    b.allocate(heap_fd, &mut data2).unwrap();
}


#[test]
fn container_open_device() {
    let mut b = MockBackend::new();
    let dev_fd = b.open_container_device().unwrap();
    assert!(dev_fd >= MOCK_FD_START);
    b.close_container(dev_fd).unwrap();
}

#[test]
fn container_merge_two() {
    let mut b = MockBackend::new();
    let dev_fd = b.open_container_device().unwrap();
    let (_, fd1) = open_and_alloc(&mut b, 4096);
    let (_, fd2) = open_and_alloc(&mut b, 8192);

    let cfd = b.merge(dev_fd, &[fd1, fd2]).unwrap();
    assert!(cfd >= MOCK_FD_START);

    // Default mask is 0.
    assert_eq!(b.get_mask(dev_fd, cfd).unwrap(), 0);

    b.close_container(cfd).unwrap();
    b.close_container(dev_fd).unwrap();
}

#[test]
fn container_merge_single() {
    let mut b = MockBackend::new();
    let dev_fd = b.open_container_device().unwrap();
    let (_, fd1) = open_and_alloc(&mut b, 4096);

    let cfd = b.merge(dev_fd, &[fd1]).unwrap();
    assert!(cfd >= MOCK_FD_START);
    b.close_container(cfd).unwrap();
}

#[test]
fn container_merge_empty_fails() {
    let mut b = MockBackend::new();
    let dev_fd = b.open_container_device().unwrap();
    assert_eq!(b.merge(dev_fd, &[]), Err(Errno::EINVAL));
}

#[test]
fn container_merge_over_max_fails() {
    let mut b = MockBackend::new();
    let dev_fd = b.open_container_device().unwrap();
    let heap_fd = b.open("system").unwrap();

    // Allocate MAX_BUFCON_SRC_BUFS + 1 = 64 buffers.
    let mut fds = Vec::new();
    for _ in 0..=MAX_BUFCON_SRC_BUFS {
        let mut data = request(4096, DMA_HEAP_ALLOC_FD_FLAGS, 0);
        b.allocate(heap_fd, &mut data).unwrap();
        fds.push(data.fd as i32);
    }
    assert_eq!(fds.len(), 64);
    assert_eq!(b.merge(dev_fd, &fds), Err(Errno::EINVAL));
}

#[test]
fn container_merge_invalid_fd() {
    let mut b = MockBackend::new();
    let dev_fd = b.open_container_device().unwrap();
    assert_eq!(b.merge(dev_fd, &[9999]), Err(Errno::EBADF));
}

#[test]
fn container_merge_bad_device_fd() {
    let mut b = MockBackend::new();
    let (_, fd1) = open_and_alloc(&mut b, 4096);
    assert_eq!(b.merge(9999, &[fd1]), Err(Errno::EBADF));
}

#[test]
fn container_set_get_mask_roundtrip() {
    let mut b = MockBackend::new();
    let dev_fd = b.open_container_device().unwrap();
    let (_, fd1) = open_and_alloc(&mut b, 4096);
    let (_, fd2) = open_and_alloc(&mut b, 4096);
    let (_, fd3) = open_and_alloc(&mut b, 4096);

    let cfd = b.merge(dev_fd, &[fd1, fd2, fd3]).unwrap();

    // Set mask = 0b101 (buffers 0 and 2 active).
    b.set_mask(dev_fd, cfd, 0b101).unwrap();
    assert_eq!(b.get_mask(dev_fd, cfd).unwrap(), 0b101);

    // Set mask = 0b111 (all active).
    b.set_mask(dev_fd, cfd, 0b111).unwrap();
    assert_eq!(b.get_mask(dev_fd, cfd).unwrap(), 0b111);

    // Set mask = 0 (all unmasked).
    b.set_mask(dev_fd, cfd, 0).unwrap();
    assert_eq!(b.get_mask(dev_fd, cfd).unwrap(), 0);
}

#[test]
fn container_set_mask_overflow_fails() {
    let mut b = MockBackend::new();
    let dev_fd = b.open_container_device().unwrap();
    let (_, fd1) = open_and_alloc(&mut b, 4096);
    let (_, fd2) = open_and_alloc(&mut b, 4096);

    let cfd = b.merge(dev_fd, &[fd1, fd2]).unwrap();
    // count=2 → valid bits are 0b11. Setting bit 2 (0b100) should fail.
    assert_eq!(b.set_mask(dev_fd, cfd, 0b100), Err(Errno::EINVAL));
}

#[test]
fn container_set_mask_bad_container() {
    let mut b = MockBackend::new();
    let dev_fd = b.open_container_device().unwrap();
    assert_eq!(b.set_mask(dev_fd, 9999, 0), Err(Errno::EBADF));
}

#[test]
fn container_get_mask_bad_container() {
    let mut b = MockBackend::new();
    let dev_fd = b.open_container_device().unwrap();
    assert_eq!(b.get_mask(dev_fd, 9999), Err(Errno::EBADF));
}

#[test]
fn container_close_then_ops_fail() {
    let mut b = MockBackend::new();
    let dev_fd = b.open_container_device().unwrap();
    let (_, fd1) = open_and_alloc(&mut b, 4096);
    let cfd = b.merge(dev_fd, &[fd1]).unwrap();

    b.close_container(cfd).unwrap();
    assert_eq!(b.set_mask(dev_fd, cfd, 0), Err(Errno::EBADF));
    assert_eq!(b.get_mask(dev_fd, cfd), Err(Errno::EBADF));
}

#[test]
fn container_close_preserves_source_bufs() {
    let mut b = MockBackend::new();
    let dev_fd = b.open_container_device().unwrap();
    let (_, fd1) = open_and_alloc(&mut b, 4096);
    let cfd = b.merge(dev_fd, &[fd1]).unwrap();

    b.close_container(cfd).unwrap();
    // Source buffer should still be usable.
    let size = b.llseek(fd1, 0, SEEK_END).unwrap();
    assert_eq!(size, 4096);
}

#[test]
fn container_close_bad_fd() {
    let mut b = MockBackend::new();
    assert_eq!(b.close_container(9999), Err(Errno::EBADF));
}

#[test]
fn container_mmap_fails() {
    let mut b = MockBackend::new();
    let dev_fd = b.open_container_device().unwrap();
    let (_, fd1) = open_and_alloc(&mut b, 4096);
    let cfd = b.merge(dev_fd, &[fd1]).unwrap();

    assert_eq!(b.mmap(cfd, 4096), Err(Errno::EACCES));
}

#[test]
fn container_sync_fails() {
    let mut b = MockBackend::new();
    let dev_fd = b.open_container_device().unwrap();
    let (_, fd1) = open_and_alloc(&mut b, 4096);
    let cfd = b.merge(dev_fd, &[fd1]).unwrap();

    assert_eq!(
        b.sync(cfd, DMA_BUF_SYNC_START | DMA_BUF_SYNC_READ),
        Err(Errno::EINVAL)
    );
}

#[test]
fn container_llseek_fails() {
    let mut b = MockBackend::new();
    let dev_fd = b.open_container_device().unwrap();
    let (_, fd1) = open_and_alloc(&mut b, 4096);
    let cfd = b.merge(dev_fd, &[fd1]).unwrap();

    assert_eq!(b.llseek(cfd, 0, SEEK_END), Err(Errno::EINVAL));
}

#[test]
fn container_flatten_nested() {
    let mut b = MockBackend::new();
    let dev_fd = b.open_container_device().unwrap();
    let (_, fd1) = open_and_alloc(&mut b, 4096);
    let (_, fd2) = open_and_alloc(&mut b, 4096);
    let (_, fd3) = open_and_alloc(&mut b, 4096);

    // Create inner container [fd1, fd2].
    let inner = b.merge(dev_fd, &[fd1, fd2]).unwrap();

    // Merge inner container + fd3 → should flatten to [fd1, fd2, fd3].
    let outer = b.merge(dev_fd, &[inner, fd3]).unwrap();

    // Mask with 3 bits should be valid (count=3 after flatten).
    b.set_mask(dev_fd, outer, 0b111).unwrap();
    assert_eq!(b.get_mask(dev_fd, outer).unwrap(), 0b111);

    // Bit 3 (0b1000) should be invalid.
    assert_eq!(b.set_mask(dev_fd, outer, 0b1000), Err(Errno::EINVAL));
}
