//! What a driver is asked to do, what is refused before it is asked, and what is made of
//! its replies.
use dhp::backend::driver::{Driver, RealBackend, Request};
use dhp::backend::ioctl::{Errno, SEEK_CUR, SEEK_END};
use dhp::backend::model::Mapping;
use dhp::backend::protocol::{ContainerBackend, DmaBufBackend, HeapBackend, Pattern, Reply};
use dhp::workload::pools::run_stream;

/// A driver that notes what it is asked, and gives prepared replies; then it fails.
struct Scripted {
    asked: Vec<String>,
    replies: Vec<Reply>,
}

impl Driver for Scripted {
    fn call(&mut self, request: Request) -> Reply {
        self.asked.push(format!("{request:?}"));
        if self.replies.is_empty() {
            Reply::Failed(Errno::ENODEV)
        } else {
            self.replies.remove(0)
        }
    }
}

fn scripted(replies: &[Reply]) -> RealBackend<Scripted> {
    RealBackend::new(Scripted { asked: Vec::new(), replies: replies.to_vec() })
}

#[test]
fn calls_are_handed_on_with_their_arguments() {
    let mut b = scripted(&[
        Reply::Fd(3),
        Reply::Fd(4),
        Reply::Done,
        Reply::Offset(4096),
        Reply::Fd(5),
        Reply::Done,
        Reply::Fd(6),
        Reply::Fd(7),
        Reply::Fd(8),
        Reply::Done,
        Reply::Mask(5),
    ]);
    assert_eq!(b.open("system"), Ok(3));
    assert_eq!(b.allocate(3, 4096, 2, 1), Ok(4));
    assert_eq!(b.sync(4, 3), Ok(()));
    assert_eq!(b.llseek(4, 0, SEEK_END), Ok(4096));
    assert_eq!(b.export_sync_file(4, 2), Ok(5));
    assert_eq!(b.import_sync_file(4, 1, 5), Ok(()));
    assert_eq!(b.dup(4), Ok(6));
    assert_eq!(b.open_container_device(), Ok(7));
    assert_eq!(b.merge(7, &[4, 6]), Ok(8));
    assert_eq!(b.set_mask(7, 8, 5), Ok(()));
    assert_eq!(b.get_mask(7, 8), Ok(5));
    assert_eq!(
        b.driver.asked,
        [
            "Open { path: \"/dev/dma_heap/system\" }",
            "Allocate { heap: 3, len: 4096, fd_flags: 2, heap_flags: 1 }",
            "Sync { fd: 4, flags: 3 }",
            "Seek { fd: 4, offset: 0, whence: 2 }",
            "Export { fd: 4, flags: 2 }",
            "Import { fd: 4, flags: 1, fence: 5 }",
            "Dup { fd: 4 }",
            "OpenDevice",
            "Merge { device: 7, fds: [4, 6] }",
            "SetMask { device: 7, container: 8, mask: 5 }",
            "GetMask { device: 7, container: 8 }",
        ]
    );
    assert_eq!(b.open.len(), 6);
}

#[test]
fn some_calls_are_refused_and_no_driver_is_asked() {
    let mut b = scripted(&[]);
    assert_eq!(b.open("sys\0tem"), Err(Errno::EINVAL));
    assert!(matches!(b.mmap(3, 0), Err(Errno::EINVAL)));
    assert_eq!(b.llseek(3, 0, SEEK_CUR), Err(Errno::EINVAL));
    let mapping = Mapping { store: 0, len: 4096 };
    assert_eq!(b.fill(mapping, 4095, 2, Pattern::Same(1)), Err(Errno::EFAULT));
    assert_eq!(b.holds(mapping, 4097, 0, Pattern::Same(1)), Err(Errno::EFAULT));
    assert!(b.driver.asked.is_empty());
    assert_eq!(b.fill(mapping, 4095, 1, Pattern::Same(1)), Err(Errno::ENODEV));
    assert_eq!(b.driver.asked.len(), 1);
}

#[test]
fn what_cannot_be_closed_is_gone_all_the_same() {
    let mut b = scripted(&[Reply::Fd(3), Reply::Fd(4)]);
    assert_eq!(b.open("system"), Ok(3));
    assert_eq!(b.allocate(3, 4096, 2, 0), Ok(4));
    assert_eq!(b.open.len(), 2);
    // A buffer is not closed as a heap.
    assert_eq!(b.close_heap(4), Err(Errno::ENODEV));
    assert_eq!(b.open.len(), 2);
    assert_eq!(b.close(4), Err(Errno::ENODEV));
    assert_eq!(b.close_heap(3), Err(Errno::ENODEV));
    assert!(b.open.is_empty());
    assert_eq!(b.driver.asked.last().unwrap(), "Close { fd: 3 }");
}

#[test]
fn replies_of_the_wrong_kind_are_errors() {
    let mut b = scripted(&[Reply::Done, Reply::Truth(true), Reply::Fd(9), Reply::Mask(1)]);
    assert_eq!(b.open("system"), Err(Errno::EIO));
    assert_eq!(b.sync(4, 1), Err(Errno::EIO));
    assert!(matches!(b.mmap(4, 4096), Err(Errno::EIO)));
    assert_eq!(b.llseek(4, 0, SEEK_END), Err(Errno::EIO));
    assert!(b.open.is_empty());
}

#[test]
fn a_stream_leaves_nothing_open_where_closing_fails() {
    let mut b = scripted(&[Reply::Fd(3), Reply::Fd(4)]);
    let run = run_stream(&mut b, "system", 4096, 1, 1);
    assert_eq!(run.result, Err(Errno::ENODEV));
    assert!(b.open.is_empty());
    let closed: Vec<&String> =
        b.driver.asked.iter().filter(|s| s.starts_with("Close")).collect();
    assert_eq!(closed.len(), 2);
}
