//! Error numbers, flags and request structures of the kernel interface.
use vstd::prelude::*;

verus! {

/// The error numbers that the operations return.
#[derive(Clone, Copy, PartialEq, Eq, Structural, Debug)]
pub enum Errno {
    EPERM,
    ENOENT,
    EIO,
    EBADF,
    ENOMEM,
    EACCES,
    EFAULT,
    ENODEV,
    EINVAL,
    EMFILE,
    ENOTTY,
    ENOSPC,
    Other(i32),
}

/// Access mode of a descriptor: read and write.
pub const O_RDWR: u32 = 2;

/// Close the descriptor when another program is executed.
pub const O_CLOEXEC: u32 = 0x8_0000;

/// The descriptor flags that an allocation accepts.
pub const DMA_HEAP_VALID_FD_FLAGS: u32 = 0x8_0003;

/// The descriptor flags that allocations here use.
pub const DMA_HEAP_ALLOC_FD_FLAGS: u32 = 0x8_0002;

/// The heap flags that an allocation accepts: none.
pub const DMA_HEAP_VALID_HEAP_FLAGS: u64 = 0;

pub const DMA_BUF_SYNC_READ: u64 = 1;

pub const DMA_BUF_SYNC_WRITE: u64 = 2;

pub const DMA_BUF_SYNC_RW: u64 = 3;

pub const DMA_BUF_SYNC_START: u64 = 0;

pub const DMA_BUF_SYNC_END: u64 = 4;

/// All flags that a synchronisation accepts.
pub const DMA_BUF_SYNC_VALID_FLAGS_MASK: u64 = 7;

pub const SEEK_SET: i32 = 0;

pub const SEEK_CUR: i32 = 1;

pub const SEEK_END: i32 = 2;

/// How many buffers a container can hold.
pub const MAX_BUFCON_BUFS: usize = 64;

/// How many descriptors one merge accepts.
pub const MAX_BUFCON_SRC_BUFS: usize = 63;

/// Request for an allocation; the kernel fills in `fd`.
#[derive(Clone, Copy, Debug)]
pub struct DmaHeapAllocationData {
    pub len: u64,
    pub fd: u32,
    pub fd_flags: u32,
    pub heap_flags: u64,
}

impl Default for DmaHeapAllocationData {
    fn default() -> (r: Self)
        ensures
            r == (DmaHeapAllocationData { len: 0, fd: 0, fd_flags: 0, heap_flags: 0 }),
    {
        DmaHeapAllocationData { len: 0, fd: 0, fd_flags: 0, heap_flags: 0 }
    }
}

/// Request for a fence of a buffer; the kernel fills in `fd`.
#[derive(Clone, Copy, Debug)]
pub struct DmaBufExportSyncFile {
    pub flags: u32,
    pub fd: i32,
}

/// Request to add a fence to a buffer.
#[derive(Clone, Copy, Debug)]
pub struct DmaBufImportSyncFile {
    pub flags: u32,
    pub fd: i32,
}

/// Whether the flags name a direction: read, write or both.
pub open spec fn has_direction(flags: u64) -> bool {
    flags & DMA_BUF_SYNC_RW != 0
}

/// Checks that the flags name a direction.
pub fn validate_sync_direction(flags: u64) -> (r: Result<(), Errno>)
    ensures
        r == if has_direction(flags) {
            Ok(())
        } else {
            Err::<(), Errno>(Errno::EINVAL)
        },
{
    if flags & DMA_BUF_SYNC_RW == 0 {
        return Err(Errno::EINVAL);
    }
    Ok(())
}

} // verus!
