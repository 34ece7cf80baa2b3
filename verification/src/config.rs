//! Sizes and limits that the file system and the kernel agree on.
use vstd::prelude::*;

verus! {

/// Bytes in a disk block.
pub const BLOCK_SZ: usize = 512;

/// Bytes that a disk inode takes up in the inode area.
pub const DISK_INODE_SZ: usize = 128;

/// Disk inodes in one block of the inode area.
pub const INODES_PER_BLOCK: u32 = 4;

/// Bytes in a directory entry.
pub const DIRENT_SZ: usize = 32;

/// Bytes of a directory entry that hold the name and the zero bytes behind it.
pub const NAME_FIELD_SZ: usize = 28;

/// The longest name, in bytes, that a directory entry can hold.
pub const NAME_LENGTH_LIMIT: usize = 27;

/// Bytes in a page of memory.
pub const PAGE_SIZE: usize = 4096;

/// What a task's stride is taken from: a task of priority `p` advances by `BIG_STRIDE / p`.
pub const BIG_STRIDE: u64 = 1048576;

/// The priority that a new task starts with.
pub const DEFAULT_PRIORITY: u64 = 16;

/// The pid of the first task, which takes over the children of tasks that exit.
pub const INIT_PID: usize = 0;

/// Number of system calls that are counted for each task.
pub const MAX_SYSCALL_NUM: usize = 500;

} // verus!
