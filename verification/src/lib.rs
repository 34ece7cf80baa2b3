//! The virtual file system layer and the process system calls of a small teaching kernel.
pub mod block;
pub mod config;
pub mod dirent;
pub mod efs;
pub mod file_laws;
pub mod fs_laws;
pub mod handle;
pub mod image;
pub mod layout;
pub mod mm;
pub mod process;
pub mod process_laws;
pub mod syscall_laws;
pub mod task;
pub mod vfs;
