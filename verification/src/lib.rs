//! The system calls of a small teaching kernel and the virtual-file-system layer of its
//! file system, easy-fs, with their contracts.
pub mod vfs;
pub mod blocks;
pub mod file;
pub mod table;
pub mod task;
pub mod mm;
pub mod syscall;
pub mod laws;
