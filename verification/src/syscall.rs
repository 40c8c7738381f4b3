//! The system calls, each over the parts of the current process it reads and changes.
pub mod sync;
pub mod process;
pub mod fs;
