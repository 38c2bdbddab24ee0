//! The system calls. Each takes the kernel state and the raw arguments of
//! the call, and returns what the caller gets back: a negative number says
//! that the call failed.

pub mod sync;
pub mod fs;
pub mod process;
