//! The core of a small multitasking kernel, as a state machine over plain
//! values: address translation and memory regions, a stride scheduler,
//! process lifecycle, synchronisation primitives with an optional
//! Banker's-algorithm deadlock detector, and the system calls on top of them.
//!
//! Nothing here touches hardware. A system call takes the kernel state,
//! decides, and leaves behind the new state together with whatever has to be
//! done outside (bytes to store at a physical address, a file to read from).

pub mod config;
pub mod mm;
pub mod task;
pub mod sync;
pub mod syscall;
