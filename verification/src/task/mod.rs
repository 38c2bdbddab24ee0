//! Tasks, the processes that own them, and the scheduler.

pub mod control_block;
pub mod kernel;
pub mod manager;
pub mod process;
pub mod slots;
