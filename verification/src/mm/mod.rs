//! Virtual memory: addresses, physical frames, address spaces and the
//! translation of user pointers.

pub mod address;
pub mod frame_allocator;
pub mod memory_set;
pub mod loader;
pub mod user_access;
