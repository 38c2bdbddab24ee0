//! Mutexes, semaphores and condition variables, and the ledger that the
//! deadlock detector keeps of them.

pub mod deadlock;
pub mod safety;
pub mod primitives;
