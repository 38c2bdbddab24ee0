//! Constants of the kernel.

use vstd::prelude::*;

verus! {

/// Bytes in a page.
pub const PAGE_SIZE: usize = 4096;

/// Highest physical page number whose last byte still has an address.
pub const MAX_PPN: usize = 0xF_FFFF;

/// Number of system call identifiers that are counted per task.
pub const MAX_SYSCALL_NUM: usize = 500;

/// The stride that a task of priority 1 would advance by on each dispatch.
pub const BIG_STRIDE: isize = 888888;

/// Priority of a freshly created task.
pub const DEFAULT_PRIORITY: isize = 16;

/// Smallest priority a task may be given.
pub const MIN_PRIORITY: isize = 2;

/// Returned by a blocking acquisition that the deadlock detector refuses.
pub const DEADLOCK_REFUSED: isize = -0xdead;

/// Permission bit: the page may be read.
pub const PERM_R: u8 = 2;

/// Permission bit: the page may be written.
pub const PERM_W: u8 = 4;

/// Permission bit: the page may be executed.
pub const PERM_X: u8 = 8;

/// Permission bit: the page is accessible from user mode.
pub const PERM_U: u8 = 16;

/// A table of handles never grows beyond this many slots, so that every
/// handle can be returned as a signed number.
pub const MAX_HANDLES: usize = 0x7FFF_FFFF;

/// The program break never moves beyond this address, so that it can be
/// returned as a signed number.
pub const MAX_BRK: usize = 0x7FFF_FFFF;

/// Pages of the user stack of a freshly loaded program.
pub const USER_STACK_PAGES: usize = 2;

/// Microseconds in a second.
pub const MICRO_PER_SEC: usize = 1_000_000;

} // verus!
