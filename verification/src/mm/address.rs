//! Virtual and physical addresses and their split into page number and
//! offset.

use vstd::prelude::*;
use crate::config::{MAX_PPN, PAGE_SIZE};

verus! {

/// An address in some address space.
#[derive(Clone, Copy, Debug, PartialEq, Eq, Structural)]
pub struct VirtAddr(pub usize);

/// An address in physical memory.
#[derive(Clone, Copy, Debug, PartialEq, Eq, Structural)]
pub struct PhysAddr(pub usize);

/// Page number of the page that holds address `a`.
pub open spec fn page_floor(a: int) -> int {
    a / (PAGE_SIZE as int)
}

/// Page number of the first page that starts at or after address `a`.
pub open spec fn page_ceil(a: int) -> int {
    (a + PAGE_SIZE - 1) / (PAGE_SIZE as int)
}

/// Offset of address `a` inside its page.
pub open spec fn page_offset(a: int) -> int {
    a % (PAGE_SIZE as int)
}

impl VirtAddr {
    /// The virtual page that holds this address.
    pub fn floor(&self) -> (vpn: usize)
        ensures
            vpn == page_floor(self.0 as int),
    {
        self.0 / PAGE_SIZE
    }

    /// The first virtual page that starts at or after this address.
    pub fn ceil(&self) -> (vpn: usize)
        ensures
            vpn == page_ceil(self.0 as int),
    {
        if self.0 % PAGE_SIZE == 0 {
            self.0 / PAGE_SIZE
        } else {
            self.0 / PAGE_SIZE + 1
        }
    }

    /// The offset of this address inside its page.
    pub fn page_offset(&self) -> (off: usize)
        ensures
            off == page_offset(self.0 as int),
            off < PAGE_SIZE,
    {
        self.0 % PAGE_SIZE
    }

    /// Whether this address is the first of a page.
    pub fn aligned(&self) -> (b: bool)
        ensures
            b == (page_offset(self.0 as int) == 0),
    {
        self.0 % PAGE_SIZE == 0
    }
}

impl PhysAddr {
    /// The address at offset `offset` in physical page `ppn`.
    pub open spec fn spec_from_ppn_and_offset(ppn: usize, offset: usize) -> PhysAddr {
        PhysAddr((ppn * PAGE_SIZE + offset) as usize)
    }

    /// The address at offset `offset` in physical page `ppn`.
    pub fn from_ppn_and_offset(ppn: usize, offset: usize) -> (pa: PhysAddr)
        requires
            ppn <= MAX_PPN,
            offset < PAGE_SIZE,
        ensures
            pa == Self::spec_from_ppn_and_offset(ppn, offset),
            pa.0 == ppn * PAGE_SIZE + offset,
    {
        PhysAddr(ppn * PAGE_SIZE + offset)
    }
}

} // verus!
