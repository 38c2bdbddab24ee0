//! Translation of the pointers that a task hands to the kernel. Every
//! access is translated on its own: a structure or a buffer in user memory
//! may lie across a page boundary, and the pages need not be neighbours in
//! physical memory.

use vstd::prelude::*;
use crate::config::PAGE_SIZE;
use crate::mm::address::{PhysAddr, VirtAddr};
use crate::mm::memory_set::{MemorySet, PageEntry};

verus! {

/// The physical address behind virtual address `va` in the translation `m`,
/// if the page of `va` is mapped.
pub open spec fn translate_addr(m: Map<usize, PageEntry>, va: int) -> Option<PhysAddr> {
    let vpn = (va / PAGE_SIZE as int) as usize;
    if 0 <= va <= usize::MAX && m.contains_key(vpn) {
        Some(PhysAddr((m[vpn].ppn * PAGE_SIZE + va % (PAGE_SIZE as int)) as usize))
    } else {
        None
    }
}

/// A piece of a user buffer that lies in one physical page.
#[derive(Clone, Copy, Debug, PartialEq, Eq, Structural)]
pub struct Segment {
    /// Where the piece starts in physical memory.
    pub pa: PhysAddr,
    /// How many bytes it has.
    pub len: usize,
}

/// Number of pages that the `len` bytes from `ptr` touch.
pub open spec fn pages_touched(ptr: int, len: int) -> int {
    if len <= 0 {
        0
    } else {
        (ptr + len - 1) / (PAGE_SIZE as int) - ptr / (PAGE_SIZE as int) + 1
    }
}

/// Where the part of the buffer at `ptr` that lies in the `k`-th page it
/// touches starts.
pub open spec fn piece_start(ptr: int, k: int) -> int {
    if k == 0 {
        ptr
    } else {
        (ptr / (PAGE_SIZE as int) + k) * PAGE_SIZE
    }
}

/// Where the part of the `len` bytes from `ptr` that lies in the `k`-th
/// page they touch ends.
pub open spec fn piece_end(ptr: int, len: int, k: int) -> int {
    let page_end = (ptr / (PAGE_SIZE as int) + k + 1) * PAGE_SIZE;
    if page_end < ptr + len {
        page_end
    } else {
        ptr + len
    }
}

/// A value to be stored in user memory, with the physical address of each
/// of its fields.
pub struct UserWrite<T> {
    /// What to store.
    pub value: T,
    /// Where each field goes, in the order of the fields.
    pub addrs: Vec<PhysAddr>,
}

impl MemorySet {
    /// Translates one virtual address.
    pub fn translate_va(&self, va: VirtAddr) -> (pa: Option<PhysAddr>)
        requires
            self.wf(),
        ensures
            pa == translate_addr(self@, va.0 as int),
    {
        match self.translate(va.floor()) {
            Some(entry) => Some(PhysAddr::from_ppn_and_offset(entry.ppn, va.page_offset())),
            None => None,
        }
    }

    /// Translates the address of each field of a structure at `base` whose
    /// fields stand at `offsets`. Fails if a field has no address or its
    /// page is not mapped.
    pub fn translate_fields(&self, base: usize, offsets: &Vec<usize>) -> (r: Option<Vec<PhysAddr>>)
        requires
            self.wf(),
        ensures
            r is Some <==> forall|i: int|
                0 <= i < offsets.len() ==> translate_addr(self@, base + #[trigger] offsets[i])
                    is Some,
            r is Some ==> r->0.len() == offsets.len() && forall|i: int|
                0 <= i < offsets.len() ==> Some(#[trigger] r->0[i]) == translate_addr(
                    self@,
                    base + offsets[i],
                ),
    {
        let n = offsets.len();
        let mut addrs: Vec<PhysAddr> = Vec::new();
        let mut i: usize = 0;
        while i < n
            invariant
                i <= n,
                n == offsets.len(),
                self.wf(),
                addrs.len() == i,
                forall|j: int|
                    0 <= j < i ==> Some(#[trigger] addrs[j]) == translate_addr(
                        self@,
                        base + offsets[j],
                    ),
            decreases n - i,
        {
            let va = match base.checked_add(offsets[i]) {
                Some(va) => va,
                None => {
                    assert(translate_addr(self@, base + offsets[i as int]) is None);
                    return None;
                },
            };
            match self.translate_va(VirtAddr(va)) {
                Some(pa) => {
                    addrs.push(pa);
                },
                None => {
                    assert(translate_addr(self@, base + offsets[i as int]) is None);
                    return None;
                },
            }
            i = i + 1;
        }
        assert forall|i: int| 0 <= i < offsets.len() implies translate_addr(
            self@,
            base + #[trigger] offsets[i],
        ) is Some by {
            assert(Some(addrs[i]) == translate_addr(self@, base + offsets[i]));
        }
        Some(addrs)
    }

    /// Splits the `len` bytes at `ptr` into the pieces that lie in one page
    /// each and translates the start of each piece. Fails if the buffer
    /// runs past the last address or touches a page that is not mapped.
    pub fn translated_byte_buffer(&self, ptr: usize, len: usize) -> (r: Option<Vec<Segment>>)
        requires
            self.wf(),
        ensures
            r is Some <==> ptr + len <= usize::MAX && forall|k: int|
                0 <= k < pages_touched(ptr as int, len as int) ==> translate_addr(
                    self@,
                    #[trigger] piece_start(ptr as int, k),
                ) is Some,
            r is Some ==> {
                &&& r->0.len() == pages_touched(ptr as int, len as int)
                &&& forall|k: int|
                    0 <= k < r->0.len() ==> {
                        &&& Some((#[trigger] r->0[k]).pa) == translate_addr(
                            self@,
                            piece_start(ptr as int, k),
                        )
                        &&& r->0[k].len == piece_end(ptr as int, len as int, k) - piece_start(
                            ptr as int,
                            k,
                        )
                    }
            },
    {
        let end = match ptr.checked_add(len) {
            Some(end) => end,
            None => {
                return None;
            },
        };
        let mut segments: Vec<Segment> = Vec::new();
        if len == 0 {
            return Some(segments);
        }
        let first_page: usize = ptr / PAGE_SIZE;
        let last_page: usize = (end - 1) / PAGE_SIZE;
        let mut k: usize = 0;
        let mut start: usize = ptr;
        while first_page + k <= last_page
            invariant
                self.wf(),
                len > 0,
                end == ptr + len,
                first_page == ptr / PAGE_SIZE,
                last_page == (end - 1) / (PAGE_SIZE as int),
                first_page <= last_page,
                first_page + k <= last_page + 1,
                segments.len() == k,
                first_page + k <= last_page ==> start == piece_start(ptr as int, k as int) && start
                    < end && start / PAGE_SIZE == first_page + k,
                forall|j: int|
                    0 <= j < k ==> {
                        &&& Some((#[trigger] segments[j]).pa) == translate_addr(
                            self@,
                            piece_start(ptr as int, j),
                        )
                        &&& segments[j].len == piece_end(ptr as int, len as int, j) - piece_start(
                            ptr as int,
                            j,
                        )
                    },
            decreases last_page + 1 - (first_page + k),
        {
            let page = first_page + k;
            let stop: usize = if page < last_page {
                (page + 1) * PAGE_SIZE
            } else {
                end
            };
            assert(stop == piece_end(ptr as int, len as int, k as int));
            match self.translate_va(VirtAddr(start)) {
                Some(pa) => {
                    segments.push(Segment { pa, len: stop - start });
                },
                None => {
                    assert(translate_addr(self@, piece_start(ptr as int, k as int)) is None);
                    return None;
                },
            }
            start = stop;
            k = k + 1;
        }
        assert forall|j: int| 0 <= j < pages_touched(ptr as int, len as int) implies translate_addr(
            self@,
            #[trigger] piece_start(ptr as int, j),
        ) is Some by {
            assert(Some(segments[j].pa) == translate_addr(self@, piece_start(ptr as int, j)));
        }
        Some(segments)
    }
}

} // verus!
