//! Building the address space of a program from the layout of its image.
//! The image itself is read and taken apart outside; what arrives here is
//! the list of its segments and its entry point.

use vstd::prelude::*;
use crate::config::{MAX_BRK, PAGE_SIZE, PERM_R, PERM_U, PERM_W, USER_STACK_PAGES};
use crate::mm::frame_allocator::{FrameAllocator, FrameState};
use crate::mm::memory_set::{map_range, range_free, MemorySet, PageEntry};

verus! {

/// One segment of a program image: the pages `start_vpn..end_vpn` with
/// permissions `perm`.
#[derive(Clone, Copy, Debug, PartialEq, Eq, Structural)]
pub struct ImageSegment {
    /// First page of the segment.
    pub start_vpn: usize,
    /// One past the last page of the segment.
    pub end_vpn: usize,
    /// Permission bits of the pages.
    pub perm: u8,
}

/// The layout of a program image.
pub struct ProgramImage {
    /// The segments, in the order in which they are mapped.
    pub segments: Vec<ImageSegment>,
    /// The address at which the program starts.
    pub entry: usize,
}

/// A translation and the frames that are left beside it.
pub struct LoadState {
    /// The translation.
    pub map: Map<usize, PageEntry>,
    /// The state of the frame allocator.
    pub frames: FrameState,
}

/// An address space that was built for a program.
pub struct LoadedProgram {
    /// The address space.
    pub memory_set: MemorySet,
    /// The initial stack pointer, where the heap starts too.
    pub user_sp: usize,
}

/// The translation and the frames after the segments `segs[i..]` were
/// mapped one after another, starting from `m` and `frames`; nothing if one
/// of them overlaps what is mapped by then or finds too few free frames. A
/// segment without pages is passed over.
pub open spec fn load_from(
    m: Map<usize, PageEntry>,
    frames: FrameState,
    segs: Seq<ImageSegment>,
    i: int,
) -> Option<LoadState>
    decreases segs.len() - i,
{
    if i < 0 || i >= segs.len() {
        Some(LoadState { map: m, frames })
    } else {
        let s = segs[i];
        if s.start_vpn >= s.end_vpn {
            load_from(m, frames, segs, i + 1)
        } else if range_free(m, s.start_vpn, s.end_vpn) && s.end_vpn - s.start_vpn
            <= frames.available() {
            load_from(
                map_range(m, s.start_vpn, s.end_vpn, s.perm, frames),
                frames.after_alloc(s.end_vpn - s.start_vpn),
                segs,
                i + 1,
            )
        } else {
            None
        }
    }
}

/// One past the highest page of the first `n` segments, or 0 without
/// segments.
pub open spec fn top_page(segs: Seq<ImageSegment>, n: int) -> int
    decreases n,
{
    if n <= 0 {
        0
    } else {
        let below = top_page(segs, n - 1);
        if segs[n - 1].end_vpn > below {
            segs[n - 1].end_vpn as int
        } else {
            below
        }
    }
}

/// First page of the user stack: one unmapped page above the image.
pub open spec fn stack_start(segs: Seq<ImageSegment>) -> int {
    top_page(segs, segs.len() as int) + 1
}

/// One past the last page of the user stack.
pub open spec fn stack_end(segs: Seq<ImageSegment>) -> int {
    stack_start(segs) + USER_STACK_PAGES
}

/// The initial stack pointer: the address just above the user stack. The
/// heap starts there.
pub open spec fn user_sp(segs: Seq<ImageSegment>) -> int {
    stack_end(segs) * PAGE_SIZE
}

/// The translation and the frames after an image with segments `segs` was
/// loaded into an empty address space with the frames `frames`: the
/// segments, then the user stack, readable and writable. Nothing if the
/// stack would end beyond the highest address a break may have, or a
/// segment or the stack cannot be mapped.
pub open spec fn load_image(frames: FrameState, segs: Seq<ImageSegment>) -> Option<LoadState> {
    if user_sp(segs) > MAX_BRK {
        None
    } else {
        match load_from(Map::empty(), frames, segs, 0) {
            None => None,
            Some(LoadState { map: m, frames: f }) => {
                if range_free(m, stack_start(segs) as usize, stack_end(segs) as usize)
                    && USER_STACK_PAGES <= f.available() {
                    Some(
                        LoadState {
                            map: map_range(
                                m,
                                stack_start(segs) as usize,
                                stack_end(segs) as usize,
                                PERM_R | PERM_W | PERM_U,
                                f,
                            ),
                            frames: f.after_alloc(USER_STACK_PAGES as int),
                        },
                    )
                } else {
                    None
                }
            },
        }
    }
}

/// One past the highest page of the segments of `image`, unless that is
/// beyond the pages a break may lie in.
fn find_top(image: &ProgramImage) -> (r: Option<usize>)
    ensures
        r is Some
            <==> top_page(image.segments@, image.segments.len() as int) <= MAX_BRK / PAGE_SIZE,
        r is Some ==> r->0 == top_page(image.segments@, image.segments.len() as int),
{
    let n = image.segments.len();
    let limit: usize = MAX_BRK / PAGE_SIZE;
    let mut top: usize = 0;
    let mut i: usize = 0;
    while i < n
        invariant
            i <= n,
            n == image.segments.len(),
            limit == MAX_BRK / PAGE_SIZE,
            top == top_page(image.segments@, i as int),
            top <= limit,
        decreases n - i,
    {
        let end = image.segments[i].end_vpn;
        if end > top {
            if end > limit {
                proof {
                    lemma_top_page_grows(image.segments@, i + 1, n as int);
                }
                return None;
            }
            top = end;
        }
        i = i + 1;
    }
    Some(top)
}

/// The highest page of more segments is not lower.
pub proof fn lemma_top_page_grows(segs: Seq<ImageSegment>, a: int, b: int)
    requires
        0 <= a <= b,
    ensures
        top_page(segs, a) <= top_page(segs, b),
    decreases b - a,
{
    if a < b {
        lemma_top_page_grows(segs, a, b - 1);
    }
}

impl MemorySet {
    /// Builds the address space with token `token` of a program with the
    /// layout `image`, taking frames from `frames`. Returns the address
    /// space and the initial stack pointer, or nothing if the image cannot
    /// be loaded; what `frames` holds is then of no use any more.
    pub fn load_image(token: usize, image: &ProgramImage, frames: &mut FrameAllocator) -> (r:
        Option<LoadedProgram>)
        requires
            old(frames).wf(),
        ensures
            final(frames).wf(),
            r is Some <==> load_image(old(frames)@, image.segments@) is Some,
            r is Some ==> {
                &&& r->0.memory_set.wf()
                &&& r->0.memory_set.token == token
                &&& r->0.memory_set@ == load_image(old(frames)@, image.segments@)->0.map
                &&& final(frames)@ == load_image(old(frames)@, image.segments@)->0.frames
                &&& r->0.user_sp == user_sp(image.segments@)
                &&& r->0.user_sp <= MAX_BRK
                &&& r->0.memory_set.owned_by(final(frames)@)
                &&& forall|ppn: usize| old(frames)@.in_use(ppn) ==> final(frames)@.in_use(ppn)
                &&& forall|ppn: usize|
                    #[trigger] r->0.memory_set.has_frame(ppn) ==> !old(frames)@.in_use(ppn)
            },
    {
        let top = match find_top(image) {
            Some(top) => top,
            None => {
                return None;
            },
        };
        let first_stack: usize = top + 1;
        let last_stack: usize = first_stack + USER_STACK_PAGES;
        if last_stack > MAX_BRK / PAGE_SIZE {
            return None;
        }
        let sp: usize = last_stack * PAGE_SIZE;
        let mut ms = MemorySet::new(token);
        let n = image.segments.len();
        let mut i: usize = 0;
        while i < n
            invariant
                i <= n,
                n == image.segments.len(),
                ms.wf(),
                ms.token == token,
                frames.wf(),
                ms.owned_by(frames@),
                forall|ppn: usize| old(frames)@.in_use(ppn) ==> frames@.in_use(ppn),
                forall|ppn: usize| #[trigger] ms.has_frame(ppn) ==> !old(frames)@.in_use(ppn),
                load_from(Map::empty(), old(frames)@, image.segments@, 0) == load_from(
                    ms@,
                    frames@,
                    image.segments@,
                    i as int,
                ),
            decreases n - i,
        {
            let s = image.segments[i];
            if !ms.map_region(s.start_vpn, s.end_vpn, s.perm, frames) {
                return None;
            }
            i = i + 1;
        }
        if !ms.map_region(first_stack, last_stack, PERM_R | PERM_W | PERM_U, frames) {
            return None;
        }
        Some(LoadedProgram { memory_set: ms, user_sp: sp })
    }
}

} // verus!
