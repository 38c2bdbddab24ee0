//! The allocator of physical frames: a range of never-used frames and a
//! stack of frames that were given back.

use vstd::prelude::*;
use crate::config::MAX_PPN;

verus! {

/// The state of a frame allocator as plain values.
#[verifier::ext_equal]
pub struct FrameState {
    /// Lowest frame that was never handed out.
    pub current: usize,
    /// One past the highest frame the allocator manages.
    pub end: usize,
    /// Frames that were handed out and given back, oldest first.
    pub recycled: Seq<usize>,
}

impl FrameState {
    /// Every frame that can be handed out has an address, and the frames
    /// that were given back are frames that were handed out before, none
    /// of them listed twice.
    pub open spec fn wf(self) -> bool {
        &&& self.current <= self.end
        &&& self.end <= MAX_PPN + 1
        &&& self.recycled.no_duplicates()
        &&& forall|i: int| 0 <= i < self.recycled.len()
            ==> #[trigger] self.recycled[i] < self.current
    }

    /// Whether frame `ppn` was handed out and not given back.
    pub open spec fn in_use(self, ppn: usize) -> bool {
        ppn < self.current && !self.recycled.contains(ppn)
    }

    /// Whether frame `ppn` is among the next `n` frames to be handed out.
    pub open spec fn handed_out(self, n: int, ppn: usize) -> bool {
        exists|j: int| 0 <= j < n && #[trigger] self.nth_frame(j) == ppn
    }

    /// Number of frames that can still be handed out.
    pub open spec fn available(self) -> int {
        self.recycled.len() + (self.end - self.current)
    }

    /// The frame that the `j`-th allocation from now returns: frames that
    /// were given back come first, the one returned last first of all.
    pub open spec fn nth_frame(self, j: int) -> usize {
        if j < self.recycled.len() {
            self.recycled[self.recycled.len() - 1 - j]
        } else {
            (self.current + (j - self.recycled.len())) as usize
        }
    }

    /// The state after `n` allocations.
    pub open spec fn after_alloc(self, n: int) -> FrameState {
        if n < self.recycled.len() {
            FrameState { recycled: self.recycled.take(self.recycled.len() - n), ..self }
        } else {
            FrameState {
                current: (self.current + (n - self.recycled.len())) as usize,
                recycled: Seq::empty(),
                ..self
            }
        }
    }

    /// The state after the frames `ppns` were given back in that order.
    pub open spec fn after_dealloc(self, ppns: Seq<usize>) -> FrameState {
        FrameState { recycled: self.recycled + ppns, ..self }
    }
}

/// A frame that is about to be handed out has an address and is not in use.
pub proof fn lemma_nth_frame(fs: FrameState, j: int)
    requires
        fs.wf(),
        0 <= j < fs.available(),
    ensures
        !fs.in_use(fs.nth_frame(j)),
        fs.nth_frame(j) < fs.end,
        fs.nth_frame(j) <= MAX_PPN,
{
    if j < fs.recycled.len() {
        let i = fs.recycled.len() - 1 - j;
        assert(fs.recycled[i] < fs.current);
        assert(fs.recycled.contains(fs.recycled[i]));
    }
}

/// No frame is handed out twice in a row of allocations.
pub proof fn lemma_nth_frame_distinct(fs: FrameState, i: int, j: int)
    requires
        fs.wf(),
        0 <= i < j < fs.available(),
    ensures
        fs.nth_frame(i) != fs.nth_frame(j),
{
    let len = fs.recycled.len() as int;
    if j < len {
        assert(fs.recycled[len - 1 - i] != fs.recycled[len - 1 - j]);
    } else if i < len {
        assert(fs.recycled[len - 1 - i] < fs.current);
    }
}

/// After `n` allocations exactly the frames that were in use and the frames
/// that were handed out are in use.
pub proof fn lemma_after_alloc(fs: FrameState, n: int)
    requires
        fs.wf(),
        0 <= n <= fs.available(),
    ensures
        fs.after_alloc(n).wf(),
        forall|ppn: usize|
            #[trigger] fs.after_alloc(n).in_use(ppn) <==> fs.in_use(ppn) || fs.handed_out(n, ppn),
{
    let after = fs.after_alloc(n);
    let len = fs.recycled.len() as int;
    assert forall|ppn: usize| #[trigger] after.in_use(ppn) <==> fs.in_use(ppn) || fs.handed_out(
        n,
        ppn,
    ) by {
        if fs.handed_out(n, ppn) {
            let j = choose|j: int| 0 <= j < n && #[trigger] fs.nth_frame(j) == ppn;
            lemma_nth_frame(fs, j);
            if n < len {
                let at = len - 1 - j;
                assert(fs.recycled[at] == ppn);
                if after.recycled.contains(ppn) {
                    let k = choose|k: int| 0 <= k < after.recycled.len()
                        && after.recycled[k] == ppn;
                    assert(fs.recycled[k] == ppn);
                }
            }
        }
        if fs.in_use(ppn) {
            if after.recycled.contains(ppn) {
                let k = choose|k: int| 0 <= k < after.recycled.len() && after.recycled[k] == ppn;
                assert(fs.recycled[k] == ppn);
            }
        }
        if after.in_use(ppn) && !fs.in_use(ppn) {
            if fs.recycled.contains(ppn) {
                let k = choose|k: int| 0 <= k < len && fs.recycled[k] == ppn;
                if n < len && k < len - n {
                    assert(after.recycled[k] == ppn);
                }
                assert(fs.nth_frame(len - 1 - k) == ppn);
            } else {
                assert(fs.nth_frame(len + (ppn - fs.current)) == ppn);
            }
        }
    }
    if n < len {
        assert forall|a: int, b: int|
            0 <= a < after.recycled.len() && 0 <= b < after.recycled.len() && a
                != b implies after.recycled[a] != after.recycled[b] by {
            assert(fs.recycled[a] != fs.recycled[b]);
        }
    }
}

/// After frames that were in use have been given back, exactly the other
/// frames that were in use are in use.
pub proof fn lemma_after_dealloc(fs: FrameState, ppns: Seq<usize>)
    requires
        fs.wf(),
        ppns.no_duplicates(),
        forall|k: int| 0 <= k < ppns.len() ==> fs.in_use(#[trigger] ppns[k]),
    ensures
        fs.after_dealloc(ppns).wf(),
        forall|ppn: usize|
            #[trigger] fs.after_dealloc(ppns).in_use(ppn)
                <==> fs.in_use(ppn) && !ppns.contains(ppn),
{
    let after = fs.after_dealloc(ppns);
    let len = fs.recycled.len() as int;
    assert forall|a: int, b: int|
        0 <= a < after.recycled.len() && 0 <= b < after.recycled.len() && a
            != b implies after.recycled[a] != after.recycled[b] by {
        if a < len && b < len {
            assert(fs.recycled[a] != fs.recycled[b]);
        } else if a >= len && b >= len {
            assert(ppns[a - len] != ppns[b - len]);
        } else if a < len {
            assert(fs.in_use(ppns[b - len]));
            assert(fs.recycled.contains(fs.recycled[a]));
        } else {
            assert(fs.in_use(ppns[a - len]));
            assert(fs.recycled.contains(fs.recycled[b]));
        }
    }
    assert forall|i: int| 0 <= i < after.recycled.len() implies #[trigger] after.recycled[i]
        < after.current by {
        if i >= len {
            assert(fs.in_use(ppns[i - len]));
        }
    }
    assert forall|ppn: usize| #[trigger] after.in_use(ppn) <==> fs.in_use(ppn) && !ppns.contains(
        ppn,
    ) by {
        if fs.recycled.contains(ppn) {
            let k = choose|k: int| 0 <= k < len && fs.recycled[k] == ppn;
            assert(after.recycled[k] == ppn);
        }
        if ppns.contains(ppn) {
            let k = choose|k: int| 0 <= k < ppns.len() && ppns[k] == ppn;
            assert(after.recycled[len + k] == ppn);
        }
        if after.recycled.contains(ppn) {
            let k = choose|k: int| 0 <= k < after.recycled.len() && after.recycled[k] == ppn;
            if k < len {
                assert(fs.recycled[k] == ppn);
            } else {
                assert(ppns[k - len] == ppn);
            }
        }
    }
}

/// Hands out physical page numbers. A frame that was given back is reused
/// before a never-used one is taken, most recently returned first.
pub struct FrameAllocator {
    /// Lowest frame that was never handed out.
    pub current: usize,
    /// One past the highest frame this allocator manages.
    pub end: usize,
    /// Frames that were handed out and given back, oldest first.
    pub recycled: Vec<usize>,
}

impl View for FrameAllocator {
    type V = FrameState;

    open spec fn view(&self) -> FrameState {
        FrameState { current: self.current, end: self.end, recycled: self.recycled@ }
    }
}

impl FrameAllocator {
    /// Every frame this allocator can hand out has an address.
    pub open spec fn wf(&self) -> bool {
        self@.wf()
    }

    /// An allocator over the frames `start..end`.
    pub fn new(start: usize, end: usize) -> (a: FrameAllocator)
        requires
            start <= end <= MAX_PPN + 1,
        ensures
            a.wf(),
            a@ == (FrameState { current: start, end, recycled: Seq::empty() }),
    {
        FrameAllocator { current: start, end, recycled: Vec::new() }
    }

    /// Whether `n` more frames can be handed out.
    pub fn has_frames(&self, n: usize) -> (b: bool)
        requires
            self.wf(),
        ensures
            b == (n <= self@.available()),
    {
        if self.recycled.len() >= n {
            true
        } else {
            n - self.recycled.len() <= self.end - self.current
        }
    }

    /// Takes one frame, or none if all are in use.
    pub fn alloc_frame(&mut self) -> (frame: Option<usize>)
        requires
            old(self).wf(),
        ensures
            final(self).wf(),
            frame is Some <==> old(self)@.available() > 0,
            frame is Some ==> {
                &&& frame->0 == old(self)@.nth_frame(0)
                &&& frame->0 <= MAX_PPN
                &&& final(self)@ == old(self)@.after_alloc(1)
            },
            frame is None ==> *final(self) == *old(self),
    {
        proof {
            if old(self)@.available() > 0 {
                lemma_nth_frame(old(self)@, 0);
                lemma_after_alloc(old(self)@, 1);
            }
        }
        if self.recycled.len() > 0 {
            let ghost before = self.recycled@;
            let frame = self.recycled.pop();
            assert(self.recycled@ =~= before.take(before.len() - 1));
            assert(self@ =~= old(self)@.after_alloc(1));
            frame
        } else if self.current < self.end {
            let frame = self.current;
            self.current = self.current + 1;
            assert(self@ =~= old(self)@.after_alloc(1));
            Some(frame)
        } else {
            None
        }
    }

    /// Takes `n` frames, or none at all if fewer than `n` are free.
    pub fn alloc_many(&mut self, n: usize) -> (frames: Option<Vec<usize>>)
        requires
            old(self).wf(),
        ensures
            final(self).wf(),
            frames is Some <==> n <= old(self)@.available(),
            frames is Some ==> {
                &&& frames->0.len() == n
                &&& forall|j: int| 0 <= j < n ==> #[trigger] frames->0[j] == old(self)@.nth_frame(j)
                &&& forall|j: int| 0 <= j < n ==> #[trigger] frames->0[j] <= MAX_PPN
                &&& final(self)@ == old(self)@.after_alloc(n as int)
            },
            frames is None ==> *final(self) == *old(self),
    {
        if !self.has_frames(n) {
            return None;
        }
        let mut frames: Vec<usize> = Vec::new();
        let mut k: usize = 0;
        assert(self@ =~= old(self)@.after_alloc(0)) by {
            assert(self.recycled@.take(self.recycled@.len() as int) =~= self.recycled@);
        }
        while k < n
            invariant
                k <= n,
                n <= old(self)@.available(),
                old(self).wf(),
                self.wf(),
                frames.len() == k,
                forall|j: int| 0 <= j < k ==> #[trigger] frames[j] == old(self)@.nth_frame(j),
                forall|j: int| 0 <= j < k ==> #[trigger] frames[j] <= MAX_PPN,
                self@ == old(self)@.after_alloc(k as int),
            decreases n - k,
        {
            let ghost mid = self@;
            let frame = self.alloc_frame();
            assert(mid.available() == old(self)@.available() - k);
            let f = frame.unwrap();
            assert(f == old(self)@.nth_frame(k as int));
            assert(self@ =~= old(self)@.after_alloc(k + 1));
            frames.push(f);
            k = k + 1;
        }
        Some(frames)
    }

    /// Gives a frame back that is in use.
    pub fn dealloc_frame(&mut self, ppn: usize)
        requires
            old(self).wf(),
            old(self)@.in_use(ppn),
        ensures
            final(self).wf(),
            final(self)@ == old(self)@.after_dealloc(seq![ppn]),
    {
        proof {
            lemma_after_dealloc(old(self)@, seq![ppn]);
        }
        self.recycled.push(ppn);
        assert(self@ =~= old(self)@.after_dealloc(seq![ppn]));
    }

    /// Whether frame `ppn` is in use.
    pub fn is_in_use(&self, ppn: usize) -> (b: bool)
        ensures
            b == self@.in_use(ppn),
    {
        if ppn >= self.current {
            return false;
        }
        let n = self.recycled.len();
        let mut i: usize = 0;
        while i < n
            invariant
                i <= n,
                n == self.recycled.len(),
                forall|j: int| 0 <= j < i ==> self.recycled@[j] != ppn,
            decreases n - i,
        {
            if self.recycled[i] == ppn {
                return false;
            }
            i = i + 1;
        }
        true
    }

    /// A copy of this allocator.
    pub fn duplicate(&self) -> (a: FrameAllocator)
        ensures
            a@ == self@,
    {
        let mut recycled: Vec<usize> = Vec::new();
        let n = self.recycled.len();
        let mut i: usize = 0;
        while i < n
            invariant
                i <= n,
                n == self.recycled.len(),
                recycled@ == self.recycled@.take(i as int),
            decreases n - i,
        {
            recycled.push(self.recycled[i]);
            assert(recycled@ =~= self.recycled@.take(i + 1));
            i = i + 1;
        }
        assert(recycled@ =~= self.recycled@);
        FrameAllocator { current: self.current, end: self.end, recycled }
    }
}

} // verus!
