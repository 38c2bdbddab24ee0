//! An address space: which virtual pages are mapped, to which physical frame
//! and with which permissions.

use vstd::prelude::*;
use crate::config::{MAX_PPN, PERM_R, PERM_U, PERM_W, PERM_X};
use crate::mm::frame_allocator::{
    lemma_after_alloc, lemma_after_dealloc, lemma_nth_frame, lemma_nth_frame_distinct,
    FrameAllocator, FrameState,
};

verus! {

/// What a mapped virtual page translates to.
#[derive(Clone, Copy, Debug, PartialEq, Eq, Structural)]
pub struct PageEntry {
    /// The physical frame behind the page.
    pub ppn: usize,
    /// The permission bits of the page.
    pub perm: u8,
}

/// One mapped page of an address space.
#[derive(Clone, Copy, Debug, PartialEq, Eq, Structural)]
pub struct PageMapping {
    /// The virtual page.
    pub vpn: usize,
    /// The physical frame behind it.
    pub ppn: usize,
    /// Its permission bits.
    pub perm: u8,
}

/// Whether some mapping in `s` is for page `vpn`.
pub open spec fn mapped_at(s: Seq<PageMapping>, vpn: usize) -> bool {
    exists|i: int| 0 <= i < s.len() && (#[trigger] s[i]).vpn == vpn
}

/// The place in `s` of the mapping for page `vpn`.
pub open spec fn index_of(s: Seq<PageMapping>, vpn: usize) -> int {
    choose|i: int| 0 <= i < s.len() && (#[trigger] s[i]).vpn == vpn
}

/// No page is mapped twice in `s`.
pub open spec fn distinct_pages(s: Seq<PageMapping>) -> bool {
    forall|i: int, j: int| 0 <= i < j < s.len() ==> (#[trigger] s[i]).vpn != (#[trigger] s[j]).vpn
}

/// The translation that the mappings in `s` define.
pub open spec fn mappings_view(s: Seq<PageMapping>) -> Map<usize, PageEntry> {
    Map::new(
        |vpn: usize| mapped_at(s, vpn),
        |vpn: usize| PageEntry { ppn: s[index_of(s, vpn)].ppn, perm: s[index_of(s, vpn)].perm },
    )
}

/// The translation `m` with the pages `start..end` added, the `j`-th of them
/// backed by the `j`-th frame that `frames` hands out.
pub open spec fn map_range(
    m: Map<usize, PageEntry>,
    start: usize,
    end: usize,
    perm: u8,
    frames: FrameState,
) -> Map<usize, PageEntry> {
    Map::new(
        |vpn: usize| m.contains_key(vpn) || start <= vpn < end,
        |vpn: usize|
            if start <= vpn < end {
                PageEntry { ppn: frames.nth_frame(vpn - start), perm }
            } else {
                m[vpn]
            },
    )
}

/// The translation `m` without the pages `start..end`.
pub open spec fn unmap_range(m: Map<usize, PageEntry>, start: usize, end: usize) -> Map<
    usize,
    PageEntry,
> {
    Map::new(|vpn: usize| m.contains_key(vpn) && !(start <= vpn < end), |vpn: usize| m[vpn])
}

/// No page of `start..end` is mapped in `m`.
pub open spec fn range_free(m: Map<usize, PageEntry>, start: usize, end: usize) -> bool {
    forall|vpn: usize| start <= vpn < end ==> !m.contains_key(vpn)
}

/// Every page of `start..end` is mapped in `m`.
pub open spec fn range_mapped(m: Map<usize, PageEntry>, start: usize, end: usize) -> bool {
    forall|vpn: usize| start <= vpn < end ==> m.contains_key(vpn)
}

/// The frames behind the pages `start..end` of `m`, in page order.
pub open spec fn range_frames(m: Map<usize, PageEntry>, start: usize, end: usize) -> Seq<usize> {
    Seq::new(
        if start <= end { (end - start) as nat } else { 0 },
        |j: int| m[(start + j) as usize].ppn,
    )
}

/// In a sequence without repeated pages, the mapping found at `i` is the
/// mapping of its page.
pub proof fn lemma_index_unique(s: Seq<PageMapping>, i: int)
    requires
        distinct_pages(s),
        0 <= i < s.len(),
    ensures
        mapped_at(s, s[i].vpn),
        index_of(s, s[i].vpn) == i,
        mappings_view(s).contains_key(s[i].vpn),
        mappings_view(s)[s[i].vpn] == (PageEntry { ppn: s[i].ppn, perm: s[i].perm }),
{
    let k = index_of(s, s[i].vpn);
    assert(0 <= k < s.len() && s[k].vpn == s[i].vpn);
    if k < i {
        assert(s[k].vpn != s[i].vpn);
    } else if i < k {
        assert(s[i].vpn != s[k].vpn);
    }
}

/// Appending a mapping for an unmapped page adds exactly that page.
pub proof fn lemma_push_mapping(s: Seq<PageMapping>, m: PageMapping)
    requires
        distinct_pages(s),
        !mapped_at(s, m.vpn),
    ensures
        distinct_pages(s.push(m)),
        mappings_view(s.push(m)) == mappings_view(s).insert(
            m.vpn,
            PageEntry { ppn: m.ppn, perm: m.perm },
        ),
{
    let t = s.push(m);
    assert forall|i: int, j: int| 0 <= i < j < t.len() implies (#[trigger] t[i]).vpn != (
    #[trigger] t[j]).vpn by {
        if j == s.len() {
            assert(s[i].vpn != m.vpn);
        } else {
            assert(s[i].vpn != s[j].vpn);
        }
    }
    let lhs = mappings_view(t);
    let rhs = mappings_view(s).insert(m.vpn, PageEntry { ppn: m.ppn, perm: m.perm });
    assert forall|vpn: usize| lhs.contains_key(vpn) <==> rhs.contains_key(vpn) by {
        if lhs.contains_key(vpn) {
            let k = index_of(t, vpn);
            assert(t[k].vpn == vpn);
            if k < s.len() {
                assert(s[k].vpn == vpn);
            }
        }
        if rhs.contains_key(vpn) {
            if vpn == m.vpn {
                assert(t[s.len() as int].vpn == vpn);
            } else {
                let k = index_of(s, vpn);
                assert(t[k].vpn == vpn);
            }
        }
    }
    assert forall|vpn: usize| lhs.contains_key(vpn) implies lhs[vpn] == rhs[vpn] by {
        let k = index_of(t, vpn);
        assert(t[k].vpn == vpn);
        lemma_index_unique(t, k);
        if k < s.len() {
            assert(s[k] == t[k]);
            lemma_index_unique(s, k);
        }
    }
    assert(lhs =~= rhs);
}

/// Taking the mapping at `i` away removes exactly its page.
pub proof fn lemma_remove_mapping(s: Seq<PageMapping>, i: int)
    requires
        distinct_pages(s),
        0 <= i < s.len(),
    ensures
        distinct_pages(s.remove(i)),
        mappings_view(s.remove(i)) == mappings_view(s).remove(s[i].vpn),
{
    let t = s.remove(i);
    assert forall|a: int, b: int| 0 <= a < b < t.len() implies (#[trigger] t[a]).vpn != (
    #[trigger] t[b]).vpn by {
        let a2 = if a < i { a } else { a + 1 };
        let b2 = if b < i { b } else { b + 1 };
        assert(t[a] == s[a2]);
        assert(t[b] == s[b2]);
        assert(s[a2].vpn != s[b2].vpn);
    }
    let lhs = mappings_view(t);
    let rhs = mappings_view(s).remove(s[i].vpn);
    assert forall|vpn: usize| lhs.contains_key(vpn) <==> rhs.contains_key(vpn) by {
        if lhs.contains_key(vpn) {
            let k = index_of(t, vpn);
            let k2 = if k < i { k } else { k + 1 };
            assert(t[k] == s[k2]);
            assert(s[k2].vpn == vpn);
            if vpn == s[i].vpn {
                lemma_index_unique(s, i);
                lemma_index_unique(s, k2);
            }
        }
        if rhs.contains_key(vpn) {
            let k = index_of(s, vpn);
            assert(s[k].vpn == vpn);
            assert(k != i);
            let k2 = if k < i { k } else { k - 1 };
            assert(t[k2] == s[k]);
        }
    }
    assert forall|vpn: usize| lhs.contains_key(vpn) implies lhs[vpn] == rhs[vpn] by {
        let k = index_of(t, vpn);
        let k2 = if k < i { k } else { k + 1 };
        assert(t[k] == s[k2]);
        lemma_index_unique(t, k);
        lemma_index_unique(s, k2);
    }
    assert(lhs =~= rhs);
}

/// Whether `bits`, as a user asks for them, name at least one of read,
/// write and execute and nothing else.
pub open spec fn valid_user_perm(bits: usize) -> bool {
    0 < bits <= 7
}

/// The permission bits of a user page that was asked for with `bits`: read,
/// write and execute moved into place, and user access.
pub open spec fn user_perm(bits: usize) -> u8 {
    (2 * bits + PERM_U) as u8
}

/// Checks the permission bits that a user asks for and moves them into
/// place: bit 0 stands for read, bit 1 for write and bit 2 for execute.
pub fn user_perm_of(bits: usize) -> (r: Option<u8>)
    ensures
        r is Some <==> valid_user_perm(bits),
        r is Some ==> r->0 == user_perm(bits),
{
    if 0 < bits && bits <= 7 {
        Some((2 * bits) as u8 + PERM_U)
    } else {
        None
    }
}

/// An asked-for permission moved into place has the user bit and, of read,
/// write and execute, exactly the bits that were asked for.
pub proof fn lemma_user_perm_bits(bits: usize)
    requires
        valid_user_perm(bits),
    ensures
        user_perm(bits) & PERM_U == PERM_U,
        (user_perm(bits) & PERM_R != 0) == (bits & 1 != 0),
        (user_perm(bits) & PERM_W != 0) == (bits & 2 != 0),
        (user_perm(bits) & PERM_X != 0) == (bits & 4 != 0),
        user_perm(bits) & 1 == 0,
{
    let p = user_perm(bits);
    assert(p == 2 * bits + 16);
    assert(0 < bits <= 7 && p == 2 * bits + 16 ==> p & 16 == 16 && ((p & 2 != 0) == (bits & 1 != 0))
        && ((p & 4 != 0) == (bits & 2 != 0)) && ((p & 8 != 0) == (bits & 4 != 0)) && p & 1 == 0)
        by (bit_vector);
}

/// An address space.
pub struct MemorySet {
    /// Identifies this address space among all others.
    pub token: usize,
    /// The mapped pages, in the order in which they were mapped.
    pub pages: Vec<PageMapping>,
}

impl View for MemorySet {
    type V = Map<usize, PageEntry>;

    open spec fn view(&self) -> Map<usize, PageEntry> {
        mappings_view(self.pages@)
    }
}

impl MemorySet {
    /// Every page is mapped at most once, to a frame that has an address.
    pub open spec fn wf(&self) -> bool {
        &&& distinct_pages(self.pages@)
        &&& forall|i: int| 0 <= i < self.pages.len() ==> (#[trigger] self.pages[i]).ppn <= MAX_PPN
    }

    /// Whether some page is mapped to frame `ppn`.
    pub open spec fn has_frame(&self, ppn: usize) -> bool {
        exists|i: int| 0 <= i < self.pages.len() && (#[trigger] self.pages[i]).ppn == ppn
    }

    /// Whether the frames behind the pages are frames that `frames` has
    /// handed out and not got back, each behind one page only.
    pub open spec fn owned_by(&self, frames: FrameState) -> bool {
        &&& forall|i: int| 0 <= i < self.pages.len()
            ==> frames.in_use((#[trigger] self.pages[i]).ppn)
        &&& forall|i: int, j: int|
            0 <= i < j < self.pages.len() ==> (#[trigger] self.pages[i]).ppn != (
            #[trigger] self.pages[j]).ppn
    }

    /// An address space with nothing mapped.
    pub fn new(token: usize) -> (ms: MemorySet)
        ensures
            ms.wf(),
            ms.token == token,
            ms@ == Map::<usize, PageEntry>::empty(),
            ms.pages@ == Seq::<PageMapping>::empty(),
    {
        let ms = MemorySet { token, pages: Vec::new() };
        assert(ms@ =~= Map::<usize, PageEntry>::empty());
        ms
    }

    /// Where in `pages` the mapping for `vpn` stands.
    fn find(&self, vpn: usize) -> (r: Option<usize>)
        requires
            self.wf(),
        ensures
            r is Some <==> self@.contains_key(vpn),
            r is Some ==> r->0 < self.pages.len() && self.pages[r->0 as int].vpn == vpn,
    {
        let n = self.pages.len();
        let mut i: usize = 0;
        while i < n
            invariant
                i <= n,
                n == self.pages.len(),
                forall|j: int| 0 <= j < i ==> (#[trigger] self.pages[j]).vpn != vpn,
            decreases n - i,
        {
            if self.pages[i].vpn == vpn {
                return Some(i);
            }
            i = i + 1;
        }
        None
    }

    /// Walks the page table for `vpn`.
    pub fn translate(&self, vpn: usize) -> (r: Option<PageEntry>)
        requires
            self.wf(),
        ensures
            r is Some <==> self@.contains_key(vpn),
            r is Some ==> r->0 == self@[vpn] && r->0.ppn <= MAX_PPN,
    {
        match self.find(vpn) {
            Some(i) => {
                proof {
                    lemma_index_unique(self.pages@, i as int);
                }
                Some(PageEntry { ppn: self.pages[i].ppn, perm: self.pages[i].perm })
            },
            None => None,
        }
    }

    /// Whether no page of `start..end` is mapped.
    pub fn range_is_free(&self, start: usize, end: usize) -> (b: bool)
        requires
            self.wf(),
        ensures
            b == range_free(self@, start, end),
    {
        let mut v: usize = start;
        while v < end
            invariant
                self.wf(),
                start <= v,
                forall|w: usize| start <= w < v ==> !self@.contains_key(w),
            decreases end - v,
        {
            if self.find(v).is_some() {
                return false;
            }
            v = v + 1;
        }
        true
    }

    /// Whether every page of `start..end` is mapped.
    pub fn range_is_mapped(&self, start: usize, end: usize) -> (b: bool)
        requires
            self.wf(),
        ensures
            b == range_mapped(self@, start, end),
    {
        let mut v: usize = start;
        while v < end
            invariant
                self.wf(),
                start <= v,
                forall|w: usize| start <= w < v ==> self@.contains_key(w),
            decreases end - v,
        {
            if self.find(v).is_none() {
                return false;
            }
            v = v + 1;
        }
        true
    }

    /// Maps the pages `start..end` with permissions `perm`, each to a frame
    /// of its own that was not in use. Either all of them are mapped or
    /// nothing changes: the call fails if one of the pages is mapped already
    /// or if there are not enough free frames.
    pub fn map_region(
        &mut self,
        start: usize,
        end: usize,
        perm: u8,
        frames: &mut FrameAllocator,
    ) -> (ok: bool)
        requires
            old(self).wf(),
            old(frames).wf(),
            old(self).owned_by(old(frames)@),
        ensures
            final(self).wf(),
            final(frames).wf(),
            final(self).owned_by(final(frames)@),
            final(self).token == old(self).token,
            ok <==> start >= end || (range_free(old(self)@, start, end) && end - start <= old(
                frames,
            )@.available()),
            ok && start < end ==> {
                &&& final(self)@ == map_range(old(self)@, start, end, perm, old(frames)@)
                &&& final(frames)@ == old(frames)@.after_alloc(end - start)
            },
            !ok || start >= end ==> *final(self) == *old(self) && *final(frames) == *old(frames),
            forall|ppn: usize| old(frames)@.in_use(ppn) ==> final(frames)@.in_use(ppn),
            forall|ppn: usize|
                #[trigger] final(self).has_frame(ppn) ==> old(self).has_frame(ppn) || !old(
                    frames,
                )@.in_use(ppn),
    {
        if start >= end {
            return true;
        }
        if !self.range_is_free(start, end) {
            return false;
        }
        let n: usize = end - start;
        let got = frames.alloc_many(n);
        match got {
            None => false,
            Some(fs) => {
                let mut k: usize = 0;
                let ghost first = self.pages@;
                assert(self@ =~= map_range(old(self)@, start, start, perm, old(frames)@));
                while k < n
                    invariant
                        k <= n,
                        n == end - start,
                        start < end,
                        fs.len() == n,
                        forall|j: int| 0 <= j < n ==> #[trigger] fs[j] == old(frames)@.nth_frame(j),
                        forall|j: int| 0 <= j < n ==> #[trigger] fs[j] <= MAX_PPN,
                        first == old(self).pages@,
                        self.pages.len() == first.len() + k,
                        forall|j: int| 0 <= j < first.len()
                            ==> #[trigger] self.pages[j] == first[j],
                        forall|j: int| 0 <= j < k
                            ==> (#[trigger] self.pages[first.len() + j]).ppn == fs[j],
                        distinct_pages(self.pages@),
                        forall|i: int| 0 <= i < self.pages.len()
                            ==> (#[trigger] self.pages[i]).ppn <= MAX_PPN,
                        self.token == old(self).token,
                        range_free(old(self)@, start, end),
                        self@ == map_range(
                            old(self)@,
                            start,
                            (start + k) as usize,
                            perm,
                            old(frames)@,
                        ),
                    decreases n - k,
                {
                    let m = PageMapping { vpn: start + k, ppn: fs[k], perm };
                    proof {
                        assert(!self@.contains_key(m.vpn));
                        lemma_push_mapping(self.pages@, m);
                    }
                    self.pages.push(m);
                    assert(self@ =~= map_range(
                        old(self)@,
                        start,
                        (start + k + 1) as usize,
                        perm,
                        old(frames)@,
                    ));
                    k = k + 1;
                }
                proof {
                    let before = old(frames)@;
                    lemma_after_alloc(before, n as int);
                    assert forall|i: int| 0 <= i < self.pages.len() implies frames@.in_use(
                        (#[trigger] self.pages[i]).ppn,
                    ) by {
                        if i < first.len() {
                            assert(self.pages[i] == first[i]);
                            assert(before.in_use(first[i].ppn));
                        } else {
                            let j = i - first.len();
                            assert(self.pages[first.len() + j].ppn == fs[j]);
                            assert(before.nth_frame(j) == self.pages[i].ppn);
                            assert(before.handed_out(n as int, self.pages[i].ppn));
                        }
                    }
                    assert forall|i: int, j: int| 0 <= i < j < self.pages.len() implies (
                    #[trigger] self.pages[i]).ppn != (#[trigger] self.pages[j]).ppn by {
                        if j < first.len() {
                            assert(self.pages[i] == first[i] && self.pages[j] == first[j]);
                        } else if i < first.len() {
                            assert(self.pages[i] == first[i]);
                            assert(before.in_use(first[i].ppn));
                            let b = j - first.len();
                            assert(self.pages[first.len() + b].ppn == fs[b]);
                            lemma_nth_frame(before, b);
                        } else {
                            let a = i - first.len();
                            let b = j - first.len();
                            assert(self.pages[first.len() + a].ppn == fs[a]);
                            assert(self.pages[first.len() + b].ppn == fs[b]);
                            lemma_nth_frame_distinct(before, a, b);
                        }
                    }
                    assert forall|ppn: usize| #[trigger] self.has_frame(ppn) implies old(
                        self,
                    ).has_frame(ppn) || !before.in_use(ppn) by {
                        let i = choose|i: int|
                            0 <= i < self.pages.len() && (#[trigger] self.pages[i]).ppn == ppn;
                        if i < first.len() {
                            assert(first[i].ppn == ppn);
                        } else {
                            let b = i - first.len();
                            assert(self.pages[first.len() + b].ppn == fs[b]);
                            lemma_nth_frame(before, b);
                        }
                    }
                }
                true
            },
        }
    }

    /// Unmaps the pages `start..end` and gives their frames back, in page
    /// order. Either all of them are unmapped or nothing changes: the call
    /// fails if one of the pages is not mapped.
    pub fn unmap_region(&mut self, start: usize, end: usize, frames: &mut FrameAllocator) -> (ok:
        bool)
        requires
            old(self).wf(),
            old(frames).wf(),
            old(self).owned_by(old(frames)@),
        ensures
            final(self).wf(),
            final(frames).wf(),
            final(self).owned_by(final(frames)@),
            final(self).token == old(self).token,
            ok <==> range_mapped(old(self)@, start, end),
            ok ==> {
                &&& final(self)@ == unmap_range(old(self)@, start, end)
                &&& final(frames)@ == old(frames)@.after_dealloc(
                    range_frames(old(self)@, start, end),
                )
            },
            !ok ==> *final(self) == *old(self) && *final(frames) == *old(frames),
            forall|ppn: usize|
                old(frames)@.in_use(ppn) && !old(self).has_frame(ppn)
                    ==> final(frames)@.in_use(ppn),
            forall|ppn: usize| #[trigger] final(self).has_frame(ppn) ==> old(self).has_frame(ppn),
    {
        if start >= end {
            assert(self@ =~= unmap_range(self@, start, end));
            assert(frames@ =~= frames@.after_dealloc(range_frames(self@, start, end)));
            return true;
        }
        if !self.range_is_mapped(start, end) {
            return false;
        }
        let mut v: usize = start;
        assert(self@ =~= unmap_range(old(self)@, start, start));
        assert(frames@ =~= old(frames)@.after_dealloc(range_frames(old(self)@, start, start)));
        while v < end
            invariant
                start <= v <= end,
                self.wf(),
                frames.wf(),
                self.owned_by(frames@),
                self.token == old(self).token,
                range_mapped(old(self)@, start, end),
                self@ == unmap_range(old(self)@, start, v),
                frames@ == old(frames)@.after_dealloc(range_frames(old(self)@, start, v)),
                forall|ppn: usize|
                    old(frames)@.in_use(ppn) && !old(self).has_frame(ppn) ==> frames@.in_use(ppn),
                forall|ppn: usize| #[trigger] self.has_frame(ppn) ==> old(self).has_frame(ppn),
            decreases end - v,
        {
            let found = self.find(v);
            assert(old(self)@.contains_key(v));
            let i = found.unwrap();
            let ghost prev = frames@;
            let ghost pages = self.pages@;
            let ghost prev_self = *self;
            proof {
                lemma_index_unique(self.pages@, i as int);
                lemma_remove_mapping(self.pages@, i as int);
                lemma_after_dealloc(prev, seq![pages[i as int].ppn]);
                assert(self.has_frame(pages[i as int].ppn));
            }
            let gone = self.pages.remove(i);
            frames.dealloc_frame(gone.ppn);
            proof {
                assert forall|a: int| 0 <= a < self.pages.len() implies (#[trigger] self.pages[a])
                    == pages[if a < i { a } else { a + 1 }] by {}
                assert forall|a: int| 0 <= a < self.pages.len() implies frames@.in_use(
                    (#[trigger] self.pages[a]).ppn,
                ) by {
                    let a2 = if a < i { a } else { a + 1 };
                    assert(self.pages[a] == pages[a2]);
                    assert(pages[a2].ppn != pages[i as int].ppn);
                    assert(prev.in_use(pages[a2].ppn));
                    assert(!seq![gone.ppn].contains(pages[a2].ppn));
                }
                assert forall|a: int, b: int| 0 <= a < b < self.pages.len() implies (
                #[trigger] self.pages[a]).ppn != (#[trigger] self.pages[b]).ppn by {
                    let a2 = if a < i { a } else { a + 1 };
                    let b2 = if b < i { b } else { b + 1 };
                    assert(self.pages[a] == pages[a2] && self.pages[b] == pages[b2]);
                }
                assert forall|ppn: usize| #[trigger] self.has_frame(ppn) implies old(
                    self,
                ).has_frame(ppn) by {
                    let a = choose|a: int|
                        0 <= a < self.pages.len() && (#[trigger] self.pages[a]).ppn == ppn;
                    let a2 = if a < i { a } else { a + 1 };
                    assert(prev_self.pages[a2].ppn == ppn);
                    assert(prev_self.has_frame(ppn));
                }
                assert forall|ppn: usize|
                    old(frames)@.in_use(ppn) && !old(self).has_frame(ppn) implies frames@.in_use(
                    ppn,
                ) by {
                    assert(prev.in_use(ppn));
                    if seq![gone.ppn].contains(ppn) {
                        assert(ppn == gone.ppn);
                    }
                }
            }
            assert(self@ =~= unmap_range(old(self)@, start, (v + 1) as usize));
            assert(frames@ =~= old(frames)@.after_dealloc(
                range_frames(old(self)@, start, (v + 1) as usize),
            ));
            v = v + 1;
        }
        true
    }

    /// The frames behind `pages`, last mapped first.
    pub open spec fn frames_of(pages: Seq<PageMapping>) -> Seq<usize> {
        Seq::new(pages.len(), |j: int| pages[pages.len() - 1 - j].ppn)
    }

    /// Unmaps every page and gives the frames back, last mapped first.
    pub fn release_all(&mut self, frames: &mut FrameAllocator)
        requires
            old(self).wf(),
            old(frames).wf(),
            old(self).owned_by(old(frames)@),
        ensures
            final(self).wf(),
            final(frames).wf(),
            final(self).token == old(self).token,
            final(self)@ == Map::<usize, PageEntry>::empty(),
            final(self).pages@ == Seq::<PageMapping>::empty(),
            final(frames)@ == old(frames)@.after_dealloc(Self::frames_of(old(self).pages@)),
            forall|ppn: usize|
                old(frames)@.in_use(ppn) && !old(self).has_frame(ppn)
                    ==> final(frames)@.in_use(ppn),
    {
        let ghost all = self.pages@;
        assert(frames@ =~= old(frames)@.after_dealloc(Self::frames_of(all.skip(all.len() as int))));
        while self.pages.len() > 0
            invariant
                all == old(self).pages@,
                old(self).wf(),
                old(self).owned_by(old(frames)@),
                frames.wf(),
                self.owned_by(frames@),
                self.token == old(self).token,
                self.pages.len() <= all.len(),
                self.pages@ == all.take(self.pages.len() as int),
                frames@ == old(frames)@.after_dealloc(
                    Self::frames_of(all.skip(self.pages.len() as int)),
                ),
                forall|ppn: usize|
                    old(frames)@.in_use(ppn) && !old(self).has_frame(ppn) ==> frames@.in_use(ppn),
            decreases self.pages.len(),
        {
            let ghost before = self.pages.len();
            let ghost prev = frames@;
            let ghost pages = self.pages@;
            let gone = self.pages.pop().unwrap();
            assert(gone == all[before - 1]);
            assert(gone == pages[before - 1]);
            proof {
                lemma_after_dealloc(prev, seq![gone.ppn]);
            }
            frames.dealloc_frame(gone.ppn);
            assert(self.pages@ =~= all.take(before - 1));
            assert(frames@ =~= old(frames)@.after_dealloc(Self::frames_of(all.skip(before - 1))));
            proof {
                assert forall|a: int| 0 <= a < self.pages.len() implies frames@.in_use(
                    (#[trigger] self.pages[a]).ppn,
                ) by {
                    assert(self.pages[a] == pages[a]);
                    assert(pages[a].ppn != pages[before - 1].ppn);
                    assert(prev.in_use(pages[a].ppn));
                    assert(!seq![gone.ppn].contains(pages[a].ppn));
                }
                assert forall|a: int, b: int| 0 <= a < b < self.pages.len() implies (
                #[trigger] self.pages[a]).ppn != (#[trigger] self.pages[b]).ppn by {
                    assert(self.pages[a] == pages[a] && self.pages[b] == pages[b]);
                }
                assert forall|ppn: usize|
                    old(frames)@.in_use(ppn) && !old(self).has_frame(ppn) implies frames@.in_use(
                    ppn,
                ) by {
                    assert(prev.in_use(ppn));
                    if seq![gone.ppn].contains(ppn) {
                        assert(all[before - 1].ppn == ppn);
                    }
                }
            }
        }
        assert(all.skip(0) =~= all);
        assert(self@ =~= Map::<usize, PageEntry>::empty());
        assert(self.pages@ =~= Seq::<PageMapping>::empty());
    }
}

/// Mapping a free range and unmapping it again leaves the translation as it
/// was.
pub proof fn lemma_map_unmap_round_trip(
    m: Map<usize, PageEntry>,
    start: usize,
    end: usize,
    perm: u8,
    frames: FrameState,
)
    requires
        range_free(m, start, end),
    ensures
        range_mapped(map_range(m, start, end, perm, frames), start, end),
        unmap_range(map_range(m, start, end, perm, frames), start, end) == m,
{
    assert(unmap_range(map_range(m, start, end, perm, frames), start, end) =~= m);
}

} // verus!
