//! The state of the whole kernel, and the steps of the scheduler on it.
//!
//! A task is owned by the place where it waits: the ready queue, the
//! processor, or the list of blocked tasks. Processes live in a table whose
//! slot numbers are the process identifiers.

use vstd::prelude::*;
use std::collections::VecDeque;
use crate::config::{MAX_HANDLES, MAX_PPN};
use crate::mm::frame_allocator::{lemma_nth_frame, FrameAllocator, FrameState};
use crate::mm::memory_set::{index_of, lemma_index_unique, MemorySet, PageEntry, PageMapping};
use crate::sync::primitives::Acquire;
use crate::task::control_block::{TaskControlBlock, TaskStatus, TrapContext};
use crate::task::manager::{min_index, TaskManager};
use crate::task::process::{FileDescriptor, ProcessControlBlock};
use crate::task::slots::{find_empty_slot, first_empty_slot, put_slot, slot_replaced};

verus! {

/// Whether slot `pid` of the process table holds a process.
pub open spec fn live(procs: Seq<Option<ProcessControlBlock>>, pid: int) -> bool {
    0 <= pid < procs.len() && procs[pid] is Some
}

/// Whether the children that process `p` lists are distinct processes other
/// than `p` that exist and name `p` as their parent.
pub open spec fn children_ok(procs: Seq<Option<ProcessControlBlock>>, p: int) -> bool {
    let cs = procs[p]->0.children@;
    &&& cs.no_duplicates()
    &&& forall|k: int|
        0 <= k < cs.len() ==> {
            &&& live(procs, (#[trigger] cs[k]) as int)
            &&& cs[k] != p
            &&& procs[cs[k] as int]->0.parent == Some(p as usize)
        }
}

/// Whether the lists of children of all processes are in order.
pub open spec fn tree_ok(procs: Seq<Option<ProcessControlBlock>>) -> bool {
    forall|p: int| live(procs, p) ==> #[trigger] children_ok(procs, p)
}

/// Whether every process is well formed and stands in the slot of its
/// identifier.
pub open spec fn procs_wf(procs: Seq<Option<ProcessControlBlock>>) -> bool {
    forall|p: int|
        0 <= p < procs.len() && (#[trigger] procs[p]) is Some ==> {
            &&& procs[p]->0.wf()
            &&& procs[p]->0.pid == p
        }
}

/// Whether the frames behind the pages of every process are frames that
/// `frames` has handed out and not got back, each behind one page only.
pub open spec fn frames_owned(procs: Seq<Option<ProcessControlBlock>>, frames: FrameState) -> bool {
    forall|p: int|
        0 <= p < procs.len() && (#[trigger] procs[p]) is Some ==> procs[p]->0.memory_set.owned_by(
            frames,
        )
}

/// Whether no frame lies behind pages of two processes.
pub open spec fn frames_apart(procs: Seq<Option<ProcessControlBlock>>) -> bool {
    forall|p: int, q: int, ppn: usize|
        0 <= p < procs.len() && 0 <= q < procs.len() && p != q && procs[p] is Some && procs[q]
            is Some ==> !(#[trigger] procs[p]->0.memory_set.has_frame(ppn)
            && #[trigger] procs[q]->0.memory_set.has_frame(ppn))
}

/// Address spaces with the same pages have the same frames.
pub proof fn lemma_same_pages(a: MemorySet, b: MemorySet)
    requires
        a.pages@ == b.pages@,
    ensures
        forall|ppn: usize| #[trigger] a.has_frame(ppn) <==> b.has_frame(ppn),
        forall|frames: FrameState| #[trigger] a.owned_by(frames) <==> b.owned_by(frames),
{
    assert forall|ppn: usize| #[trigger] a.has_frame(ppn) <==> b.has_frame(ppn) by {
        if a.has_frame(ppn) {
            let i = choose|i: int| 0 <= i < a.pages.len() && (#[trigger] a.pages[i]).ppn == ppn;
            assert(b.pages[i] == a.pages@[i]);
        }
        if b.has_frame(ppn) {
            let i = choose|i: int| 0 <= i < b.pages.len() && (#[trigger] b.pages[i]).ppn == ppn;
            assert(a.pages[i] == b.pages@[i]);
        }
    }
    assert forall|frames: FrameState| #[trigger] a.owned_by(frames) <==> b.owned_by(frames) by {
        if a.owned_by(frames) {
            assert forall|i: int| 0 <= i < b.pages.len() implies frames.in_use(
                (#[trigger] b.pages[i]).ppn,
            ) by {
                assert(b.pages[i] == a.pages@[i]);
                assert(frames.in_use(a.pages[i].ppn));
            }
            assert forall|i: int, j: int| 0 <= i < j < b.pages.len() implies (
            #[trigger] b.pages[i]).ppn != (#[trigger] b.pages[j]).ppn by {
                assert(b.pages[i] == a.pages@[i] && b.pages[j] == a.pages@[j]);
                assert(a.pages[i].ppn != a.pages[j].ppn);
            }
        }
        if b.owned_by(frames) {
            assert forall|i: int| 0 <= i < a.pages.len() implies frames.in_use(
                (#[trigger] a.pages[i]).ppn,
            ) by {
                assert(a.pages[i] == b.pages@[i]);
                assert(frames.in_use(b.pages[i].ppn));
            }
            assert forall|i: int, j: int| 0 <= i < j < a.pages.len() implies (
            #[trigger] a.pages[i]).ppn != (#[trigger] a.pages[j]).ppn by {
                assert(a.pages[i] == b.pages@[i] && a.pages[j] == b.pages@[j]);
                assert(b.pages[i].ppn != b.pages[j].ppn);
            }
        }
    }
}

/// A process that changes its address space keeps the frames of all
/// processes in order if the frames it takes were not in use and the frames
/// it gives up are its own, while the other processes keep their pages.
pub proof fn lemma_frames_after_change(
    before: Seq<Option<ProcessControlBlock>>,
    after: Seq<Option<ProcessControlBlock>>,
    pid: int,
    frames: FrameState,
    frames_after: FrameState,
)
    requires
        frames_owned(before, frames),
        frames_apart(before),
        live(after, pid),
        forall|q: int|
            0 <= q < after.len() && q != pid && (#[trigger] after[q]) is Some ==> q < before.len()
                && before[q] is Some && after[q]->0.memory_set.pages@
                == before[q]->0.memory_set.pages@,
        after[pid]->0.memory_set.owned_by(frames_after),
        forall|ppn: usize|
            frames.in_use(ppn) && !(live(before, pid) && before[pid]->0.memory_set.has_frame(ppn))
                ==> #[trigger] frames_after.in_use(ppn),
        forall|ppn: usize|
            #[trigger] after[pid]->0.memory_set.has_frame(ppn) ==> (live(before, pid)
                && before[pid]->0.memory_set.has_frame(ppn)) || !frames.in_use(ppn),
    ensures
        frames_owned(after, frames_after),
        frames_apart(after),
{
    assert forall|p: int| 0 <= p < after.len() && (#[trigger] after[p]) is Some
        implies after[p]->0.memory_set.owned_by(
        frames_after,
    ) by {
        if p != pid {
            let ms = before[p]->0.memory_set;
            lemma_same_pages(after[p]->0.memory_set, ms);
            assert(ms.owned_by(frames));
            assert forall|i: int| 0 <= i < ms.pages.len() implies frames_after.in_use(
                (#[trigger] ms.pages[i]).ppn,
            ) by {
                assert(ms.has_frame(ms.pages[i].ppn));
                if live(before, pid) {
                    assert(!(before[p]->0.memory_set.has_frame(ms.pages[i].ppn)
                        && before[pid]->0.memory_set.has_frame(ms.pages[i].ppn)));
                }
            }
            assert(ms.owned_by(frames_after));
        }
    }
    assert forall|p: int, q: int, ppn: usize|
        0 <= p < after.len() && 0 <= q < after.len() && p != q && after[p] is Some && after[q]
            is Some implies !(#[trigger] after[p]->0.memory_set.has_frame(ppn)
        && #[trigger] after[q]->0.memory_set.has_frame(ppn)) by {
        if after[p]->0.memory_set.has_frame(ppn) && after[q]->0.memory_set.has_frame(ppn) {
            if p != pid && q != pid {
                lemma_same_pages(after[p]->0.memory_set, before[p]->0.memory_set);
                lemma_same_pages(after[q]->0.memory_set, before[q]->0.memory_set);
                assert(!(before[p]->0.memory_set.has_frame(ppn)
                    && before[q]->0.memory_set.has_frame(ppn)));
            } else {
                let other = if p == pid { q } else { p };
                let ms = before[other]->0.memory_set;
                lemma_same_pages(after[other]->0.memory_set, ms);
                assert(ms.owned_by(frames));
                let i = choose|i: int| 0 <= i < ms.pages.len()
                    && (#[trigger] ms.pages[i]).ppn == ppn;
                assert(frames.in_use(ms.pages[i].ppn));
                if live(before, pid) {
                    assert(!(before[other]->0.memory_set.has_frame(ppn)
                        && before[pid]->0.memory_set.has_frame(ppn)));
                }
            }
        }
    }
}

/// Whether `t` is a thread of a process that exists and has not exited.
pub open spec fn valid_task(procs: Seq<Option<ProcessControlBlock>>, t: TaskControlBlock) -> bool {
    &&& live(procs, t.pid as int)
    &&& !procs[t.pid as int]->0.is_zombie
    &&& t.tid < procs[t.pid as int]->0.thread_count
}

/// Whether `i` is the place of the first task of process `pid` and thread
/// `tid` in `s`.
pub open spec fn is_first_task(s: Seq<TaskControlBlock>, pid: usize, tid: usize, i: int) -> bool {
    &&& 0 <= i < s.len()
    &&& s[i].pid == pid && s[i].tid == tid
    &&& forall|j: int| 0 <= j < i ==> !((#[trigger] s[j]).pid == pid && s[j].tid == tid)
}

/// Whether `s` holds a task of process `pid` and thread `tid`.
pub open spec fn has_task(s: Seq<TaskControlBlock>, pid: usize, tid: usize) -> bool {
    exists|i: int| 0 <= i < s.len() && (#[trigger] s[i]).pid == pid && s[i].tid == tid
}

/// The place of the first task of process `pid` and thread `tid` in `s`.
pub open spec fn task_index(s: Seq<TaskControlBlock>, pid: usize, tid: usize) -> int {
    choose|i: int| is_first_task(s, pid, tid, i)
}

/// Only one place is that of the first task of a process and thread.
pub proof fn lemma_first_task_unique(s: Seq<TaskControlBlock>, pid: usize, tid: usize, i: int)
    requires
        is_first_task(s, pid, tid, i),
    ensures
        task_index(s, pid, tid) == i,
        has_task(s, pid, tid),
{
    let k = task_index(s, pid, tid);
    assert(is_first_task(s, pid, tid, k));
    if k < i {
        assert(!(s[k].pid == pid && s[k].tid == tid));
    } else if i < k {
        assert(!(s[i].pid == pid && s[i].tid == tid));
    }
}

/// A process table whose processes kept their places, children and parents
/// keeps its lists of children in order.
pub proof fn lemma_tree_frame(
    before: Seq<Option<ProcessControlBlock>>,
    after: Seq<Option<ProcessControlBlock>>,
)
    requires
        tree_ok(before),
        after.len() == before.len(),
        forall|p: int| 0 <= p < before.len()
            ==> ((#[trigger] after[p]) is Some <==> before[p] is Some),
        forall|p: int|
            0 <= p < before.len() && (#[trigger] after[p]) is Some ==> after[p]->0.children@
                == before[p]->0.children@ && after[p]->0.parent == before[p]->0.parent,
    ensures
        tree_ok(after),
{
    assert forall|p: int| live(after, p) implies #[trigger] children_ok(after, p) by {
        assert(live(before, p));
        assert(children_ok(before, p));
        let cs = after[p]->0.children@;
        assert forall|k: int| 0 <= k < cs.len() implies {
            &&& live(after, (#[trigger] cs[k]) as int)
            &&& cs[k] != p
            &&& after[cs[k] as int]->0.parent == Some(p as usize)
        } by {
            let c = cs[k] as int;
            assert(live(before, c));
            assert(after[c] is Some);
        }
    }
}

/// The tasks that do not belong to process `pid`.
pub open spec fn other_process(pid: usize) -> spec_fn(TaskControlBlock) -> bool {
    |t: TaskControlBlock| t.pid != pid
}

/// Whether `q` is among the first `k` entries of `s`.
pub open spec fn in_prefix(s: Seq<usize>, k: int, q: int) -> bool {
    exists|j: int| 0 <= j < k && j < s.len() && #[trigger] s[j] == q
}

/// Takes every task of process `pid` out of `queue` and keeps the others in
/// their order.
pub fn drop_tasks_of(queue: &mut VecDeque<TaskControlBlock>, pid: usize)
    ensures
        final(queue)@ == old(queue)@.filter(other_process(pid)),
{
    let ghost all = queue@;
    let ghost keep = other_process(pid);
    let ghost mut j: int = 0;
    let mut i: usize = 0;
    assert(all.take(0).filter(keep) =~= Seq::<TaskControlBlock>::empty()) by {
        reveal(Seq::filter);
    }
    assert(queue@ =~= all.take(0).filter(keep) + all.skip(0));
    while i < queue.len()
        invariant
            all == old(queue)@,
            keep == other_process(pid),
            0 <= j <= all.len(),
            i == all.take(j).filter(keep).len(),
            queue@ == all.take(j).filter(keep) + all.skip(j),
        decreases all.len() - j,
    {
        assert(j < all.len());
        assert(queue@[i as int] == all[j]);
        proof {
            all.take(j).lemma_filter_push(all[j], keep);
            assert(all.take(j + 1) =~= all.take(j).push(all[j]));
        }
        if queue[i].pid == pid {
            let gone = queue.remove(i);
            assert(queue@ =~= all.take(j + 1).filter(keep) + all.skip(j + 1));
        } else {
            assert(queue@ =~= all.take(j + 1).filter(keep) + all.skip(j + 1));
            i = i + 1;
        }
        proof {
            j = j + 1;
        }
    }
    assert(all.take(all.len() as int) =~= all);
}

/// Whether `after` is `before` once the children of process `pid` have
/// passed to `fb`: the process lists no children any more, each former
/// child names `fb` as its parent, and `fb`, if there is one, lists them
/// after its own.
pub open spec fn exit_reparented(
    before: Seq<Option<ProcessControlBlock>>,
    after: Seq<Option<ProcessControlBlock>>,
    pid: int,
    fb: Option<usize>,
) -> bool {
    let kids = before[pid]->0.children@;
    &&& after.len() == before.len()
    &&& forall|q: int| 0 <= q < before.len()
        ==> ((#[trigger] after[q]) is Some <==> before[q] is Some)
    &&& after[pid]->0.children@ == Seq::<usize>::empty()
    &&& after[pid]->0.parent == before[pid]->0.parent
    &&& forall|q: int|
        0 <= q < before.len() && before[q] is Some && q != pid && !(fb is Some && q == fb->0) ==> {
            &&& (#[trigger] after[q])->0.children@ == before[q]->0.children@
            &&& after[q]->0.parent == if kids.contains(q as usize) {
                fb
            } else {
                before[q]->0.parent
            }
        }
    &&& fb is Some ==> {
        &&& after[fb->0 as int]->0.children@ == before[fb->0 as int]->0.children@ + kids
        &&& after[fb->0 as int]->0.parent == before[fb->0 as int]->0.parent
    }
}

/// Passing the children of an exiting process to a fallback process that is
/// not among them keeps the lists of children in order.
pub proof fn lemma_exit_tree(
    before: Seq<Option<ProcessControlBlock>>,
    after: Seq<Option<ProcessControlBlock>>,
    pid: int,
    fb: Option<usize>,
)
    requires
        tree_ok(before),
        before.len() <= usize::MAX,
        live(before, pid),
        fb is Some ==> live(before, fb->0 as int) && fb->0 != pid && before[fb->0 as int]->0.parent
            is None,
        exit_reparented(before, after, pid, fb),
    ensures
        tree_ok(after),
{
    let kid_seq = before[pid]->0.children@;
    assert(children_ok(before, pid));
    assert forall|x: usize| kid_seq.contains(x)
        implies live(before, x as int) && before[x as int]->0.parent
        == Some(pid as usize) && x != pid by {
        let j = choose|j: int| 0 <= j < kid_seq.len() && kid_seq[j] == x;
        assert(live(before, kid_seq[j] as int));
    }
    assert forall|q: int| live(after, q) implies #[trigger] children_ok(after, q) by {
        assert(live(before, q));
        assert(children_ok(before, q));
        let cs = after[q]->0.children@;
        let old_cs = before[q]->0.children@;
        if q == pid {
            assert(cs.len() == 0);
        } else if fb is Some && q == fb->0 {
            assert(cs == old_cs + kid_seq);
            assert forall|a: int| 0 <= a < cs.len() implies {
                &&& live(after, (#[trigger] cs[a]) as int)
                &&& cs[a] != q
                &&& after[cs[a] as int]->0.parent == Some(q as usize)
                &&& before[cs[a] as int]->0.parent == if a < old_cs.len() {
                    Some(q as usize)
                } else {
                    Some(pid as usize)
                }
            } by {
                if a < old_cs.len() {
                    assert(cs[a] == old_cs[a]);
                    assert(live(before, old_cs[a] as int));
                    assert(before[old_cs[a] as int]->0.parent == Some(q as usize));
                    if kid_seq.contains(old_cs[a]) {
                        assert(before[old_cs[a] as int]->0.parent == Some(pid as usize));
                    }
                } else {
                    let b = a - old_cs.len();
                    assert(cs[a] == kid_seq[b]);
                    assert(kid_seq.contains(kid_seq[b]));
                }
            }
            assert forall|a: int, b: int| 0 <= a < b < cs.len() implies cs[a] != cs[b] by {
                if b < old_cs.len() {
                    assert(old_cs[a] != old_cs[b]);
                } else if a >= old_cs.len() {
                    assert(kid_seq[a - old_cs.len()] != kid_seq[b - old_cs.len()]);
                } else {
                    assert(before[cs[a] as int]->0.parent == Some(q as usize));
                    assert(before[cs[b] as int]->0.parent == Some(pid as usize));
                }
            }
        } else {
            assert(cs == old_cs);
            assert forall|a: int| 0 <= a < cs.len() implies {
                &&& live(after, (#[trigger] cs[a]) as int)
                &&& cs[a] != q
                &&& after[cs[a] as int]->0.parent == Some(q as usize)
            } by {
                assert(live(before, old_cs[a] as int));
                assert(before[old_cs[a] as int]->0.parent == Some(q as usize));
                if kid_seq.contains(old_cs[a]) {
                    assert(before[old_cs[a] as int]->0.parent == Some(pid as usize));
                }
            }
        }
    }
}

/// Whether every process of `after` has the pages of the process in the
/// same slot of `before`, or no pages at all.
pub open spec fn pages_carried(
    before: Seq<Option<ProcessControlBlock>>,
    after: Seq<Option<ProcessControlBlock>>,
) -> bool {
    forall|p: int|
        0 <= p < after.len() && (#[trigger] after[p]) is Some ==> {
            ||| after[p]->0.memory_set.pages@.len() == 0
            ||| p < before.len() && before[p] is Some && after[p]->0.memory_set.pages@
                == before[p]->0.memory_set.pages@
        }
}

/// A process table whose processes kept their pages or have none keeps its
/// frames in order.
pub proof fn lemma_frames_carried(
    before: Seq<Option<ProcessControlBlock>>,
    after: Seq<Option<ProcessControlBlock>>,
)
    requires
        pages_carried(before, after),
    ensures
        frames_apart(before) ==> frames_apart(after),
        forall|frames: FrameState|
            frames_owned(before, frames) ==> #[trigger] frames_owned(after, frames),
{
    assert forall|p: int, ppn: usize|
        0 <= p < after.len() && after[p] is Some && #[trigger] after[p]->0.memory_set.has_frame(
            ppn,
        ) implies p < before.len() && before[p] is Some && before[p]->0.memory_set.has_frame(
        ppn,
    ) by {
        let a = after[p]->0.memory_set;
        let i = choose|i: int| 0 <= i < a.pages.len() && (#[trigger] a.pages[i]).ppn == ppn;
        let b = before[p]->0.memory_set;
        assert(b.pages[i] == a.pages@[i]);
    }
    if frames_apart(before) {
        assert forall|p: int, q: int, ppn: usize|
            0 <= p < after.len() && 0 <= q < after.len() && p != q && after[p] is Some && after[q]
                is Some implies !(#[trigger] after[p]->0.memory_set.has_frame(ppn)
            && #[trigger] after[q]->0.memory_set.has_frame(ppn)) by {
            if after[p]->0.memory_set.has_frame(ppn) && after[q]->0.memory_set.has_frame(ppn) {
                assert(!(before[p]->0.memory_set.has_frame(ppn)
                    && before[q]->0.memory_set.has_frame(ppn)));
            }
        }
    }
    assert forall|frames: FrameState| frames_owned(before, frames) implies #[trigger] frames_owned(
        after,
        frames,
    ) by {
        assert forall|p: int| 0 <= p < after.len() && (#[trigger] after[p]) is Some
            implies after[p]->0.memory_set.owned_by(
            frames,
        ) by {
            let a = after[p]->0.memory_set;
            if a.pages@.len() > 0 {
                let b = before[p]->0.memory_set;
                assert(b.owned_by(frames));
                assert forall|i: int| 0 <= i < a.pages.len() implies frames.in_use(
                    (#[trigger] a.pages[i]).ppn,
                ) by {
                    assert(a.pages[i] == b.pages@[i]);
                    assert(frames.in_use(b.pages[i].ppn));
                }
                assert forall|i: int, j: int| 0 <= i < j < a.pages.len() implies (
                #[trigger] a.pages[i]).ppn != (#[trigger] a.pages[j]).ppn by {
                    assert(a.pages[i] == b.pages@[i] && a.pages[j] == b.pages@[j]);
                    assert(b.pages[i].ppn != b.pages[j].ppn);
                }
            }
        }
    }
}

/// A process table in which one process was replaced by one with the same
/// pages keeps its frames in order.
pub proof fn lemma_frames_kept(
    before: Seq<Option<ProcessControlBlock>>,
    after: Seq<Option<ProcessControlBlock>>,
    pid: int,
)
    requires
        live(before, pid),
        slot_replaced(before, after, pid),
        after[pid]->0.memory_set.pages@ == before[pid]->0.memory_set.pages@,
    ensures
        frames_apart(before) ==> frames_apart(after),
        forall|frames: FrameState|
            frames_owned(before, frames) ==> #[trigger] frames_owned(after, frames),
{
    assert forall|p: int| 0 <= p < after.len() && (#[trigger] after[p]) is Some implies {
        ||| after[p]->0.memory_set.pages@.len() == 0
        ||| p < before.len() && before[p] is Some && after[p]->0.memory_set.pages@
            == before[p]->0.memory_set.pages@
    } by {
        if p != pid {
            assert(after[p] == before[p]);
        }
    }
    lemma_frames_carried(before, after);
}

/// Replacing one process by one with the same identifier, family ties and
/// threads keeps the process table in order.
pub proof fn lemma_process_replaced(
    before: Seq<Option<ProcessControlBlock>>,
    after: Seq<Option<ProcessControlBlock>>,
    pid: int,
)
    requires
        procs_wf(before),
        tree_ok(before),
        live(before, pid),
        slot_replaced(before, after, pid),
        after[pid]->0.wf(),
        after[pid]->0.pid == before[pid]->0.pid,
        after[pid]->0.children@ == before[pid]->0.children@,
        after[pid]->0.parent == before[pid]->0.parent,
    ensures
        procs_wf(after),
        tree_ok(after),
        forall|q: int| live(after, q) <==> live(before, q),
        after[pid]->0.memory_set.pages@ == before[pid]->0.memory_set.pages@ ==> {
            &&& frames_apart(before) ==> frames_apart(after)
            &&& forall|frames: FrameState|
                frames_owned(before, frames) ==> #[trigger] frames_owned(after, frames)
        },
{
    if after[pid]->0.memory_set.pages@ == before[pid]->0.memory_set.pages@ {
        lemma_frames_kept(before, after, pid);
    }
    assert forall|q: int| 0 <= q < after.len() && (#[trigger] after[q]) is Some
        implies after[q]->0.wf()
        && after[q]->0.pid == q by {
        if q != pid {
            assert(after[q] == before[q]);
        }
    }
    assert forall|q: int| 0 <= q < before.len()
        implies ((#[trigger] after[q]) is Some <==> before[q] is Some) by {
        if q != pid {
            assert(after[q] == before[q]);
        }
    }
    assert forall|q: int|
        0 <= q < before.len() && (#[trigger] after[q]) is Some implies after[q]->0.children@
        == before[q]->0.children@ && after[q]->0.parent == before[q]->0.parent by {
        if q != pid {
            assert(after[q] == before[q]);
        }
    }
    lemma_tree_frame(before, after);
}

/// Address spaces are isolated: two different pages, of one process or of
/// two, never translate to the same frame, and the frame behind a mapped
/// page is in use and so is never handed out again while the page is
/// mapped.
pub proof fn lemma_address_spaces_isolated(k: Kernel, p: int, q: int, v: usize, w: usize)
    requires
        k.wf(),
        live(k.processes@, p),
        live(k.processes@, q),
        k.processes[p]->0.memory_set@.contains_key(v),
        k.processes[q]->0.memory_set@.contains_key(w),
        p != q || v != w,
    ensures
        k.processes[p]->0.memory_set@[v].ppn != k.processes[q]->0.memory_set@[w].ppn,
        k.frames@.in_use(k.processes[p]->0.memory_set@[v].ppn),
        forall|j: int|
            0 <= j < k.frames@.available() ==> #[trigger] k.frames@.nth_frame(j)
                != k.processes[p]->0.memory_set@[v].ppn,
{
    let a = k.processes[p]->0.memory_set;
    let b = k.processes[q]->0.memory_set;
    assert(a.wf() && b.wf());
    assert(a.owned_by(k.frames@) && b.owned_by(k.frames@));
    let i = index_of(a.pages@, v);
    let j = index_of(b.pages@, w);
    assert(a.pages[i].vpn == v && b.pages[j].vpn == w);
    lemma_index_unique(a.pages@, i);
    lemma_index_unique(b.pages@, j);
    assert(k.frames@.in_use(a.pages[i].ppn));
    if p == q {
        if i < j {
            assert(a.pages[i].ppn != a.pages[j].ppn);
        } else if j < i {
            assert(a.pages[j].ppn != a.pages[i].ppn);
        }
    } else {
        assert(a.has_frame(a.pages[i].ppn));
        assert(b.has_frame(b.pages[j].ppn));
        assert(!(k.processes@[p]->0.memory_set.has_frame(a.pages[i].ppn)
            && k.processes@[q]->0.memory_set.has_frame(a.pages[i].ppn)));
    }
    assert forall|n: int| 0 <= n < k.frames@.available() implies #[trigger] k.frames@.nth_frame(n)
        != a.pages[i].ppn by {
        lemma_nth_frame(k.frames@, n);
    }
}

/// The whole state of the kernel.
pub struct Kernel {
    /// The processes, each in the slot of its identifier.
    pub processes: Vec<Option<ProcessControlBlock>>,
    /// The tasks that are ready to run.
    pub manager: TaskManager,
    /// The task that runs, if the processor is not idle.
    pub current: Option<TaskControlBlock>,
    /// The tasks that sleep until a primitive or a timer wakes them.
    pub blocked: VecDeque<TaskControlBlock>,
    /// The free physical frames.
    pub frames: FrameAllocator,
    /// The process that adopts the children of a process that exits.
    pub initproc: Option<usize>,
}

impl Kernel {
    /// The frames, the processes and their family ties are in order, every
    /// mapped page has a frame of its own that is in use, the pass of every
    /// task follows from its priority, and the running task belongs to a
    /// process that has not exited.
    pub open spec fn wf(&self) -> bool {
        &&& self.frames.wf()
        &&& self.processes.len() <= MAX_HANDLES
        &&& procs_wf(self.processes@)
        &&& tree_ok(self.processes@)
        &&& frames_owned(self.processes@, self.frames@)
        &&& frames_apart(self.processes@)
        &&& self.current is Some ==> valid_task(self.processes@, self.current->0)
        &&& self.current is Some ==> self.current->0.wf()
        &&& forall|i: int| 0 <= i < self.manager@.len() ==> (#[trigger] self.manager@[i]).wf()
        &&& forall|i: int| 0 <= i < self.blocked@.len() ==> (#[trigger] self.blocked@[i]).wf()
        &&& self.initproc is Some ==> live(self.processes@, self.initproc->0 as int)
            && self.processes[self.initproc->0 as int]->0.parent is None
    }

    /// The process of the running task.
    pub open spec fn cur_proc(&self) -> ProcessControlBlock {
        self.processes[self.current->0.pid as int]->0
    }

    /// Whether `after` differs from `self` in nothing but the process in
    /// slot `pid`.
    pub open spec fn only_process_changed(&self, after: Kernel, pid: usize) -> bool {
        &&& after == (Kernel { processes: after.processes, ..*self })
        &&& after.processes.len() == self.processes.len()
        &&& pid < self.processes.len()
        &&& after.processes[pid as int] is Some
        &&& forall|q: int|
            0 <= q < self.processes.len() && q != pid ==> after.processes[q] == self.processes[q]
    }

    /// A kernel without processes that manages the frames `frame_start..frame_end`.
    pub fn new(frame_start: usize, frame_end: usize) -> (k: Kernel)
        requires
            frame_start <= frame_end <= MAX_PPN + 1,
        ensures
            k.wf(),
            k.processes@ == Seq::<Option<ProcessControlBlock>>::empty(),
            k.manager@ == Seq::<TaskControlBlock>::empty(),
            k.current is None,
            k.blocked@ == Seq::<TaskControlBlock>::empty(),
            k.frames@ == (FrameState {
                current: frame_start,
                end: frame_end,
                recycled: Seq::empty(),
            }),
            k.initproc is None,
    {
        Kernel {
            processes: Vec::new(),
            manager: TaskManager::new(),
            current: None,
            blocked: VecDeque::new(),
            frames: FrameAllocator::new(frame_start, frame_end),
            initproc: None,
        }
    }

    /// The ready queue after the sleeping task of process `pid` and thread
    /// `target`, if there is one, was woken.
    pub open spec fn manager_after_wake(
        &self,
        pid: usize,
        target: Option<usize>,
        spinning_on: Option<usize>,
    ) -> Seq<TaskControlBlock> {
        if target is Some && has_task(self.blocked@, pid, target->0) {
            self.manager@.push(
                TaskControlBlock {
                    status: TaskStatus::Ready,
                    spinning_on,
                    ..self.blocked@[task_index(self.blocked@, pid, target->0)]
                },
            )
        } else {
            self.manager@
        }
    }

    /// The blocked tasks after the sleeping task of process `pid` and thread
    /// `target`, if there is one, was woken.
    pub open spec fn blocked_after_wake(&self, pid: usize, target: Option<usize>) -> Seq<
        TaskControlBlock,
    > {
        if target is Some && has_task(self.blocked@, pid, target->0) {
            self.blocked@.remove(task_index(self.blocked@, pid, target->0))
        } else {
            self.blocked@
        }
    }

    /// Whether `self` holds what `before` holds.
    pub open spec fn unchanged(&self, before: Kernel) -> bool {
        &&& self.processes@ == before.processes@
        &&& *self == (Kernel { processes: self.processes, ..before })
    }

    /// Whether `self` differs from `before` in nothing but the process
    /// table.
    pub open spec fn same_scheduler(&self, before: Kernel) -> bool {
        *self == (Kernel { processes: self.processes, ..before })
    }

    /// Whether `self` is `before` after the sleeping task of process `pid`
    /// and thread `target`, if there is one, was woken, as far as the tasks
    /// and the frames go.
    pub open spec fn is_after_wake(
        &self,
        before: Kernel,
        pid: usize,
        target: Option<usize>,
        spinning_on: Option<usize>,
    ) -> bool {
        &&& self.current == before.current
        &&& self.frames == before.frames
        &&& self.initproc == before.initproc
        &&& self.manager@ == before.manager_after_wake(pid, target, spinning_on)
        &&& self.blocked@ == before.blocked_after_wake(pid, target)
    }

    /// Whether `self` is `before` after the running task came back from a
    /// primitive with `how`, as far as the tasks and the frames go: a task
    /// that acquired runs on, one that sleeps joins the blocked tasks, and
    /// one that spins joins the ready queue, marked as busy-waiting for
    /// mutex `mutex_id`.
    pub open spec fn is_parked(
        &self,
        before: Kernel,
        how: Acquire,
        mutex_id: usize,
    ) -> bool {
        &&& self.frames == before.frames
        &&& self.initproc == before.initproc
        &&& match how {
            Acquire::Acquired => {
                &&& self.current == before.current
                &&& self.manager@ == before.manager@
                &&& self.blocked@ == before.blocked@
            },
            Acquire::Sleep => {
                &&& self.current is None
                &&& self.manager@ == before.manager@
                &&& self.blocked@ == before.blocked@.push(
                    TaskControlBlock { status: TaskStatus::Blocked, ..before.current->0 },
                )
            },
            Acquire::Spin => {
                &&& self.current is None
                &&& self.blocked@ == before.blocked@
                &&& self.manager@ == before.manager@.push(
                    TaskControlBlock {
                        status: TaskStatus::Ready,
                        spinning_on: Some(mutex_id),
                        ..before.current->0
                    },
                )
            },
        }
    }

    /// The process and the thread number of the running task.
    pub fn current_ids(&self) -> (ids: (usize, usize))
        requires
            self.current is Some,
        ensures
            ids.0 == self.current->0.pid,
            ids.1 == self.current->0.tid,
    {
        match &self.current {
            Some(t) => (t.pid, t.tid),
            None => (0, 0),
        }
    }

    /// Wakes the sleeping task of process `pid` and thread `target`, if a
    /// thread is given and such a task sleeps.
    pub fn wake_thread(&mut self, pid: usize, target: Option<usize>, spinning_on: Option<usize>)
        ensures
            final(self).manager@ == old(self).manager_after_wake(pid, target, spinning_on),
            final(self).blocked@ == old(self).blocked_after_wake(pid, target),
            *final(self) == (Kernel {
                blocked: final(self).blocked,
                manager: final(self).manager,
                ..*old(self)
            }),
            old(self).wf() ==> final(self).wf(),
    {
        match target {
            Some(tid) => {
                self.wakeup(pid, tid, spinning_on);
            },
            None => {},
        }
    }

    /// The running task gives up the processor and joins the ready queue.
    pub fn suspend_current(&mut self)
        requires
            old(self).current is Some,
        ensures
            final(self).current is None,
            final(self).manager@ == old(self).manager@.push(
                TaskControlBlock { status: TaskStatus::Ready, ..old(self).current->0 },
            ),
            *final(self) == (Kernel {
                current: None,
                manager: final(self).manager,
                ..*old(self)
            }),
            old(self).wf() ==> final(self).wf(),
    {
        let taken = self.current.take();
        let mut task = taken.unwrap();
        task.status = TaskStatus::Ready;
        self.manager.add(task);
    }

    /// The running task gives up the processor and sleeps until it is woken.
    pub fn block_current(&mut self)
        requires
            old(self).current is Some,
        ensures
            final(self).current is None,
            final(self).blocked@ == old(self).blocked@.push(
                TaskControlBlock { status: TaskStatus::Blocked, ..old(self).current->0 },
            ),
            *final(self) == (Kernel {
                current: None,
                blocked: final(self).blocked,
                ..*old(self)
            }),
            old(self).wf() ==> final(self).wf(),
    {
        let taken = self.current.take();
        let mut task = taken.unwrap();
        task.status = TaskStatus::Blocked;
        self.blocked.push_back(task);
    }

    /// Where the task of process `pid` and thread `tid` sleeps.
    fn find_blocked(&self, pid: usize, tid: usize) -> (r: Option<usize>)
        ensures
            r is Some <==> has_task(self.blocked@, pid, tid),
            r is Some ==> is_first_task(self.blocked@, pid, tid, r->0 as int) && r->0 == task_index(
                self.blocked@,
                pid,
                tid,
            ),
    {
        let n = self.blocked.len();
        let mut i: usize = 0;
        while i < n
            invariant
                i <= n,
                n == self.blocked.len(),
                forall|j: int| 0 <= j < i
                    ==> !((#[trigger] self.blocked@[j]).pid == pid && self.blocked@[j].tid == tid),
            decreases n - i,
        {
            if self.blocked[i].pid == pid && self.blocked[i].tid == tid {
                proof {
                    lemma_first_task_unique(self.blocked@, pid, tid, i as int);
                }
                return Some(i);
            }
            i = i + 1;
        }
        None
    }

    /// Wakes the sleeping task of process `pid` and thread `tid`: it joins
    /// the ready queue, busy-waiting for mutex `spinning_on` if that is
    /// given. If several such tasks sleep, the first is woken; if none does,
    /// nothing changes.
    pub fn wakeup(&mut self, pid: usize, tid: usize, spinning_on: Option<usize>) -> (woke: bool)
        ensures
            woke == has_task(old(self).blocked@, pid, tid),
            woke ==> {
                let i = task_index(old(self).blocked@, pid, tid);
                &&& is_first_task(old(self).blocked@, pid, tid, i)
                &&& final(self).blocked@ == old(self).blocked@.remove(i)
                &&& final(self).manager@ == old(self).manager@.push(
                    TaskControlBlock {
                        status: TaskStatus::Ready,
                        spinning_on,
                        ..old(self).blocked@[i]
                    },
                )
                &&& *final(self) == (Kernel {
                    blocked: final(self).blocked,
                    manager: final(self).manager,
                    ..*old(self)
                })
            },
            !woke ==> *final(self) == *old(self),
            old(self).wf() ==> final(self).wf(),
    {
        match self.find_blocked(pid, tid) {
            None => false,
            Some(i) => {
                let taken = self.blocked.remove(i);
                let mut task = taken.unwrap();
                task.status = TaskStatus::Ready;
                task.spinning_on = spinning_on;
                self.manager.add(task);
                true
            },
        }
    }

    /// Whether the ready task `t` still busy-waits: the mutex it spins on
    /// has it in its queue.
    pub open spec fn still_spinning(&self, t: TaskControlBlock) -> bool {
        let p = self.processes[t.pid as int]->0;
        &&& t.spinning_on is Some
        &&& live(self.processes@, t.pid as int)
        &&& p.valid_mutex(t.spinning_on->0)
        &&& p.mutex_list[t.spinning_on->0 as int]->0.wait_queue@.contains(t.tid)
    }

    /// The task that the next dispatch takes from the ready queue, with its
    /// stride advanced.
    pub open spec fn next_task(&self) -> TaskControlBlock {
        self.manager@[min_index(self.manager@)].advanced()
    }

    /// One step of the idle loop: the ready task with the smallest stride
    /// is taken from the queue and its stride advanced. A task whose process
    /// is gone or has exited is dropped. A task that busy-waits for a mutex
    /// that was not handed to it yet goes back to the end of the queue. Any
    /// other task becomes the running one. Returns whether a task runs now.
    pub fn run_next(&mut self) -> (running: bool)
        requires
            old(self).wf(),
            old(self).current is None,
            old(self).manager.can_fetch(),
        ensures
            final(self).wf(),
            *final(self) == (Kernel {
                current: final(self).current,
                manager: final(self).manager,
                ..*old(self)
            }),
            old(self).manager@.len() == 0 ==> !running && final(self).manager@ == old(
                self,
            ).manager@,
            old(self).manager@.len() > 0 ==> {
                let t = old(self).next_task();
                let rest = old(self).manager@.remove(min_index(old(self).manager@));
                &&& running == (valid_task(old(self).processes@, t) && !old(self).still_spinning(t))
                &&& final(self).manager@ == if valid_task(old(self).processes@, t) && old(
                    self,
                ).still_spinning(t) {
                    rest.push(t)
                } else {
                    rest
                }
            },
            running ==> final(self).current == Some(
                TaskControlBlock {
                    status: TaskStatus::Running,
                    spinning_on: None,
                    ..old(self).next_task()
                },
            ),
            !running ==> final(self).current is None,
    {
        let fetched = self.manager.fetch();
        match fetched {
            None => false,
            Some(t) => {
                let mut task = t;
                if task.pid >= self.processes.len() {
                    return false;
                }
                let spinning = match &self.processes[task.pid] {
                    None => {
                        return false;
                    },
                    Some(p) => {
                        if p.is_zombie || task.tid >= p.thread_count {
                            return false;
                        }
                        match task.spinning_on {
                            None => false,
                            Some(m) => {
                                if m < p.mutex_list.len() {
                                    match &p.mutex_list[m] {
                                        Some(mutex) => mutex.is_waiting(task.tid),
                                        None => false,
                                    }
                                } else {
                                    false
                                }
                            },
                        }
                    },
                };
                if spinning {
                    self.manager.add(task);
                    false
                } else {
                    task.status = TaskStatus::Running;
                    task.spinning_on = None;
                    self.current = Some(task);
                    true
                }
            },
        }
    }

    /// Whether `p` is a process as `new_process` makes it.
    pub open spec fn is_fresh_process(
        p: ProcessControlBlock,
        pid: usize,
        parent: Option<usize>,
    ) -> bool {
        &&& p.wf()
        &&& p.pid == pid
        &&& p.parent == parent
        &&& p.children@ == Seq::<usize>::empty()
        &&& !p.is_zombie
        &&& p.exit_code == 0
        &&& p.zombie_task is None
        &&& p.memory_set@ == Map::<usize, PageEntry>::empty()
        &&& p.memory_set.pages@ == Seq::<PageMapping>::empty()
        &&& p.heap_bottom == 0
        &&& p.program_brk == 0
        &&& p.fd_table@ == seq![
            Some(FileDescriptor { file: 0, readable: true, writable: false }),
            Some(FileDescriptor { file: 1, readable: false, writable: true }),
            Some(FileDescriptor { file: 1, readable: false, writable: true }),
        ]
        &&& p.thread_count == 1
        &&& p.mutex_list@.len() == 0
        &&& p.semaphore_list@.len() == 0
        &&& p.condvar_list@.len() == 0
        &&& !p.enable_deadlock_detect
    }

    /// Makes a process in the first empty slot of the process table, or
    /// appended if there is none, and lists it among the children of
    /// `parent`. Returns its identifier, which no existing process lists as
    /// a child. Fails only when the table cannot grow any more.
    pub fn new_process(&mut self, parent: Option<usize>) -> (r: Option<usize>)
        requires
            old(self).wf(),
            parent is Some ==> live(old(self).processes@, parent->0 as int),
        ensures
            final(self).wf(),
            *final(self) == (Kernel { processes: final(self).processes, ..*old(self) }),
            r is Some <==> first_empty_slot(old(self).processes@) < MAX_HANDLES,
            r is None ==> *final(self) == *old(self),
            r is Some ==> {
                let pid = r->0 as int;
                &&& pid == first_empty_slot(old(self).processes@)
                &&& !live(old(self).processes@, pid)
                &&& final(self).processes.len() == if pid == old(self).processes.len() {
                    old(self).processes.len() + 1
                } else {
                    old(self).processes.len() as int
                }
                &&& live(final(self).processes@, pid)
                &&& Self::is_fresh_process(final(self).processes[pid]->0, r->0, parent)
                &&& forall|q: int|
                    0 <= q < old(self).processes.len() && q != pid && !(parent is Some && q
                        == parent->0) ==> final(self).processes[q] == old(self).processes[q]
                &&& parent is Some ==> {
                    let par = parent->0 as int;
                    &&& final(self).processes[par] is Some
                    &&& final(self).processes[par]->0 == (ProcessControlBlock {
                        children: final(self).processes[par]->0.children,
                        ..old(self).processes[par]->0
                    })
                    &&& final(self).processes[par]->0.children@ == old(
                        self,
                    ).processes[par]->0.children@.push(r->0)
                    &&& !old(self).processes[par]->0.children@.contains(r->0)
                }
            },
    {
        let pid = find_empty_slot(&self.processes);
        if pid >= MAX_HANDLES {
            return None;
        }
        let ghost before = self.processes@;
        put_slot(&mut self.processes, pid, ProcessControlBlock::new(pid, parent));
        let ghost mid = self.processes@;
        match parent {
            Some(par) => {
                match &mut self.processes[par] {
                    Some(p) => {
                        p.children.push(pid);
                    },
                    None => {},
                }
            },
            None => {},
        }
        proof {
            let after = self.processes@;
            assert(pages_carried(before, after)) by {
                assert forall|p: int| 0 <= p < after.len()
                    && (#[trigger] after[p]) is Some implies {
                    ||| after[p]->0.memory_set.pages@.len() == 0
                    ||| p < before.len() && before[p] is Some && after[p]->0.memory_set.pages@
                        == before[p]->0.memory_set.pages@
                } by {
                    if p == pid {
                        assert(after[p]->0.memory_set.pages@.len() == 0);
                    } else if parent is Some && p == parent->0 {
                        assert(mid[p] == before[p]);
                        assert(after[p]->0.memory_set == mid[p]->0.memory_set);
                    } else {
                        assert(mid[p] == before[p]);
                        assert(after[p] == mid[p]);
                    }
                }
            }
            lemma_frames_carried(before, after);
            assert forall|p: int| live(after, p) implies #[trigger] children_ok(after, p) by {
                if p == pid {
                    assert(after[p]->0.children@.len() == 0);
                } else {
                    assert(live(before, p));
                    assert(children_ok(before, p));
                    let old_cs = before[p]->0.children@;
                    let cs = after[p]->0.children@;
                    assert forall|k: int| 0 <= k < old_cs.len() implies old_cs[k] != pid by {
                        assert(live(before, old_cs[k] as int));
                    }
                    assert forall|k: int| 0 <= k < cs.len() implies {
                        &&& live(after, (#[trigger] cs[k]) as int)
                        &&& cs[k] != p
                        &&& after[cs[k] as int]->0.parent == Some(p as usize)
                    } by {
                        if k < old_cs.len() {
                            assert(cs[k] == old_cs[k]);
                            assert(live(before, old_cs[k] as int));
                        }
                    }
                }
            }
            if parent is Some {
                let par = parent->0 as int;
                assert(children_ok(before, par));
                if before[par]->0.children@.contains(pid) {
                    let k = choose|k: int| 0 <= k < before[par]->0.children@.len()
                        && before[par]->0.children@[k] == pid;
                    assert(live(before, before[par]->0.children@[k] as int));
                }
            }
        }
        Some(pid)
    }

    /// The process that adopts the children of the running task's process
    /// when that process exits: the initial process, unless it is the one
    /// that exits or has exited itself.
    pub open spec fn exit_fallback(&self) -> Option<usize> {
        if self.initproc is Some && self.initproc->0 != self.current->0.pid
            && !self.processes[self.initproc->0 as int]->0.is_zombie {
            self.initproc
        } else {
            None
        }
    }

    /// Whether `self` is what the exit of the running task with `exit_code`
    /// leaves of `before`.
    pub open spec fn is_after_exit(&self, before: Kernel, exit_code: i32) -> bool {
        &&& self.current is None
        &&& self.initproc == before.initproc
        &&& before.current->0.tid != 0 ==> *self == (Kernel { current: None, ..before })
        &&& before.current->0.tid == 0 ==> {
            let pid = before.current->0.pid as int;
            let fb = before.exit_fallback();
            let kids = before.cur_proc().children@;
            &&& self.processes.len() == before.processes.len()
            &&& forall|q: int|
                0 <= q < before.processes.len() ==> ((#[trigger] self.processes[q])
                    is Some <==> before.processes[q] is Some)
            &&& self.processes[pid]->0 == (ProcessControlBlock {
                is_zombie: true,
                exit_code,
                zombie_task: Some(
                    TaskControlBlock { status: TaskStatus::Zombie, ..before.current->0 },
                ),
                children: self.processes[pid]->0.children,
                memory_set: self.processes[pid]->0.memory_set,
                ..before.processes[pid]->0
            })
            &&& self.processes[pid]->0.children@ == Seq::<usize>::empty()
            &&& self.processes[pid]->0.memory_set@ == Map::<usize, PageEntry>::empty()
            &&& forall|q: int|
                0 <= q < before.processes.len() && before.processes[q] is Some && q != pid
                    && !(fb is Some && q == fb->0) ==> (#[trigger] self.processes[q])->0
                    == if kids.contains(q as usize) {
                    ProcessControlBlock { parent: fb, ..before.processes[q]->0 }
                } else {
                    before.processes[q]->0
                }
            &&& fb is Some ==> {
                &&& self.processes[fb->0 as int]->0 == (ProcessControlBlock {
                    children: self.processes[fb->0 as int]->0.children,
                    ..before.processes[fb->0 as int]->0
                })
                &&& self.processes[fb->0 as int]->0.children@
                    == before.processes[fb->0 as int]->0.children@ + kids
            }
            &&& self.manager@ == before.manager@.filter(other_process(pid as usize))
            &&& self.blocked@ == before.blocked@.filter(other_process(pid as usize))
            &&& self.frames@ == before.frames@.after_dealloc(
                MemorySet::frames_of(before.cur_proc().memory_set.pages@),
            )
        }
    }

    /// The running task exits with `exit_code` and is gone. If it is not the
    /// first thread of its process, nothing else changes. If it is, the
    /// process becomes a zombie with that exit code: its address space is
    /// released, its children pass to the fallback process or become
    /// orphans, and its other threads leave the ready queue and the list of
    /// blocked tasks.
    pub fn exit_current(&mut self, exit_code: i32)
        requires
            old(self).wf(),
            old(self).current is Some,
        ensures
            final(self).wf(),
            final(self).is_after_exit(*old(self), exit_code),
    {
        let taken = self.current.take();
        let mut task = taken.unwrap();
        if task.tid != 0 {
            return ;
        }
        task.status = TaskStatus::Zombie;
        let pid = task.pid;
        let ghost before = self.processes@;
        let ghost p0 = before[pid as int]->0;
        let ghost kid_seq = p0.children@;
        let fallback: Option<usize> = match self.initproc {
            Some(i) => {
                if i != pid {
                    match &self.processes[i] {
                        Some(p) => {
                            if p.is_zombie {
                                None
                            } else {
                                Some(i)
                            }
                        },
                        None => None,
                    }
                } else {
                    None
                }
            },
            None => None,
        };
        assert(fallback == old(self).exit_fallback());
        let mut kids: Vec<usize> = Vec::new();
        match &mut self.processes[pid] {
            Some(p) => {
                std::mem::swap(&mut p.children, &mut kids);
                p.is_zombie = true;
                p.exit_code = exit_code;
                p.zombie_task = Some(task);
                p.memory_set.release_all(&mut self.frames);
            },
            None => {},
        }
        assert(kids@ == kid_seq);
        let ghost k1 = *self;
        let ghost p1 = self.processes[pid as int]->0;
        assert(children_ok(before, pid as int));
        let n = kids.len();
        let mut k: usize = 0;
        while k < n
            invariant
                k <= n,
                n == kids.len(),
                kids@ == kid_seq,
                kid_seq == p0.children@,
                before == old(self).processes@,
                pid < before.len(),
                before[pid as int] == Some(p0),
                tree_ok(before),
                children_ok(before, pid as int),
                procs_wf(before),
                p1.memory_set.pages@.len() == 0,
                forall|ppn: usize|
                    old(self).frames@.in_use(ppn) && !p0.memory_set.has_frame(ppn)
                        ==> #[trigger] k1.frames@.in_use(ppn),
                *self == (Kernel { processes: self.processes, ..k1 }),
                self.processes.len() == before.len(),
                forall|q: int|
                    0 <= q < before.len()
                        ==> ((#[trigger] self.processes[q]) is Some <==> before[q] is Some),
                self.processes[pid as int] == Some(p1),
                forall|q: int|
                    0 <= q < before.len() && before[q] is Some && q != pid ==> (
                    #[trigger] self.processes[q])->0 == if in_prefix(kid_seq, k as int, q) {
                        ProcessControlBlock { parent: fallback, ..before[q]->0 }
                    } else {
                        before[q]->0
                    },
            decreases n - k,
        {
            let c = kids[k];
            assert(live(before, kid_seq[k as int] as int));
            assert(c != pid);
            assert(!in_prefix(kid_seq, k as int, c as int)) by {
                if in_prefix(kid_seq, k as int, c as int) {
                    let j = choose|j: int| 0 <= j < k && j < kid_seq.len()
                        && #[trigger] kid_seq[j] == c as int;
                    assert(kid_seq[j] != kid_seq[k as int]);
                }
            }
            match &mut self.processes[c] {
                Some(cp) => {
                    cp.parent = fallback;
                },
                None => {},
            }
            assert forall|q: int|
                0 <= q < before.len() && before[q] is Some && q != pid implies (
            #[trigger] self.processes[q])->0 == if in_prefix(kid_seq, k + 1, q) {
                ProcessControlBlock { parent: fallback, ..before[q]->0 }
            } else {
                before[q]->0
            } by {
                if q == c {
                    assert(kid_seq[k as int] == q);
                    assert(in_prefix(kid_seq, k + 1, q));
                } else {
                    if in_prefix(kid_seq, k + 1, q) {
                        let j = choose|j: int| 0 <= j < k + 1 && j < kid_seq.len()
                            && #[trigger] kid_seq[j] == q;
                        assert(j < k);
                        assert(in_prefix(kid_seq, k as int, q));
                    }
                    if in_prefix(kid_seq, k as int, q) {
                        let j = choose|j: int| 0 <= j < k && j < kid_seq.len()
                            && #[trigger] kid_seq[j] == q;
                        assert(in_prefix(kid_seq, k + 1, q));
                    }
                }
            }
            k = k + 1;
        }
        assert forall|q: int| in_prefix(kid_seq, n as int, q)
            <==> (0 <= q <= usize::MAX && kid_seq.contains(q as usize)) by {
            if in_prefix(kid_seq, n as int, q) {
                let j = choose|j: int| 0 <= j < n && j < kid_seq.len()
                    && #[trigger] kid_seq[j] == q;
                assert(kid_seq[j] == q as usize);
            }
            if 0 <= q <= usize::MAX && kid_seq.contains(q as usize) {
                let j = choose|j: int| 0 <= j < kid_seq.len() && kid_seq[j] == q as usize;
                assert(kid_seq[j] == q);
            }
        }
        match fallback {
            Some(f) => {
                assert(!kid_seq.contains(f)) by {
                    if kid_seq.contains(f) {
                        let j = choose|j: int| 0 <= j < kid_seq.len() && kid_seq[j] == f;
                        assert(before[kid_seq[j] as int]->0.parent == Some(pid));
                    }
                }
                match &mut self.processes[f] {
                    Some(fp) => {
                        fp.children.append(&mut kids);
                    },
                    None => {},
                }
            },
            None => {},
        }
        drop_tasks_of(&mut self.manager.ready_queue, pid);
        drop_tasks_of(&mut self.blocked, pid);
        proof {
            let after = self.processes@;
            assert(exit_reparented(before, after, pid as int, fallback));
            lemma_exit_tree(before, after, pid as int, fallback);
            assert forall|q: int|
                0 <= q < after.len() && q != pid && (#[trigger] after[q]) is Some implies q
                < before.len() && before[q] is Some && after[q]->0.memory_set.pages@
                == before[q]->0.memory_set.pages@ by {
                assert(before[q] is Some);
            }
            lemma_frames_after_change(
                before,
                after,
                pid as int,
                old(self).frames@,
                self.frames@,
            );
            let keep = other_process(pid);
            assert forall|i: int| 0 <= i < self.manager@.len() implies (
            #[trigger] self.manager@[i]).wf() by {
                let t = self.manager@[i];
                assert(old(self).manager@.filter(keep).contains(t));
                old(self).manager@.lemma_filter_contains_rev(keep, t);
                let j = choose|j: int| 0 <= j < old(self).manager@.len()
                    && old(self).manager@[j] == t;
                assert(old(self).manager@[j].wf());
            }
            assert forall|i: int| 0 <= i < self.blocked@.len() implies (
            #[trigger] self.blocked@[i]).wf() by {
                let t = self.blocked@[i];
                assert(old(self).blocked@.filter(keep).contains(t));
                old(self).blocked@.lemma_filter_contains_rev(keep, t);
                let j = choose|j: int| 0 <= j < old(self).blocked@.len()
                    && old(self).blocked@[j] == t;
                assert(old(self).blocked@[j].wf());
            }
            assert forall|q: int|
                0 <= q < after.len() && (#[trigger] after[q]) is Some implies after[q]->0.wf()
                && after[q]->0.pid == q by {
                assert(before[q] is Some);
                assert(before[q]->0.wf());
            }
        }
    }

    /// Makes the initial process: a process without a parent and with an
    /// empty address space, whose first task joins the ready queue with the
    /// context `trap_cx`. It adopts the children of processes that exit.
    /// Returns its identifier. Fails, and changes nothing, only when the
    /// process table cannot grow any more.
    pub fn add_initproc(&mut self, trap_cx: TrapContext) -> (r: Option<
        usize,
    >)
        requires
            old(self).wf(),
        ensures
            final(self).wf(),
            r is Some <==> first_empty_slot(old(self).processes@) < MAX_HANDLES,
            r is None ==> *final(self) == *old(self),
            r is Some ==> {
                let pid = r->0 as int;
                &&& pid == first_empty_slot(old(self).processes@)
                &&& final(self).initproc == r
                &&& final(self).current == old(self).current
                &&& final(self).blocked == old(self).blocked
                &&& final(self).frames == old(self).frames
                &&& live(final(self).processes@, pid)
                &&& Self::is_fresh_process(final(self).processes[pid]->0, r->0, None)
                &&& forall|q: int|
                    0 <= q < old(self).processes.len() && q != pid ==> final(self).processes[q]
                        == old(self).processes[q]
                &&& final(self).manager@.len() == old(self).manager@.len() + 1
                &&& final(self).manager@.drop_last() == old(self).manager@
                &&& final(self).manager@.last().is_new_task(r->0, 0, trap_cx)
            },
    {
        match self.new_process(None) {
            None => None,
            Some(pid) => {
                self.initproc = Some(pid);
                self.manager.add(TaskControlBlock::new(pid, 0, trap_cx));
                assert(self.manager@.drop_last() =~= old(self).manager@);
                Some(pid)
            },
        }
    }

    /// Adds a thread to the process of the running task. The new task joins
    /// the ready queue with the context `trap_cx`, and both ledgers of the
    /// process get a row for it. Returns the thread's number. Fails, and
    /// changes nothing, only when the process cannot have more threads.
    pub fn create_thread(&mut self, trap_cx: TrapContext) -> (r: Option<
        usize,
    >)
        requires
            old(self).wf(),
            old(self).current is Some,
        ensures
            final(self).wf(),
            r is Some <==> old(self).cur_proc().thread_count < MAX_HANDLES,
            r is None ==> final(self).unchanged(*old(self)),
            r is Some ==> {
                let pid = old(self).current->0.pid;
                &&& r->0 == old(self).cur_proc().thread_count
                &&& *final(self) == (Kernel {
                    processes: final(self).processes,
                    manager: final(self).manager,
                    ..*old(self)
                })
                &&& slot_replaced(
                    old(self).processes@,
                    final(self).processes@,
                    pid as int,
                )
                &&& final(self).processes[pid as int]->0.is_after_add_thread(old(self).cur_proc(
                    ), r)
                &&& final(self).manager@.len() == old(self).manager@.len() + 1
                &&& final(self).manager@.drop_last() == old(self).manager@
                &&& final(self).manager@.last().is_new_task(pid, r->0, trap_cx)
            },
    {
        let (pid, _tid) = self.current_ids();
        let made = match &mut self.processes[pid] {
            Some(p) => p.add_thread(),
            None => None,
        };
        match made {
            None => {
                assert(self.processes@ =~= old(self).processes@);
                None
            },
            Some(tid) => {
                proof {
                    lemma_process_replaced(old(self).processes@, self.processes@, pid as int);
                }
                self.manager.add(TaskControlBlock::new(pid, tid, trap_cx));
                assert(self.manager@.drop_last() =~= old(self).manager@);
                Some(tid)
            },
        }
    }

    /// Whether a sleeping task is due at time `now_ms`.
    pub open spec fn is_due(t: TaskControlBlock, now_ms: usize) -> bool {
        t.wake_at is Some && t.wake_at->0 <= now_ms
    }

    /// Whether `i` is the place of the first blocked task that is due at
    /// `now_ms`.
    pub open spec fn is_first_due(&self, now_ms: usize, i: int) -> bool {
        &&& 0 <= i < self.blocked@.len()
        &&& Self::is_due(self.blocked@[i], now_ms)
        &&& forall|j: int| 0 <= j < i ==> !Self::is_due(#[trigger] self.blocked@[j], now_ms)
    }

    /// Wakes the first blocked task whose sleep ends at or before `now_ms`,
    /// the time at the moment of the call: it joins the ready queue. Returns
    /// whether there was one; if not, nothing has changed.
    pub fn wake_expired(&mut self, now_ms: usize) -> (woke: bool)
        ensures
            old(self).wf() ==> final(self).wf(),
            woke <==> exists|i: int| old(self).is_first_due(now_ms, i),
            !woke ==> *final(self) == *old(self),
            woke ==> {
                let i = choose|i: int| old(self).is_first_due(now_ms, i);
                &&& final(self).blocked@ == old(self).blocked@.remove(i)
                &&& final(self).manager@ == old(self).manager@.push(
                    TaskControlBlock {
                        status: TaskStatus::Ready,
                        wake_at: None,
                        ..old(self).blocked@[i]
                    },
                )
                &&& *final(self) == (Kernel {
                    blocked: final(self).blocked,
                    manager: final(self).manager,
                    ..*old(self)
                })
            },
    {
        let n = self.blocked.len();
        let mut i: usize = 0;
        while i < n
            invariant
                i <= n,
                n == self.blocked@.len(),
                *self == *old(self),
                forall|j: int| 0 <= j < i ==> !Self::is_due(#[trigger] self.blocked@[j], now_ms),
            decreases n - i,
        {
            let due = match self.blocked[i].wake_at {
                Some(at) => at <= now_ms,
                None => false,
            };
            if due {
                assert(old(self).is_first_due(now_ms, i as int));
                proof {
                    let c = choose|c: int| old(self).is_first_due(now_ms, c);
                    assert(old(self).is_first_due(now_ms, c));
                    if c < i {
                        assert(!Self::is_due(self.blocked@[c], now_ms));
                    } else if i < c {
                        assert(!Self::is_due(self.blocked@[i as int], now_ms));
                    }
                }
                let taken = self.blocked.remove(i);
                let mut task = taken.unwrap();
                task.status = TaskStatus::Ready;
                task.wake_at = None;
                self.manager.add(task);
                return true;
            }
            i = i + 1;
        }
        assert forall|c: int| !old(self).is_first_due(now_ms, c) by {
            if old(self).is_first_due(now_ms, c) {
                assert(!Self::is_due(self.blocked@[c], now_ms));
            }
        }
        false
    }
}

} // verus!
