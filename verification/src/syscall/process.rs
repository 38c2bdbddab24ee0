//! System calls on processes, on their memory and on time.

use vstd::prelude::*;
use crate::config::{
    MAX_BRK, MAX_HANDLES, MAX_SYSCALL_NUM, MICRO_PER_SEC, PAGE_SIZE, PERM_R, PERM_U, PERM_W,
};
use crate::mm::address::{page_ceil, page_floor, PhysAddr, VirtAddr};
use crate::mm::frame_allocator::{lemma_after_dealloc, FrameState};
use crate::mm::loader::{load_image, user_sp, ProgramImage};
use crate::mm::memory_set::{
    distinct_pages, lemma_map_unmap_round_trip, map_range, range_frames, range_free, range_mapped,
    unmap_range, user_perm, user_perm_of, valid_user_perm, MemorySet, PageMapping,
};
use crate::mm::user_access::{translate_addr, UserWrite};
use crate::task::control_block::{pass_of, TaskControlBlock, TaskStatus, TrapContext};
use crate::task::kernel::{
    children_ok, lemma_frames_after_change, lemma_process_replaced, live, procs_wf, tree_ok, Kernel,
};
use crate::task::process::{FileDescriptor, ProcessControlBlock};
use crate::task::slots::{find_empty_slot, first_empty_slot, slot_replaced};

verus! {

/// A time as seconds and microseconds.
#[derive(Clone, Copy, Debug, PartialEq, Eq, Structural)]
pub struct TimeVal {
    /// Whole seconds.
    pub sec: usize,
    /// Microseconds of the second that has begun.
    pub usec: usize,
}

/// What a task is told about itself.
pub struct TaskInfo {
    /// Where the task stands in its life.
    pub status: TaskStatus,
    /// How often the task has made each system call.
    pub syscall_times: Vec<u32>,
    /// How long the task has run in all.
    pub time: usize,
}

/// The running task exits with `exit_code`. If it is the first thread of
/// its process, the process becomes a zombie that keeps the exit code for
/// its parent; its children pass to the initial process. The processor is
/// idle afterwards.
pub fn sys_exit(kernel: &mut Kernel, exit_code: i32)
    requires
        old(kernel).wf(),
        old(kernel).current is Some,
    ensures
        final(kernel).wf(),
        final(kernel).is_after_exit(*old(kernel), exit_code),
{
    kernel.exit_current(exit_code);
}

/// The running task gives up the processor and joins the end of the ready
/// queue. Returns 0.
pub fn sys_yield(kernel: &mut Kernel) -> (r: isize)
    requires
        old(kernel).wf(),
        old(kernel).current is Some,
    ensures
        final(kernel).wf(),
        r == 0,
        final(kernel).manager@ == old(kernel).manager@.push(
            TaskControlBlock { status: TaskStatus::Ready, ..old(kernel).current->0 },
        ),
        *final(kernel) == (Kernel {
            current: None,
            manager: final(kernel).manager,
            ..*old(kernel)
        }),
{
    kernel.suspend_current();
    0
}

/// Returns the identifier of the running task's process.
pub fn sys_getpid(kernel: &Kernel) -> (r: isize)
    requires
        kernel.wf(),
        kernel.current is Some,
    ensures
        r == kernel.current->0.pid,
{
    let (pid, _tid) = kernel.current_ids();
    pid as isize
}

/// Gives the running task priority `prio`, and the pass that goes with it.
/// Returns `prio`, or -1 for a priority below 2, which changes nothing.
pub fn sys_set_priority(kernel: &mut Kernel, prio: isize) -> (r: isize)
    requires
        old(kernel).wf(),
        old(kernel).current is Some,
    ensures
        final(kernel).wf(),
        prio < 2 ==> r == -1 && *final(kernel) == *old(kernel),
        prio >= 2 ==> r == prio && *final(kernel) == (Kernel {
            current: Some(
                TaskControlBlock { priority: prio, pass: pass_of(prio), ..old(kernel).current->0 },
            ),
            ..*old(kernel)
        }),
{
    let ok = match &mut kernel.current {
        Some(t) => t.set_priority(prio),
        None => false,
    };
    if ok {
        prio
    } else {
        -1
    }
}

/// Translates virtual address `virt_addr` in the address space that `token`
/// names. Returns nothing if no address space has that token or the page of
/// the address is not mapped in it.
pub fn v2p_addr(kernel: &Kernel, virt_addr: VirtAddr, token: usize) -> (pa: Option<PhysAddr>)
    requires
        kernel.wf(),
    ensures
        pa == if live(kernel.processes@, token as int) {
            translate_addr(kernel.processes[token as int]->0.memory_set@, virt_addr.0 as int)
        } else {
            None
        },
{
    if token >= kernel.processes.len() {
        return None;
    }
    match &kernel.processes[token] {
        Some(p) => p.memory_set.translate_va(virt_addr),
        None => None,
    }
}

/// The time `us`, given in microseconds, as seconds and microseconds.
pub open spec fn time_val(us: usize) -> TimeVal {
    TimeVal { sec: us / MICRO_PER_SEC, usec: us % MICRO_PER_SEC }
}

/// Offset of the field `usec` in a `TimeVal` in user memory.
pub const TIMEVAL_USEC_OFFSET: usize = 8;

/// Tells the running task the time: `us` is the time at the moment of the
/// call in microseconds, `ts` the address of a `TimeVal` in the task's
/// memory. Returns 0 and the value to store with the physical address of
/// each of its two fields, or -1 and nothing if one of the fields lies in a
/// page that is not mapped. The kernel's state is not changed.
pub fn sys_get_time(kernel: &Kernel, us: usize, ts: usize, _tz: usize) -> (r: (
    isize,
    Option<UserWrite<TimeVal>>,
))
    requires
        kernel.wf(),
        kernel.current is Some,
    ensures
        ({
            let m = kernel.cur_proc().memory_set@;
            let sec_at = translate_addr(m, ts as int);
            let usec_at = translate_addr(m, ts + TIMEVAL_USEC_OFFSET);
            &&& r.1 is Some <==> sec_at is Some && usec_at is Some
            &&& r.0 == if r.1 is Some { 0isize } else { -1isize }
            &&& r.1 is Some ==> {
                &&& r.1->0.value == time_val(us)
                &&& r.1->0.addrs@ == seq![sec_at->0, usec_at->0]
            }
        }),
{
    let (pid, _tid) = kernel.current_ids();
    let mut offsets: Vec<usize> = Vec::new();
    offsets.push(0);
    offsets.push(TIMEVAL_USEC_OFFSET);
    let addrs = match &kernel.processes[pid] {
        Some(p) => p.memory_set.translate_fields(ts, &offsets),
        None => None,
    };
    proof {
        let m = kernel.cur_proc().memory_set@;
        assert(offsets[0] == 0 && offsets[1] == TIMEVAL_USEC_OFFSET);
        if addrs is Some {
            assert(Some(addrs->0[0]) == translate_addr(m, ts + offsets[0]));
            assert(Some(addrs->0[1]) == translate_addr(m, ts + offsets[1]));
            assert(addrs->0@ =~= seq![
                translate_addr(m, ts as int)->0,
                translate_addr(m, ts + TIMEVAL_USEC_OFFSET)->0,
            ]);
        } else {
            let i = choose|i: int|
                0 <= i < offsets.len() && !(translate_addr(m, ts + #[trigger] offsets[i]) is Some);
            assert(i == 0 || i == 1);
        }
    }
    match addrs {
        Some(addrs) => (
            0,
            Some(
                UserWrite {
                    value: TimeVal { sec: us / MICRO_PER_SEC, usec: us % MICRO_PER_SEC },
                    addrs,
                },
            ),
        ),
        None => (-1, None),
    }
}

/// Whether `sys_mmap` with these arguments succeeds in kernel state `k`.
pub open spec fn mmap_succeeds(k: Kernel, start: usize, len: usize, port: usize) -> bool {
    &&& start % PAGE_SIZE == 0
    &&& valid_user_perm(port)
    &&& start + len <= usize::MAX
    &&& range_free(
        k.cur_proc().memory_set@,
        page_floor(start as int) as usize,
        page_ceil(start + len) as usize,
    )
    &&& page_ceil(start + len) - page_floor(start as int) <= k.frames@.available()
}

/// Whether `after` is what a `sys_mmap` that succeeds leaves of `before`:
/// the pages of the range are mapped in the address space of the running
/// task's process, with the frames that the allocator handed out, and
/// nothing else has changed.
pub open spec fn is_after_mmap(
    before: Kernel,
    after: Kernel,
    start: usize,
    len: usize,
    port: usize,
) -> bool {
    let pid = before.current->0.pid as int;
    let first = page_floor(start as int) as usize;
    let end = page_ceil(start + len) as usize;
    &&& after == (Kernel { processes: after.processes, frames: after.frames, ..before })
    &&& slot_replaced(before.processes@, after.processes@, pid)
    &&& after.processes[pid]->0 == (ProcessControlBlock {
        memory_set: after.processes[pid]->0.memory_set,
        ..before.cur_proc()
    })
    &&& after.processes[pid]->0.memory_set@ == map_range(
        before.cur_proc().memory_set@,
        first,
        end,
        user_perm(port),
        before.frames@,
    )
    &&& after.frames@ == before.frames@.after_alloc(end - first)
}

/// Maps the `len` bytes from address `start` into the running task's
/// address space, each page to a frame of its own, with the permissions
/// `port`: bit 0 for read, bit 1 for write, bit 2 for execute.
///
/// Returns 0 if all pages were mapped, and -1 if nothing was: `start` is
/// not the start of a page, `port` has none of the three bits or other bits,
/// the range runs past the last address, a page of the range is mapped
/// already, or not enough frames are free.
pub fn sys_mmap(kernel: &mut Kernel, start: usize, len: usize, port: usize) -> (r: isize)
    requires
        old(kernel).wf(),
        old(kernel).current is Some,
    ensures
        final(kernel).wf(),
        !mmap_succeeds(*old(kernel), start, len, port) ==> r == -1 && final(kernel).unchanged(
            *old(kernel),
        ),
        mmap_succeeds(*old(kernel), start, len, port) ==> r == 0 && is_after_mmap(
            *old(kernel),
            *final(kernel),
            start,
            len,
            port,
        ),
{
    let perm = match user_perm_of(port) {
        Some(perm) => perm,
        None => {
            return -1;
        },
    };
    let va = VirtAddr(start);
    if !va.aligned() {
        return -1;
    }
    let stop = match start.checked_add(len) {
        Some(stop) => stop,
        None => {
            return -1;
        },
    };
    let first = va.floor();
    let end = VirtAddr(stop).ceil();
    let (pid, _tid) = kernel.current_ids();
    let ok = match &mut kernel.processes[pid] {
        Some(p) => p.memory_set.map_region(first, end, perm, &mut kernel.frames),
        None => false,
    };
    proof {
        if ok {
            lemma_process_replaced(old(kernel).processes@, kernel.processes@, pid as int);
            lemma_frames_after_change(
                old(kernel).processes@,
                kernel.processes@,
                pid as int,
                old(kernel).frames@,
                kernel.frames@,
            );
            if first >= end {
                assert(kernel.processes[pid as int]->0.memory_set@ =~= map_range(
                    old(kernel).cur_proc().memory_set@,
                    first,
                    end,
                    perm,
                    old(kernel).frames@,
                ));
                assert(old(kernel).frames@.recycled.take(old(kernel).frames@.recycled.len() as int)
                    =~= old(kernel).frames@.recycled);
                assert(kernel.frames@ =~= old(kernel).frames@.after_alloc(0));
            }
        } else {
            assert(kernel.processes@ =~= old(kernel).processes@);
        }
    }
    if ok {
        0
    } else {
        -1
    }
}

/// The number of bytes from `start` that `sys_munmap` takes `len` for: no
/// more than there are addresses.
pub open spec fn clamped_len(start: usize, len: usize) -> int {
    if len <= usize::MAX - start {
        len as int
    } else {
        usize::MAX - start
    }
}

/// Whether `sys_munmap` with these arguments succeeds in kernel state `k`.
pub open spec fn munmap_succeeds(k: Kernel, start: usize, len: usize) -> bool {
    &&& start % PAGE_SIZE == 0
    &&& range_mapped(
        k.cur_proc().memory_set@,
        page_floor(start as int) as usize,
        page_ceil(start + clamped_len(start, len)) as usize,
    )
}

/// Whether `after` is what a `sys_munmap` that succeeds leaves of `before`:
/// the pages of the range are gone from the address space of the running
/// task's process, their frames are free again, and nothing else has
/// changed.
pub open spec fn is_after_munmap(before: Kernel, after: Kernel, start: usize, len: usize) -> bool {
    let pid = before.current->0.pid as int;
    let first = page_floor(start as int) as usize;
    let end = page_ceil(start + clamped_len(start, len)) as usize;
    &&& after == (Kernel { processes: after.processes, frames: after.frames, ..before })
    &&& slot_replaced(before.processes@, after.processes@, pid)
    &&& after.processes[pid]->0 == (ProcessControlBlock {
        memory_set: after.processes[pid]->0.memory_set,
        ..before.cur_proc()
    })
    &&& after.processes[pid]->0.memory_set@ == unmap_range(
        before.cur_proc().memory_set@,
        first,
        end,
    )
    &&& after.frames@ == before.frames@.after_dealloc(
        range_frames(before.cur_proc().memory_set@, first, end),
    )
}

/// Unmaps the `len` bytes from address `start` from the running task's
/// address space and gives their frames back. A length that runs past the
/// last address is cut there.
///
/// Returns 0 if all pages were unmapped, and -1 if nothing was: `start` is
/// not the start of a page, or a page of the range is not mapped.
pub fn sys_munmap(kernel: &mut Kernel, start: usize, len: usize) -> (r: isize)
    requires
        old(kernel).wf(),
        old(kernel).current is Some,
    ensures
        final(kernel).wf(),
        !munmap_succeeds(*old(kernel), start, len) ==> r == -1 && final(kernel).unchanged(
            *old(kernel),
        ),
        munmap_succeeds(*old(kernel), start, len) ==> r == 0 && is_after_munmap(
            *old(kernel),
            *final(kernel),
            start,
            len,
        ),
{
    let va = VirtAddr(start);
    if !va.aligned() {
        return -1;
    }
    let room: usize = usize::MAX - start;
    let taken: usize = if len <= room {
        len
    } else {
        room
    };
    let first = va.floor();
    let end = VirtAddr(start + taken).ceil();
    let (pid, _tid) = kernel.current_ids();
    let ok = match &mut kernel.processes[pid] {
        Some(p) => p.memory_set.unmap_region(first, end, &mut kernel.frames),
        None => false,
    };
    proof {
        if ok {
            lemma_process_replaced(old(kernel).processes@, kernel.processes@, pid as int);
            lemma_frames_after_change(
                old(kernel).processes@,
                kernel.processes@,
                pid as int,
                old(kernel).frames@,
                kernel.frames@,
            );
        } else {
            assert(kernel.processes@ =~= old(kernel).processes@);
        }
    }
    if ok {
        0
    } else {
        -1
    }
}

/// A `sys_mmap` that succeeds, followed at once by a `sys_munmap` of the
/// same range, leaves the translation of the address space as it was: the
/// second call succeeds too, and what it leaves maps exactly the pages that
/// were mapped before the first, to the same frames and with the same
/// permissions.
pub proof fn lemma_mmap_munmap_round_trip(
    k0: Kernel,
    k1: Kernel,
    k2: Kernel,
    start: usize,
    len: usize,
    port: usize,
)
    requires
        k0.current is Some,
        mmap_succeeds(k0, start, len, port),
        is_after_mmap(k0, k1, start, len, port),
        munmap_succeeds(k1, start, len) ==> is_after_munmap(k1, k2, start, len),
    ensures
        munmap_succeeds(k1, start, len),
        k2.cur_proc().memory_set@ == k0.cur_proc().memory_set@,
{
    let m = k0.cur_proc().memory_set@;
    let first = page_floor(start as int) as usize;
    let end = page_ceil(start + len) as usize;
    assert(clamped_len(start, len) == len);
    lemma_map_unmap_round_trip(m, first, end, user_perm(port), k0.frames@);
}

/// Whether `sys_sbrk` with this argument succeeds in kernel state `k`.
pub open spec fn sbrk_succeeds(k: Kernel, size: i32) -> bool {
    let p = k.cur_proc();
    let target = p.program_brk + size;
    &&& p.heap_bottom <= target <= MAX_BRK
    &&& if size >= 0 {
        &&& range_free(
            p.memory_set@,
            page_ceil(p.program_brk as int) as usize,
            page_ceil(target) as usize,
        )
        &&& page_ceil(target) - page_ceil(p.program_brk as int) <= k.frames@.available()
    } else {
        range_mapped(
            p.memory_set@,
            page_ceil(target) as usize,
            page_ceil(p.program_brk as int) as usize,
        )
    }
}

/// Moves the end of the heap of the running task's process by `size` bytes
/// and returns where it was. Pages that the heap grows into are mapped
/// readable and writable; pages that it leaves are unmapped.
///
/// Returns -1, and changes nothing, if the new end lies below the bottom of
/// the heap or beyond the highest address a break may have, if a page to
/// grow into is mapped already or no frame is free for it, or if a page to
/// give up is not mapped.
pub fn sys_sbrk(kernel: &mut Kernel, size: i32) -> (r: isize)
    requires
        old(kernel).wf(),
        old(kernel).current is Some,
    ensures
        final(kernel).wf(),
        !sbrk_succeeds(*old(kernel), size) ==> r == -1 && final(kernel).unchanged(*old(kernel)),
        sbrk_succeeds(*old(kernel), size) ==> {
            let pid = old(kernel).current->0.pid as int;
            let p0 = old(kernel).cur_proc();
            let target = (p0.program_brk + size) as usize;
            let from = page_ceil(p0.program_brk as int) as usize;
            let to = page_ceil(target as int) as usize;
            &&& r == p0.program_brk
            &&& *final(kernel) == (Kernel {
                processes: final(kernel).processes,
                frames: final(kernel).frames,
                ..*old(kernel)
            })
            &&& slot_replaced(old(kernel).processes@, final(kernel).processes@, pid)
            &&& final(kernel).processes[pid]->0 == (ProcessControlBlock {
                program_brk: target,
                memory_set: final(kernel).processes[pid]->0.memory_set,
                ..p0
            })
            &&& size >= 0 ==> {
                &&& final(kernel).processes[pid]->0.memory_set@ == map_range(
                    p0.memory_set@,
                    from,
                    to,
                    PERM_R | PERM_W | PERM_U,
                    old(kernel).frames@,
                )
                &&& final(kernel).frames@ == old(kernel).frames@.after_alloc(to - from)
            }
            &&& size < 0 ==> {
                &&& final(kernel).processes[pid]->0.memory_set@ == unmap_range(
                    p0.memory_set@,
                    to,
                    from,
                )
                &&& final(kernel).frames@ == old(kernel).frames@.after_dealloc(
                    range_frames(p0.memory_set@, to, from),
                )
            }
        },
{
    let (pid, _tid) = kernel.current_ids();
    let (bottom, brk) = match &kernel.processes[pid] {
        Some(p) => (p.heap_bottom, p.program_brk),
        None => (0, 0),
    };
    let target: i64 = brk as i64 + size as i64;
    if target < bottom as i64 || target > MAX_BRK as i64 {
        return -1;
    }
    let new_brk: usize = target as usize;
    let from = VirtAddr(brk).ceil();
    let to = VirtAddr(new_brk).ceil();
    let ok = match &mut kernel.processes[pid] {
        Some(p) => {
            let ok = if size >= 0 {
                p.memory_set.map_region(from, to, PERM_R | PERM_W | PERM_U, &mut kernel.frames)
            } else {
                p.memory_set.unmap_region(to, from, &mut kernel.frames)
            };
            if ok {
                p.program_brk = new_brk;
            }
            ok
        },
        None => false,
    };
    proof {
        if ok {
            lemma_process_replaced(old(kernel).processes@, kernel.processes@, pid as int);
            lemma_frames_after_change(
                old(kernel).processes@,
                kernel.processes@,
                pid as int,
                old(kernel).frames@,
                kernel.frames@,
            );
            if size >= 0 && from >= to {
                assert(kernel.processes[pid as int]->0.memory_set@ =~= map_range(
                    old(kernel).cur_proc().memory_set@,
                    from,
                    to,
                    PERM_R | PERM_W | PERM_U,
                    old(kernel).frames@,
                ));
                assert(old(kernel).frames@.recycled.take(old(kernel).frames@.recycled.len() as int)
                    =~= old(kernel).frames@.recycled);
                assert(kernel.frames@ =~= old(kernel).frames@.after_alloc(0));
            }
        } else {
            assert(kernel.processes@ =~= old(kernel).processes@);
        }
    }
    if ok {
        brk as isize
    } else {
        -1
    }
}

/// Whether child `child` is one that a wait with filter `filter` asks for:
/// -1 asks for any child, another number for the child with that
/// identifier.
pub open spec fn wait_matches(filter: isize, child: usize) -> bool {
    filter == -1 || filter == child
}

/// Whether some child in `cs` is one that `filter` asks for.
pub open spec fn has_match(cs: Seq<usize>, filter: isize) -> bool {
    exists|k: int| 0 <= k < cs.len() && wait_matches(filter, #[trigger] cs[k])
}

/// Whether `cs[k]` is asked for by `filter` and has exited.
pub open spec fn is_zombie_match(
    procs: Seq<Option<ProcessControlBlock>>,
    cs: Seq<usize>,
    filter: isize,
    k: int,
) -> bool {
    0 <= k < cs.len() && wait_matches(filter, cs[k]) && procs[cs[k] as int]->0.is_zombie
}

/// Whether some child in `cs` is asked for by `filter` and has exited.
pub open spec fn has_zombie(
    procs: Seq<Option<ProcessControlBlock>>,
    cs: Seq<usize>,
    filter: isize,
) -> bool {
    exists|k: int| #[trigger] is_zombie_match(procs, cs, filter, k)
}

/// Whether `cs[k]` is the first child in `cs` that is asked for by `filter`
/// and has exited.
pub open spec fn is_first_zombie(
    procs: Seq<Option<ProcessControlBlock>>,
    cs: Seq<usize>,
    filter: isize,
    k: int,
) -> bool {
    &&& is_zombie_match(procs, cs, filter, k)
    &&& forall|j: int| 0 <= j < k ==> !#[trigger] is_zombie_match(procs, cs, filter, j)
}

/// The place in `cs` of the first child that is asked for by `filter` and
/// has exited.
pub open spec fn zombie_index(
    procs: Seq<Option<ProcessControlBlock>>,
    cs: Seq<usize>,
    filter: isize,
) -> int {
    choose|k: int| is_first_zombie(procs, cs, filter, k)
}

/// Only one place is that of the first child that is asked for and has
/// exited.
pub proof fn lemma_first_zombie_unique(
    procs: Seq<Option<ProcessControlBlock>>,
    cs: Seq<usize>,
    filter: isize,
    k: int,
)
    requires
        is_first_zombie(procs, cs, filter, k),
    ensures
        zombie_index(procs, cs, filter) == k,
        has_zombie(procs, cs, filter),
{
    let z = zombie_index(procs, cs, filter);
    assert(is_first_zombie(procs, cs, filter, z));
    if z < k {
        assert(!is_zombie_match(procs, cs, filter, z));
    } else if k < z {
        assert(!is_zombie_match(procs, cs, filter, k));
    }
}

/// Taking a child that lists no children of its own out of its parent's
/// list and out of the process table keeps the table in order.
pub proof fn lemma_reap_tree(
    before: Seq<Option<ProcessControlBlock>>,
    after: Seq<Option<ProcessControlBlock>>,
    parent: int,
    k: int,
)
    requires
        procs_wf(before),
        tree_ok(before),
        before.len() <= usize::MAX,
        live(before, parent),
        0 <= k < before[parent]->0.children@.len(),
        after.len() == before.len(),
        after[before[parent]->0.children@[k] as int] is None,
        after[parent] is Some,
        after[parent]->0 == (ProcessControlBlock {
            children: after[parent]->0.children,
            ..before[parent]->0
        }),
        after[parent]->0.children@ == before[parent]->0.children@.remove(k),
        forall|q: int|
            0 <= q < before.len() && q != parent && q != before[parent]->0.children@[k]
                ==> #[trigger] after[q] == before[q],
    ensures
        procs_wf(after),
        tree_ok(after),
        !after[parent]->0.children@.contains(before[parent]->0.children@[k]),
{
    let cs = before[parent]->0.children@;
    let c = cs[k];
    assert(children_ok(before, parent));
    assert(live(before, cs[k] as int));
    let rest = after[parent]->0.children@;
    assert forall|a: int| 0 <= a < rest.len() implies rest[a] != c && rest[a] == cs[if a < k {
        a
    } else {
        a + 1
    }] by {
        if a < k {
            assert(cs[a] != cs[k]);
        } else {
            assert(cs[k] != cs[a + 1]);
        }
    }
    assert forall|q: int| live(after, q) implies #[trigger] children_ok(after, q) by {
        assert(q != c);
        assert(live(before, q));
        assert(children_ok(before, q));
        let qs = after[q]->0.children@;
        if q == parent {
            assert forall|a: int, b: int| 0 <= a < b < qs.len() implies qs[a] != qs[b] by {
                let a2 = if a < k { a } else { a + 1 };
                let b2 = if b < k { b } else { b + 1 };
                assert(cs[a2] != cs[b2]);
            }
            assert forall|a: int| 0 <= a < qs.len() implies {
                &&& live(after, (#[trigger] qs[a]) as int)
                &&& qs[a] != q
                &&& after[qs[a] as int]->0.parent == Some(q as usize)
            } by {
                let a2 = if a < k { a } else { a + 1 };
                assert(live(before, cs[a2] as int));
                assert(qs[a] != c);
            }
        } else {
            assert(after[q] == before[q]);
            assert forall|a: int| 0 <= a < qs.len() implies {
                &&& live(after, (#[trigger] qs[a]) as int)
                &&& qs[a] != q
                &&& after[qs[a] as int]->0.parent == Some(q as usize)
            } by {
                assert(live(before, qs[a] as int));
                assert(before[qs[a] as int]->0.parent == Some(q as usize));
                assert(before[c as int]->0.parent == Some(parent as usize));
                assert(qs[a] != c);
            }
        }
    }
    assert forall|q: int| 0 <= q < after.len() && (#[trigger] after[q]) is Some
        implies after[q]->0.wf()
        && after[q]->0.pid == q by {
        if q != parent {
            assert(after[q] == before[q]);
        }
    }
    if rest.contains(c) {
        let a = choose|a: int| 0 <= a < rest.len() && rest[a] == c;
        assert(rest[a] != c);
    }
}

/// The running task collects a child of its process that has exited.
/// `pid` says which: -1 for any child, another number for the child with
/// that identifier. `exit_code_ptr` is the address in the task's memory to
/// which the child's exit code goes.
///
/// Returns -1 if no child is the one asked for, and -2 if such children
/// exist but none has exited. Otherwise the first such child that has
/// exited is taken: if the page of `exit_code_ptr` is not mapped the call
/// returns -1; if it is, the child leaves the list of children and the
/// process table, and the call returns its identifier together with the
/// physical address and the exit code to store there. In the other cases
/// nothing is returned to store and nothing has changed.
pub fn sys_waitpid(kernel: &mut Kernel, pid: isize, exit_code_ptr: usize) -> (r: (
    isize,
    Option<(PhysAddr, i32)>,
))
    requires
        old(kernel).wf(),
        old(kernel).current is Some,
    ensures
        final(kernel).wf(),
        ({
            let me = old(kernel).current->0.pid as int;
            let procs = old(kernel).processes@;
            let p0 = old(kernel).cur_proc();
            let cs = p0.children@;
            let k = zombie_index(procs, cs, pid);
            let pa = translate_addr(p0.memory_set@, exit_code_ptr as int);
            let reaped = has_zombie(procs, cs, pid) && pa is Some;
            &&& !has_match(cs, pid) ==> r.0 == -1
            &&& has_match(cs, pid) && !has_zombie(procs, cs, pid) ==> r.0 == -2
            &&& has_zombie(procs, cs, pid) && pa is None ==> r.0 == -1
            &&& !reaped ==> r.1 is None && final(kernel).unchanged(*old(kernel))
            &&& reaped ==> {
                &&& is_first_zombie(procs, cs, pid, k)
                &&& r.0 == cs[k]
                &&& r.1 == Some((pa->0, procs[cs[k] as int]->0.exit_code))
                &&& final(kernel).same_scheduler(*old(kernel))
                &&& final(kernel).processes.len() == procs.len()
                &&& final(kernel).processes[cs[k] as int] is None
                &&& final(kernel).processes[me] is Some
                &&& final(kernel).processes[me]->0 == (ProcessControlBlock {
                    children: final(kernel).processes[me]->0.children,
                    ..p0
                })
                &&& final(kernel).processes[me]->0.children@ == cs.remove(k)
                &&& !final(kernel).processes[me]->0.children@.contains(cs[k])
                &&& forall|q: int|
                    0 <= q < procs.len() && q != me && q != cs[k] ==> final(kernel).processes[q]
                        == procs[q]
            }
        }),
{
    let (me, _tid) = kernel.current_ids();
    let ghost procs = kernel.processes@;
    let ghost cs = kernel.cur_proc().children@;
    assert(children_ok(procs, me as int));
    let mut any = false;
    let mut found: Option<usize> = None;
    let mut pa: Option<PhysAddr> = None;
    match &kernel.processes[me] {
        Some(p) => {
            pa = p.memory_set.translate_va(VirtAddr(exit_code_ptr));
            let n = p.children.len();
            let mut k: usize = 0;
            while k < n && found.is_none()
                invariant
                    k <= n,
                    n == cs.len(),
                    cs == p.children@,
                    procs == kernel.processes@,
                    children_ok(procs, me as int),
                    procs[me as int] == Some(*p),
                    kernel.processes.len() <= MAX_HANDLES,
                    any <==> exists|j: int|
                        0 <= j < (if found is Some { k + 1 } else { k as int }) && wait_matches(
                            pid,
                            #[trigger] cs[j],
                        ),
                    found is None ==> forall|j: int|
                        0 <= j < k ==> !#[trigger] is_zombie_match(procs, cs, pid, j),
                    found is Some ==> is_first_zombie(procs, cs, pid, found->0 as int),
                decreases n - k + if found is None { 1int } else { 0int },
            {
                let c = p.children[k];
                assert(live(procs, cs[k as int] as int));
                if pid == -1 || (pid >= 0 && pid as usize == c) {
                    any = true;
                    let zombie = match &kernel.processes[c] {
                        Some(cp) => cp.is_zombie,
                        None => false,
                    };
                    if zombie {
                        found = Some(k);
                    }
                }
                if found.is_none() {
                    k = k + 1;
                }
            }
            proof {
                if found is Some {
                    lemma_first_zombie_unique(procs, cs, pid, found->0 as int);
                    assert(wait_matches(pid, cs[found->0 as int]));
                } else {
                    assert forall|j: int| !#[trigger] is_zombie_match(procs, cs, pid, j) by {}
                }
            }
        },
        None => {},
    }
    match found {
        None => {
            if any {
                (-2, None)
            } else {
                (-1, None)
            }
        },
        Some(k) => {
            match pa {
                None => (-1, None),
                Some(pa) => {
                    let mut child: usize = 0;
                    match &mut kernel.processes[me] {
                        Some(p) => {
                            child = p.children.remove(k);
                        },
                        None => {},
                    }
                    assert(live(procs, cs[k as int] as int));
                    let exit_code = match &kernel.processes[child] {
                        Some(cp) => cp.exit_code,
                        None => 0,
                    };
                    kernel.processes[child] = None;
                    proof {
                        lemma_reap_tree(procs, kernel.processes@, me as int, k as int);
                        assert(child != old(kernel).current->0.pid);
                        if old(kernel).initproc is Some {
                            assert(procs[child as int]->0.parent == Some(me));
                        }
                    }
                    (child as isize, Some((pa, exit_code)))
                },
            }
        },
    }
}

/// Where field `i` of a `TaskInfo` stands in user memory: the status, then
/// one counter for each system call, then the running time.
pub open spec fn task_info_offset(i: int) -> int {
    if i == 0 {
        0
    } else if i <= MAX_SYSCALL_NUM {
        4 * i
    } else {
        4 * MAX_SYSCALL_NUM + 8
    }
}

/// Tells the running task about itself: `ti` is the address of a
/// `TaskInfo` in the task's memory. Returns 0 and the value to store with
/// the physical address of each of its fields, or -1 and nothing if one of
/// the fields has no address or lies in a page that is not mapped. The
/// kernel's state is not changed.
pub fn sys_task_info(kernel: &Kernel, ti: usize) -> (r: (isize, Option<UserWrite<TaskInfo>>))
    requires
        kernel.wf(),
        kernel.current is Some,
    ensures
        ({
            let m = kernel.cur_proc().memory_set@;
            let fields = MAX_SYSCALL_NUM + 2;
            &&& r.1 is Some <==> forall|i: int|
                0 <= i < fields ==> translate_addr(m, ti + #[trigger] task_info_offset(i)) is Some
            &&& r.0 == if r.1 is Some { 0isize } else { -1isize }
            &&& r.1 is Some ==> {
                &&& r.1->0.value.status == TaskStatus::Running
                &&& r.1->0.value.syscall_times@ == kernel.current->0.syscall_times@
                &&& r.1->0.value.time == kernel.current->0.running_time
                &&& r.1->0.addrs.len() == fields
                &&& forall|i: int|
                    0 <= i < fields ==> Some(#[trigger] r.1->0.addrs[i]) == translate_addr(
                        m,
                        ti + task_info_offset(i),
                    )
            }
        }),
{
    let (pid, _tid) = kernel.current_ids();
    let fields: usize = MAX_SYSCALL_NUM + 2;
    let mut offsets: Vec<usize> = Vec::new();
    let mut i: usize = 0;
    while i < fields
        invariant
            i <= fields,
            fields == MAX_SYSCALL_NUM + 2,
            offsets.len() == i,
            forall|j: int| 0 <= j < i ==> #[trigger] offsets[j] == task_info_offset(j),
        decreases fields - i,
    {
        let off: usize = if i == 0 {
            0
        } else if i <= MAX_SYSCALL_NUM {
            4 * i
        } else {
            4 * MAX_SYSCALL_NUM + 8
        };
        offsets.push(off);
        i = i + 1;
    }
    let addrs = match &kernel.processes[pid] {
        Some(p) => p.memory_set.translate_fields(ti, &offsets),
        None => None,
    };
    proof {
        let m = kernel.cur_proc().memory_set@;
        if addrs is Some {
            assert forall|i: int| 0 <= i < fields implies translate_addr(
                m,
                ti + #[trigger] task_info_offset(i),
            ) is Some by {
                assert(translate_addr(m, ti + offsets[i]) is Some);
            }
        } else {
            let i = choose|i: int|
                0 <= i < offsets.len() && !(translate_addr(m, ti + #[trigger] offsets[i]) is Some);
            assert(translate_addr(m, ti + task_info_offset(i)) is None);
        }
    }
    match addrs {
        None => (-1, None),
        Some(addrs) => {
            let (times, time) = match &kernel.current {
                Some(t) => {
                    let mut times: Vec<u32> = Vec::new();
                    let n = t.syscall_times.len();
                    let mut j: usize = 0;
                    while j < n
                        invariant
                            j <= n,
                            n == t.syscall_times.len(),
                            times@ == t.syscall_times@.take(j as int),
                        decreases n - j,
                    {
                        times.push(t.syscall_times[j]);
                        assert(times@ =~= t.syscall_times@.take(j + 1));
                        j = j + 1;
                    }
                    assert(times@ =~= t.syscall_times@);
                    (times, t.running_time)
                },
                None => (Vec::new(), 0),
            };
            let value = TaskInfo { status: TaskStatus::Running, syscall_times: times, time };
            (0, Some(UserWrite { value, addrs }))
        },
    }
}

/// The mappings of the child of a fork: the pages and permissions of the
/// parent, the `j`-th of them backed by the `j`-th frame that `frames`
/// hands out.
pub open spec fn forked_pages(pages: Seq<PageMapping>, frames: FrameState) -> Seq<PageMapping> {
    Seq::new(
        pages.len(),
        |j: int| PageMapping { vpn: pages[j].vpn, ppn: frames.nth_frame(j), perm: pages[j].perm },
    )
}

/// Whether `p` is a process with identifier `pid` as a fork or a spawn
/// leaves it, apart from its address space: a child of `parent` without
/// children of its own, with one thread, no primitives, the given heap and
/// the given files.
pub open spec fn is_child_process(
    p: ProcessControlBlock,
    pid: usize,
    parent: usize,
    heap_bottom: usize,
    program_brk: usize,
    fd_table: Seq<Option<FileDescriptor>>,
) -> bool {
    &&& p.pid == pid
    &&& p.parent == Some(parent)
    &&& p.children@ == Seq::<usize>::empty()
    &&& !p.is_zombie
    &&& p.exit_code == 0
    &&& p.zombie_task is None
    &&& p.memory_set.token == pid
    &&& p.heap_bottom == heap_bottom
    &&& p.program_brk == program_brk
    &&& p.fd_table@ == fd_table
    &&& p.thread_count == 1
    &&& p.mutex_list@.len() == 0
    &&& p.semaphore_list@.len() == 0
    &&& p.condvar_list@.len() == 0
    &&& !p.enable_deadlock_detect
}

/// Whether `after` is `before` with a new process `child` that the process
/// `parent` lists as its last child, and nothing else changed in the
/// process table.
pub open spec fn child_added(
    before: Seq<Option<ProcessControlBlock>>,
    after: Seq<Option<ProcessControlBlock>>,
    parent: int,
    child: int,
) -> bool {
    &&& child == first_empty_slot(before)
    &&& !live(before, child)
    &&& live(after, child)
    &&& after.len() == if child == before.len() { before.len() + 1 } else { before.len() }
    &&& after[parent] is Some
    &&& after[parent]->0 == (ProcessControlBlock {
        children: after[parent]->0.children,
        ..before[parent]->0
    })
    &&& after[parent]->0.children@ == before[parent]->0.children@.push(child as usize)
    &&& !before[parent]->0.children@.contains(child as usize)
    &&& forall|q: int|
        0 <= q < before.len() && q != parent && q != child ==> after[q] == before[q]
}

/// Whether `sys_fork` succeeds in kernel state `k`.
pub open spec fn fork_succeeds(k: Kernel) -> bool {
    &&& first_empty_slot(k.processes@) < MAX_HANDLES
    &&& k.cur_proc().memory_set.pages.len() <= k.frames@.available()
}

/// A copy of `pages` in which the `j`-th page is backed by `frames[j]`.
fn rebase_pages(pages: &Vec<PageMapping>, frames: &Vec<usize>) -> (r: Vec<PageMapping>)
    requires
        frames.len() == pages.len(),
    ensures
        r.len() == pages.len(),
        forall|j: int|
            0 <= j < pages.len() ==> #[trigger] r[j] == (PageMapping {
                vpn: pages[j].vpn,
                ppn: frames[j],
                perm: pages[j].perm,
            }),
{
    let n = pages.len();
    let mut r: Vec<PageMapping> = Vec::new();
    let mut j: usize = 0;
    while j < n
        invariant
            j <= n,
            n == pages.len(),
            frames.len() == n,
            r.len() == j,
            forall|i: int|
                0 <= i < j ==> #[trigger] r[i] == (PageMapping {
                    vpn: pages[i].vpn,
                    ppn: frames[i],
                    perm: pages[i].perm,
                }),
        decreases n - j,
    {
        r.push(PageMapping { vpn: pages[j].vpn, ppn: frames[j], perm: pages[j].perm });
        j = j + 1;
    }
    r
}

/// A copy of a table of open files.
fn copy_fds(table: &Vec<Option<FileDescriptor>>) -> (r: Vec<Option<FileDescriptor>>)
    ensures
        r@ == table@,
{
    let n = table.len();
    let mut r: Vec<Option<FileDescriptor>> = Vec::new();
    let mut j: usize = 0;
    while j < n
        invariant
            j <= n,
            n == table.len(),
            r@ == table@.take(j as int),
        decreases n - j,
    {
        r.push(table[j]);
        assert(r@ =~= table@.take(j + 1));
        j = j + 1;
    }
    assert(r@ =~= table@);
    r
}

/// Makes a copy of the running task's process as its child.
///
/// The child gets the first empty slot of the process table, or a new last
/// slot, as its identifier. Its address space maps the pages of the parent
/// with the same permissions, each to a fresh frame; copying what the
/// frames hold is left to the caller, who finds the pages of parent and
/// child in the same order. The child has the parent's open files and heap
/// bounds, and one task, which is ready, shares the parent task's stride,
/// pass and priority, and will see 0 as the result of this call. The parent
/// is returned the child's identifier.
///
/// Returns -1, and changes nothing, when the process table cannot grow any
/// more or there are fewer free frames than the parent has pages.
pub fn sys_fork(kernel: &mut Kernel) -> (r: isize)
    requires
        old(kernel).wf(),
        old(kernel).current is Some,
    ensures
        final(kernel).wf(),
        !fork_succeeds(*old(kernel)) ==> r == -1 && final(kernel).unchanged(*old(kernel)),
        fork_succeeds(*old(kernel)) ==> {
            let me = old(kernel).current->0.pid;
            let child = first_empty_slot(old(kernel).processes@);
            let p0 = old(kernel).cur_proc();
            let cp = final(kernel).processes[child]->0;
            &&& r == child
            &&& final(kernel).current == old(kernel).current
            &&& final(kernel).blocked == old(kernel).blocked
            &&& final(kernel).initproc == old(kernel).initproc
            &&& final(kernel).frames@ == old(kernel).frames@.after_alloc(
                p0.memory_set.pages.len() as int,
            )
            &&& final(kernel).manager@.len() == old(kernel).manager@.len() + 1
            &&& final(kernel).manager@.drop_last() == old(kernel).manager@
            &&& final(kernel).manager@.last().is_forked_from(old(kernel).current->0, child as usize)
            &&& child_added(old(kernel).processes@, final(kernel).processes@, me as int, child)
            &&& is_child_process(
                cp,
                child as usize,
                me,
                p0.heap_bottom,
                p0.program_brk,
                p0.fd_table@,
            )
            &&& cp.memory_set.pages@ == forked_pages(p0.memory_set.pages@, old(kernel).frames@)
        },
{
    let (me, _tid) = kernel.current_ids();
    let child = find_empty_slot(&kernel.processes);
    if child >= MAX_HANDLES {
        return -1;
    }
    let pages_needed = match &kernel.processes[me] {
        Some(p) => p.memory_set.pages.len(),
        None => 0,
    };
    let frames = match kernel.frames.alloc_many(pages_needed) {
        Some(frames) => frames,
        None => {
            return -1;
        },
    };
    let (pages, fds, bottom, brk) = match &kernel.processes[me] {
        Some(p) => (
            rebase_pages(&p.memory_set.pages, &frames),
            copy_fds(&p.fd_table),
            p.heap_bottom,
            p.program_brk,
        ),
        None => (Vec::new(), Vec::new(), 0, 0),
    };
    let ghost p0 = old(kernel).cur_proc();
    assert(pages@ =~= forked_pages(p0.memory_set.pages@, old(kernel).frames@));
    assert(distinct_pages(pages@)) by {
        assert forall|i: int, j: int| 0 <= i < j < pages@.len()
            implies (#[trigger] pages@[i]).vpn != (
        #[trigger] pages@[j]).vpn by {
            assert(p0.memory_set.pages@[i].vpn != p0.memory_set.pages@[j].vpn);
        }
    }
    let made = kernel.new_process(Some(me));
    let ghost mid = kernel.processes@;
    let cpid = made.unwrap();
    match &mut kernel.processes[cpid] {
        Some(cp) => {
            cp.memory_set.pages = pages;
            cp.fd_table = fds;
            cp.heap_bottom = bottom;
            cp.program_brk = brk;
        },
        None => {},
    }
    proof {
        lemma_process_replaced(mid, kernel.processes@, cpid as int);
    }
    let (cx, stride, pass, priority) = match &kernel.current {
        Some(t) => (
            TrapContext { a0: 0, sepc: t.trap_cx.sepc, sp: t.trap_cx.sp },
            t.stride,
            t.pass,
            t.priority,
        ),
        None => (TrapContext { a0: 0, sepc: 0, sp: 0 }, 0, 0, 0),
    };
    let mut task = TaskControlBlock::new(cpid, 0, cx);
    task.stride = stride;
    task.pass = pass;
    task.priority = priority;
    kernel.manager.add(task);
    assert(kernel.manager@.drop_last() =~= old(kernel).manager@);
    cpid as isize
}

/// The frames that are free once the address space of the running task's
/// process has been given up.
pub open spec fn frames_after_release(k: Kernel) -> FrameState {
    k.frames@.after_dealloc(MemorySet::frames_of(k.cur_proc().memory_set.pages@))
}

/// Replaces the program of the running task's process by the program with
/// the layout `image`; no image stands for a program that was asked for but
/// not found.
///
/// The old address space is given up and a new one is built from the
/// image, with a fresh stack. The heap is empty and starts above the stack.
/// The task goes on at the entry point of the image with the new stack.
/// The process keeps its identifier, its open files, its children and its
/// primitives. Returns 0.
///
/// Returns -1, and changes nothing, if there is no image or the image
/// cannot be loaded with the frames that the old address space and the
/// allocator have between them.
pub fn sys_exec(kernel: &mut Kernel, image: Option<&ProgramImage>) -> (r: isize)
    requires
        old(kernel).wf(),
        old(kernel).current is Some,
    ensures
        final(kernel).wf(),
        ({
            let loaded = load_image(frames_after_release(*old(kernel)), image->0.segments@);
            let pid = old(kernel).current->0.pid as int;
            &&& image is None || loaded is None ==> r == -1 && final(kernel).unchanged(
                *old(kernel),
            )
            &&& image is Some && loaded is Some ==> {
                let sp = user_sp(image->0.segments@) as usize;
                &&& r == 0
                &&& *final(kernel) == (Kernel {
                    processes: final(kernel).processes,
                    frames: final(kernel).frames,
                    current: final(kernel).current,
                    ..*old(kernel)
                })
                &&& slot_replaced(old(kernel).processes@, final(kernel).processes@, pid)
                &&& final(kernel).processes[pid]->0 == (ProcessControlBlock {
                    memory_set: final(kernel).processes[pid]->0.memory_set,
                    heap_bottom: sp,
                    program_brk: sp,
                    ..old(kernel).cur_proc()
                })
                &&& final(kernel).processes[pid]->0.memory_set@ == loaded->0.map
                &&& final(kernel).frames@ == loaded->0.frames
                &&& final(kernel).current == Some(
                    TaskControlBlock {
                        trap_cx: TrapContext { a0: 0, sepc: image->0.entry, sp },
                        ..old(kernel).current->0
                    },
                )
            }
        }),
{
    let image = match image {
        Some(image) => image,
        None => {
            return -1;
        },
    };
    let (pid, _tid) = kernel.current_ids();
    let mut scratch = kernel.frames.duplicate();
    match &kernel.processes[pid] {
        Some(p) => {
            let n = p.memory_set.pages.len();
            let ghost all = p.memory_set.pages@;
            let mut j: usize = 0;
            assert(scratch@ =~= kernel.frames@.after_dealloc(MemorySet::frames_of(all).take(0)));
            while j < n
                invariant
                    j <= n,
                    n == all.len(),
                    all == p.memory_set.pages@,
                    p.memory_set.wf(),
                    p.memory_set.owned_by(kernel.frames@),
                    scratch.wf(),
                    scratch@ == kernel.frames@.after_dealloc(
                        MemorySet::frames_of(all).take(j as int),
                    ),
                    forall|i: int| 0 <= i < n - j ==> scratch@.in_use((#[trigger] all[i]).ppn),
                    forall|ppn: usize|
                        kernel.frames@.in_use(ppn) && !p.memory_set.has_frame(ppn)
                            ==> scratch@.in_use(ppn),
                    forall|ppn: usize|
                        !kernel.frames@.in_use(ppn) ==> !scratch@.in_use(ppn),
                decreases n - j,
            {
                let ghost prev = scratch@;
                let gone = p.memory_set.pages[n - 1 - j].ppn;
                proof {
                    lemma_after_dealloc(prev, seq![gone]);
                    assert(all[n - 1 - j].ppn == gone);
                    assert(p.memory_set.has_frame(gone));
                }
                scratch.dealloc_frame(gone);
                assert(scratch@ =~= kernel.frames@.after_dealloc(
                    MemorySet::frames_of(all).take(j + 1),
                ));
                proof {
                    assert forall|i: int| 0 <= i < n - (j + 1) implies scratch@.in_use(
                        (#[trigger] all[i]).ppn,
                    ) by {
                        assert(all[i].ppn != all[n - 1 - j].ppn);
                        assert(!seq![gone].contains(all[i].ppn));
                    }
                    assert forall|ppn: usize|
                        kernel.frames@.in_use(ppn) && !p.memory_set.has_frame(
                            ppn,
                        ) implies scratch@.in_use(ppn) by {
                        if seq![gone].contains(ppn) {
                            assert(ppn == gone);
                        }
                    }
                }
                j = j + 1;
            }
            assert(MemorySet::frames_of(all).take(n as int) =~= MemorySet::frames_of(all));
        },
        None => {},
    }
    let loaded = match MemorySet::load_image(pid, image, &mut scratch) {
        Some(loaded) => loaded,
        None => {
            return -1;
        },
    };
    let sp = loaded.user_sp;
    match &mut kernel.processes[pid] {
        Some(p) => {
            p.memory_set = loaded.memory_set;
            p.heap_bottom = sp;
            p.program_brk = sp;
        },
        None => {},
    }
    kernel.frames = scratch;
    match &mut kernel.current {
        Some(t) => {
            t.trap_cx = TrapContext::app_init_context(image.entry, sp);
        },
        None => {},
    }
    proof {
        lemma_process_replaced(old(kernel).processes@, kernel.processes@, pid as int);
        lemma_frames_after_change(
            old(kernel).processes@,
            kernel.processes@,
            pid as int,
            old(kernel).frames@,
            kernel.frames@,
        );
    }
    0
}

/// Whether `sys_spawn` with this image succeeds in kernel state `k`.
pub open spec fn spawn_succeeds(k: Kernel, image: Option<&ProgramImage>) -> bool {
    &&& image is Some
    &&& first_empty_slot(k.processes@) < MAX_HANDLES
    &&& load_image(k.frames@, image->0.segments@) is Some
}

/// Makes a child of the running task's process that runs the program with
/// the layout `image`; no image stands for a program that was asked for but
/// not found.
///
/// The child gets the first empty slot of the process table, or a new last
/// slot, as its identifier. Its address space is built from the image, with
/// a fresh stack; nothing of the parent's address space is copied. It has
/// the console as its first three files and the heap bounds of the parent.
/// Its one task is ready, has default priority, and starts at the entry
/// point of the image. The parent is returned the child's identifier.
///
/// Returns -1, and changes nothing, if there is no image, the process table
/// cannot grow any more, or the image cannot be loaded with the free
/// frames.
pub fn sys_spawn(kernel: &mut Kernel, image: Option<&ProgramImage>) -> (r: isize)
    requires
        old(kernel).wf(),
        old(kernel).current is Some,
    ensures
        final(kernel).wf(),
        !spawn_succeeds(*old(kernel), image) ==> r == -1 && final(kernel).unchanged(*old(kernel)),
        spawn_succeeds(*old(kernel), image) ==> {
            let me = old(kernel).current->0.pid;
            let child = first_empty_slot(old(kernel).processes@);
            let p0 = old(kernel).cur_proc();
            let cp = final(kernel).processes[child]->0;
            let loaded = load_image(old(kernel).frames@, image->0.segments@)->0;
            let sp = user_sp(image->0.segments@) as usize;
            &&& r == child
            &&& final(kernel).current == old(kernel).current
            &&& final(kernel).blocked == old(kernel).blocked
            &&& final(kernel).initproc == old(kernel).initproc
            &&& final(kernel).frames@ == loaded.frames
            &&& final(kernel).manager@.len() == old(kernel).manager@.len() + 1
            &&& final(kernel).manager@.drop_last() == old(kernel).manager@
            &&& final(kernel).manager@.last().is_new_task(
                child as usize,
                0,
                TrapContext { a0: 0, sepc: image->0.entry, sp },
            )
            &&& child_added(old(kernel).processes@, final(kernel).processes@, me as int, child)
            &&& is_child_process(
                cp,
                child as usize,
                me,
                p0.heap_bottom,
                p0.program_brk,
                seq![
                    Some(FileDescriptor { file: 0, readable: true, writable: false }),
                    Some(FileDescriptor { file: 1, readable: false, writable: true }),
                    Some(FileDescriptor { file: 1, readable: false, writable: true }),
                ],
            )
            &&& cp.memory_set@ == loaded.map
        },
{
    let image = match image {
        Some(image) => image,
        None => {
            return -1;
        },
    };
    let (me, _tid) = kernel.current_ids();
    let child = find_empty_slot(&kernel.processes);
    if child >= MAX_HANDLES {
        return -1;
    }
    let mut scratch = kernel.frames.duplicate();
    let loaded = match MemorySet::load_image(child, image, &mut scratch) {
        Some(loaded) => loaded,
        None => {
            return -1;
        },
    };
    let (bottom, brk) = match &kernel.processes[me] {
        Some(p) => (p.heap_bottom, p.program_brk),
        None => (0, 0),
    };
    let made = kernel.new_process(Some(me));
    let ghost mid = kernel.processes@;
    let cpid = made.unwrap();
    let sp = loaded.user_sp;
    match &mut kernel.processes[cpid] {
        Some(cp) => {
            cp.memory_set = loaded.memory_set;
            cp.heap_bottom = bottom;
            cp.program_brk = brk;
        },
        None => {},
    }
    kernel.frames = scratch;
    proof {
        lemma_process_replaced(mid, kernel.processes@, cpid as int);
    }
    kernel.manager.add(
        TaskControlBlock::new(cpid, 0, TrapContext::app_init_context(image.entry, sp)),
    );
    assert(kernel.manager@.drop_last() =~= old(kernel).manager@);
    cpid as isize
}

} // verus!
