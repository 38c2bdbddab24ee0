//! The control block of one schedulable unit.

use vstd::prelude::*;
use crate::config::{BIG_STRIDE, DEFAULT_PRIORITY, MAX_SYSCALL_NUM, MIN_PRIORITY};

verus! {

/// Where a task stands in its life.
#[derive(Clone, Copy, Debug, PartialEq, Eq, Structural)]
pub enum TaskStatus {
    /// Waiting in the ready queue.
    Ready,
    /// Running on the processor.
    Running,
    /// Waiting for a primitive or a timer.
    Blocked,
    /// Terminated and not yet collected.
    Zombie,
}

/// What is kept of a task's user context while it does not run.
#[derive(Clone, Copy, Debug, PartialEq, Eq, Structural)]
pub struct TrapContext {
    /// The register that carries a system call's result back to the task.
    pub a0: usize,
    /// The address at which the task goes on.
    pub sepc: usize,
    /// The task's stack pointer.
    pub sp: usize,
}

impl TrapContext {
    /// The context of a task that starts at `entry` with its stack at `sp`.
    pub fn app_init_context(entry: usize, sp: usize) -> (cx: TrapContext)
        ensures
            cx == (TrapContext { a0: 0, sepc: entry, sp }),
    {
        TrapContext { a0: 0, sepc: entry, sp }
    }
}

/// The stride that one dispatch adds to a task of priority `priority`.
pub open spec fn pass_of(priority: isize) -> isize {
    (BIG_STRIDE as int / priority as int) as isize
}

/// One schedulable unit: a thread of a process.
pub struct TaskControlBlock {
    /// The process the task belongs to.
    pub pid: usize,
    /// The number of the task among the threads of its process.
    pub tid: usize,
    /// Where the task stands in its life.
    pub status: TaskStatus,
    /// The saved user context.
    pub trap_cx: TrapContext,
    /// The distance the task has run, in stride units.
    pub stride: isize,
    /// What one dispatch adds to `stride`.
    pub pass: isize,
    /// The task's share of the processor.
    pub priority: isize,
    /// How often the task has made each system call.
    pub syscall_times: Vec<u32>,
    /// How long the task has run in all.
    pub running_time: usize,
    /// The spinning mutex the task is busy-waiting for, if any.
    pub spinning_on: Option<usize>,
    /// The time, in milliseconds, at which a sleeping task is to be woken.
    pub wake_at: Option<usize>,
}

impl TaskControlBlock {
    /// The pass follows from the priority, and there is one counter for each
    /// system call.
    pub open spec fn wf(&self) -> bool {
        &&& self.priority >= MIN_PRIORITY
        &&& self.pass == pass_of(self.priority)
        &&& self.syscall_times.len() == MAX_SYSCALL_NUM
    }

    /// The task after one dispatch.
    pub open spec fn advanced(self) -> TaskControlBlock {
        TaskControlBlock { stride: (self.stride + self.pass) as isize, ..self }
    }

    /// Whether one more dispatch keeps the stride within its type.
    pub open spec fn can_advance(&self) -> bool {
        isize::MIN <= self.stride + self.pass <= isize::MAX
    }

    /// Whether this is a ready task of process `pid` and thread `tid` with
    /// context `trap_cx` and default priority that has not run yet.
    pub open spec fn is_new_task(&self, pid: usize, tid: usize, trap_cx: TrapContext) -> bool {
        &&& self.pid == pid
        &&& self.tid == tid
        &&& self.status == TaskStatus::Ready
        &&& self.trap_cx == trap_cx
        &&& self.stride == 0
        &&& self.priority == DEFAULT_PRIORITY
        &&& self.pass == BIG_STRIDE / DEFAULT_PRIORITY
        &&& self.syscall_times@ == Seq::new(MAX_SYSCALL_NUM as nat, |i: int| 0u32)
        &&& self.running_time == 0
        &&& self.spinning_on is None
        &&& self.wake_at is None
    }

    /// Whether this is the first task of process `pid`, made by a fork of
    /// the process of `parent`: it is ready, has the context of `parent`
    /// with 0 as the result of the call, and the stride, pass and priority
    /// of `parent`, and has not run yet.
    pub open spec fn is_forked_from(&self, parent: TaskControlBlock, pid: usize) -> bool {
        &&& self.pid == pid
        &&& self.tid == 0
        &&& self.status == TaskStatus::Ready
        &&& self.trap_cx == (TrapContext { a0: 0, ..parent.trap_cx })
        &&& self.stride == parent.stride
        &&& self.priority == parent.priority
        &&& self.pass == parent.pass
        &&& self.syscall_times@ == Seq::new(MAX_SYSCALL_NUM as nat, |i: int| 0u32)
        &&& self.running_time == 0
        &&& self.spinning_on is None
        &&& self.wake_at is None
    }

    /// A ready task with default priority that has not run yet.
    pub fn new(pid: usize, tid: usize, trap_cx: TrapContext) -> (t: TaskControlBlock)
        ensures
            t.wf(),
            t.is_new_task(pid, tid, trap_cx),
    {
        let times: Vec<u32> = vec![0u32; MAX_SYSCALL_NUM];
        assert(times@ =~= Seq::new(MAX_SYSCALL_NUM as nat, |i: int| 0u32));
        TaskControlBlock {
            pid,
            tid,
            status: TaskStatus::Ready,
            trap_cx,
            stride: 0,
            pass: BIG_STRIDE / DEFAULT_PRIORITY,
            priority: DEFAULT_PRIORITY,
            syscall_times: times,
            running_time: 0,
            spinning_on: None,
            wake_at: None,
        }
    }

    /// Gives the task priority `priority` and the pass that goes with it.
    /// A priority below the minimum is refused and changes nothing.
    pub fn set_priority(&mut self, priority: isize) -> (ok: bool)
        ensures
            ok == (priority >= MIN_PRIORITY),
            ok ==> *final(self) == (TaskControlBlock {
                priority,
                pass: pass_of(priority),
                ..*old(self)
            }),
            !ok ==> *final(self) == *old(self),
            old(self).wf() ==> final(self).wf(),
    {
        if priority >= MIN_PRIORITY {
            self.priority = priority;
            self.pass = BIG_STRIDE / priority;
            true
        } else {
            false
        }
    }

    /// Counts one more call of system call `id`. An unknown `id` and a
    /// counter that is full are left alone.
    pub fn record_syscall(&mut self, id: usize)
        ensures
            final(self).syscall_times@ == if id < old(self).syscall_times.len() && old(
                self,
            ).syscall_times[id as int] < u32::MAX {
                old(self).syscall_times@.update(
                    id as int,
                    (old(self).syscall_times[id as int] + 1) as u32,
                )
            } else {
                old(self).syscall_times@
            },
            final(self).pid == old(self).pid,
            final(self).tid == old(self).tid,
            final(self).status == old(self).status,
            final(self).trap_cx == old(self).trap_cx,
            final(self).stride == old(self).stride,
            final(self).pass == old(self).pass,
            final(self).priority == old(self).priority,
            final(self).running_time == old(self).running_time,
            final(self).spinning_on == old(self).spinning_on,
            final(self).wake_at == old(self).wake_at,
    {
        if id < self.syscall_times.len() && self.syscall_times[id] < u32::MAX {
            self.syscall_times[id] += 1;
        }
    }
}

} // verus!
