//! System calls on mutexes, semaphores and condition variables, on the
//! deadlock detector, and the call that puts a task to sleep.

use vstd::prelude::*;
use crate::config::{DEADLOCK_REFUSED, MAX_HANDLES};
use crate::sync::primitives::Acquire;
use crate::task::control_block::{TaskControlBlock, TaskStatus};
use crate::task::kernel::{lemma_process_replaced, Kernel};
use crate::task::process::{LockResult, ProcessControlBlock, ReleaseResult, SignalResult};
use crate::task::slots::{first_empty_slot, slot_replaced};

verus! {

/// The number that a blocking acquisition which ended with `r` returns.
pub open spec fn lock_code(r: LockResult) -> isize {
    match r {
        LockResult::BadHandle => -1isize,
        LockResult::Refused => DEADLOCK_REFUSED,
        LockResult::Granted(_) => 0isize,
    }
}

/// Parks the running task as the outcome `how` of a primitive asks.
fn park(kernel: &mut Kernel, how: Acquire, mutex_id: usize)
    requires
        old(kernel).current is Some,
    ensures
        final(kernel).is_parked(*old(kernel), how, mutex_id),
        final(kernel).processes == old(kernel).processes,
        how is Acquired ==> *final(kernel) == *old(kernel),
        !(how is Acquired) ==> final(kernel).current is None,
        old(kernel).wf() ==> final(kernel).wf(),
{
    match how {
        Acquire::Acquired => {},
        Acquire::Sleep => {
            kernel.block_current();
        },
        Acquire::Spin => {
            match &mut kernel.current {
                Some(t) => {
                    t.spinning_on = Some(mutex_id);
                },
                None => {},
            }
            kernel.suspend_current();
        },
    }
}

/// Makes a mutex in the running task's process, of the sleeping kind if
/// `blocking` and of the spinning kind if not. Returns its handle: the first
/// empty slot of the process's mutex table, or a new last slot. If deadlock
/// detection is enabled, the detector watches the mutex from now on. Returns
/// -1, and changes nothing, only when the table cannot grow any more.
pub fn sys_mutex_create(kernel: &mut Kernel, blocking: bool) -> (r: isize)
    requires
        old(kernel).wf(),
        old(kernel).current is Some,
    ensures
        final(kernel).wf(),
        ({
            let pid = old(kernel).current->0.pid;
            let slot = first_empty_slot(old(kernel).cur_proc().mutex_list@);
            &&& slot >= MAX_HANDLES ==> r == -1 && final(kernel).unchanged(*old(kernel))
            &&& slot < MAX_HANDLES ==> {
                &&& r == slot
                &&& old(kernel).only_process_changed(*final(kernel), pid)
                &&& final(kernel).processes[pid as int]->0.is_after_mutex_create(
                    old(kernel).cur_proc(),
                    blocking,
                    Some(slot as usize),
                )
            }
        }),
{
    let (pid, _tid) = kernel.current_ids();
    let made = match &mut kernel.processes[pid] {
        Some(p) => p.mutex_create(blocking),
        None => None,
    };
    match made {
        Some(id) => {
            proof {
                lemma_process_replaced(old(kernel).processes@, kernel.processes@, pid as int);
            }
            id as isize
        },
        None => {
            assert(kernel.processes@ =~= old(kernel).processes@);
            -1
        },
    }
}

/// The running task asks for mutex `mutex_id` of its process.
///
/// Returns -1 if the handle names no mutex. If deadlock detection is
/// enabled and the detector watches the mutex, the request first goes to the
/// detector; if the state with the request recorded is not safe, the call
/// returns the refusal code. In both cases nothing has changed.
///
/// Otherwise the call returns 0. A free mutex is taken and the task runs on.
/// At an owned mutex the task joins the mutex's queue and gives up the
/// processor: it sleeps if the mutex is of the sleeping kind, and goes to
/// the ready queue as a busy-waiting task if it is of the spinning kind.
pub fn sys_mutex_lock(kernel: &mut Kernel, mutex_id: usize) -> (r: isize)
    requires
        old(kernel).wf(),
        old(kernel).current is Some,
    ensures
        final(kernel).wf(),
        ({
            let pid = old(kernel).current->0.pid;
            let tid = old(kernel).current->0.tid;
            let res = old(kernel).cur_proc().mutex_lock_result(tid, mutex_id);
            &&& r == lock_code(res)
            &&& !(res is Granted) ==> final(kernel).unchanged(*old(kernel))
            &&& res is Granted ==> {
                &&& slot_replaced(old(kernel).processes@, final(kernel).processes@, pid as int)
                &&& final(kernel).processes[pid as int]->0.is_after_mutex_lock(
                    old(kernel).cur_proc(),
                    tid,
                    mutex_id,
                    res,
                )
                &&& final(kernel).is_parked(*old(kernel), res->0, mutex_id)
            }
        }),
{
    let (pid, tid) = kernel.current_ids();
    let res = match &mut kernel.processes[pid] {
        Some(p) => p.mutex_lock(tid, mutex_id),
        None => LockResult::BadHandle,
    };
    match res {
        LockResult::BadHandle => {
            assert(kernel.processes@ =~= old(kernel).processes@);
            -1
        },
        LockResult::Refused => {
            assert(kernel.processes@ =~= old(kernel).processes@);
            DEADLOCK_REFUSED
        },
        LockResult::Granted(how) => {
            proof {
                lemma_process_replaced(old(kernel).processes@, kernel.processes@, pid as int);
            }
            park(kernel, how, mutex_id);
            0
        },
    }
}

/// The running task lets go of mutex `mutex_id` of its process.
///
/// Returns -1, and changes nothing, if the handle names no mutex. Otherwise
/// returns 0: the mutex passes to its first waiter, which is woken if it
/// sleeps, or becomes free if nobody waits, and the release is booked on the
/// detector's ledger if the mutex is on it.
pub fn sys_mutex_unlock(kernel: &mut Kernel, mutex_id: usize) -> (r: isize)
    requires
        old(kernel).wf(),
        old(kernel).current is Some,
    ensures
        final(kernel).wf(),
        ({
            let pid = old(kernel).current->0.pid;
            let tid = old(kernel).current->0.tid;
            let p0 = old(kernel).cur_proc();
            &&& !p0.valid_mutex(mutex_id) ==> r == -1 && final(kernel).unchanged(*old(kernel))
            &&& p0.valid_mutex(mutex_id) ==> {
                let woken = p0.mutex_list[mutex_id as int]->0.unlock_wakes();
                &&& r == 0
                &&& slot_replaced(old(kernel).processes@, final(kernel).processes@, pid as int)
                &&& final(kernel).processes[pid as int]->0.is_after_mutex_unlock(
                    p0,
                    tid,
                    mutex_id,
                    ReleaseResult::Released(woken),
                )
                &&& final(kernel).is_after_wake(*old(kernel), pid, woken, None)
            }
        }),
{
    let (pid, tid) = kernel.current_ids();
    let res = match &mut kernel.processes[pid] {
        Some(p) => p.mutex_unlock(tid, mutex_id),
        None => ReleaseResult::BadHandle,
    };
    match res {
        ReleaseResult::BadHandle => {
            assert(kernel.processes@ =~= old(kernel).processes@);
            -1
        },
        ReleaseResult::Released(woken) => {
            proof {
                lemma_process_replaced(old(kernel).processes@, kernel.processes@, pid as int);
            }
            kernel.wake_thread(pid, woken, None);
            0
        },
    }
}

/// Makes a semaphore with `res_count` free units in the running task's
/// process. Returns its handle: the first empty slot of the process's
/// semaphore table, or a new last slot. If deadlock detection is enabled,
/// the detector watches the semaphore from now on. Returns -1, and changes
/// nothing, only when the table cannot grow any more.
pub fn sys_semaphore_create(kernel: &mut Kernel, res_count: usize) -> (r: isize)
    requires
        old(kernel).wf(),
        old(kernel).current is Some,
    ensures
        final(kernel).wf(),
        ({
            let pid = old(kernel).current->0.pid;
            let slot = first_empty_slot(old(kernel).cur_proc().semaphore_list@);
            &&& slot >= MAX_HANDLES ==> r == -1 && final(kernel).unchanged(*old(kernel))
            &&& slot < MAX_HANDLES ==> {
                &&& r == slot
                &&& old(kernel).only_process_changed(*final(kernel), pid)
                &&& final(kernel).processes[pid as int]->0.is_after_semaphore_create(
                    old(kernel).cur_proc(),
                    res_count,
                    Some(slot as usize),
                )
            }
        }),
{
    let (pid, _tid) = kernel.current_ids();
    let made = match &mut kernel.processes[pid] {
        Some(p) => p.semaphore_create(res_count),
        None => None,
    };
    match made {
        Some(id) => {
            proof {
                lemma_process_replaced(old(kernel).processes@, kernel.processes@, pid as int);
            }
            id as isize
        },
        None => {
            assert(kernel.processes@ =~= old(kernel).processes@);
            -1
        },
    }
}

/// The running task gives a unit of semaphore `sem_id` of its process back.
///
/// Returns -1, and changes nothing, if the handle names no semaphore or the
/// semaphore's count is at its limit. Otherwise returns 0: the unit passes
/// to the first waiter, which is woken, or is counted as free if nobody
/// waits, and the release is booked on the detector's ledger if the
/// semaphore is on it.
pub fn sys_semaphore_up(kernel: &mut Kernel, sem_id: usize) -> (r: isize)
    requires
        old(kernel).wf(),
        old(kernel).current is Some,
    ensures
        final(kernel).wf(),
        ({
            let pid = old(kernel).current->0.pid;
            let tid = old(kernel).current->0.tid;
            let p0 = old(kernel).cur_proc();
            &&& !p0.can_semaphore_up(sem_id) ==> r == -1 && final(kernel).unchanged(*old(kernel))
            &&& p0.can_semaphore_up(sem_id) ==> {
                let woken = p0.semaphore_list[sem_id as int]->0.up_wakes();
                &&& r == 0
                &&& slot_replaced(old(kernel).processes@, final(kernel).processes@, pid as int)
                &&& final(kernel).processes[pid as int]->0.is_after_semaphore_up(
                    p0,
                    tid,
                    sem_id,
                    ReleaseResult::Released(woken),
                )
                &&& final(kernel).is_after_wake(*old(kernel), pid, woken, None)
            }
        }),
{
    let (pid, tid) = kernel.current_ids();
    let res = match &mut kernel.processes[pid] {
        Some(p) => p.semaphore_up(tid, sem_id),
        None => ReleaseResult::BadHandle,
    };
    match res {
        ReleaseResult::BadHandle => {
            assert(kernel.processes@ =~= old(kernel).processes@);
            -1
        },
        ReleaseResult::Released(woken) => {
            proof {
                lemma_process_replaced(old(kernel).processes@, kernel.processes@, pid as int);
            }
            kernel.wake_thread(pid, woken, None);
            0
        },
    }
}

/// The running task asks for a unit of semaphore `sem_id` of its process.
///
/// Returns -1 if the handle names no semaphore. If deadlock detection is
/// enabled and the detector watches the semaphore, the request first goes
/// to the detector; if the state with the request recorded is not safe, the
/// call returns the refusal code. In both cases nothing has changed.
///
/// Otherwise the call returns 0. If a unit is free the task takes it and
/// runs on; if none is, the task joins the semaphore's queue and sleeps.
pub fn sys_semaphore_down(kernel: &mut Kernel, sem_id: usize) -> (r: isize)
    requires
        old(kernel).wf(),
        old(kernel).current is Some,
    ensures
        final(kernel).wf(),
        ({
            let pid = old(kernel).current->0.pid;
            let tid = old(kernel).current->0.tid;
            let res = old(kernel).cur_proc().semaphore_down_result(tid, sem_id);
            &&& r == lock_code(res)
            &&& !(res is Granted) ==> final(kernel).unchanged(*old(kernel))
            &&& res is Granted ==> {
                &&& slot_replaced(old(kernel).processes@, final(kernel).processes@, pid as int)
                &&& final(kernel).processes[pid as int]->0.is_after_semaphore_down(
                    old(kernel).cur_proc(),
                    tid,
                    sem_id,
                    res,
                )
                &&& final(kernel).is_parked(*old(kernel), res->0, sem_id)
            }
        }),
{
    let (pid, tid) = kernel.current_ids();
    let res = match &mut kernel.processes[pid] {
        Some(p) => p.semaphore_down(tid, sem_id),
        None => LockResult::BadHandle,
    };
    match res {
        LockResult::BadHandle => {
            assert(kernel.processes@ =~= old(kernel).processes@);
            -1
        },
        LockResult::Refused => {
            assert(kernel.processes@ =~= old(kernel).processes@);
            DEADLOCK_REFUSED
        },
        LockResult::Granted(how) => {
            proof {
                lemma_process_replaced(old(kernel).processes@, kernel.processes@, pid as int);
            }
            park(kernel, how, sem_id);
            0
        },
    }
}

/// Makes a condition variable in the running task's process. Returns its
/// handle: the first empty slot of the process's table of condition
/// variables, or a new last slot. Returns -1, and changes nothing, only when
/// the table cannot grow any more.
pub fn sys_condvar_create(kernel: &mut Kernel) -> (r: isize)
    requires
        old(kernel).wf(),
        old(kernel).current is Some,
    ensures
        final(kernel).wf(),
        ({
            let pid = old(kernel).current->0.pid;
            let slot = first_empty_slot(old(kernel).cur_proc().condvar_list@);
            &&& slot >= MAX_HANDLES ==> r == -1 && final(kernel).unchanged(*old(kernel))
            &&& slot < MAX_HANDLES ==> {
                &&& r == slot
                &&& old(kernel).only_process_changed(*final(kernel), pid)
                &&& final(kernel).processes[pid as int]->0.is_after_condvar_create(
                    old(kernel).cur_proc(),
                    Some(slot as usize),
                )
            }
        }),
{
    let (pid, _tid) = kernel.current_ids();
    let made = match &mut kernel.processes[pid] {
        Some(p) => p.condvar_create(),
        None => None,
    };
    match made {
        Some(id) => {
            proof {
                lemma_process_replaced(old(kernel).processes@, kernel.processes@, pid as int);
            }
            id as isize
        },
        None => {
            assert(kernel.processes@ =~= old(kernel).processes@);
            -1
        },
    }
}

/// The thread that a signal wakes, given how the signal ended: the waiter,
/// unless it went on to sleep at its mutex.
pub open spec fn signal_target(r: SignalResult) -> Option<usize> {
    match r {
        SignalResult::Woken(w, how) => if how is Sleep {
            None
        } else {
            Some(w.tid)
        },
        _ => None,
    }
}

/// The mutex that the thread woken by a signal busy-waits for, given how the
/// signal ended.
pub open spec fn signal_spin(r: SignalResult) -> Option<usize> {
    match r {
        SignalResult::Woken(w, how) => if how is Spin {
            Some(w.mutex_id)
        } else {
            None
        },
        _ => None,
    }
}

/// Signals condition variable `condvar_id` of the running task's process.
///
/// Returns -1, and changes nothing, if the handle names no condition
/// variable. Otherwise returns 0. The first waiter, if there is one, leaves
/// the queue and asks for its mutex again: if the mutex is free it takes it
/// and is woken; if not, it joins the mutex's queue, where it goes on
/// sleeping or is woken to busy-wait, as the kind of the mutex has it.
pub fn sys_condvar_signal(kernel: &mut Kernel, condvar_id: usize) -> (r: isize)
    requires
        old(kernel).wf(),
        old(kernel).current is Some,
    ensures
        final(kernel).wf(),
        ({
            let pid = old(kernel).current->0.pid;
            let p0 = old(kernel).cur_proc();
            let res = p0.condvar_signal_result(condvar_id);
            &&& res is BadHandle ==> r == -1 && final(kernel).unchanged(*old(kernel))
            &&& !(res is BadHandle) ==> {
                &&& r == 0
                &&& slot_replaced(old(kernel).processes@, final(kernel).processes@, pid as int)
                &&& final(kernel).processes[pid as int]->0.is_after_condvar_signal(
                    p0,
                    condvar_id,
                    res,
                )
                &&& final(kernel).is_after_wake(
                    *old(kernel),
                    pid,
                    signal_target(res),
                    signal_spin(res),
                )
            }
        }),
{
    let (pid, _tid) = kernel.current_ids();
    let res = match &mut kernel.processes[pid] {
        Some(p) => p.condvar_signal(condvar_id),
        None => SignalResult::BadHandle,
    };
    match res {
        SignalResult::BadHandle => {
            assert(kernel.processes@ =~= old(kernel).processes@);
            -1
        },
        SignalResult::Nobody => {
            proof {
                lemma_process_replaced(old(kernel).processes@, kernel.processes@, pid as int);
            }
            kernel.wake_thread(pid, None, None);
            0
        },
        SignalResult::Woken(w, how) => {
            proof {
                lemma_process_replaced(old(kernel).processes@, kernel.processes@, pid as int);
            }
            match how {
                Acquire::Acquired => {
                    kernel.wake_thread(pid, Some(w.tid), None);
                },
                Acquire::Sleep => {
                    kernel.wake_thread(pid, None, None);
                },
                Acquire::Spin => {
                    kernel.wake_thread(pid, Some(w.tid), Some(w.mutex_id));
                },
            }
            0
        },
    }
}

/// The running task waits on condition variable `condvar_id` of its process
/// and gives up mutex `mutex_id` for the time.
///
/// Returns -1, and changes nothing, if one of the handles names nothing.
/// Otherwise returns 0: the mutex passes to its first waiter, which is
/// woken if it sleeps, or becomes free; the task joins the queue of the
/// condition variable and sleeps. When it is signalled it asks for the mutex
/// again before it runs on.
pub fn sys_condvar_wait(kernel: &mut Kernel, condvar_id: usize, mutex_id: usize) -> (r: isize)
    requires
        old(kernel).wf(),
        old(kernel).current is Some,
    ensures
        final(kernel).wf(),
        ({
            let pid = old(kernel).current->0.pid;
            let tid = old(kernel).current->0.tid;
            let p0 = old(kernel).cur_proc();
            let valid = p0.valid_condvar(condvar_id) && p0.valid_mutex(mutex_id);
            &&& !valid ==> r == -1 && final(kernel).unchanged(*old(kernel))
            &&& valid ==> {
                let woken = p0.mutex_list[mutex_id as int]->0.unlock_wakes();
                &&& r == 0
                &&& slot_replaced(old(kernel).processes@, final(kernel).processes@, pid as int)
                &&& final(kernel).processes[pid as int]->0.is_after_condvar_wait(
                    p0,
                    tid,
                    condvar_id,
                    mutex_id,
                    ReleaseResult::Released(woken),
                )
                &&& final(kernel).frames == old(kernel).frames
                &&& final(kernel).initproc == old(kernel).initproc
                &&& final(kernel).current is None
                &&& final(kernel).manager@ == old(kernel).manager_after_wake(pid, woken, None)
                &&& final(kernel).blocked@ == old(kernel).blocked_after_wake(pid, woken).push(
                    TaskControlBlock { status: TaskStatus::Blocked, ..old(kernel).current->0 },
                )
            }
        }),
{
    let (pid, tid) = kernel.current_ids();
    let res = match &mut kernel.processes[pid] {
        Some(p) => p.condvar_wait(tid, condvar_id, mutex_id),
        None => ReleaseResult::BadHandle,
    };
    match res {
        ReleaseResult::BadHandle => {
            assert(kernel.processes@ =~= old(kernel).processes@);
            -1
        },
        ReleaseResult::Released(woken) => {
            proof {
                lemma_process_replaced(old(kernel).processes@, kernel.processes@, pid as int);
            }
            kernel.wake_thread(pid, woken, None);
            kernel.block_current();
            0
        },
    }
}

/// Switches deadlock detection for the running task's process on (1) or off
/// (0). Returns 0, or -1 for any other value, which changes nothing. What
/// the process holds at that moment is not looked at.
pub fn sys_enable_deadlock_detect(kernel: &mut Kernel, enabled: usize) -> (r: isize)
    requires
        old(kernel).wf(),
        old(kernel).current is Some,
    ensures
        final(kernel).wf(),
        enabled > 1 ==> r == -1 && final(kernel).unchanged(*old(kernel)),
        enabled <= 1 ==> {
            let pid = old(kernel).current->0.pid;
            &&& r == 0
            &&& old(kernel).only_process_changed(*final(kernel), pid)
            &&& final(kernel).processes[pid as int]->0 == (ProcessControlBlock {
                enable_deadlock_detect: enabled == 1,
                ..old(kernel).cur_proc()
            })
        },
{
    if enabled > 1 {
        return -1;
    }
    let (pid, _tid) = kernel.current_ids();
    match &mut kernel.processes[pid] {
        Some(p) => {
            p.enable_deadlock_detect = enabled == 1;
        },
        None => {},
    }
    proof {
        lemma_process_replaced(old(kernel).processes@, kernel.processes@, pid as int);
    }
    0
}

/// Puts the running task to sleep for `ms` milliseconds from `now_ms`, the
/// time at the moment of the call. Returns 0. The task joins the blocked
/// tasks with the time at which it is to be woken.
pub fn sys_sleep(kernel: &mut Kernel, now_ms: usize, ms: usize) -> (r: isize)
    requires
        old(kernel).wf(),
        old(kernel).current is Some,
        now_ms + ms <= usize::MAX,
    ensures
        final(kernel).wf(),
        r == 0,
        final(kernel).current is None,
        final(kernel).blocked@ == old(kernel).blocked@.push(
            TaskControlBlock {
                status: TaskStatus::Blocked,
                wake_at: Some((now_ms + ms) as usize),
                ..old(kernel).current->0
            },
        ),
        *final(kernel) == (Kernel {
            current: None,
            blocked: final(kernel).blocked,
            ..*old(kernel)
        }),
{
    match &mut kernel.current {
        Some(t) => {
            t.wake_at = Some(now_ms + ms);
        },
        None => {},
    }
    kernel.block_current();
    0
}

} // verus!
