use kernel_core::sync::primitives::{Acquire, CondWaiter, Condvar, Mutex, Semaphore};
use kernel_core::syscall::process::sys_yield;
use kernel_core::syscall::sync::{
    sys_condvar_create, sys_condvar_signal, sys_condvar_wait, sys_mutex_create, sys_mutex_lock,
    sys_mutex_unlock, sys_semaphore_create, sys_semaphore_down, sys_semaphore_up, sys_sleep,
};
use kernel_core::task::control_block::{TaskStatus, TrapContext};
use kernel_core::task::kernel::Kernel;
use kernel_core::task::process::{
    FileDescriptor, LockResult, ProcessControlBlock, ReleaseResult, SignalResult,
};

fn cx() -> TrapContext {
    TrapContext { a0: 0, sepc: 0, sp: 0 }
}

fn boot(threads: usize) -> Kernel {
    let mut k = Kernel::new(0, 16);
    assert_eq!(k.add_initproc(cx()), Some(0));
    assert!(k.run_next());
    for i in 1..threads {
        assert_eq!(k.create_thread(cx()), Some(i));
    }
    k
}

fn tid(k: &Kernel) -> usize {
    k.current.as_ref().unwrap().tid
}

/// Runs the idle loop until thread `want` runs.
fn run_until(k: &mut Kernel, want: usize) {
    for _ in 0..64 {
        if k.current.is_some() {
            if tid(k) == want {
                return;
            }
            assert_eq!(sys_yield(k), 0);
        }
        k.run_next();
    }
    panic!("thread {} never ran", want);
}

#[test]
fn mutex_passes_to_waiters_in_order() {
    let mut m = Mutex::new(true);
    assert_eq!(m.lock(0), Acquire::Acquired);
    assert_eq!(m.lock(1), Acquire::Sleep);
    assert_eq!(m.lock(2), Acquire::Sleep);
    assert!(m.is_waiting(2));
    assert!(!m.is_waiting(0));
    assert_eq!(m.unlock(), Some(1));
    assert!(m.locked);
    assert!(!m.is_waiting(1));
    assert_eq!(m.unlock(), Some(2));
    assert_eq!(m.unlock(), None);
    assert!(!m.locked);
    // unlocking a free mutex is harmless
    assert_eq!(m.unlock(), None);
    assert!(!m.locked);
}

#[test]
fn spinning_mutex_makes_waiters_spin() {
    let mut m = Mutex::new(false);
    assert_eq!(m.lock(0), Acquire::Acquired);
    assert_eq!(m.lock(1), Acquire::Spin);
    assert_eq!(m.unlock(), Some(1));
    assert!(m.locked);
}

#[test]
fn semaphore_counts_units() {
    let mut s = Semaphore::new(2);
    assert_eq!(s.down(0), Acquire::Acquired);
    assert_eq!(s.down(1), Acquire::Acquired);
    assert_eq!(s.down(2), Acquire::Sleep);
    assert_eq!(s.down(3), Acquire::Sleep);
    assert_eq!(s.count, 0);
    assert_eq!(s.up(), Some(2));
    assert_eq!(s.count, 0);
    assert_eq!(s.up(), Some(3));
    assert_eq!(s.up(), None);
    assert_eq!(s.count, 1);
    let mut full = Semaphore::new(usize::MAX);
    assert!(!full.has_room());
    assert_eq!(full.down(0), Acquire::Acquired);
    assert!(full.has_room());
}

#[test]
fn condvar_wakes_in_order() {
    let mut c = Condvar::new();
    assert_eq!(c.signal(), None);
    c.wait(4, 0);
    c.wait(5, 1);
    assert_eq!(c.signal(), Some(CondWaiter { tid: 4, mutex_id: 0 }));
    assert_eq!(c.signal(), Some(CondWaiter { tid: 5, mutex_id: 1 }));
    assert_eq!(c.signal(), None);
}

#[test]
fn handles_are_reused_first_empty_slot_first() {
    let mut k = boot(1);
    assert_eq!(sys_mutex_create(&mut k, true), 0);
    assert_eq!(sys_mutex_create(&mut k, false), 1);
    assert_eq!(sys_mutex_create(&mut k, true), 2);
    {
        let p = k.processes[0].as_mut().unwrap();
        p.mutex_list[1] = None;
        p.mutex_list[0] = None;
    }
    assert_eq!(sys_mutex_create(&mut k, false), 0);
    assert_eq!(sys_mutex_create(&mut k, true), 1);
    assert_eq!(sys_mutex_create(&mut k, true), 3);
    let p = k.processes[0].as_ref().unwrap();
    assert!(!p.mutex_list[0].as_ref().unwrap().blocking);
    assert!(p.mutex_list[1].as_ref().unwrap().blocking);
    assert_eq!(p.mutex_ledger.available, vec![1, 1, 1, 1]);
    assert_eq!(sys_semaphore_create(&mut k, 3), 0);
    assert_eq!(sys_semaphore_create(&mut k, 0), 1);
    assert_eq!(sys_condvar_create(&mut k), 0);
    assert_eq!(sys_condvar_create(&mut k), 1);
    {
        let p = k.processes[0].as_mut().unwrap();
        p.condvar_list[0] = None;
    }
    assert_eq!(sys_condvar_create(&mut k), 0);
    assert_eq!(sys_condvar_create(&mut k), 2);
}

#[test]
fn calls_on_handles_that_name_nothing_fail() {
    let mut k = boot(1);
    assert_eq!(sys_mutex_lock(&mut k, 0), -1);
    assert_eq!(sys_mutex_unlock(&mut k, 0), -1);
    assert_eq!(sys_semaphore_down(&mut k, 3), -1);
    assert_eq!(sys_semaphore_up(&mut k, 3), -1);
    assert_eq!(sys_condvar_signal(&mut k, 0), -1);
    assert_eq!(sys_condvar_wait(&mut k, 0, 0), -1);
    assert_eq!(sys_mutex_create(&mut k, true), 0);
    assert_eq!(sys_condvar_wait(&mut k, 0, 0), -1);
    assert_eq!(sys_condvar_create(&mut k), 0);
    assert_eq!(sys_condvar_wait(&mut k, 0, 1), -1);
    {
        let p = k.processes[0].as_mut().unwrap();
        p.mutex_list[0] = None;
    }
    assert_eq!(sys_mutex_lock(&mut k, 0), -1);
    assert_eq!(tid(&k), 0);
    assert!(k.blocked.is_empty());
    // a semaphore whose count is at its limit takes no more
    assert_eq!(sys_semaphore_create(&mut k, usize::MAX), 0);
    assert_eq!(sys_semaphore_up(&mut k, 0), -1);
}

#[test]
fn blocking_mutex_puts_the_waiter_to_sleep() {
    let mut k = boot(2);
    assert_eq!(sys_mutex_create(&mut k, true), 0);
    assert_eq!(sys_mutex_lock(&mut k, 0), 0);
    assert_eq!(tid(&k), 0);
    run_until(&mut k, 1);
    assert_eq!(sys_mutex_lock(&mut k, 0), 0);
    assert!(k.current.is_none());
    assert_eq!(k.blocked.len(), 1);
    assert_eq!(k.blocked[0].status, TaskStatus::Blocked);
    run_until(&mut k, 0);
    assert_eq!(sys_mutex_unlock(&mut k, 0), 0);
    assert!(k.blocked.is_empty());
    assert!(k.processes[0].as_ref().unwrap().mutex_list[0].as_ref().unwrap().locked);
    run_until(&mut k, 1);
    assert_eq!(sys_mutex_unlock(&mut k, 0), 0);
    assert!(!k.processes[0].as_ref().unwrap().mutex_list[0].as_ref().unwrap().locked);
}

#[test]
fn spinning_mutex_keeps_the_waiter_ready() {
    let mut k = boot(2);
    assert_eq!(sys_mutex_create(&mut k, false), 0);
    assert_eq!(sys_mutex_lock(&mut k, 0), 0);
    run_until(&mut k, 1);
    assert_eq!(sys_mutex_lock(&mut k, 0), 0);
    assert!(k.current.is_none());
    assert!(k.blocked.is_empty());
    assert_eq!(k.manager.len(), 2);
    // while the mutex is held, the spinner is fetched and put back
    for _ in 0..6 {
        if k.run_next() {
            assert_eq!(tid(&k), 0);
            assert_eq!(sys_yield(&mut k), 0);
        }
        assert_eq!(k.manager.len(), 2);
    }
    run_until(&mut k, 0);
    assert_eq!(sys_mutex_unlock(&mut k, 0), 0);
    assert_eq!(sys_sleep(&mut k, 0, 1000), 0);
    // now the spinner owns the mutex and runs
    assert!(k.run_next());
    assert_eq!(tid(&k), 1);
    assert_eq!(k.current.as_ref().unwrap().spinning_on, None);
    assert!(k.processes[0].as_ref().unwrap().mutex_list[0].as_ref().unwrap().locked);
}

#[test]
fn semaphore_wakes_the_first_waiter() {
    let mut k = boot(3);
    assert_eq!(sys_semaphore_create(&mut k, 0), 0);
    run_until(&mut k, 1);
    assert_eq!(sys_semaphore_down(&mut k, 0), 0);
    run_until(&mut k, 2);
    assert_eq!(sys_semaphore_down(&mut k, 0), 0);
    assert_eq!(k.blocked.len(), 2);
    run_until(&mut k, 0);
    assert_eq!(sys_semaphore_up(&mut k, 0), 0);
    assert_eq!(k.blocked.len(), 1);
    assert_eq!(k.blocked[0].tid, 2);
    assert_eq!(sys_semaphore_up(&mut k, 0), 0);
    assert!(k.blocked.is_empty());
    assert_eq!(sys_semaphore_up(&mut k, 0), 0);
    assert_eq!(k.processes[0].as_ref().unwrap().semaphore_list[0].as_ref().unwrap().count, 1);
    assert_eq!(sys_semaphore_down(&mut k, 0), 0);
    assert_eq!(tid(&k), 0);
}

#[test]
fn condvar_wait_gives_up_the_mutex_and_takes_it_again() {
    let mut k = boot(2);
    assert_eq!(sys_mutex_create(&mut k, true), 0);
    assert_eq!(sys_condvar_create(&mut k), 0);
    run_until(&mut k, 1);
    assert_eq!(sys_mutex_lock(&mut k, 0), 0);
    assert_eq!(sys_condvar_wait(&mut k, 0, 0), 0);
    assert!(k.current.is_none());
    assert_eq!(k.blocked.len(), 1);
    {
        let p = k.processes[0].as_ref().unwrap();
        assert!(!p.mutex_list[0].as_ref().unwrap().locked);
        assert_eq!(p.condvar_list[0].as_ref().unwrap().wait_queue.len(), 1);
    }
    run_until(&mut k, 0);
    // the signal finds the mutex free: the waiter takes it and is woken
    assert_eq!(sys_condvar_signal(&mut k, 0), 0);
    assert!(k.blocked.is_empty());
    assert!(k.processes[0].as_ref().unwrap().mutex_list[0].as_ref().unwrap().locked);
    // a signal without waiters does nothing
    assert_eq!(sys_condvar_signal(&mut k, 0), 0);
    assert_eq!(k.manager.len(), 1);
}

#[test]
fn condvar_signal_under_the_mutex_moves_the_waiter_to_the_mutex() {
    let mut k = boot(2);
    assert_eq!(sys_mutex_create(&mut k, true), 0);
    assert_eq!(sys_condvar_create(&mut k), 0);
    run_until(&mut k, 1);
    assert_eq!(sys_mutex_lock(&mut k, 0), 0);
    assert_eq!(sys_condvar_wait(&mut k, 0, 0), 0);
    run_until(&mut k, 0);
    assert_eq!(sys_mutex_lock(&mut k, 0), 0);
    assert_eq!(sys_condvar_signal(&mut k, 0), 0);
    // the waiter sleeps on, now in the queue of the mutex
    assert_eq!(k.blocked.len(), 1);
    {
        let p = k.processes[0].as_ref().unwrap();
        assert_eq!(p.mutex_list[0].as_ref().unwrap().wait_queue, vec![1]);
        assert!(p.condvar_list[0].as_ref().unwrap().wait_queue.is_empty());
    }
    assert_eq!(sys_mutex_unlock(&mut k, 0), 0);
    assert!(k.blocked.is_empty());
    assert_eq!(k.manager.ready_queue[0].tid, 1);
}

#[test]
fn sleep_blocks_until_the_time_has_come() {
    let mut k = boot(2);
    assert_eq!(sys_sleep(&mut k, 100, 50), 0);
    assert!(k.current.is_none());
    assert_eq!(k.blocked.len(), 1);
    assert_eq!(k.blocked[0].wake_at, Some(150));
    assert!(!k.wake_expired(149));
    assert_eq!(k.blocked.len(), 1);
    assert!(k.wake_expired(150));
    assert!(k.blocked.is_empty());
    assert!(!k.wake_expired(1000));
    assert_eq!(k.manager.len(), 2);
    assert_eq!(k.manager.ready_queue[1].tid, 0);
    assert_eq!(k.manager.ready_queue[1].wake_at, None);
    assert_eq!(k.manager.ready_queue[1].status, TaskStatus::Ready);
}

#[test]
fn process_level_results() {
    let mut p = ProcessControlBlock::new(3, Some(1));
    assert_eq!(p.add_thread(), Some(1));
    assert_eq!(p.thread_count, 2);
    assert_eq!(p.mutex_ledger.threads(), 2);
    assert_eq!(p.sem_ledger.threads(), 2);
    p.enable_deadlock_detect = true;
    assert_eq!(p.mutex_create(true), Some(0));
    assert_eq!(p.mutex_create(false), Some(1));
    assert_eq!(p.semaphore_create(1), Some(0));
    assert_eq!(p.condvar_create(), Some(0));
    assert_eq!(p.mutex_lock(0, 7), LockResult::BadHandle);
    assert_eq!(p.mutex_lock(0, 0), LockResult::Granted(Acquire::Acquired));
    assert_eq!(p.mutex_lock(0, 0), LockResult::Refused);
    assert_eq!(p.mutex_lock(1, 0), LockResult::Granted(Acquire::Sleep));
    assert_eq!(p.mutex_lock(0, 1), LockResult::Granted(Acquire::Acquired));
    assert_eq!(p.mutex_lock(1, 1), LockResult::Granted(Acquire::Spin));
    assert_eq!(p.mutex_unlock(0, 7), ReleaseResult::BadHandle);
    assert_eq!(p.mutex_unlock(0, 0), ReleaseResult::Released(Some(1)));
    assert_eq!(p.mutex_unlock(1, 0), ReleaseResult::Released(None));
    assert_eq!(p.semaphore_down(0, 1), LockResult::BadHandle);
    assert_eq!(p.semaphore_down(0, 0), LockResult::Granted(Acquire::Acquired));
    assert_eq!(p.semaphore_down(1, 0), LockResult::Granted(Acquire::Sleep));
    assert_eq!(p.semaphore_up(0, 0), ReleaseResult::Released(Some(1)));
    assert_eq!(p.semaphore_up(0, 3), ReleaseResult::BadHandle);
    assert_eq!(p.condvar_signal(2), SignalResult::BadHandle);
    assert_eq!(p.condvar_signal(0), SignalResult::Nobody);
    assert_eq!(p.condvar_wait(1, 0, 9), ReleaseResult::BadHandle);
    assert_eq!(p.condvar_wait(1, 0, 1), ReleaseResult::Released(Some(1)));
    assert_eq!(
        p.condvar_signal(0),
        SignalResult::Woken(CondWaiter { tid: 1, mutex_id: 1 }, Acquire::Spin)
    );
    assert_eq!(p.mutex_list[1].as_ref().unwrap().wait_queue, vec![1]);
    let fd = FileDescriptor { file: 5, readable: true, writable: false };
    assert_eq!(p.alloc_fd(fd), Some(3));
    p.fd_table[1] = None;
    assert_eq!(p.alloc_fd(fd), Some(1));
    assert_eq!(FileDescriptor::stdin().file, 0);
    assert!(FileDescriptor::stdout().writable);
}
