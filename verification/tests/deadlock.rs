use kernel_core::config::DEADLOCK_REFUSED;
use kernel_core::sync::deadlock::DeadlockLedger;
use kernel_core::syscall::process::sys_yield;
use kernel_core::syscall::sync::{
    sys_enable_deadlock_detect, sys_mutex_create, sys_mutex_lock, sys_mutex_unlock,
    sys_semaphore_create, sys_semaphore_down, sys_semaphore_up,
};
use kernel_core::task::control_block::TrapContext;
use kernel_core::task::kernel::Kernel;

fn ledger(threads: usize, units: &[usize]) -> DeadlockLedger {
    let mut l = DeadlockLedger::new();
    for _ in 0..threads {
        l.add_thread();
    }
    for (r, &u) in units.iter().enumerate() {
        l.set_resource(r, u, true);
    }
    l
}

fn total(l: &DeadlockLedger, r: usize) -> usize {
    l.available[r] + l.allocation.iter().map(|row| row[r]).sum::<usize>()
}

fn cx() -> TrapContext {
    TrapContext { a0: 0, sepc: 0, sp: 0 }
}

/// A kernel whose one process has two threads, the first of them running,
/// and deadlock detection enabled.
fn two_threads() -> Kernel {
    let mut k = Kernel::new(0, 16);
    assert_eq!(k.add_initproc(cx()), Some(0));
    assert!(k.run_next());
    assert_eq!(sys_enable_deadlock_detect(&mut k, 1), 0);
    assert_eq!(k.create_thread(cx()), Some(1));
    k
}

/// Lets the other thread run.
fn switch(k: &mut Kernel) {
    if k.current.is_some() {
        assert_eq!(sys_yield(k), 0);
    }
    assert!(k.run_next());
}

fn tid(k: &Kernel) -> usize {
    k.current.as_ref().unwrap().tid
}

#[test]
fn ledger_shapes_follow_threads_and_resources() {
    let mut l = ledger(2, &[1, 3]);
    assert_eq!(l.threads(), 2);
    assert_eq!(l.resources(), 2);
    assert_eq!(l.available, vec![1, 3]);
    assert_eq!(l.allocation, vec![vec![0, 0], vec![0, 0]]);
    assert_eq!(l.need, vec![vec![0, 0], vec![0, 0]]);
    l.add_thread();
    assert_eq!(l.allocation, vec![vec![0, 0], vec![0, 0], vec![0, 0]]);
    l.set_resource(2, 5, false);
    assert_eq!(l.available, vec![1, 3, 5]);
    assert_eq!(l.need, vec![vec![0, 0, 0], vec![0, 0, 0], vec![0, 0, 0]]);
    assert!(l.is_watched(0) && l.is_watched(1));
    assert!(!l.is_watched(2));
    assert!(!l.is_watched(3));
}

#[test]
fn granted_request_with_a_free_unit_is_booked_as_held() {
    let mut l = ledger(2, &[1]);
    assert!(l.request(0, 0));
    assert_eq!(l.available, vec![0]);
    assert_eq!(l.allocation, vec![vec![1], vec![0]]);
    assert_eq!(l.need, vec![vec![0], vec![0]]);
    assert_eq!(total(&l, 0), 1);
}

#[test]
fn granted_request_without_a_free_unit_is_booked_as_waiting() {
    let mut l = ledger(2, &[1]);
    assert!(l.request(0, 0));
    // the holder asks for nothing more, so it can finish and hand back
    assert!(l.safe_request(1, 0));
    assert!(l.request(1, 0));
    assert_eq!(l.available, vec![0]);
    assert_eq!(l.allocation, vec![vec![1], vec![0]]);
    assert_eq!(l.need, vec![vec![0], vec![1]]);
    assert_eq!(total(&l, 0), 1);
}

#[test]
fn request_of_the_holder_itself_is_refused() {
    let mut l = ledger(2, &[1]);
    assert!(l.request(0, 0));
    assert!(!l.safe_request(0, 0));
    assert!(!l.request(0, 0));
    // a refused request leaves no trace
    assert_eq!(l.available, vec![0]);
    assert_eq!(l.allocation, vec![vec![1], vec![0]]);
    assert_eq!(l.need, vec![vec![0], vec![0]]);
}

#[test]
fn request_is_refused_when_a_holder_waits_for_more_than_there_is() {
    // two units, each thread holds one, both ask for another
    let mut l = ledger(2, &[2]);
    assert!(l.request(0, 0));
    assert!(l.request(1, 0));
    assert_eq!(l.available, vec![0]);
    // thread 0 may wait: thread 1 can still finish
    assert!(l.request(0, 0));
    assert_eq!(l.need, vec![vec![1], vec![0]]);
    // thread 1 may not: then nobody could finish
    assert!(!l.request(1, 0));
    assert_eq!(l.need, vec![vec![1], vec![0]]);
    assert_eq!(total(&l, 0), 2);
}

#[test]
fn simulation_needs_several_passes() {
    // thread 0 can finish only after thread 2, which can finish only after
    // thread 1: one pass over the threads in order is not enough
    let mut l = ledger(4, &[6]);
    l.available[0] = 1;
    l.allocation[0][0] = 1;
    l.need[0][0] = 5;
    l.allocation[1][0] = 2;
    l.need[1][0] = 1;
    l.allocation[2][0] = 2;
    l.need[2][0] = 3;
    assert_eq!(total(&l, 0), 6);
    assert!(l.safe_request(3, 0));
    // with one unit more asked for by thread 1, nobody can start
    assert!(!l.safe_request(1, 0));
    // with one unit more asked for by thread 0, it can never finish
    assert!(!l.safe_request(0, 0));
}

#[test]
fn release_frees_the_unit_or_hands_it_over() {
    let mut l = ledger(2, &[1]);
    assert!(l.request(0, 0));
    assert!(l.request(1, 0));
    l.release(0, 0, Some(1));
    assert_eq!(l.available, vec![0]);
    assert_eq!(l.allocation, vec![vec![0], vec![1]]);
    assert_eq!(l.need, vec![vec![0], vec![0]]);
    l.release(1, 0, None);
    assert_eq!(l.available, vec![1]);
    assert_eq!(l.allocation, vec![vec![0], vec![0]]);
    assert_eq!(total(&l, 0), 1);
}

#[test]
fn release_of_what_is_not_held_changes_nothing() {
    let mut l = ledger(2, &[1]);
    l.release(0, 0, None);
    l.release(1, 0, Some(0));
    assert_eq!(l.available, vec![1]);
    assert_eq!(l.allocation, vec![vec![0], vec![0]]);
    assert_eq!(l.need, vec![vec![0], vec![0]]);
}

#[test]
fn release_to_a_thread_that_does_not_wait_frees_the_unit() {
    let mut l = ledger(3, &[1]);
    assert!(l.request(0, 0));
    l.release(0, 0, Some(2));
    assert_eq!(l.available, vec![1]);
    assert_eq!(l.allocation, vec![vec![0], vec![0], vec![0]]);
    // a thread number that does not exist
    assert!(l.request(1, 0));
    l.release(1, 0, Some(9));
    assert_eq!(l.available, vec![1]);
}

#[test]
fn totals_are_kept_over_a_run() {
    let mut l = ledger(3, &[2, 1]);
    let steps: [(bool, usize, usize); 10] = [
        (true, 0, 0),
        (true, 1, 0),
        (true, 2, 1),
        (true, 2, 0),
        (false, 0, 0),
        (true, 0, 1),
        (false, 2, 1),
        (false, 1, 0),
        (true, 1, 1),
        (false, 0, 1),
    ];
    for (ask, t, r) in steps {
        if ask {
            if l.can_record(t, r) {
                l.request(t, r);
            }
        } else {
            l.release(t, r, None);
        }
        assert_eq!(total(&l, 0), 2);
        assert_eq!(total(&l, 1), 1);
    }
}

#[test]
fn reused_resource_starts_afresh() {
    let mut l = ledger(2, &[1, 1]);
    assert!(l.request(0, 1));
    assert!(l.request(1, 1));
    assert_eq!(l.need[1][1], 1);
    l.set_resource(1, 4, true);
    assert_eq!(l.available, vec![1, 4]);
    assert_eq!(l.allocation, vec![vec![0, 0], vec![0, 0]]);
    assert_eq!(l.need, vec![vec![0, 0], vec![0, 0]]);
}

#[test]
fn mutex_scenario_second_locker_blocks_and_is_not_refused() {
    let mut k = two_threads();
    assert_eq!(sys_mutex_create(&mut k, true), 0);
    {
        let l = &k.processes[0].as_ref().unwrap().mutex_ledger;
        assert_eq!(l.available, vec![1]);
    }
    assert_eq!(tid(&k), 0);
    assert_eq!(sys_mutex_lock(&mut k, 0), 0);
    {
        let l = &k.processes[0].as_ref().unwrap().mutex_ledger;
        assert_eq!(l.allocation[0][0], 1);
        assert_eq!(l.available[0], 0);
    }
    switch(&mut k);
    assert_eq!(tid(&k), 1);
    // the second thread is let through to the mutex, where it blocks
    assert_eq!(sys_mutex_lock(&mut k, 0), 0);
    assert!(k.current.is_none());
    assert_eq!(k.blocked.len(), 1);
    assert_eq!(k.blocked[0].tid, 1);
    {
        let p = k.processes[0].as_ref().unwrap();
        assert_eq!(p.mutex_ledger.need[1][0], 1);
        assert_eq!(p.mutex_ledger.allocation[1][0], 0);
        assert_eq!(p.mutex_list[0].as_ref().unwrap().wait_queue, vec![1]);
    }
    // the first thread lets go, and the mutex passes to the second
    switch(&mut k);
    assert_eq!(tid(&k), 0);
    assert_eq!(sys_mutex_unlock(&mut k, 0), 0);
    assert!(k.blocked.is_empty());
    {
        let p = k.processes[0].as_ref().unwrap();
        assert_eq!(p.mutex_ledger.allocation, vec![vec![0], vec![1]]);
        assert_eq!(p.mutex_ledger.need, vec![vec![0], vec![0]]);
        assert_eq!(p.mutex_ledger.available, vec![0]);
        assert!(p.mutex_list[0].as_ref().unwrap().locked);
    }
}

#[test]
fn mutex_lock_by_the_holder_is_refused_without_blocking() {
    let mut k = two_threads();
    assert_eq!(sys_mutex_create(&mut k, true), 0);
    assert_eq!(sys_mutex_lock(&mut k, 0), 0);
    assert_eq!(sys_mutex_lock(&mut k, 0), DEADLOCK_REFUSED);
    assert_eq!(DEADLOCK_REFUSED, -0xdead);
    assert_eq!(tid(&k), 0);
    assert!(k.blocked.is_empty());
    let p = k.processes[0].as_ref().unwrap();
    assert_eq!(p.mutex_ledger.allocation, vec![vec![1], vec![0]]);
    assert_eq!(p.mutex_ledger.need, vec![vec![0], vec![0]]);
    assert!(p.mutex_list[0].as_ref().unwrap().wait_queue.is_empty());
}

#[test]
fn cycle_over_two_mutexes_is_judged_one_mutex_at_a_time() {
    // thread 0 holds mutex 0, thread 1 holds mutex 1, thread 0 waits for
    // mutex 1: the check for mutex 0 sees only who holds and wants mutex 0
    let mut k = two_threads();
    assert_eq!(sys_mutex_create(&mut k, true), 0);
    assert_eq!(sys_mutex_create(&mut k, true), 1);
    assert_eq!(sys_mutex_lock(&mut k, 0), 0);
    switch(&mut k);
    assert_eq!(tid(&k), 1);
    assert_eq!(sys_mutex_lock(&mut k, 1), 0);
    switch(&mut k);
    assert_eq!(tid(&k), 0);
    assert_eq!(sys_mutex_lock(&mut k, 1), 0);
    assert!(k.current.is_none());
    assert!(k.run_next());
    assert_eq!(tid(&k), 1);
    let before = k.processes[0].as_ref().unwrap().mutex_ledger.need.clone();
    assert_eq!(before, vec![vec![0, 1], vec![0, 0]]);
    assert_eq!(sys_mutex_lock(&mut k, 0), 0);
    assert!(k.current.is_none());
    assert_eq!(k.blocked.len(), 2);
}

#[test]
fn semaphore_down_goes_through_the_detector() {
    let mut k = two_threads();
    assert_eq!(sys_semaphore_create(&mut k, 2), 0);
    assert_eq!(sys_semaphore_down(&mut k, 0), 0);
    assert_eq!(sys_semaphore_down(&mut k, 0), 0);
    {
        let p = k.processes[0].as_ref().unwrap();
        assert_eq!(p.sem_ledger.available, vec![0]);
        assert_eq!(p.sem_ledger.allocation, vec![vec![2], vec![0]]);
        assert_eq!(p.semaphore_list[0].as_ref().unwrap().count, 0);
    }
    // the holder of all units would wait for itself
    assert_eq!(sys_semaphore_down(&mut k, 0), DEADLOCK_REFUSED);
    assert_eq!(tid(&k), 0);
    switch(&mut k);
    assert_eq!(tid(&k), 1);
    assert_eq!(sys_semaphore_down(&mut k, 0), 0);
    assert!(k.current.is_none());
    assert!(k.run_next());
    assert_eq!(tid(&k), 0);
    assert_eq!(sys_semaphore_up(&mut k, 0), 0);
    let p = k.processes[0].as_ref().unwrap();
    assert_eq!(p.sem_ledger.allocation, vec![vec![1], vec![1]]);
    assert_eq!(p.sem_ledger.need, vec![vec![0], vec![0]]);
    assert_eq!(p.sem_ledger.available, vec![0]);
    assert_eq!(k.manager.len(), 1);
    assert_eq!(k.manager.ready_queue[0].tid, 1);
}

#[test]
fn detection_is_keyed_by_its_state_at_creation() {
    let mut k = two_threads();
    assert_eq!(sys_enable_deadlock_detect(&mut k, 0), 0);
    assert_eq!(sys_mutex_create(&mut k, true), 0);
    assert_eq!(sys_enable_deadlock_detect(&mut k, 1), 0);
    assert_eq!(sys_mutex_create(&mut k, true), 1);
    // mutex 0 is not watched: locking it leaves the ledger alone
    assert_eq!(sys_mutex_lock(&mut k, 0), 0);
    {
        let l = &k.processes[0].as_ref().unwrap().mutex_ledger;
        assert_eq!(l.allocation, vec![vec![0, 0], vec![0, 0]]);
        assert_eq!(l.available, vec![1, 1]);
    }
    assert_eq!(sys_mutex_unlock(&mut k, 0), 0);
    // mutex 1 is watched, but not while detection is off
    assert_eq!(sys_enable_deadlock_detect(&mut k, 0), 0);
    assert_eq!(sys_mutex_lock(&mut k, 1), 0);
    assert_eq!(sys_enable_deadlock_detect(&mut k, 1), 0);
    // the unlock finds nothing booked and does not underflow
    assert_eq!(sys_mutex_unlock(&mut k, 1), 0);
    let l = &k.processes[0].as_ref().unwrap().mutex_ledger;
    assert_eq!(l.allocation, vec![vec![0, 0], vec![0, 0]]);
    assert_eq!(l.available, vec![1, 1]);
}

#[test]
fn enable_deadlock_detect_takes_zero_or_one() {
    let mut k = two_threads();
    assert_eq!(sys_enable_deadlock_detect(&mut k, 2), -1);
    assert_eq!(sys_enable_deadlock_detect(&mut k, usize::MAX), -1);
    assert!(k.processes[0].as_ref().unwrap().enable_deadlock_detect);
    assert_eq!(sys_enable_deadlock_detect(&mut k, 0), 0);
    assert!(!k.processes[0].as_ref().unwrap().enable_deadlock_detect);
    assert_eq!(sys_enable_deadlock_detect(&mut k, 1), 0);
    assert!(k.processes[0].as_ref().unwrap().enable_deadlock_detect);
}

/// Whether the threads that hold something can finish in some order, found
/// by trying every thread that can finish next.
fn has_finishing_order(available: usize, alloc: &[usize], need: &[usize], done: &mut Vec<bool>) -> bool {
    if (0..alloc.len()).all(|t| done[t] || alloc[t] == 0) {
        return true;
    }
    let free: usize = available + (0..alloc.len()).filter(|&t| done[t]).map(|t| alloc[t]).sum::<usize>();
    for t in 0..alloc.len() {
        if !done[t] && alloc[t] != 0 && need[t] <= free {
            done[t] = true;
            let found = has_finishing_order(available, alloc, need, done);
            done[t] = false;
            if found {
                return true;
            }
        }
    }
    false
}

#[test]
fn safety_check_agrees_with_the_search_for_a_finishing_order() {
    let mut seed: u64 = 0x2545_f491_4f6c_dd1d;
    let mut next = |bound: u64| -> usize {
        seed ^= seed << 13;
        seed ^= seed >> 7;
        seed ^= seed << 17;
        (seed % bound) as usize
    };
    let mut safe_states = 0;
    let mut unsafe_states = 0;
    for _ in 0..400 {
        let threads = 1 + next(5);
        let mut l = ledger(threads, &[0]);
        l.available[0] = next(4);
        for t in 0..threads {
            l.allocation[t][0] = next(3);
            l.need[t][0] = next(5);
        }
        let asker = next(threads as u64);
        let alloc: Vec<usize> = (0..threads).map(|t| l.allocation[t][0]).collect();
        let mut need: Vec<usize> = (0..threads).map(|t| l.need[t][0]).collect();
        need[asker] += 1;
        let expected = has_finishing_order(l.available[0], &alloc, &need, &mut vec![false; threads]);
        assert_eq!(l.safe_request(asker, 0), expected);
        if expected {
            safe_states += 1;
        } else {
            unsafe_states += 1;
        }
    }
    assert!(safe_states > 50 && unsafe_states > 50);
}
