use kernel_core::config::{BIG_STRIDE, DEFAULT_PRIORITY, MAX_SYSCALL_NUM};
use kernel_core::syscall::process::{sys_getpid, sys_set_priority, sys_yield};
use kernel_core::task::control_block::{TaskControlBlock, TaskStatus, TrapContext};
use kernel_core::task::kernel::Kernel;
use kernel_core::task::manager::{add_task, fetch_task, TaskManager};

fn cx() -> TrapContext {
    TrapContext { a0: 0, sepc: 0, sp: 0 }
}

fn task(pid: usize, stride: isize, priority: isize) -> TaskControlBlock {
    let mut t = TaskControlBlock::new(pid, 0, cx());
    assert!(t.set_priority(priority));
    t.stride = stride;
    t
}

fn boot() -> Kernel {
    let mut k = Kernel::new(0, 64);
    assert_eq!(k.add_initproc(cx()), Some(0));
    assert!(k.run_next());
    k
}

#[test]
fn new_task_has_default_scheduling_state() {
    let t = TaskControlBlock::new(3, 1, cx());
    assert_eq!(t.pid, 3);
    assert_eq!(t.tid, 1);
    assert_eq!(t.status, TaskStatus::Ready);
    assert_eq!(t.stride, 0);
    assert_eq!(t.priority, DEFAULT_PRIORITY);
    assert_eq!(t.pass, BIG_STRIDE / 16);
    assert_eq!(t.pass, 55555);
    assert_eq!(t.syscall_times.len(), MAX_SYSCALL_NUM);
    assert!(t.syscall_times.iter().all(|&c| c == 0));
}

#[test]
fn fetch_on_empty_queue_returns_nothing() {
    let mut m = TaskManager::new();
    assert!(m.fetch().is_none());
    assert_eq!(m.len(), 0);
    assert!(fetch_task(&mut m).is_none());
}

#[test]
fn fetch_takes_the_smallest_stride() {
    let mut m = TaskManager::new();
    m.add(task(1, 30, 16));
    m.add(task(2, 10, 16));
    m.add(task(3, 20, 16));
    let t = m.fetch().unwrap();
    assert_eq!(t.pid, 2);
    assert_eq!(t.stride, 10 + 55555);
    assert_eq!(m.len(), 2);
    let t = m.fetch().unwrap();
    assert_eq!(t.pid, 3);
    let t = m.fetch().unwrap();
    assert_eq!(t.pid, 1);
    assert!(m.fetch().is_none());
}

#[test]
fn fetch_breaks_ties_by_queue_position() {
    let mut m = TaskManager::new();
    m.add(task(7, 5, 16));
    m.add(task(8, 5, 16));
    m.add(task(9, 5, 16));
    assert_eq!(m.find_min(), Some(0));
    assert_eq!(m.fetch().unwrap().pid, 7);
    assert_eq!(m.fetch().unwrap().pid, 8);
    assert_eq!(m.fetch().unwrap().pid, 9);
}

#[test]
fn fetch_advances_stride_by_pass() {
    let mut m = TaskManager::new();
    m.add(task(1, 0, 2));
    let t = m.fetch().unwrap();
    assert_eq!(t.pass, 444444);
    assert_eq!(t.stride, 444444);
    m.add(t);
    let t = m.fetch().unwrap();
    assert_eq!(t.stride, 888888);
}

#[test]
fn strides_never_go_back_over_a_run() {
    let mut m = TaskManager::new();
    add_task(&mut m, task(0, 0, 2));
    add_task(&mut m, task(1, 0, 4));
    add_task(&mut m, task(2, 0, 16));
    let mut last = [0isize; 3];
    let mut runs = [0usize; 3];
    for _ in 0..70 {
        let least = (0..m.len()).map(|i| m.ready_queue[i].stride).min().unwrap();
        let t = fetch_task(&mut m).unwrap();
        assert_eq!(t.stride - t.pass, least);
        assert!(t.stride >= last[t.pid]);
        last[t.pid] = t.stride;
        runs[t.pid] += 1;
        add_task(&mut m, t);
    }
    // the share of the processor follows the priority
    assert!(runs[2] > runs[1] && runs[1] > runs[0]);
    assert_eq!(runs[0] + runs[1] + runs[2], 70);
}

#[test]
fn fetch_task_refuses_a_stride_that_cannot_advance() {
    let mut m = TaskManager::new();
    m.add(task(1, isize::MAX - 10, 2));
    assert!(!m.fetchable());
    assert!(fetch_task(&mut m).is_none());
    assert_eq!(m.len(), 1);
    m.add(task(2, 0, 2));
    assert!(m.fetchable());
    assert_eq!(fetch_task(&mut m).unwrap().pid, 2);
}

#[test]
fn set_priority_below_two_is_refused() {
    let mut k = boot();
    assert_eq!(sys_set_priority(&mut k, 1), -1);
    assert_eq!(sys_set_priority(&mut k, 0), -1);
    assert_eq!(sys_set_priority(&mut k, -5), -1);
    let t = k.current.as_ref().unwrap();
    assert_eq!(t.priority, 16);
    assert_eq!(t.pass, BIG_STRIDE / 16);
}

#[test]
fn set_priority_ten_sets_pass() {
    let mut k = boot();
    assert_eq!(sys_set_priority(&mut k, 1), -1);
    assert_eq!(sys_set_priority(&mut k, 10), 10);
    let t = k.current.as_ref().unwrap();
    assert_eq!(t.priority, 10);
    assert_eq!(t.pass, BIG_STRIDE / 10);
    assert_eq!(t.pass, 88888);
    assert_eq!(sys_set_priority(&mut k, 2), 2);
    assert_eq!(k.current.as_ref().unwrap().pass, 444444);
}

#[test]
fn yield_requeues_the_caller() {
    let mut k = boot();
    assert_eq!(sys_getpid(&k), 0);
    assert_eq!(sys_yield(&mut k), 0);
    assert!(k.current.is_none());
    assert_eq!(k.manager.len(), 1);
    assert_eq!(k.manager.ready_queue[0].status, TaskStatus::Ready);
    assert!(k.run_next());
    let t = k.current.as_ref().unwrap();
    assert_eq!(t.status, TaskStatus::Running);
    assert_eq!(t.stride, 2 * 55555);
}

#[test]
fn run_next_on_idle_kernel_without_tasks() {
    let mut k = Kernel::new(0, 8);
    assert!(!k.run_next());
    assert!(k.current.is_none());
}

#[test]
fn record_syscall_counts() {
    let mut t = TaskControlBlock::new(0, 0, cx());
    t.record_syscall(64);
    t.record_syscall(64);
    t.record_syscall(499);
    t.record_syscall(500);
    assert_eq!(t.syscall_times[64], 2);
    assert_eq!(t.syscall_times[499], 1);
    assert_eq!(t.syscall_times.iter().map(|&c| c as usize).sum::<usize>(), 3);
}

#[test]
fn strides_stay_within_half_the_big_stride() {
    let mut m = TaskManager::new();
    for (pid, priority) in [(0, 2), (1, 3), (2, 7), (3, 16), (4, 1000), (5, 2_000_000)] {
        m.add(task(pid, 100, priority));
    }
    for _ in 0..5000 {
        let t = m.fetch().unwrap();
        m.add(t);
        let strides: Vec<isize> = m.ready_queue.iter().map(|t| t.stride).collect();
        let spread = strides.iter().max().unwrap() - strides.iter().min().unwrap();
        assert!(spread <= BIG_STRIDE / 2, "strides are {} apart", spread);
    }
    // a task whose pass is zero never lets the others run again
    assert_eq!(m.ready_queue.iter().find(|t| t.pid == 5).unwrap().pass, 0);
}
