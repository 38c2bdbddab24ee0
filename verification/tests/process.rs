use kernel_core::config::{PERM_R, PERM_U, PERM_W, PERM_X};
use kernel_core::mm::address::PhysAddr;
use kernel_core::mm::loader::{ImageSegment, ProgramImage};
use kernel_core::syscall::process::{
    sys_exec, sys_exit, sys_fork, sys_get_time, sys_getpid, sys_mmap, sys_set_priority, sys_spawn,
    sys_task_info, sys_waitpid, sys_yield, TimeVal,
};
use kernel_core::syscall::sync::{sys_mutex_create, sys_sleep};
use kernel_core::task::control_block::{TaskStatus, TrapContext};
use kernel_core::task::kernel::Kernel;
use kernel_core::task::process::FileDescriptor;

fn cx() -> TrapContext {
    TrapContext { a0: 7, sepc: 0x400, sp: 0x9000 }
}

fn boot(frames: usize) -> Kernel {
    let mut k = Kernel::new(50, 50 + frames);
    assert_eq!(k.add_initproc(cx()), Some(0));
    assert!(k.run_next());
    k
}

fn pid(k: &Kernel) -> usize {
    k.current.as_ref().unwrap().pid
}

/// Runs the idle loop until a task of process `want` runs.
fn run_until(k: &mut Kernel, want: usize) {
    for _ in 0..64 {
        if k.current.is_some() {
            if pid(k) == want {
                return;
            }
            assert_eq!(sys_yield(k), 0);
        }
        k.run_next();
    }
    panic!("process {} never ran", want);
}

fn image() -> ProgramImage {
    ProgramImage {
        segments: vec![
            ImageSegment { start_vpn: 0x10, end_vpn: 0x12, perm: PERM_R | PERM_X | PERM_U },
            ImageSegment { start_vpn: 0x12, end_vpn: 0x13, perm: PERM_R | PERM_W | PERM_U },
        ],
        entry: 0x10040,
    }
}

fn pages(k: &Kernel, p: usize) -> Vec<(usize, usize, u8)> {
    k.processes[p].as_ref().unwrap().memory_set.pages.iter().map(|m| (m.vpn, m.ppn, m.perm)).collect()
}

#[test]
fn initproc_is_the_first_process() {
    let k = boot(4);
    assert_eq!(sys_getpid(&k), 0);
    assert_eq!(k.initproc, Some(0));
    let p = k.processes[0].as_ref().unwrap();
    assert_eq!(p.parent, None);
    assert_eq!(p.thread_count, 1);
    assert_eq!(
        p.fd_table,
        vec![
            Some(FileDescriptor { file: 0, readable: true, writable: false }),
            Some(FileDescriptor { file: 1, readable: false, writable: true }),
            Some(FileDescriptor { file: 1, readable: false, writable: true }),
        ]
    );
    assert_eq!(k.current.as_ref().unwrap().status, TaskStatus::Running);
    assert_eq!(k.current.as_ref().unwrap().trap_cx, cx());
}

#[test]
fn fork_copies_the_process() {
    let mut k = boot(8);
    assert_eq!(sys_mmap(&mut k, 0x3000, 0x2000, 3), 0);
    assert_eq!(sys_set_priority(&mut k, 4), 4);
    {
        let p = k.processes[0].as_mut().unwrap();
        p.fd_table.push(Some(FileDescriptor { file: 9, readable: true, writable: true }));
        p.heap_bottom = 0x5000;
        p.program_brk = 0x5800;
    }
    assert_eq!(sys_mutex_create(&mut k, true), 0);
    let stride = k.current.as_ref().unwrap().stride;
    assert_eq!(sys_fork(&mut k), 1);
    assert_eq!(pid(&k), 0);
    let parent = k.processes[0].as_ref().unwrap();
    let child = k.processes[1].as_ref().unwrap();
    assert_eq!(parent.children, vec![1]);
    assert_eq!(child.parent, Some(0));
    assert_eq!(child.pid, 1);
    assert!(child.children.is_empty());
    assert!(!child.is_zombie);
    // the address space is copied, not shared
    assert_eq!(pages(&k, 0), vec![(3, 50, 22), (4, 51, 22)]);
    assert_eq!(pages(&k, 1), vec![(3, 52, 22), (4, 53, 22)]);
    assert_eq!(child.memory_set.token, 1);
    assert_eq!(child.fd_table, parent.fd_table);
    assert_eq!(child.heap_bottom, 0x5000);
    assert_eq!(child.program_brk, 0x5800);
    // primitives are not inherited
    assert!(child.mutex_list.is_empty());
    assert_eq!(child.thread_count, 1);
    // the child's task is ready and will see 0 as the result
    assert_eq!(k.manager.len(), 1);
    let t = &k.manager.ready_queue[0];
    assert_eq!((t.pid, t.tid), (1, 0));
    assert_eq!(t.status, TaskStatus::Ready);
    assert_eq!(t.trap_cx, TrapContext { a0: 0, sepc: 0x400, sp: 0x9000 });
    assert_eq!(t.priority, 4);
    assert_eq!(t.pass, 222222);
    assert_eq!(t.stride, stride);
}

#[test]
fn fork_fails_without_frames_and_changes_nothing() {
    let mut k = boot(3);
    assert_eq!(sys_mmap(&mut k, 0x3000, 0x2000, 3), 0);
    assert_eq!(sys_fork(&mut k), -1);
    assert_eq!(k.processes.len(), 1);
    assert!(k.processes[0].as_ref().unwrap().children.is_empty());
    assert_eq!(k.manager.len(), 0);
    assert!(k.frames.has_frames(1) && !k.frames.has_frames(2));
}

#[test]
fn exec_replaces_the_address_space() {
    let mut k = boot(8);
    assert_eq!(sys_mmap(&mut k, 0x3000, 0x2000, 3), 0);
    {
        let p = k.processes[0].as_mut().unwrap();
        p.fd_table.push(Some(FileDescriptor { file: 9, readable: true, writable: true }));
    }
    assert_eq!(sys_exec(&mut k, Some(&image())), 0);
    // frames 51 and 50 of the old space are used first, then fresh ones
    assert_eq!(
        pages(&k, 0),
        vec![
            (0x10, 50, PERM_R | PERM_X | PERM_U),
            (0x11, 51, PERM_R | PERM_X | PERM_U),
            (0x12, 52, PERM_R | PERM_W | PERM_U),
            (0x14, 53, PERM_R | PERM_W | PERM_U),
            (0x15, 54, PERM_R | PERM_W | PERM_U),
        ]
    );
    let p = k.processes[0].as_ref().unwrap();
    assert_eq!(p.pid, 0);
    assert_eq!(p.fd_table.len(), 4);
    assert_eq!(p.heap_bottom, 0x16000);
    assert_eq!(p.program_brk, 0x16000);
    let t = k.current.as_ref().unwrap();
    assert_eq!(t.trap_cx, TrapContext { a0: 0, sepc: 0x10040, sp: 0x16000 });
    assert_eq!(t.pid, 0);
    assert!(k.frames.has_frames(3) && !k.frames.has_frames(4));
}

#[test]
fn exec_failures_change_nothing() {
    let mut k = boot(4);
    assert_eq!(sys_mmap(&mut k, 0x3000, 0x1000, 3), 0);
    let before = pages(&k, 0);
    // no such program
    assert_eq!(sys_exec(&mut k, None), -1);
    // needs five frames, and there are four with the one that is given up
    assert_eq!(sys_exec(&mut k, Some(&image())), -1);
    // segments overlap
    let bad = ProgramImage {
        segments: vec![
            ImageSegment { start_vpn: 1, end_vpn: 3, perm: PERM_R },
            ImageSegment { start_vpn: 2, end_vpn: 3, perm: PERM_R },
        ],
        entry: 0,
    };
    assert_eq!(sys_exec(&mut k, Some(&bad)), -1);
    // the stack would lie beyond the highest break
    let high = ProgramImage {
        segments: vec![ImageSegment { start_vpn: 0x7fffe, end_vpn: 0x7ffff, perm: PERM_R }],
        entry: 0,
    };
    assert_eq!(sys_exec(&mut k, Some(&high)), -1);
    assert_eq!(pages(&k, 0), before);
    assert!(k.frames.has_frames(3) && !k.frames.has_frames(4));
    assert_eq!(k.current.as_ref().unwrap().trap_cx, cx());
    // an image without segments has only a stack
    let empty = ProgramImage { segments: vec![], entry: 4 };
    assert_eq!(sys_exec(&mut k, Some(&empty)), 0);
    assert_eq!(pages(&k, 0), vec![(1, 50, 22), (2, 51, 22)]);
    assert_eq!(k.processes[0].as_ref().unwrap().program_brk, 0x3000);
}

#[test]
fn spawn_builds_the_child_from_the_image() {
    let mut k = boot(8);
    assert_eq!(sys_mmap(&mut k, 0x3000, 0x1000, 3), 0);
    {
        let p = k.processes[0].as_mut().unwrap();
        p.fd_table.push(Some(FileDescriptor { file: 9, readable: true, writable: true }));
        p.heap_bottom = 0x5000;
        p.program_brk = 0x5800;
    }
    assert_eq!(sys_set_priority(&mut k, 4), 4);
    assert_eq!(sys_spawn(&mut k, Some(&image())), 1);
    assert_eq!(pages(&k, 0), vec![(3, 50, 22)]);
    assert_eq!(pages(&k, 1).len(), 5);
    assert_eq!(pages(&k, 1)[0], (0x10, 51, PERM_R | PERM_X | PERM_U));
    let child = k.processes[1].as_ref().unwrap();
    assert_eq!(child.parent, Some(0));
    assert_eq!(child.fd_table.len(), 3);
    assert_eq!(child.heap_bottom, 0x5000);
    assert_eq!(child.program_brk, 0x5800);
    assert_eq!(k.processes[0].as_ref().unwrap().children, vec![1]);
    let t = &k.manager.ready_queue[0];
    assert_eq!((t.pid, t.tid), (1, 0));
    assert_eq!(t.priority, 16);
    assert_eq!(t.stride, 0);
    assert_eq!(t.trap_cx, TrapContext { a0: 0, sepc: 0x10040, sp: 0x16000 });
}

#[test]
fn spawn_failures_change_nothing() {
    let mut k = boot(4);
    assert_eq!(sys_spawn(&mut k, None), -1);
    assert_eq!(sys_spawn(&mut k, Some(&image())), -1);
    assert_eq!(k.processes.len(), 1);
    assert!(k.processes[0].as_ref().unwrap().children.is_empty());
    assert!(k.frames.has_frames(4));
    assert_eq!(k.manager.len(), 0);
}

#[test]
fn waitpid_tells_no_child_from_still_running() {
    let mut k = boot(8);
    assert_eq!(sys_mmap(&mut k, 0x1000, 0x1000, 3), 0);
    assert_eq!(sys_waitpid(&mut k, -1, 0x1000), (-1, None));
    assert_eq!(sys_fork(&mut k), 1);
    assert_eq!(sys_waitpid(&mut k, -1, 0x1000), (-2, None));
    assert_eq!(sys_waitpid(&mut k, 1, 0x1000), (-2, None));
    assert_eq!(sys_waitpid(&mut k, 2, 0x1000), (-1, None));
    assert_eq!(sys_waitpid(&mut k, 0, 0x1000), (-1, None));
    assert_eq!(sys_waitpid(&mut k, -2, 0x1000), (-1, None));
    assert_eq!(k.processes[0].as_ref().unwrap().children, vec![1]);
}

#[test]
fn waitpid_collects_the_first_zombie() {
    let mut k = boot(16);
    assert_eq!(sys_mmap(&mut k, 0x1000, 0x1000, 3), 0);
    assert_eq!(sys_fork(&mut k), 1);
    assert_eq!(sys_fork(&mut k), 2);
    assert_eq!(sys_fork(&mut k), 3);
    run_until(&mut k, 3);
    sys_exit(&mut k, 33);
    run_until(&mut k, 2);
    sys_exit(&mut k, -22);
    run_until(&mut k, 0);
    assert!(k.processes[2].as_ref().unwrap().is_zombie);
    assert!(!k.processes[1].as_ref().unwrap().is_zombie);
    // a child that still runs is never returned
    assert_eq!(sys_waitpid(&mut k, 1, 0x1004), (-2, None));
    assert_eq!(sys_waitpid(&mut k, -1, 0x1004), (2, Some((PhysAddr(50 * 4096 + 4), -22))));
    assert_eq!(k.processes[0].as_ref().unwrap().children, vec![1, 3]);
    assert!(k.processes[2].is_none());
    assert_eq!(sys_waitpid(&mut k, 2, 0x1004), (-1, None));
    assert_eq!(sys_waitpid(&mut k, 3, 0x1000), (3, Some((PhysAddr(50 * 4096), 33))));
    assert_eq!(k.processes[0].as_ref().unwrap().children, vec![1]);
    assert_eq!(sys_waitpid(&mut k, -1, 0x1000), (-2, None));
    // the identifier of a collected child is free for a new one
    assert_eq!(sys_fork(&mut k), 2);
    assert_eq!(k.processes[0].as_ref().unwrap().children, vec![1, 2]);
}

#[test]
fn waitpid_with_an_unmapped_pointer_collects_nothing() {
    let mut k = boot(8);
    assert_eq!(sys_fork(&mut k), 1);
    run_until(&mut k, 1);
    sys_exit(&mut k, 5);
    run_until(&mut k, 0);
    assert_eq!(sys_waitpid(&mut k, -1, 0x1000), (-1, None));
    assert_eq!(k.processes[0].as_ref().unwrap().children, vec![1]);
    assert!(k.processes[1].is_some());
    assert_eq!(sys_mmap(&mut k, 0x1000, 0x1000, 3), 0);
    assert_eq!(sys_waitpid(&mut k, -1, 0x1000).0, 1);
}

#[test]
fn exit_makes_a_zombie_and_hands_the_children_over() {
    let mut k = boot(16);
    assert_eq!(sys_fork(&mut k), 1);
    run_until(&mut k, 1);
    assert_eq!(sys_mmap(&mut k, 0x2000, 0x3000, 1), 0);
    assert_eq!(sys_fork(&mut k), 2);
    assert_eq!(sys_fork(&mut k), 3);
    assert_eq!(k.create_thread(cx()), Some(1));
    assert_eq!(k.processes[1].as_ref().unwrap().children, vec![2, 3]);
    let free_before = (0..64).take_while(|&n| k.frames.has_frames(n)).count() - 1;
    sys_exit(&mut k, 9);
    assert!(k.current.is_none());
    let p = k.processes[1].as_ref().unwrap();
    assert!(p.is_zombie);
    assert_eq!(p.exit_code, 9);
    let z = p.zombie_task.as_ref().unwrap();
    assert_eq!(z.status, TaskStatus::Zombie);
    assert_eq!((z.pid, z.tid), (1, 0));
    assert!(p.children.is_empty());
    assert!(p.memory_set.pages.is_empty());
    assert_eq!(p.parent, Some(0));
    // the frames of the address space are free again
    let free_after = (0..64).take_while(|&n| k.frames.has_frames(n)).count() - 1;
    assert_eq!(free_after, free_before + 3);
    // the children go to the initial process
    assert_eq!(k.processes[0].as_ref().unwrap().children, vec![1, 2, 3]);
    assert_eq!(k.processes[2].as_ref().unwrap().parent, Some(0));
    assert_eq!(k.processes[3].as_ref().unwrap().parent, Some(0));
    // the other thread of the process is gone from the ready queue
    assert!(k.manager.ready_queue.iter().all(|t| t.pid != 1));
    assert_eq!(k.manager.len(), 3);
}

#[test]
fn exit_of_the_initial_process_leaves_orphans() {
    let mut k = boot(8);
    assert_eq!(sys_fork(&mut k), 1);
    sys_exit(&mut k, 0);
    assert!(k.processes[0].as_ref().unwrap().is_zombie);
    assert_eq!(k.processes[1].as_ref().unwrap().parent, None);
    run_until(&mut k, 1);
    assert_eq!(sys_fork(&mut k), 2);
    // there is no process left to take the child
    sys_exit(&mut k, 1);
    assert_eq!(k.processes[2].as_ref().unwrap().parent, None);
    assert!(k.processes[1].as_ref().unwrap().children.is_empty());
    assert!(k.processes[0].as_ref().unwrap().children.is_empty());
}

#[test]
fn exit_of_a_second_thread_leaves_the_process_alone() {
    let mut k = boot(8);
    assert_eq!(k.create_thread(cx()), Some(1));
    assert_eq!(sys_yield(&mut k), 0);
    assert!(k.run_next());
    assert_eq!(k.current.as_ref().unwrap().tid, 1);
    sys_exit(&mut k, 3);
    assert!(k.current.is_none());
    assert!(!k.processes[0].as_ref().unwrap().is_zombie);
    assert_eq!(k.manager.len(), 1);
}

#[test]
fn tasks_of_an_exited_process_do_not_run() {
    let mut k = boot(8);
    assert_eq!(k.create_thread(cx()), Some(1));
    assert_eq!(sys_fork(&mut k), 1);
    assert_eq!(sys_sleep(&mut k, 0, 10), 0);
    // thread 1 of process 0 runs, sleeps too
    assert!(k.run_next());
    assert_eq!((pid(&k), k.current.as_ref().unwrap().tid), (0, 1));
    assert_eq!(sys_sleep(&mut k, 0, 10), 0);
    assert!(k.run_next());
    assert_eq!(pid(&k), 1);
    assert_eq!(sys_yield(&mut k), 0);
    assert!(k.wake_expired(10));
    assert!(k.run_next());
    assert_eq!((pid(&k), k.current.as_ref().unwrap().tid), (0, 0));
    sys_exit(&mut k, 0);
    // the sleeping thread went with its process
    assert!(k.blocked.is_empty());
    assert!(!k.wake_expired(1000));
    assert!(k.run_next());
    assert_eq!(pid(&k), 1);
}

#[test]
fn get_time_translates_each_field() {
    let mut k = boot(8);
    assert_eq!(sys_mmap(&mut k, 0x1000, 0x1000, 3), 0);
    assert_eq!(sys_mmap(&mut k, 0x3000, 0x1000, 3), 0);
    assert_eq!(sys_mmap(&mut k, 0x2000, 0x1000, 3), 0);
    let (r, w) = sys_get_time(&k, 3_000_042, 0x1010, 0);
    assert_eq!(r, 0);
    let w = w.unwrap();
    assert_eq!(w.value, TimeVal { sec: 3, usec: 42 });
    assert_eq!(w.addrs, vec![PhysAddr(50 * 4096 + 0x10), PhysAddr(50 * 4096 + 0x18)]);
    // a structure across two pages that are not neighbours in memory
    let (r, w) = sys_get_time(&k, 999_999, 0x1ff8, 0);
    assert_eq!(r, 0);
    let w = w.unwrap();
    assert_eq!(w.value, TimeVal { sec: 0, usec: 999_999 });
    assert_eq!(w.addrs, vec![PhysAddr(50 * 4096 + 0xff8), PhysAddr(52 * 4096)]);
    let (r, w) = sys_get_time(&k, 0, 0x3ff8, 0);
    assert_eq!(r, -1);
    assert!(w.is_none());
    assert_eq!(sys_get_time(&k, 0, 0x8000, 0).0, -1);
    assert_eq!(sys_get_time(&k, 0, usize::MAX - 3, 0).0, -1);
}

#[test]
fn task_info_reports_the_running_task() {
    let mut k = boot(8);
    assert_eq!(sys_mmap(&mut k, 0x1000, 0x1000, 3), 0);
    {
        let t = k.current.as_mut().unwrap();
        t.record_syscall(169);
        t.record_syscall(169);
        t.record_syscall(410);
        t.running_time = 77;
    }
    let (r, w) = sys_task_info(&k, 0x1000);
    assert_eq!(r, 0);
    let w = w.unwrap();
    assert_eq!(w.value.status, TaskStatus::Running);
    assert_eq!(w.value.time, 77);
    assert_eq!(w.value.syscall_times.len(), 500);
    assert_eq!(w.value.syscall_times[169], 2);
    assert_eq!(w.value.syscall_times[410], 1);
    assert_eq!(w.addrs.len(), 502);
    assert_eq!(w.addrs[0], PhysAddr(50 * 4096));
    assert_eq!(w.addrs[1], PhysAddr(50 * 4096 + 4));
    assert_eq!(w.addrs[500], PhysAddr(50 * 4096 + 2000));
    assert_eq!(w.addrs[501], PhysAddr(50 * 4096 + 2008));
    // the structure does not fit into what is mapped from here
    assert_eq!(sys_task_info(&k, 0x1900).0, -1);
    assert!(sys_task_info(&k, 0x1900).1.is_none());
    assert_eq!(sys_mmap(&mut k, 0x2000, 0x1000, 3), 0);
    let (r, w) = sys_task_info(&k, 0x1900);
    assert_eq!(r, 0);
    assert_eq!(w.unwrap().addrs[501], PhysAddr(51 * 4096 + 0x900 + 2008 - 0x1000));
}

/// Checks that no frame lies behind two pages, and that every frame behind
/// a page is in use.
fn assert_isolated(k: &Kernel) {
    let mut seen = std::collections::BTreeSet::new();
    for p in k.processes.iter().flatten() {
        for m in p.memory_set.pages.iter() {
            assert!(seen.insert(m.ppn), "frame {} is mapped twice", m.ppn);
            assert!(k.frames.is_in_use(m.ppn), "frame {} is mapped and free", m.ppn);
        }
    }
}

#[test]
fn frames_are_never_shared_between_address_spaces() {
    let mut k = boot(40);
    assert_eq!(sys_mmap(&mut k, 0x1000, 0x3000, 3), 0);
    assert_isolated(&k);
    assert_eq!(sys_fork(&mut k), 1);
    assert_isolated(&k);
    assert_eq!(sys_spawn(&mut k, Some(&image())), 2);
    assert_isolated(&k);
    assert_eq!(sys_exec(&mut k, Some(&image())), 0);
    assert_isolated(&k);
    assert_eq!(sys_mmap(&mut k, 0x20000, 0x2000, 1), 0);
    assert_isolated(&k);
    run_until(&mut k, 1);
    assert_eq!(sys_mmap(&mut k, 0x20000, 0x2000, 1), 0);
    assert_eq!(kernel_core::syscall::process::sys_munmap(&mut k, 0x2000, 0x1000), 0);
    assert_isolated(&k);
    assert_eq!(sys_fork(&mut k), 3);
    assert_isolated(&k);
    sys_exit(&mut k, 0);
    assert_isolated(&k);
    run_until(&mut k, 3);
    assert_eq!(sys_exec(&mut k, Some(&image())), 0);
    assert_isolated(&k);
    run_until(&mut k, 0);
    assert_eq!(sys_waitpid(&mut k, -1, 0x10000).0, 1);
    assert_eq!(sys_fork(&mut k), 1);
    assert_isolated(&k);
    // seven pages each in processes 0 and 1, five each in processes 2 and 3
    assert_eq!(k.processes.iter().flatten().map(|p| p.memory_set.pages.len()).sum::<usize>(), 24);
}

#[test]
fn every_task_keeps_the_pass_of_its_priority() {
    let mut k = boot(16);
    assert_eq!(sys_set_priority(&mut k, 3), 3);
    assert_eq!(sys_fork(&mut k), 1);
    assert_eq!(k.create_thread(cx()), Some(1));
    assert_eq!(sys_spawn(&mut k, Some(&image())), 2);
    run_until(&mut k, 2);
    assert_eq!(sys_set_priority(&mut k, 888889), 888889);
    assert_eq!(sys_sleep(&mut k, 0, 5), 0);
    run_until(&mut k, 1);
    let check = |t: &kernel_core::task::control_block::TaskControlBlock| {
        assert!(t.priority >= 2);
        assert_eq!(t.pass, 888888 / t.priority);
    };
    check(k.current.as_ref().unwrap());
    k.manager.ready_queue.iter().for_each(check);
    k.blocked.iter().for_each(check);
    assert_eq!(k.blocked[0].pass, 0);
    assert_eq!(k.current.as_ref().unwrap().pass, 296296);
    assert_eq!(k.manager.ready_queue.iter().filter(|t| t.pass == 296296).count(), 1);
    assert_eq!(k.manager.ready_queue.iter().filter(|t| t.pass == 55555).count(), 1);
}
