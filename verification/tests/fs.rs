use kernel_core::mm::address::PhysAddr;
use kernel_core::syscall::fs::{
    link_result, sys_close, sys_fstat, sys_linkat, sys_open, sys_read, sys_unlinkat, sys_write,
    LinkStep, OpenFlags, Stat, StatMode, UnlinkStep, O_CREATE, O_RDWR, O_TRUNC, O_WRONLY,
};
use kernel_core::syscall::process::sys_mmap;
use kernel_core::task::control_block::TrapContext;
use kernel_core::task::kernel::Kernel;
use kernel_core::task::process::FileDescriptor;

fn boot() -> Kernel {
    let mut k = Kernel::new(20, 40);
    assert_eq!(k.add_initproc(TrapContext { a0: 0, sepc: 0, sp: 0 }), Some(0));
    assert!(k.run_next());
    assert_eq!(sys_mmap(&mut k, 0x1000, 0x2000, 3), 0);
    k
}

fn fds(k: &Kernel) -> Vec<Option<FileDescriptor>> {
    k.processes[0].as_ref().unwrap().fd_table.clone()
}

#[test]
fn open_flags() {
    assert_eq!(OpenFlags::from_bits(0).unwrap().read_write(), (true, false));
    assert_eq!(OpenFlags::from_bits(O_WRONLY).unwrap().read_write(), (false, true));
    assert_eq!(OpenFlags::from_bits(O_RDWR).unwrap().read_write(), (true, true));
    assert_eq!(OpenFlags::from_bits(O_CREATE).unwrap().read_write(), (true, true));
    assert_eq!(OpenFlags::from_bits(O_CREATE | O_WRONLY).unwrap().read_write(), (false, true));
    assert_eq!(OpenFlags::from_bits(O_TRUNC | O_RDWR).unwrap().bits, 1026);
    assert!(OpenFlags::from_bits(4).is_none());
    assert!(OpenFlags::from_bits(0x8000_0000).is_none());
}

#[test]
fn write_goes_to_a_writable_file() {
    let k = boot();
    let t = sys_write(&k, 1, 0x1ffe, 4).ok().unwrap();
    assert_eq!(t.file, 1);
    assert_eq!(t.segments.len(), 2);
    assert_eq!((t.segments[0].pa, t.segments[0].len), (PhysAddr(20 * 4096 + 0xffe), 2));
    assert_eq!((t.segments[1].pa, t.segments[1].len), (PhysAddr(21 * 4096), 2));
    assert_eq!(sys_write(&k, 2, 0x1000, 0).ok().unwrap().segments.len(), 0);
    // standard input cannot be written
    assert_eq!(sys_write(&k, 0, 0x1000, 4).err(), Some(-1));
    // no such descriptor
    assert_eq!(sys_write(&k, 3, 0x1000, 4).err(), Some(-1));
    assert_eq!(sys_write(&k, usize::MAX, 0x1000, 4).err(), Some(-1));
    // the buffer leaves what is mapped
    assert_eq!(sys_write(&k, 1, 0x2fff, 2).err(), Some(-1));
}

#[test]
fn read_comes_from_a_readable_file() {
    let k = boot();
    let t = sys_read(&k, 0, 0x1000, 1).ok().unwrap();
    assert_eq!(t.file, 0);
    assert_eq!(t.segments.len(), 1);
    assert_eq!(sys_read(&k, 1, 0x1000, 1).err(), Some(-1));
    assert_eq!(sys_read(&k, 7, 0x1000, 1).err(), Some(-1));
    assert_eq!(sys_read(&k, 0, 0x4000, 1).err(), Some(-1));
}

#[test]
fn open_takes_the_first_empty_descriptor() {
    let mut k = boot();
    assert_eq!(sys_open(&mut k, 0, Some(40)), 3);
    assert_eq!(sys_open(&mut k, O_CREATE | O_WRONLY, Some(41)), 4);
    assert_eq!(sys_close(&mut k, 3), 0);
    assert_eq!(sys_close(&mut k, 1), 0);
    assert_eq!(sys_open(&mut k, O_RDWR, Some(42)), 1);
    assert_eq!(sys_open(&mut k, O_RDWR, Some(43)), 3);
    assert_eq!(sys_open(&mut k, O_RDWR, Some(44)), 5);
    let t = fds(&k);
    assert_eq!(t[1], Some(FileDescriptor { file: 42, readable: true, writable: true }));
    assert_eq!(t[4], Some(FileDescriptor { file: 41, readable: false, writable: true }));
    assert_eq!(sys_read(&k, 4, 0x1000, 1).err(), Some(-1));
    assert_eq!(sys_write(&k, 4, 0x1000, 1).ok().unwrap().file, 41);
}

#[test]
fn open_failures_change_nothing() {
    let mut k = boot();
    assert_eq!(sys_open(&mut k, 0, None), -1);
    assert_eq!(sys_open(&mut k, 4, Some(40)), -1);
    assert_eq!(fds(&k).len(), 3);
}

#[test]
fn close_empties_the_slot() {
    let mut k = boot();
    assert_eq!(sys_close(&mut k, 3), -1);
    assert_eq!(sys_close(&mut k, 2), 0);
    assert_eq!(sys_close(&mut k, 2), -1);
    assert_eq!(fds(&k).len(), 3);
    assert_eq!(fds(&k)[2], None);
    assert_eq!(sys_write(&k, 2, 0x1000, 1).err(), Some(-1));
}

#[test]
fn fstat_fills_the_structure() {
    let k = boot();
    let (r, w) = sys_fstat(&k, 1, 0x1ff0, 17, 2);
    assert_eq!(r, 0);
    let w = w.unwrap();
    assert_eq!(w.value, Stat { dev: 0, ino: 17, mode: StatMode::File, nlink: 2 });
    assert_eq!(w.value.mode.bits(), 0o100000);
    assert_eq!(StatMode::Dir.bits(), 0o040000);
    assert_eq!(StatMode::Null.bits(), 0);
    assert_eq!(w.addrs.len(), 11);
    assert_eq!(w.addrs[0], PhysAddr(20 * 4096 + 0xff0));
    assert_eq!(w.addrs[1], PhysAddr(20 * 4096 + 0xff8));
    assert_eq!(w.addrs[2], PhysAddr(21 * 4096));
    assert_eq!(w.addrs[3], PhysAddr(21 * 4096 + 4));
    assert_eq!(w.addrs[4], PhysAddr(21 * 4096 + 8));
    assert_eq!(w.addrs[10], PhysAddr(21 * 4096 + 56));
    assert_eq!(sys_fstat(&k, 3, 0x1000, 17, 2).0, -1);
    assert_eq!(sys_fstat(&k, 99, 0x1000, 17, 2).0, -1);
    assert!(sys_fstat(&k, 1, 0x2fc0, 17, 2).1.is_none());
    assert_eq!(sys_fstat(&k, 1, 0x2fb0, 17, 2).0, 0);
}

#[test]
fn link_to_the_same_name_fails() {
    assert_eq!(sys_linkat(&b"a.txt".to_vec(), &b"a.txt".to_vec()), LinkStep::Fail(-1));
    assert_eq!(sys_linkat(&b"a.txt".to_vec(), &b"b.txt".to_vec()), LinkStep::Link);
    assert_eq!(sys_linkat(&b"a".to_vec(), &b"ab".to_vec()), LinkStep::Link);
    assert_eq!(sys_linkat(&vec![], &vec![]), LinkStep::Fail(-1));
    assert_eq!(link_result(true), 0);
    assert_eq!(link_result(false), -1);
}

#[test]
fn unlink_clears_with_the_last_name() {
    assert_eq!(sys_unlinkat(None), UnlinkStep::Fail(-1));
    assert_eq!(sys_unlinkat(Some(1)), UnlinkStep::Unlink { clear: true });
    assert_eq!(sys_unlinkat(Some(2)), UnlinkStep::Unlink { clear: false });
}
