use kernel_core::config::{PAGE_SIZE, PERM_R, PERM_U, PERM_W, PERM_X};
use kernel_core::mm::address::{PhysAddr, VirtAddr};
use kernel_core::mm::frame_allocator::FrameAllocator;
use kernel_core::mm::memory_set::{user_perm_of, MemorySet, PageEntry};
use kernel_core::syscall::process::{sys_mmap, sys_munmap, sys_sbrk, v2p_addr};
use kernel_core::task::control_block::TrapContext;
use kernel_core::task::kernel::Kernel;

fn boot(frames: usize) -> Kernel {
    let mut k = Kernel::new(100, 100 + frames);
    assert_eq!(k.add_initproc(TrapContext { a0: 0, sepc: 0, sp: 0 }), Some(0));
    assert!(k.run_next());
    k
}

fn mappings(k: &Kernel) -> Vec<(usize, usize, u8)> {
    let mut v: Vec<(usize, usize, u8)> = k.processes[0]
        .as_ref()
        .unwrap()
        .memory_set
        .pages
        .iter()
        .map(|m| (m.vpn, m.ppn, m.perm))
        .collect();
    v.sort();
    v
}

#[test]
fn address_splits_into_page_and_offset() {
    let va = VirtAddr(0x1234);
    assert_eq!(va.floor(), 1);
    assert_eq!(va.ceil(), 2);
    assert_eq!(va.page_offset(), 0x234);
    assert!(!va.aligned());
    let va = VirtAddr(0x3000);
    assert_eq!(va.floor(), 3);
    assert_eq!(va.ceil(), 3);
    assert!(va.aligned());
    assert_eq!(VirtAddr(0).ceil(), 0);
    assert_eq!(VirtAddr(usize::MAX).floor(), usize::MAX / PAGE_SIZE);
    assert_eq!(VirtAddr(usize::MAX).ceil(), usize::MAX / PAGE_SIZE + 1);
    assert_eq!(PhysAddr::from_ppn_and_offset(5, 7), PhysAddr(5 * 4096 + 7));
}

#[test]
fn frames_are_reused_last_returned_first() {
    let mut a = FrameAllocator::new(10, 13);
    assert_eq!(a.alloc_frame(), Some(10));
    assert_eq!(a.alloc_frame(), Some(11));
    a.dealloc_frame(10);
    a.dealloc_frame(11);
    assert!(a.has_frames(3));
    assert!(!a.has_frames(4));
    assert_eq!(a.alloc_many(4), None);
    assert_eq!(a.alloc_many(3), Some(vec![11, 10, 12]));
    assert_eq!(a.alloc_frame(), None);
    assert!(a.has_frames(0));
}

#[test]
fn user_permission_bits() {
    assert_eq!(user_perm_of(0), None);
    assert_eq!(user_perm_of(8), None);
    assert_eq!(user_perm_of(1), Some(PERM_R | PERM_U));
    assert_eq!(user_perm_of(2), Some(PERM_W | PERM_U));
    assert_eq!(user_perm_of(3), Some(PERM_R | PERM_W | PERM_U));
    assert_eq!(user_perm_of(4), Some(PERM_X | PERM_U));
    assert_eq!(user_perm_of(7), Some(PERM_R | PERM_W | PERM_X | PERM_U));
}

#[test]
fn map_region_is_all_or_nothing() {
    let mut frames = FrameAllocator::new(0, 8);
    let mut ms = MemorySet::new(1);
    assert!(ms.map_region(4, 6, PERM_R, &mut frames));
    // overlaps page 5
    assert!(!ms.map_region(5, 8, PERM_W, &mut frames));
    assert_eq!(ms.pages.len(), 2);
    assert!(frames.has_frames(6) && !frames.has_frames(7));
    // too few frames
    assert!(!ms.map_region(10, 17, PERM_W, &mut frames));
    assert_eq!(ms.pages.len(), 2);
    assert!(ms.map_region(10, 16, PERM_W, &mut frames));
    assert_eq!(ms.translate(4), Some(PageEntry { ppn: 0, perm: PERM_R }));
    assert_eq!(ms.translate(5), Some(PageEntry { ppn: 1, perm: PERM_R }));
    assert_eq!(ms.translate(6), None);
    assert_eq!(ms.translate(15), Some(PageEntry { ppn: 7, perm: PERM_W }));
    assert!(ms.range_is_free(6, 10));
    assert!(!ms.range_is_free(6, 11));
    assert!(ms.range_is_mapped(10, 16));
    assert!(!ms.range_is_mapped(9, 16));
}

#[test]
fn unmap_region_refuses_a_hole_and_changes_nothing() {
    let mut frames = FrameAllocator::new(0, 8);
    let mut ms = MemorySet::new(1);
    assert!(ms.map_region(1, 3, PERM_R, &mut frames));
    assert!(ms.map_region(4, 5, PERM_R, &mut frames));
    assert!(!ms.unmap_region(1, 5, &mut frames));
    assert_eq!(ms.pages.len(), 3);
    assert!(ms.unmap_region(1, 3, &mut frames));
    assert_eq!(ms.pages.len(), 1);
    assert_eq!(frames.recycled, vec![0, 1]);
    // an empty range is always unmapped
    assert!(ms.unmap_region(9, 9, &mut frames));
    assert!(ms.unmap_region(9, 2, &mut frames));
}

#[test]
fn unmap_middle_of_a_region() {
    let mut frames = FrameAllocator::new(0, 8);
    let mut ms = MemorySet::new(1);
    assert!(ms.map_region(0, 5, PERM_R, &mut frames));
    assert!(ms.unmap_region(2, 3, &mut frames));
    assert_eq!(ms.translate(1).unwrap().ppn, 1);
    assert_eq!(ms.translate(2), None);
    assert_eq!(ms.translate(3).unwrap().ppn, 3);
    // the hole can be mapped again, with the frame that was given back
    assert!(ms.map_region(2, 3, PERM_W, &mut frames));
    assert_eq!(ms.translate(2), Some(PageEntry { ppn: 2, perm: PERM_W }));
}

#[test]
fn mmap_scenario_second_call_fails() {
    let mut k = boot(16);
    assert_eq!(sys_mmap(&mut k, 0x1000, 0x2000, 0b011), 0);
    assert_eq!(
        mappings(&k),
        vec![(1, 100, PERM_R | PERM_W | PERM_U), (2, 101, PERM_R | PERM_W | PERM_U)]
    );
    assert_eq!(sys_mmap(&mut k, 0x1000, 0x2000, 0b011), -1);
    assert_eq!(mappings(&k).len(), 2);
    assert!(k.frames.has_frames(14) && !k.frames.has_frames(15));
}

#[test]
fn mmap_argument_errors() {
    let mut k = boot(16);
    assert_eq!(sys_mmap(&mut k, 0x1001, 0x1000, 3), -1);
    assert_eq!(sys_mmap(&mut k, 0x1000, 0x1000, 0), -1);
    assert_eq!(sys_mmap(&mut k, 0x1000, 0x1000, 8), -1);
    assert_eq!(sys_mmap(&mut k, 0x1000, 0x1000, 0x13), -1);
    assert_eq!(sys_mmap(&mut k, 0x1000, usize::MAX, 3), -1);
    // more pages than frames
    assert_eq!(sys_mmap(&mut k, 0x1000, 17 * 0x1000, 3), -1);
    assert!(mappings(&k).is_empty());
    assert!(k.frames.has_frames(16));
    // a length of nothing maps nothing
    assert_eq!(sys_mmap(&mut k, 0x1000, 0, 1), 0);
    assert!(mappings(&k).is_empty());
    // a length that is no multiple of the page size is rounded up
    assert_eq!(sys_mmap(&mut k, 0x4000, 0x1001, 4), 0);
    assert_eq!(mappings(&k), vec![(4, 100, PERM_X | PERM_U), (5, 101, PERM_X | PERM_U)]);
}

#[test]
fn mmap_overlap_leaves_earlier_pages_alone() {
    let mut k = boot(16);
    assert_eq!(sys_mmap(&mut k, 0x3000, 0x1000, 1), 0);
    assert_eq!(sys_mmap(&mut k, 0x1000, 0x3000, 2), -1);
    assert_eq!(mappings(&k), vec![(3, 100, PERM_R | PERM_U)]);
}

#[test]
fn mmap_then_munmap_restores_the_mappings() {
    let mut k = boot(16);
    assert_eq!(sys_mmap(&mut k, 0x8000, 0x1000, 1), 0);
    let before = mappings(&k);
    assert_eq!(sys_mmap(&mut k, 0x1000, 0x2800, 3), 0);
    assert_eq!(mappings(&k).len(), 4);
    assert_eq!(sys_munmap(&mut k, 0x1000, 0x2800), 0);
    assert_eq!(mappings(&k), before);
    assert!(k.frames.has_frames(15) && !k.frames.has_frames(16));
}

#[test]
fn munmap_errors() {
    let mut k = boot(16);
    assert_eq!(sys_mmap(&mut k, 0x1000, 0x2000, 3), 0);
    assert_eq!(sys_munmap(&mut k, 0x1800, 0x1000), -1);
    assert_eq!(sys_munmap(&mut k, 0x1000, 0x3000), -1);
    assert_eq!(sys_munmap(&mut k, 0x5000, 0x1000), -1);
    assert_eq!(mappings(&k).len(), 2);
    // a length past the last address is cut, and then hits unmapped pages
    assert_eq!(sys_munmap(&mut k, 0x1000, usize::MAX), -1);
    assert_eq!(mappings(&k).len(), 2);
    assert_eq!(sys_munmap(&mut k, 0x2000, 0x1000), 0);
    assert_eq!(mappings(&k), vec![(1, 100, PERM_R | PERM_W | PERM_U)]);
    assert_eq!(sys_munmap(&mut k, 0x1000, 0), 0);
    assert_eq!(mappings(&k).len(), 1);
}

#[test]
fn translation_of_user_addresses() {
    let mut k = boot(16);
    assert_eq!(sys_mmap(&mut k, 0x2000, 0x1000, 3), 0);
    assert_eq!(v2p_addr(&k, VirtAddr(0x2abc), 0), Some(PhysAddr(100 * 4096 + 0xabc)));
    assert_eq!(v2p_addr(&k, VirtAddr(0x2000), 0), Some(PhysAddr(100 * 4096)));
    assert_eq!(v2p_addr(&k, VirtAddr(0x3000), 0), None);
    assert_eq!(v2p_addr(&k, VirtAddr(0x1fff), 0), None);
    // no address space has this token
    assert_eq!(v2p_addr(&k, VirtAddr(0x2000), 5), None);
}

#[test]
fn byte_buffer_is_split_at_page_boundaries() {
    let mut frames = FrameAllocator::new(7, 20);
    let mut ms = MemorySet::new(0);
    assert!(ms.map_region(1, 2, PERM_R, &mut frames));
    assert!(ms.map_region(3, 4, PERM_R, &mut frames));
    assert!(ms.map_region(2, 3, PERM_R, &mut frames));
    // pages 1, 2, 3 lie in frames 7, 9, 8
    let segs = ms.translated_byte_buffer(0x1ff0, 0x1020).unwrap();
    assert_eq!(segs.len(), 3);
    assert_eq!((segs[0].pa, segs[0].len), (PhysAddr(7 * 4096 + 0xff0), 0x10));
    assert_eq!((segs[1].pa, segs[1].len), (PhysAddr(9 * 4096), 0x1000));
    assert_eq!((segs[2].pa, segs[2].len), (PhysAddr(8 * 4096), 0x10));
    assert_eq!(ms.translated_byte_buffer(0x1000, 0).unwrap().len(), 0);
    assert_eq!(ms.translated_byte_buffer(0x1000, 0x1000).unwrap().len(), 1);
    assert!(ms.translated_byte_buffer(0x3ff0, 0x20).is_none());
    assert!(ms.translated_byte_buffer(0xff0, 0x20).is_none());
    assert!(ms.translated_byte_buffer(0x1000, usize::MAX).is_none());
}

#[test]
fn fields_are_translated_one_by_one() {
    let mut frames = FrameAllocator::new(7, 20);
    let mut ms = MemorySet::new(0);
    assert!(ms.map_region(1, 2, PERM_R, &mut frames));
    assert!(ms.map_region(5, 6, PERM_R, &mut frames));
    assert!(ms.map_region(2, 3, PERM_R, &mut frames));
    let addrs = ms.translate_fields(0x1ff8, &vec![0, 8]).unwrap();
    assert_eq!(addrs, vec![PhysAddr(7 * 4096 + 0xff8), PhysAddr(9 * 4096)]);
    assert!(ms.translate_fields(0x2ff8, &vec![0, 8]).is_none());
    assert!(ms.translate_fields(usize::MAX, &vec![0, 8]).is_none());
    assert_eq!(ms.translate_fields(0, &vec![]), Some(vec![]));
}

#[test]
fn sbrk_grows_and_shrinks_the_heap() {
    let mut k = boot(16);
    {
        let p = k.processes[0].as_mut().unwrap();
        p.heap_bottom = 0x10000;
        p.program_brk = 0x10000;
    }
    assert_eq!(sys_sbrk(&mut k, 0), 0x10000);
    assert_eq!(sys_sbrk(&mut k, 0x1800), 0x10000);
    assert_eq!(mappings(&k).iter().map(|m| m.0).collect::<Vec<_>>(), vec![0x10, 0x11]);
    assert_eq!(mappings(&k)[0].2, PERM_R | PERM_W | PERM_U);
    assert_eq!(sys_sbrk(&mut k, 0x100), 0x11800);
    assert_eq!(mappings(&k).len(), 2);
    assert_eq!(sys_sbrk(&mut k, -0x1000), 0x11900);
    assert_eq!(mappings(&k).len(), 1);
    assert_eq!(k.processes[0].as_ref().unwrap().program_brk, 0x10900);
    // below the bottom of the heap
    assert_eq!(sys_sbrk(&mut k, -0x901), -1);
    assert_eq!(k.processes[0].as_ref().unwrap().program_brk, 0x10900);
    assert_eq!(sys_sbrk(&mut k, -0x900), 0x10900);
    assert!(mappings(&k).is_empty());
    // beyond the highest break
    assert_eq!(sys_sbrk(&mut k, i32::MAX), -1);
    // into a page that is mapped already
    assert_eq!(sys_mmap(&mut k, 0x11000, 0x1000, 1), 0);
    assert_eq!(sys_sbrk(&mut k, 0x2000), -1);
    assert_eq!(mappings(&k).len(), 1);
}
