use heineos::framebuffer::Framebuffer;
use heineos::paging::{
    create_kernel_mapping, pml4_addr_from_cr3, map_framebuffer, map_user_stack, FrameAllocator, PageFlags, PageTable,
    PageTableEntry, PhysAddr, USER_STACK_PAGES,
};

#[test]
fn entry_roundtrip() {
    let e = PageTableEntry::new(PhysAddr::new(0x1234_5000), PageFlags::kernel_flags());
    assert_eq!(e.raw, 0x1234_5007);
    assert_eq!(e.addr().raw(), 0x1234_5000);
    assert_eq!(e.flags().bits(), 7);
    assert!(e.is_present());
    let mut e = e;
    e.set(PhysAddr::new(0x8000), PageFlags::from_bits_truncate(PageFlags::PRESENT | PageFlags::CACHE_DISABLE));
    assert_eq!(e.addr().raw(), 0x8000);
    assert_eq!(e.flags().bits(), 0x11);
    assert!(e.flags().contains(PageFlags::CACHE_DISABLE));
    assert!(!e.flags().contains(PageFlags::WRITEABLE));
}

#[test]
fn flags_truncate_unknown_bits() {
    assert_eq!(PageFlags::from_bits_truncate(0xffff).bits(), 0x1ff);
    assert_eq!(PageFlags::user_flags().bits(), 7);
}

fn frames(n: u64) -> FrameAllocator {
    let mut f = FrameAllocator::new();
    f.free_block(0x10_0000, n as usize);
    f
}

#[test]
fn free_block_raises_max_addr() {
    let mut f = FrameAllocator::new();
    f.free_block(0x2000, 2);
    assert_eq!(f.max_phys_addr().raw(), 0x4000);
    f.free_block(0x0, 1);
    assert_eq!(f.max_phys_addr().raw(), 0x4000);
    assert_eq!(f.alloc_frame(), Some(0x0));
    assert_eq!(f.alloc_frame(), Some(0x3000));
    assert_eq!(f.alloc_frame(), Some(0x2000));
    assert_eq!(f.alloc_frame(), None);
}

#[test]
fn identity_mapping_of_three_pages() {
    let mut f = frames(16);
    let mut root = PageTable::new(f.alloc_frame().unwrap());
    let n = root.map(0x5000, 3, 4, true, false, &mut f);
    assert_eq!(n, 3);
    assert_eq!(root.translate(4, 4), None);
    assert_eq!(root.translate(4, 5), Some(0x5007));
    assert_eq!(root.translate(4, 6), Some(0x6007));
    assert_eq!(root.translate(4, 7), Some(0x7007));
    assert_eq!(root.translate(4, 8), None);
    // one table per level below the root
    assert_eq!(f.frames_left(), 16 - 1 - 3);
}

#[test]
fn mapping_crosses_table_boundary() {
    let mut f = frames(16);
    let mut root = PageTable::new(f.alloc_frame().unwrap());
    // pages 510..514 span two level-1 tables
    let n = root.map(510 * 4096, 4, 4, true, false, &mut f);
    assert_eq!(n, 4);
    for p in 510u64..514 {
        assert_eq!(root.translate(4, p), Some(p * 4096 | 7));
    }
    assert_eq!(root.translate(4, 514), None);
}

#[test]
fn mapping_stops_when_frames_run_out() {
    let mut f = frames(2);
    let mut root = PageTable::new(f.alloc_frame().unwrap());
    // one frame left: enough for the level-3 table only
    let n = root.map(0, 8, 4, true, false, &mut f);
    assert_eq!(n, 0);
    assert_eq!(root.translate(4, 0), None);
}

#[test]
fn user_mapping_takes_fresh_frames() {
    let mut f = frames(8);
    let mut root = PageTable::new(f.alloc_frame().unwrap());
    let n = root.map(0x4000_0000_0000, 2, 4, false, false, &mut f);
    assert_eq!(n, 2);
    let a = root.translate(4, 0x4000_0000_0000 / 4096).unwrap();
    let b = root.translate(4, 0x4000_0000_0000 / 4096 + 1).unwrap();
    assert_eq!(a & 0xfff, 7);
    assert_eq!(b & 0xfff, 7);
    assert_ne!(a, b);
}

#[test]
fn kernel_mapping_maps_all_memory() {
    let mut f = FrameAllocator::new();
    f.free_block(0x20_0000, 8);
    let root = create_kernel_mapping(&mut f);
    // memory ends at 0x208000: 520 pages identity mapped
    assert_eq!(root.translate(4, 0), Some(7));
    assert_eq!(root.translate(4, 519), Some(519 * 4096 | 7));
    assert_eq!(root.translate(4, 520), None);
    assert_eq!(root.as_phys_addr().raw(), 0x20_7000);
}

#[test]
fn framebuffer_and_user_stack() {
    let mut f = frames(300);
    let mut root = PageTable::new(f.alloc_frame().unwrap());
    // 3 lines of 2731 bytes: 8193 bytes, one byte into a third page.
    let fb = Framebuffer::new(0x8000_0000, 2731, 3);
    assert_eq!(fb.address(), 0x8000_0000);
    assert_eq!(fb.size_in_bytes(), 8193);
    let n = map_framebuffer(&mut root, &fb, &mut f);
    assert_eq!(n, 3);
    assert_eq!(root.translate(4, 0x8000_0000 / 4096 + 2), Some(0x8000_2017));
    let m = map_user_stack(&mut root, &mut f);
    assert_eq!(m, USER_STACK_PAGES);
    assert!(root.translate(4, 0x4000_0000_0000 / 4096 + 127).is_some());
    assert_eq!(root.translate(4, 0x4000_0000_0000 / 4096 + 128), None);
}

#[test]
fn cr3_gives_pml4_address() {
    assert_eq!(pml4_addr_from_cr3(0x0012_3018).raw(), 0x0012_3000);
    assert_eq!(pml4_addr_from_cr3(0x0040_0000).raw(), 0x0040_0000);
}

#[test]
fn device_mapping_disables_caching() {
    let mut f = frames(8);
    let mut root = PageTable::new(f.alloc_frame().unwrap());
    let n = root.map(0x5000, 2, 4, true, true, &mut f);
    assert_eq!(n, 2);
    // one frame for the root, three for the tables below it, none for the pages
    assert_eq!(f.frames_left(), 8 - 1 - 3);
    assert_eq!(root.translate(4, 5), Some(0x5000 | 0x17));
    assert_eq!(root.translate(4, 6), Some(0x6000 | 0x17));
}

#[test]
fn high_half_mapping() {
    let mut f = frames(16);
    let mut root = PageTable::new(f.alloc_frame().unwrap());
    // the topmost page of the address space
    let n = root.map(0xffff_ffff_ffff_f000, 4, 4, true, false, &mut f);
    assert_eq!(n, 1);
    assert_eq!(root.translate(4, (1 << 36) - 1), Some(0xffff_ffff_ffff_f007));
    let m = root.map(0xffff_8000_0000_0000, 1, 4, false, false, &mut f);
    assert_eq!(m, 1);
    assert!(root.translate(4, 1 << 35).is_some());
}
