use heineos::boot::{init_physical_memory_allocator, usable_block, MemoryRegion};
use heineos::coroutine::Coroutine;
use heineos::ids::IdCounter;
use heineos::doom::{DoomKey, Scancode};
use heineos::rtl8139::{decode_bar0, find_rtl8139, is_rtl8139, mac_address_ports, RegisterBase};
use heineos::idt::IdtEntry;
use heineos::logger::{level_abbreviation, level_from_abbreviation, LogLevel, Logger};
use heineos::paging::{FrameAllocator, PageTable};
use heineos::process::{add_vma, dump_vmas, Process, VmaType, VMA};
use heineos::serial::{ComBaseAddress, ComPort};
use heineos::syscall::SyscallFunctionTable;

#[test]
fn vma_overlap() {
    let a = VMA::new(0x1000, 0x3000, VmaType::Code);
    let b = VMA::new(0x2000, 0x4000, VmaType::Heap);
    let c = VMA::new(0x3000, 0x5000, VmaType::Stack);
    assert!(a.overlaps(&b));
    assert!(b.overlaps(&a));
    assert!(!a.overlaps(&c));
    assert!(!c.overlaps(&a));
    assert!(b.overlaps(&c));
}

fn process(id: usize, name: &str) -> Process {
    Process::new(id, name, PageTable::new(0x1000))
}

#[test]
fn process_add_vma_refuses_overlap() {
    let mut p = process(1, "init");
    assert_eq!(p.id(), 1);
    assert!(p.add_vma(VMA::new(0x1000, 0x2000, VmaType::Code)).is_ok());
    assert!(p.add_vma(VMA::new(0x2000, 0x3000, VmaType::Heap)).is_ok());
    assert!(p.add_vma(VMA::new(0x1800, 0x2800, VmaType::Stack)).is_err());
    assert_eq!(p.vmas().len(), 2);
}

#[test]
fn add_vma_by_process_id() {
    let mut procs = vec![process(1, "a"), process(2, "b")];
    assert!(add_vma(&mut procs, 2, VMA::new(0, 0x1000, VmaType::Framebuffer)).is_ok());
    assert_eq!(add_vma(&mut procs, 3, VMA::new(0, 0x1000, VmaType::Code)), Err("Process not found"));
    assert_eq!(dump_vmas(&procs, 2).unwrap().len(), 1);
    assert_eq!(dump_vmas(&procs, 1).unwrap().len(), 0);
    assert!(dump_vmas(&procs, 3).is_none());
}

#[test]
fn log_level_abbreviations() {
    assert_eq!(level_from_abbreviation("TRC"), Some(LogLevel::Trace));
    assert_eq!(level_from_abbreviation("dbg"), Some(LogLevel::Debug));
    assert_eq!(level_from_abbreviation("INF"), Some(LogLevel::Info));
    assert_eq!(level_from_abbreviation("wrn"), Some(LogLevel::Warn));
    assert_eq!(level_from_abbreviation("ERR"), Some(LogLevel::Error));
    assert_eq!(level_from_abbreviation("Err"), None);
    assert_eq!(level_from_abbreviation(""), None);
    for l in [LogLevel::Trace, LogLevel::Debug, LogLevel::Info, LogLevel::Warn, LogLevel::Error] {
        assert_eq!(level_from_abbreviation(level_abbreviation(l)), Some(l));
    }
    assert!(Logger::new().enabled(LogLevel::Trace));
}

#[test]
fn trap_gate_splits_offset() {
    let e = IdtEntry::syscall_gate(0x1234_5678_9abc_def0);
    assert_eq!(e.offset_low, 0xdef0);
    assert_eq!(e.offset_mid, 0x9abc);
    assert_eq!(e.offset_high, 0x1234_5678);
    assert_eq!(e.type_attributes, 0xef);
    assert_eq!(e.selector, 0x08);
}

#[test]
fn com_ports() {
    assert_eq!(ComPort::new(ComBaseAddress::Com1).data_port(), 0x3f8);
    assert_eq!(ComPort::new(ComBaseAddress::Com4).data_port(), 0x2e8);
}

#[test]
fn syscall_dispatch() {
    let t = SyscallFunctionTable::new(0xdead_b000);
    assert_eq!(t.dispatch(0), Some(0xdead_b000));
    assert_eq!(t.dispatch(1), None);
    assert_eq!(t.dispatch(u64::MAX), None);
}

#[test]
fn doom_key_codes() {
    assert_eq!(DoomKey::RightArrow.code(), 0xae);
    assert_eq!(DoomKey::F11.code(), 0xd7);
    assert_eq!(DoomKey::Enter.code(), 13);
    assert_eq!(DoomKey::Backspace.code(), 0x7f);
}

#[test]
fn coroutine_stack_preparation() {
    let mut ids = IdCounter::new();
    let first = Coroutine::new(&mut ids, 0x4000);
    let mut c = Coroutine::new(&mut ids, 0x4000);
    assert_eq!((first.id(), c.id()), (0, 1));
    assert_eq!(c.stack_ptr(), 0);
    c.prepare_stack(0x10_0000, 0xaaaa, 0xbbbb);
    assert_eq!(c.stack_ptr(), 0x10_0000 - 128);
    c.set_next(0x5000);
    assert_eq!(c.next(), 0x5000);
}

#[test]
fn usable_memory_regions() {
    let r = MemoryRegion { phys_start: 0x10_0000, page_count: 16, conventional: true };
    // entirely above the kernel
    assert_eq!(usable_block(&r, 0x1000), Some((0x10_0000, 16)));
    // the kernel ends inside the region: cut and rounded up to a page
    assert_eq!(usable_block(&r, 0x10_2001), Some((0x10_3000, 13)));
    // the kernel covers the region
    assert_eq!(usable_block(&r, 0x20_0000), None);
    // not conventional memory
    let d = MemoryRegion { phys_start: 0x10_0000, page_count: 16, conventional: false };
    assert_eq!(usable_block(&d, 0), None);
    // an entry that does not start on a page: its start is rounded up
    let u = MemoryRegion { phys_start: 0x10_0800, page_count: 4, conventional: true };
    assert_eq!(usable_block(&u, 0), Some((0x10_1000, 3)));

    let map = vec![r, d, MemoryRegion { phys_start: 0x40_0000, page_count: 2, conventional: true }];
    let mut f = FrameAllocator::new();
    init_physical_memory_allocator(&map, 0x10_e000, &mut f);
    assert_eq!(f.frames_left(), 2 + 2);
    assert_eq!(f.max_phys_addr().raw(), 0x40_2000);
    // the frame handed in last is handed out first
    assert_eq!(f.alloc_frame(), Some(0x40_1000));
    assert_eq!(f.alloc_frame(), Some(0x40_0000));
    assert_eq!(f.alloc_frame(), Some(0x10_f000));
    assert_eq!(f.alloc_frame(), Some(0x10_e000));
    assert_eq!(f.alloc_frame(), None);
}

#[test]
fn doom_key_from_scancode() {
    assert_eq!(DoomKey::try_from(Scancode::Space), Ok(DoomKey::Fire));
    assert_eq!(DoomKey::try_from(Scancode::A), Ok(DoomKey::StrafeL));
    assert_eq!(DoomKey::try_from(Scancode::F11), Ok(DoomKey::F11));
    assert_eq!(DoomKey::try_from(Scancode::Backspace).map(|k| k.code()), Ok(0x7f));
    assert_eq!(DoomKey::try_from(Scancode::Other), Err(()));
}

#[test]
fn rtl8139_detection() {
    assert!(is_rtl8139(0x10ec, 0x8139));
    assert!(!is_rtl8139(0x10ec, 0x8168));
    let devices = vec![(0x8086, 0x1237), (0x10ec, 0x8139), (0x10ec, 0x8139)];
    assert_eq!(find_rtl8139(&devices), Some(1));
    assert_eq!(find_rtl8139(&vec![(0x8086, 0x100e)]), None);
}

#[test]
fn rtl8139_bar0_decoding() {
    assert_eq!(decode_bar0(0xc001), RegisterBase::IoPort(0xc000));
    assert_eq!(decode_bar0(0x0001_c0ff), RegisterBase::IoPort(0xc0fc));
    assert_eq!(decode_bar0(0xfebf_1008), RegisterBase::Memory(0xfebf_1000));
    assert_eq!(mac_address_ports(0xc000), vec![0xc000, 0xc001, 0xc002, 0xc003, 0xc004, 0xc005]);
}
