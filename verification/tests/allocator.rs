use heineos::align::align_up;
use heineos::allocator::{Locked, NoOpAllocator};
use heineos::consts::heap_start;
use heineos::list_allocator::{LinkedListAllocator, ListNode};

#[test]
fn align_up_rounds_to_next_multiple() {
    assert_eq!(align_up(0, 8), 0);
    assert_eq!(align_up(1, 8), 8);
    assert_eq!(align_up(8, 8), 8);
    assert_eq!(align_up(4097, 4096), 8192);
    assert_eq!(align_up(12345, 1), 12345);
    // the topmost aligned address is returned unchanged
    assert_eq!(align_up(usize::MAX - 4095, 4096), usize::MAX - 4095);
}

#[test]
fn heap_starts_at_next_page() {
    assert_eq!(heap_start(0x0190_0000), 0x0190_0000);
    assert_eq!(heap_start(usize::MAX - 4095), usize::MAX - 4095);
    assert_eq!(heap_start(0x0190_0001), 0x0190_1000);
}

#[test]
fn size_align_adjusts_layout() {
    // raised to the header size and alignment
    assert_eq!(LinkedListAllocator::size_align(1, 1), (16, 8));
    // rounded up to the alignment
    assert_eq!(LinkedListAllocator::size_align(17, 8), (24, 8));
    assert_eq!(LinkedListAllocator::size_align(100, 64), (128, 64));
    // an empty request with a large alignment still holds a header
    assert_eq!(LinkedListAllocator::size_align(0, 32), (16, 32));
}

#[test]
fn check_block_rejects_small_rest() {
    let block = ListNode::new(0x1000, 64);
    // exact fit
    assert_eq!(LinkedListAllocator::check_block_for_alloc(&block, 64, 8), Ok(0x1000));
    // the rest of 8 bytes could not hold a header
    assert_eq!(LinkedListAllocator::check_block_for_alloc(&block, 56, 8), Err(()));
    // the rest of 16 bytes can
    assert_eq!(LinkedListAllocator::check_block_for_alloc(&block, 48, 8), Ok(0x1000));
    // too large
    assert_eq!(LinkedListAllocator::check_block_for_alloc(&block, 72, 8), Err(()));
    // aligned start inside the block
    let block = ListNode::new(0x1008, 0x100);
    assert_eq!(LinkedListAllocator::check_block_for_alloc(&block, 32, 0x40), Ok(0x1040));
}

#[test]
fn init_and_allocate_split_the_heap() {
    let mut a = LinkedListAllocator::new();
    assert!(a.dump_free_list().is_empty());
    a.init(0x10000, 0x1000);
    assert_eq!(a.dump_free_list(), vec![(0x10000, 0x1000)]);

    let p = a.allocate(100, 8).unwrap();
    assert_eq!(p, 0x10000);
    // 104 bytes taken, the rest goes back to the front of the list
    assert_eq!(a.dump_free_list(), vec![(0x10000 + 104, 0x1000 - 104)]);

    let q = a.allocate(16, 16).unwrap();
    assert_eq!(q % 16, 0);
    assert!(q >= 0x10000 + 104);
}

#[test]
fn allocate_fails_when_nothing_fits() {
    let mut a = LinkedListAllocator::new();
    a.init(0x20000, 64);
    assert_eq!(a.allocate(128, 8), None);
    assert_eq!(a.dump_free_list(), vec![(0x20000, 64)]);
}

#[test]
fn dealloc_puts_block_back_in_front() {
    let mut a = LinkedListAllocator::new();
    a.init(0x30000, 0x100);
    let p = a.allocate(32, 8).unwrap();
    a.dealloc(p, 32, 8);
    assert_eq!(a.dump_free_list(), vec![(p, 32), (0x30020, 0xe0)]);
    // first fit: the freed block is found first
    assert_eq!(a.allocate(32, 8), Some(p));
}

#[test]
fn first_fit_skips_small_blocks() {
    let mut a = LinkedListAllocator::new();
    a.add_free_block(0x40000, 0x200);
    a.add_free_block(0x50000, 0x20);
    // the front block of 32 bytes is too small for 64 bytes
    assert_eq!(a.allocate(64, 8), Some(0x40000));
    assert_eq!(a.dump_free_list(), vec![(0x40040, 0x1c0), (0x50000, 0x20)]);
}

#[test]
fn locked_tracks_lock_state() {
    let mut l = Locked::new(5u32);
    assert!(!l.is_locked());
    *l.lock() = 7;
    assert!(l.is_locked());
    l.unlock();
    assert!(!l.is_locked());
    assert_eq!(*l.lock(), 7);
}

#[test]
fn noop_allocator_never_allocates() {
    let a = NoOpAllocator::new();
    assert_eq!(a.allocate(16, 8), None);
    a.deallocate(0x1000, 16, 8);
    assert_eq!(a.allocate(0, 1), None);
}
