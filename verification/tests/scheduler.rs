use heineos::framebuffer::Framebuffer;
use heineos::ids::IdCounter;
use heineos::paging::FrameAllocator;
use heineos::scheduler::Scheduler;
use heineos::thread::Thread;

fn user_thread(ids: &mut IdCounter, entry: usize) -> Thread {
    let mut frames = FrameAllocator::new();
    frames.free_block(0x10_0000, 600);
    Thread::new_user_thread(ids, entry, &Framebuffer::new(0x8000_0000, 4096, 2), &mut frames)
}

fn active_id(s: &Scheduler) -> usize {
    s.get_active_tid()
}

#[test]
fn new_scheduler_runs_idle_thread() {
    let mut ids = IdCounter::new();
    let s = Scheduler::new(Thread::new_kernel_thread(&mut ids, 0x1000));
    assert_eq!(s.get_active_tid(), 0);
    assert_eq!(s.schedule().id(), 0);
}

#[test]
fn yield_with_empty_queue_keeps_thread() {
    let mut ids = IdCounter::new();
    let mut s = Scheduler::new(Thread::new_kernel_thread(&mut ids, 0x1000));
    assert!(!s.yield_cpu());
    assert_eq!(active_id(&s), 0);
}

#[test]
fn yield_is_round_robin() {
    let mut ids = IdCounter::new();
    let mut s = Scheduler::new(Thread::new_kernel_thread(&mut ids, 0x1000));
    s.ready(Thread::new_kernel_thread(&mut ids, 0x2000));
    s.ready(user_thread(&mut ids, 0x3000));
    let mut order = Vec::new();
    for _ in 0..6 {
        assert!(s.yield_cpu());
        order.push(s.get_active_tid());
    }
    assert_eq!(order, vec![1, 2, 0, 1, 2, 0]);
}

#[test]
fn kill_removes_ready_thread() {
    let mut ids = IdCounter::new();
    let mut s = Scheduler::new(Thread::new_kernel_thread(&mut ids, 0x1000));
    s.ready(Thread::new_kernel_thread(&mut ids, 0x2000));
    s.ready(Thread::new_kernel_thread(&mut ids, 0x3000));
    s.kill(1);
    assert!(s.yield_cpu());
    assert_eq!(s.get_active_tid(), 2);
    assert!(s.yield_cpu());
    assert_eq!(s.get_active_tid(), 0);
    // killing an unknown id changes nothing
    s.kill(7);
    assert!(s.yield_cpu());
    assert_eq!(s.get_active_tid(), 2);
}

#[test]
fn kill_does_not_touch_active_thread() {
    let mut ids = IdCounter::new();
    let mut s = Scheduler::new(Thread::new_kernel_thread(&mut ids, 0x1000));
    s.kill(0);
    assert_eq!(s.get_active_tid(), 0);
}

#[test]
fn exit_switches_to_next_thread() {
    let mut ids = IdCounter::new();
    let mut s = Scheduler::new(Thread::new_kernel_thread(&mut ids, 0x1000));
    s.ready(Thread::new_kernel_thread(&mut ids, 0x2000));
    s.ready(Thread::new_kernel_thread(&mut ids, 0x3000));
    let exited = s.exit();
    assert_eq!(exited.id(), 0);
    assert_eq!(s.get_active_tid(), 1);
    assert!(s.yield_cpu());
    assert_eq!(s.get_active_tid(), 2);
    assert!(s.yield_cpu());
    assert_eq!(s.get_active_tid(), 1);
}

#[test]
fn thread_constructors() {
    let mut ids = IdCounter::new();
    let u = user_thread(&mut ids, 0x4000);
    assert_eq!(u.id(), 0);
    assert!(!u.is_kernel_thread());
    let k = Thread::new_kernel_thread(&mut ids, 0x5000);
    assert_eq!(k.id(), 1);
    assert!(k.is_kernel_thread());
    assert_eq!(k.pml4_addr().map(|a| a.raw()), None);
}

#[test]
fn user_thread_gets_own_address_space() {
    let mut ids = IdCounter::new();
    let mut frames = FrameAllocator::new();
    frames.free_block(0x10_0000, 600);
    let fb = Framebuffer::new(0x8000_0000, 4096, 2);
    let u = Thread::new_user_thread(&mut ids, 0x4000, &fb, &mut frames);
    // the page map level 4 is the frame handed out first: the last one freed
    assert_eq!(u.pml4_addr().map(|a| a.raw()), Some(0x10_0000 + 599 * 4096));
    // 5 frames for the identity mapping, 2 for the framebuffer, 3 tables and
    // 128 pages for the user stack
    assert_eq!(frames.frames_left(), 600 - 5 - 2 - 3 - 128);
    let t = u.page_tables().unwrap();
    assert_eq!(t.translate(4, 5), Some(5 * 4096 | 7));
    assert_eq!(t.translate(4, 855), Some(855 * 4096 | 7));
    assert_eq!(t.translate(4, 856), None);
    assert_eq!(t.translate(4, 0x8000_0000 / 4096 + 1), Some(0x8000_1000 | 0x17));
    assert!(t.translate(4, 0x4000_0000_0000 / 4096).is_some());
    assert!(t.translate(4, 0x4000_0000_0000 / 4096 + 127).is_some());
    assert_eq!(t.translate(4, 0x4000_0000_0000 / 4096 + 128), None);
    // every page of the user stack has a frame of its own
    let mut stack_frames: Vec<u64> = (0..128).map(|p| t.translate(4, 0x4000_0000_0000 / 4096 + p).unwrap() & !0xfff).collect();
    stack_frames.sort();
    stack_frames.dedup();
    assert_eq!(stack_frames.len(), 128);
    assert!(stack_frames.iter().all(|&f| f >= 0x10_0000 && f < 0x10_0000 + 600 * 4096));
    let v = Thread::new_user_thread(&mut ids, 0x4000, &fb, &mut frames);
    assert_ne!(u.pml4_addr().map(|a| a.raw()), v.pml4_addr().map(|a| a.raw()));
    assert_eq!((u.id(), v.id()), (0, 1));
}

#[test]
fn num_ready_counts_queue() {
    let mut ids = IdCounter::new();
    let mut s = Scheduler::new(Thread::new_kernel_thread(&mut ids, 0));
    assert_eq!(s.num_ready(), 0);
    s.ready(Thread::new_kernel_thread(&mut ids, 0));
    s.ready(Thread::new_kernel_thread(&mut ids, 0));
    assert_eq!(s.num_ready(), 2);
    s.yield_cpu();
    assert_eq!(s.num_ready(), 2);
    s.exit();
    assert_eq!(s.num_ready(), 1);
}
