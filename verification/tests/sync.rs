use heineos::once::Once;
use heineos::spinlock::Spinlock;

#[test]
fn spinlock_try_lock_fails_while_held() {
    let mut s = Spinlock::new(1u8);
    assert!(!s.is_locked());
    assert!(s.try_lock());
    assert!(s.is_locked());
    assert!(!s.try_lock());
    s.unlock();
    assert!(!s.is_locked());
    assert!(s.try_lock());
    s.force_unlock();
    assert!(!s.is_locked());
    assert_eq!(*s.inner(), 1);
}

#[test]
fn spinlock_lock_hands_out_data() {
    let mut s = Spinlock::new(vec![1u8, 2]);
    s.lock().push(3);
    assert!(s.is_locked());
    s.unlock();
    assert_eq!(s.inner(), &vec![1u8, 2, 3]);
}

#[test]
fn once_initialises_only_once() {
    let mut o: Once<u32> = Once::new();
    assert_eq!(o.get(), None);
    assert_eq!(*o.init(|| 42), 42);
    assert_eq!(o.get(), Some(&42));
    // the second initialiser is never run
    assert_eq!(*o.init(|| panic!("must not run")), 42);
    assert_eq!(o.get(), Some(&42));
}
