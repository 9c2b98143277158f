//! A spinlock protecting a value.
//!
//! The lock state is a single flag: it is set when the lock is acquired and
//! cleared when it is released. The value behind the lock is handed out while
//! the flag is set.
use vstd::prelude::*;

verus! {

/// A simple spinlock: a lock flag and the data it protects.
pub struct Spinlock<T> {
    lock: bool,
    data: T,
}

impl<T> Spinlock<T> {
    /// Whether the lock is currently held.
    pub closed spec fn held(&self) -> bool {
        self.lock
    }

    /// The protected value.
    pub closed spec fn value(&self) -> T {
        self.data
    }

    /// Create a new `Spinlock` protecting the given data.
    pub fn new(data: T) -> (r: Spinlock<T>)
        ensures
            !r.held(),
            r.value() == data,
    {
        Spinlock { lock: false, data }
    }

    /// Try to acquire the lock once without blocking.
    /// Returns whether the lock was free and has now been acquired; the lock is
    /// held afterwards either way.
    pub fn try_lock(&mut self) -> (r: bool)
        ensures
            r == !old(self).held(),
            final(self).held(),
            final(self).value() == old(self).value(),
    {
        let was_locked = self.lock;
        self.lock = true;
        !was_locked
    }

    /// Acquire the lock, which must be free, and hand out the protected value.
    /// Whatever is written through the returned reference stays in the lock.
    pub fn lock(&mut self) -> (r: &mut T)
        requires
            !old(self).held(),
        ensures
            *r == old(self).value(),
            final(self).held(),
            final(self).value() == *final(r),
    {
        self.lock = true;
        &mut self.data
    }

    /// Unlock the spinlock, allowing other threads to acquire it.
    pub fn unlock(&mut self)
        ensures
            !final(self).held(),
            final(self).value() == old(self).value(),
    {
        self.lock = false;
    }

    /// Check if the spinlock is currently locked.
    pub fn is_locked(&self) -> (r: bool)
        ensures
            r == self.held(),
    {
        self.lock
    }

    /// Forcefully unlock the spinlock. This should only be used in exceptional cases.
    pub fn force_unlock(&mut self)
        ensures
            !final(self).held(),
            final(self).value() == old(self).value(),
    {
        self.unlock();
    }

    /// Get a reference to the inner data without locking.
    pub fn inner(&self) -> (r: &T)
        ensures
            *r == self.value(),
    {
        &self.data
    }
}

} // verus!
