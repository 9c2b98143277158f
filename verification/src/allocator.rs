//! The lock around the heap allocator and the allocator that never allocates.
use vstd::prelude::*;
use crate::spinlock::Spinlock;

verus! {

/// A wrapper around `Spinlock`, holding the heap allocator.
pub struct Locked<A> {
    inner: Spinlock<A>,
}

impl<A> Locked<A> {
    /// Whether the lock is held.
    pub closed spec fn held(&self) -> bool {
        self.inner.held()
    }

    /// The wrapped value.
    pub closed spec fn value(&self) -> A {
        self.inner.value()
    }

    /// Create a new `Locked` instance wrapping the given inner value.
    pub fn new(inner: A) -> (r: Locked<A>)
        ensures
            !r.held(),
            r.value() == inner,
    {
        Locked { inner: Spinlock::new(inner) }
    }

    /// Lock the inner value, which must not be locked, and hand it out.
    pub fn lock(&mut self) -> (r: &mut A)
        requires
            !old(self).held(),
        ensures
            *r == old(self).value(),
            final(self).held(),
            final(self).value() == *final(r),
    {
        self.inner.lock()
    }

    /// Release the lock.
    pub fn unlock(&mut self)
        ensures
            !final(self).held(),
            final(self).value() == old(self).value(),
    {
        self.inner.unlock();
    }

    /// Check if the allocator is currently locked.
    pub fn is_locked(&self) -> (r: bool)
        ensures
            r == self.held(),
    {
        self.inner.is_locked()
    }
}

/// An allocator that does nothing.
/// Trying to allocate memory always fails; deallocating memory has no effect.
/// It is used for user stacks, whose memory must never be handed back to the
/// kernel heap.
pub struct NoOpAllocator {}

impl NoOpAllocator {
    /// Create a new NoOpAllocator.
    pub fn new() -> (r: NoOpAllocator) {
        NoOpAllocator {}
    }

    /// Allocation always fails.
    pub fn allocate(&self, size: usize, align: usize) -> (r: Option<usize>)
        ensures
            r is None,
    {
        None
    }

    /// Deallocation is ignored.
    pub fn deallocate(&self, ptr: usize, size: usize, align: usize) {
    }
}

} // verus!
