//! Ids for threads and coroutines: handed out one after another, in
//! increasing order from 0, so that no two are the same.
use vstd::prelude::*;

verus! {

/// A counter that hands out ids. Like an atomic counter it wraps around to 0
/// after `usize::MAX`.
pub struct IdCounter {
    next: usize,
}

impl IdCounter {
    /// The id handed out next.
    pub closed spec fn upcoming(&self) -> usize {
        self.next
    }

    /// A counter that starts at 0.
    pub fn new() -> (r: IdCounter)
        ensures
            r.upcoming() == 0,
    {
        IdCounter { next: 0 }
    }

    /// Hand out the next id; the counter moves on by one.
    pub fn take(&mut self) -> (r: usize)
        ensures
            r == old(self).upcoming(),
            final(self).upcoming() == if r == usize::MAX { 0 } else { (r + 1) as usize },
    {
        let id = self.next;
        self.next = if id == usize::MAX { 0 } else { id + 1 };
        id
    }
}

} // verus!
