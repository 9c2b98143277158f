//! A cell that is initialised exactly once.
use vstd::prelude::*;

verus! {

/// A simple "Once" type for one-time initialization.
/// It allows you to initialize a value exactly once, and then access it afterward.
pub struct Once<T> {
    value: Option<T>,
}

impl<T> Once<T> {
    /// The stored value, if the cell has been initialised.
    pub closed spec fn content(&self) -> Option<T> {
        self.value
    }

    /// Create an uninitialised cell.
    pub fn new() -> (r: Once<T>)
        ensures
            r.content() is None,
    {
        Once { value: None }
    }

    /// Get the value, if the cell has been initialised.
    pub fn get(&self) -> (r: Option<&T>)
        ensures
            r is None <==> self.content() is None,
            r matches Some(v) ==> self.content() == Some(*v),
    {
        match &self.value {
            Some(v) => Some(v),
            None => None,
        }
    }

    /// Initialise the cell with the result of `init`, unless it already holds a
    /// value; `init` is only called in the first case. Returns the stored value.
    pub fn init<F: FnOnce() -> T>(&mut self, init: F) -> (r: &T)
        requires
            old(self).content() is None ==> init.requires(()),
        ensures
            old(self).content() matches Some(v) ==> final(self).content() == Some(v),
            old(self).content() is None ==> (final(self).content() matches Some(v) && init.ensures(
                (),
                v,
            )),
            final(self).content() == Some(*r),
    {
        if self.value.is_none() {
            let v = init();
            self.value = Some(v);
        }
        self.value.as_ref().unwrap()
    }
}

} // verus!
