//! The linear framebuffer: where it lies in physical memory and how large it is.
use vstd::prelude::*;

verus! {

/// A linear framebuffer of `height` lines of `pitch` bytes each, starting at
/// the physical address `address`.
#[derive(Clone, Copy, Debug)]
pub struct Framebuffer {
    pub address: u64,
    pub pitch: usize,
    pub height: usize,
}

impl Framebuffer {
    /// A framebuffer at `address` with lines of `pitch` bytes and `height` lines.
    pub fn new(address: u64, pitch: usize, height: usize) -> (r: Framebuffer)
        ensures
            r == (Framebuffer { address, pitch, height }),
    {
        Framebuffer { address, pitch, height }
    }

    /// Get the memory address of the framebuffer.
    pub fn address(&self) -> (r: u64)
        ensures
            r == self.address,
    {
        self.address
    }

    /// Get the size of the framebuffer in bytes.
    pub fn size_in_bytes(&self) -> (r: usize)
        requires
            self.pitch * self.height <= usize::MAX,
        ensures
            r == self.pitch * self.height,
    {
        self.pitch * self.height
    }
}

} // verus!
