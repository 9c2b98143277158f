//! Memory layout constants of the kernel.
use vstd::prelude::*;
use crate::align::{align_up, spec_align_up};

verus! {

/// Size of a memory page in bytes (4 KiB).
pub const PAGE_SIZE: usize = 4096;

/// Size of the kernel heap in bytes (16 MiB).
pub const HEAP_SIZE: usize = 16777216;

/// Stack size for coroutines and threads in bytes (512 KiB).
pub const STACK_SIZE: usize = 524288;

/// Virtual address at which the user stack of every thread is mapped (64 TiB).
pub const USER_STACK_VIRT_START: u64 = 0x4000_0000_0000;

/// Get the start address of the kernel heap, given the end address of the
/// kernel data segment: the end is aligned up to the next page boundary.
pub fn heap_start(kernel_end: usize) -> (r: usize)
    requires
        kernel_end + PAGE_SIZE - 1 <= usize::MAX,
    ensures
        r == spec_align_up(kernel_end as int, PAGE_SIZE as int),
        r % PAGE_SIZE == 0,
        kernel_end <= r < kernel_end + PAGE_SIZE,
{
    proof {
        vstd::arithmetic::power2::lemma2_to64();
        crate::align::lemma_pow2_is_pow2(12);
    }
    align_up(kernel_end, PAGE_SIZE)
}

} // verus!
