//! A verified model of the core logic of a small teaching kernel:
//! heap and page-frame bookkeeping, paging structures, scheduling,
//! synchronisation primitives, processes and a few C library routines.
pub mod align;
pub mod allocator;
pub mod boot;
pub mod consts;
pub mod coroutine;
pub mod cstring;
pub mod doom;
pub mod framebuffer;
pub mod idt;
pub mod ids;
pub mod key;
pub mod libc;
pub mod list_allocator;
pub mod logger;
pub mod once;
pub mod paging;
pub mod process;
pub mod rtl8139;
pub mod scheduler;
pub mod serial;
pub mod spinlock;
pub mod syscall;
pub mod tarfs;
pub mod thread;

use vstd::prelude::*;

verus! {

} // verus!
