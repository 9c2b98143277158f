//! Threads: an id, a kernel stack, the address space of a user thread, and
//! the entry function.
use vstd::prelude::*;
use crate::consts::{STACK_SIZE, USER_STACK_VIRT_START};
use crate::framebuffer::Framebuffer;
use crate::ids::IdCounter;
use crate::paging::{
    create_kernel_mapping, fresh_leaves, identity_prefix, lemma_fresh_prefix_pool, map_done, map_framebuffer,
    map_user_stack, path_flags_ok, span, table_count, table_frame, wf_at, window_start,
    FrameAllocator, PageTable, PhysAddr, USER_STACK_PAGES,
};

verus! {

/// Number of 64-bit words in a thread stack.
pub const STACK_WORDS: usize = 65536;

/// Represents a thread in the system.
/// Threads must be registered in the scheduler and are run automatically once
/// the scheduler is started. A user thread runs in an address space of its
/// own, in which its user stack is mapped; a kernel thread runs in the kernel
/// address space.
pub struct Thread {
    id: usize,
    is_kernel_thread: bool,
    address_space: Option<PageTable>,
    kernel_stack: Vec<u64>,
    stack_ptr: usize,
    entry: usize,
}

/// A stack of `STACK_WORDS` zeroed words.
fn zeroed_stack() -> (r: Vec<u64>)
    ensures
        r@.len() == STACK_WORDS,
        forall|i: int| 0 <= i < r@.len() ==> r@[i] == 0,
{
    let mut stack: Vec<u64> = Vec::with_capacity(STACK_WORDS);
    let mut i: usize = 0;
    while i < STACK_WORDS
        invariant
            i <= STACK_WORDS,
            stack@.len() == i,
            forall|j: int| 0 <= j < i ==> stack@[j] == 0,
        decreases STACK_WORDS - i,
    {
        stack.push(0);
        i = i + 1;
    }
    stack
}

/// The address space of a new user thread, built while the frame allocator
/// knew `max_addr` as the highest physical address: the physical memory is
/// identity mapped, then the framebuffer is identity mapped, then the pages of
/// the user stack are mapped onto new frames, each taken from `pool[lo..]`
/// (the frames of the allocator that are no longer free) and, when the pool
/// holds no frame twice, no two onto the same frame. The frames taken went to
/// the tables of the address space and to the pages of the user stack, and
/// to nothing else. A step maps fewer pages
/// than it should only when the frames are used up (`out_of_frames`).
pub open spec fn user_address_space(
    t: PageTable,
    framebuffer: Framebuffer,
    max_addr: u64,
    out_of_frames: bool,
    pool: Seq<u64>,
    lo: int,
) -> bool {
    exists|t1: PageTable, t2: PageTable, k: nat, nf: nat, ns: nat|
        #![trigger identity_prefix(t1, k), map_done(t1, t2, 4, framebuffer.address, ((framebuffer.pitch * framebuffer.height + 4095) / 4096) as nat, true, true, nf, out_of_frames), map_done(t2, t, 4, USER_STACK_VIRT_START, USER_STACK_PAGES as nat, false, false, ns, out_of_frames)]
        {
            let n = (max_addr + 4095) / 4096;
            &&& identity_prefix(t1, k)
            &&& k <= n
            &&& (k < n ==> k == span(4) || out_of_frames)
            &&& map_done(t1, t2, 4, framebuffer.address, ((framebuffer.pitch * framebuffer.height + 4095) / 4096) as nat, true, true, nf, out_of_frames)
            &&& map_done(t2, t, 4, USER_STACK_VIRT_START, USER_STACK_PAGES as nat, false, false, ns, out_of_frames)
            &&& fresh_leaves(t, 4, window_start(USER_STACK_VIRT_START, 4), ns as int, pool, lo, pool.len() as int)
            &&& pool.len() == lo + table_count(t, 4) + ns
        }
}

impl Thread {
    /// The id of the thread.
    pub closed spec fn tid(&self) -> usize {
        self.id
    }

    /// Whether the thread runs in kernel mode only.
    pub closed spec fn kernel_mode(&self) -> bool {
        self.is_kernel_thread
    }

    /// Address of the function the thread runs.
    pub closed spec fn entry_addr(&self) -> usize {
        self.entry
    }

    /// Number of words of the kernel stack.
    pub closed spec fn kernel_stack_words(&self) -> nat {
        self.kernel_stack@.len()
    }

    /// The page tables of the thread's own address space; `None` for a thread
    /// that runs in the kernel address space.
    pub closed spec fn address_space(&self) -> Option<PageTable> {
        self.address_space
    }

    /// Create a new user thread with the next id of `ids` and the given entry
    /// function address.
    /// Its kernel stack is allocated and zeroed. Its address space is new: the
    /// physical memory and the framebuffer are identity mapped into it, and
    /// its user stack is mapped at `USER_STACK_VIRT_START` onto new frames.
    pub fn new_user_thread(ids: &mut IdCounter, entry: usize, framebuffer: &Framebuffer, frames: &mut FrameAllocator) -> (r: Thread)
        requires
            old(frames).wf(),
            old(frames).frames().len() > 0,
            old(frames).spec_max_addr() + 4096 <= usize::MAX,
            framebuffer.address % 4096 == 0,
            framebuffer.pitch * framebuffer.height + 4096 <= usize::MAX,
        ensures
            r.tid() == old(ids).upcoming(),
            final(ids).upcoming() == if r.tid() == usize::MAX { 0 } else { (r.tid() + 1) as usize },
            !r.kernel_mode(),
            r.entry_addr() == entry,
            r.kernel_stack_words() == STACK_WORDS,
            final(frames).wf(),
            final(frames).frames().len() < old(frames).frames().len(),
            final(frames).frames() == old(frames).frames().subrange(0, final(frames).frames().len() as int),
            match r.address_space() {
                Some(t) => {
                    &&& wf_at(t, 4)
                    &&& path_flags_ok(t, 4)
                    &&& table_frame(t) == old(frames).frames().last()
                    &&& user_address_space(t, *framebuffer, old(frames).spec_max_addr(), final(frames).frames().len() == 0,
                        old(frames).frames(), final(frames).frames().len() as int)
                },
                None => false,
            },
    {
        let id = ids.take();
        let ghost max_addr = frames.spec_max_addr();
        let ghost orig = frames.frames();
        let ghost first = frames.frames().last();
        let mut pml4 = create_kernel_mapping(frames);
        let ghost t1 = pml4;
        let ghost e1 = frames.frames().len() == 0;
        let ghost len1 = frames.frames().len();
        let nf = map_framebuffer(&mut pml4, framebuffer, frames);
        let ghost t2 = pml4;
        let ghost e2 = frames.frames().len() == 0;
        let ghost len2 = frames.frames().len();
        let ns = map_user_stack(&mut pml4, frames);
        proof {
            assert(frames.frames() =~= orig.subrange(0, frames.frames().len() as int));
            lemma_fresh_prefix_pool(pml4, 4, window_start(USER_STACK_VIRT_START, 4), ns as int, orig, len2 as int,
                frames.frames().len() as int, len2 as int);
            let out = frames.frames().len() == 0;
            assert(e1 ==> out);
            assert(e2 ==> out);
            let n = (max_addr + 4095) / 4096;
            let k = choose|k: nat|
                {
                    &&& k <= n
                    &&& (k < n ==> k == span(4) || e1)
                    &&& #[trigger] identity_prefix(t1, k)
                };
            assert(map_done(t1, t2, 4, framebuffer.address, ((framebuffer.pitch * framebuffer.height + 4095) / 4096) as nat, true, true, nf as nat, out));
            assert(map_done(t2, pml4, 4, USER_STACK_VIRT_START, USER_STACK_PAGES as nat, false, false, ns as nat, out));
            assert(user_address_space(pml4, *framebuffer, max_addr, out, orig, frames.frames().len() as int));
        }
        Thread {
            id,
            is_kernel_thread: false,
            address_space: Some(pml4),
            kernel_stack: zeroed_stack(),
            stack_ptr: 0,
            entry,
        }
    }

    /// Create a new kernel thread with the next id of `ids` and the given
    /// entry function address. It runs in the kernel address space; its
    /// kernel stack is allocated and zeroed.
    pub fn new_kernel_thread(ids: &mut IdCounter, entry: usize) -> (r: Thread)
        ensures
            r.tid() == old(ids).upcoming(),
            final(ids).upcoming() == if r.tid() == usize::MAX { 0 } else { (r.tid() + 1) as usize },
            r.kernel_mode(),
            r.entry_addr() == entry,
            r.kernel_stack_words() == STACK_WORDS,
            r.address_space() is None,
    {
        let id = ids.take();
        Thread { id, is_kernel_thread: true, address_space: None, kernel_stack: zeroed_stack(), stack_ptr: 0, entry }
    }

    /// Get the id of the thread.
    pub fn id(&self) -> (r: usize)
        ensures
            r == self.tid(),
    {
        self.id
    }

    /// Whether the thread is a kernel thread.
    pub fn is_kernel_thread(&self) -> (r: bool)
        ensures
            r == self.kernel_mode(),
    {
        self.is_kernel_thread
    }

    /// The page tables of the thread's own address space; `None` for a thread
    /// that runs in the kernel address space.
    pub fn page_tables(&self) -> (r: Option<&PageTable>)
        ensures
            match self.address_space() {
                Some(t) => r matches Some(p) && *p == t,
                None => r is None,
            },
    {
        match &self.address_space {
            Some(t) => Some(t),
            None => None,
        }
    }

    /// The address of the page map level 4 to load when switching to the
    /// thread: that of its own address space; `None` for a thread that runs in
    /// the kernel address space.
    pub fn pml4_addr(&self) -> (r: Option<PhysAddr>)
        ensures
            match self.address_space() {
                Some(t) => r matches Some(a) && a.raw == table_frame(t),
                None => r is None,
            },
    {
        match &self.address_space {
            Some(t) => Some(t.as_phys_addr()),
            None => None,
        }
    }
}

/// The stack size is a whole number of 64-bit words.
pub proof fn lemma_stack_words()
    ensures
        STACK_WORDS * 8 == STACK_SIZE,
{
}

} // verus!
