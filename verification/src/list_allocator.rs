//! A heap allocator that keeps the free memory blocks in a list.
//!
//! Each free block starts with a header (`ListNode`) of two machine words.
//! The allocator's bookkeeping is modelled here by the sequence of free
//! blocks in list order; the front of the sequence is the head of the list.
use vstd::prelude::*;
use vstd::layout::valid_layout;
use vstd::arithmetic::power2::is_pow2;
use crate::align::{align_up, lemma_spec_align_up, lemma_pow2_mask, lemma_pow2_is_pow2, lemma_pow2_witness, spec_align_up, lemma_layout_room};

verus! {

/// Size in bytes of the header stored at the start of every free block.
pub const LIST_NODE_SIZE: usize = 16;

/// Alignment in bytes of the header stored at the start of every free block.
pub const LIST_NODE_ALIGN: usize = 8;

/// Header of a free block: where the block starts and how long it is.
#[derive(Clone, Copy, Debug)]
pub struct ListNode {
    pub start: usize,
    pub size: usize,
}

impl ListNode {
    /// Create a node describing the free block `[start, start + size)`.
    pub fn new(start: usize, size: usize) -> (r: ListNode)
        ensures
            r.start == start,
            r.size == size,
    {
        ListNode { start, size }
    }

    /// Get the start address of the memory block.
    pub fn start_addr(&self) -> (r: usize)
        ensures
            r == self.start,
    {
        self.start
    }

    /// Get the end address of the memory block.
    pub fn end_addr(&self) -> (r: usize)
        requires
            self.start + self.size <= usize::MAX,
        ensures
            r == self.start + self.size,
    {
        self.start + self.size
    }

    /// End address of the block, as an integer.
    pub open spec fn end(self) -> int {
        self.start + self.size
    }

    /// The block can hold a header and lies inside the address space.
    pub open spec fn well_formed(self) -> bool {
        &&& self.start % LIST_NODE_ALIGN == 0
        &&& self.size >= LIST_NODE_SIZE
        &&& self.start + self.size <= usize::MAX
    }
}

/// Where an allocation of `size` bytes aligned to `align` would start inside
/// block `b`, or `None` when the block cannot take it. The block is rejected
/// when the allocation does not fit, and when the rest of the block behind the
/// allocation would be too small to hold a header of its own.
pub open spec fn fit_start(b: ListNode, size: int, align: int) -> Option<int> {
    let start = spec_align_up(b.start as int, align);
    let end = start + size;
    if end > usize::MAX || end > b.end() {
        None
    } else if b.end() - end > 0 && b.end() - end < LIST_NODE_SIZE {
        None
    } else {
        Some(start)
    }
}

/// Index of the first block of `free` that can take the allocation.
pub open spec fn is_first_fit(free: Seq<ListNode>, size: int, align: int, i: int) -> bool {
    &&& 0 <= i < free.len()
    &&& fit_start(free[i], size, align) is Some
    &&& forall|j: int| 0 <= j < i ==> fit_start(#[trigger] free[j], size, align) is None
}

/// No block of `free` can take the allocation.
pub open spec fn no_fit(free: Seq<ListNode>, size: int, align: int) -> bool {
    forall|j: int| 0 <= j < free.len() ==> fit_start(#[trigger] free[j], size, align) is None
}

/// Every block of `free` starts far enough from the end of the address space
/// that rounding its start up to `align` cannot overflow.
pub open spec fn align_room(free: Seq<ListNode>, align: int) -> bool {
    forall|j: int| 0 <= j < free.len() ==> #[trigger] free[j].start + align - 1 <= usize::MAX
}

/// The size and alignment actually used for a request of `size` bytes aligned
/// to `align`: the alignment is raised to that of a header, the size is
/// rounded up to the alignment and raised to at least the size of a header.
pub open spec fn adjusted_layout(size: int, align: int) -> (int, int) {
    let a = if align < LIST_NODE_ALIGN { LIST_NODE_ALIGN as int } else { align };
    let s = spec_align_up(size, a);
    (if s < LIST_NODE_SIZE { LIST_NODE_SIZE as int } else { s }, a)
}

/// The request of `size` bytes aligned to `align` is a valid layout, and
/// raising its alignment to that of a header keeps it valid.
pub open spec fn layout_ok(size: usize, align: usize) -> bool {
    &&& valid_layout(size, align)
    &&& valid_layout(size, if align < LIST_NODE_ALIGN { LIST_NODE_ALIGN } else { align })
}

/// The pairwise disjointness of the free blocks.
pub open spec fn blocks_disjoint(free: Seq<ListNode>) -> bool {
    forall|i: int, j: int|
        0 <= i < free.len() && 0 <= j < free.len() && i != j ==> (#[trigger] free[i]).end() <= (
        #[trigger] free[j]).start || free[j].end() <= free[i].start
}

/// The range `[lo, hi)` meets no free block.
pub open spec fn range_is_free_of(free: Seq<ListNode>, lo: int, hi: int) -> bool {
    forall|i: int| 0 <= i < free.len() ==> (#[trigger] free[i]).end() <= lo || hi <= free[i].start
}

/// What stays free of block `b` when `[start, start + size)` is taken from it:
/// the part behind the allocation, if there is any. The part in front of an
/// aligned allocation is not returned to the list.
pub open spec fn leftover(b: ListNode, start: int, size: int) -> Seq<ListNode> {
    if b.end() - (start + size) > 0 {
        seq![ListNode { start: (start + size) as usize, size: (b.end() - (start + size)) as usize }]
    } else {
        Seq::empty()
    }
}

/// Every free block lies inside the heap `[lo, hi)`, and no two overlap.
pub open spec fn blocks_in_heap(free: Seq<ListNode>, lo: int, hi: int) -> bool {
    &&& forall|i: int| 0 <= i < free.len() ==> lo <= (#[trigger] free[i]).start && free[i].end() <= hi
    &&& blocks_disjoint(free)
}

/// The live allocations, as `(start, end)` ranges, overlap neither each other
/// nor any free block.
pub open spec fn live_apart(free: Seq<ListNode>, live: Seq<(int, int)>) -> bool {
    &&& forall|i: int, j: int|
        0 <= i < live.len() && 0 <= j < live.len() && i != j ==> (#[trigger] live[i]).1 <= (#[trigger] live[j]).0
            || live[j].1 <= live[i].0
    &&& forall|i: int| 0 <= i < live.len() ==> range_is_free_of(free, (#[trigger] live[i]).0, live[i].1)
}

/// A multiple of a power of two that is at least eight is a multiple of eight.
pub proof fn lemma_multiple_of_large_pow2(x: int, align: int)
    requires
        is_pow2(align),
        align >= LIST_NODE_ALIGN,
        x % align == 0,
    ensures
        x % (LIST_NODE_ALIGN as int) == 0,
{
    let n = lemma_pow2_witness(align);
    vstd::arithmetic::power2::lemma2_to64();
    if n < 3 {
        vstd::arithmetic::power2::lemma_pow2_strictly_increases(n, 3);
    }
    let k = (n - 3) as nat;
    vstd::arithmetic::power2::lemma_pow2_adds(3, k);
    let q = x / align;
    vstd::arithmetic::div_mod::lemma_fundamental_div_mod(x, align);
    assert(x == 8 * (q * vstd::arithmetic::power2::pow2(k))) by (nonlinear_arith)
        requires
            x == align * q,
            align == 8 * vstd::arithmetic::power2::pow2(k),
    ;
    vstd::arithmetic::div_mod::lemma_mod_multiples_basic(q * vstd::arithmetic::power2::pow2(k), 8);
}

/// An allocation taken from the first fitting block lies inside that block and
/// is aligned, and the blocks that stay free neither overlap each other nor the
/// allocation, provided the free blocks did not overlap before.
pub proof fn lemma_alloc_keeps_blocks_disjoint(
    free: Seq<ListNode>,
    i: int,
    start: int,
    size: int,
    align: int,
)
    requires
        blocks_disjoint(free),
        0 <= i < free.len(),
        fit_start(free[i], size, align) == Some(start),
        size >= 0,
        align > 0,
    ensures
        start % align == 0,
        free[i].start <= start,
        start + size <= free[i].end(),
        blocks_disjoint(leftover(free[i], start, size) + free.remove(i)),
        range_is_free_of(leftover(free[i], start, size) + free.remove(i), start, start + size),
{
    let b = free[i];
    let rest = free.remove(i);
    let lo = leftover(b, start, size);
    let nw = lo + rest;
    lemma_spec_align_up(b.start as int, align);
    assert forall|j: int| 0 <= j < rest.len() implies (#[trigger] rest[j]).end() <= b.start
        || b.end() <= rest[j].start by {
        if j < i {
            assert(rest[j] == free[j]);
        } else {
            assert(rest[j] == free[j + 1]);
        }
    }
    assert forall|p: int, q: int|
        0 <= p < nw.len() && 0 <= q < nw.len() && p != q implies (#[trigger] nw[p]).end() <= (
        #[trigger] nw[q]).start || nw[q].end() <= nw[p].start by {
        if p >= lo.len() && q >= lo.len() {
            let pp = p - lo.len();
            let qq = q - lo.len();
            let fp = if pp < i { pp } else { pp + 1 };
            let fq = if qq < i { qq } else { qq + 1 };
            assert(nw[p] == free[fp]);
            assert(nw[q] == free[fq]);
        } else if p < lo.len() {
            let qq = q - lo.len();
            assert(nw[q] == rest[qq]);
        } else {
            let pp = p - lo.len();
            assert(nw[p] == rest[pp]);
        }
    }
    assert forall|j: int| 0 <= j < nw.len() implies (#[trigger] nw[j]).end() <= start || start
        + size <= nw[j].start by {
        if j >= lo.len() {
            assert(nw[j] == rest[j - lo.len()]);
        }
    }
}

/// What is handed out is never handed out twice: when the live allocations
/// are apart from each other and from the free blocks, they stay so after an
/// allocation taken from the first fitting block, the new one included.
pub proof fn lemma_alloc_keeps_live_apart(
    free: Seq<ListNode>,
    live: Seq<(int, int)>,
    i: int,
    start: int,
    size: int,
    align: int,
)
    requires
        blocks_disjoint(free),
        live_apart(free, live),
        0 <= i < free.len(),
        fit_start(free[i], size, align) == Some(start),
        size >= 0,
        align > 0,
    ensures
        live_apart(leftover(free[i], start, size) + free.remove(i), live.push((start, start + size))),
{
    lemma_alloc_keeps_blocks_disjoint(free, i, start, size, align);
    let nf = leftover(free[i], start, size) + free.remove(i);
    let nl = live.push((start, start + size));
    let lo = leftover(free[i], start, size);
    assert forall|a: int| 0 <= a < live.len() implies (#[trigger] live[a]).1 <= start || start + size <= live[a].0 by {
        assert(range_is_free_of(free, live[a].0, live[a].1));
        assert(free[i].end() <= live[a].0 || live[a].1 <= free[i].start);
    }
    assert forall|a: int, b: int| 0 <= a < nl.len() && 0 <= b < nl.len() && a != b implies (#[trigger] nl[a]).1
        <= (#[trigger] nl[b]).0 || nl[b].1 <= nl[a].0 by {
        if a < live.len() && b < live.len() {
            assert(nl[a] == live[a] && nl[b] == live[b]);
        } else if a < live.len() {
            assert(nl[a] == live[a]);
        } else {
            assert(nl[b] == live[b]);
        }
    }
    assert forall|a: int| 0 <= a < nl.len() implies range_is_free_of(nf, (#[trigger] nl[a]).0, nl[a].1) by {
        if a < live.len() {
            assert(nl[a] == live[a]);
            assert(range_is_free_of(free, live[a].0, live[a].1));
            assert forall|j: int| 0 <= j < nf.len() implies (#[trigger] nf[j]).end() <= live[a].0 || live[a].1 <= nf[j].start by {
                if j < lo.len() {
                    assert(free[i].end() <= live[a].0 || live[a].1 <= free[i].start);
                } else {
                    let jj = j - lo.len();
                    if jj < i {
                        assert(nf[j] == free[jj]);
                    } else {
                        assert(nf[j] == free[jj + 1]);
                    }
                }
            }
        }
    }
}

/// Freeing a live allocation keeps the rest apart: the freed block joins the
/// free blocks, which stay disjoint, and the other live allocations stay apart
/// from it and from each other.
pub proof fn lemma_dealloc_keeps_live_apart(free: Seq<ListNode>, live: Seq<(int, int)>, k: int, node: ListNode)
    requires
        blocks_disjoint(free),
        live_apart(free, live),
        0 <= k < live.len(),
        live[k] == (node.start as int, node.end()),
    ensures
        blocks_disjoint(seq![node] + free),
        live_apart(seq![node] + free, live.remove(k)),
{
    let nf = seq![node] + free;
    let nl = live.remove(k);
    assert(range_is_free_of(free, live[k].0, live[k].1));
    assert forall|a: int, b: int| 0 <= a < nf.len() && 0 <= b < nf.len() && a != b implies (#[trigger] nf[a]).end()
        <= (#[trigger] nf[b]).start || nf[b].end() <= nf[a].start by {
        if a > 0 && b > 0 {
            assert(nf[a] == free[a - 1] && nf[b] == free[b - 1]);
        } else if a == 0 {
            assert(nf[b] == free[b - 1]);
        } else {
            assert(nf[a] == free[a - 1]);
        }
    }
    assert forall|a: int| 0 <= a < nl.len() implies range_is_free_of(nf, (#[trigger] nl[a]).0, nl[a].1) by {
        let aa = if a < k { a } else { a + 1 };
        assert(nl[a] == live[aa]);
        assert(aa != k);
        assert(live[aa].1 <= live[k].0 || live[k].1 <= live[aa].0);
        assert(range_is_free_of(free, live[aa].0, live[aa].1));
        assert forall|j: int| 0 <= j < nf.len() implies (#[trigger] nf[j]).end() <= nl[a].0 || nl[a].1 <= nf[j].start by {
            if j > 0 {
                assert(nf[j] == free[j - 1]);
            }
        }
    }
    assert forall|a: int, b: int| 0 <= a < nl.len() && 0 <= b < nl.len() && a != b implies (#[trigger] nl[a]).1
        <= (#[trigger] nl[b]).0 || nl[b].1 <= nl[a].0 by {
        let aa = if a < k { a } else { a + 1 };
        let bb = if b < k { b } else { b + 1 };
        assert(nl[a] == live[aa] && nl[b] == live[bb]);
    }
}

/// A linked list allocator that uses a free list to manage memory.
pub struct LinkedListAllocator {
    free: Vec<ListNode>,
    heap_start: usize,
    heap_end: usize,
}

impl LinkedListAllocator {
    /// The free blocks in list order.
    pub closed spec fn blocks(&self) -> Seq<ListNode> {
        self.free@
    }

    /// Start address of the heap given to `init`.
    pub closed spec fn spec_heap_start(&self) -> int {
        self.heap_start as int
    }

    /// End address of the heap given to `init`.
    pub closed spec fn spec_heap_end(&self) -> int {
        self.heap_end as int
    }

    /// Every free block can hold a header and lies inside the address space.
    pub open spec fn wf(&self) -> bool {
        forall|i: int| 0 <= i < self.blocks().len() ==> (#[trigger] self.blocks()[i]).well_formed()
    }

    /// The free blocks lie inside the heap given to `init` and do not overlap.
    pub open spec fn heap_ok(&self) -> bool {
        blocks_in_heap(self.blocks(), self.spec_heap_start(), self.spec_heap_end())
    }

    /// Create a new empty linked list allocator.
    pub fn new() -> (r: LinkedListAllocator)
        ensures
            r.wf(),
            r.heap_ok(),
            r.blocks() == Seq::<ListNode>::empty(),
            r.spec_heap_start() == 0,
            r.spec_heap_end() == 0,
    {
        LinkedListAllocator { free: Vec::new(), heap_start: 0, heap_end: 0 }
    }

    /// Initialize the allocator with the heap `[heap_start, heap_start + heap_size)`,
    /// which becomes a free block at the front of the list.
    pub fn init(&mut self, heap_start: usize, heap_size: usize)
        requires
            old(self).wf(),
            heap_start % LIST_NODE_ALIGN == 0,
            heap_size >= LIST_NODE_SIZE,
            heap_start + heap_size <= usize::MAX,
        ensures
            final(self).wf(),
            final(self).blocks() == seq![ListNode { start: heap_start, size: heap_size }] + old(
                self,
            ).blocks(),
            final(self).spec_heap_start() == heap_start,
            final(self).spec_heap_end() == heap_start + heap_size,
            old(self).blocks().len() == 0 ==> final(self).heap_ok(),
    {
        self.heap_start = heap_start;
        self.heap_end = heap_start + heap_size;
        assert(self.blocks() == old(self).blocks());
        self.add_free_block(heap_start, heap_size);
        assert(old(self).blocks().len() == 0 ==> self.blocks() =~= seq![ListNode { start: heap_start, size: heap_size }]);
    }

    /// Adds the given free memory block `addr` to the front of the free list.
    pub fn add_free_block(&mut self, addr: usize, size: usize)
        requires
            old(self).wf(),
            addr % LIST_NODE_ALIGN == 0,
            size >= LIST_NODE_SIZE,
            addr + size <= usize::MAX,
        ensures
            final(self).wf(),
            final(self).blocks() == seq![ListNode { start: addr, size: size }] + old(self).blocks(),
            final(self).spec_heap_start() == old(self).spec_heap_start(),
            final(self).spec_heap_end() == old(self).spec_heap_end(),
            old(self).heap_ok() && old(self).spec_heap_start() <= addr && addr + size <= old(self).spec_heap_end()
                && range_is_free_of(old(self).blocks(), addr as int, addr + size) ==> final(self).heap_ok(),
    {
        let node = ListNode::new(addr, size);
        self.free.insert(0, node);
        assert(self.free@ =~= seq![node] + old(self).free@);
        assert forall|j: int| 0 <= j < self.blocks().len() implies (
        #[trigger] self.blocks()[j]).well_formed() by {
            if j > 0 {
                assert(self.blocks()[j] == old(self).blocks()[j - 1]);
            }
        }
        proof {
            if old(self).heap_ok() && old(self).spec_heap_start() <= addr && addr + size <= old(self).spec_heap_end()
                && range_is_free_of(old(self).blocks(), addr as int, addr + size) {
                let nb = self.blocks();
                assert forall|a: int, b: int| 0 <= a < nb.len() && 0 <= b < nb.len() && a != b implies (#[trigger] nb[a]).end()
                    <= (#[trigger] nb[b]).start || nb[b].end() <= nb[a].start by {
                    if a > 0 && b > 0 {
                        assert(nb[a] == old(self).blocks()[a - 1] && nb[b] == old(self).blocks()[b - 1]);
                    } else if a == 0 {
                        assert(nb[b] == old(self).blocks()[b - 1]);
                    } else {
                        assert(nb[a] == old(self).blocks()[a - 1]);
                    }
                }
                assert forall|a: int| 0 <= a < nb.len() implies self.spec_heap_start() <= (#[trigger] nb[a]).start
                    && nb[a].end() <= self.spec_heap_end() by {
                    if a > 0 {
                        assert(nb[a] == old(self).blocks()[a - 1]);
                    }
                }
            }
        }
    }

    /// Check if the given block is large enough for an allocation with `size` and `align`.
    /// On success the start address of the allocation is returned.
    pub fn check_block_for_alloc(block: &ListNode, size: usize, align: usize) -> (r: Result<
        usize,
        (),
    >)
        requires
            block.well_formed(),
            is_pow2(align as int),
            block.start + align - 1 <= usize::MAX,
        ensures
            match r {
                Ok(s) => fit_start(*block, size as int, align as int) == Some(s as int),
                Err(_) => fit_start(*block, size as int, align as int) is None,
            },
    {
        let alloc_start = align_up(block.start_addr(), align);
        let alloc_end = match alloc_start.checked_add(size) {
            Some(e) => e,
            None => return Err(()),
        };
        if alloc_end > block.end_addr() {
            return Err(());
        }
        let excess_size = block.end_addr() - alloc_end;
        if excess_size > 0 && excess_size < LIST_NODE_SIZE {
            return Err(());
        }
        Ok(alloc_start)
    }

    /// Search a free block with the given size and alignment and remove it from the list.
    /// Returns the block and the start address of the allocation inside it.
    pub fn find_free_block(&mut self, size: usize, align: usize) -> (r: Option<(ListNode, usize)>)
        requires
            old(self).wf(),
            is_pow2(align as int),
            align_room(old(self).blocks(), align as int),
        ensures
            final(self).wf(),
            final(self).spec_heap_start() == old(self).spec_heap_start(),
            final(self).spec_heap_end() == old(self).spec_heap_end(),
            match r {
                Some((node, start)) => exists|i: int|
                    {
                        &&& is_first_fit(old(self).blocks(), size as int, align as int, i)
                        &&& node == old(self).blocks()[i]
                        &&& fit_start(node, size as int, align as int) == Some(start as int)
                        &&& final(self).blocks() == old(self).blocks().remove(i)
                    },
                None => {
                    &&& no_fit(old(self).blocks(), size as int, align as int)
                    &&& final(self).blocks() == old(self).blocks()
                },
            },
    {
        let mut i: usize = 0;
        while i < self.free.len()
            invariant
                self.free@ == old(self).free@,
                self.heap_start == old(self).heap_start,
                self.heap_end == old(self).heap_end,
                self.wf(),
                is_pow2(align as int),
                align_room(self.blocks(), align as int),
                0 <= i <= self.free.len(),
                forall|j: int| 0 <= j < i ==> fit_start(#[trigger] self.free@[j], size as int, align as int) is None,
            decreases self.free.len() - i,
        {
            assert(self.blocks()[i as int].well_formed());
            match Self::check_block_for_alloc(&self.free[i], size, align) {
                Ok(start) => {
                    let ghost k = i as int;
                    assert(is_first_fit(old(self).blocks(), size as int, align as int, k));
                    let node = self.free.remove(i);
                    assert forall|j: int| 0 <= j < self.blocks().len() implies (
                    #[trigger] self.blocks()[j]).well_formed() by {
                        if j < k {
                            assert(self.blocks()[j] == old(self).blocks()[j]);
                        } else {
                            assert(self.blocks()[j] == old(self).blocks()[j + 1]);
                        }
                    }
                    return Some((node, start));
                },
                Err(_) => {},
            }
            i = i + 1;
        }
        None
    }

    /// Adjust the given layout so that the resulting allocated memory
    /// block is also capable of storing a `ListNode`.
    pub fn size_align(size: usize, align: usize) -> (r: (usize, usize))
        requires
            layout_ok(size, align),
        ensures
            r.0 == adjusted_layout(size as int, align as int).0,
            r.1 == adjusted_layout(size as int, align as int).1,
            is_pow2(r.1 as int),
            r.1 >= LIST_NODE_ALIGN,
            r.0 % LIST_NODE_ALIGN == 0,
            r.0 >= LIST_NODE_SIZE,
            r.0 >= size,
    {
        let a = if align < LIST_NODE_ALIGN { LIST_NODE_ALIGN } else { align };
        proof {
            vstd::arithmetic::power2::lemma2_to64();
            assert(vstd::arithmetic::power2::pow2(3) == 8);
            lemma_pow2_is_pow2(3);
            assert(is_pow2(a as int));
            lemma_layout_room(size as int, a as int);
        }
        let padded = align_up(size, a);
        let s = if padded < LIST_NODE_SIZE { LIST_NODE_SIZE } else { padded };
        proof {
            let n = lemma_pow2_witness(a as int);
            vstd::arithmetic::power2::lemma2_to64();
            if n < 3 {
                vstd::arithmetic::power2::lemma_pow2_strictly_increases(n, 3);
            }
            let k = (n - 3) as nat;
            vstd::arithmetic::power2::lemma_pow2_adds(3, k);
            let q = padded as int / a as int;
            vstd::arithmetic::div_mod::lemma_fundamental_div_mod(padded as int, a as int);
            assert(padded as int == (8 * (q * vstd::arithmetic::power2::pow2(k))) as int) by (nonlinear_arith)
                requires
                    padded as int == a * q,
                    a as int == 8 * vstd::arithmetic::power2::pow2(k),
            ;
            vstd::arithmetic::div_mod::lemma_mod_multiples_basic(q * vstd::arithmetic::power2::pow2(k), 8);
        }
        (s, a)
    }

    /// Allocate memory of the given size and alignment.
    /// The request is adjusted by `size_align`, the first fitting free block
    /// is taken out of the list, and the part of it behind the allocation is
    /// put back at the front of the list. `None` when no block fits.
    pub fn allocate(&mut self, size: usize, align: usize) -> (r: Option<usize>)
        requires
            old(self).wf(),
            layout_ok(size, align),
            align_room(old(self).blocks(), adjusted_layout(size as int, align as int).1),
        ensures
            final(self).wf(),
            final(self).spec_heap_start() == old(self).spec_heap_start(),
            final(self).spec_heap_end() == old(self).spec_heap_end(),
            ({
                let (sz, al) = adjusted_layout(size as int, align as int);
                match r {
                    None => {
                        &&& no_fit(old(self).blocks(), sz, al)
                        &&& final(self).blocks() == old(self).blocks()
                    },
                    Some(a) => exists|i: int|
                        {
                            &&& is_first_fit(old(self).blocks(), sz, al, i)
                            &&& fit_start(old(self).blocks()[i], sz, al) == Some(a as int)
                            &&& (a as int) % al == 0
                            &&& old(self).blocks()[i].start <= a
                            &&& a + sz <= old(self).blocks()[i].end()
                            &&& final(self).blocks() == leftover(old(self).blocks()[i], a as int, sz)
                                + old(self).blocks().remove(i)
                        },
                }
            }),
            old(self).heap_ok() ==> final(self).heap_ok(),
            old(self).heap_ok() ==> (r matches Some(a) ==> {
                let sz = adjusted_layout(size as int, align as int).0;
                &&& old(self).spec_heap_start() <= a
                &&& a + sz <= old(self).spec_heap_end()
                &&& range_is_free_of(final(self).blocks(), a as int, a + sz)
            }),
    {
        let ghost before = self.blocks();
        let (size, align) = Self::size_align(size, align);
        match self.find_free_block(size, align) {
            Some((block, alloc_start)) => {
                let ghost mid = self.blocks();
                proof {
                    lemma_pow2_mask(align);
                    lemma_spec_align_up(block.start as int, align as int);
                    lemma_multiple_of_large_pow2(alloc_start as int, align as int);
                }
                let alloc_end = alloc_start + size;
                let excess_size = block.end_addr() - alloc_end;
                if excess_size > 0 {
                    self.add_free_block(alloc_end, excess_size);
                }
                assert(self.blocks() == leftover(block, alloc_start as int, size as int) + mid);
                proof {
                    if old(self).heap_ok() {
                        let i = choose|i: int| {
                            &&& is_first_fit(before, size as int, align as int, i)
                            &&& block == before[i]
                            &&& fit_start(block, size as int, align as int) == Some(alloc_start as int)
                            &&& mid == before.remove(i)
                        };
                        lemma_alloc_keeps_blocks_disjoint(before, i, alloc_start as int, size as int, align as int);
                        let nb = self.blocks();
                        let lo = leftover(block, alloc_start as int, size as int);
                        assert forall|a: int| 0 <= a < nb.len() implies self.spec_heap_start() <= (#[trigger] nb[a]).start
                            && nb[a].end() <= self.spec_heap_end() by {
                            if a >= lo.len() {
                                let aa = a - lo.len();
                                if aa < i {
                                    assert(nb[a] == before[aa]);
                                } else {
                                    assert(nb[a] == before[aa + 1]);
                                }
                            }
                        }
                    }
                }
                Some(alloc_start)
            },
            None => None,
        }
    }

    /// Free the memory block at `ptr` that was allocated with the given size
    /// and alignment: the adjusted block is put at the front of the free list.
    pub fn dealloc(&mut self, ptr: usize, size: usize, align: usize)
        requires
            old(self).wf(),
            layout_ok(size, align),
            ptr % LIST_NODE_ALIGN == 0,
            ptr + adjusted_layout(size as int, align as int).0 <= usize::MAX,
        ensures
            final(self).wf(),
            final(self).spec_heap_start() == old(self).spec_heap_start(),
            final(self).spec_heap_end() == old(self).spec_heap_end(),
            final(self).blocks() == seq![
                ListNode { start: ptr, size: adjusted_layout(size as int, align as int).0 as usize },
            ] + old(self).blocks(),
            old(self).heap_ok() && old(self).spec_heap_start() <= ptr
                && ptr + adjusted_layout(size as int, align as int).0 <= old(self).spec_heap_end()
                && range_is_free_of(old(self).blocks(), ptr as int, ptr + adjusted_layout(size as int, align as int).0)
                ==> final(self).heap_ok(),
    {
        let (size, _) = Self::size_align(size, align);
        self.add_free_block(ptr, size);
    }

    /// Dump the free list for debugging purposes: the start and size of each
    /// free block, in list order.
    pub fn dump_free_list(&self) -> (r: Vec<(usize, usize)>)
        ensures
            r@.len() == self.blocks().len(),
            forall|i: int|
                0 <= i < r@.len() ==> #[trigger] r@[i] == (self.blocks()[i].start, self.blocks()[i].size),
    {
        let mut out: Vec<(usize, usize)> = Vec::new();
        let mut i: usize = 0;
        while i < self.free.len()
            invariant
                0 <= i <= self.free.len(),
                out@.len() == i,
                forall|j: int| 0 <= j < i ==> #[trigger] out@[j] == (self.blocks()[j].start, self.blocks()[j].size),
            decreases self.free.len() - i,
        {
            out.push((self.free[i].start, self.free[i].size));
            i = i + 1;
        }
        out
    }
}

} // verus!
