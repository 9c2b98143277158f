//! Handing the usable physical memory to the page frame allocator at boot.
use vstd::prelude::*;
use crate::align::spec_align_up;
use crate::paging::FrameAllocator;
use vstd::arithmetic::div_mod::lemma_fundamental_div_mod;

verus! {

/// An entry of the memory map handed over by the firmware: `page_count` pages
/// of 4 KiB starting at `phys_start`; `conventional` memory is free to use.
#[derive(Clone, Copy, Debug)]
pub struct MemoryRegion {
    pub phys_start: u64,
    pub page_count: u64,
    pub conventional: bool,
}

/// The end of the region: `page_count` pages of 4 KiB from its start.
pub open spec fn region_end(r: MemoryRegion) -> int {
    r.phys_start + r.page_count * 4096
}

/// The first address the frames of a region may start at: its start, or the
/// end of the kernel when that lies above.
pub open spec fn region_low(r: MemoryRegion, kernel_end: u64) -> int {
    if r.phys_start < kernel_end { kernel_end as int } else { r.phys_start as int }
}

/// The memory map entry can be handled: it lies inside the physical address
/// space of the machine, and, when it is conventional memory that reaches
/// above the kernel, rounding its usable start up to a page does not pass its
/// end rounded down to a page.
pub open spec fn region_ok(r: MemoryRegion, kernel_end: u64) -> bool {
    &&& region_end(r) <= 0x10_0000_0000_0000
    &&& r.page_count <= usize::MAX
    &&& (r.conventional && region_low(r, kernel_end) < region_end(r)) ==> spec_align_up(region_low(r, kernel_end), 4096)
        <= region_end(r) - region_end(r) % 4096
}

/// The part of a region that can be handed to the frame allocator: the whole
/// pages of conventional memory that lie at or above `kernel_end`, as a start
/// address and a number of frames; `None` when there is none.
pub open spec fn usable(r: MemoryRegion, kernel_end: u64) -> Option<(u64, nat)> {
    let end = region_end(r) - region_end(r) % 4096;
    let lo = region_low(r, kernel_end);
    let start = spec_align_up(lo, 4096);
    if !r.conventional || lo >= region_end(r) || start >= end {
        None
    } else {
        Some((start as u64, ((end - start) / 4096) as nat))
    }
}

/// Frame `f` lies in the usable part of region `r`.
pub open spec fn frame_of(r: MemoryRegion, kernel_end: u64, f: u64) -> bool {
    match usable(r, kernel_end) {
        Some((s, n)) => s <= f < s + n * 4096 && f % 4096 == 0,
        None => false,
    }
}

/// The frames of the block of `n` frames starting at `start`, in address order.
pub open spec fn block_frames(start: u64, n: nat) -> Seq<u64> {
    Seq::new(n, |k: int| (start + k * 4096) as u64)
}

/// The frames that the memory map hands to the frame allocator, region by
/// region and in address order within a region.
pub open spec fn map_frames(map: Seq<MemoryRegion>, kernel_end: u64) -> Seq<u64>
    decreases map.len(),
{
    if map.len() == 0 {
        Seq::empty()
    } else {
        map_frames(map.drop_last(), kernel_end) + match usable(map.last(), kernel_end) {
            Some((s, n)) => block_frames(s, n),
            None => Seq::empty(),
        }
    }
}

/// The highest physical address known after the usable blocks of the memory
/// map are handed to an allocator that knew `max` before: the highest block
/// end above `max`, if any.
pub open spec fn map_max_addr(map: Seq<MemoryRegion>, kernel_end: u64, max: u64) -> u64
    decreases map.len(),
{
    if map.len() == 0 {
        max
    } else {
        let m = map_max_addr(map.drop_last(), kernel_end, max);
        match usable(map.last(), kernel_end) {
            Some((s, n)) => if s + n * 4096 > m { (s + n * 4096) as u64 } else { m },
            None => m,
        }
    }
}

/// The usable part of a memory map entry: its start is raised to the end of
/// the kernel and to a page boundary, its end is lowered to a page boundary.
pub fn usable_block(r: &MemoryRegion, kernel_end: u64) -> (res: Option<(u64, usize)>)
    requires
        region_ok(*r, kernel_end),
    ensures
        match usable(*r, kernel_end) {
            Some((s, n)) => res == Some((s, n as usize)),
            None => res is None,
        },
        res matches Some((s, n)) ==> s % 4096 == 0 && s >= kernel_end && s >= r.phys_start
            && s + n * 4096 <= region_end(*r),
{
    if !r.conventional {
        return None;
    }
    let mut start = r.phys_start;
    let mut end = r.phys_start + r.page_count * 4096;
    if start < kernel_end {
        start = kernel_end;
        if start >= end {
            return None;
        }
    }
    if start >= end {
        return None;
    }
    let ghost lo = start as int;
    let ghost end0 = end as int;
    proof {
        crate::align::lemma_spec_align_up(lo, 4096);
        lemma_fundamental_div_mod(lo, 4096);
        lemma_fundamental_div_mod(end0, 4096);
    }
    if start % 4096 != 0 {
        start = (start / 4096 + 1) * 4096;
    }
    if end % 4096 != 0 {
        end = (end / 4096) * 4096;
    }
    proof {
        assert(start == spec_align_up(lo, 4096));
        assert(end == end0 - end0 % 4096);
        assert(start % 4096 == 0);
        assert(end % 4096 == 0) by {
            vstd::arithmetic::div_mod::lemma_mod_multiples_basic(end0 / 4096, 4096);
        }
    }
    let num_frames = ((end - start) / 4096) as usize;
    proof {
        lemma_fundamental_div_mod((end - start) as int, 4096);
        assert(((end - start) as int) % 4096 == 0) by {
            vstd::arithmetic::div_mod::lemma_sub_mod_noop(end as int, start as int, 4096);
        }
        assert(num_frames * 4096 == end - start) by (nonlinear_arith)
            requires
                (end - start) as int == 4096 * (((end - start) as int) / 4096) + ((end - start) as int) % 4096,
                ((end - start) as int) % 4096 == 0,
                num_frames == ((end - start) as int) / 4096;
    }
    if num_frames == 0 {
        return None;
    }
    Some((start, num_frames))
}

/// Insert the usable part of every entry of the memory map into the page frame
/// allocator, in the order of the map.
pub fn init_physical_memory_allocator(memory_map: &Vec<MemoryRegion>, kernel_end: u64, allocator: &mut FrameAllocator)
    requires
        old(allocator).wf(),
        forall|i: int| 0 <= i < memory_map@.len() ==> region_ok(#[trigger] memory_map@[i], kernel_end),
    ensures
        final(allocator).wf(),
        final(allocator).frames().subrange(0, old(allocator).frames().len() as int) == old(allocator).frames(),
        forall|f: u64| #[trigger] final(allocator).frames().subrange(old(allocator).frames().len() as int, final(allocator).frames().len() as int).contains(f) ==> exists|i: int|
            0 <= i < memory_map@.len() && frame_of(#[trigger] memory_map@[i], kernel_end, f),
        final(allocator).frames() == old(allocator).frames() + map_frames(memory_map@, kernel_end),
        final(allocator).spec_max_addr() == map_max_addr(memory_map@, kernel_end, old(allocator).spec_max_addr()),
{
    let ghost n0 = allocator.frames().len();
    let mut i: usize = 0;
    while i < memory_map.len()
        invariant
            i <= memory_map@.len(),
            allocator.wf(),
            forall|k: int| 0 <= k < memory_map@.len() ==> region_ok(#[trigger] memory_map@[k], kernel_end),
            n0 == old(allocator).frames().len(),
            n0 <= allocator.frames().len(),
            allocator.frames().subrange(0, n0 as int) == old(allocator).frames(),
            forall|f: u64| #[trigger] allocator.frames().subrange(n0 as int, allocator.frames().len() as int).contains(f) ==> exists|k: int|
                0 <= k < i && frame_of(#[trigger] memory_map@[k], kernel_end, f),
            allocator.frames() == old(allocator).frames() + map_frames(memory_map@.subrange(0, i as int), kernel_end),
            allocator.spec_max_addr() == map_max_addr(memory_map@.subrange(0, i as int), kernel_end, old(allocator).spec_max_addr()),
        decreases memory_map@.len() - i,
    {
        let ghost next = memory_map@.subrange(0, i + 1);
        assert(next.drop_last() =~= memory_map@.subrange(0, i as int));
        assert(next.last() == memory_map@[i as int]);
        match usable_block(&memory_map[i], kernel_end) {
            Some((start, num_frames)) => {
                let ghost pre = allocator.frames();
                allocator.free_block(start, num_frames);
                proof {
                    let post = allocator.frames();
                    assert forall|k: int| 0 <= k < post.len() implies post[k] == (pre + block_frames(start, num_frames as nat))[k] by {
                        if k < pre.len() {
                            assert(post.subrange(0, pre.len() as int)[k] == post[k]);
                        } else {
                            assert(post[pre.len() + (k - pre.len())] == start + (k - pre.len()) * 4096);
                        }
                    }
                    assert(post =~= pre + block_frames(start, num_frames as nat));
                    assert(post.subrange(0, n0 as int) =~= pre.subrange(0, n0 as int));
                    assert forall|f: u64| #[trigger] post.subrange(n0 as int, post.len() as int).contains(f) implies exists|k: int|
                        0 <= k < i + 1 && frame_of(#[trigger] memory_map@[k], kernel_end, f) by {
                        let j = choose|j: int| 0 <= j < post.len() - n0 && post.subrange(n0 as int, post.len() as int)[j] == f;
                        if n0 + j < pre.len() {
                            assert(pre.subrange(n0 as int, pre.len() as int)[j] == f);
                            assert(pre.subrange(n0 as int, pre.len() as int).contains(f));
                        } else {
                            let kk = n0 + j - pre.len();
                            assert(post[pre.len() + kk] == start + kk * 4096);
                            assert(f == start + kk * 4096);
                            vstd::arithmetic::div_mod::lemma_mod_multiples_vanish(kk, start as int, 4096);
                            assert(frame_of(memory_map@[i as int], kernel_end, f));
                        }
                    }
                }
            },
            None => {},
        }
        i = i + 1;
    }
    assert(memory_map@.subrange(0, memory_map@.len() as int) =~= memory_map@);
}

} // verus!
