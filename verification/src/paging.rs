//! Four-level x86_64 paging structures with 4 KiB pages.
use vstd::prelude::*;
use crate::consts::{PAGE_SIZE, USER_STACK_VIRT_START};
use crate::framebuffer::Framebuffer;
use vstd::arithmetic::div_mod::{lemma_fundamental_div_mod, lemma_fundamental_div_mod_converse};

verus! {

/// Mask of the physical address bits of a page table entry.
pub const ENTRY_ADDR_MASK: u64 = 0x000f_ffff_ffff_f000;

/// Mask of the flag bits of a page table entry.
pub const ENTRY_FLAGS_MASK: u64 = 0x1ff;

/// A physical memory address.
#[derive(Clone, Copy, Debug)]
pub struct PhysAddr {
    pub raw: u64,
}

impl PhysAddr {
    /// Wrap a raw physical address.
    pub fn new(raw: u64) -> (r: PhysAddr)
        ensures
            r.raw == raw,
    {
        PhysAddr { raw }
    }

    /// The raw physical address.
    pub fn raw(&self) -> (r: u64)
        ensures
            r == self.raw,
    {
        self.raw
    }
}

/// Flags of a page table entry, as the bits they occupy in the entry.
#[derive(Clone, Copy, Debug)]
pub struct PageFlags {
    pub bits: u64,
}

impl PageFlags {
    /// The entry is valid.
    pub const PRESENT: u64 = 1;
    /// The page may be written.
    pub const WRITEABLE: u64 = 2;
    /// The page may be accessed from ring 3.
    pub const USER_ACCESSIBLE: u64 = 4;
    /// Writes go straight to memory.
    pub const WRITE_THROUGH: u64 = 8;
    /// The page is not cached.
    pub const CACHE_DISABLE: u64 = 16;
    /// The page has been accessed.
    pub const ACCESSED: u64 = 32;
    /// The page has been written.
    pub const DIRTY: u64 = 64;
    /// The entry maps a huge page.
    pub const HUGE_PAGE: u64 = 128;
    /// The mapping is global.
    pub const GLOBAL: u64 = 256;

    /// The flags whose bits are the known flag bits of `bits`.
    pub fn from_bits_truncate(bits: u64) -> (r: PageFlags)
        ensures
            r.bits == bits & ENTRY_FLAGS_MASK,
    {
        PageFlags { bits: bits & ENTRY_FLAGS_MASK }
    }

    /// The raw bits of the flags.
    pub fn bits(&self) -> (r: u64)
        ensures
            r == self.bits,
    {
        self.bits
    }

    /// Whether all flags of `other` are set in `self`.
    pub fn contains(&self, other: u64) -> (r: bool)
        ensures
            r == (self.bits & other == other),
    {
        self.bits & other == other
    }

    /// Flags used for page table entries referring to kernel memory.
    pub fn kernel_flags() -> (r: PageFlags)
        ensures
            r.bits == 7,
    {
        assert(1u64 | 2u64 | 4u64 == 7u64) by (bit_vector);
        PageFlags { bits: Self::PRESENT | Self::WRITEABLE | Self::USER_ACCESSIBLE }
    }

    /// Flags used for page table entries referring to user space memory.
    pub fn user_flags() -> (r: PageFlags)
        ensures
            r.bits == 7,
    {
        assert(1u64 | 2u64 | 4u64 == 7u64) by (bit_vector);
        PageFlags { bits: Self::PRESENT | Self::WRITEABLE | Self::USER_ACCESSIBLE }
    }
}

/// An entry inside a page table: a physical address and flags in one word.
#[derive(Clone, Copy, Debug)]
pub struct PageTableEntry {
    pub raw: u64,
}

/// The raw entry built from a physical address and flag bits.
pub open spec fn entry_bits(addr: u64, flags: u64) -> u64 {
    addr | flags
}

/// An address that an entry can hold: page aligned and below 2^52.
pub open spec fn entry_addr_ok(addr: u64) -> bool {
    addr & !ENTRY_ADDR_MASK == 0
}

/// Flag bits that an entry can hold.
pub open spec fn entry_flags_ok(flags: u64) -> bool {
    flags & !ENTRY_FLAGS_MASK == 0
}

impl PageTableEntry {
    /// Create a new page table entry from the given physical address and flags.
    pub fn new(addr: PhysAddr, flags: PageFlags) -> (r: PageTableEntry)
        ensures
            r.raw == entry_bits(addr.raw, flags.bits),
    {
        PageTableEntry { raw: addr.raw() | flags.bits() }
    }

    /// Overwrite the physical address and flags of the page table entry.
    pub fn set(&mut self, addr: PhysAddr, flags: PageFlags)
        ensures
            final(self).raw == entry_bits(addr.raw, flags.bits),
    {
        *self = PageTableEntry::new(addr, flags);
    }

    /// Get the physical address that the page table entry refers to.
    pub fn addr(&self) -> (r: PhysAddr)
        ensures
            r.raw == self.raw & ENTRY_ADDR_MASK,
    {
        PhysAddr::new(self.raw & ENTRY_ADDR_MASK)
    }

    /// Get the flags of the page table entry.
    pub fn flags(&self) -> (r: PageFlags)
        ensures
            r.bits == self.raw & ENTRY_FLAGS_MASK,
    {
        PageFlags::from_bits_truncate(self.raw)
    }

    /// Whether the entry is present.
    pub fn is_present(&self) -> (r: bool)
        ensures
            r == (self.raw & PageFlags::PRESENT == PageFlags::PRESENT),
    {
        self.raw & PageFlags::PRESENT == PageFlags::PRESENT
    }
}

/// An entry gives back the address and the flags it was built from, when the
/// address is page aligned below 2^52 and the flags are known flag bits.
pub proof fn lemma_entry_roundtrip(addr: u64, flags: u64)
    requires
        entry_addr_ok(addr),
        entry_flags_ok(flags),
    ensures
        entry_bits(addr, flags) & ENTRY_ADDR_MASK == addr,
        entry_bits(addr, flags) & ENTRY_FLAGS_MASK == flags,
{
    assert((addr | flags) & 0x000f_ffff_ffff_f000u64 == addr) by (bit_vector)
        requires
            addr & !0x000f_ffff_ffff_f000u64 == 0,
            flags & !0x1ffu64 == 0,
    ;
    assert((addr | flags) & 0x1ffu64 == flags) by (bit_vector)
        requires
            addr & !0x000f_ffff_ffff_f000u64 == 0,
            flags & !0x1ffu64 == 0,
    ;
}

/// Number of entries in a page table.
pub const PAGE_TABLE_ENTRIES: usize = 512;

/// Flags of every entry that the mapping functions write.
pub const MAP_FLAGS: u64 = 7;

/// Number of pages covered by a table of the given level (level 0 is a page).
pub open spec fn span(level: nat) -> nat
    decreases level,
{
    if level == 0 {
        1
    } else {
        512 * span((level - 1) as nat)
    }
}

/// The entry is valid.
pub open spec fn present(e: PageTableEntry) -> bool {
    e.raw & 1 == 1
}

/// The flags of a leaf entry: `MAP_FLAGS`, and for device memory also
/// `CACHE_DISABLE`, so that the memory is not cached.
pub open spec fn leaf_flags(device: bool) -> u64 {
    if device {
        23
    } else {
        MAP_FLAGS
    }
}

/// The leaf entry that maps a page onto the physical page of the same number.
pub open spec fn identity_leaf(page: int, device: bool) -> u64 {
    ((page * 4096) as u64) | leaf_flags(device)
}

/// A leaf entry that maps a page onto some page frame.
pub open spec fn frame_leaf(e: u64, device: bool) -> bool {
    exists|f: u64| entry_addr_ok(f) && e == f | leaf_flags(device)
}

/// The translation result `e` maps virtual page `page`, onto the same physical
/// page (`identity`), or onto some frame.
pub open spec fn maps_page(e: Option<u64>, page: int, identity: bool, device: bool) -> bool {
    match e {
        Some(v) => if identity {
            v == identity_leaf(page, device)
        } else {
            frame_leaf(v, device)
        },
        None => false,
    }
}

/// A page frame address that an entry can refer to: page aligned, below 2^52.
pub proof fn lemma_frame_addr_ok(f: u64)
    requires
        f % 4096 == 0,
        f < 0x10_0000_0000_0000,
    ensures
        entry_addr_ok(f),
{
    assert(f & !0x000f_ffff_ffff_f000u64 == 0) by (bit_vector)
        requires
            f % 4096 == 0,
            f < 0x10_0000_0000_0000u64,
    ;
}

/// Mask of the address of the page map level 4 in the CR3 register.
pub const CR3_ADDR_MASK: u64 = 0xffff_ffff_ffff_f000;

/// The address of the active page map level 4, from the value of CR3: its
/// low twelve bits (flags) are cleared.
pub fn pml4_addr_from_cr3(cr3: u64) -> (r: PhysAddr)
    ensures
        r.raw == cr3 & CR3_ADDR_MASK,
{
    PhysAddr::new(cr3 & CR3_ADDR_MASK)
}

/// Loading the page aligned address of a page map level 4 into CR3 and
/// reading CR3 back gives that address again.
pub proof fn lemma_cr3_roundtrip(addr: u64)
    requires
        addr % 4096 == 0,
    ensures
        addr & CR3_ADDR_MASK == addr,
{
    assert(addr & 0xffff_ffff_ffff_f000u64 == addr) by (bit_vector)
        requires
            addr % 4096 == 0,
    ;
}

/// The physical page frame allocator: a supply of free page frames, and the
/// highest physical address ever handed to it.
pub struct FrameAllocator {
    free: Vec<u64>,
    max_addr: u64,
}

impl FrameAllocator {
    /// The free frames; the last one is handed out next.
    pub closed spec fn frames(&self) -> Seq<u64> {
        self.free@
    }

    /// The highest end address of the blocks handed to the allocator.
    pub closed spec fn spec_max_addr(&self) -> u64 {
        self.max_addr
    }

    /// Every free frame is a page frame an entry can refer to.
    pub open spec fn wf(&self) -> bool {
        forall|i: int| 0 <= i < self.frames().len() ==> entry_addr_ok(#[trigger] self.frames()[i])
    }

    /// An allocator without frames.
    pub fn new() -> (r: FrameAllocator)
        ensures
            r.wf(),
            r.frames() == Seq::<u64>::empty(),
            r.spec_max_addr() == 0,
    {
        FrameAllocator { free: Vec::new(), max_addr: 0 }
    }

    /// Hand the frame at `addr` to the allocator.
    pub fn free_frame(&mut self, addr: u64)
        requires
            old(self).wf(),
            entry_addr_ok(addr),
        ensures
            final(self).wf(),
            final(self).frames() == old(self).frames().push(addr),
            final(self).spec_max_addr() == old(self).spec_max_addr(),
    {
        self.free.push(addr);
        assert forall|i: int| 0 <= i < self.frames().len() implies entry_addr_ok(#[trigger] self.frames()[i]) by {
            if i < old(self).frames().len() {
                assert(self.frames()[i] == old(self).frames()[i]);
            }
        }
    }

    /// Hand the `num_frames` frames starting at `addr` to the allocator, and
    /// raise the highest physical address to the end of the block if it lies
    /// above it.
    pub fn free_block(&mut self, addr: u64, num_frames: usize)
        requires
            old(self).wf(),
            addr % 4096 == 0,
            addr + num_frames * 4096 <= 0x10_0000_0000_0000,
        ensures
            final(self).wf(),
            final(self).frames().len() == old(self).frames().len() + num_frames,
            final(self).frames().subrange(0, old(self).frames().len() as int) == old(self).frames(),
            forall|k: int| 0 <= k < num_frames ==> #[trigger] final(self).frames()[old(self).frames().len() + k] == addr + k * 4096,
            final(self).spec_max_addr() == if addr + num_frames * 4096 > old(self).spec_max_addr() {
                (addr + num_frames * 4096) as u64
            } else {
                old(self).spec_max_addr()
            },
    {
        let ghost n0 = self.free@.len();
        let mut i: usize = 0;
        let mut f: u64 = addr;
        while i < num_frames
            invariant
                i <= num_frames,
                i < num_frames ==> f == addr + i * 4096,
                addr % 4096 == 0,
                addr + num_frames * 4096 <= 0x10_0000_0000_0000,
                self.wf(),
                self.max_addr == old(self).max_addr,
                self.free@.len() == n0 + i,
                n0 == old(self).free@.len(),
                self.free@.subrange(0, n0 as int) == old(self).free@,
                forall|k: int| 0 <= k < i ==> #[trigger] self.free@[n0 + k] == addr + k * 4096,
            decreases num_frames - i,
        {
            proof {
                assert(f % 4096 == 0) by {
                    vstd::arithmetic::div_mod::lemma_mod_multiples_vanish(i as int, addr as int, 4096);
                }
                lemma_frame_addr_ok(f);
            }
            let ghost pre = self.free@;
            self.free_frame(f);
            proof {
                assert(self.free@.subrange(0, n0 as int) =~= pre.subrange(0, n0 as int));
                assert forall|k: int| 0 <= k < i + 1 implies #[trigger] self.free@[n0 + k] == addr + k * 4096 by {
                    if k < i {
                        assert(self.free@[n0 + k] == pre[n0 + k]);
                    }
                }
            }
            i = i + 1;
            if i < num_frames {
                f = f + 4096;
            }
        }
        assert(self.wf());
        let end = addr + (num_frames as u64) * 4096;
        let ghost before = self.frames();
        if end > self.max_addr {
            self.max_addr = end;
        }
        assert(self.free@ == before);
        assert forall|i: int| 0 <= i < self.frames().len() implies entry_addr_ok(#[trigger] self.frames()[i]) by {
            assert(self.frames()[i] == before[i]);
        }
    }

    /// Number of free frames.
    pub fn frames_left(&self) -> (r: usize)
        ensures
            r == self.frames().len(),
    {
        self.free.len()
    }

    /// The highest physical address handed to the allocator.
    pub fn max_phys_addr(&self) -> (r: PhysAddr)
        ensures
            r.raw == self.spec_max_addr(),
    {
        PhysAddr::new(self.max_addr)
    }

    /// Take a free frame, if there is one.
    pub fn alloc_frame(&mut self) -> (r: Option<u64>)
        requires
            old(self).wf(),
        ensures
            final(self).wf(),
            final(self).spec_max_addr() == old(self).spec_max_addr(),
            match r {
                Some(f) => {
                    &&& old(self).frames().len() > 0
                    &&& f == old(self).frames().last()
                    &&& final(self).frames() == old(self).frames().drop_last()
                    &&& entry_addr_ok(f)
                },
                None => old(self).frames().len() == 0 && final(self).frames() == old(self).frames(),
            },
    {
        self.free.pop()
    }
}

/// A page table made up of 512 entries, whose contents belong in the page
/// frame `frame`: the entries are written there (see `entries` and `child`)
/// before the tables are loaded. Each present entry of a table above the
/// lowest level refers to the table in `children` at the same index.
pub struct PageTable {
    frame: u64,
    entries: Vec<PageTableEntry>,
    children: Vec<Option<Box<PageTable>>>,
}

/// The table is a well-formed table of the given level: it has 512 entries,
/// and the present entries of a non-lowest level are exactly those with a
/// child table, which lies in the frame the entry refers to and is itself
/// well-formed one level lower; such an entry carries the flags `MAP_FLAGS`
/// (present, writeable, user accessible) and no other.
pub closed spec fn wf_at(t: PageTable, level: nat) -> bool
    decreases level,
{
    &&& 1 <= level <= 4
    &&& t.entries@.len() == 512
    &&& t.children@.len() == 512
    &&& entry_addr_ok(t.frame)
    &&& if level == 1 {
        forall|i: int| 0 <= i < 512 ==> (#[trigger] t.children@[i]) is None
    } else {
        forall|i: int|
            0 <= i < 512 ==> match #[trigger] t.children@[i] {
                Some(c) => {
                    &&& present(t.entries@[i])
                    &&& c.frame == t.entries@[i].raw & ENTRY_ADDR_MASK
                    &&& t.entries@[i].raw & ENTRY_FLAGS_MASK == MAP_FLAGS
                    &&& wf_at(*c, (level - 1) as nat)
                },
                None => !present(t.entries@[i]),
            }
    }
}

/// Number of tables in the tree of table `t` of the given level: the table
/// itself and the tables below it.
pub closed spec fn table_count(t: PageTable, level: nat) -> nat
    decreases level, 0nat,
{
    if level <= 1 {
        1
    } else {
        1 + children_count(t.children@, (level - 1) as nat, 512)
    }
}

/// Number of tables in the trees of the first `n` children, each of the
/// given level.
pub closed spec fn children_count(cs: Seq<Option<Box<PageTable>>>, level: nat, n: nat) -> nat
    decreases level, n,
{
    if n == 0 {
        0
    } else {
        children_count(cs, level, (n - 1) as nat) + match cs[n - 1] {
            Some(c) => table_count(*c, level),
            None => 0,
        }
    }
}

proof fn lemma_children_count_none(cs: Seq<Option<Box<PageTable>>>, level: nat, n: nat)
    requires
        n <= cs.len(),
        forall|i: int| 0 <= i < n ==> (#[trigger] cs[i]) is None,
    ensures
        children_count(cs, level, n) == 0,
    decreases n,
{
    if n > 0 {
        lemma_children_count_none(cs, level, (n - 1) as nat);
    }
}

/// The count of the children changes by what the count of the replaced
/// child changes.
proof fn lemma_children_count_update(cs: Seq<Option<Box<PageTable>>>, level: nat, n: nat, i: int, x: Option<Box<PageTable>>)
    requires
        0 <= i < n <= cs.len(),
    ensures
        children_count(cs.update(i, x), level, n) + match cs[i] {
            Some(c) => table_count(*c, level),
            None => 0,
        } == children_count(cs, level, n) + match x {
            Some(c) => table_count(*c, level),
            None => 0,
        },
    decreases n,
{
    if n - 1 > i {
        lemma_children_count_update(cs, level, (n - 1) as nat, i, x);
    } else {
        assert forall|j: int| 0 <= j < n - 1 implies #[trigger] cs.update(i, x)[j] == cs[j] by {}
        lemma_children_count_same(cs.update(i, x), cs, level, (n - 1) as nat);
    }
}

proof fn lemma_children_count_same(a: Seq<Option<Box<PageTable>>>, b: Seq<Option<Box<PageTable>>>, level: nat, n: nat)
    requires
        n <= a.len(),
        n <= b.len(),
        forall|j: int| 0 <= j < n ==> #[trigger] a[j] == b[j],
    ensures
        children_count(a, level, n) == children_count(b, level, n),
    decreases n,
{
    if n > 0 {
        lemma_children_count_same(a, b, level, (n - 1) as nat);
    }
}

/// The frames that a mapping took from the allocator (the free list shrank
/// from `old_len` to `new_len` frames) went to the tables it created, and,
/// unless the mapping is an identity mapping, to the `r` pages it mapped: no
/// frame was taken for anything else.
pub open spec fn frames_used(old_len: nat, new_len: nat, old_t: PageTable, new_t: PageTable, level: nat, identity: bool, r: nat) -> bool {
    old_len + table_count(old_t, level) == new_len + table_count(new_t, level) + (if identity { 0 } else { r })
}

/// The raw entry at index `i` of table `t`.
pub closed spec fn entry_at(t: PageTable, i: int) -> u64 {
    t.entries@[i].raw
}

/// Number of entries of table `t`.
pub closed spec fn num_entries(t: PageTable) -> nat {
    t.entries@.len()
}

/// Number of child slots of table `t`.
pub closed spec fn num_children(t: PageTable) -> nat {
    t.children@.len()
}

/// The table below the entry at index `i` of table `t`, if there is one.
pub closed spec fn child_at(t: PageTable, i: int) -> Option<PageTable> {
    match t.children@[i] {
        Some(c) => Some(*c),
        None => None,
    }
}

/// Every entry in the tree of table `t` (of the given level) that refers to a
/// table below it carries the flags `MAP_FLAGS` (present, writeable, user
/// accessible) and no other.
pub open spec fn path_flags_ok(t: PageTable, level: nat) -> bool
    decreases level,
{
    level > 1 ==> forall|i: int|
        0 <= i < 512 ==> match #[trigger] child_at(t, i) {
            Some(c) => entry_at(t, i) & ENTRY_FLAGS_MASK == MAP_FLAGS && path_flags_ok(c, (level - 1) as nat),
            None => true,
        }
}

/// A well-formed tree has the flags `MAP_FLAGS` on every entry that refers to
/// a table below it.
pub proof fn lemma_wf_path_flags(t: PageTable, level: nat)
    requires
        wf_at(t, level),
    ensures
        path_flags_ok(t, level),
        num_entries(t) == 512,
        num_children(t) == 512,
    decreases level,
{
    if level > 1 {
        assert forall|i: int| 0 <= i < 512 implies match #[trigger] child_at(t, i) {
            Some(c) => entry_at(t, i) & ENTRY_FLAGS_MASK == MAP_FLAGS && path_flags_ok(c, (level - 1) as nat),
            None => true,
        } by {
            match t.children@[i] {
                Some(c) => {
                    lemma_wf_path_flags(*c, (level - 1) as nat);
                },
                None => {},
            }
        }
    }
}

/// The leaf entry that translates page `x` of the range covered by table `t`
/// of the given level, if the page is mapped.
pub closed spec fn lookup(t: PageTable, level: nat, x: nat) -> Option<u64>
    decreases level,
{
    if level <= 1 {
        if x < 512 && present(t.entries@[x as int]) {
            Some(t.entries@[x as int].raw)
        } else {
            None
        }
    } else {
        let s = span((level - 1) as nat);
        if x / s < 512 {
            match t.children@[(x / s) as int] {
                Some(c) => lookup(*c, (level - 1) as nat, x % s),
                None => None,
            }
        } else {
            None
        }
    }
}

/// Physical frame of a table.
pub closed spec fn table_frame(t: PageTable) -> u64 {
    t.frame
}

proof fn lemma_span_pos(level: nat)
    ensures
        span(level) >= 1,
    decreases level,
{
    if level > 0 {
        lemma_span_pos((level - 1) as nat);
    }
}

proof fn lemma_span_values()
    ensures
        span(0) == 1,
        span(1) == 512,
        span(2) == 262144,
        span(3) == 134217728,
        span(4) == 68719476736,
{
    reveal_with_fuel(span, 5);
}

/// A freshly cleared table maps nothing.
proof fn lemma_empty_lookup(t: PageTable, level: nat, x: nat)
    requires
        t.entries@.len() == 512,
        t.children@.len() == 512,
        forall|i: int| 0 <= i < 512 ==> !present(#[trigger] t.entries@[i]),
        forall|i: int| 0 <= i < 512 ==> (#[trigger] t.children@[i]) is None,
        level >= 1,
    ensures
        lookup(t, level, x) is None,
{
    if level > 1 {
        let s = span((level - 1) as nat);
        lemma_span_pos((level - 1) as nat);
        if x / s < 512 {
            assert(t.children@[(x / s) as int] is None);
        }
    }
}

/// Splitting page `x` of a table into the entry it falls under and its index
/// inside that entry's range.
proof fn lemma_window(x: int, s: int, i: int, y: int)
    requires
        s > 0,
        0 <= y < s,
        x == i * s + y,
    ensures
        x / s == i,
        x % s == y,
{
    lemma_fundamental_div_mod_converse(x, s, i, y);
}

/// Number of pages covered by one entry of a table of the given level.
fn entry_span(level: usize) -> (r: u64)
    requires
        1 <= level <= 4,
    ensures
        r == span((level - 1) as nat),
{
    proof {
        lemma_span_values();
    }
    if level == 1 {
        1
    } else if level == 2 {
        512
    } else if level == 3 {
        262144
    } else {
        134217728
    }
}

/// The outcome of mapping `n` pages of the range covered by table `new` of the
/// given level, starting at the page of `virt`, when `r` pages were mapped:
/// the pages `[w, w + r)` of the range (where `w` is the position of `virt` in
/// the range) are mapped onto the pages of the same virtual page number
/// (`identity`) or onto some frame, and every other page is translated as
/// before. Fewer pages than requested and than fit in the range are mapped
/// only when the frames ran out.
pub open spec fn map_done(
    old_t: PageTable,
    new_t: PageTable,
    level: nat,
    virt: u64,
    n: nat,
    identity: bool,
    device: bool,
    r: nat,
    out_of_frames: bool,
) -> bool {
    let vp = (virt / 4096) as int;
    let w = vp % (span(level) as int);
    let base = vp - w;
    &&& r <= n
    &&& r <= span(level) - w
    &&& (r < n && r < span(level) - w) ==> out_of_frames
    &&& forall|x: nat| w <= x < w + r ==> maps_page(#[trigger] lookup(new_t, level, x), base + x, identity, device)
    &&& forall|x: nat| !(w <= x < w + r) ==> #[trigger] lookup(new_t, level, x) == lookup(old_t, level, x)
}

/// Position of the page of `virt` in the range covered by a table of the
/// given level.
pub open spec fn window_start(virt: u64, level: nat) -> int {
    ((virt / 4096) as int) % (span(level) as int)
}

/// The leaf entry `e` maps onto one of the frames `pool[lo..hi]`.
pub open spec fn taken_leaf(e: Option<u64>, pool: Seq<u64>, lo: int, hi: int) -> bool {
    exists|j: int| lo <= j < hi && e == Some(pool[j] | MAP_FLAGS)
}

/// Every page of `[w, w + r)` of the range covered by table `t` of the given
/// level is mapped onto one of the frames `pool[lo..hi]`, and, when the pool
/// holds no frame twice, no two of these pages are mapped onto the same frame.
pub open spec fn fresh_leaves(t: PageTable, level: nat, w: int, r: int, pool: Seq<u64>, lo: int, hi: int) -> bool {
    &&& forall|x: nat| w <= x < w + r ==> taken_leaf(#[trigger] lookup(t, level, x), pool, lo, hi)
    &&& pool.no_duplicates() ==> forall|x: nat, y: nat|
        w <= x < w + r && w <= y < w + r && x != y ==> #[trigger] lookup(t, level, x) != #[trigger] lookup(t, level, y)
}

/// A frame taken from the end of a pool without duplicates is no longer in
/// what is left of the pool.
pub proof fn lemma_taken_frame_left_pool(pool: Seq<u64>, lo: int, j: int)
    requires
        pool.no_duplicates(),
        0 <= lo <= j < pool.len(),
    ensures
        !pool.subrange(0, lo).contains(pool[j]),
{
    if pool.subrange(0, lo).contains(pool[j]) {
        let k = choose|k: int| 0 <= k < lo && pool.subrange(0, lo)[k] == pool[j];
        assert(pool[k] == pool[j]);
    }
}

/// Two different frames give two different leaf entries.
proof fn lemma_leaf_injective(a: u64, b: u64)
    requires
        entry_addr_ok(a),
        entry_addr_ok(b),
        a != b,
    ensures
        a | MAP_FLAGS != b | MAP_FLAGS,
{
    assert((a | 7u64) != (b | 7u64)) by (bit_vector)
        requires
            a & !0x000f_ffff_ffff_f000u64 == 0,
            b & !0x000f_ffff_ffff_f000u64 == 0,
            a != b,
    ;
}

/// Leaves taken from `pool[lo1..hi]` are also taken from `pool[lo2..hi]` for `lo2 <= lo1`.
proof fn lemma_fresh_widen(t: PageTable, level: nat, w: int, r: int, pool: Seq<u64>, lo1: int, lo2: int, hi: int)
    requires
        fresh_leaves(t, level, w, r, pool, lo1, hi),
        lo2 <= lo1,
    ensures
        fresh_leaves(t, level, w, r, pool, lo2, hi),
{
    assert forall|x: nat| w <= x < w + r implies taken_leaf(#[trigger] lookup(t, level, x), pool, lo2, hi) by {
        assert(taken_leaf(lookup(t, level, x), pool, lo1, hi));
        let j = choose|j: int| lo1 <= j < hi && lookup(t, level, x) == Some(pool[j] | MAP_FLAGS);
    }
}

/// Mapping page `idx` onto the frame `pool[lo - 1]` extends the pages that
/// are mapped onto frames of `pool[lo..hi]` by one.
proof fn lemma_fresh_step(pre: PageTable, cur: PageTable, level: nat, w: int, idx: int, pool: Seq<u64>, lo: int, hi: int)
    requires
        fresh_leaves(pre, level, w, idx - w, pool, lo, hi),
        0 <= w <= idx,
        1 <= lo <= hi <= pool.len(),
        lookup(cur, level, idx as nat) == Some(pool[lo - 1] | MAP_FLAGS),
        forall|x: nat| x != idx ==> #[trigger] lookup(cur, level, x) == lookup(pre, level, x),
        forall|j: int| 0 <= j < pool.len() ==> entry_addr_ok(#[trigger] pool[j]),
    ensures
        fresh_leaves(cur, level, w, idx + 1 - w, pool, lo - 1, hi),
{
    assert forall|x: nat| w <= x < w + (idx + 1 - w) implies taken_leaf(#[trigger] lookup(cur, level, x), pool, lo - 1, hi) by {
        if x != idx {
            assert(taken_leaf(lookup(pre, level, x), pool, lo, hi));
            let j = choose|j: int| lo <= j < hi && lookup(pre, level, x) == Some(pool[j] | MAP_FLAGS);
        } else {
            assert(lookup(cur, level, x) == Some(pool[lo - 1] | MAP_FLAGS));
        }
    }
    if pool.no_duplicates() {
        assert forall|x: nat, y: nat| w <= x < idx + 1 && w <= y < idx + 1 && x != y implies #[trigger] lookup(cur, level, x)
            != #[trigger] lookup(cur, level, y) by {
            if x != idx && y != idx {
                assert(lookup(pre, level, x) != lookup(pre, level, y));
            } else {
                let z: nat = if x == idx { y } else { x };
                assert(taken_leaf(lookup(pre, level, z), pool, lo, hi));
                let j = choose|j: int| lo <= j < hi && lookup(pre, level, z) == Some(pool[j] | MAP_FLAGS);
                assert(pool[j] != pool[lo - 1]);
                lemma_leaf_injective(pool[j], pool[lo - 1]);
            }
        }
    }
}

/// Pages translated as before stay mapped onto the same frames.
proof fn lemma_fresh_same(pre: PageTable, cur: PageTable, level: nat, w: int, r: int, pool: Seq<u64>, lo: int, hi: int)
    requires
        fresh_leaves(pre, level, w, r, pool, lo, hi),
        forall|x: nat| #[trigger] lookup(cur, level, x) == lookup(pre, level, x),
    ensures
        fresh_leaves(cur, level, w, r, pool, lo, hi),
{
    assert forall|x: nat| w <= x < w + r implies taken_leaf(#[trigger] lookup(cur, level, x), pool, lo, hi) by {
        assert(lookup(cur, level, x) == lookup(pre, level, x));
    }
    if pool.no_duplicates() {
        assert forall|x: nat, y: nat| w <= x < w + r && w <= y < w + r && x != y implies #[trigger] lookup(cur, level, x)
            != #[trigger] lookup(cur, level, y) by {
            assert(lookup(pre, level, x) != lookup(pre, level, y));
        }
    }
}

/// After a child table mapped `m` pages onto frames of `pool[lo_new..lo_mid]`,
/// the pages mapped so far are mapped onto frames of `pool[lo_new..hi]`.
proof fn lemma_fresh_merge(
    mid: PageTable,
    cur: PageTable,
    child: PageTable,
    level: nat,
    s: int,
    index: int,
    w: int,
    mapped: int,
    m: int,
    cw: int,
    pool: Seq<u64>,
    lo_new: int,
    lo_mid: int,
    hi: int,
)
    requires
        2 <= level,
        s > 0,
        0 <= cw,
        0 <= w,
        mapped >= 0,
        m >= 0,
        w + mapped - cw == index * s,
        0 <= lo_new <= lo_mid <= hi <= pool.len(),
        fresh_leaves(mid, level, w, mapped, pool, lo_mid, hi),
        fresh_leaves(child, (level - 1) as nat, cw, m, pool.subrange(0, lo_mid), lo_new, lo_mid),
        forall|j: int| 0 <= j < pool.len() ==> entry_addr_ok(#[trigger] pool[j]),
        forall|x: nat| !(w + mapped <= x < w + mapped + m) ==> #[trigger] lookup(cur, level, x) == lookup(mid, level, x),
        forall|x: nat| w + mapped <= x < w + mapped + m ==> #[trigger] lookup(cur, level, x) == lookup(child, (level - 1) as nat, (x - index * s) as nat),
    ensures
        fresh_leaves(cur, level, w, mapped + m, pool, lo_new, hi),
{
    let sub = pool.subrange(0, lo_mid);
    assert forall|x: nat| w <= x < w + (mapped + m) implies taken_leaf(#[trigger] lookup(cur, level, x), pool, lo_new, hi) by {
        if x < w + mapped {
            assert(taken_leaf(lookup(mid, level, x), pool, lo_mid, hi));
            let j = choose|j: int| lo_mid <= j < hi && lookup(mid, level, x) == Some(pool[j] | MAP_FLAGS);
        } else {
            let y = (x - index * s) as nat;
            assert(taken_leaf(lookup(child, (level - 1) as nat, y), sub, lo_new, lo_mid));
            let j = choose|j: int| lo_new <= j < lo_mid && lookup(child, (level - 1) as nat, y) == Some(sub[j] | MAP_FLAGS);
            assert(sub[j] == pool[j]);
        }
    }
    if pool.no_duplicates() {
        assert(sub.no_duplicates()) by {
            assert forall|i: int, j: int| 0 <= i < sub.len() && 0 <= j < sub.len() && i != j implies sub[i] != sub[j] by {
                assert(sub[i] == pool[i] && sub[j] == pool[j]);
            }
        }
        assert forall|x: nat, y: nat| w <= x < w + (mapped + m) && w <= y < w + (mapped + m) && x != y implies #[trigger] lookup(cur, level, x)
            != #[trigger] lookup(cur, level, y) by {
            if x < w + mapped && y < w + mapped {
                assert(lookup(mid, level, x) != lookup(mid, level, y));
            } else if x >= w + mapped && y >= w + mapped {
                let xc = (x - index * s) as nat;
                let yc = (y - index * s) as nat;
                assert(lookup(child, (level - 1) as nat, xc) != lookup(child, (level - 1) as nat, yc));
            } else {
                let a: nat = if x < w + mapped { x } else { y };
                let b: nat = if x < w + mapped { y } else { x };
                assert(taken_leaf(lookup(mid, level, a), pool, lo_mid, hi));
                let ja = choose|j: int| lo_mid <= j < hi && lookup(mid, level, a) == Some(pool[j] | MAP_FLAGS);
                let bc = (b - index * s) as nat;
                assert(taken_leaf(lookup(child, (level - 1) as nat, bc), sub, lo_new, lo_mid));
                let jb = choose|j: int| lo_new <= j < lo_mid && lookup(child, (level - 1) as nat, bc) == Some(sub[j] | MAP_FLAGS);
                assert(sub[jb] == pool[jb]);
                assert(pool[ja] != pool[jb]);
                lemma_leaf_injective(pool[ja], pool[jb]);
            }
        }
    }
}

/// Frames taken from a prefix of a pool are taken from the pool.
pub proof fn lemma_fresh_prefix_pool(t: PageTable, level: nat, w: int, r: int, pool: Seq<u64>, k: int, lo: int, hi: int)
    requires
        fresh_leaves(t, level, w, r, pool.subrange(0, k), lo, hi),
        0 <= lo <= hi <= k <= pool.len(),
    ensures
        fresh_leaves(t, level, w, r, pool, lo, hi),
{
    let sub = pool.subrange(0, k);
    assert forall|x: nat| w <= x < w + r implies taken_leaf(#[trigger] lookup(t, level, x), pool, lo, hi) by {
        assert(taken_leaf(lookup(t, level, x), sub, lo, hi));
        let j = choose|j: int| lo <= j < hi && lookup(t, level, x) == Some(sub[j] | MAP_FLAGS);
        assert(sub[j] == pool[j]);
    }
    if pool.no_duplicates() {
        assert(sub.no_duplicates()) by {
            assert forall|i: int, j: int| 0 <= i < sub.len() && 0 <= j < sub.len() && i != j implies sub[i] != sub[j] by {
                assert(sub[i] == pool[i] && sub[j] == pool[j]);
            }
        }
    }
}

/// The range of `big` pages (a power of two of at most 2^52) that page `vp`
/// lies in ends inside the 2^52 pages of the address space.
proof fn lemma_window_fits(vp: int, big: int)
    requires
        0 <= vp < 0x10_0000_0000_0000,
        big > 0,
        0x10_0000_0000_0000int % big == 0,
    ensures
        (vp - vp % big) + big <= 0x10_0000_0000_0000,
{
    lemma_fundamental_div_mod(vp, big);
    lemma_fundamental_div_mod(0x10_0000_0000_0000int, big);
    let q = vp / big;
    let k = 0x10_0000_0000_0000int / big;
    vstd::arithmetic::div_mod::lemma_mod_bound(vp, big);
    assert(q < k) by (nonlinear_arith)
        requires
            vp == big * q + vp % big,
            0 <= vp % big,
            vp < 0x10_0000_0000_0000int,
            0x10_0000_0000_0000int == big * k,
            big > 0,
    ;
    assert(big * q + big <= big * k) by (nonlinear_arith)
        requires q < k, big > 0;
}

/// The entry of a table of a level above 1 that page `vp` falls under.
proof fn lemma_index_of_page(vp: int, s: int)
    requires
        vp >= 0,
        s > 0,
    ensures
        (vp / s) % 512 == (vp % (512 * s)) / s,
        (vp - vp % (512 * s)) % s == 0,
        vp % s == (vp % (512 * s)) % s,
{
    vstd::arithmetic::div_mod::lemma_breakdown(vp, s, 512);
    let a = vp % (512 * s);
    let q = (vp / s) % 512;
    let rr = vp % s;
    vstd::arithmetic::div_mod::lemma_mod_bound(vp, s);
    assert(a == s * q + rr);
    assert(a == q * s + rr) by (nonlinear_arith)
        requires a == s * q + rr;
    lemma_fundamental_div_mod_converse(a, s, q, rr);
    lemma_fundamental_div_mod(vp, 512 * s);
    let k = vp / (512 * s);
    assert(vp - a == (k * 512) * s) by (nonlinear_arith)
        requires vp == (512 * s) * k + a;
    vstd::arithmetic::div_mod::lemma_mod_multiples_basic(k * 512, s);
}

/// Where the range of the entry at `index` starts to be mapped, and the page
/// numbers inside it.
proof fn lemma_child_window(vp: int, w: int, base: int, s: int, index: int, mapped: int, i0: int)
    requires
        s > 0,
        vp >= 0,
        mapped >= 0,
        0 <= w,
        base == vp - w,
        base % s == 0,
        vp % s == w % s,
        i0 == w / s,
        (index == i0 && mapped == 0) || w + mapped == index * s,
    ensures
        w + mapped - (vp + mapped) % s == index * s,
        0 <= (vp + mapped) % s < s,
{
    vstd::arithmetic::div_mod::lemma_mod_bound(vp + mapped, s);
    lemma_fundamental_div_mod(w, s);
    lemma_fundamental_div_mod(base, s);
    if index == i0 && mapped == 0 {
        assert(w - w % s == s * (w / s));
        assert(s * i0 == i0 * s) by (nonlinear_arith);
    } else {
        let kb = base / s;
        assert(vp + mapped == (kb + index) * s) by (nonlinear_arith)
            requires
                vp + mapped == base + index * s,
                base == s * kb + 0,
        ;
        vstd::arithmetic::div_mod::lemma_mod_multiples_basic(kb + index, s);
    }
}

/// The table ran out of frames before the range of the entry at `index`:
/// fewer pages are mapped than fit in the range.
proof fn lemma_stop_bound(w: int, s: int, index: int, mapped: int, i0: int)
    requires
        s > 0,
        0 <= w,
        i0 == w / s,
        index < 512,
        (index == i0 && mapped == 0) || w + mapped == index * s,
        w < 512 * s,
    ensures
        mapped < 512 * s - w,
{
    if index == i0 && mapped == 0 {
    } else {
        assert(index * s < 512 * s) by (nonlinear_arith)
            requires index < 512, s > 0;
    }
}

/// After the child table at `index` has been mapped, the pages mapped so far
/// extend by the `m` pages the child mapped, and nothing else changed.
proof fn lemma_step_lookup(
    mid: PageTable,
    cur: PageTable,
    child_pre: PageTable,
    child: PageTable,
    level: nat,
    s: int,
    index: int,
    base: int,
    w: int,
    mapped: int,
    m: int,
    cw: int,
    identity: bool,
    device: bool,
)
    requires
        2 <= level <= 4,
        s == span((level - 1) as nat),
        s > 0,
        0 <= index < 512,
        0 <= w,
        mapped >= 0,
        m >= 0,
        0 <= cw < s,
        w + mapped - cw == index * s,
        mid.children@.len() == 512,
        mid.children@[index] == Some(Box::new(child_pre)),
        cur.children@ == mid.children@.update(index, Some(Box::new(child))),
        m <= s - cw,
        forall|x: nat| w <= x < w + mapped ==> maps_page(#[trigger] lookup(mid, level, x), base + x, identity, device),
        forall|y: nat| cw <= y < cw + m ==> maps_page(#[trigger] lookup(child, (level - 1) as nat, y), base + index * s + y, identity, device),
        forall|y: nat| !(cw <= y < cw + m) ==> #[trigger] lookup(child, (level - 1) as nat, y) == lookup(child_pre, (level - 1) as nat, y),
    ensures
        forall|x: nat| w <= x < w + mapped + m ==> maps_page(#[trigger] lookup(cur, level, x), base + x, identity, device),
        forall|x: nat| !(w <= x < w + mapped + m) ==> #[trigger] lookup(cur, level, x) == lookup(mid, level, x),
        forall|x: nat| !(w + mapped <= x < w + mapped + m) ==> #[trigger] lookup(cur, level, x) == lookup(mid, level, x),
        forall|x: nat| w + mapped <= x < w + mapped + m ==> #[trigger] lookup(cur, level, x) == lookup(child, (level - 1) as nat, (x - index * s) as nat),
{
    assert forall|x: nat| #[trigger] lookup(cur, level, x) == (if (x as int) / s == index {
        lookup(child, (level - 1) as nat, ((x as int) % s) as nat)
    } else {
        lookup(mid, level, x)
    }) by {
        if (x as int) / s < 512 && (x as int) / s != index {
            assert(cur.children@[(x as int) / s] == mid.children@[(x as int) / s]);
        }
    }
    assert forall|x: nat| (x as int) / s == index implies #[trigger] lookup(mid, level, x) == lookup(child_pre, (level - 1) as nat, ((x as int) % s) as nat) by {
    }
    assert forall|x: nat| w <= x < w + mapped + m implies maps_page(#[trigger] lookup(cur, level, x), base + x, identity, device) by {
        lemma_fundamental_div_mod(x as int, s);
        vstd::arithmetic::div_mod::lemma_mod_bound(x as int, s);
        if x >= w + mapped {
            let y = x - index * s;
            lemma_window(x as int, s, index, y);
            assert(lookup(cur, level, x) == lookup(child, (level - 1) as nat, y as nat));
            assert(maps_page(lookup(child, (level - 1) as nat, y as nat), base + index * s + y, identity, device));
        } else {
            if (x as int) / s == index {
                let y = (x as int) % s;
                assert(x == index * s + y) by (nonlinear_arith)
                    requires x == s * ((x as int) / s) + (x as int) % s, (x as int) / s == index, y == (x as int) % s;
                assert(!(cw <= y < cw + m));
            }
        }
    }
    assert forall|x: nat| !(w <= x < w + mapped + m) implies #[trigger] lookup(cur, level, x) == lookup(mid, level, x) by {
        if (x as int) / s == index {
            lemma_fundamental_div_mod(x as int, s);
            let y = (x as int) % s;
            assert(x == index * s + y) by (nonlinear_arith)
                requires x == s * ((x as int) / s) + (x as int) % s, (x as int) / s == index, y == (x as int) % s;
            vstd::arithmetic::div_mod::lemma_mod_bound(x as int, s);
            assert(!(cw <= y < cw + m));
        }
    }
    assert forall|x: nat| !(w + mapped <= x < w + mapped + m) implies #[trigger] lookup(cur, level, x) == lookup(mid, level, x) by {
        if (x as int) / s == index {
            lemma_fundamental_div_mod(x as int, s);
            let y = (x as int) % s;
            assert(x == index * s + y) by (nonlinear_arith)
                requires x == s * ((x as int) / s) + (x as int) % s, (x as int) / s == index, y == (x as int) % s;
            vstd::arithmetic::div_mod::lemma_mod_bound(x as int, s);
            assert(!(cw <= y < cw + m));
        }
    }
    assert forall|x: nat| w + mapped <= x < w + mapped + m implies #[trigger] lookup(cur, level, x) == lookup(child, (level - 1) as nat, (x - index * s) as nat) by {
        let y = x - index * s;
        lemma_window(x as int, s, index, y);
    }
}

impl PageTable {
    /// A cleared page table stored in the page frame `frame`.
    pub fn new(frame: u64) -> (r: PageTable)
        requires
            entry_addr_ok(frame),
        ensures
            forall|l: nat| 1 <= l <= 4 ==> wf_at(r, l),
            forall|l: nat, x: nat| l >= 1 ==> #[trigger] lookup(r, l, x) is None,
            forall|l: nat| l >= 1 ==> #[trigger] table_count(r, l) == 1,
            table_frame(r) == frame,
    {
        let mut entries: Vec<PageTableEntry> = Vec::new();
        let mut children: Vec<Option<Box<PageTable>>> = Vec::new();
        let mut i: usize = 0;
        while i < PAGE_TABLE_ENTRIES
            invariant
                i <= 512,
                entries@.len() == i,
                children@.len() == i,
                forall|j: int| 0 <= j < i ==> (#[trigger] entries@[j]).raw == 0,
                forall|j: int| 0 <= j < i ==> (#[trigger] children@[j]) is None,
            decreases 512 - i,
        {
            entries.push(PageTableEntry { raw: 0 });
            children.push(None);
            i = i + 1;
        }
        let r = PageTable { frame, entries, children };
        proof {
            assert(0u64 & 1 == 0) by (bit_vector);
            assert forall|j: int| 0 <= j < 512 implies !present(#[trigger] r.entries@[j]) by {
                assert(r.entries@[j].raw == 0);
            }
            assert forall|l: nat| 1 <= l <= 4 implies wf_at(r, l) by {
                if l > 1 {
                    assert forall|j: int| 0 <= j < 512 implies match #[trigger] r.children@[j] {
                        Some(c) => {
                            &&& present(r.entries@[j])
                            &&& c.frame == r.entries@[j].raw & ENTRY_ADDR_MASK
                            &&& r.entries@[j].raw & ENTRY_FLAGS_MASK == MAP_FLAGS
                            &&& wf_at(*c, (l - 1) as nat)
                        },
                        None => !present(r.entries@[j]),
                    } by {
                        assert(!present(r.entries@[j]));
                    }
                }
            }
            assert forall|l: nat, x: nat| l >= 1 implies #[trigger] lookup(r, l, x) is None by {
                lemma_empty_lookup(r, l, x);
            }
            assert forall|l: nat| l >= 1 implies #[trigger] table_count(r, l) == 1 by {
                if l > 1 {
                    lemma_children_count_none(r.children@, (l - 1) as nat, 512);
                }
            }
        }
        r
    }

    /// Map `num_pages` pages of the range covered by this table of level 1,
    /// starting at `virt_addr`, writing one leaf entry per page.
    fn map_leaves(&mut self, virt_addr: u64, num_pages: usize, identity: bool, device: bool, frames: &mut FrameAllocator) -> (r: usize)
        requires
            wf_at(*old(self), 1),
            virt_addr % 4096 == 0,
            old(frames).wf(),
        ensures
            wf_at(*final(self), 1),
            table_frame(*final(self)) == table_frame(*old(self)),
            final(frames).wf(),
            final(frames).frames().len() <= old(frames).frames().len(),
            final(frames).frames() == old(frames).frames().subrange(0, final(frames).frames().len() as int),
            map_done(*old(self), *final(self), 1, virt_addr, num_pages as nat, identity, device, r as nat, final(frames).frames().len() == 0),
            !identity && !device ==> fresh_leaves(*final(self), 1, window_start(virt_addr, 1), r as int, old(frames).frames(),
                final(frames).frames().len() as int, old(frames).frames().len() as int),
            frames_used(old(frames).frames().len(), final(frames).frames().len(), *old(self), *final(self), 1, identity, r as nat),
    {
        proof {
            lemma_span_values();
            assert(entry_flags_ok(7)) by (bit_vector);
        }
        let base_flags = if identity { PageFlags::kernel_flags() } else { PageFlags::user_flags() };
        let flags = if device {
            PageFlags::from_bits_truncate(base_flags.bits() | PageFlags::CACHE_DISABLE)
        } else {
            base_flags
        };
        proof {
            assert((7u64 | 16u64) & 0x1ffu64 == 23u64) by (bit_vector);
        }
        let ghost vp = (virt_addr / 4096) as int;
        let ghost w = vp % 512;
        let ghost base = vp - w;
        proof {
            lemma_window_fits(vp, 512);
            lemma_fundamental_div_mod(virt_addr as int, 4096);
        }
        let mut index: usize = ((virt_addr / 4096) % 512) as usize;
        let mut mapped: usize = 0;
        let mut stop = false;
        while index < PAGE_TABLE_ENTRIES && mapped < num_pages && !stop
            invariant
                0 <= w < 512,
                vp == virt_addr / 4096,
                base == vp - w,
                virt_addr % 4096 == 0,
                virt_addr == (base + w) * 4096,
                (base + 512) * 4096 <= 0x1_0000_0000_0000_0000,
                index == w + mapped,
                index <= 512,
                mapped <= num_pages,
                flags.bits == leaf_flags(device),
                wf_at(*self, 1),
                self.frame == old(self).frame,
                self.children == old(self).children,
                frames.wf(),
                old(frames).wf(),
                frames.frames().len() <= old(frames).frames().len(),
                frames.frames() == old(frames).frames().subrange(0, frames.frames().len() as int),
                !identity && !device ==> fresh_leaves(*self, 1, w, index - w, old(frames).frames(), frames.frames().len() as int,
                    old(frames).frames().len() as int),
                stop ==> frames.frames().len() == 0,
                old(frames).frames().len() == frames.frames().len() + (if identity { 0 } else { mapped as nat }),
                forall|x: nat| w <= x < index ==> maps_page(#[trigger] lookup(*self, 1, x), base + x, identity, device),
                forall|x: nat| !(w <= x < index) ==> #[trigger] lookup(*self, 1, x) == lookup(*old(self), 1, x),
            decreases 512 - index, (if stop { 0int } else { 1int }),
        {
            let ghost frames_pre = frames.frames();
            assert(virt_addr + mapped * 4096 < 0x1_0000_0000_0000_0000);
            let virt: u64 = virt_addr + (mapped as u64) * 4096;
            let phys: Option<u64> = if identity { Some(virt) } else { frames.alloc_frame() };
            match phys {
                Some(p) => {
                    let entry = PageTableEntry::new(PhysAddr::new(p), flags);
                    let ghost pre = *self;
                    self.entries.set(index, entry);
                    proof {
                        let fb = flags.bits;
                        assert(entry.raw == p | fb);
                        assert((p | fb) & 1u64 == 1u64) by (bit_vector)
                            requires
                                fb == 7u64 || fb == 23u64,
                        ;
                        assert(present(entry));
                        assert(lookup(*self, 1, index as nat) == Some(entry.raw));
                        if identity {
                            assert(virt == (base + index) * 4096);
                            assert(entry.raw == identity_leaf(base + index, device));
                        } else {
                            assert(frame_leaf(entry.raw, device));
                        }
                        assert forall|x: nat| x != index implies #[trigger] lookup(*self, 1, x) == lookup(pre, 1, x) by {
                            if x < 512 {
                                assert(self.entries@[x as int] == pre.entries@[x as int]);
                            }
                        }
                        assert forall|i: int| 0 <= i < 512 implies (#[trigger] self.children@[i]) is None by {
                            assert(self.children@[i] == pre.children@[i]);
                        }
                        if !identity && !device {
                            let lo = frames_pre.len() as int;
                            assert(p == old(frames).frames()[lo - 1]);
                            assert(frames.frames() =~= old(frames).frames().subrange(0, frames.frames().len() as int));
                            lemma_fresh_step(pre, *self, 1, w, index as int, old(frames).frames(), lo,
                                old(frames).frames().len() as int);
                        }
                    }
                    mapped = mapped + 1;
                    index = index + 1;
                },
                None => {
                    stop = true;
                },
            }
        }
        mapped
    }

    /// Map `num_pages` pages of the range covered by this table of the given
    /// level, starting at the page of `virt_addr`, up to the end of the range.
    /// With `identity` every page is mapped onto the physical page of the same
    /// address; otherwise each page gets a new frame, taken from the frame
    /// allocator, and no two pages get the same one. With `device` the leaf
    /// entries also disable caching (device memory). Missing tables of lower
    /// levels are created from new frames. Returns the number of pages mapped,
    /// which is less than both the request and the rest of the range only when
    /// the frames ran out.
    #[verifier::rlimit(40)]
    pub fn map(&mut self, virt_addr: u64, num_pages: usize, level: usize, identity: bool, device: bool, frames: &mut FrameAllocator) -> (r: usize)
        requires
            1 <= level <= 4,
            wf_at(*old(self), level as nat),
            virt_addr % 4096 == 0,
            old(frames).wf(),
        ensures
            wf_at(*final(self), level as nat),
            table_frame(*final(self)) == table_frame(*old(self)),
            final(frames).wf(),
            final(frames).frames().len() <= old(frames).frames().len(),
            final(frames).frames() == old(frames).frames().subrange(0, final(frames).frames().len() as int),
            map_done(*old(self), *final(self), level as nat, virt_addr, num_pages as nat, identity, device, r as nat, final(frames).frames().len() == 0),
            !identity && !device ==> fresh_leaves(*final(self), level as nat, window_start(virt_addr, level as nat), r as int,
                old(frames).frames(), final(frames).frames().len() as int, old(frames).frames().len() as int),
            frames_used(old(frames).frames().len(), final(frames).frames().len(), *old(self), *final(self), level as nat, identity, r as nat),
            path_flags_ok(*final(self), level as nat),
        decreases level,
    {
        if level == 1 {
            proof {
                lemma_span_values();
            }
            return self.map_leaves(virt_addr, num_pages, identity, device, frames);
        }
        proof {
            lemma_span_values();
            assert(entry_flags_ok(7)) by (bit_vector);
        }
        let flags = if identity { PageFlags::kernel_flags() } else { PageFlags::user_flags() };
        let es = entry_span(level);
        let ghost s = es as int;
        let ghost big = span(level as nat) as int;
        let ghost vp = (virt_addr / 4096) as int;
        let ghost w = vp % big;
        let ghost base = vp - w;
        let ghost i0 = w / s;
        proof {
            assert(big == 512 * s);
            lemma_index_of_page(vp, s);
            vstd::arithmetic::div_mod::lemma_mod_bound(vp, big);
            vstd::arithmetic::div_mod::lemma_div_is_ordered(w, big - 1, s);
            assert((big - 1) / s == 511) by {
                lemma_fundamental_div_mod_converse(big - 1, s, 511, s - 1);
            }
        }
        let mut index: usize = (((virt_addr / 4096) / es) % 512) as usize;
        let mut mapped: usize = 0;
        let mut stop = false;
        proof {
            assert(0x10_0000_0000_0000int % big == 0) by {
                lemma_span_values();
                assert(0x10_0000_0000_0000int % 262144 == 0);
                assert(0x10_0000_0000_0000int % 134217728 == 0);
                assert(0x10_0000_0000_0000int % 68719476736 == 0);
            }
            lemma_window_fits(vp, big);
            lemma_fundamental_div_mod(virt_addr as int, 4096);
        }
        while index < PAGE_TABLE_ENTRIES && mapped < num_pages && !stop
            invariant
                2 <= level <= 4,
                es == s,
                s == span((level - 1) as nat),
                s > 0,
                big == 512 * s,
                big == span(level as nat),
                vp == virt_addr / 4096,
                w == vp % big,
                base == vp - w,
                base % s == 0,
                vp % s == w % s,
                i0 == w / s,
                i0 < 512,
                mapped <= big - w,
                0 <= w < big,
                virt_addr % 4096 == 0,
                virt_addr == (base + w) * 4096,
                (base + big) * 4096 <= 0x1_0000_0000_0000_0000,
                i0 <= index <= 512,
                stop || mapped == num_pages || (index == i0 && mapped == 0) || w + mapped == index * s,
                mapped <= num_pages,
                flags.bits == 7,
                wf_at(*self, level as nat),
                self.frame == old(self).frame,
                frames.wf(),
                old(frames).wf(),
                frames.frames().len() <= old(frames).frames().len(),
                frames.frames() == old(frames).frames().subrange(0, frames.frames().len() as int),
                !identity && !device ==> fresh_leaves(*self, level as nat, w, mapped as int, old(frames).frames(),
                    frames.frames().len() as int, old(frames).frames().len() as int),
                stop ==> frames.frames().len() == 0 && mapped < big - w,
                frames_used(old(frames).frames().len(), frames.frames().len(), *old(self), *self, level as nat, identity, mapped as nat),
                forall|x: nat| w <= x < w + mapped ==> maps_page(#[trigger] lookup(*self, level as nat, x), base + x, identity, device),
                forall|x: nat| !(w <= x < w + mapped) ==> #[trigger] lookup(*self, level as nat, x) == lookup(*old(self), level as nat, x),
            decreases 512 - index, (if stop { 0int } else { 1int }),
        {
            let ghost pre = *self;
            let ghost frames_pre = frames.frames();
            let mut ok = true;
            if !self.entries[index].is_present() {
                match frames.alloc_frame() {
                    Some(f) => {
                        let table = PageTable::new(f);
                        self.entries.set(index, PageTableEntry::new(PhysAddr::new(f), flags));
                        self.children.set(index, Some(Box::new(table)));
                        proof {
                            lemma_children_count_update(pre.children@, (level - 1) as nat, 512, index as int, Some(Box::new(table)));
                            assert(self.children@ == pre.children@.update(index as int, Some(Box::new(table))));
                            assert(table_count(table, (level - 1) as nat) == 1);
                            assert(table_count(*self, level as nat) == table_count(pre, level as nat) + 1);
                            assert(entry_flags_ok(7)) by (bit_vector);
                            lemma_entry_roundtrip(f, 7);
                            assert((f | 7u64) & 1u64 == 1u64) by (bit_vector);
                            assert(wf_at(table, (level - 1) as nat));
                            assert forall|x: nat| (x as int) / s == index implies #[trigger] lookup(*self, level as nat, x) == lookup(pre, level as nat, x) by {
                                assert(pre.children@[index as int] is None);
                                assert(lookup(table, (level - 1) as nat, ((x as int) % s) as nat) is None);
                            }
                            assert forall|x: nat| (x as int) / s != index implies #[trigger] lookup(*self, level as nat, x) == lookup(pre, level as nat, x) by {
                                if (x as int) / s < 512 {
                                    assert(self.children@[(x as int) / s] == pre.children@[(x as int) / s]);
                                }
                            }
                            assert forall|i: int| 0 <= i < 512 implies match #[trigger] self.children@[i] {
                                Some(c) => {
                                    &&& present(self.entries@[i])
                                    &&& c.frame == self.entries@[i].raw & ENTRY_ADDR_MASK
                            &&& self.entries@[i].raw & ENTRY_FLAGS_MASK == MAP_FLAGS
                                    &&& self.entries@[i].raw & ENTRY_FLAGS_MASK == MAP_FLAGS
                                    &&& wf_at(*c, (level - 1) as nat)
                                },
                                None => !present(self.entries@[i]),
                            } by {
                                if i != index {
                                    assert(self.children@[i] == pre.children@[i]);
                                    assert(self.entries@[i] == pre.entries@[i]);
                                }
                            }
                            assert(frames.frames() =~= old(frames).frames().subrange(0, frames.frames().len() as int));
                            if !identity && !device {
                                assert forall|x: nat| #[trigger] lookup(*self, level as nat, x) == lookup(pre, level as nat, x) by {
                                    if (x as int) / s == index {
                                        assert(lookup(*self, level as nat, x) == lookup(pre, level as nat, x));
                                    } else {
                                        assert(lookup(*self, level as nat, x) == lookup(pre, level as nat, x));
                                    }
                                }
                                lemma_fresh_same(pre, *self, level as nat, w, mapped as int, old(frames).frames(),
                                    frames_pre.len() as int, old(frames).frames().len() as int);
                                lemma_fresh_widen(*self, level as nat, w, mapped as int, old(frames).frames(),
                                    frames_pre.len() as int, frames.frames().len() as int, old(frames).frames().len() as int);
                            }
                        }
                    },
                    None => {
                        ok = false;
                    },
                }
            }
            if ok {
                let ghost mid = *self;
                proof {
                    assert(mid.children@[index as int] is Some);
                    if !(index == i0 && mapped == 0) {
                        assert(index * s < 512 * s) by (nonlinear_arith)
                            requires index < 512, s > 0;
                    }
                    assert(virt_addr + mapped * 4096 < 0x1_0000_0000_0000_0000);
                }
                let virt: u64 = virt_addr + (mapped as u64) * 4096;
                let slot = self.children.remove(index);
                let mut child: PageTable = *slot.unwrap();
                let ghost child_pre = child;
                let ghost cw = ((vp + mapped) % s) as int;
                proof {
                    assert(wf_at(child, (level - 1) as nat));
                    lemma_child_window(vp, w, base, s, index as int, mapped as int, i0);
                    lemma_fundamental_div_mod(virt_addr as int, 4096);
                    lemma_fundamental_div_mod_converse(virt as int, 4096, vp + mapped, 0);
                    assert(virt / 4096 == vp + mapped);
                    if !(index == i0 && mapped == 0) {
                        assert(index * s + s <= 512 * s) by (nonlinear_arith)
                            requires index < 512, s > 0;
                    }
                    assert(mapped + s <= big);
                }
                let child_room: u64 = es - (virt / 4096) % es;
                let remaining: usize = num_pages - mapped;
                let ghost lo_mid = frames.frames().len() as int;
                let m = child.map(virt, remaining, level - 1, identity, device, frames);
                self.children.insert(index, Some(Box::new(child)));
                proof {
                    assert(self.children@ =~= mid.children@.update(index as int, Some(Box::new(child))));
                    assert(child_room == s - cw);
                    assert forall|i: int| 0 <= i < 512 implies match #[trigger] self.children@[i] {
                        Some(c) => {
                            &&& present(self.entries@[i])
                            &&& c.frame == self.entries@[i].raw & ENTRY_ADDR_MASK
                            &&& self.entries@[i].raw & ENTRY_FLAGS_MASK == MAP_FLAGS
                            &&& wf_at(*c, (level - 1) as nat)
                        },
                        None => !present(self.entries@[i]),
                    } by {
                        if i != index {
                            assert(self.children@[i] == mid.children@[i]);
                        }
                    }
                    assert(base + index * s == (vp + mapped) - cw);
                    lemma_step_lookup(mid, *self, child_pre, child, level as nat, s, index as int, base, w, mapped as int, m as int, cw, identity, device);
                    lemma_children_count_update(mid.children@, (level - 1) as nat, 512, index as int, Some(Box::new(child)));
                    assert(table_count(*self, level as nat) + table_count(child_pre, (level - 1) as nat)
                        == table_count(mid, level as nat) + table_count(child, (level - 1) as nat));
                    let orig = old(frames).frames();
                    assert(frames.frames() =~= orig.subrange(0, frames.frames().len() as int));
                    if !identity && !device {
                        assert(window_start(virt, (level - 1) as nat) == cw);
                        lemma_fresh_merge(mid, *self, child, level as nat, s, index as int, w, mapped as int, m as int, cw,
                            orig, frames.frames().len() as int, lo_mid, orig.len() as int);
                    }
                }
                proof {
                    assert(w + mapped + (s - cw) == (index + 1) * s) by (nonlinear_arith)
                        requires w + mapped - cw == index * s;
                    assert((index + 1) * s <= 512 * s) by (nonlinear_arith)
                        requires index < 512, s > 0;
                }
                mapped = mapped + m;
                if (m as u64) < child_room && m < remaining {
                    stop = true;
                }
            } else {
                stop = true;
                proof {
                    lemma_stop_bound(w, s, index as int, mapped as int, i0);
                }
            }
            index = index + 1;
        }
        proof {
            if index == 512 && !stop && mapped < num_pages {
                assert(w + mapped == 512 * s);
            }
            lemma_wf_path_flags(*self, level as nat);
        }
        mapped
    }

    /// Walk the tables from this one, of the given level, down to the leaf
    /// entry that translates page `page` of the range it covers.
    pub fn translate(&self, level: usize, page: u64) -> (r: Option<u64>)
        requires
            1 <= level <= 4,
            wf_at(*self, level as nat),
        ensures
            r == lookup(*self, level as nat, page as nat),
        decreases level,
    {
        let s = entry_span(level);
        proof {
            lemma_span_pos((level - 1) as nat);
        }
        let i = page / s;
        if i >= 512 {
            return None;
        }
        let i = i as usize;
        if level == 1 {
            let e = self.entries[i];
            assert(page as nat / 1 == page as nat);
            assert(e == self.entries@[page as int]);
            if e.is_present() {
                Some(e.raw)
            } else {
                None
            }
        } else {
            match &self.children[i] {
                Some(c) => {
                    assert(wf_at(**c, (level - 1) as nat));
                    let r = c.translate(level - 1, page % s);
                    assert(r == lookup(*self, level as nat, page as nat));
                    r
                },
                None => None,
            }
        }
    }

    /// The entries of this table, to be written into its frame.
    pub fn entries(&self) -> (r: &Vec<PageTableEntry>)
        ensures
            r@.len() == num_entries(*self),
            forall|i: int| 0 <= i < r@.len() ==> #[trigger] r@[i].raw == entry_at(*self, i),
    {
        &self.entries
    }

    /// The table below the entry at index `i`, if there is one.
    pub fn child(&self, i: usize) -> (r: Option<&PageTable>)
        ensures
            i < num_children(*self) ==> match child_at(*self, i as int) {
                Some(c) => r matches Some(p) && *p == c,
                None => r is None,
            },
            i >= num_children(*self) ==> r is None,
    {
        if i < self.children.len() {
            match &self.children[i] {
                Some(c) => Some(&**c),
                None => None,
            }
        } else {
            None
        }
    }

    /// Get the start address of this page table.
    pub fn as_phys_addr(&self) -> (r: PhysAddr)
        ensures
            r.raw == table_frame(*self),
    {
        PhysAddr::new(self.frame)
    }
}

/// Pages `[0, k)` of the address space of `t` are mapped onto the physical
/// pages with the same numbers, and no other page is mapped.
pub open spec fn identity_prefix(t: PageTable, k: nat) -> bool {
    forall|x: nat|
        #![trigger lookup(t, 4, x)]
        (x < k ==> lookup(t, 4, x) == Some(identity_leaf(x as int, false))) && (x >= k ==> lookup(t, 4, x) is None)
}

/// Create a new Page Map Level 4 (PML4) from a free frame and identity map the
/// physical memory up to the highest address handed to the frame allocator into it, page by page. Fewer pages
/// are mapped only when the frames run out.
pub fn create_kernel_mapping(frames: &mut FrameAllocator) -> (r: PageTable)
    requires
        old(frames).wf(),
        old(frames).frames().len() > 0,
        old(frames).spec_max_addr() + 4096 <= usize::MAX,
    ensures
        wf_at(r, 4),
        table_frame(r) == old(frames).frames().last(),
        final(frames).wf(),
        final(frames).frames().len() < old(frames).frames().len(),
        final(frames).frames() == old(frames).frames().subrange(0, final(frames).frames().len() as int),
        old(frames).frames().len() == final(frames).frames().len() + table_count(r, 4),
        path_flags_ok(r, 4),
        exists|k: nat|
            {
                let n = (old(frames).spec_max_addr() + 4095) / 4096;
                &&& k <= n
                &&& (k < n ==> k == span(4) || final(frames).frames().len() == 0)
                &&& #[trigger] identity_prefix(r, k)
            },
{
    let max_phys_addr = frames.max_phys_addr().raw();
    let num_pages: usize = ((max_phys_addr as usize) + PAGE_SIZE - 1) / PAGE_SIZE;
    let ghost orig = frames.frames();
    let frame = frames.alloc_frame().unwrap();
    let mut pml4 = PageTable::new(frame);
    proof {
        lemma_span_values();
    }
    let ghost fresh = pml4;
    let k = pml4.map(0, num_pages, 4, true, false, frames);
    proof {
        assert(frames.frames() =~= orig.subrange(0, frames.frames().len() as int));
        assert forall|x: nat| #![trigger lookup(pml4, 4, x)]
            (x < k ==> lookup(pml4, 4, x) == Some(identity_leaf(x as int, false))) && (x >= k ==> lookup(pml4, 4, x) is None) by {
            assert(lookup(fresh, 4, x) is None);
        }
        assert(identity_prefix(pml4, k as nat));
    }
    pml4
}

/// Identity map the framebuffer into the address space of `pml4_table`: all
/// pages that hold a byte of it, as device memory that is not cached. Returns
/// the number of pages mapped.
pub fn map_framebuffer(pml4_table: &mut PageTable, framebuffer: &Framebuffer, frames: &mut FrameAllocator) -> (r: usize)
    requires
        wf_at(*old(pml4_table), 4),
        old(frames).wf(),
        framebuffer.address % 4096 == 0,
        framebuffer.pitch * framebuffer.height + 4096 <= usize::MAX,
    ensures
        wf_at(*final(pml4_table), 4),
        table_frame(*final(pml4_table)) == table_frame(*old(pml4_table)),
        final(frames).wf(),
        final(frames).frames().len() <= old(frames).frames().len(),
        final(frames).frames() == old(frames).frames().subrange(0, final(frames).frames().len() as int),
        map_done(
            *old(pml4_table),
            *final(pml4_table),
            4,
            framebuffer.address,
            ((framebuffer.pitch * framebuffer.height + 4095) / 4096) as nat,
            true,
            true,
            r as nat,
            final(frames).frames().len() == 0,
        ),
        frames_used(old(frames).frames().len(), final(frames).frames().len(), *old(pml4_table), *final(pml4_table), 4, true, r as nat),
        path_flags_ok(*final(pml4_table), 4),
{
    let num_pages = (framebuffer.size_in_bytes() + PAGE_SIZE - 1) / PAGE_SIZE;
    pml4_table.map(framebuffer.address(), num_pages, 4, true, true, frames)
}

/// Number of pages of a user stack.
pub const USER_STACK_PAGES: usize = 128;

/// Map the user stack, `[USER_STACK_VIRT_START, USER_STACK_VIRT_START + STACK_SIZE)`,
/// into the address space of `pml4_table`, each page onto a new frame.
/// Returns the number of pages mapped.
pub fn map_user_stack(pml4_table: &mut PageTable, frames: &mut FrameAllocator) -> (r: usize)
    requires
        wf_at(*old(pml4_table), 4),
        old(frames).wf(),
    ensures
        wf_at(*final(pml4_table), 4),
        table_frame(*final(pml4_table)) == table_frame(*old(pml4_table)),
        final(frames).wf(),
        final(frames).frames().len() <= old(frames).frames().len(),
        final(frames).frames() == old(frames).frames().subrange(0, final(frames).frames().len() as int),
        map_done(*old(pml4_table), *final(pml4_table), 4, USER_STACK_VIRT_START, USER_STACK_PAGES as nat, false, false, r as nat, final(frames).frames().len() == 0),
        fresh_leaves(*final(pml4_table), 4, window_start(USER_STACK_VIRT_START, 4), r as int, old(frames).frames(),
            final(frames).frames().len() as int, old(frames).frames().len() as int),
        frames_used(old(frames).frames().len(), final(frames).frames().len(), *old(pml4_table), *final(pml4_table), 4, false, r as nat),
        path_flags_ok(*final(pml4_table), 4),
{
    proof {
        lemma_span_values();
    }
    pml4_table.map(USER_STACK_VIRT_START, USER_STACK_PAGES, 4, false, false, frames)
}

/// The user stack is a whole number of pages.
pub proof fn lemma_user_stack_pages()
    ensures
        USER_STACK_PAGES * crate::consts::PAGE_SIZE == crate::consts::STACK_SIZE,
{
}

} // verus!
