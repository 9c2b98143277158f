//! Processes and the virtual memory areas of their address spaces.
use vstd::prelude::*;
use crate::paging::PageTable;

verus! {

/// What a virtual memory area holds.
#[derive(Clone, Copy, Debug, PartialEq, Eq, Structural)]
pub enum VmaType {
    Code,
    Heap,
    Stack,
    Framebuffer,
}

/// A virtual memory area: the addresses `[start, end)` of an address space.
#[derive(Clone, Copy, Debug)]
pub struct VMA {
    pub start: u64,
    pub end: u64,
    pub typ: VmaType,
}

/// Two address ranges `[a_start, a_end)` and `[b_start, b_end)` share an address.
pub open spec fn ranges_overlap(a: VMA, b: VMA) -> bool {
    a.start < b.end && b.start < a.end
}

/// The address `x` lies in the area.
pub open spec fn in_area(a: VMA, x: int) -> bool {
    a.start <= x < a.end
}

/// Two (non-empty) areas overlap exactly when some address lies in both of
/// them; an area lying inside another one overlaps it.
pub proof fn lemma_overlap_means_shared_address(a: VMA, b: VMA)
    requires
        a.start < a.end,
        b.start < b.end,
    ensures
        ranges_overlap(a, b) <==> exists|x: int| #[trigger] in_area(a, x) && in_area(b, x),
        a.start <= b.start && b.start < b.end && b.end <= a.end ==> ranges_overlap(a, b),
{
    if ranges_overlap(a, b) {
        let x: int = if a.start < b.start { b.start as int } else { a.start as int };
        assert(in_area(a, x) && in_area(b, x));
    }
}

/// No two areas of the sequence overlap.
pub open spec fn vmas_disjoint(vmas: Seq<VMA>) -> bool {
    forall|i: int, j: int|
        0 <= i < vmas.len() && 0 <= j < vmas.len() && i != j ==> !ranges_overlap(
            #[trigger] vmas[i],
            #[trigger] vmas[j],
        )
}

impl VMA {
    /// Create a new VMA with a start and end address and a given type.
    pub fn new(start: u64, end: u64, typ: VmaType) -> (r: VMA)
        ensures
            r.start == start,
            r.end == end,
            r.typ == typ,
    {
        VMA { start, end, typ }
    }

    /// Check if this VMA overlaps with another one.
    pub fn overlaps(&self, other: &VMA) -> (r: bool)
        ensures
            r == ranges_overlap(*self, *other),
    {
        self.start < other.end && other.start < self.end
    }
}

/// Overlapping is symmetric.
pub proof fn lemma_overlap_symmetric(a: VMA, b: VMA)
    ensures
        ranges_overlap(a, b) == ranges_overlap(b, a),
{
}

/// An area overlaps itself exactly when it is not empty.
pub proof fn lemma_overlap_self(a: VMA)
    ensures
        ranges_overlap(a, a) == (a.start < a.end),
{
}

/// Represents a process with a unique ID, a name, its address space and its
/// virtual memory areas.
pub struct Process {
    id: usize,
    name: String,
    address_space: PageTable,
    vmas: Vec<VMA>,
}

impl Process {
    /// The id of the process.
    pub closed spec fn pid(&self) -> usize {
        self.id
    }

    /// The name of the process.
    pub closed spec fn spec_name(&self) -> Seq<char> {
        self.name@
    }

    /// The virtual memory areas of the process.
    pub closed spec fn areas(&self) -> Seq<VMA> {
        self.vmas@
    }

    /// The page tables of the address space of the process.
    pub closed spec fn space(&self) -> PageTable {
        self.address_space
    }

    /// Create a new process with the given id, name and address space and no
    /// virtual memory areas.
    pub fn new(id: usize, name: &str, address_space: PageTable) -> (r: Process)
        ensures
            r.pid() == id,
            r.spec_name() == name@,
            r.areas() == Seq::<VMA>::empty(),
            r.space() == address_space,
    {
        Process { id, name: name.to_owned(), address_space, vmas: Vec::new() }
    }

    /// Get the id of the process.
    pub fn id(&self) -> (r: usize)
        ensures
            r == self.pid(),
    {
        self.id
    }

    /// Get the virtual memory areas of the process.
    pub fn vmas(&self) -> (r: &Vec<VMA>)
        ensures
            r@ == self.areas(),
    {
        &self.vmas
    }

    /// Add a new virtual memory area (VMA) to the process.
    /// It is refused when it overlaps an area the process already has.
    pub fn add_vma(&mut self, vma: VMA) -> (r: Result<(), &'static str>)
        ensures
            final(self).pid() == old(self).pid(),
            final(self).spec_name() == old(self).spec_name(),
            final(self).space() == old(self).space(),
            r is Ok <==> (forall|i: int| 0 <= i < old(self).areas().len() ==> !ranges_overlap(#[trigger] old(self).areas()[i], vma)),
            r is Ok ==> final(self).areas() == old(self).areas().push(vma),
            r is Err ==> final(self).areas() == old(self).areas(),
    {
        let mut i: usize = 0;
        while i < self.vmas.len()
            invariant
                i <= self.vmas@.len(),
                self.vmas@ == old(self).vmas@,
                self.id == old(self).id,
                self.name@ == old(self).name@,
                self.address_space == old(self).address_space,
                forall|j: int| 0 <= j < i ==> !ranges_overlap(#[trigger] self.vmas@[j], vma),
            decreases self.vmas@.len() - i,
        {
            if self.vmas[i].overlaps(&vma) {
                assert(ranges_overlap(old(self).areas()[i as int], vma));
                return Err("VMA overlaps with an existing VMA");
            }
            i = i + 1;
        }
        self.vmas.push(vma);
        Ok(())
    }
}

/// Adding an area keeps the areas of a process pairwise disjoint.
pub proof fn lemma_add_vma_keeps_disjoint(before: Seq<VMA>, vma: VMA)
    requires
        vmas_disjoint(before),
        forall|i: int| 0 <= i < before.len() ==> !ranges_overlap(#[trigger] before[i], vma),
    ensures
        vmas_disjoint(before.push(vma)),
{
    let after = before.push(vma);
    assert forall|i: int, j: int|
        0 <= i < after.len() && 0 <= j < after.len() && i != j implies !ranges_overlap(
        #[trigger] after[i],
        #[trigger] after[j],
    ) by {
        if i == before.len() {
            assert(!ranges_overlap(before[j], vma));
        } else if j == before.len() {
            assert(!ranges_overlap(before[i], vma));
        } else {
            assert(after[i] == before[i] && after[j] == before[j]);
        }
    }
}

/// Index of the process with the given id.
pub open spec fn process_index(processes: Seq<Process>, id: usize, i: int) -> bool {
    &&& 0 <= i < processes.len()
    &&& processes[i].pid() == id
    &&& forall|j: int| 0 <= j < i ==> (#[trigger] processes[j]).pid() != id
}

/// Find the position of the process with the given id.
fn find_process(processes: &Vec<Process>, process_id: usize) -> (r: Option<usize>)
    ensures
        match r {
            Some(i) => process_index(processes@, process_id, i as int),
            None => forall|j: int| 0 <= j < processes@.len() ==> (#[trigger] processes@[j]).pid() != process_id,
        },
{
    let mut i: usize = 0;
    while i < processes.len()
        invariant
            i <= processes@.len(),
            forall|j: int| 0 <= j < i ==> (#[trigger] processes@[j]).pid() != process_id,
        decreases processes@.len() - i,
    {
        if processes[i].id() == process_id {
            return Some(i);
        }
        i = i + 1;
    }
    None
}

/// Add a new virtual memory area (VMA) to the process with the given ID.
/// Returns `Ok` on success or `Err` if the process could not be found or the
/// area overlaps one the process already has.
pub fn add_vma(processes: &mut Vec<Process>, process_id: usize, vma: VMA) -> (r: Result<(), &'static str>)
    ensures
        final(processes)@.len() == old(processes)@.len(),
        (forall|j: int| 0 <= j < old(processes)@.len() ==> (#[trigger] old(processes)@[j]).pid() != process_id) ==> (r is Err && final(processes)@ == old(processes)@),
        forall|i: int| process_index(old(processes)@, process_id, i) ==> {
            &&& (r is Ok <==> forall|k: int| 0 <= k < old(processes)@[i].areas().len() ==> !ranges_overlap(#[trigger] old(processes)@[i].areas()[k], vma))
            &&& final(processes)@[i].pid() == process_id
            &&& final(processes)@[i].spec_name() == old(processes)@[i].spec_name()
            &&& final(processes)@[i].space() == old(processes)@[i].space()
            &&& (r is Ok ==> final(processes)@[i].areas() == old(processes)@[i].areas().push(vma))
            &&& (r is Err ==> final(processes)@[i].areas() == old(processes)@[i].areas())
            &&& forall|j: int| 0 <= j < old(processes)@.len() && j != i ==> #[trigger] final(processes)@[j] == old(processes)@[j]
        },
{
    match find_process(processes, process_id) {
        None => Err("Process not found"),
        Some(i) => {
            let mut p = processes.remove(i);
            let r = p.add_vma(vma);
            processes.insert(i, p);
            proof {
                assert forall|k: int| process_index(old(processes)@, process_id, k) implies k == i as int by {
                    if k < i as int {
                        assert(old(processes)@[k].pid() != process_id);
                    } else if k > i as int {
                        assert(old(processes)@[i as int].pid() != process_id);
                    }
                }
                assert forall|j: int| 0 <= j < old(processes)@.len() && j != i implies #[trigger] processes@[j] == old(processes)@[j] by {
                    if j < i {
                        assert(processes@[j] == old(processes)@[j]);
                    } else {
                        assert(processes@[j] == old(processes)@[j]);
                    }
                }
            }
            r
        },
    }
}

/// The virtual memory areas of the process with the given ID, to be dumped to
/// the log; `None` if there is no such process.
pub fn dump_vmas(processes: &Vec<Process>, process_id: usize) -> (r: Option<&Vec<VMA>>)
    ensures
        match r {
            Some(v) => exists|i: int| process_index(processes@, process_id, i) && v@ == processes@[i].areas(),
            None => forall|j: int| 0 <= j < processes@.len() ==> (#[trigger] processes@[j]).pid() != process_id,
        },
{
    match find_process(processes, process_id) {
        Some(i) => Some(processes[i].vmas()),
        None => None,
    }
}

} // verus!
