//! Gate descriptors of the interrupt descriptor table.
use vstd::prelude::*;

verus! {

/// Selector of the kernel code segment in the global descriptor table.
pub const KERNEL_CODE_SELECTOR: u16 = 0x08;

/// Type and attributes of a present 64-bit trap gate with privilege level 3.
pub const TRAP_GATE_DPL3: u8 = 0xef;

/// An entry of the interrupt descriptor table: a 64-bit gate descriptor.
#[derive(Clone, Copy, Debug)]
pub struct IdtEntry {
    pub offset_low: u16,
    pub selector: u16,
    pub ist: u8,
    pub type_attributes: u8,
    pub offset_mid: u16,
    pub offset_high: u32,
    pub reserved: u32,
}

/// The handler address a gate descriptor refers to.
pub open spec fn gate_offset(e: IdtEntry) -> u64 {
    (e.offset_high as u64) << 32u64 | (e.offset_mid as u64) << 16u64 | (e.offset_low as u64)
}

impl IdtEntry {
    /// Create a new IDT entry for a trap gate at the given offset.
    /// This is used for system calls, which should be accessible from user mode (DPL=3).
    pub fn new_trap_gate(offset: u64) -> (r: IdtEntry)
        ensures
            gate_offset(r) == offset,
            r.selector == KERNEL_CODE_SELECTOR,
            r.type_attributes == TRAP_GATE_DPL3,
            r.ist == 0,
            r.reserved == 0,
    {
        let low = (offset & 0xffff) as u16;
        let mid = ((offset >> 16u64) & 0xffff) as u16;
        let high = (offset >> 32u64) as u32;
        let r = IdtEntry {
            offset_low: low,
            selector: KERNEL_CODE_SELECTOR,
            ist: 0,
            type_attributes: TRAP_GATE_DPL3,
            offset_mid: mid,
            offset_high: high,
            reserved: 0,
        };
        assert(((offset >> 32u64) as u32 as u64) << 32u64 | (((offset >> 16u64) & 0xffff) as u16 as u64) << 16u64 | ((offset & 0xffff) as u16 as u64) == offset) by (bit_vector);
        r
    }

    /// Create a new IDT entry for a syscall handler function at address `handler`.
    /// This entry is a trap gate and has DPL=3, so it can be called from user mode.
    pub fn syscall_gate(handler: u64) -> (r: IdtEntry)
        ensures
            gate_offset(r) == handler,
            r.selector == KERNEL_CODE_SELECTOR,
            r.type_attributes == TRAP_GATE_DPL3,
            r.ist == 0,
            r.reserved == 0,
    {
        IdtEntry::new_trap_gate(handler)
    }
}

/// The interface of an Interrupt Service Routine: a device driver that handles
/// interrupts implements it, and `trigger()` is called when its interrupt occurs.
pub trait ISR {
    fn trigger(&self);
}

} // verus!
