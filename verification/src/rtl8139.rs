//! The decisions of the RTL8139 network card demo: finding the card among the
//! devices on the PCI bus, telling from BAR0 how its registers are reached,
//! and where the MAC address registers lie.
use vstd::prelude::*;

verus! {

/// PCI vendor id of Realtek.
pub const RTL8139_VENDOR_ID: u16 = 0x10ec;

/// PCI device id of the RTL8139.
pub const RTL8139_DEVICE_ID: u16 = 0x8139;

/// Number of bytes of a MAC address.
pub const MAC_ADDRESS_LEN: usize = 6;

/// A device with these ids is an RTL8139.
pub fn is_rtl8139(vendor_id: u16, device_id: u16) -> (r: bool)
    ensures
        r == (vendor_id == RTL8139_VENDOR_ID && device_id == RTL8139_DEVICE_ID),
{
    vendor_id == RTL8139_VENDOR_ID && device_id == RTL8139_DEVICE_ID
}

/// The first position in a list of (vendor id, device id) pairs that is an
/// RTL8139, if there is one.
pub fn find_rtl8139(devices: &Vec<(u16, u16)>) -> (r: Option<usize>)
    ensures
        match r {
            Some(i) => i < devices@.len() && devices@[i as int] == (RTL8139_VENDOR_ID, RTL8139_DEVICE_ID)
                && forall|j: int| 0 <= j < i ==> devices@[j] != (RTL8139_VENDOR_ID, RTL8139_DEVICE_ID),
            None => forall|j: int| 0 <= j < devices@.len() ==> devices@[j] != (RTL8139_VENDOR_ID, RTL8139_DEVICE_ID),
        },
{
    let mut i: usize = 0;
    while i < devices.len()
        invariant
            i <= devices@.len(),
            forall|j: int| 0 <= j < i ==> devices@[j] != (RTL8139_VENDOR_ID, RTL8139_DEVICE_ID),
        decreases devices@.len() - i,
    {
        let (vendor_id, device_id) = devices[i];
        if is_rtl8139(vendor_id, device_id) {
            return Some(i);
        }
        i = i + 1;
    }
    None
}

/// Where the registers of a PCI device are reached.
#[derive(Clone, Copy, Debug, PartialEq, Eq, Structural)]
pub enum RegisterBase {
    /// Memory-mapped at this 32-bit address.
    Memory(u32),
    /// Through 16-bit I/O ports starting at this port.
    IoPort(u16),
}

/// Decode BAR0: with bit 0 clear it holds a memory address (its low four
/// bits masked off), with bit 0 set a 16-bit I/O port (its low two bits
/// masked off).
pub fn decode_bar0(bar0: u32) -> (r: RegisterBase)
    ensures
        r == if bar0 & 1 == 0 {
            RegisterBase::Memory(bar0 & 0xffff_fff0)
        } else {
            RegisterBase::IoPort((bar0 & 0xfffc) as u16)
        },
{
    if bar0 & 0x1 == 0 {
        RegisterBase::Memory(bar0 & 0xffff_fff0)
    } else {
        let port = bar0 & 0xfffc;
        assert(port <= 0xffff) by (bit_vector)
            requires
                port == bar0 & 0xfffc,
        ;
        RegisterBase::IoPort(port as u16)
    }
}

/// The I/O ports of the MAC address registers, which lie at offsets 0 to 5
/// from the I/O base.
pub fn mac_address_ports(io_base: u16) -> (r: Vec<u16>)
    requires
        io_base + 5 <= u16::MAX,
    ensures
        r@.len() == MAC_ADDRESS_LEN,
        forall|i: int| 0 <= i < MAC_ADDRESS_LEN ==> r@[i] == io_base + i,
{
    let mut ports: Vec<u16> = Vec::new();
    let mut offset: u16 = 0;
    while offset < 6
        invariant
            offset <= 6,
            io_base + 5 <= u16::MAX,
            ports@.len() == offset,
            forall|i: int| 0 <= i < offset ==> ports@[i] == io_base + i,
        decreases 6 - offset,
    {
        ports.push(io_base + offset);
        offset = offset + 1;
    }
    ports
}

} // verus!
