//! The serial port, used for kernel output.
use vstd::prelude::*;

verus! {

/// Standardized IO-Port base addresses for the first four COM ports.
/// We usually only use `Com1`.
#[derive(Clone, Copy, Debug, PartialEq, Eq, Structural)]
pub enum ComBaseAddress {
    Com1,
    Com2,
    Com3,
    Com4,
}

impl ComBaseAddress {
    /// The IO-port base address of the COM port.
    pub open spec fn spec_port(self) -> u16 {
        match self {
            ComBaseAddress::Com1 => 0x3f8,
            ComBaseAddress::Com2 => 0x2f8,
            ComBaseAddress::Com3 => 0x3e8,
            ComBaseAddress::Com4 => 0x2e8,
        }
    }

    /// The IO-port base address of the COM port.
    pub fn port(&self) -> (r: u16)
        ensures
            r == self.spec_port(),
    {
        match self {
            ComBaseAddress::Com1 => 0x3f8,
            ComBaseAddress::Com2 => 0x2f8,
            ComBaseAddress::Com3 => 0x3e8,
            ComBaseAddress::Com4 => 0x2e8,
        }
    }
}

/// Struct representing a COM port: the IO-port that output is written to.
pub struct ComPort {
    data_port: u16,
}

impl ComPort {
    /// The IO-port that output is written to.
    pub closed spec fn spec_data_port(&self) -> u16 {
        self.data_port
    }

    /// Create a new COM port.
    pub fn new(base_addr: ComBaseAddress) -> (r: ComPort)
        ensures
            r.spec_data_port() == base_addr.spec_port(),
    {
        ComPort { data_port: base_addr.port() }
    }

    /// The IO-port that output is written to.
    pub fn data_port(&self) -> (r: u16)
        ensures
            r == self.spec_data_port(),
    {
        self.data_port
    }
}

} // verus!
