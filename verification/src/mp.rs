//! The BIOS multiprocessor tables.
use vstd::prelude::*;

verus! {

/// Entry type: one per processor.
pub const MPPROC: u8 = 0x00;
/// Entry type: one per bus.
pub const MPBUS: u8 = 0x01;
/// Entry type: one per I/O APIC.
pub const MPIOAPIC: u8 = 0x02;
/// Entry type: one per bus interrupt source.
pub const MPIOINTR: u8 = 0x03;
/// Entry type: one per system interrupt source.
pub const MPLINTR: u8 = 0x04;
/// Processor flag: the bootstrap processor.
pub const MPBOOT: u8 = 0x02;

/// Floating pointer structure ("_MP_").
pub struct Mp {
    pub signature: Vec<u8>,
    /// Physical address of the configuration table.
    pub physaddr: u32,
    pub length: u8,
    pub specrev: u8,
    /// All bytes add up to 0.
    pub checksum: u8,
    /// System configuration type.
    pub type_: u8,
    pub imcrp: u8,
    pub reserved: Vec<u8>,
}

/// Configuration table header ("PCMP").
pub struct Mpconf {
    pub signature: Vec<u8>,
    /// Length of the whole table.
    pub length: u16,
    pub version: u8,
    /// All bytes add up to 0.
    pub checksum: u8,
    pub product: Vec<u8>,
    pub oemtable: u32,
    pub oemlength: u16,
    /// Number of entries.
    pub entry: u16,
    /// Address of the local APIC.
    pub lapicaddr: u32,
    pub xlength: u16,
    pub xchecksum: u8,
    pub reserved: u8,
}

/// Processor entry.
pub struct Mpproc {
    pub type_: u8,
    /// Local APIC id.
    pub apicid: u8,
    pub version: u8,
    /// Processor flags.
    pub flags: u8,
    pub signature: Vec<u8>,
    /// Feature flags from CPUID.
    pub feature: u32,
    pub reserved: Vec<u8>,
}

/// I/O APIC entry.
#[derive(Clone, Copy, PartialEq, Eq, Structural, Debug)]
pub struct Mpioapic {
    pub type_: u8,
    /// I/O APIC id.
    pub apicno: u8,
    pub version: u8,
    pub flags: u8,
    /// I/O APIC address.
    pub addr: u32,
}

} // verus!
