//! Physical and virtual memory layout of the kernel (x86-64 layout: every
//! address is a 64-bit value).
use vstd::prelude::*;

verus! {

/// Start of extended memory.
pub const EXTMEM: u64 = 0x100000;

/// Top of physical memory.
pub const PHYSTOP: u64 = 0xE000000;

/// Other devices are at high addresses.
pub const DEVSPACE: u64 = 0xFE000000;

/// First kernel virtual address.
pub const KERNBASE: u64 = 0xFFFF_FFFF_8000_0000;

/// First device virtual address.
pub const DEVBASE: u64 = 0xFFFF_FFFF_4000_0000;

/// Address where the kernel is linked (`KERNBASE + EXTMEM`).
pub const KERNLINK: u64 = 0xFFFF_FFFF_8010_0000;

/// Kernel virtual address to physical address.
pub fn v2p(a: u64) -> (r: u64)
    requires
        a >= KERNBASE,
    ensures
        r == a - KERNBASE,
{
    a - KERNBASE
}

/// Physical address to kernel virtual address.
pub fn p2v(a: u64) -> (r: u64)
    requires
        a + KERNBASE <= u64::MAX,
    ensures
        r == a + KERNBASE,
{
    a + KERNBASE
}

/// Virtual to physical, on a plain integer.
pub fn v2p_wo(x: u64) -> (r: u64)
    requires
        x >= KERNBASE,
    ensures
        r == x - KERNBASE,
{
    x - KERNBASE
}

/// Physical to virtual, on a plain integer.
pub fn p2v_wo(x: u64) -> (r: u64)
    requires
        x + KERNBASE <= u64::MAX,
    ensures
        r == x + KERNBASE,
{
    x + KERNBASE
}

/// Device physical address to its virtual address: the device space at
/// `DEVSPACE` is mapped at `DEVBASE`.  The sum wraps around at 2^64, so
/// that the addresses of the device space, near the top of 32-bit memory,
/// map into it.
pub fn io2v(a: u64) -> (r: u64)
    ensures
        r == (a + DEVBASE - DEVSPACE) % 0x1_0000_0000_0000_0000,
{
    a.wrapping_add(DEVBASE - DEVSPACE)
}

/// Translating a kernel address to physical and back gives the address back,
/// and so does the other order.
pub proof fn lemma_v2p_p2v_roundtrip(a: u64, p: u64)
    requires
        a >= KERNBASE,
        p + KERNBASE <= u64::MAX,
    ensures
        (a - KERNBASE) + KERNBASE == a,
        (p + KERNBASE) - KERNBASE == p,
{
}

} // verus!
