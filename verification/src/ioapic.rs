//! The I/O APIC, which routes device interrupts to processors: the
//! register writes that set its redirection table.
use vstd::prelude::*;
use crate::traps::T_IRQ0;

verus! {

/// Default physical address of the I/O APIC.
pub const IOAPIC: u32 = 0xFEC00000;
/// Register index: ID.
pub const REG_ID: u32 = 0x00;
/// Register index: version.
pub const REG_VER: u32 = 0x01;
/// Register index: redirection table base.  Each interrupt has two
/// registers there: its configuration, then the processors that may
/// serve it.
pub const REG_TABLE: u32 = 0x10;
/// Interrupt disabled.
pub const INT_DISABLED: u32 = 0x00010000;
/// Level-triggered (vs edge-).
pub const INT_LEVEL: u32 = 0x00008000;
/// Active low (vs high).
pub const INT_ACTIVELOW: u32 = 0x00002000;
/// Destination is a processor id (vs an APIC id).
pub const INT_LOGICAL: u32 = 0x00000800;

/// Highest interrupt number the I/O APIC with version register `ver`
/// handles.
pub open spec fn max_intr(ver: u32) -> u32 {
    (ver >> 16u32) & 0xFFu32
}

/// The `j`-th write that sets up the redirection table: for each
/// interrupt, its configuration register gets "disabled" with the
/// interrupt's vector, then its destination register gets 0.
pub open spec fn table_write(j: int) -> (u32, u32) {
    if j % 2 == 0 {
        ((REG_TABLE + j) as u32, INT_DISABLED | (T_IRQ0 + j / 2) as u32)
    } else {
        ((REG_TABLE + j) as u32, 0u32)
    }
}

/// Sets up the I/O APIC of a multiprocessor whose version register reads
/// `ver`: every interrupt edge-triggered, active high, disabled and routed
/// to no processor.  Returns the (register, value) writes in order; none
/// when the machine is not a multiprocessor.
pub fn ioapic_init(ismp: bool, ver: u32) -> (r: Vec<(u32, u32)>)
    ensures
        r@ == if ismp {
            Seq::new((2 * (max_intr(ver) + 1)) as nat, |j: int| table_write(j))
        } else {
            Seq::empty()
        },
{
    let mut w: Vec<(u32, u32)> = Vec::new();
    if !ismp {
        proof {
            assert(w@ =~= Seq::<(u32, u32)>::empty());
        }
        return w;
    }
    let maxintr: u32 = (ver >> 16) & 0xFF;
    assert(((ver >> 16u32) & 0xFFu32) <= 0xFF) by (bit_vector);
    let mut i: u32 = 0;
    while i <= maxintr
        invariant
            maxintr == max_intr(ver),
            maxintr <= 0xFF,
            i <= maxintr + 1,
            w@ == Seq::new((2 * i) as nat, |j: int| table_write(j)),
        decreases maxintr + 1 - i,
    {
        w.push((REG_TABLE + 2 * i, INT_DISABLED | (T_IRQ0 + i)));
        w.push((REG_TABLE + 2 * i + 1, 0));
        proof {
            assert((2 * i) % 2 == 0 && (2 * i) / 2 == i);
            assert((2 * i + 1) % 2 == 1);
            assert(w@ =~= Seq::new((2 * (i + 1)) as nat, |j: int| table_write(j)));
        }
        i += 1;
    }
    w
}

/// Routes interrupt `irq` of a multiprocessor to the processor whose APIC
/// id is `cpunum`: edge-triggered, active high, enabled.  Returns the
/// (register, value) writes in order; none when the machine is not a
/// multiprocessor.
pub fn ioapic_enable(ismp: bool, irq: u32, cpunum: u32) -> (r: Vec<(u32, u32)>)
    requires
        ismp ==> REG_TABLE + 2 * irq + 1 <= u32::MAX,
    ensures
        r@ == if ismp {
            seq![
                ((REG_TABLE + 2 * irq) as u32, (T_IRQ0 + irq) as u32),
                ((REG_TABLE + 2 * irq + 1) as u32, cpunum << 24u32),
            ]
        } else {
            Seq::empty()
        },
{
    let mut w: Vec<(u32, u32)> = Vec::new();
    if ismp {
        w.push((REG_TABLE + 2 * irq, T_IRQ0 + irq));
        w.push((REG_TABLE + 2 * irq + 1, cpunum << 24));
        proof {
            assert(w@ =~= seq![
                ((REG_TABLE + 2 * irq) as u32, (T_IRQ0 + irq) as u32),
                ((REG_TABLE + 2 * irq + 1) as u32, cpunum << 24u32),
            ]);
        }
    } else {
        proof {
            assert(w@ =~= Seq::<(u32, u32)>::empty());
        }
    }
    w
}

} // verus!
