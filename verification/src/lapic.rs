//! The local APIC: what the kernel writes to its registers to set it up,
//! acknowledge interrupts and start other processors, which processor is
//! running, and real-time clock readings from the CMOS.
use vstd::prelude::*;
use crate::traps::{T_IRQ0, IRQ_ERROR, IRQ_SPURIOUS, IRQ_TIMER};

verus! {

/// A date and time as the CMOS reports it.
#[derive(PartialEq, Eq, Structural, Clone, Copy, Debug)]
pub struct RtcDate {
    pub second: u32,
    pub minute: u32,
    pub hour: u32,
    pub day: u32,
    pub month: u32,
    pub year: u32,
}

/// The date as user programs see it: the same fields.
pub type Rtcdate = RtcDate;

/// CMOS register: seconds.
pub const SECS: u8 = 0x00;
pub const MINS: u8 = 0x02;
pub const HOURS: u8 = 0x04;
pub const DAY: u8 = 0x07;
pub const MONTH: u8 = 0x08;
pub const YEAR: u8 = 0x09;
pub const CMOS_STATA: u8 = 0x0a;
pub const CMOS_STATB: u8 = 0x0b;
/// Status A bit: the clock is being updated.
pub const CMOS_UIP: u8 = 0x80;

/// Value of a two-digit binary-coded-decimal byte.
pub open spec fn from_bcd(x: int) -> int {
    (x / 16) * 10 + x % 16
}

/// Every field is a byte, as the CMOS registers are.
pub open spec fn is_raw(t: RtcDate) -> bool {
    t.second < 256 && t.minute < 256 && t.hour < 256 && t.day < 256 && t.month < 256 && t.year < 256
}

fn bcd(x: u32) -> (r: u32)
    requires
        x < 256,
    ensures
        r == from_bcd(x as int),
{
    assert(((x >> 4u32) == x / 16)
        && ((x & 0xfu32) == x % 16)) by (bit_vector);
    ((x >> 4) * 10) + (x & 0xf)
}

/// Fills a date from the six clock registers, in the order second, minute,
/// hour, day, month, year.
pub fn fill_rtcdate(r: &mut RtcDate, regs: &Vec<u32>)
    requires
        regs@.len() == 6,
    ensures
        final(r).second == regs@[0],
        final(r).minute == regs@[1],
        final(r).hour == regs@[2],
        final(r).day == regs@[3],
        final(r).month == regs@[4],
        final(r).year == regs@[5],
{
    r.second = regs[0];
    r.minute = regs[1];
    r.hour = regs[2];
    r.day = regs[3];
    r.month = regs[4];
    r.year = regs[5];
}

/// Two readings of the clock agree, so neither was torn by an update.
pub fn rtc_stable(t1: &RtcDate, t2: &RtcDate) -> (r: bool)
    ensures
        r == (*t1 == *t2),
{
    *t1 == *t2
}

/// The date the clock shows, from a stable reading `t1` and status
/// register B `sb`: fields are binary-coded decimal unless bit 2 of `sb`
/// is set, and the year counts from 2000.
pub fn cmostime(r: &mut RtcDate, sb: u32, t1: &RtcDate)
    requires
        is_raw(*t1),
    ensures
        ({
            let conv = sb & 4 == 0;
            let f = |x: u32| if conv { from_bcd(x as int) } else { x as int };
            &&& final(r).second == f(t1.second)
            &&& final(r).minute == f(t1.minute)
            &&& final(r).hour == f(t1.hour)
            &&& final(r).day == f(t1.day)
            &&& final(r).month == f(t1.month)
            &&& final(r).year == f(t1.year) + 2000
        }),
{
    let conv = sb & 4 == 0;
    let mut t = *t1;
    if conv {
        t.second = bcd(t.second);
        t.minute = bcd(t.minute);
        t.hour = bcd(t.hour);
        t.day = bcd(t.day);
        t.month = bcd(t.month);
        t.year = bcd(t.year);
    }
    *r = t;
    r.year = r.year + 2000;
}

/// Where `cmostime`'s wait for a stable clock reading stands.
#[derive(Clone, Copy, PartialEq, Eq, Structural, Debug)]
pub enum CmosState {
    /// A first reading of the time registers is to be taken.
    WantFirst,
    /// The first reading is taken; status register A is to be read.
    WantStatus(RtcDate),
    /// No update was in progress after the first reading; a second
    /// reading is to be taken.
    WantSecond(RtcDate),
}

/// What the caller reports to `cmos_step`.
#[derive(Clone, Copy, PartialEq, Eq, Structural, Debug)]
pub enum CmosEvent {
    /// A reading of the six time registers.
    Registers(RtcDate),
    /// The value of status register A.
    StatusA(u32),
}

/// What the caller must do next.
#[derive(Clone, Copy, PartialEq, Eq, Structural, Debug)]
pub enum CmosAction {
    /// Read the six time registers.
    ReadRegisters,
    /// Read status register A.
    ReadStatusA,
    /// The wait is over: this reading is stable.
    Done(RtcDate),
}

/// The event `cmos_step` expects in state `s`.
pub open spec fn cmos_expects(s: CmosState, ev: CmosEvent) -> bool {
    match s {
        CmosState::WantStatus(_) => ev is StatusA,
        _ => ev is Registers,
    }
}

/// One step of the wait in `cmostime`, which takes a first reading, reads
/// status register A, starts over while an update is in progress, else
/// takes a second reading, and ends when both readings agree (starting
/// over otherwise).  The wait starts in `WantFirst` with `ReadRegisters`.
pub fn cmos_step(s: CmosState, ev: CmosEvent) -> (r: (CmosState, CmosAction))
    requires
        cmos_expects(s, ev),
    ensures
        match (s, ev) {
            (CmosState::WantFirst, CmosEvent::Registers(t)) => r == (CmosState::WantStatus(t), CmosAction::ReadStatusA),
            (CmosState::WantStatus(t1), CmosEvent::StatusA(a)) => if a & (CMOS_UIP as u32) != 0 {
                r == (CmosState::WantFirst, CmosAction::ReadRegisters)
            } else {
                r == (CmosState::WantSecond(t1), CmosAction::ReadRegisters)
            },
            (CmosState::WantSecond(t1), CmosEvent::Registers(t2)) => if t1 == t2 {
                r == (CmosState::WantFirst, CmosAction::Done(t1))
            } else {
                r == (CmosState::WantFirst, CmosAction::ReadRegisters)
            },
            _ => false,
        },
{
    match s {
        CmosState::WantFirst => match ev {
            CmosEvent::Registers(t) => (CmosState::WantStatus(t), CmosAction::ReadStatusA),
            CmosEvent::StatusA(_) => (CmosState::WantFirst, CmosAction::ReadRegisters),
        },
        CmosState::WantStatus(t1) => match ev {
            CmosEvent::StatusA(a) => {
                if a & (CMOS_UIP as u32) != 0 {
                    (CmosState::WantFirst, CmosAction::ReadRegisters)
                } else {
                    (CmosState::WantSecond(t1), CmosAction::ReadRegisters)
                }
            },
            CmosEvent::Registers(_) => (CmosState::WantFirst, CmosAction::ReadRegisters),
        },
        CmosState::WantSecond(t1) => match ev {
            CmosEvent::Registers(t2) => {
                if rtc_stable(&t1, &t2) {
                    (CmosState::WantFirst, CmosAction::Done(t1))
                } else {
                    (CmosState::WantFirst, CmosAction::ReadRegisters)
                }
            },
            CmosEvent::StatusA(_) => (CmosState::WantFirst, CmosAction::ReadRegisters),
        },
    }
}

/// Spins for `us` microseconds; on this machine model there is nothing to
/// wait for.
pub fn microdelay(_us: i32) {
}

/// Register word index: ID.
pub const ID: usize = 0x0020 / 4;
/// Register word index: version.
pub const VER: usize = 0x0030 / 4;
/// Register word index: task priority.
pub const TPR: usize = 0x0080 / 4;
/// Register word index: end of interrupt.
pub const EOI: usize = 0x00B0 / 4;
/// Register word index: spurious interrupt vector.
pub const SVR: usize = 0x00F0 / 4;
/// Unit enable.
pub const ENABLE: u32 = 0x00000100;
/// Register word index: error status.
pub const ESR: usize = 0x0280 / 4;
/// Register word index: interrupt command, low word.
pub const ICRLO: usize = 0x0300 / 4;
/// INIT/RESET.
pub const INIT: u32 = 0x00000500;
/// Startup IPI.
pub const STARTUP: u32 = 0x00000600;
/// Delivery status.
pub const DELIVS: u32 = 0x00001000;
/// Assert interrupt (vs deassert).
pub const ASSERT: u32 = 0x00004000;
/// Deassert interrupt.
pub const DEASSERT: u32 = 0x00000000;
/// Level triggered.
pub const LEVEL: u32 = 0x00008000;
/// Send to all APICs, including self.
pub const BCAST: u32 = 0x00080000;
/// Delivery busy.
pub const BUSY: u32 = 0x00001000;
/// Fixed delivery.
pub const FIXED: u32 = 0x00000000;
/// Register word index: interrupt command, high word.
pub const ICRHI: usize = 0x0310 / 4;
/// Register word index: local vector table 0 (timer).
pub const TIMER: usize = 0x0320 / 4;
/// Divide counts by 1.
pub const X1: u32 = 0x0000000B;
/// Periodic timer.
pub const PERIODIC: u32 = 0x00020000;
/// Register word index: performance counter vector.
pub const PCINT: usize = 0x0340 / 4;
/// Register word index: local vector table 1 (LINT0).
pub const LINT0: usize = 0x0350 / 4;
/// Register word index: local vector table 2 (LINT1).
pub const LINT1: usize = 0x0360 / 4;
/// Register word index: local vector table 3 (error).
pub const ERROR: usize = 0x0370 / 4;
/// Interrupt masked.
pub const MASKED: u32 = 0x00010000;
/// Register word index: timer initial count.
pub const TICR: usize = 0x0380 / 4;
/// Register word index: timer current count.
pub const TCCR: usize = 0x0390 / 4;
/// Register word index: timer divide configuration.
pub const TDCR: usize = 0x03E0 / 4;
/// CMOS index port.
pub const CMOS_PORT: u16 = 0x70;
/// CMOS data port.
pub const CMOS_RETURN: u16 = 0x71;
/// Physical address of the warm reset vector (40:67).
pub const WARM_RESET_VECTOR: u64 = 0x467;

/// One step of driving the local APIC and the hardware around it.
#[derive(Clone, Copy, PartialEq, Eq, Structural, Debug)]
pub enum LapicOp {
    /// Write a value to the register at a word index (and read the ID
    /// register back, to wait for the write).
    Write(usize, u32),
    /// Wait until the interrupt command's delivery status clears.
    WaitDelivered,
    /// Spin for a number of microseconds.
    Delay(i32),
    /// Write a byte to an I/O port.
    Outb(u16, u8),
    /// Store a 16-bit value at a physical address.
    Store16(u64, u16),
}

/// What `lapicinit` does, given the version register `ver`: enable the
/// unit with the spurious vector, run the timer periodically at bus
/// frequency, mask the logical interrupt lines (and the performance
/// counter interrupt where the version has that entry), route errors,
/// clear the error status, acknowledge what is pending, synchronise the
/// arbitration ids, and accept all interrupts.
pub open spec fn lapicinit_ops(ver: u32) -> Seq<LapicOp> {
    let head = seq![
        LapicOp::Write(SVR, ENABLE | (T_IRQ0 + IRQ_SPURIOUS) as u32),
        LapicOp::Write(TDCR, X1),
        LapicOp::Write(TIMER, PERIODIC | (T_IRQ0 + IRQ_TIMER) as u32),
        LapicOp::Write(TICR, 10_000_000),
        LapicOp::Write(LINT0, MASKED),
        LapicOp::Write(LINT1, MASKED),
    ];
    let pc = if (ver >> 16u32) & 0xFFu32 >= 4 {
        seq![LapicOp::Write(PCINT, MASKED)]
    } else {
        Seq::empty()
    };
    let tail = seq![
        LapicOp::Write(ERROR, (T_IRQ0 + IRQ_ERROR) as u32),
        LapicOp::Write(ESR, 0),
        LapicOp::Write(ESR, 0),
        LapicOp::Write(EOI, 0),
        LapicOp::Write(ICRHI, 0),
        LapicOp::Write(ICRLO, BCAST | INIT | LEVEL),
        LapicOp::WaitDelivered,
        LapicOp::Write(TPR, 0),
    ];
    head + pc + tail
}

/// Sets up this processor's local APIC, when it is mapped, whose version
/// register reads `ver`: returns the steps to perform, in order (none when
/// it is not mapped).
pub fn lapicinit(mapped: bool, ver: u32) -> (r: Vec<LapicOp>)
    ensures
        r@ == if mapped { lapicinit_ops(ver) } else { Seq::empty() },
{
    let mut ops: Vec<LapicOp> = Vec::new();
    if !mapped {
        return ops;
    }
    ops.push(LapicOp::Write(SVR, ENABLE | (T_IRQ0 + IRQ_SPURIOUS)));
    ops.push(LapicOp::Write(TDCR, X1));
    ops.push(LapicOp::Write(TIMER, PERIODIC | (T_IRQ0 + IRQ_TIMER)));
    ops.push(LapicOp::Write(TICR, 10_000_000));
    ops.push(LapicOp::Write(LINT0, MASKED));
    ops.push(LapicOp::Write(LINT1, MASKED));
    if (ver >> 16) & 0xFF >= 4 {
        ops.push(LapicOp::Write(PCINT, MASKED));
    }
    ops.push(LapicOp::Write(ERROR, T_IRQ0 + IRQ_ERROR));
    ops.push(LapicOp::Write(ESR, 0));
    ops.push(LapicOp::Write(ESR, 0));
    ops.push(LapicOp::Write(EOI, 0));
    ops.push(LapicOp::Write(ICRHI, 0));
    ops.push(LapicOp::Write(ICRLO, BCAST | INIT | LEVEL));
    ops.push(LapicOp::WaitDelivered);
    ops.push(LapicOp::Write(TPR, 0));
    proof {
        assert(ops@ =~= lapicinit_ops(ver));
    }
    ops
}

/// Index of the running processor among the known ones `cpus` (APIC ids
/// by index), given the local APIC's ID register `id_reg`: the first
/// processor whose APIC id is the register's top byte; 0 when there is
/// none or the local APIC is not mapped.
pub fn cpunum(mapped: bool, id_reg: u32, cpus: &Vec<u8>) -> (r: i32)
    requires
        cpus@.len() <= crate::acpi::NCPU,
    ensures
        ({
            let id = id_reg / 0x100_0000;
            &&& !mapped ==> r == 0
            &&& mapped && (exists|i: int| 0 <= i < cpus@.len() && cpus@[i] == id) ==> 0 <= r < cpus@.len()
                && cpus@[r as int] == id && forall|j: int| 0 <= j < r ==> cpus@[j] != id
            &&& mapped && !(exists|i: int| 0 <= i < cpus@.len() && cpus@[i] == id) ==> r == 0
        }),
{
    if !mapped {
        return 0;
    }
    let id: u32 = id_reg >> 24;
    assert(id_reg >> 24u32 == id_reg / 0x100_0000) by (bit_vector);
    let mut n: usize = 0;
    while n < cpus.len()
        invariant
            mapped,
            n <= cpus@.len(),
            cpus@.len() <= crate::acpi::NCPU,
            id == id_reg / 0x100_0000,
            forall|j: int| 0 <= j < n ==> cpus@[j] != id,
        decreases cpus@.len() - n,
    {
        if id == cpus[n] as u32 {
            return n as i32;
        }
        n += 1;
    }
    0
}

/// Acknowledges the interrupt being served, when the local APIC is
/// mapped.
pub fn lapiceoi(mapped: bool) -> (r: Vec<LapicOp>)
    ensures
        r@ == if mapped { seq![LapicOp::Write(EOI, 0)] } else { Seq::empty() },
{
    let mut ops: Vec<LapicOp> = Vec::new();
    if mapped {
        ops.push(LapicOp::Write(EOI, 0));
    }
    proof {
        assert(mapped ==> ops@ =~= seq![LapicOp::Write(EOI, 0)]);
    }
    ops
}

/// What `lapicstartap` does to start the processor with APIC id `apicid`
/// at the entry code at `addr`: set the CMOS shutdown code to a warm
/// reset, point the warm reset vector at the entry code, send an INIT
/// interrupt (asserted, then deasserted), then the startup interrupt
/// twice.
pub open spec fn startap_ops(apicid: u8, addr: u32) -> Seq<LapicOp> {
    let hi = (apicid as u32) << 24u32;
    let sipi = seq![
        LapicOp::Write(ICRHI, hi),
        LapicOp::Write(ICRLO, STARTUP | (addr >> 12u32)),
        LapicOp::Delay(200),
    ];
    seq![
        LapicOp::Outb(CMOS_PORT, 0xF),
        LapicOp::Outb((CMOS_PORT + 1) as u16, 0x0A),
        LapicOp::Store16(WARM_RESET_VECTOR, 0),
        LapicOp::Store16((WARM_RESET_VECTOR + 2) as u64, (addr >> 4u32) as u16),
        LapicOp::Write(ICRHI, hi),
        LapicOp::Write(ICRLO, INIT | LEVEL | ASSERT),
        LapicOp::Delay(200),
        LapicOp::Write(ICRLO, INIT | LEVEL),
        LapicOp::Delay(10000),
    ] + sipi + sipi
}

/// Starts the processor with APIC id `apicid` running the entry code at
/// `addr`: returns the steps to perform, in order.
pub fn lapicstartap(apicid: u8, addr: u32) -> (r: Vec<LapicOp>)
    ensures
        r@ == startap_ops(apicid, addr),
{
    let mut ops: Vec<LapicOp> = Vec::new();
    ops.push(LapicOp::Outb(CMOS_PORT, 0xF));
    ops.push(LapicOp::Outb(CMOS_PORT + 1, 0x0A));
    ops.push(LapicOp::Store16(WARM_RESET_VECTOR, 0));
    ops.push(LapicOp::Store16(WARM_RESET_VECTOR + 2, (addr >> 4) as u16));
    ops.push(LapicOp::Write(ICRHI, (apicid as u32) << 24));
    ops.push(LapicOp::Write(ICRLO, INIT | LEVEL | ASSERT));
    ops.push(LapicOp::Delay(200));
    ops.push(LapicOp::Write(ICRLO, INIT | LEVEL));
    ops.push(LapicOp::Delay(10000));
    let ghost first = ops@;
    let mut i: usize = 0;
    while i < 2
        invariant
            i <= 2,
            ops@.len() == first.len() + 3 * i,
            ops@.subrange(0, first.len() as int) == first,
            forall|k: int| 0 <= k < i ==> #[trigger] ops@.subrange(first.len() + 3 * k, first.len() + 3 * k + 3)
                == seq![
                    LapicOp::Write(ICRHI, (apicid as u32) << 24u32),
                    LapicOp::Write(ICRLO, STARTUP | (addr >> 12u32)),
                    LapicOp::Delay(200),
                ],
        decreases 2 - i,
    {
        let ghost before = ops@;
        ops.push(LapicOp::Write(ICRHI, (apicid as u32) << 24));
        ops.push(LapicOp::Write(ICRLO, STARTUP | (addr >> 12)));
        ops.push(LapicOp::Delay(200));
        proof {
            assert(ops@.subrange(0, first.len() as int) =~= first);
            assert forall|k: int| 0 <= k < i + 1 implies #[trigger] ops@.subrange(
                first.len() + 3 * k,
                first.len() + 3 * k + 3,
            ) == seq![
                LapicOp::Write(ICRHI, (apicid as u32) << 24u32),
                LapicOp::Write(ICRLO, STARTUP | (addr >> 12u32)),
                LapicOp::Delay(200),
            ] by {
                if k < i {
                    assert(ops@.subrange(first.len() + 3 * k, first.len() + 3 * k + 3) =~= before.subrange(
                        first.len() + 3 * k,
                        first.len() + 3 * k + 3,
                    ));
                } else {
                    assert(ops@.subrange(first.len() + 3 * k, first.len() + 3 * k + 3) =~= seq![
                        LapicOp::Write(ICRHI, (apicid as u32) << 24u32),
                        LapicOp::Write(ICRLO, STARTUP | (addr >> 12u32)),
                        LapicOp::Delay(200),
                    ]);
                }
            }
        }
        i += 1;
    }
    proof {
        let s = ops@;
        let f: int = first.len() as int;
        assert(s.subrange(f, f + 3) == s.subrange(f + 3 * 0, f + 3 * 0 + 3));
        assert(s.subrange(f + 3, f + 6) == s.subrange(f + 3 * 1, f + 3 * 1 + 3));
        assert(s =~= s.subrange(0, f) + s.subrange(f, f + 3) + s.subrange(f + 3, f + 6));
        assert(s =~= startap_ops(apicid, addr));
    }
    ops
}

} // verus!
