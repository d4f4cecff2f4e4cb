use freax::boot::{readsect, readseg};
use freax::buf::{Buf, B_BUSY, B_DIRTY, B_VALID};
use freax::ide::{idestart, ideinit, ideintr, iderw, idewait, IdeDone, IdeOp, IDE_CMD_READ, IDE_CMD_WRITE};
use freax::ioapic::{ioapic_enable, ioapic_init, INT_DISABLED, REG_TABLE};
use freax::kalloc::Kmem;
use freax::lapic::{
    cmos_step, cmostime, cpunum, CmosAction, CmosEvent, CmosState, fill_rtcdate, lapiceoi, lapicinit, lapicstartap, rtc_stable, LapicOp, RtcDate, BCAST,
    EOI, ERROR, ESR, ICRHI, ICRLO, INIT, LEVEL, LINT0, LINT1, MASKED, PCINT, PERIODIC, STARTUP, SVR, TDCR,
    TICR, TIMER, TPR, X1, ASSERT, ENABLE,
};
use freax::memlayout::KERNBASE;
use freax::smp::{smp_step, startothers, ApBoot, SmpAction, SmpState, AP_BOOT_WORD, AP_CODE};

fn raw_date(v: [u32; 6]) -> RtcDate {
    let mut d = RtcDate { second: 0, minute: 0, hour: 0, day: 0, month: 0, year: 0 };
    fill_rtcdate(&mut d, &v.to_vec());
    d
}

#[test]
fn cmostime_decodes_bcd() {
    let t = raw_date([0x59, 0x30, 0x23, 0x31, 0x12, 0x24]);
    assert_eq!(t.second, 0x59);
    assert_eq!(t.year, 0x24);
    let mut r = RtcDate { second: 0, minute: 0, hour: 0, day: 0, month: 0, year: 0 };
    cmostime(&mut r, 0, &t);
    assert_eq!(r, RtcDate { second: 59, minute: 30, hour: 23, day: 31, month: 12, year: 2024 });
}

#[test]
fn cmostime_binary_mode() {
    let t = raw_date([7, 8, 9, 10, 11, 25]);
    let mut r = RtcDate { second: 0, minute: 0, hour: 0, day: 0, month: 0, year: 0 };
    cmostime(&mut r, 4, &t);
    assert_eq!(r, RtcDate { second: 7, minute: 8, hour: 9, day: 10, month: 11, year: 2025 });
}

#[test]
fn rtc_readings_compare() {
    let a = raw_date([1, 2, 3, 4, 5, 6]);
    let b = raw_date([1, 2, 3, 4, 5, 6]);
    let c = raw_date([2, 2, 3, 4, 5, 6]);
    assert!(rtc_stable(&a, &b));
    assert!(!rtc_stable(&a, &c));
}

#[test]
fn lapicinit_sequence() {
    assert!(lapicinit(false, 0x50014).is_empty());
    let ops = lapicinit(true, 0x0005_0014);
    let expect = vec![
        LapicOp::Write(SVR, ENABLE | 63),
        LapicOp::Write(TDCR, X1),
        LapicOp::Write(TIMER, PERIODIC | 32),
        LapicOp::Write(TICR, 10_000_000),
        LapicOp::Write(LINT0, MASKED),
        LapicOp::Write(LINT1, MASKED),
        LapicOp::Write(PCINT, MASKED),
        LapicOp::Write(ERROR, 51),
        LapicOp::Write(ESR, 0),
        LapicOp::Write(ESR, 0),
        LapicOp::Write(EOI, 0),
        LapicOp::Write(ICRHI, 0),
        LapicOp::Write(ICRLO, BCAST | INIT | LEVEL),
        LapicOp::WaitDelivered,
        LapicOp::Write(TPR, 0),
    ];
    assert_eq!(ops, expect);
    // an old APIC without the performance counter entry
    let old = lapicinit(true, 0x0003_0014);
    assert_eq!(old.len(), expect.len() - 1);
    assert!(!old.contains(&LapicOp::Write(PCINT, MASKED)));
}

#[test]
fn cpunum_finds_apic_id() {
    let cpus = vec![0u8, 4, 2, 4];
    assert_eq!(cpunum(true, 0x0400_0000, &cpus), 1);
    assert_eq!(cpunum(true, 0x0200_0000, &cpus), 2);
    assert_eq!(cpunum(true, 0x0700_0000, &cpus), 0);
    assert_eq!(cpunum(false, 0x0400_0000, &cpus), 0);
}

#[test]
fn lapiceoi_acknowledges() {
    assert_eq!(lapiceoi(true), vec![LapicOp::Write(EOI, 0)]);
    assert!(lapiceoi(false).is_empty());
}

#[test]
fn lapicstartap_sequence() {
    let ops = lapicstartap(3, 0x7000);
    let sipi = [
        LapicOp::Write(ICRHI, 3 << 24),
        LapicOp::Write(ICRLO, STARTUP | 7),
        LapicOp::Delay(200),
    ];
    let mut expect = vec![
        LapicOp::Outb(0x70, 0xF),
        LapicOp::Outb(0x71, 0x0A),
        LapicOp::Store16(0x467, 0),
        LapicOp::Store16(0x469, 0x700),
        LapicOp::Write(ICRHI, 3 << 24),
        LapicOp::Write(ICRLO, INIT | LEVEL | ASSERT),
        LapicOp::Delay(200),
        LapicOp::Write(ICRLO, INIT | LEVEL),
        LapicOp::Delay(10000),
    ];
    expect.extend_from_slice(&sipi);
    expect.extend_from_slice(&sipi);
    assert_eq!(ops, expect);
}

#[test]
fn ioapic_init_disables_every_interrupt() {
    assert!(ioapic_init(false, 0x0017_0011).is_empty());
    let w = ioapic_init(true, 0x0002_0011);
    assert_eq!(
        w,
        vec![
            (REG_TABLE, INT_DISABLED | 32),
            (REG_TABLE + 1, 0),
            (REG_TABLE + 2, INT_DISABLED | 33),
            (REG_TABLE + 3, 0),
            (REG_TABLE + 4, INT_DISABLED | 34),
            (REG_TABLE + 5, 0),
        ]
    );
    assert_eq!(ioapic_init(true, 0x0017_0011).len(), 48);
}

#[test]
fn ioapic_enable_routes_interrupt() {
    assert_eq!(ioapic_enable(true, 14, 1), vec![(0x10 + 28, 46), (0x10 + 29, 1 << 24)]);
    assert!(ioapic_enable(false, 14, 1).is_empty());
}

#[test]
fn idewait_reads_status() {
    assert_eq!(idewait(0x80, true), None);
    assert_eq!(idewait(0x00, false), None);
    assert_eq!(idewait(0x40, true), Some(0));
    assert_eq!(idewait(0x41, true), Some(-1));
    assert_eq!(idewait(0x61, false), Some(0));
}

fn buf_with(flags: u32, dev: u32, blockno: u32) -> Buf {
    let mut b = Buf::new();
    b.flags = flags;
    b.dev = dev;
    b.blockno = blockno;
    b
}

#[test]
fn idestart_read_and_write_commands() {
    let b = buf_with(B_BUSY, 1, 0x3E7);
    assert_eq!(
        idestart(&b),
        vec![
            IdeOp::Wait,
            IdeOp::Outb(0x3f6, 0),
            IdeOp::Outb(0x1f2, 1),
            IdeOp::Outb(0x1f3, 0xE7),
            IdeOp::Outb(0x1f4, 0x03),
            IdeOp::Outb(0x1f5, 0),
            IdeOp::Outb(0x1f6, 0xF0),
            IdeOp::Outb(0x1f7, IDE_CMD_READ),
        ]
    );
    let w = buf_with(B_BUSY | B_DIRTY, 0, 5);
    let ops = idestart(&w);
    assert_eq!(ops[6], IdeOp::Outb(0x1f6, 0xE0));
    assert_eq!(&ops[7..], &[IdeOp::Outb(0x1f7, IDE_CMD_WRITE), IdeOp::WriteData]);
}

#[test]
fn ideinit_probes_disk1() {
    assert!(ideinit(&vec![0, 0, 0x50]).havedisk1);
    assert!(!ideinit(&vec![0; 5]).havedisk1);
    let mut late = vec![0u8; 1001];
    late[1000] = 1;
    assert!(!ideinit(&late).havedisk1);
}

#[test]
fn ide_queue_serves_in_order() {
    let mut bufs = vec![buf_with(B_BUSY, 0, 7), buf_with(B_BUSY | B_VALID | B_DIRTY, 0, 8), buf_with(B_BUSY, 0, 9)];
    let mut q = ideinit(&vec![]);
    assert!(iderw(&mut q, &mut bufs, 0));
    assert!(!iderw(&mut q, &mut bufs, 1));
    assert!(!iderw(&mut q, &mut bufs, 2));
    assert_eq!(bufs[0].qnext, Some(1));
    assert_eq!(bufs[1].qnext, Some(2));
    assert_eq!(bufs[2].qnext, None);
    let sector: Vec<u8> = (0..512).map(|i| (i % 251) as u8).collect();
    // a read completes: the data arrives and the buffer becomes valid
    let d = ideintr(&mut q, &mut bufs, 0x40, &sector);
    assert_eq!(d, Some(IdeDone { done: 0, next: Some(1) }));
    assert_eq!(bufs[0].data, sector);
    assert_eq!(bufs[0].flags, B_BUSY | B_VALID);
    assert_eq!(bufs[0].qnext, None);
    // a write completes: the data stays, the buffer is no longer dirty
    let d = ideintr(&mut q, &mut bufs, 0x40, &sector);
    assert_eq!(d, Some(IdeDone { done: 1, next: Some(2) }));
    assert_eq!(bufs[1].data, vec![0u8; 512]);
    assert_eq!(bufs[1].flags, B_BUSY | B_VALID);
    // a read that fails leaves the data alone
    let d = ideintr(&mut q, &mut bufs, 0x41, &sector);
    assert_eq!(d, Some(IdeDone { done: 2, next: None }));
    assert_eq!(bufs[2].data, vec![0u8; 512]);
    assert_eq!(bufs[2].flags & (B_VALID | B_DIRTY), B_VALID);
    // nothing left: a spurious interrupt
    assert_eq!(ideintr(&mut q, &mut bufs, 0x40, &sector), None);
    assert!(q.head.is_none());
}

#[test]
fn readsect_commands() {
    assert_eq!(
        readsect(0x0102_0304),
        vec![
            IdeOp::Wait,
            IdeOp::Outb(0x1F2, 1),
            IdeOp::Outb(0x1F3, 0x04),
            IdeOp::Outb(0x1F4, 0x03),
            IdeOp::Outb(0x1F5, 0x02),
            IdeOp::Outb(0x1F6, 0xE1),
            IdeOp::Outb(0x1F7, 0x20),
            IdeOp::Wait,
            IdeOp::ReadData,
        ]
    );
}

#[test]
fn readseg_reads_whole_sectors() {
    // 1000 bytes from byte 700 of the image to 0x100000: starts 188 bytes
    // early, at the start of the sector holding the offset, and reads the
    // image's bytes 512..2048
    let r = readseg(0x10_0000, 1000, 700);
    assert_eq!(r, vec![(0x10_0000 - 188, 2), (0x10_0000 - 188 + 512, 3), (0x10_0000 - 188 + 1024, 4)]);
    assert!(readseg(0x10_0000, 0, 0).is_empty());
}

#[test]
fn startothers_gives_each_other_cpu_a_stack() {
    let mut k = Kmem { use_lock: true, freelist: vec![KERNBASE + 0x1000, KERNBASE + 0x2000, KERNBASE + 0x3000] };
    let cpus = vec![0u8, 1, 2];
    let r = startothers(&mut k, &cpus, 1, KERNBASE + 0x10_0040);
    assert_eq!(
        r,
        vec![
            ApBoot { id: 0, apicid: 0, word4: AP_BOOT_WORD, entry: 0x10_0040, stack_top: KERNBASE + 0x4000, code: AP_CODE },
            ApBoot { id: 2, apicid: 2, word4: AP_BOOT_WORD, entry: 0x10_0040, stack_top: KERNBASE + 0x3000, code: AP_CODE },
        ]
    );
    assert_eq!(k.freelist, vec![KERNBASE + 0x1000]);
}

#[test]
fn cmos_wait_retries_until_two_readings_agree() {
    let t1 = raw_date([0x10, 0x20, 0x03, 0x04, 0x05, 0x24]);
    let t2 = raw_date([0x11, 0x20, 0x03, 0x04, 0x05, 0x24]);
    // an update in progress starts the wait over
    let (s, a) = cmos_step(CmosState::WantFirst, CmosEvent::Registers(t1));
    assert_eq!((s, a), (CmosState::WantStatus(t1), CmosAction::ReadStatusA));
    let (s, a) = cmos_step(s, CmosEvent::StatusA(0x80));
    assert_eq!((s, a), (CmosState::WantFirst, CmosAction::ReadRegisters));
    // two readings that differ start it over too
    let (s, _) = cmos_step(s, CmosEvent::Registers(t1));
    let (s, a) = cmos_step(s, CmosEvent::StatusA(0x26));
    assert_eq!((s, a), (CmosState::WantSecond(t1), CmosAction::ReadRegisters));
    let (s, a) = cmos_step(s, CmosEvent::Registers(t2));
    assert_eq!((s, a), (CmosState::WantFirst, CmosAction::ReadRegisters));
    // two readings that agree end it
    let (s, _) = cmos_step(s, CmosEvent::Registers(t2));
    let (s, _) = cmos_step(s, CmosEvent::StatusA(0));
    let (s, a) = cmos_step(s, CmosEvent::Registers(t2));
    assert_eq!((s, a), (CmosState::WantFirst, CmosAction::Done(t2)));
}

#[test]
fn processors_start_one_after_another() {
    let mut k = Kmem { use_lock: true, freelist: vec![KERNBASE + 0x1000, KERNBASE + 0x2000, KERNBASE + 0x3000] };
    let plan = startothers(&mut k, &vec![0u8, 1, 2], 0, KERNBASE + 0x10_0040);
    let (s, a) = smp_step(&plan, SmpState::Next(0), false);
    assert_eq!((s, a), (SmpState::Waiting(0), SmpAction::Start(plan[0])));
    // the next processor waits until this one reports
    let (s, a) = smp_step(&plan, s, false);
    assert_eq!((s, a), (SmpState::Waiting(0), SmpAction::Poll(1)));
    let (s, a) = smp_step(&plan, s, true);
    assert_eq!((s, a), (SmpState::Waiting(1), SmpAction::Start(plan[1])));
    let (s, a) = smp_step(&plan, s, true);
    assert_eq!((s, a), (SmpState::Next(2), SmpAction::Done));
    // with no other processor there is nothing to start
    assert_eq!(smp_step(&Vec::new(), SmpState::Next(0), false), (SmpState::Next(0), SmpAction::Done));
}
