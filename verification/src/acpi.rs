//! ACPI tables: finding the root system description pointer in memory,
//! and reading the processors and I/O APIC of a multiprocessor from the
//! MADT.
use vstd::prelude::*;
use crate::fs_layout::{le32, read_u32};
use crate::memlayout::{io2v, DEVBASE, DEVSPACE};

verus! {

/// Size of the root system description pointer.
pub const RDSP_SIZE: usize = 40;
/// Bytes of the pointer its checksum covers.
pub const RDSP_CHECKSUM_LEN: usize = 20;
/// Size of a table's description header.
pub const DESC_HEADER_SIZE: usize = 36;
/// Size of the MADT before its entries.
pub const MADT_SIZE: usize = 44;
/// MADT entry type of a processor's local APIC.
pub const TYPE_LAPIC: u8 = 0;
/// MADT entry type of an I/O APIC.
pub const TYPE_IOAPIC: u8 = 1;
/// MADT entry type of an interrupt source override.
pub const TYPE_INT_SRC_OVERRIDE: u8 = 2;
/// MADT entry type of a non-maskable interrupt source.
pub const TYPE_NMI_INT_SRC: u8 = 3;
/// MADT entry type of a local APIC's non-maskable interrupt.
pub const TYPE_LAPIC_NMI: u8 = 4;
/// Flag of a usable processor in its local APIC entry.
pub const APIC_LAPIC_ENABLED: u32 = 1;
/// Size of a local APIC entry.
pub const MADT_LAPIC_SIZE: u8 = 8;
/// Size of an I/O APIC entry.
pub const MADT_IOAPIC_SIZE: u8 = 12;
/// Most processors the kernel runs.
pub const NCPU: usize = 8;

/// Root system description pointer.
pub struct AcpiRdsp {
    pub signature: Vec<u8>,
    pub checksum: u8,
    pub oem_id: Vec<u8>,
    pub revision: u8,
    pub rsdt_addr_phys: u32,
    pub length: u32,
    pub xsdt_addr_phys: u64,
    pub xchecksum: u8,
    pub reserved: Vec<u8>,
    pub reserved2: u32,
}

/// Header every description table starts with.
pub struct AcpiDescHeader {
    pub signature: Vec<u8>,
    pub length: u32,
    pub revision: u8,
    pub checksum: u8,
    pub oem_id: Vec<u8>,
    pub oem_tableid: Vec<u8>,
    pub oem_revision: u32,
    pub creator_id: Vec<u8>,
    pub creator_revision: u32,
}

/// Root system description table: the header, then the physical
/// addresses of the other tables.
pub struct AcpiRsdt {
    pub header: AcpiDescHeader,
    pub entry: Vec<u32>,
}

/// Multiple APIC description table: the header, the local APIC's
/// address, flags, then the entries.
pub struct AcpiMadt {
    pub header: AcpiDescHeader,
    pub lapic_addr_phys: u32,
    pub flags: u32,
    pub table: Vec<u8>,
}

/// MADT entry of a processor's local APIC.
#[derive(Clone, Copy, PartialEq, Eq, Structural, Debug)]
pub struct MadtLapic {
    pub type_: u8,
    pub length: u8,
    pub acpi_id: u8,
    pub apic_id: u8,
    pub flags: u32,
}

/// MADT entry of an I/O APIC.
#[derive(Clone, Copy, PartialEq, Eq, Structural, Debug)]
pub struct MadtIoapic {
    pub type_: u8,
    pub length: u8,
    pub id: u8,
    pub reserved: u8,
    pub addr: u32,
    pub interrupt_base: u32,
}

/// Platform communications channel subspace.
#[derive(Clone, Copy, PartialEq, Eq, Structural, Debug)]
pub struct AcpiPccSubspace {
    pub type_: u8,
    pub length: u8,
    pub base_address: u64,
    pub length_: u64,
    pub doorbell_register: u32,
    pub doorbell_preserve: u32,
    pub doorbell_write: u32,
    pub latency: u32,
    pub max_access_rate: u32,
    pub min_turnaround_time: u16,
}

/// "RSD PTR ", the pointer's signature.
pub open spec fn sig_rdsp() -> Seq<u8> {
    seq![0x52u8, 0x53, 0x44, 0x20, 0x50, 0x54, 0x52, 0x20]
}

/// Sum of the `n` bytes of `m` at `p`.
pub open spec fn byte_sum(m: Seq<u8>, p: int, n: int) -> int
    decreases n,
{
    if n <= 0 {
        0
    } else {
        byte_sum(m, p, n - 1) + m[p + n - 1]
    }
}

/// A root system description pointer lies at `p`: its signature, and its
/// first 20 bytes summing to 0 modulo 256.
pub open spec fn rdsp_at(m: Seq<u8>, p: int) -> bool {
    &&& m.subrange(p, p + 8) == sig_rdsp()
    &&& byte_sum(m, p, RDSP_CHECKSUM_LEN as int) % 256 == 0
}

/// Where `scan_rdsp` finds the pointer, looking at every fourth byte
/// from `p` while `len` bytes, at least a pointer's worth, remain.
pub open spec fn scan_from(m: Seq<u8>, p: int, len: int) -> Option<int>
    decreases len,
{
    if len < RDSP_SIZE {
        None
    } else if rdsp_at(m, p) {
        Some(p)
    } else {
        scan_from(m, p + 4, len - 4)
    }
}

/// Whether the pointer's signature is at `p`.
fn sig_matches(m: &Vec<u8>, p: usize) -> (r: bool)
    requires
        p + 8 <= m.len(),
    ensures
        r == (m@.subrange(p as int, p + 8) == sig_rdsp()),
{
    let r = m[p] == 0x52 && m[p + 1] == 0x53 && m[p + 2] == 0x44 && m[p + 3] == 0x20 && m[p + 4] == 0x50 && m[p
        + 5] == 0x54 && m[p + 6] == 0x52 && m[p + 7] == 0x20;
    proof {
        if r {
            assert(m@.subrange(p as int, p + 8) =~= sig_rdsp());
        } else {
            if m@.subrange(p as int, p + 8) == sig_rdsp() {
                assert(m@.subrange(p as int, p + 8)[0] == sig_rdsp()[0]);
                assert(m@.subrange(p as int, p + 8)[1] == sig_rdsp()[1]);
                assert(m@.subrange(p as int, p + 8)[2] == sig_rdsp()[2]);
                assert(m@.subrange(p as int, p + 8)[3] == sig_rdsp()[3]);
                assert(m@.subrange(p as int, p + 8)[4] == sig_rdsp()[4]);
                assert(m@.subrange(p as int, p + 8)[5] == sig_rdsp()[5]);
                assert(m@.subrange(p as int, p + 8)[6] == sig_rdsp()[6]);
                assert(m@.subrange(p as int, p + 8)[7] == sig_rdsp()[7]);
            }
        }
    }
    r
}

/// Sum of the `n` bytes at `p`.
fn sum_bytes(m: &Vec<u8>, p: usize, n: usize) -> (r: u32)
    requires
        p + n <= m.len(),
        n <= 1024,
    ensures
        r == byte_sum(m@, p as int, n as int),
{
    let mut s: u32 = 0;
    let mut k: usize = 0;
    while k < n
        invariant
            p + n <= m.len(),
            n <= 1024,
            k <= n,
            s == byte_sum(m@, p as int, k as int),
            s <= 255 * k,
        decreases n - k,
    {
        s = s + m[p + k] as u32;
        k += 1;
    }
    s
}

/// Looks for the root system description pointer in the `len` bytes of
/// memory at `base`, at every fourth byte: returns where the first one
/// with its signature and a zero checksum lies.
pub fn scan_rdsp(mem: &Vec<u8>, base: usize, len: usize) -> (r: Option<usize>)
    requires
        base + len <= mem.len(),
    ensures
        r == match scan_from(mem@, base as int, len as int) {
            Some(p) => Some(p as usize),
            None => None,
        },
{
    let mut p: usize = base;
    let mut rem: usize = len;
    while rem >= RDSP_SIZE
        invariant
            p + rem <= mem.len(),
            scan_from(mem@, base as int, len as int) == scan_from(mem@, p as int, rem as int),
        decreases rem,
    {
        if sig_matches(mem, p) {
            let sum = sum_bytes(mem, p, RDSP_CHECKSUM_LEN);
            if sum & 0xff == 0 {
                proof {
                    assert(sum & 0xff == sum % 256) by (bit_vector);
                }
                return Some(p);
            }
            proof {
                assert(sum & 0xff == sum % 256) by (bit_vector);
            }
        }
        rem -= 4;
        p += 4;
    }
    None
}

/// Where `find_rdsp` finds the pointer: in the first KiB of the extended
/// BIOS data area, whose segment the word at 0x40E gives, when there is
/// one and the pointer is there; else in the BIOS read-only memory
/// between 0xE0000 and 0xFFFFF.
pub open spec fn find_rdsp_spec(m: Seq<u8>) -> Option<int> {
    let pa = crate::fs_layout::le16(m, 0x40E) * 16;
    if pa != 0 && scan_from(m, pa, 1024) is Some {
        scan_from(m, pa, 1024)
    } else {
        scan_from(m, 0xE0000, 0x20000)
    }
}

/// Finds the root system description pointer in physical memory `mem`.
pub fn find_rdsp(mem: &Vec<u8>) -> (r: Option<usize>)
    requires
        mem.len() >= 0x100400,
    ensures
        r == match find_rdsp_spec(mem@) {
            Some(p) => Some(p as usize),
            None => None,
        },
{
    let pa: usize = (mem[0x40E] as usize + mem[0x40F] as usize * 256) * 16;
    if pa != 0 {
        let found = scan_rdsp(mem, pa, 1024);
        if found.is_some() {
            return found;
        }
    }
    scan_rdsp(mem, 0xE0000, 0x20000)
}

/// What the MADT entries from `p` to `e` give: the APIC ids of the usable
/// processors in order, the id of the first I/O APIC, and whether the
/// walk gets stuck on an empty entry of another type.  The walk stops at
/// an entry that runs past the end, a processor or I/O APIC entry too
/// short for its kind, or a processor not enabled.
pub open spec fn madt_walk(m: Seq<u8>, p: int, e: int) -> (Seq<u8>, Option<u8>, bool)
    decreases e - p,
{
    if p >= e {
        (Seq::empty(), None, false)
    } else {
        let len = m[p + 1] as int;
        if e - p < len {
            (Seq::empty(), None, false)
        } else if m[p] == TYPE_LAPIC {
            if len < MADT_LAPIC_SIZE || le32(m, p + 4) as u32 & APIC_LAPIC_ENABLED == 0 {
                (Seq::empty(), None, false)
            } else {
                let r = madt_walk(m, p + len, e);
                (seq![m[p + 3]] + r.0, r.1, r.2)
            }
        } else if m[p] == TYPE_IOAPIC {
            if len < MADT_IOAPIC_SIZE {
                (Seq::empty(), None, false)
            } else {
                let r = madt_walk(m, p + len, e);
                (r.0, Some(m[p + 2]), r.2)
            }
        } else if len == 0 {
            (Seq::empty(), None, true)
        } else {
            madt_walk(m, p + len, e)
        }
    }
}

/// What the kernel learns of the multiprocessor.
pub struct SmpConfig {
    /// APIC id of each processor found; a processor's index is its id.
    pub cpus: Vec<u8>,
    /// Id of the I/O APIC.
    pub ioapicid: u8,
    /// More than one processor may run.
    pub ismp: i32,
    /// Virtual address of the local APIC's registers.
    pub lapic: u64,
}

/// What reading the MADT at `madt` asks of memory: the table's header and
/// entries lie in `m`, the walk over its entries does not get stuck on an
/// empty entry, and the processors it lists fit beside the `ncpus` already
/// known.
pub open spec fn madt_ok(m: Seq<u8>, madt: int, ncpus: int) -> bool {
    &&& madt + MADT_SIZE <= m.len()
    &&& {
        let length = le32(m, madt + 4);
        let w = madt_walk(m, madt + MADT_SIZE, madt + length);
        &&& MADT_SIZE <= length
        &&& madt + length + 1 <= m.len()
        &&& !w.2
        &&& ncpus + w.0.len() <= NCPU
    }
}

/// `s1` is `s0` after reading the MADT at `madt`, and `r` is what that
/// returns: the usable processors are appended to the known ones, the
/// first I/O APIC's id is recorded, and when some processor is known the
/// machine is a multiprocessor whose local APIC is mapped, with 0
/// returned; else -1 and neither flag nor address changes.
pub open spec fn madt_applied(m: Seq<u8>, madt: int, s0: SmpConfig, s1: SmpConfig, r: i32) -> bool {
    let length = le32(m, madt + 4);
    let w = madt_walk(m, madt + MADT_SIZE, madt + length);
    let cpus = s0.cpus@ + w.0;
    &&& s1.cpus@ == cpus
    &&& s1.ioapicid == match w.1 {
        Some(id) => id,
        None => s0.ioapicid,
    }
    &&& cpus.len() != 0 ==> r == 0 && s1.ismp == 1 && s1.lapic == (le32(m, madt + 36) + DEVBASE - DEVSPACE)
        % 0x1_0000_0000_0000_0000
    &&& cpus.len() == 0 ==> r == -1 && s1.ismp == s0.ismp && s1.lapic == s0.lapic
}

/// Reads the MADT at physical address `madt` of `mem`: records each
/// usable processor's APIC id and the first I/O APIC's id.  When some
/// processor is known, marks the machine a multiprocessor, maps the local
/// APIC's address, and returns 0; else -1.
pub fn acpi_config_smp(mem: &Vec<u8>, madt: usize, smp: &mut SmpConfig) -> (r: i32)
    requires
        madt_ok(mem@, madt as int, old(smp).cpus@.len() as int),
    ensures
        madt_applied(mem@, madt as int, *old(smp), *final(smp), r),
{
    proof {
        assert(madt + MADT_SIZE <= mem.len());
    }
    let length = read_u32(mem, madt + 4) as usize;
    let lapic_addr = read_u32(mem, madt + 36);
    let e: usize = madt + length;
    let mut p: usize = madt + MADT_SIZE;
    let ghost w = madt_walk(mem@, p as int, e as int);
    let ghost c0 = old(smp).cpus@;
    let mut nioapic: u32 = 0;
    while p < e
        invariant
            e == madt + le32(mem@, madt + 4),
            e + 1 <= mem.len(),
            w == madt_walk(mem@, madt + MADT_SIZE, e as int),
            c0 == old(smp).cpus@,
            c0.len() + w.0.len() <= NCPU,
            madt + MADT_SIZE <= p,
            c0 + w.0 == smp.cpus@ + madt_walk(mem@, p as int, e as int).0,
            !madt_walk(mem@, p as int, e as int).2,
            nioapic > 0 ==> w.1 == Some(smp.ioapicid),
            nioapic == 0 ==> w.1 == madt_walk(mem@, p as int, e as int).1 && smp.ioapicid == old(smp).ioapicid,
            smp.ismp == old(smp).ismp && smp.lapic == old(smp).lapic,
            nioapic <= 0x1000_0000,
            p <= e + 256,
        ensures
            madt_walk(mem@, p as int, e as int).0.len() == 0,
            madt_walk(mem@, p as int, e as int).1 is None,
            c0 + w.0 == smp.cpus@ + madt_walk(mem@, p as int, e as int).0,
            nioapic > 0 ==> w.1 == Some(smp.ioapicid),
            nioapic == 0 ==> w.1 == madt_walk(mem@, p as int, e as int).1 && smp.ioapicid == old(smp).ioapicid,
            smp.ismp == old(smp).ismp && smp.lapic == old(smp).lapic,
        decreases e - p,
    {
        let len = mem[p + 1] as usize;
        if e - p < len {
            break;
        }
        let ty = mem[p];
        if ty == TYPE_LAPIC {
            if len < MADT_LAPIC_SIZE as usize {
                break;
            }
            let flags = read_u32(mem, p + 4);
            if flags & APIC_LAPIC_ENABLED == 0 {
                break;
            }
            let ghost rest = madt_walk(mem@, (p + len) as int, e as int);
            smp.cpus.push(mem[p + 3]);
            proof {
                assert(madt_walk(mem@, p as int, e as int).0 == seq![mem@[p + 3]] + rest.0);
                assert(c0 + w.0 =~= smp.cpus@ + rest.0);
            }
        } else if ty == TYPE_IOAPIC {
            if len < MADT_IOAPIC_SIZE as usize {
                break;
            }
            if nioapic == 0 {
                smp.ioapicid = mem[p + 2];
            }
            if nioapic < 0x1000_0000 {
                nioapic += 1;
            }
        } else if len == 0 {
            proof {
                assert(madt_walk(mem@, p as int, e as int).2);
            }
        }
        p += len;
    }
    proof {
        assert(smp.cpus@ =~= c0 + w.0);
    }
    if smp.cpus.len() != 0 {
        smp.ismp = 1;
        smp.lapic = io2v(lapic_addr as u64);
        return 0;
    }
    -1
}

/// Physical addresses above this are not mapped while the tables are read.
pub const PHYSLIMIT: u32 = 0x8000_0000;

/// "APIC", the MADT's signature.
pub open spec fn sig_madt() -> Seq<u8> {
    seq![0x41u8, 0x50, 0x49, 0x43]
}

/// Physical address of the root system description table that the
/// pointer at `rdsp` names.
pub open spec fn rsdt_addr(m: Seq<u8>, rdsp: int) -> int {
    le32(m, rdsp + 16)
}

/// Number of table addresses the root table at `rsdt` holds after its
/// header.
pub open spec fn rsdt_entries(m: Seq<u8>, rsdt: int) -> int {
    (le32(m, rsdt + 4) - DESC_HEADER_SIZE) / 4
}

/// The `i`-th table address of the root table at `rsdt`.
pub open spec fn rsdt_entry(m: Seq<u8>, rsdt: int, i: int) -> int {
    le32(m, rsdt + DESC_HEADER_SIZE + 4 * i)
}

/// The table at `a` is the MADT.
pub open spec fn is_madt(m: Seq<u8>, a: int) -> bool {
    m.subrange(a, a + 4) == sig_madt()
}

/// The look through the root table goes on past its `i`-th entry: the
/// table there is mapped and is not the MADT.
pub open spec fn entry_passes(m: Seq<u8>, rsdt: int, i: int) -> bool {
    rsdt_entry(m, rsdt, i) <= PHYSLIMIT && !is_madt(m, rsdt_entry(m, rsdt, i))
}

/// The look goes on past each of the first `i` entries.
pub open spec fn entries_pass(m: Seq<u8>, rsdt: int, i: int) -> bool {
    forall|j: int| 0 <= j < i ==> #[trigger] entry_passes(m, rsdt, j)
}

/// The root pointer's address, as `find_rdsp` finds it.
pub open spec fn rdsp_of(m: Seq<u8>) -> int {
    find_rdsp_spec(m)->0
}

/// What `acpiinit` reads lies in memory: the root pointer is found; when
/// its root table is mapped, the table's header and addresses are in
/// `m`, each table the look reaches has its signature in `m`, and a MADT
/// it reaches is fit to read beside the `ncpus` processors known.
pub open spec fn acpi_tables_ok(m: Seq<u8>, ncpus: int) -> bool {
    &&& m.len() >= 0x100400
    &&& find_rdsp_spec(m) is Some
    &&& {
        let rsdt = rsdt_addr(m, rdsp_of(m));
        let n = rsdt_entries(m, rsdt);
        rsdt <= PHYSLIMIT ==> {
            &&& rsdt + DESC_HEADER_SIZE <= m.len()
            &&& DESC_HEADER_SIZE <= le32(m, rsdt + 4)
            &&& rsdt + le32(m, rsdt + 4) <= m.len()
            &&& forall|i: int|
                0 <= i < n && entries_pass(m, rsdt, i) && rsdt_entry(m, rsdt, i) <= PHYSLIMIT ==> rsdt_entry(
                    m,
                    rsdt,
                    i,
                ) + 4 <= m.len()
            &&& forall|i: int|
                0 <= i < n && entries_pass(m, rsdt, i) && rsdt_entry(m, rsdt, i) <= PHYSLIMIT && is_madt(
                    m,
                    rsdt_entry(m, rsdt, i),
                ) ==> madt_ok(m, rsdt_entry(m, rsdt, i), ncpus)
        }
    }
}

/// A pointer that `scan_from` finds lies within the bytes it scans.
proof fn lemma_scan_within(m: Seq<u8>, p: int, len: int)
    ensures
        scan_from(m, p, len) matches Some(q) ==> p <= q && q + RDSP_SIZE <= p + len,
    decreases len,
{
    if len >= RDSP_SIZE && !rdsp_at(m, p) {
        lemma_scan_within(m, p + 4, len - 4);
    }
}

/// Whether the MADT's signature is at `a`.
fn madt_sig_at(m: &Vec<u8>, a: usize) -> (r: bool)
    requires
        a + 4 <= m.len(),
    ensures
        r == is_madt(m@, a as int),
{
    let r = m[a] == 0x41 && m[a + 1] == 0x50 && m[a + 2] == 0x49 && m[a + 3] == 0x43;
    proof {
        let w = m@.subrange(a as int, a + 4);
        if r {
            assert(w =~= sig_madt());
        } else if w == sig_madt() {
            assert(w[0] == sig_madt()[0] && w[1] == sig_madt()[1]);
            assert(w[2] == sig_madt()[2] && w[3] == sig_madt()[3]);
        }
    }
    r
}

/// Finds the ACPI tables in physical memory `mem` and reads the
/// multiprocessor's configuration from the MADT into `smp`.  Returns -1,
/// leaving `smp` as it was, when the root table or a table before the
/// MADT lies above the mapped limit, or when there is no MADT; else what
/// reading the MADT returns.
pub fn acpiinit(mem: &Vec<u8>, smp: &mut SmpConfig) -> (r: i32)
    requires
        acpi_tables_ok(mem@, old(smp).cpus@.len() as int),
    ensures
        ({
            let m = mem@;
            let rsdt = rsdt_addr(m, rdsp_of(m));
            let n = rsdt_entries(m, rsdt);
            &&& rsdt > PHYSLIMIT ==> r == -1 && *final(smp) == *old(smp)
            &&& rsdt <= PHYSLIMIT && entries_pass(m, rsdt, n) ==> r == -1 && *final(smp) == *old(smp)
            &&& forall|i: int|
                0 <= i < n && rsdt <= PHYSLIMIT && entries_pass(m, rsdt, i) && !#[trigger] entry_passes(
                    m,
                    rsdt,
                    i,
                ) ==> if rsdt_entry(m, rsdt, i) > PHYSLIMIT {
                    r == -1 && *final(smp) == *old(smp)
                } else {
                    madt_applied(m, rsdt_entry(m, rsdt, i), *old(smp), *final(smp), r)
                }
        }),
{
    let rdsp = find_rdsp(mem).unwrap();
    proof {
        let pa = crate::fs_layout::le16(mem@, 0x40E) * 16;
        lemma_scan_within(mem@, pa, 1024);
        lemma_scan_within(mem@, 0xE0000, 0x20000);
    }
    let rsdt_phys = read_u32(mem, rdsp + 16);
    let ghost m = mem@;
    let ghost rsdt_g = rsdt_addr(m, rdsp_of(m));
    if rsdt_phys > PHYSLIMIT {
        return -1;
    }
    let rsdt = rsdt_phys as usize;
    let length = read_u32(mem, rsdt + 4) as usize;
    let count: usize = (length - DESC_HEADER_SIZE) / 4;
    let mut i: usize = 0;
    while i < count
        invariant
            m == mem@,
            acpi_tables_ok(m, smp.cpus@.len() as int),
            rsdt == rsdt_addr(m, rdsp_of(m)),
            rsdt <= PHYSLIMIT,
            length == le32(m, rsdt + 4),
            DESC_HEADER_SIZE <= length,
            rsdt + length <= mem.len(),
            count == rsdt_entries(m, rsdt as int),
            i <= count,
            entries_pass(m, rsdt as int, i as int),
            *smp == *old(smp),
        decreases count - i,
    {
        assert(4 * i + 4 <= length - DESC_HEADER_SIZE) by (nonlinear_arith)
            requires
                i < count,
                count == (length - DESC_HEADER_SIZE) / 4,
                length >= DESC_HEADER_SIZE,
        ;
        let entry = read_u32(mem, rsdt + DESC_HEADER_SIZE + 4 * i);
        if entry > PHYSLIMIT {
            proof {
                assert(!entry_passes(m, rsdt as int, i as int));
                assert forall|k: int|
                    0 <= k < count && entries_pass(m, rsdt as int, k) && !#[trigger] entry_passes(
                        m,
                        rsdt as int,
                        k,
                    ) implies k == i by {
                    if k < i {
                        assert(entry_passes(m, rsdt as int, k));
                    } else if k > i {
                        assert(entry_passes(m, rsdt as int, i as int));
                    }
                }
            }
            return -1;
        }
        let a = entry as usize;
        if madt_sig_at(mem, a) {
            proof {
                assert(!entry_passes(m, rsdt as int, i as int));
                assert forall|k: int|
                    0 <= k < count && entries_pass(m, rsdt as int, k) && !#[trigger] entry_passes(
                        m,
                        rsdt as int,
                        k,
                    ) implies k == i by {
                    if k < i {
                        assert(entry_passes(m, rsdt as int, k));
                    } else if k > i {
                        assert(entry_passes(m, rsdt as int, i as int));
                    }
                }
            }
            return acpi_config_smp(mem, a, smp);
        }
        proof {
            assert(entry_passes(m, rsdt as int, i as int));
            assert forall|j: int| 0 <= j < i + 1 implies #[trigger] entry_passes(m, rsdt as int, j) by {
                if j < i {
                    assert(entry_passes(m, rsdt as int, j));
                }
            }
        }
        i += 1;
    }
    -1
}

/// A MADT entry for a local APIC is laid out as its type (0), its length,
/// the ACPI processor id, the APIC id, and then 32 bits of flags whose bit
/// 0 says the processor is enabled.  For an enabled entry at `p` that lies
/// in the table, the processor recorded is the APIC id, the entry's fourth
/// byte at `p + 3` (not the ACPI processor id at `p + 2`), and the walk
/// goes on after the entry.
pub proof fn lemma_madt_lapic_apic_id(m: Seq<u8>, p: int, e: int)
    requires
        0 <= p,
        p + 8 <= e <= m.len(),
        m[p] == 0u8,
        8 <= m[p + 1],
        p + m[p + 1] <= e,
        le32(m, p + 4) as u32 & 1u32 != 0,
    ensures
        madt_walk(m, p, e).0.len() >= 1,
        madt_walk(m, p, e).0[0] == m[p + 3],
        madt_walk(m, p, e).0 == seq![m[p + 3]] + madt_walk(m, p + m[p + 1], e).0,
        madt_walk(m, p, e).1 == madt_walk(m, p + m[p + 1], e).1,
{
}

/// `acpi_config_smp` appends to the known processors the APIC id (byte 3)
/// of a first MADT entry that is an enabled local APIC.
pub proof fn lemma_config_records_apic_id(m: Seq<u8>, madt: int, s0: SmpConfig, s1: SmpConfig, r: i32)
    requires
        madt_applied(m, madt, s0, s1, r),
        0 <= madt,
        madt + MADT_SIZE + 8 <= madt + le32(m, madt + 4) <= m.len(),
        m[madt + 44] == 0u8,
        8 <= m[madt + 45],
        madt + 44 + m[madt + 45] <= madt + le32(m, madt + 4),
        le32(m, madt + 48) as u32 & 1u32 != 0,
    ensures
        s1.cpus@.len() > s0.cpus@.len(),
        s1.cpus@[s0.cpus@.len() as int] == m[madt + 47],
{
    lemma_madt_lapic_apic_id(m, madt + 44, madt + le32(m, madt + 4));
}

/// A MADT entry for an I/O APIC is laid out as its type (1), its length,
/// the I/O APIC id, a reserved byte, then its address and first interrupt.
/// For such an entry at `p` that lies in the table, the walk records the
/// id, the entry's third byte at `p + 2`, as the I/O APIC (the first one
/// wins over later ones) and records no processor for it.
pub proof fn lemma_madt_ioapic_id(m: Seq<u8>, p: int, e: int)
    requires
        0 <= p,
        p + 12 <= e <= m.len(),
        m[p] == 1u8,
        12 <= m[p + 1],
        p + m[p + 1] <= e,
    ensures
        madt_walk(m, p, e).1 == Some(m[p + 2]),
        madt_walk(m, p, e).0 == madt_walk(m, p + m[p + 1], e).0,
{
}

/// A local-APIC entry whose enabled flag (bit 0 of the flags at `p + 4`)
/// is clear ends the walk: no processor from it or after it is recorded.
pub proof fn lemma_madt_disabled_stops(m: Seq<u8>, p: int, e: int)
    requires
        0 <= p,
        p + 8 <= e <= m.len(),
        m[p] == 0u8,
        8 <= m[p + 1],
        p + m[p + 1] <= e,
        le32(m, p + 4) as u32 & 1u32 == 0,
    ensures
        madt_walk(m, p, e).0.len() == 0,
{
}

} // verus!
