//! x86 memory-management unit: page-table index arithmetic and the
//! segment and gate descriptors.
use vstd::prelude::*;

verus! {

// Eflags register
pub const FL_CF: u32 = 0x00000001;
pub const FL_PF: u32 = 0x00000004;
pub const FL_AF: u32 = 0x00000010;
pub const FL_ZF: u32 = 0x00000040;
pub const FL_SF: u32 = 0x00000080;
pub const FL_TF: u32 = 0x00000100;
pub const FL_IF: u32 = 0x00000200;
pub const FL_DF: u32 = 0x00000400;
pub const FL_OF: u32 = 0x00000800;
pub const FL_IOPL_MASK: u32 = 0x00003000;
pub const FL_IOPL_0: u32 = 0x00000000;
pub const FL_IOPL_1: u32 = 0x00001000;
pub const FL_IOPL_2: u32 = 0x00002000;
pub const FL_IOPL_3: u32 = 0x00003000;
pub const FL_NT: u32 = 0x00004000;
pub const FL_RF: u32 = 0x00010000;
pub const FL_VM: u32 = 0x00020000;
pub const FL_AC: u32 = 0x00040000;
pub const FL_VIF: u32 = 0x00080000;
pub const FL_VIP: u32 = 0x00100000;
pub const FL_ID: u32 = 0x00200000;

// Control Register flags
pub const CR0_PE: u32 = 0x00000001;
pub const CR0_MP: u32 = 0x00000002;
pub const CR0_EM: u32 = 0x00000004;
pub const CR0_TS: u32 = 0x00000008;
pub const CR0_ET: u32 = 0x00000010;
pub const CR0_NE: u32 = 0x00000020;
pub const CR0_WP: u32 = 0x00010000;
pub const CR0_AM: u32 = 0x00040000;
pub const CR0_NW: u32 = 0x20000000;
pub const CR0_CD: u32 = 0x40000000;
pub const CR0_PG: u32 = 0x80000000;
pub const CR4_PSE: u32 = 0x00000010;

pub const SEG_KCODE: u32 = 1;
pub const SEG_KDATA: u32 = 2;
pub const SEG_KCPU: u32 = 3;
pub const SEG_UCODE: u32 = 4;
pub const SEG_UDATA: u32 = 5;
pub const SEG_TSS: u32 = 6;

pub const DPL_USER: u32 = 0x3;

// Application segment type bits
pub const STA_X: u32 = 0x8;
pub const STA_E: u32 = 0x4;
pub const STA_C: u32 = 0x4;
pub const STA_W: u32 = 0x2;
pub const STA_R: u32 = 0x2;
pub const STA_A: u32 = 0x1;

// System segment type bits
pub const STS_T16A: u32 = 0x1;
pub const STS_LDT: u32 = 0x2;
pub const STS_T16B: u32 = 0x3;
pub const STS_CG16: u32 = 0x4;
pub const STS_TG: u32 = 0x5;
pub const STS_IG16: u32 = 0x6;
pub const STS_TG16: u32 = 0x7;
pub const STS_T32A: u32 = 0x9;
pub const STS_T32B: u32 = 0xB;
pub const STS_CG32: u32 = 0xC;
pub const STS_IG32: u32 = 0xE;
pub const STS_TG32: u32 = 0xF;

/// Directory entries per page directory.
pub const NPDENTRIES: u64 = 512;
/// Page-table entries per page table.
pub const NPTENTRIES: u64 = 512;
/// Bytes mapped by a page.
pub const PGSIZE: u64 = 4096;
/// log2(PGSIZE).
pub const PGSHIFT: u64 = 12;
/// Offset of the page-table index in a linear address.
pub const PTXSHIFT: u64 = 12;
/// Offset of the page-directory index in a linear address.
pub const PDXSHIFT: u64 = 21;
/// Mask of one index field.
pub const PXMASK: u64 = 0x1FF;

pub const PTE_P: u32 = 0x001;
pub const PTE_W: u32 = 0x002;
pub const PTE_U: u32 = 0x004;
pub const PTE_PWT: u32 = 0x008;
pub const PTE_PCD: u32 = 0x010;
pub const PTE_A: u32 = 0x020;
pub const PTE_D: u32 = 0x040;
pub const PTE_PS: u32 = 0x080;
pub const PTE_MBZ: u32 = 0x180;

/// The page-directory index of a virtual address: bits 21..30.
pub open spec fn pdx_spec(va: int) -> int {
    (va / 0x200000) % 512
}

/// The page-table index of a virtual address: bits 12..21.
pub open spec fn ptx_spec(va: int) -> int {
    (va / 4096) % 512
}

/// Address held in a page-table entry: the entry with its low 12 bits cleared.
pub fn pte_addr(pte: u64) -> (r: u64)
    ensures
        r == pte - pte % 4096,
{
    assert(pte & !0xFFFu64 == pte - pte % 4096) by (bit_vector);
    pte & !0xFFF
}

/// Flags of a page-table entry: its low 12 bits.
pub fn pte_flags(pte: u64) -> (r: u64)
    ensures
        r == pte % 4096,
{
    assert(pte & 0xFFFu64 == pte % 4096) by (bit_vector);
    pte & 0xFFF
}

/// Page-directory index of `va`.
pub fn pdx(va: u64) -> (r: u64)
    ensures
        r == pdx_spec(va as int),
        r < 512,
{
    assert((va >> 21u64) & 0x1FFu64 == (va / 0x200000) % 512) by (bit_vector);
    (va >> PDXSHIFT) & PXMASK
}

/// Page-table index of `va`.
pub fn ptx(va: u64) -> (r: u64)
    ensures
        r == ptx_spec(va as int),
        r < 512,
{
    assert((va >> 12u64) & 0x1FFu64 == (va / 4096) % 512) by (bit_vector);
    (va >> PTXSHIFT) & PXMASK
}

/// Builds a virtual address from a directory index, a table index and an
/// offset.  Bits shifted out of 64 are lost.
pub fn pgaddr(d: u64, t: u64, o: u64) -> (r: u64)
    ensures
        r == (d << 21u64) | (t << 12u64) | o,
        d < 512 && t < 512 && o < 4096 ==> r == d * 0x200000 + t * 4096 + o,
{
    let r = (d << PDXSHIFT) | (t << PTXSHIFT) | o;
    if d < 512 && t < 512 && o < 4096 {
        assert(d < 512 && t < 512 && o < 4096 ==> (d << 21u64) | (t << 12u64) | o == d * 0x200000
            + t * 4096 + o) by (bit_vector);
    }
    r
}

/// The smallest multiple of PGSIZE that is at least `sz`.
pub fn pgroundup(sz: u64) -> (r: u64)
    requires
        sz + (PGSIZE - 1) <= u64::MAX,
    ensures
        r % 4096 == 0,
        sz <= r,
        r - sz < 4096,
{
    let s1: u64 = sz + (PGSIZE - 1);
    let r: u64 = s1 & !(PGSIZE - 1);
    assert(s1 == sz + 4095 ==> (s1 & !4095u64) >= sz && (s1 & !4095u64) - sz < 4096
        && (s1 & !4095u64) % 4096 == 0) by (bit_vector);
    r
}

/// The largest multiple of PGSIZE that is at most `a`.
pub fn pgrounddown(a: u64) -> (r: u64)
    ensures
        r == a - a % 4096,
{
    assert(a & !4095u64 == a - a % 4096) by (bit_vector);
    a & !(PGSIZE - 1)
}

/// Splitting a virtual address below 1 GiB into its directory index, table
/// index and page offset and joining them again gives the address back.
pub proof fn lemma_pgaddr_of_indices(va: u64)
    requires
        va < 0x4000_0000,
    ensures
        ({
            let d = pdx_spec(va as int);
            let t = ptx_spec(va as int);
            d * 0x200000 + t * 4096 + va % 4096 == va
        }),
{
    assert(va < 0x4000_0000 ==> ((va / 0x200000) % 512) * 0x200000 + ((va / 4096) % 512) * 4096
        + va % 4096 == va) by (bit_vector);
}

/// Rounding down never goes above the address and keeps exactly the
/// page-aligned addresses; what `pgroundup` returns (the page multiple at
/// most one page above, `r` here) is rounding down `a + PGSIZE - 1`.
pub proof fn lemma_round_down_up(a: u64, r: u64)
    requires
        a + 4095 <= u64::MAX,
    ensures
        a - a % 4096 <= a,
        a % 4096 == 0 <==> a - a % 4096 == a,
        r % 4096 == 0 && a <= r && r - a < 4096 ==> r == (a + 4095) - (a + 4095) % 4096,
{
}

/// A segment descriptor, field by field.
pub struct Segdesc {
    pub lim_15_0: u16,
    pub base_15_0: u16,
    pub base_23_16: u8,
    pub type_: u8,
    pub s: u8,
    pub dpl: u8,
    pub p: u8,
    pub lim_19_16: u8,
    pub avl: u8,
    pub rsv1: u8,
    pub db: u8,
    pub g: u8,
    pub base_31_24: u8,
}

impl Segdesc {
    /// A present, 32-bit application segment whose limit is counted in 4K
    /// pages.
    pub fn new(type_: u8, base: u64, lim: u64, dpl: u8) -> (r: Self)
        ensures
            r.lim_15_0 == (lim / 4096) % 0x10000,
            r.base_15_0 == base % 0x10000,
            r.base_23_16 == (base / 0x10000) % 0x100,
            r.type_ == type_,
            r.s == 1,
            r.dpl == dpl,
            r.p == 1,
            r.lim_19_16 == (lim / 0x1000_0000) % 0x10,
            r.avl == 0,
            r.rsv1 == 0,
            r.db == 1,
            r.g == 1,
            r.base_31_24 == (base / 0x100_0000) % 0x100,
    {
        assert(((lim >> 12u64) & 0xffffu64 == (lim / 4096) % 0x10000)
            && (base & 0xffffu64 == base % 0x10000)
            && ((base >> 16u64) & 0xffu64 == (base / 0x10000) % 0x100)
            && ((lim >> 28u64) & 0xfu64 == (lim / 0x1000_0000) % 0x10)
            && ((base >> 24u64) & 0xffu64 == (base / 0x100_0000) % 0x100)) by (bit_vector);
        Segdesc {
            lim_15_0: ((lim >> 12) & 0xffff) as u16,
            base_15_0: (base & 0xffff) as u16,
            base_23_16: ((base >> 16) & 0xff) as u8,
            type_,
            s: 1,
            dpl,
            p: 1,
            lim_19_16: ((lim >> 28) & 0xf) as u8,
            avl: 0,
            rsv1: 0,
            db: 1,
            g: 1,
            base_31_24: ((base >> 24) & 0xff) as u8,
        }
    }

    /// A present application segment whose limit is counted in bytes.
    pub fn new16(type_: u8, base: u64, lim: u64, dpl: u8) -> (r: Self)
        ensures
            r.lim_15_0 == lim % 0x10000,
            r.base_15_0 == base % 0x10000,
            r.base_23_16 == (base / 0x10000) % 0x100,
            r.type_ == type_,
            r.s == 1,
            r.dpl == dpl,
            r.p == 1,
            r.lim_19_16 == (lim / 0x10000) % 0x10,
            r.avl == 0,
            r.rsv1 == 0,
            r.db == 1,
            r.g == 0,
            r.base_31_24 == (base / 0x100_0000) % 0x100,
    {
        assert((lim & 0xffffu64 == lim % 0x10000)
            && (base & 0xffffu64 == base % 0x10000)
            && ((base >> 16u64) & 0xffu64 == (base / 0x10000) % 0x100)
            && ((lim >> 16u64) & 0xfu64 == (lim / 0x10000) % 0x10)
            && ((base >> 24u64) & 0xffu64 == (base / 0x100_0000) % 0x100)) by (bit_vector);
        Segdesc {
            lim_15_0: (lim & 0xffff) as u16,
            base_15_0: (base & 0xffff) as u16,
            base_23_16: ((base >> 16) & 0xff) as u8,
            type_,
            s: 1,
            dpl,
            p: 1,
            lim_19_16: ((lim >> 16) & 0xf) as u8,
            avl: 0,
            rsv1: 0,
            db: 1,
            g: 0,
            base_31_24: ((base >> 24) & 0xff) as u8,
        }
    }
}

/// Task state segment; the pointer fields are held as addresses.
pub struct Taskstate {
    pub link: u32,
    pub esp0: u32,
    pub ss0: u16,
    pub padding1: u16,
    pub esp1: u64,
    pub ss1: u16,
    pub padding2: u16,
    pub esp2: u64,
    pub ss2: u16,
    pub padding3: u16,
    pub cr3: u64,
    pub eip: u64,
    pub eflags: u32,
    pub eax: u32,
    pub ecx: u32,
    pub edx: u32,
    pub ebx: u32,
    pub esp: u64,
    pub ebp: u64,
    pub esi: u32,
    pub edi: u32,
    pub es: u16,
    pub padding4: u16,
    pub cs: u16,
    pub padding5: u16,
    pub ss: u16,
    pub padding6: u16,
    pub ds: u16,
    pub padding7: u16,
    pub fs: u16,
    pub padding8: u16,
    pub gs: u16,
    pub padding9: u16,
    pub ldt: u16,
    pub padding10: u16,
    pub t: u16,
    pub iomb: u16,
}

/// An interrupt or trap gate descriptor.
pub struct Gatedesc {
    pub off_15_0: u16,
    pub cs: u16,
    pub args: u8,
    pub rsv1: u8,
    pub type_: u8,
    pub s: u8,
    pub dpl: u8,
    pub p: u8,
    pub off_31_16: u16,
}

impl Gatedesc {
    /// Sets up a present interrupt gate, or a trap gate when `istrap`, that
    /// enters segment `sel` at offset `off` and may be raised from
    /// privilege level `d`.
    pub fn set_gate(&mut self, istrap: bool, sel: u16, off: u64, d: u8)
        ensures
            final(self).off_15_0 == off % 0x10000,
            final(self).cs == sel,
            final(self).args == 0,
            final(self).rsv1 == 0,
            final(self).type_ == (if istrap { STS_TG32 } else { STS_IG32 }),
            final(self).s == 0,
            final(self).dpl == d,
            final(self).p == 1,
            final(self).off_31_16 == (off / 0x10000) % 0x10000,
    {
        assert((off & 0xffffu64 == off % 0x10000)
            && ((off >> 16u64) & 0xffffu64 == (off / 0x10000) % 0x10000)) by (bit_vector);
        self.off_15_0 = (off & 0xffff) as u16;
        self.cs = sel;
        self.args = 0;
        self.rsv1 = 0;
        self.type_ = if istrap { STS_TG32 as u8 } else { STS_IG32 as u8 };
        self.s = 0;
        self.dpl = d;
        self.p = 1;
        self.off_31_16 = ((off >> 16) & 0xffff) as u16;
    }
}

/// The pseudo-descriptor that loads a descriptor table at address `p`,
/// `size` bytes long: the table's limit, then its address in 16-bit
/// pieces, low first.
pub open spec fn pseudo_desc(p: u64, size: i32) -> Seq<u16> {
    seq![
        (size - 1) as u16,
        (p % 0x1_0000) as u16,
        ((p / 0x1_0000) % 0x1_0000) as u16,
        ((p / 0x1_0000_0000) % 0x1_0000) as u16,
        (p / 0x1_0000_0000_0000) as u16,
    ]
}

fn pseudo_desc_words(p: u64, size: i32) -> (r: Vec<u16>)
    requires
        size > i32::MIN,
    ensures
        r@ == pseudo_desc(p, size),
{
    let mut pd: Vec<u16> = Vec::new();
    pd.push((size - 1) as u16);
    pd.push((p % 0x1_0000) as u16);
    pd.push(((p / 0x1_0000) % 0x1_0000) as u16);
    pd.push(((p / 0x1_0000_0000) % 0x1_0000) as u16);
    pd.push((p / 0x1_0000_0000_0000) as u16);
    proof {
        assert(pd@ =~= pseudo_desc(p, size));
    }
    pd
}

/// The pseudo-descriptor that `lgdt` loads for the global descriptor
/// table at `p`, `size` bytes long.
pub fn lgdt(p: u64, size: i32) -> (r: Vec<u16>)
    requires
        size > i32::MIN,
    ensures
        r@ == pseudo_desc(p, size),
{
    pseudo_desc_words(p, size)
}

/// The pseudo-descriptor that `lidt` loads for the interrupt descriptor
/// table at `p`, `size` bytes long.
pub fn lidt(p: u64, size: i32) -> (r: Vec<u16>)
    requires
        size > i32::MIN,
    ensures
        r@ == pseudo_desc(p, size),
{
    pseudo_desc_words(p, size)
}

} // verus!
