//! The boot loader's decisions: finding the multiboot header among the
//! first sectors of the kernel image, what to load and where, and which
//! disk sectors a segment is read from.
use vstd::prelude::*;
use crate::fs_layout::{le32, read_u32};
use crate::ide::IdeOp;

verus! {

/// Size of a disk sector.
pub const SECTSIZE: u32 = 512;
/// Magic number a multiboot header starts with.
pub const MB_MAGIC: u32 = 0x1BADB002;
/// Header flag: the load address fields are valid.
pub const MB_LOAD_FIELDS: u32 = 0x10000;
/// Bytes of the image the multiboot header must lie in.
pub const MB_SEARCH: usize = 8192;

/// A multiboot header.
#[derive(Clone, Copy, PartialEq, Eq, Structural, Debug)]
pub struct MbHeader {
    pub magic: u32,
    pub flags: u32,
    pub checksum: u32,
    pub header_addr: u32,
    pub load_addr: u32,
    pub load_end_addr: u32,
    pub bss_end_addr: u32,
    pub entry_addr: u32,
}

/// Word `n` of the image.
pub open spec fn word(b: Seq<u8>, n: int) -> u32 {
    le32(b, 4 * n) as u32
}

/// A multiboot header starts at word `n`: its magic number, and magic,
/// flags and checksum summing to 0 modulo 2^32.
pub open spec fn mb_at(b: Seq<u8>, n: int) -> bool {
    word(b, n) == MB_MAGIC && (word(b, n) + word(b, n + 1) + word(b, n + 2)) % 0x1_0000_0000 == 0
}

/// Word `n` is the first where a multiboot header starts, among the
/// words of the first `MB_SEARCH` bytes.
pub open spec fn first_mb(b: Seq<u8>, n: int) -> bool {
    &&& 0 <= n < MB_SEARCH / 4
    &&& mb_at(b, n)
    &&& forall|k: int| 0 <= k < n ==> !#[trigger] mb_at(b, k)
}

/// The header at word `n`.
pub open spec fn mb_header(b: Seq<u8>, n: int) -> MbHeader {
    MbHeader {
        magic: word(b, n),
        flags: word(b, n + 1),
        checksum: word(b, n + 2),
        header_addr: word(b, n + 3),
        load_addr: word(b, n + 4),
        load_end_addr: word(b, n + 5),
        bss_end_addr: word(b, n + 6),
        entry_addr: word(b, n + 7),
    }
}

/// The header can be loaded: it has the load fields, the load address is
/// not after the header's, and the load end not before the load address.
pub open spec fn mb_loadable(h: MbHeader) -> bool {
    &&& h.flags & MB_LOAD_FIELDS != 0
    &&& h.load_addr <= h.header_addr
    &&& h.load_end_addr >= h.load_addr
}

/// What the boot loader loads: `count` bytes of the image from byte
/// `offset` to `load_addr`, `bss_len` zero bytes at `bss_start`, then it
/// jumps to `entry`.
#[derive(Clone, Copy, PartialEq, Eq, Structural, Debug)]
pub struct BootLoad {
    pub load_addr: u32,
    pub count: u32,
    pub offset: u32,
    pub bss_start: u32,
    pub bss_len: u32,
    pub entry: u32,
}

/// Decides how to load the kernel from the first bytes of its image `b`:
/// finds the first multiboot header in the first `MB_SEARCH` bytes; when
/// it can be loaded, returns where its segment lies in the image and in
/// memory, the memory to zero after it, and the entry point.  `None` when
/// there is no header, or the first one cannot be loaded.
pub fn bootmain(b: &Vec<u8>) -> (r: Option<BootLoad>)
    requires
        b.len() >= MB_SEARCH + 32,
    ensures
        r is Some <==> exists|n: int| first_mb(b@, n) && mb_loadable(mb_header(b@, n)),
        forall|n: int|
            first_mb(b@, n) && mb_loadable(mb_header(b@, n)) ==> ({
                let h = mb_header(b@, n);
                let l = r->0;
                &&& l.load_addr == h.load_addr
                &&& l.count == h.load_end_addr - h.load_addr
                &&& l.offset == (4 * n - (h.header_addr - h.load_addr)) % 0x1_0000_0000
                &&& l.bss_start == h.load_end_addr
                &&& l.bss_len == if h.bss_end_addr > h.load_end_addr { h.bss_end_addr - h.load_end_addr } else { 0 }
                &&& l.entry == h.entry_addr
            }),
{
    let mut n: usize = 0;
    while n < MB_SEARCH / 4
        invariant
            b.len() >= MB_SEARCH + 32,
            n <= MB_SEARCH / 4,
            forall|k: int| 0 <= k < n ==> !#[trigger] mb_at(b@, k),
        decreases MB_SEARCH / 4 - n,
    {
        let w0 = read_u32(b, 4 * n);
        if w0 == MB_MAGIC {
            let w1 = read_u32(b, 4 * n + 4);
            let w2 = read_u32(b, 4 * n + 8);
            let sum = w0.wrapping_add(w1).wrapping_add(w2);
            proof {
                assert(sum == (w0 + w1 + w2) % 0x1_0000_0000) by (bit_vector)
                    requires
                        sum == w0.wrapping_add(w1).wrapping_add(w2),
                ;
            }
            if sum == 0 {
                let h = MbHeader {
                    magic: w0,
                    flags: w1,
                    checksum: w2,
                    header_addr: read_u32(b, 4 * n + 12),
                    load_addr: read_u32(b, 4 * n + 16),
                    load_end_addr: read_u32(b, 4 * n + 20),
                    bss_end_addr: read_u32(b, 4 * n + 24),
                    entry_addr: read_u32(b, 4 * n + 28),
                };
                proof {
                    assert(first_mb(b@, n as int));
                    assert(h == mb_header(b@, n as int));
                    assert forall|m: int| first_mb(b@, m) implies m == n by {
                        if m < n {
                            assert(!mb_at(b@, m));
                        } else if m > n {
                            assert(!mb_at(b@, n as int));
                        }
                    }
                }
                if h.flags & MB_LOAD_FIELDS == 0 || h.load_addr > h.header_addr || h.load_end_addr < h.load_addr {
                    return None;
                }
                let off = ((4 * n) as u32).wrapping_sub(h.header_addr - h.load_addr);
                proof {
                    let a = (4 * n) as u32;
                    let d = (h.header_addr - h.load_addr) as u32;
                    assert(off == (a - d) % 0x1_0000_0000) by (bit_vector)
                        requires
                            off == a.wrapping_sub(d),
                    ;
                }
                let bss_len = if h.bss_end_addr > h.load_end_addr {
                    h.bss_end_addr - h.load_end_addr
                } else {
                    0
                };
                return Some(
                    BootLoad {
                        load_addr: h.load_addr,
                        count: h.load_end_addr - h.load_addr,
                        offset: off,
                        bss_start: h.load_end_addr,
                        bss_len,
                        entry: h.entry_addr,
                    },
                );
            }
        }
        n += 1;
    }
    None
}

/// The sectors `readseg` reads to bring `count` bytes from byte `offset`
/// of the image to address `pa`: it starts at `pa` less the offset within
/// the first sector, reads whole sectors in order from the one holding
/// the offset (the image starting at sector 1), until the end address is
/// reached.  Returns each sector's destination and number.
pub fn readseg(pa: u32, count: u32, offset: u32) -> (r: Vec<(u32, u32)>)
    requires
        pa + count <= u32::MAX,
        offset % SECTSIZE <= pa,
        offset / SECTSIZE + (count + 512) / 512 + 2 <= u32::MAX,
    ensures
        ({
            let start = pa - offset % SECTSIZE;
            let end = pa + count;
            &&& r@.len() == (end - start + SECTSIZE - 1) / SECTSIZE as int
            &&& forall|k: int| 0 <= k < r@.len() ==> #[trigger] r@[k] == ((start + 512 * k) as u32, (offset
                / SECTSIZE + 1 + k) as u32)
        }),
{
    let epa: u64 = pa as u64 + count as u64;
    let start: u64 = (pa - offset % SECTSIZE) as u64;
    let mut p: u64 = start;
    let mut sect: u32 = offset / SECTSIZE + 1;
    let mut r: Vec<(u32, u32)> = Vec::new();
    while p < epa
        invariant
            epa == pa + count,
            start == pa - offset % SECTSIZE,
            start <= p,
            p == start + 512 * r@.len(),
            p <= epa + 512,
            sect == offset / SECTSIZE + 1 + r@.len(),
            r@.len() <= (epa - start + 511) / 512,
            offset / SECTSIZE + (count + 512) / 512 + 2 <= u32::MAX,
            offset % SECTSIZE < 512,
            forall|k: int| 0 <= k < r@.len() ==> #[trigger] r@[k] == ((start + 512 * k) as u32, (offset / SECTSIZE
                + 1 + k) as u32),
        decreases epa + 512 - p,
    {
        r.push((p as u32, sect));
        proof {
            assert(r@.len() <= (epa - start + 511) / 512) by (nonlinear_arith)
                requires
                    p == start + 512 * (r@.len() - 1),
                    p < epa,
                    start <= p,
            ;
            assert((epa - start + 511) / 512 <= (count + 512) / 512 + 1) by (nonlinear_arith)
                requires
                    epa == pa + count,
                    start == pa - offset % SECTSIZE,
                    offset % SECTSIZE < 512,
                    pa >= offset % SECTSIZE,
            ;
        }
        p = p + 512;
        sect = sect + 1;
    }
    proof {
        assert(r@.len() == (epa - start + 511) / 512) by (nonlinear_arith)
            requires
                p == start + 512 * r@.len(),
                p >= epa,
                p < epa + 512 || r@.len() == 0,
                r@.len() <= (epa - start + 511) / 512,
                start <= epa,
        ;
    }
    r
}

/// One reading `status` of the disk's status register while the boot
/// loader waits for the disk: whether it is ready (not busy, and ready),
/// so that the wait ends.
pub fn waitdisk(status: u8) -> (r: bool)
    ensures
        r == (status & 0xC0 == 0x40),
{
    status & 0xC0 == 0x40
}

/// What `readsect` does to read sector `offset`: wait for the disk, ask
/// for one sector at the offset (its three low bytes, then the top byte
/// with the LBA flags), command a read, wait again, and read the data.
pub open spec fn readsect_ops(offset: u32) -> Seq<IdeOp> {
    seq![
        IdeOp::Wait,
        IdeOp::Outb(0x1F2, 1),
        IdeOp::Outb(0x1F3, (offset % 256) as u8),
        IdeOp::Outb(0x1F4, ((offset / 256) % 256) as u8),
        IdeOp::Outb(0x1F5, ((offset / 0x1_0000) % 256) as u8),
        IdeOp::Outb(0x1F6, ((offset / 0x100_0000) as u8) | 0xE0u8),
        IdeOp::Outb(0x1F7, 0x20),
        IdeOp::Wait,
        IdeOp::ReadData,
    ]
}

/// Reads disk sector `offset`: returns the steps to perform, in order.
pub fn readsect(offset: u32) -> (r: Vec<IdeOp>)
    ensures
        r@ == readsect_ops(offset),
{
    let mut ops: Vec<IdeOp> = Vec::new();
    ops.push(IdeOp::Wait);
    ops.push(IdeOp::Outb(0x1F2, 1));
    ops.push(IdeOp::Outb(0x1F3, (offset % 256) as u8));
    ops.push(IdeOp::Outb(0x1F4, ((offset / 256) % 256) as u8));
    ops.push(IdeOp::Outb(0x1F5, ((offset / 0x1_0000) % 256) as u8));
    ops.push(IdeOp::Outb(0x1F6, ((offset / 0x100_0000) as u8) | 0xE0));
    ops.push(IdeOp::Outb(0x1F7, 0x20));
    ops.push(IdeOp::Wait);
    ops.push(IdeOp::ReadData);
    proof {
        assert(ops@ =~= readsect_ops(offset));
    }
    ops
}

} // verus!
