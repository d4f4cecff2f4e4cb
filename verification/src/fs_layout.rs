//! On-disk layout of the file system: super block, inodes, bitmap and
//! directory entries, and the little-endian encoding of their fields.
use vstd::prelude::*;

verus! {

/// Root i-number.
pub const ROOTINO: u32 = 1;
/// Block size in bytes.
pub const BSIZE: u32 = 512;
/// Direct block addresses per inode.
pub const NDIRECT: usize = 10;
/// Block addresses held by the indirect block.
pub const NINDIRECT: usize = 128;
/// Largest file, in blocks.
pub const MAXFILE: usize = 138;
/// Size of an on-disk inode in bytes.
pub const DINODE_SIZE: usize = 64;
/// Inodes per block.
pub const IPB: usize = 8;
/// Bitmap bits per block.
pub const BPB: usize = 4096;
/// Length of a name in a directory entry.
pub const DIRSIZ: usize = 14;
/// Size of a directory entry in bytes.
pub const DIRENT_SIZE: usize = 16;

/// File system super block.
#[derive(Clone, Copy, PartialEq, Eq, Structural, Debug)]
pub struct Superblock {
    /// Size of the file system image, in blocks.
    pub size: u32,
    /// Number of data blocks.
    pub nblocks: u32,
    /// Number of inodes.
    pub ninodes: u32,
    /// Number of log blocks.
    pub nlog: u32,
}

/// On-disk inode structure.
#[derive(Debug)]
pub struct Dinode {
    pub type_: i16,
    pub major: i16,
    pub minor: i16,
    pub nlink: i16,
    pub ownerid: i16,
    pub groupid: i16,
    pub mode: u32,
    pub size: u32,
    /// Data block addresses: `NDIRECT` direct ones, then the indirect block.
    pub addrs: Vec<u32>,
}

/// A directory entry: an inode number and a name padded with zero bytes.
#[derive(Debug)]
pub struct Dirent {
    pub inum: u16,
    pub name: Vec<u8>,
}

/// Block that holds inode `i`.
pub open spec fn iblock_spec(i: int) -> int {
    i / 8 + 2
}

/// Block that holds the bitmap bit of block `b`.
pub open spec fn bblock_spec(b: int, ninodes: int) -> int {
    b / 4096 + ninodes / 8 + 3
}

/// Block containing inode `i`.
pub fn iblock(i: usize) -> (r: usize)
    requires
        i / 8 + 2 <= usize::MAX,
    ensures
        r == iblock_spec(i as int),
{
    i / IPB + 2
}

/// Block containing the bitmap bit for block `b`.
pub fn bblock(b: usize, ninodes: usize) -> (r: usize)
    requires
        b / 4096 + ninodes / 8 + 3 <= usize::MAX,
    ensures
        r == bblock_spec(b as int, ninodes as int),
{
    b / BPB + ninodes / IPB + 3
}

/// Little-endian 16-bit value at `off`.
pub open spec fn le16(s: Seq<u8>, off: int) -> int {
    s[off] + s[off + 1] * 256
}

/// Little-endian 32-bit value at `off`.
pub open spec fn le32(s: Seq<u8>, off: int) -> int {
    s[off] + s[off + 1] * 256 + s[off + 2] * 65536 + s[off + 3] * 16777216
}

/// Two's-complement reading of a 16-bit value.
pub open spec fn as_signed16(v: int) -> int {
    if v >= 32768 {
        v - 65536
    } else {
        v
    }
}

/// Reads a little-endian `u32` at `off`.
pub fn read_u32(s: &Vec<u8>, off: usize) -> (r: u32)
    requires
        off + 4 <= s.len(),
    ensures
        r == le32(s@, off as int),
{
    s[off] as u32 + s[off + 1] as u32 * 256 + s[off + 2] as u32 * 65536 + s[off + 3] as u32
        * 16777216
}

/// Reads a little-endian `u16` at `off`.
pub fn read_u16(s: &Vec<u8>, off: usize) -> (r: u16)
    requires
        off + 2 <= s.len(),
    ensures
        r == le16(s@, off as int),
{
    s[off] as u16 + s[off + 1] as u16 * 256
}

/// Reads a little-endian `i16` at `off`.
pub fn read_i16(s: &Vec<u8>, off: usize) -> (r: i16)
    requires
        off + 2 <= s.len(),
    ensures
        r == as_signed16(le16(s@, off as int)),
{
    let v = read_u16(s, off);
    if v >= 32768 {
        let w: u16 = v - 32768;
        (w as i16) - 16384 - 16384
    } else {
        v as i16
    }
}

/// Writes `v` little-endian at `off`.
pub fn write_u32(s: &mut Vec<u8>, off: usize, v: u32)
    requires
        off + 4 <= old(s).len(),
    ensures
        final(s)@.len() == old(s)@.len(),
        le32(final(s)@, off as int) == v,
        forall|k: int|
            0 <= k < old(s)@.len() && !(off <= k < off + 4) ==> final(s)@[k] == old(s)@[k],
{
    s.set(off, (v % 256) as u8);
    s.set(off + 1, ((v / 256) % 256) as u8);
    s.set(off + 2, ((v / 65536) % 256) as u8);
    s.set(off + 3, (v / 16777216) as u8);
}

/// Writes `v` little-endian at `off`.
pub fn write_u16(s: &mut Vec<u8>, off: usize, v: u16)
    requires
        off + 2 <= old(s).len(),
    ensures
        final(s)@.len() == old(s)@.len(),
        le16(final(s)@, off as int) == v,
        forall|k: int|
            0 <= k < old(s)@.len() && !(off <= k < off + 2) ==> final(s)@[k] == old(s)@[k],
{
    s.set(off, (v % 256) as u8);
    s.set(off + 1, (v / 256) as u8);
}

/// Writes `v` in two's complement, little-endian, at `off`.
pub fn write_i16(s: &mut Vec<u8>, off: usize, v: i16)
    requires
        off + 2 <= old(s).len(),
    ensures
        final(s)@.len() == old(s)@.len(),
        as_signed16(le16(final(s)@, off as int)) == v,
        forall|k: int|
            0 <= k < old(s)@.len() && !(off <= k < off + 2) ==> final(s)@[k] == old(s)@[k],
{
    let u: u16 = if v < 0 {
        let w: i32 = v as i32 + 65536;
        w as u16
    } else {
        v as u16
    };
    write_u16(s, off, u);
}

/// The super block held in the bytes of a block.
pub open spec fn superblock_of(blk: Seq<u8>) -> Superblock {
    Superblock {
        size: le32(blk, 0) as u32,
        nblocks: le32(blk, 4) as u32,
        ninodes: le32(blk, 8) as u32,
        nlog: le32(blk, 12) as u32,
    }
}

impl Superblock {
    /// Decodes a super block from the first bytes of a block.
    pub fn decode(blk: &Vec<u8>) -> (r: Superblock)
        requires
            blk.len() >= 16,
        ensures
            r == superblock_of(blk@),
    {
        Superblock {
            size: read_u32(blk, 0),
            nblocks: read_u32(blk, 4),
            ninodes: read_u32(blk, 8),
            nlog: read_u32(blk, 12),
        }
    }
}

/// The inode stored at byte offset `off` of a block.
pub open spec fn dinode_fields_match(d: Dinode, blk: Seq<u8>, off: int) -> bool {
    &&& d.type_ == as_signed16(le16(blk, off))
    &&& d.major == as_signed16(le16(blk, off + 2))
    &&& d.minor == as_signed16(le16(blk, off + 4))
    &&& d.nlink == as_signed16(le16(blk, off + 6))
    &&& d.ownerid == as_signed16(le16(blk, off + 8))
    &&& d.groupid == as_signed16(le16(blk, off + 10))
    &&& d.mode == le32(blk, off + 12)
    &&& d.size == le32(blk, off + 16)
    &&& d.addrs@.len() == NDIRECT + 1
    &&& forall|k: int| 0 <= k < NDIRECT + 1 ==> #[trigger] d.addrs@[k] == le32(blk, off + 20 + 4 * k)
}

impl Dinode {
    /// Decodes the inode at byte offset `off` of a block.
    pub fn decode(blk: &Vec<u8>, off: usize) -> (r: Dinode)
        requires
            off + DINODE_SIZE <= blk.len(),
        ensures
            dinode_fields_match(r, blk@, off as int),
    {
        let mut addrs: Vec<u32> = Vec::new();
        let mut k: usize = 0;
        while k < NDIRECT + 1
            invariant
                off + DINODE_SIZE <= blk.len(),
                k <= NDIRECT + 1,
                addrs@.len() == k,
                forall|j: int| 0 <= j < k ==> #[trigger] addrs@[j] == le32(blk@, off + 20 + 4 * j),
            decreases NDIRECT + 1 - k,
        {
            addrs.push(read_u32(blk, off + 20 + 4 * k));
            k += 1;
        }
        Dinode {
            type_: read_i16(blk, off),
            major: read_i16(blk, off + 2),
            minor: read_i16(blk, off + 4),
            nlink: read_i16(blk, off + 6),
            ownerid: read_i16(blk, off + 8),
            groupid: read_i16(blk, off + 10),
            mode: read_u32(blk, off + 12),
            size: read_u32(blk, off + 16),
            addrs,
        }
    }

    /// Encodes this inode at byte offset `off` of a block; the other bytes
    /// of the block are left as they were.
    pub fn encode(&self, blk: &mut Vec<u8>, off: usize)
        requires
            off + DINODE_SIZE <= old(blk).len(),
            self.addrs@.len() == NDIRECT + 1,
        ensures
            final(blk)@.len() == old(blk)@.len(),
            dinode_fields_match(*self, final(blk)@, off as int),
            forall|k: int|
                0 <= k < old(blk)@.len() && !(off <= k < off + DINODE_SIZE) ==> final(blk)@[k]
                    == old(blk)@[k],
    {
        write_i16(blk, off, self.type_);
        write_i16(blk, off + 2, self.major);
        write_i16(blk, off + 4, self.minor);
        write_i16(blk, off + 6, self.nlink);
        write_i16(blk, off + 8, self.ownerid);
        write_i16(blk, off + 10, self.groupid);
        write_u32(blk, off + 12, self.mode);
        write_u32(blk, off + 16, self.size);
        let ghost before = blk@;
        let mut k: usize = 0;
        while k < NDIRECT + 1
            invariant
                off + DINODE_SIZE <= blk.len(),
                self.addrs@.len() == NDIRECT + 1,
                k <= NDIRECT + 1,
                blk@.len() == before.len(),
                forall|j: int| 0 <= j < k ==> #[trigger] self.addrs@[j] == le32(blk@, off + 20 + 4 * j),
                forall|i: int| 0 <= i < blk@.len() && !(off + 20 <= i < off + 20 + 4 * k) ==> blk@[i] == before[i],
            decreases NDIRECT + 1 - k,
        {
            write_u32(blk, off + 20 + 4 * k, self.addrs[k]);
            k += 1;
        }
    }
}

/// The directory entry held at byte offset `off` of some bytes.
pub open spec fn dirent_fields_match(de: Dirent, s: Seq<u8>, off: int) -> bool {
    &&& de.inum == le16(s, off)
    &&& de.name@ == s.subrange(off + 2, off + 16)
}

impl Dirent {
    /// Decodes the directory entry at byte offset `off`.
    pub fn decode(s: &Vec<u8>, off: usize) -> (r: Dirent)
        requires
            off + DIRENT_SIZE <= s.len(),
        ensures
            dirent_fields_match(r, s@, off as int),
    {
        let mut name: Vec<u8> = Vec::new();
        let mut k: usize = 0;
        while k < DIRSIZ
            invariant
                off + DIRENT_SIZE <= s.len(),
                k <= DIRSIZ,
                name@ == s@.subrange(off + 2, off + 2 + k),
            decreases DIRSIZ - k,
        {
            name.push(s[off + 2 + k]);
            k += 1;
        }
        Dirent { inum: read_u16(s, off), name }
    }

    /// Encodes this entry as its 16 bytes.
    pub fn encode(&self) -> (r: Vec<u8>)
        requires
            self.name@.len() == DIRSIZ,
        ensures
            r@.len() == DIRENT_SIZE,
            dirent_fields_match(*self, r@, 0),
    {
        let mut r: Vec<u8> = Vec::new();
        r.push(0);
        r.push(0);
        write_u16(&mut r, 0, self.inum);
        let mut k: usize = 0;
        while k < DIRSIZ
            invariant
                self.name@.len() == DIRSIZ,
                k <= DIRSIZ,
                r@.len() == 2 + k,
                le16(r@, 0) == self.inum,
                r@.subrange(2, 2 + k as int) == self.name@.subrange(0, k as int),
            decreases DIRSIZ - k,
        {
            r.push(self.name[k]);
            k += 1;
            assert(r@.subrange(2, 2 + k as int) == self.name@.subrange(0, k as int));
        }
        assert(self.name@.subrange(0, DIRSIZ as int) == self.name@);
        r
    }
}

} // verus!
