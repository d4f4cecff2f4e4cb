//! Inodes and their contents: the block map of a file, reading and writing
//! file data, truncation, and the copying of inodes to and from disk.
use vstd::prelude::*;
use crate::disk::{
    Disk, balloc, bfree, readsb, block_in_use, bitmap_on_disk, disk_superblock, zero_block, with_bit,
    lemma_balloc_marks_only_result, lemma_bblock_mono,
};
use crate::fs_layout::{
    bblock, bblock_spec, iblock_spec, le32, read_u32, write_u32, Dinode, dinode_fields_match, BSIZE, NDIRECT,
    NINDIRECT, MAXFILE, DINODE_SIZE,
};

verus! {

/// Inode is locked.
pub const I_BUSY: i32 = 0x1;
/// Inode has been read from disk.
pub const I_VALID: i32 = 0x2;
/// Directory.
pub const T_DIR: i16 = 1;
/// Regular file.
pub const T_FILE: i16 = 2;
/// Device.
pub const T_DEV: i16 = 3;

/// In-memory copy of an inode.
pub struct Inode {
    pub dev: u32,
    pub inum: u32,
    pub ref_count: i32,
    pub flags: i32,
    pub type_: i16,
    pub major: i16,
    pub minor: i16,
    pub nlink: i16,
    pub ownerid: i16,
    pub groupid: i16,
    pub mode: u32,
    pub size: u32,
    /// `NDIRECT` direct block addresses, then the indirect block.
    pub addrs: Vec<u32>,
}

/// File status, as `fstat` reports it.
#[derive(Clone, Copy, PartialEq, Eq, Structural, Debug)]
pub struct Stat {
    pub type_: i16,
    pub dev: i32,
    pub ino: u32,
    pub nlink: i16,
    pub ownerid: i16,
    pub groupid: i16,
    pub mode: u32,
    pub size: u32,
}

/// First block after the metadata (boot block, super block, inodes and
/// bitmap): the bitmap block of the last block, plus one.
pub open spec fn meta_end(d: Seq<Seq<u8>>) -> int {
    let sb = disk_superblock(d);
    bblock_spec(sb.size - 1, sb.ninodes as int) + 1
}

/// The file system on `d` is sound enough to allocate from: the super
/// block describes at most the disk, its bitmap lies before the data
/// blocks, and every metadata block is marked in use.
pub open spec fn fs_valid(d: Seq<Seq<u8>>) -> bool {
    let sb = disk_superblock(d);
    &&& d.len() > 1
    &&& 0 < sb.size <= d.len()
    &&& meta_end(d) <= sb.size
    &&& forall|x: int| 0 <= x < meta_end(d) ==> #[trigger] block_in_use(d, sb.ninodes, x)
}

/// Whether the bitmap marks block `x` as in use.
fn bitmap_bit(disk: &Disk, ninodes: u32, x: usize) -> (r: bool)
    requires
        disk.wf(),
        x <= u32::MAX,
        bblock_spec(x as int, ninodes as int) < disk@.len(),
    ensures
        r == block_in_use(disk@, ninodes, x as int),
{
    let bb = bblock(x, ninodes as usize);
    let bi = x % 4096;
    let k = (bi % 8) as u8;
    assert(disk@[bb as int] == disk.blocks@[bb as int]@);
    let byte = disk.blocks[bb][bi / 8];
    byte & (1u8 << k) != 0
}

/// Whether the blocks of the file with block list `addrs` are as
/// `file_blocks_ok` says: data blocks in use, each referred to once.
pub fn file_blocks_check(disk: &Disk, addrs: &Vec<u32>) -> (r: bool)
    requires
        disk.wf(),
        fs_valid(disk@),
    ensures
        r == file_blocks_ok(disk@, addrs@),
{
    if addrs.len() != NDIRECT + 1 {
        return false;
    }
    let ghost d = disk@;
    let sb = readsb(disk);
    let end = bblock((sb.size - 1) as usize, sb.ninodes as usize) + 1;
    let size = sb.size as usize;
    let ind = addrs[NDIRECT];
    if ind != 0 {
        assert(ref_slot(d, addrs@, NDIRECT as int) == ind);
        if !(end <= ind as usize && (ind as usize) < size) {
            return false;
        }
        proof {
            lemma_bblock_mono(ind as int, sb.size - 1, sb.ninodes as int);
        }
        if !bitmap_bit(disk, sb.ninodes, ind as usize) {
            return false;
        }
    }
    let mut refs: Vec<u32> = Vec::new();
    let mut s: usize = 0;
    while s < NDIRECT + 1 + NINDIRECT
        invariant
            disk.wf(),
            d == disk@,
            addrs@.len() == NDIRECT + 1,
            ind == addrs@[NDIRECT as int],
            ind != 0 ==> ind < disk@.len(),
            s <= NDIRECT + 1 + NINDIRECT,
            refs@.len() == s,
            forall|k: int| 0 <= k < s ==> refs@[k] == #[trigger] ref_slot(d, addrs@, k),
        decreases NDIRECT + 1 + NINDIRECT - s,
    {
        let v = if s <= NDIRECT {
            addrs[s]
        } else if ind == 0 {
            0
        } else {
            assert(disk@[ind as int] == disk.blocks@[ind as int]@);
            read_u32(&disk.blocks[ind as usize], 4 * (s - NDIRECT - 1))
        };
        refs.push(v);
        s += 1;
    }
    let mut s: usize = 0;
    while s < refs.len()
        invariant
            disk.wf(),
            d == disk@,
            fs_valid(d),
            sb == disk_superblock(d),
            end == meta_end(d),
            size == sb.size,
            refs@.len() == nslots(),
            s <= refs@.len(),
            forall|k: int| 0 <= k < nslots() ==> refs@[k] == #[trigger] ref_slot(d, addrs@, k),
            forall|k: int|
                0 <= k < s && #[trigger] ref_slot(d, addrs@, k) != 0 ==> is_data(d, ref_slot(d, addrs@, k) as int)
                    && block_in_use(d, sb.ninodes, ref_slot(d, addrs@, k) as int),
        decreases refs@.len() - s,
    {
        let a = refs[s];
        assert(a == ref_slot(d, addrs@, s as int));
        if a != 0 {
            if !(end <= a as usize && (a as usize) < size) {
                return false;
            }
            proof {
                lemma_bblock_mono(a as int, sb.size - 1, sb.ninodes as int);
            }
            if !bitmap_bit(disk, sb.ninodes, a as usize) {
                return false;
            }
        }
        s += 1;
    }
    let mut s: usize = 0;
    while s < refs.len()
        invariant
            d == disk@,
            refs@.len() == nslots(),
            s <= refs@.len(),
            forall|k: int| 0 <= k < nslots() ==> refs@[k] == #[trigger] ref_slot(d, addrs@, k),
            forall|k: int, t: int|
                0 <= k < s && 0 <= t < nslots() && k != t && #[trigger] ref_slot(d, addrs@, k) != 0 ==> ref_slot(
                    d,
                    addrs@,
                    k,
                ) != #[trigger] ref_slot(d, addrs@, t),
        decreases refs@.len() - s,
    {
        let mut t: usize = 0;
        while t < refs.len()
            invariant
                d == disk@,
                refs@.len() == nslots(),
                s < refs@.len(),
                t <= refs@.len(),
                forall|k: int| 0 <= k < nslots() ==> refs@[k] == #[trigger] ref_slot(d, addrs@, k),
                forall|u: int|
                    0 <= u < t && u != s && ref_slot(d, addrs@, s as int) != 0 ==> ref_slot(d, addrs@, s as int)
                        != #[trigger] ref_slot(d, addrs@, u),
            decreases refs@.len() - t,
        {
            assert(refs@[t as int] == ref_slot(d, addrs@, t as int));
            assert(refs@[s as int] == ref_slot(d, addrs@, s as int));
            if t != s && refs[s] != 0 && refs[s] == refs[t] {
                assert(ref_slot(d, addrs@, s as int) == ref_slot(d, addrs@, t as int));
                return false;
            }
            t += 1;
        }
        s += 1;
    }
    true
}

/// Whether the file system on `disk` is sound enough to allocate from, as
/// `fs_valid` says: checks the super block against the disk and the bitmap
/// bit of every metadata block.
pub fn fs_check(disk: &Disk) -> (r: bool)
    requires
        disk.wf(),
    ensures
        r == fs_valid(disk@),
{
    let nb = disk.nblocks();
    if nb <= 1 {
        return false;
    }
    let sb = readsb(disk);
    if sb.size == 0 || sb.size as usize > nb {
        return false;
    }
    let ninodes = sb.ninodes as usize;
    let end = bblock((sb.size - 1) as usize, ninodes) + 1;
    if end > sb.size as usize {
        return false;
    }
    let mut x: usize = 0;
    while x < end
        invariant
            disk.wf(),
            nb == disk@.len(),
            sb == disk_superblock(disk@),
            ninodes == sb.ninodes,
            end == meta_end(disk@),
            end <= sb.size <= nb,
            x <= end,
            forall|y: int| 0 <= y < x ==> #[trigger] block_in_use(disk@, sb.ninodes, y),
        decreases end - x,
    {
        proof {
            lemma_bblock_mono(x as int, sb.size - 1, ninodes as int);
        }
        if !bitmap_bit(disk, sb.ninodes, x) {
            return false;
        }
        x += 1;
    }
    true
}

/// Block `a` is a data block: past the metadata and inside the file system.
pub open spec fn is_data(d: Seq<Seq<u8>>, a: int) -> bool {
    meta_end(d) <= a < disk_superblock(d).size
}

/// The free data blocks.
pub open spec fn free_set(d: Seq<Seq<u8>>) -> Set<int> {
    Set::new(|x: int| 0 <= x < disk_superblock(d).size && !block_in_use(d, disk_superblock(d).ninodes, x))
}

/// Number of free blocks.
pub open spec fn nfree(d: Seq<Seq<u8>>) -> nat {
    free_set(d).len()
}

/// Entry `j` of the indirect block held in `blk`.
pub open spec fn ind_entry(blk: Seq<u8>, j: int) -> u32 {
    le32(blk, 4 * j) as u32
}

/// Reference slot `s` of a file: slots `0..NDIRECT` are the direct
/// addresses, slot `NDIRECT` the indirect block, and slot `NDIRECT+1+j`
/// entry `j` of the indirect block (0 when there is no indirect block).
pub open spec fn ref_slot(d: Seq<Seq<u8>>, addrs: Seq<u32>, s: int) -> u32 {
    if s <= NDIRECT {
        addrs[s]
    } else if addrs[NDIRECT as int] == 0 {
        0
    } else {
        ind_entry(d[addrs[NDIRECT as int] as int], s - NDIRECT - 1)
    }
}

/// Number of reference slots.
pub open spec fn nslots() -> int {
    NDIRECT + 1 + NINDIRECT
}

/// Disk block holding block `bn` of a file, 0 for a hole.
pub open spec fn block_addr(d: Seq<Seq<u8>>, addrs: Seq<u32>, bn: int) -> u32 {
    if bn < NDIRECT {
        ref_slot(d, addrs, bn)
    } else {
        ref_slot(d, addrs, bn + 1)
    }
}

/// The blocks a file refers to are data blocks in use, each referred to
/// once.
pub open spec fn file_blocks_ok(d: Seq<Seq<u8>>, addrs: Seq<u32>) -> bool {
    &&& addrs.len() == NDIRECT + 1
    &&& forall|s: int|
        0 <= s < nslots() && #[trigger] ref_slot(d, addrs, s) != 0 ==> is_data(d, ref_slot(d, addrs, s) as int)
            && block_in_use(d, disk_superblock(d).ninodes, ref_slot(d, addrs, s) as int)
    &&& forall|s: int, t: int|
        0 <= s < nslots() && 0 <= t < nslots() && s != t && #[trigger] ref_slot(d, addrs, s) != 0 ==> ref_slot(
            d,
            addrs,
            s,
        ) != #[trigger] ref_slot(d, addrs, t)
}

/// Byte `k` of a file: holes read as zero.
pub open spec fn file_byte(d: Seq<Seq<u8>>, addrs: Seq<u32>, k: int) -> u8 {
    let a = block_addr(d, addrs, k / 512);
    if a == 0 {
        0
    } else {
        d[a as int][k % 512]
    }
}

/// Bytes `off..off+n` of a file.
pub open spec fn file_range(d: Seq<Seq<u8>>, addrs: Seq<u32>, off: int, n: int) -> Seq<u8> {
    Seq::new(n as nat, |i: int| file_byte(d, addrs, off + i))
}

/// Number of blocks `bmap` must allocate to map block `bn`.
pub open spec fn allocs_needed(d: Seq<Seq<u8>>, addrs: Seq<u32>, bn: int) -> int {
    if bn < NDIRECT {
        if addrs[bn] == 0 { 1 } else { 0 }
    } else if addrs[NDIRECT as int] == 0 {
        2
    } else if ind_entry(d[addrs[NDIRECT as int] as int], bn - NDIRECT) == 0 {
        1
    } else {
        0
    }
}

/// `b` is the bitmap block of some block of the file system.
pub open spec fn is_bitmap_block(d: Seq<Seq<u8>>, b: int) -> bool {
    let sb = disk_superblock(d);
    exists|y: int| 0 <= y < sb.size && bblock_spec(y, sb.ninodes as int) == b
}

/// Between `d0` and `d1` the only blocks whose contents changed are bitmap
/// blocks and the blocks `x` and `y` (where nonzero).
pub open spec fn changes_only(d0: Seq<Seq<u8>>, d1: Seq<Seq<u8>>, x: int, y: int) -> bool {
    forall|b: int|
        0 <= b < d0.len() && #[trigger] d1[b] != d0[b] ==> is_bitmap_block(d0, b) || (b == x && x != 0) || (b == y
            && y != 0)
}

/// Facts about one allocation on a sound file system: the block returned
/// is a free data block; afterwards the file system is still sound, it is
/// in use and zero, it has left the free set, and every block other than
/// it and the bitmap blocks is unchanged.
proof fn lemma_balloc_effect(d0: Seq<Seq<u8>>, r: int, d1: Seq<Seq<u8>>)
    requires
        fs_valid(d0),
        forall|i: int| 0 <= i < d0.len() ==> (#[trigger] d0[i]).len() == BSIZE,
        0 <= r < disk_superblock(d0).size,
        !block_in_use(d0, disk_superblock(d0).ninodes, r),
        d1 == ({
            let bb = bblock_spec(r, disk_superblock(d0).ninodes as int);
            d0.update(bb, with_bit(d0[bb], r % 4096, true)).update(r, zero_block())
        }),
    ensures
        is_data(d0, r),
        d1.len() == d0.len(),
        disk_superblock(d1) == disk_superblock(d0),
        meta_end(d1) == meta_end(d0),
        fs_valid(d1),
        block_in_use(d1, disk_superblock(d0).ninodes, r),
        d1[r] == zero_block(),
        forall|y: int| 0 <= y < disk_superblock(d0).size && y != r ==> #[trigger] block_in_use(d1, disk_superblock(d0).ninodes, y) == block_in_use(
            d0,
            disk_superblock(d0).ninodes,
            y,
        ),
        free_set(d1) == free_set(d0).remove(r),
        forall|b: int| 0 <= b < d0.len() && b != r && !is_bitmap_block(d0, b) ==> #[trigger] d1[b] == d0[b],
{
    let sb = disk_superblock(d0);
    let bb = bblock_spec(r, sb.ninodes as int);
    if r < meta_end(d0) {
        assert(block_in_use(d0, sb.ninodes, r));
    }
    crate::disk::lemma_bblock_mono(r, sb.size - 1, sb.ninodes as int);
    assert(bb != 1);
    assert(bb < meta_end(d0));
    assert(d1[1] == d0[1]);
    assert(disk_superblock(d1) == disk_superblock(d0));
    crate::disk::lemma_bit_ops(d0[bb][(r % 4096) / 8], ((r % 4096) % 8) as u8);
    assert(block_in_use(d1, sb.ninodes, r));
    assert forall|y: int| 0 <= y < sb.size && y != r implies #[trigger] block_in_use(d1, sb.ninodes, y) == block_in_use(
        d0,
        sb.ninodes,
        y,
    ) by {
        crate::disk::lemma_bblock_mono(y, sb.size - 1, sb.ninodes as int);
        lemma_balloc_marks_only_result(d0, sb.ninodes, r, y);
    }
    assert(fs_valid(d1));
    assert(free_set(d1) =~= free_set(d0).remove(r));
    assert forall|b: int| 0 <= b < d0.len() && b != r && !is_bitmap_block(d0, b) implies #[trigger] d1[b] == d0[b] by {
        if bb == b {
            assert(is_bitmap_block(d0, b));
        }
    }
}

proof fn lemma_bitmap_block_is_meta(d: Seq<Seq<u8>>, b: int)
    requires
        fs_valid(d),
        is_bitmap_block(d, b),
    ensures
        b < meta_end(d),
{
    let sb = disk_superblock(d);
    let y = choose|y: int| 0 <= y < sb.size && bblock_spec(y, sb.ninodes as int) == b;
    crate::disk::lemma_bblock_mono(y, sb.size - 1, sb.ninodes as int);
}

/// The free set is finite, and a nonempty one has a member.
proof fn lemma_free_set_finite(d: Seq<Seq<u8>>)
    ensures
        free_set(d).finite(),
        nfree(d) > 0 ==> exists|x: int|
            0 <= x < disk_superblock(d).size && !block_in_use(d, disk_superblock(d).ninodes, x),
{
    vstd::set_lib::lemma_int_range(0, disk_superblock(d).size as int);
    vstd::set_lib::lemma_len_subset(free_set(d), vstd::set_lib::set_int_range(0, disk_superblock(d).size as int));
    if nfree(d) > 0 {
        if !(exists|x: int| 0 <= x < disk_superblock(d).size && !block_in_use(d, disk_superblock(d).ninodes, x)) {
            assert(free_set(d) =~= Set::<int>::empty());
        }
    }
}

/// An allocation leaves a file that does not own the allocated block as it
/// was.
proof fn lemma_alloc_keeps_file(d: Seq<Seq<u8>>, d1: Seq<Seq<u8>>, addrs: Seq<u32>, x: int)
    requires
        fs_valid(d),
        forall|i: int| 0 <= i < d.len() ==> (#[trigger] d[i]).len() == BSIZE,
        file_blocks_ok(d, addrs),
        0 <= x < disk_superblock(d).size,
        !block_in_use(d, disk_superblock(d).ninodes, x),
        d1 == ({
            let bb = bblock_spec(x, disk_superblock(d).ninodes as int);
            d.update(bb, with_bit(d[bb], x % 4096, true)).update(x, zero_block())
        }),
    ensures
        fs_valid(d1),
        file_blocks_ok(d1, addrs),
        forall|s: int| 0 <= s < nslots() ==> #[trigger] ref_slot(d1, addrs, s) == ref_slot(d, addrs, s),
        forall|s: int| 0 <= s < nslots() && ref_slot(d, addrs, s) != 0 ==> ref_slot(d, addrs, s) != x,
        forall|s: int|
            0 <= s < nslots() && #[trigger] ref_slot(d, addrs, s) != 0 ==> d1[ref_slot(d, addrs, s) as int] == d[ref_slot(
                d,
                addrs,
                s,
            ) as int],
{
    lemma_balloc_effect(d, x, d1);
    let sb = disk_superblock(d);
    let ind = addrs[NDIRECT as int];
    assert forall|s: int| 0 <= s < nslots() && ref_slot(d, addrs, s) != 0 implies ref_slot(d, addrs, s) != x by {
        assert(block_in_use(d, sb.ninodes, ref_slot(d, addrs, s) as int));
    }
    assert forall|s: int|
        0 <= s < nslots() && #[trigger] ref_slot(d, addrs, s) != 0 implies d1[ref_slot(d, addrs, s) as int]
        == d[ref_slot(d, addrs, s) as int] by {
        let b = ref_slot(d, addrs, s) as int;
        if is_bitmap_block(d, b) {
            lemma_bitmap_block_is_meta(d, b);
        }
    }
    if ind != 0 {
        assert(ref_slot(d, addrs, NDIRECT as int) == ind);
        assert(d1[ind as int] == d[ind as int]);
    }
    assert forall|s: int| 0 <= s < nslots() implies #[trigger] ref_slot(d1, addrs, s) == ref_slot(d, addrs, s) by {
        if s > NDIRECT && ind != 0 {
            assert(ref_slot(d, addrs, NDIRECT as int) == ind);
        }
    }
    assert forall|s: int|
        0 <= s < nslots() && #[trigger] ref_slot(d1, addrs, s) != 0 implies is_data(d1, ref_slot(d1, addrs, s) as int)
        && block_in_use(d1, disk_superblock(d1).ninodes, ref_slot(d1, addrs, s) as int) by {
        assert(ref_slot(d1, addrs, s) == ref_slot(d, addrs, s));
    }
    assert forall|s: int, t: int|
        0 <= s < nslots() && 0 <= t < nslots() && s != t && #[trigger] ref_slot(d1, addrs, s) != 0 implies ref_slot(
        d1,
        addrs,
        s,
    ) != #[trigger] ref_slot(d1, addrs, t) by {
        assert(ref_slot(d1, addrs, s) == ref_slot(d, addrs, s));
        assert(ref_slot(d1, addrs, t) == ref_slot(d, addrs, t));
    }
}

/// Filling an empty reference slot with a block that is in use and not yet
/// referred to keeps the file's blocks sound.
proof fn lemma_set_slot(
    d: Seq<Seq<u8>>,
    addrs: Seq<u32>,
    d2: Seq<Seq<u8>>,
    addrs2: Seq<u32>,
    s: int,
    x: u32,
)
    requires
        file_blocks_ok(d, addrs),
        addrs2.len() == NDIRECT + 1,
        disk_superblock(d2) == disk_superblock(d),
        meta_end(d2) == meta_end(d),
        0 <= s < nslots(),
        ref_slot(d, addrs, s) == 0,
        ref_slot(d2, addrs2, s) == x,
        x != 0,
        is_data(d, x as int),
        block_in_use(d2, disk_superblock(d).ninodes, x as int),
        forall|t: int| 0 <= t < nslots() && ref_slot(d, addrs, t) != 0 ==> ref_slot(d, addrs, t) != x,
        forall|t: int| 0 <= t < nslots() && t != s ==> #[trigger] ref_slot(d2, addrs2, t) == ref_slot(d, addrs, t),
        forall|t: int|
            0 <= t < nslots() && #[trigger] ref_slot(d, addrs, t) != 0 ==> block_in_use(
                d2,
                disk_superblock(d).ninodes,
                ref_slot(d, addrs, t) as int,
            ),
    ensures
        file_blocks_ok(d2, addrs2),
{
    assert forall|t: int|
        0 <= t < nslots() && #[trigger] ref_slot(d2, addrs2, t) != 0 implies is_data(d2, ref_slot(d2, addrs2, t) as int)
        && block_in_use(d2, disk_superblock(d2).ninodes, ref_slot(d2, addrs2, t) as int) by {
        if t != s {
            assert(ref_slot(d2, addrs2, t) == ref_slot(d, addrs, t));
        }
    }
    assert forall|t: int, u: int|
        0 <= t < nslots() && 0 <= u < nslots() && t != u && #[trigger] ref_slot(d2, addrs2, t) != 0 implies ref_slot(
        d2,
        addrs2,
        t,
    ) != #[trigger] ref_slot(d2, addrs2, u) by {
        if t != s && u != s {
            assert(ref_slot(d2, addrs2, t) == ref_slot(d, addrs, t));
            assert(ref_slot(d2, addrs2, u) == ref_slot(d, addrs, u));
        } else if t == s {
            assert(ref_slot(d2, addrs2, u) == ref_slot(d, addrs, u));
        } else {
            assert(ref_slot(d2, addrs2, t) == ref_slot(d, addrs, t));
        }
    }
}

/// A zero block holds only zero entries.
proof fn lemma_zero_entries(j: int)
    requires
        0 <= j < NINDIRECT,
    ensures
        ind_entry(zero_block(), j) == 0,
{
}

/// What `bmap` promises of its result: `r` is a block, it is now mapped
/// as block `bn` of the file, and when block `bn` was already mapped it is
/// that block and neither the disk nor the block list changed.
pub open spec fn bmap_result(
    d0: Seq<Seq<u8>>,
    a0: Seq<u32>,
    bn: int,
    d1: Seq<Seq<u8>>,
    a1: Seq<u32>,
    r: u32,
) -> bool {
    &&& r != 0
    &&& r == block_addr(d1, a1, bn)
    &&& block_addr(d0, a0, bn) != 0 ==> r == block_addr(d0, a0, bn) && d1 == d0 && a1 == a0
}

/// Mapping the same file block twice: the second `bmap` returns what the
/// first returned and allocates nothing.
pub proof fn lemma_bmap_twice(
    d0: Seq<Seq<u8>>,
    a0: Seq<u32>,
    bn: int,
    d1: Seq<Seq<u8>>,
    a1: Seq<u32>,
    r1: u32,
    d2: Seq<Seq<u8>>,
    a2: Seq<u32>,
    r2: u32,
)
    requires
        bmap_result(d0, a0, bn, d1, a1, r1),
        bmap_result(d1, a1, bn, d2, a2, r2),
    ensures
        r2 == r1,
        d2 == d1,
        a2 == a1,
{
}

/// Maps block `bn` of the file to a disk block, allocating (zeroed) blocks
/// for it, and for the indirect block, when they are missing.  Returns the
/// disk block.
pub fn bmap(disk: &mut Disk, ip: &mut Inode, bn: u32) -> (r: u32)
    requires
        old(disk).wf(),
        fs_valid(old(disk)@),
        file_blocks_ok(old(disk)@, old(ip).addrs@),
        bn < MAXFILE,
        allocs_needed(old(disk)@, old(ip).addrs@, bn as int) <= nfree(old(disk)@),
    ensures
        final(disk).wf(),
        fs_valid(final(disk)@),
        final(disk)@.len() == old(disk)@.len(),
        disk_superblock(final(disk)@) == disk_superblock(old(disk)@),
        meta_end(final(disk)@) == meta_end(old(disk)@),
        file_blocks_ok(final(disk)@, final(ip).addrs@),
        bmap_result(old(disk)@, old(ip).addrs@, bn as int, final(disk)@, final(ip).addrs@, r),
        block_addr(old(disk)@, old(ip).addrs@, bn as int) != 0 ==> *final(ip) == *old(ip),
        block_addr(old(disk)@, old(ip).addrs@, bn as int) == 0 ==> final(disk)@[r as int] == zero_block(),
        block_addr(old(disk)@, old(ip).addrs@, bn as int) == 0 ==> !block_in_use(
            old(disk)@,
            disk_superblock(old(disk)@).ninodes,
            r as int,
        ) && block_in_use(final(disk)@, disk_superblock(final(disk)@).ninodes, r as int),
        changes_only(old(disk)@, final(disk)@, r as int, final(ip).addrs@[NDIRECT as int] as int),
        forall|k: int|
            0 <= k < MAXFILE && k != bn ==> #[trigger] block_addr(final(disk)@, final(ip).addrs@, k) == block_addr(
                old(disk)@,
                old(ip).addrs@,
                k,
            ),
        forall|k: int|
            0 <= k < MAXFILE && k != bn && #[trigger] block_addr(old(disk)@, old(ip).addrs@, k) != 0 ==> final(disk)@[block_addr(
                old(disk)@,
                old(ip).addrs@,
                k,
            ) as int] == old(disk)@[block_addr(old(disk)@, old(ip).addrs@, k) as int],
        free_set(final(disk)@).subset_of(free_set(old(disk)@)),
        nfree(final(disk)@) == nfree(old(disk)@) - allocs_needed(old(disk)@, old(ip).addrs@, bn as int),
        forall|b: int|
            0 <= b < old(disk)@.len() && block_in_use(old(disk)@, disk_superblock(old(disk)@).ninodes, b)
                && !is_bitmap_block(old(disk)@, b) && (old(ip).addrs@[NDIRECT as int] == 0 || b != old(
                ip,
            ).addrs@[NDIRECT as int]) ==> #[trigger] final(disk)@[b] == old(disk)@[b],
        final(ip).dev == old(ip).dev,
        final(ip).inum == old(ip).inum,
        final(ip).ref_count == old(ip).ref_count,
        final(ip).flags == old(ip).flags,
        final(ip).type_ == old(ip).type_,
        final(ip).major == old(ip).major,
        final(ip).minor == old(ip).minor,
        final(ip).nlink == old(ip).nlink,
        final(ip).ownerid == old(ip).ownerid,
        final(ip).groupid == old(ip).groupid,
        final(ip).mode == old(ip).mode,
        final(ip).size == old(ip).size,
        final(ip).addrs@.len() == NDIRECT + 1,
        old(ip).addrs@[NDIRECT as int] != 0 ==> final(ip).addrs@[NDIRECT as int] == old(ip).addrs@[NDIRECT as int],
        bn < NDIRECT ==> final(ip).addrs@[NDIRECT as int] == old(ip).addrs@[NDIRECT as int],
        bn >= NDIRECT ==> final(ip).addrs@[NDIRECT as int] != 0,
        old(ip).addrs@[NDIRECT as int] == 0 && final(ip).addrs@[NDIRECT as int] != 0 ==> !block_in_use(
            old(disk)@,
            disk_superblock(old(disk)@).ninodes,
            final(ip).addrs@[NDIRECT as int] as int,
        ),
{
    let ghost d0 = disk@;
    let ghost a0 = ip.addrs@;
    proof {
        lemma_free_set_finite(d0);
    }
    if (bn as usize) < NDIRECT {
        let addr = ip.addrs[bn as usize];
        if addr == 0 {
            let x = balloc(disk);
            proof {
                lemma_alloc_keeps_file(d0, disk@, a0, x as int);
                lemma_balloc_effect(d0, x as int, disk@);
                vstd::set::axiom_set_remove_len(free_set(d0), x as int);
            }
            ip.addrs.set(bn as usize, x);
            proof {
                assert forall|t: int| 0 <= t < nslots() && t != bn implies #[trigger] ref_slot(disk@, ip.addrs@, t)
                    == ref_slot(d0, a0, t) by {
                    assert(ip.addrs@[NDIRECT as int] == a0[NDIRECT as int]);
                    assert(ref_slot(disk@, ip.addrs@, t) == ref_slot(disk@, a0, t));
                }
                lemma_set_slot(d0, a0, disk@, ip.addrs@, bn as int, x);
                assert forall|b: int|
                    0 <= b < d0.len() && block_in_use(d0, disk_superblock(d0).ninodes, b) && !is_bitmap_block(d0, b)
                        && b != a0[NDIRECT as int] implies #[trigger] disk@[b] == d0[b] by {
                    if b == x {
                        assert(!block_in_use(d0, disk_superblock(d0).ninodes, x as int));
                    }
                }
                assert forall|k: int| 0 <= k < MAXFILE && k != bn implies #[trigger] block_addr(disk@, ip.addrs@, k)
                    == block_addr(d0, a0, k) by {
                    if k < NDIRECT {
                        assert(ref_slot(disk@, ip.addrs@, k) == ref_slot(d0, a0, k));
                    } else {
                        assert(ref_slot(disk@, ip.addrs@, k + 1) == ref_slot(disk@, a0, k + 1));
                    }
                }
            }
            return x;
        }
        return addr;
    }
    bmap_indirect(disk, ip, bn)
}

pub proof fn lemma_block_addr_slot(d: Seq<Seq<u8>>, addrs: Seq<u32>, k: int)
    ensures
        k < NDIRECT ==> block_addr(d, addrs, k) == ref_slot(d, addrs, k),
        k >= NDIRECT ==> block_addr(d, addrs, k) == ref_slot(d, addrs, k + 1),
{
}

/// The indirect half of `bmap`.
fn bmap_indirect(disk: &mut Disk, ip: &mut Inode, bn: u32) -> (r: u32)
    requires
        old(disk).wf(),
        fs_valid(old(disk)@),
        file_blocks_ok(old(disk)@, old(ip).addrs@),
        NDIRECT <= bn < MAXFILE,
        allocs_needed(old(disk)@, old(ip).addrs@, bn as int) <= nfree(old(disk)@),
    ensures
        final(disk).wf(),
        fs_valid(final(disk)@),
        final(disk)@.len() == old(disk)@.len(),
        disk_superblock(final(disk)@) == disk_superblock(old(disk)@),
        meta_end(final(disk)@) == meta_end(old(disk)@),
        file_blocks_ok(final(disk)@, final(ip).addrs@),
        r != 0,
        r == block_addr(final(disk)@, final(ip).addrs@, bn as int),
        block_addr(old(disk)@, old(ip).addrs@, bn as int) != 0 ==> r == block_addr(old(disk)@, old(ip).addrs@, bn as int)
            && final(disk)@ == old(disk)@ && final(ip).addrs@ == old(ip).addrs@ && *final(ip) == *old(ip),
        block_addr(old(disk)@, old(ip).addrs@, bn as int) == 0 ==> final(disk)@[r as int] == zero_block(),
        block_addr(old(disk)@, old(ip).addrs@, bn as int) == 0 ==> !block_in_use(
            old(disk)@,
            disk_superblock(old(disk)@).ninodes,
            r as int,
        ) && block_in_use(final(disk)@, disk_superblock(final(disk)@).ninodes, r as int),
        changes_only(old(disk)@, final(disk)@, r as int, final(ip).addrs@[NDIRECT as int] as int),
        forall|k: int|
            0 <= k < MAXFILE && k != bn ==> #[trigger] block_addr(final(disk)@, final(ip).addrs@, k) == block_addr(
                old(disk)@,
                old(ip).addrs@,
                k,
            ),
        forall|k: int|
            0 <= k < MAXFILE && k != bn && #[trigger] block_addr(old(disk)@, old(ip).addrs@, k) != 0 ==> final(disk)@[block_addr(
                old(disk)@,
                old(ip).addrs@,
                k,
            ) as int] == old(disk)@[block_addr(old(disk)@, old(ip).addrs@, k) as int],
        free_set(final(disk)@).subset_of(free_set(old(disk)@)),
        nfree(final(disk)@) == nfree(old(disk)@) - allocs_needed(old(disk)@, old(ip).addrs@, bn as int),
        forall|b: int|
            0 <= b < old(disk)@.len() && block_in_use(old(disk)@, disk_superblock(old(disk)@).ninodes, b)
                && !is_bitmap_block(old(disk)@, b) && (old(ip).addrs@[NDIRECT as int] == 0 || b != old(
                ip,
            ).addrs@[NDIRECT as int]) ==> #[trigger] final(disk)@[b] == old(disk)@[b],
        final(ip).dev == old(ip).dev,
        final(ip).inum == old(ip).inum,
        final(ip).ref_count == old(ip).ref_count,
        final(ip).flags == old(ip).flags,
        final(ip).type_ == old(ip).type_,
        final(ip).major == old(ip).major,
        final(ip).minor == old(ip).minor,
        final(ip).nlink == old(ip).nlink,
        final(ip).ownerid == old(ip).ownerid,
        final(ip).groupid == old(ip).groupid,
        final(ip).mode == old(ip).mode,
        final(ip).size == old(ip).size,
        final(ip).addrs@.len() == NDIRECT + 1,
        old(ip).addrs@[NDIRECT as int] != 0 ==> final(ip).addrs@[NDIRECT as int] == old(ip).addrs@[NDIRECT as int],
        bn < NDIRECT ==> final(ip).addrs@[NDIRECT as int] == old(ip).addrs@[NDIRECT as int],
        bn >= NDIRECT ==> final(ip).addrs@[NDIRECT as int] != 0,
        old(ip).addrs@[NDIRECT as int] == 0 && final(ip).addrs@[NDIRECT as int] != 0 ==> !block_in_use(
            old(disk)@,
            disk_superblock(old(disk)@).ninodes,
            final(ip).addrs@[NDIRECT as int] as int,
        ),
{
    let ghost d0 = disk@;
    let ghost a0 = ip.addrs@;
    let j: usize = (bn as usize) - NDIRECT;
    proof {
        lemma_free_set_finite(d0);
        lemma_block_addr_slot(d0, a0, bn as int);
    }
    let mut ind = ip.addrs[NDIRECT];
    if ind == 0 {
        ind = balloc(disk);
        proof {
            lemma_alloc_keeps_file(d0, disk@, a0, ind as int);
            lemma_balloc_effect(d0, ind as int, disk@);
            vstd::set::axiom_set_remove_len(free_set(d0), ind as int);
        }
        ip.addrs.set(NDIRECT, ind);
        proof {
            assert forall|t: int| 0 <= t < nslots() && t != NDIRECT implies #[trigger] ref_slot(disk@, ip.addrs@, t)
                == ref_slot(d0, a0, t) by {
                if t > NDIRECT {
                    lemma_zero_entries(t - NDIRECT - 1);
                }
            }
            lemma_set_slot(d0, a0, disk@, ip.addrs@, NDIRECT as int, ind);
        }
    }
    let ghost d1 = disk@;
    let ghost a1 = ip.addrs@;
    proof {
        assert(ref_slot(d1, a1, NDIRECT as int) == ind);
        lemma_free_set_finite(d1);
    }
    let blk = disk.read_block(ind as usize);
    let addr = read_u32(&blk, 4 * j);
    assert(addr == ref_slot(d1, a1, bn + 1));
    if addr != 0 {
        proof {
            if a0[NDIRECT as int] == 0 {
                lemma_zero_entries(j as int);
            }
        }
        return addr;
    }
    let x = balloc(disk);
    let ghost d2 = disk@;
    proof {
        lemma_alloc_keeps_file(d1, d2, a1, x as int);
        lemma_balloc_effect(d1, x as int, d2);
        vstd::set::axiom_set_remove_len(free_set(d1), x as int);
        assert(d2[ind as int] == d1[ind as int]);
    }
    let mut nb = disk.read_block(ind as usize);
    write_u32(&mut nb, 4 * j, x);
    disk.write_block(ind as usize, nb);
    proof {
        let d3 = disk@;
        lemma_not_bitmap_write(d2, ind as int, d3);
        assert forall|t: int| 0 <= t < nslots() && t != bn + 1 implies #[trigger] ref_slot(d3, a1, t) == ref_slot(d1, a1, t) by {
            if t > NDIRECT {
                let jj = t - NDIRECT - 1;
                assert(d3[ind as int][4 * jj] == d2[ind as int][4 * jj]);
                assert(d3[ind as int][4 * jj + 1] == d2[ind as int][4 * jj + 1]);
                assert(d3[ind as int][4 * jj + 2] == d2[ind as int][4 * jj + 2]);
                assert(d3[ind as int][4 * jj + 3] == d2[ind as int][4 * jj + 3]);
            }
        }
        lemma_set_slot(d1, a1, d3, a1, bn + 1, x);
    }
    x
}

/// Rewriting a block that is not a bitmap block, nor the super block,
/// changes no allocation bit and keeps the file system sound.
proof fn lemma_not_bitmap_write(d: Seq<Seq<u8>>, b: int, d2: Seq<Seq<u8>>)
    requires
        fs_valid(d),
        is_data(d, b),
        d2.len() == d.len(),
        forall|i: int| 0 <= i < d.len() && i != b ==> d2[i] == d[i],
    ensures
        disk_superblock(d2) == disk_superblock(d),
        meta_end(d2) == meta_end(d),
        fs_valid(d2),
        forall|y: int| 0 <= y < disk_superblock(d).size ==> #[trigger] block_in_use(d2, disk_superblock(d).ninodes, y)
            == block_in_use(d, disk_superblock(d).ninodes, y),
        free_set(d2) == free_set(d),
{
    let sb = disk_superblock(d);
    assert(d2[1] == d[1]);
    assert forall|y: int| 0 <= y < sb.size implies #[trigger] block_in_use(d2, sb.ninodes, y) == block_in_use(
        d,
        sb.ninodes,
        y,
    ) by {
        crate::disk::lemma_bblock_mono(y, sb.size - 1, sb.ninodes as int);
    }
    assert(free_set(d2) =~= free_set(d));
}

/// Number of device major numbers.
pub const NDEV: usize = 10;

/// Which handlers a device driver has installed for a major number.
#[derive(Clone, Copy, PartialEq, Eq, Structural, Debug)]
pub struct Devsw {
    pub read: bool,
    pub write: bool,
}

/// Result of reading or writing an inode.
#[derive(Clone, Copy, PartialEq, Eq, Structural, Debug)]
pub enum Rw {
    /// The transfer is done: the byte count, or -1 on failure.
    Done(i32),
    /// The inode is a device: the driver's handler for this major number
    /// must do the transfer.
    Device(usize),
}

/// The smaller of two numbers.
pub fn min(a: usize, b: usize) -> (r: usize)
    ensures
        r == if a < b { a } else { b },
{
    if a < b {
        a
    } else {
        b
    }
}

/// Number of holes among file blocks `lo..hi`.
pub open spec fn holes(d: Seq<Seq<u8>>, addrs: Seq<u32>, lo: int, hi: int) -> int
    decreases hi - lo,
{
    if lo >= hi {
        0
    } else {
        (if block_addr(d, addrs, lo) == 0 { 1int } else { 0int }) + holes(d, addrs, lo + 1, hi)
    }
}

/// Number of blocks `bmap` allocates when mapping file blocks `lo..hi` in
/// turn: one per hole, plus the indirect block if it is missing and needed.
pub open spec fn range_allocs(d: Seq<Seq<u8>>, addrs: Seq<u32>, lo: int, hi: int) -> int {
    holes(d, addrs, lo, hi) + (if addrs[NDIRECT as int] == 0 && lo < hi && hi > NDIRECT { 1int } else { 0int })
}

/// The disk has enough free blocks to map every hole among file blocks
/// `lo..hi`, and the indirect block when those need it.
pub open spec fn fits(d: Seq<Seq<u8>>, a: Seq<u32>, lo: int, hi: int) -> bool {
    range_allocs(d, a, lo, hi) <= nfree(d)
}

/// Filling one hole of a range leaves one hole fewer.
proof fn lemma_holes_one(d: Seq<Seq<u8>>, a: Seq<u32>, d2: Seq<Seq<u8>>, a2: Seq<u32>, lo: int, hi: int, bn: int)
    requires
        lo <= bn < hi,
        forall|k: int| lo <= k < hi && k != bn ==> #[trigger] block_addr(d2, a2, k) == block_addr(d, a, k),
        block_addr(d2, a2, bn) != 0,
    ensures
        holes(d2, a2, lo, hi) == holes(d, a, lo, hi) - (if block_addr(d, a, bn) == 0 { 1int } else { 0int }),
    decreases hi - lo,
{
    if lo < bn {
        lemma_holes_one(d, a, d2, a2, lo + 1, hi, bn);
    } else {
        lemma_holes_frame(d, a, d2, a2, lo + 1, hi);
    }
}

proof fn lemma_holes_split(d: Seq<Seq<u8>>, a: Seq<u32>, lo: int, mid: int, hi: int)
    requires
        lo <= mid <= hi,
    ensures
        holes(d, a, lo, hi) == holes(d, a, lo, mid) + holes(d, a, mid, hi),
    decreases mid - lo,
{
    if lo < mid {
        lemma_holes_split(d, a, lo + 1, mid, hi);
    }
}

/// With room to map a range of file blocks, there is room to map any
/// range inside it.
pub proof fn lemma_fits_sub(d: Seq<Seq<u8>>, a: Seq<u32>, lo: int, hi: int, lo2: int, hi2: int)
    requires
        fits(d, a, lo, hi),
        lo <= lo2 <= hi2 <= hi,
    ensures
        fits(d, a, lo2, hi2),
{
    lemma_holes_split(d, a, lo, lo2, hi);
    lemma_holes_split(d, a, lo2, hi2, hi);
    lemma_holes_nonneg(d, a, lo, lo2);
    lemma_holes_nonneg(d, a, hi2, hi);
}

/// Mapping a block of a range keeps room for the rest of the range: it
/// uses as many free blocks as it removes from what the range still needs.
proof fn lemma_bmap_fits(d: Seq<Seq<u8>>, a: Seq<u32>, d2: Seq<Seq<u8>>, a2: Seq<u32>, bn: int, lo: int, hi: int)
    requires
        0 <= lo <= bn < hi <= MAXFILE,
        a.len() == NDIRECT + 1,
        forall|k: int| 0 <= k < MAXFILE && k != bn ==> #[trigger] block_addr(d2, a2, k) == block_addr(d, a, k),
        block_addr(d2, a2, bn) != 0,
        nfree(d2) == nfree(d) - allocs_needed(d, a, bn),
        a[NDIRECT as int] != 0 ==> a2[NDIRECT as int] == a[NDIRECT as int],
        bn < NDIRECT ==> a2[NDIRECT as int] == a[NDIRECT as int],
        bn >= NDIRECT ==> a2[NDIRECT as int] != 0,
        fits(d, a, lo, hi),
    ensures
        fits(d2, a2, lo, hi),
{
    lemma_holes_one(d, a, d2, a2, lo, hi, bn);
    lemma_block_addr_slot(d, a, bn);
}

proof fn lemma_holes_frame(d: Seq<Seq<u8>>, a: Seq<u32>, d2: Seq<Seq<u8>>, a2: Seq<u32>, lo: int, hi: int)
    requires
        forall|k: int| lo <= k < hi ==> #[trigger] block_addr(d2, a2, k) == block_addr(d, a, k),
    ensures
        holes(d2, a2, lo, hi) == holes(d, a, lo, hi),
    decreases hi - lo,
{
    if lo < hi {
        lemma_holes_frame(d, a, d2, a2, lo + 1, hi);
    }
}

proof fn lemma_holes_nonneg(d: Seq<Seq<u8>>, a: Seq<u32>, lo: int, hi: int)
    ensures
        holes(d, a, lo, hi) >= 0,
    decreases hi - lo,
{
    if lo < hi {
        lemma_holes_nonneg(d, a, lo + 1, hi);
    }
}

/// The free blocks below `x`.
pub open spec fn free_below(d: Seq<Seq<u8>>, x: int) -> Set<int> {
    Set::new(|y: int| 0 <= y < x && !block_in_use(d, disk_superblock(d).ninodes, y))
}

/// The disk block of file block `k`, read without mapping anything.
fn peek_addr(disk: &Disk, addrs: &Vec<u32>, k: u32) -> (r: u32)
    requires
        disk.wf(),
        fs_valid(disk@),
        file_blocks_ok(disk@, addrs@),
        k < MAXFILE,
    ensures
        r == block_addr(disk@, addrs@, k as int),
{
    proof {
        lemma_block_addr_slot(disk@, addrs@, k as int);
    }
    if (k as usize) < NDIRECT {
        addrs[k as usize]
    } else {
        let ind = addrs[NDIRECT];
        if ind == 0 {
            0
        } else {
            assert(ref_slot(disk@, addrs@, NDIRECT as int) == ind);
            assert(disk@[ind as int] == disk.blocks@[ind as int]@);
            read_u32(&disk.blocks[ind as usize], 4 * (k as usize - NDIRECT))
        }
    }
}

/// Whether the disk has room to map the holes among file blocks
/// `lo..hi` of the file with block list `addrs`, as `fits` says: counts
/// the holes and the free blocks.
pub fn fits_check(disk: &Disk, addrs: &Vec<u32>, lo: u32, hi: u32) -> (r: bool)
    requires
        disk.wf(),
        fs_valid(disk@),
        file_blocks_ok(disk@, addrs@),
        lo <= hi <= MAXFILE,
    ensures
        r == fits(disk@, addrs@, lo as int, hi as int),
{
    let ghost d = disk@;
    let sb = readsb(disk);
    let size = sb.size as usize;
    let mut free: u64 = 0;
    let mut x: usize = 0;
    proof {
        assert(free_below(d, 0) =~= Set::<int>::empty());
    }
    while x < size
        invariant
            disk.wf(),
            d == disk@,
            fs_valid(d),
            sb == disk_superblock(d),
            size == sb.size,
            size <= d.len(),
            x <= size,
            free_below(d, x as int).finite(),
            free == free_below(d, x as int).len(),
            free <= x,
        decreases size - x,
    {
        proof {
            crate::disk::lemma_bblock_mono(x as int, sb.size - 1, sb.ninodes as int);
        }
        let used = bitmap_bit(disk, sb.ninodes, x);
        proof {
            if used {
                assert(free_below(d, x + 1) =~= free_below(d, x as int));
            } else {
                assert(free_below(d, x + 1) =~= free_below(d, x as int).insert(x as int));
            }
        }
        if !used {
            free = free + 1;
        }
        x += 1;
    }
    proof {
        assert(free_below(d, size as int) =~= free_set(d));
    }
    let mut holes_n: u64 = 0;
    let mut k: u32 = lo;
    proof {
        lemma_holes_nonneg(d, addrs@, lo as int, hi as int);
    }
    while k < hi
        invariant
            disk.wf(),
            d == disk@,
            fs_valid(d),
            file_blocks_ok(d, addrs@),
            lo <= k <= hi <= MAXFILE,
            holes_n <= k - lo,
            holes_n + holes(d, addrs@, k as int, hi as int) == holes(d, addrs@, lo as int, hi as int),
        decreases hi - k,
    {
        let a = peek_addr(disk, addrs, k);
        if a == 0 {
            holes_n = holes_n + 1;
        }
        k += 1;
    }
    let ind: u64 = if addrs[NDIRECT] == 0 && lo < hi && hi as usize > NDIRECT { 1 } else { 0 };
    holes_n + ind <= free
}

/// Mapping the first block of a range uses its share of the allocations.
proof fn lemma_range_step(
    d: Seq<Seq<u8>>,
    a: Seq<u32>,
    d2: Seq<Seq<u8>>,
    a2: Seq<u32>,
    lo: int,
    hi: int,
)
    requires
        file_blocks_ok(d, a),
        0 <= lo < hi <= MAXFILE,
        forall|k: int| 0 <= k < MAXFILE && k != lo ==> #[trigger] block_addr(d2, a2, k) == block_addr(d, a, k),
        a[NDIRECT as int] != 0 ==> a2[NDIRECT as int] == a[NDIRECT as int],
        lo < NDIRECT ==> a2[NDIRECT as int] == a[NDIRECT as int],
        lo >= NDIRECT ==> a2[NDIRECT as int] != 0,
    ensures
        allocs_needed(d, a, lo) <= range_allocs(d, a, lo, hi),
        range_allocs(d2, a2, lo + 1, hi) == range_allocs(d, a, lo, hi) - allocs_needed(d, a, lo),
{
    lemma_holes_frame(d, a, d2, a2, lo + 1, hi);
    lemma_holes_nonneg(d, a, lo + 1, hi);
    lemma_block_addr_slot(d, a, lo);
}

/// `bmap` keeps every byte of the file: a hole it fills reads as zero.
proof fn lemma_bmap_keeps_bytes(
    d: Seq<Seq<u8>>,
    a: Seq<u32>,
    d2: Seq<Seq<u8>>,
    a2: Seq<u32>,
    bn: int,
    r: u32,
)
    requires
        r == block_addr(d2, a2, bn),
        block_addr(d, a, bn) != 0 ==> d2 == d && a2 == a,
        block_addr(d, a, bn) == 0 ==> d2[r as int] == zero_block(),
        forall|k: int| 0 <= k < MAXFILE && k != bn ==> #[trigger] block_addr(d2, a2, k) == block_addr(d, a, k),
        forall|k: int|
            0 <= k < MAXFILE && k != bn && #[trigger] block_addr(d, a, k) != 0 ==> d2[block_addr(d, a, k) as int]
                == d[block_addr(d, a, k) as int],
    ensures
        forall|p: int| 0 <= p < MAXFILE * 512 ==> #[trigger] file_byte(d2, a2, p) == file_byte(d, a, p),
{
    assert forall|p: int| 0 <= p < MAXFILE * 512 implies #[trigger] file_byte(d2, a2, p) == file_byte(d, a, p) by {
        let k = p / 512;
        if k != bn {
            assert(block_addr(d2, a2, k) == block_addr(d, a, k));
        }
    }
}

/// What stays unchanged across a sequence of `bmap` calls on one file:
/// every block in use at the start, other than bitmap blocks and the
/// file's indirect block, keeps its contents.
pub open spec fn frame_since(d0: Seq<Seq<u8>>, a0: Seq<u32>, d1: Seq<Seq<u8>>, a1: Seq<u32>) -> bool {
    &&& d1.len() == d0.len()
    &&& disk_superblock(d1) == disk_superblock(d0)
    &&& free_set(d1).subset_of(free_set(d0))
    &&& a0[NDIRECT as int] != 0 ==> a1[NDIRECT as int] == a0[NDIRECT as int]
    &&& a0[NDIRECT as int] == 0 && a1[NDIRECT as int] != 0 ==> !block_in_use(
        d0,
        disk_superblock(d0).ninodes,
        a1[NDIRECT as int] as int,
    )
    &&& forall|b: int|
        0 <= b < disk_superblock(d0).size && block_in_use(d0, disk_superblock(d0).ninodes, b) && !is_bitmap_block(
            d0,
            b,
        ) && (a0[NDIRECT as int] == 0 || b != a0[NDIRECT as int]) ==> #[trigger] d1[b] == d0[b]
}

proof fn lemma_frame_step(
    d0: Seq<Seq<u8>>,
    a0: Seq<u32>,
    d1: Seq<Seq<u8>>,
    a1: Seq<u32>,
    d2: Seq<Seq<u8>>,
    a2: Seq<u32>,
)
    requires
        frame_since(d0, a0, d1, a1),
        frame_since(d1, a1, d2, a2),
        fs_valid(d1),
        file_blocks_ok(d1, a1),
        file_blocks_ok(d2, a2),
    ensures
        frame_since(d0, a0, d2, a2),
{
    let sb = disk_superblock(d0);
    assert forall|b: int|
        0 <= b < sb.size && block_in_use(d0, sb.ninodes, b) && !is_bitmap_block(d0, b) && (a0[NDIRECT as int] == 0
            || b != a0[NDIRECT as int]) implies #[trigger] d2[b] == d0[b] by {
        if !block_in_use(d1, sb.ninodes, b) {
            assert(free_set(d1).contains(b));
        }
        if a1[NDIRECT as int] != a0[NDIRECT as int] && b == a1[NDIRECT as int] {
            assert(!block_in_use(d0, sb.ninodes, b));
        }
        assert(d2[b] == d1[b]);
    }
    if a0[NDIRECT as int] == 0 && a2[NDIRECT as int] != 0 {
        if a1[NDIRECT as int] == 0 {
            assert(ref_slot(d2, a2, NDIRECT as int) == a2[NDIRECT as int]);
            assert(is_data(d2, a2[NDIRECT as int] as int));
            assert(free_set(d1).contains(a2[NDIRECT as int] as int));
        }
    }
}

/// Length that a read of `n` bytes at `off` gets from a file of `size`
/// bytes.
pub open spec fn read_len(size: int, off: int, n: int) -> int {
    if off + n > size {
        size - off
    } else {
        n
    }
}

/// Reads `n` bytes of the file at offset `off` into the front of `dst`.
/// Reading a device is left to its driver.  A read starting past the end,
/// or whose end overflows, fails; one that runs past the end is cut short.
/// Holes read as zeros; reading one allocates a zeroed block for it.
pub fn readi(disk: &mut Disk, ip: &mut Inode, devsw: &Vec<Devsw>, dst: &mut Vec<u8>, off: u32, n: u32) -> (r: Rw)
    requires
        old(disk).wf(),
        fs_valid(old(disk)@),
        file_blocks_ok(old(disk)@, old(ip).addrs@),
        old(ip).type_ != T_DEV && off <= old(ip).size && off + n <= u32::MAX ==> ({
            let len = read_len(old(ip).size as int, off as int, n as int);
            &&& old(dst)@.len() >= len
            &&& off + len <= MAXFILE * 512
            &&& len > 0 ==> range_allocs(old(disk)@, old(ip).addrs@, off as int / 512, (off + len + 511) / 512) <= nfree(
                old(disk)@,
            )
        }),
    ensures
        old(ip).type_ == T_DEV ==> final(disk)@ == old(disk)@ && final(ip).addrs@ == old(ip).addrs@ && final(dst)@
            == old(dst)@ && (if 0 <= old(ip).major < NDEV && old(ip).major < devsw@.len()
            && devsw@[old(ip).major as int].read {
            r == Rw::Device(old(ip).major as usize)
        } else {
            r == Rw::Done(-1i32)
        }),
        old(ip).type_ != T_DEV && (off > old(ip).size || off + n > u32::MAX) ==> r == Rw::Done(-1i32)
            && final(disk)@ == old(disk)@ && final(ip).addrs@ == old(ip).addrs@ && final(dst)@ == old(dst)@,
        old(ip).type_ != T_DEV && off <= old(ip).size && off + n <= u32::MAX ==> ({
            let len = read_len(old(ip).size as int, off as int, n as int);
            &&& r == Rw::Done(len as i32)
            &&& range_allocs(old(disk)@, old(ip).addrs@, off as int / 512, (off + len + 511) / 512) == 0
                ==> final(disk)@ == old(disk)@ && final(ip).addrs@ == old(ip).addrs@ && *final(ip) == *old(ip)
            &&& final(dst)@.len() == old(dst)@.len()
            &&& final(dst)@.subrange(0, len) == file_range(old(disk)@, old(ip).addrs@, off as int, len)
            &&& forall|i: int| len <= i < old(dst)@.len() ==> #[trigger] final(dst)@[i] == old(dst)@[i]
        }),
        final(disk).wf(),
        fs_valid(final(disk)@),
        final(disk)@.len() == old(disk)@.len(),
        disk_superblock(final(disk)@) == disk_superblock(old(disk)@),
        file_blocks_ok(final(disk)@, final(ip).addrs@),
        forall|p: int| 0 <= p < MAXFILE * 512 ==> #[trigger] file_byte(final(disk)@, final(ip).addrs@, p) == file_byte(
            old(disk)@,
            old(ip).addrs@,
            p,
        ),
        frame_since(old(disk)@, old(ip).addrs@, final(disk)@, final(ip).addrs@),
        forall|lo: int, h: int|
            0 <= lo <= off as int / 512 && (off + read_len(old(ip).size as int, off as int, n as int) + 511) / 512 <= h
                <= MAXFILE && #[trigger] fits(old(disk)@, old(ip).addrs@, lo, h) ==> fits(
                final(disk)@,
                final(ip).addrs@,
                lo,
                h,
            ),
        final(ip).dev == old(ip).dev,
        final(ip).inum == old(ip).inum,
        final(ip).ref_count == old(ip).ref_count,
        final(ip).flags == old(ip).flags,
        final(ip).type_ == old(ip).type_,
        final(ip).major == old(ip).major,
        final(ip).minor == old(ip).minor,
        final(ip).nlink == old(ip).nlink,
        final(ip).ownerid == old(ip).ownerid,
        final(ip).groupid == old(ip).groupid,
        final(ip).mode == old(ip).mode,
        final(ip).size == old(ip).size,
{
    proof {
        assert(free_set(disk@) =~= free_set(disk@));
    }
    if ip.type_ == T_DEV {
        if ip.major < 0 || ip.major >= NDEV as i16 || ip.major as usize >= devsw.len() || !devsw[ip.major as usize].read {
            return Rw::Done(-1);
        }
        return Rw::Device(ip.major as usize);
    }
    if off > ip.size || off as u64 + n as u64 > u32::MAX as u64 {
        return Rw::Done(-1);
    }
    let n0 = n;
    let mut n = n;
    if off + n > ip.size {
        n = ip.size - off;
    }
    let ghost d0 = disk@;
    let ghost a0 = ip.addrs@;
    let ghost dst0 = dst@;
    let ghost hi = (off + n + 511) / 512;
    let mut tot: u32 = 0;
    let mut coff: u32 = off;
    while tot < n
        invariant
            disk.wf(),
            fs_valid(disk@),
            file_blocks_ok(disk@, ip.addrs@),
            frame_since(d0, a0, disk@, ip.addrs@),
            fs_valid(d0),
            file_blocks_ok(d0, a0),
            forall|p: int| 0 <= p < MAXFILE * 512 ==> #[trigger] file_byte(disk@, ip.addrs@, p) == file_byte(d0, a0, p),
            ip.size == old(ip).size,
            ip.dev == old(ip).dev && ip.inum == old(ip).inum && ip.ref_count == old(ip).ref_count && ip.flags == old(ip).flags,
            ip.type_ == old(ip).type_ && ip.major == old(ip).major && ip.minor == old(ip).minor && ip.nlink == old(ip).nlink,
            ip.ownerid == old(ip).ownerid && ip.groupid == old(ip).groupid && ip.mode == old(ip).mode,
            n == read_len(old(ip).size as int, off as int, n0 as int),
            off + n <= MAXFILE * 512,
            hi == (off + n + 511) / 512,
            tot <= n,
            coff == off + tot,
            tot > 0 && tot < n ==> coff % 512 == 0,
            tot < n ==> range_allocs(disk@, ip.addrs@, coff as int / 512, hi) <= nfree(disk@),
            forall|lo: int, h: int|
                0 <= lo <= off as int / 512 && hi <= h <= MAXFILE && #[trigger] fits(d0, a0, lo, h) ==> fits(
                    disk@,
                    ip.addrs@,
                    lo,
                    h,
                ),
            range_allocs(d0, a0, off as int / 512, hi) == 0 ==> disk@ == d0 && ip.addrs@ == a0 && *ip == *old(ip) && (tot < n
                ==> range_allocs(disk@, ip.addrs@, coff as int / 512, hi) == 0),
            dst@.len() == dst0.len(),
            dst0.len() >= n,
            forall|i: int| 0 <= i < tot ==> #[trigger] dst@[i] == file_byte(d0, a0, off + i),
            forall|i: int| tot <= i < dst0.len() ==> #[trigger] dst@[i] == dst0[i],
        decreases n - tot,
    {
        let bn = coff / 512;
        proof {
            lemma_free_set_finite(disk@);
            vstd::arithmetic::div_mod::lemma_div_is_ordered((coff + 512) as int, (off + n + 511) as int, 512);
            lemma_range_allocs_bound(disk@, ip.addrs@, bn as int, hi);
        }
        let ghost d1 = disk@;
        let ghost a1 = ip.addrs@;
        proof {
            lemma_allocs_le_range(d1, a1, bn as int, hi);
            lemma_block_addr_slot(d1, a1, bn as int);
        }
        let addr = bmap(disk, ip, bn);
        proof {
            lemma_bmap_keeps_bytes(d1, a1, disk@, ip.addrs@, bn as int, addr);
            lemma_range_step(d1, a1, disk@, ip.addrs@, bn as int, hi);
            assert forall|lo: int, h: int|
                0 <= lo <= off as int / 512 && hi <= h <= MAXFILE && #[trigger] fits(d0, a0, lo, h) implies fits(
                    disk@,
                    ip.addrs@,
                    lo,
                    h,
                ) by {
                assert(fits(d1, a1, lo, h));
                lemma_bmap_fits(d1, a1, disk@, ip.addrs@, bn as int, lo, h);
            }
            assert(frame_since(d1, a1, disk@, ip.addrs@));
            lemma_frame_step(d0, a0, d1, a1, disk@, ip.addrs@);
        }
        let blk = disk.read_block(addr as usize);
        let boff = coff % 512;
        let m: u32 = if n - tot < 512 - boff {
            n - tot
        } else {
            512 - boff
        };
        let mut k: u32 = 0;
        while k < m
            invariant
                blk@ == disk@[addr as int],
                blk@.len() == 512,
                addr == block_addr(disk@, ip.addrs@, bn as int),
                addr != 0,
                bn == coff / 512,
                boff == coff % 512,
                boff + m <= 512,
                tot + m <= n,
                coff == off + tot,
                k <= m,
                dst@.len() == dst0.len(),
                dst0.len() >= n,
                forall|p: int| 0 <= p < MAXFILE * 512 ==> #[trigger] file_byte(disk@, ip.addrs@, p) == file_byte(d0, a0, p),
                forall|i: int| 0 <= i < tot + k ==> #[trigger] dst@[i] == file_byte(d0, a0, off + i),
                forall|i: int| tot + k <= i < dst0.len() ==> #[trigger] dst@[i] == dst0[i],
                off + n <= MAXFILE * 512,
            decreases m - k,
        {
            let v = blk[(boff + k) as usize];
            proof {
                let p = coff + k;
                vstd::arithmetic::div_mod::lemma_fundamental_div_mod(coff as int, 512);
                assert(p / 512 == bn && p % 512 == boff + k) by {
                    vstd::arithmetic::div_mod::lemma_div_multiples_vanish_fancy(bn as int, (boff + k) as int, 512);
                    vstd::arithmetic::div_mod::lemma_mod_multiples_vanish(bn as int, (boff + k) as int, 512);
                    vstd::arithmetic::div_mod::lemma_small_mod((boff + k) as nat, 512);
                }
                assert(v == file_byte(disk@, ip.addrs@, p));
            }
            dst.set((tot + k) as usize, v);
            k += 1;
        }
        tot = tot + m;
        coff = coff + m;
        proof {
            if tot < n {
                assert(m == 512 - boff);
                vstd::arithmetic::div_mod::lemma_fundamental_div_mod((coff - m) as int, 512);
                assert(coff == bn * 512 + 512);
                vstd::arithmetic::div_mod::lemma_mod_multiples_basic(bn + 1, 512);
                vstd::arithmetic::div_mod::lemma_div_multiples_vanish(bn + 1, 512);
                assert(coff / 512 == bn + 1);
            }
        }
    }
    proof {
        assert(dst@.subrange(0, n as int) =~= file_range(d0, a0, off as int, n as int));
    }
    Rw::Done(n as i32)
}

/// The first block of a nonempty range needs no more allocations than the
/// whole range.
proof fn lemma_allocs_le_range(d: Seq<Seq<u8>>, a: Seq<u32>, lo: int, hi: int)
    requires
        0 <= lo < hi,
    ensures
        allocs_needed(d, a, lo) <= range_allocs(d, a, lo, hi),
{
    lemma_holes_nonneg(d, a, lo + 1, hi);
    lemma_block_addr_slot(d, a, lo);
}

proof fn lemma_range_allocs_bound(d: Seq<Seq<u8>>, a: Seq<u32>, lo: int, hi: int)
    requires
        0 <= lo < hi,
    ensures
        range_allocs(d, a, lo, hi) >= 0,
{
    lemma_holes_nonneg(d, a, lo, hi);
}

/// Copies the status of an inode.
pub fn stati(ip: &Inode, st: &mut Stat)
    ensures
        final(st).dev == ip.dev as i32,
        final(st).ino == ip.inum,
        final(st).type_ == ip.type_,
        final(st).nlink == ip.nlink,
        final(st).size == ip.size,
        final(st).ownerid == ip.ownerid,
        final(st).groupid == ip.groupid,
        final(st).mode == ip.mode,
{
    st.dev = ip.dev as i32;
    st.ino = ip.inum;
    st.type_ = ip.type_;
    st.nlink = ip.nlink;
    st.size = ip.size;
    st.ownerid = ip.ownerid;
    st.groupid = ip.groupid;
    st.mode = ip.mode;
}

/// Byte offset of inode `inum` within its block.
pub open spec fn inode_offset(inum: int) -> int {
    (inum % 8) * 64
}

/// The disk copy of inode `inum` after `iupdate`: type, device numbers,
/// link count, size, mode and block addresses come from `ip`; owner and
/// group stay as they were on disk.
pub open spec fn inode_written(old_blk: Seq<u8>, new_blk: Seq<u8>, ip: Inode) -> bool {
    let off = inode_offset(ip.inum as int);
    let owner = as_signed16_at(old_blk, off + 8);
    let group = as_signed16_at(old_blk, off + 10);
    &&& new_blk.len() == old_blk.len()
    &&& dinode_fields_match(
        Dinode {
            type_: ip.type_,
            major: ip.major,
            minor: ip.minor,
            nlink: ip.nlink,
            ownerid: owner as i16,
            groupid: group as i16,
            mode: ip.mode,
            size: ip.size,
            addrs: ip.addrs,
        },
        new_blk,
        off,
    )
    &&& forall|k: int| 0 <= k < old_blk.len() && !(off <= k < off + DINODE_SIZE) ==> #[trigger] new_blk[k] == old_blk[k]
}

/// Signed 16-bit field at `off`.
pub open spec fn as_signed16_at(blk: Seq<u8>, off: int) -> int {
    crate::fs_layout::as_signed16(crate::fs_layout::le16(blk, off))
}

/// Copies a modified in-memory inode to its disk block.
pub fn iupdate(disk: &mut Disk, ip: &Inode)
    requires
        old(disk).wf(),
        iblock_spec(ip.inum as int) < old(disk)@.len(),
        ip.addrs@.len() == NDIRECT + 1,
    ensures
        final(disk).wf(),
        final(disk)@.len() == old(disk)@.len(),
        forall|b: int| 0 <= b < old(disk)@.len() && b != iblock_spec(ip.inum as int) ==> #[trigger] final(disk)@[b] == old(disk)@[b],
        inode_written(old(disk)@[iblock_spec(ip.inum as int)], final(disk)@[iblock_spec(ip.inum as int)], *ip),
{
    let ib: usize = (ip.inum / 8 + 2) as usize;
    let off: usize = ((ip.inum % 8) * 64) as usize;
    let mut blk = disk.read_block(ib);
    let ghost b0 = blk@;
    let din = Dinode::decode(&blk, off);
    let nd = Dinode {
        type_: ip.type_,
        major: ip.major,
        minor: ip.minor,
        nlink: ip.nlink,
        ownerid: din.ownerid,
        groupid: din.groupid,
        mode: ip.mode,
        size: ip.size,
        addrs: ip.addrs.clone(),
    };
    nd.encode(&mut blk, off);
    proof {
        assert(nd.addrs@ == ip.addrs@);
        assert forall|b: int| 0 <= b < old(disk)@.len() && b != ib implies #[trigger] disk@.update(ib as int, blk@)[b]
            == old(disk)@[b] by {}
    }
    disk.write_block(ib, blk);
}

/// Block `b` is one of the blocks the file refers to.
pub open spec fn owned(d: Seq<Seq<u8>>, a: Seq<u32>, b: int) -> bool {
    b != 0 && exists|s: int| 0 <= s < nslots() && #[trigger] ref_slot(d, a, s) == b
}

/// Since `d0`, the only blocks of the file system in use at `d0` whose
/// contents changed are bitmap blocks and blocks the file now refers to.
pub open spec fn frame_w(d0: Seq<Seq<u8>>, d: Seq<Seq<u8>>, a: Seq<u32>) -> bool {
    forall|b: int|
        0 <= b < disk_superblock(d0).size && block_in_use(d0, disk_superblock(d0).ninodes, b) && !is_bitmap_block(d0, b)
            && !owned(d, a, b) ==> #[trigger] d[b] == d0[b]
}

/// Since `d0`, the only blocks whose contents changed are bitmap blocks,
/// the inode block `ib`, the file's indirect block (block list `a`) and
/// the blocks the file maps for its blocks `lo..hi`.
pub open spec fn write_changes(d0: Seq<Seq<u8>>, d: Seq<Seq<u8>>, a: Seq<u32>, ib: int, lo: int, hi: int) -> bool {
    forall|b: int|
        0 <= b < d0.len() && #[trigger] d[b] != d0[b] ==> is_bitmap_block(d0, b) || b == ib || (b != 0 && b
            == a[NDIRECT as int]) || (b != 0 && exists|k: int| lo <= k < hi && #[trigger] block_addr(d, a, k) == b)
}

/// Mapping block `bn` of a range and writing into it keeps the changes
/// since `d0` within what `write_changes` allows.
proof fn lemma_changes_step(
    d0: Seq<Seq<u8>>,
    d1: Seq<Seq<u8>>,
    a1: Seq<u32>,
    d2: Seq<Seq<u8>>,
    a2: Seq<u32>,
    d3: Seq<Seq<u8>>,
    ib: int,
    lo: int,
    hi: int,
    bn: int,
)
    requires
        write_changes(d0, d1, a1, ib, lo, hi),
        changes_only(d1, d2, block_addr(d2, a2, bn) as int, a2[NDIRECT as int] as int),
        disk_superblock(d1) == disk_superblock(d0),
        d1.len() == d0.len(),
        d2.len() == d0.len(),
        d3.len() == d0.len(),
        0 <= lo <= bn < hi <= MAXFILE,
        forall|k: int| 0 <= k < MAXFILE && k != bn ==> #[trigger] block_addr(d2, a2, k) == block_addr(d1, a1, k),
        block_addr(d1, a1, bn) != 0 ==> block_addr(d2, a2, bn) == block_addr(d1, a1, bn),
        a1[NDIRECT as int] != 0 ==> a2[NDIRECT as int] == a1[NDIRECT as int],
        block_addr(d2, a2, bn) != 0,
        forall|i: int| 0 <= i < d2.len() && i != block_addr(d2, a2, bn) ==> #[trigger] d3[i] == d2[i],
        forall|s: int| 0 <= s < nslots() ==> #[trigger] ref_slot(d3, a2, s) == ref_slot(d2, a2, s),
    ensures
        write_changes(d0, d3, a2, ib, lo, hi),
{
    assert forall|k: int| 0 <= k < MAXFILE implies #[trigger] block_addr(d3, a2, k) == block_addr(d2, a2, k) by {
        lemma_block_addr_slot(d2, a2, k);
        lemma_block_addr_slot(d3, a2, k);
    }
    assert forall|b: int| 0 <= b < d0.len() && #[trigger] d3[b] != d0[b] implies is_bitmap_block(d0, b) || b == ib || (b
        != 0 && b == a2[NDIRECT as int]) || (b != 0 && exists|k: int| lo <= k < hi && #[trigger] block_addr(d3, a2, k)
        == b) by {
        if d3[b] != d2[b] {
            assert(block_addr(d3, a2, bn) == b);
        } else if d2[b] != d1[b] {
            if b == block_addr(d2, a2, bn) && b != 0 {
                assert(block_addr(d3, a2, bn) == b);
            }
        } else {
            assert(d1[b] != d0[b]);
            if !is_bitmap_block(d0, b) && b != ib && !(b != 0 && b == a1[NDIRECT as int]) {
                let k = choose|k: int| lo <= k < hi && #[trigger] block_addr(d1, a1, k) == b;
                assert(block_addr(d3, a2, k) == b);
            }
        }
    }
}

/// Every block the file refers to in `d` (with block list `a`) it already
/// referred to in `d0` (with `a0`), or was free in `d0`.
pub open spec fn refs_fresh(d0: Seq<Seq<u8>>, a0: Seq<u32>, d: Seq<Seq<u8>>, a: Seq<u32>) -> bool {
    forall|b: int|
        #[trigger] owned(d, a, b) ==> owned(d0, a0, b) || !block_in_use(d0, disk_superblock(d0).ninodes, b)
}

/// A write to one file leaves alone every block in use that the file did
/// not refer to (another file's block, say), other than bitmap blocks and
/// the file's inode block: `writei` changes only blocks outside those, or
/// blocks the file refers to afterwards, and those it either referred to
/// before or took from the free blocks.
pub proof fn lemma_write_spares_others(
    d0: Seq<Seq<u8>>,
    a0: Seq<u32>,
    d1: Seq<Seq<u8>>,
    a1: Seq<u32>,
    ib: int,
    b: int,
)
    requires
        refs_fresh(d0, a0, d1, a1),
        forall|c: int|
            0 <= c < disk_superblock(d0).size && block_in_use(d0, disk_superblock(d0).ninodes, c) && !is_bitmap_block(
                d0,
                c,
            ) && !owned(d1, a1, c) && c != ib ==> #[trigger] d1[c] == d0[c],
        0 <= b < disk_superblock(d0).size,
        block_in_use(d0, disk_superblock(d0).ninodes, b),
        !is_bitmap_block(d0, b),
        !owned(d0, a0, b),
        b != ib,
    ensures
        d1[b] == d0[b],
{
    if owned(d1, a1, b) {
        assert(owned(d0, a0, b) || !block_in_use(d0, disk_superblock(d0).ninodes, b));
    }
}

/// One round of `writei` keeps every block the file refers to either an
/// old block of the file or one that was free at the start.
proof fn lemma_fresh_step(
    d0: Seq<Seq<u8>>,
    a0: Seq<u32>,
    d1: Seq<Seq<u8>>,
    a1: Seq<u32>,
    d2: Seq<Seq<u8>>,
    a2: Seq<u32>,
    d3: Seq<Seq<u8>>,
    bn: int,
)
    requires
        refs_fresh(d0, a0, d1, a1),
        file_blocks_ok(d2, a2),
        disk_superblock(d1) == disk_superblock(d0),
        disk_superblock(d2) == disk_superblock(d0),
        free_set(d1).subset_of(free_set(d0)),
        0 <= bn < MAXFILE,
        forall|k: int| 0 <= k < MAXFILE && k != bn ==> #[trigger] block_addr(d2, a2, k) == block_addr(d1, a1, k),
        block_addr(d1, a1, bn) != 0 ==> block_addr(d2, a2, bn) == block_addr(d1, a1, bn),
        block_addr(d1, a1, bn) == 0 ==> !block_in_use(d1, disk_superblock(d1).ninodes, block_addr(d2, a2, bn) as int),
        a1[NDIRECT as int] != 0 ==> a2[NDIRECT as int] == a1[NDIRECT as int],
        a1[NDIRECT as int] == 0 && a2[NDIRECT as int] != 0 ==> !block_in_use(
            d1,
            disk_superblock(d1).ninodes,
            a2[NDIRECT as int] as int,
        ),
        forall|s: int| 0 <= s < nslots() ==> #[trigger] ref_slot(d3, a2, s) == ref_slot(d2, a2, s),
    ensures
        refs_fresh(d0, a0, d3, a2),
{
    let sb = disk_superblock(d0);
    assert forall|b: int| #[trigger] owned(d3, a2, b) implies owned(d0, a0, b) || !block_in_use(d0, sb.ninodes, b) by {
        let s = choose|s: int| 0 <= s < nslots() && #[trigger] ref_slot(d3, a2, s) == b;
        assert(ref_slot(d2, a2, s) == b);
        assert(is_data(d2, b));
        let k = if s < NDIRECT { s } else { s - 1 };
        lemma_block_addr_slot(d1, a1, k);
        lemma_block_addr_slot(d2, a2, k);
        let in_d1 = if s == NDIRECT {
            a1[NDIRECT as int] != 0
        } else {
            k != bn || block_addr(d1, a1, bn) != 0
        };
        if in_d1 {
            assert(ref_slot(d1, a1, s) == b);
        }
        if in_d1 {
            assert(owned(d1, a1, b));
        } else {
            assert(free_set(d1).contains(b));
        }
    }
}

/// One round of `writei`: mapping the block and overwriting part of it
/// keeps the frame and writes `vals` at its place in the file.
proof fn lemma_write_step(
    d0: Seq<Seq<u8>>,
    a0: Seq<u32>,
    d1: Seq<Seq<u8>>,
    a1: Seq<u32>,
    d2: Seq<Seq<u8>>,
    a2: Seq<u32>,
    d3: Seq<Seq<u8>>,
    src: Seq<u8>,
    off: int,
    tot: int,
    m: int,
    bn: int,
    addr: int,
)
    requires
        fs_valid(d0),
        fs_valid(d1),
        file_blocks_ok(d1, a1),
        file_blocks_ok(d2, a2),
        disk_superblock(d1) == disk_superblock(d0),
        free_set(d1).subset_of(free_set(d0)),
        frame_w(d0, d1, a1),
        forall|p: int| 0 <= p < MAXFILE * 512 ==> #[trigger] file_byte(d1, a1, p) == written_byte(d0, a0, src, off, tot, p),
        0 <= bn < MAXFILE,
        addr == block_addr(d2, a2, bn),
        addr != 0,
        0 <= tot,
        0 <= m,
        tot + m <= src.len(),
        bn * 512 <= off + tot,
        off + tot + m <= bn * 512 + 512,
        forall|k: int| 0 <= k < MAXFILE && k != bn ==> #[trigger] block_addr(d2, a2, k) == block_addr(d1, a1, k),
        block_addr(d1, a1, bn) != 0 ==> block_addr(d2, a2, bn) == block_addr(d1, a1, bn),
        a1[NDIRECT as int] != 0 ==> a2[NDIRECT as int] == a1[NDIRECT as int],
        a1[NDIRECT as int] == 0 && a2[NDIRECT as int] != 0 ==> !block_in_use(
            d1,
            disk_superblock(d1).ninodes,
            a2[NDIRECT as int] as int,
        ),
        forall|p: int| 0 <= p < MAXFILE * 512 ==> #[trigger] file_byte(d2, a2, p) == file_byte(d1, a1, p),
        forall|b: int|
            0 <= b < d1.len() && block_in_use(d1, disk_superblock(d1).ninodes, b) && !is_bitmap_block(d1, b) && (a1[NDIRECT
                as int] == 0 || b != a1[NDIRECT as int]) ==> #[trigger] d2[b] == d1[b],
        d1.len() == d0.len(),
        d3.len() == d2.len(),
        d2.len() == d1.len(),
        forall|i: int| 0 <= i < d2.len() && i != addr ==> #[trigger] d3[i] == d2[i],
        forall|s: int| 0 <= s < nslots() ==> #[trigger] ref_slot(d3, a2, s) == ref_slot(d2, a2, s),
        forall|p: int|
            0 <= p < MAXFILE * 512 ==> #[trigger] file_byte(d3, a2, p) == if off + tot <= p < off + tot + m {
                src[p - off]
            } else {
                file_byte(d2, a2, p)
            },
    ensures
        frame_w(d0, d3, a2),
        forall|p: int| 0 <= p < MAXFILE * 512 ==> #[trigger] file_byte(d3, a2, p) == written_byte(d0, a0, src, off, tot + m, p),
{
    let sb = disk_superblock(d0);
    lemma_block_addr_slot(d2, a2, bn);
    let slot = if bn < NDIRECT { bn } else { bn + 1 };
    assert(ref_slot(d2, a2, slot) == addr);
    assert forall|b: int|
        0 <= b < sb.size && block_in_use(d0, sb.ninodes, b) && !is_bitmap_block(d0, b) && !owned(d3, a2, b) implies #[trigger] d3[b]
        == d0[b] by {
        if owned(d2, a2, b) {
            let s = choose|s: int| 0 <= s < nslots() && #[trigger] ref_slot(d2, a2, s) == b;
            assert(ref_slot(d3, a2, s) == b);
        }
        if owned(d1, a1, b) {
            let s = choose|s: int| 0 <= s < nslots() && #[trigger] ref_slot(d1, a1, s) == b;
            if s == NDIRECT {
                assert(ref_slot(d2, a2, s) == b);
            } else {
                let k = if s < NDIRECT { s } else { s - 1 };
                lemma_block_addr_slot(d1, a1, k);
                lemma_block_addr_slot(d2, a2, k);
                assert(ref_slot(d2, a2, s) == b);
            }
        }
        if !block_in_use(d1, sb.ninodes, b) {
            assert(free_set(d1).contains(b));
        }
        if a1[NDIRECT as int] != 0 {
            assert(ref_slot(d1, a1, NDIRECT as int) == a1[NDIRECT as int]);
        }
        assert(d2[b] == d1[b]);
    }
    assert forall|p: int| 0 <= p < MAXFILE * 512 implies #[trigger] file_byte(d3, a2, p) == written_byte(
        d0,
        a0,
        src,
        off,
        tot + m,
        p,
    ) by {
        assert(file_byte(d2, a2, p) == file_byte(d1, a1, p));
        if off + tot <= p < off + tot + m {
            assert(file_byte(d3, a2, p) == src[p - off]);
        } else {
            assert(file_byte(d3, a2, p) == file_byte(d2, a2, p));
            assert(file_byte(d1, a1, p) == written_byte(d0, a0, src, off, tot, p));
        }
    }
}

/// Byte `p` of the file after bytes `off..off+n` were overwritten with `src`.
pub open spec fn written_byte(d0: Seq<Seq<u8>>, a0: Seq<u32>, src: Seq<u8>, off: int, n: int, p: int) -> u8 {
    if off <= p < off + n {
        src[p - off]
    } else {
        file_byte(d0, a0, p)
    }
}

/// Overwriting bytes of block `addr`, the block of file block `bn`,
/// changes exactly those bytes of the file.
proof fn lemma_data_write(
    d2: Seq<Seq<u8>>,
    a2: Seq<u32>,
    d3: Seq<Seq<u8>>,
    bn: int,
    addr: int,
    boff: int,
    m: int,
    vals: Seq<u8>,
)
    requires
        fs_valid(d2),
        file_blocks_ok(d2, a2),
        0 <= bn < MAXFILE,
        addr == block_addr(d2, a2, bn),
        addr != 0,
        0 <= boff,
        boff + m <= 512,
        vals.len() == m,
        d2[addr].len() == 512,
        d3.len() == d2.len(),
        forall|i: int| 0 <= i < d2.len() && i != addr ==> #[trigger] d3[i] == d2[i],
        d3[addr].len() == 512,
        forall|k: int| 0 <= k < 512 ==> #[trigger] d3[addr][k] == if boff <= k < boff + m { vals[k - boff] } else { d2[addr][k] },
    ensures
        fs_valid(d3),
        disk_superblock(d3) == disk_superblock(d2),
        free_set(d3) == free_set(d2),
        file_blocks_ok(d3, a2),
        forall|s: int| 0 <= s < nslots() ==> #[trigger] ref_slot(d3, a2, s) == ref_slot(d2, a2, s),
        forall|p: int|
            0 <= p < MAXFILE * 512 ==> #[trigger] file_byte(d3, a2, p) == if bn * 512 + boff <= p < bn * 512 + boff + m {
                vals[p - bn * 512 - boff]
            } else {
                file_byte(d2, a2, p)
            },
{
    lemma_block_addr_slot(d2, a2, bn);
    let slot = if bn < NDIRECT { bn } else { bn + 1 };
    assert(ref_slot(d2, a2, slot) == addr);
    lemma_not_bitmap_write(d2, addr, d3);
    let ind = a2[NDIRECT as int];
    if ind != 0 {
        assert(ref_slot(d2, a2, NDIRECT as int) == ind);
        assert(slot != NDIRECT);
        assert(ind as int != addr);
        assert(d3[ind as int] == d2[ind as int]);
    }
    assert forall|s: int| 0 <= s < nslots() implies #[trigger] ref_slot(d3, a2, s) == ref_slot(d2, a2, s) by {}
    assert forall|p: int| 0 <= p < MAXFILE * 512 implies #[trigger] file_byte(d3, a2, p) == if bn * 512 + boff <= p
        < bn * 512 + boff + m {
        vals[p - bn * 512 - boff]
    } else {
        file_byte(d2, a2, p)
    } by {
        let k = p / 512;
        lemma_block_addr_slot(d2, a2, k);
        lemma_block_addr_slot(d3, a2, k);
        vstd::arithmetic::div_mod::lemma_fundamental_div_mod(p, 512);
        if k == bn {
            assert(p % 512 == p - bn * 512);
        } else {
            let sk = if k < NDIRECT { k } else { k + 1 };
            if block_addr(d2, a2, k) != 0 {
                assert(ref_slot(d2, a2, sk) != ref_slot(d2, a2, slot));
            }
            if bn * 512 + boff <= p < bn * 512 + boff + m {
                assert(p / 512 == bn) by {
                    vstd::arithmetic::div_mod::lemma_div_multiples_vanish_fancy(bn, p - bn * 512, 512);
                }
            }
        }
    }
}

/// Writes `n` bytes of `src` into the file at offset `off`.  Writing a
/// device is left to its driver.  A write starting past the end, or whose
/// end overflows or passes the largest file size, fails.  Missing blocks
/// are allocated; if the file grew, its size and disk inode are updated.
/// The data-copying loop of `writei`: maps each block of the range and
/// overwrites the bytes there with those of `src`.  Returns the offset
/// where it stopped (`off + n`).
#[verifier::rlimit(60)]
fn writei_data(disk: &mut Disk, ip: &mut Inode, src: &Vec<u8>, off: u32, n: u32) -> (coff: u32)
    requires
        old(disk).wf(),
        fs_valid(old(disk)@),
        file_blocks_ok(old(disk)@, old(ip).addrs@),
        old(ip).inum < disk_superblock(old(disk)@).ninodes,
        off <= old(ip).size,
        off + n <= MAXFILE * 512,
        src@.len() >= n,
        n > 0 ==> range_allocs(old(disk)@, old(ip).addrs@, off as int / 512, (off + n + 511) / 512) <= nfree(old(disk)@),
    ensures
        coff == off + n,
        final(disk).wf(),
        fs_valid(final(disk)@),
        file_blocks_ok(final(disk)@, final(ip).addrs@),
        final(disk)@.len() == old(disk)@.len(),
        disk_superblock(final(disk)@) == disk_superblock(old(disk)@),
        meta_end(final(disk)@) == meta_end(old(disk)@),
        free_set(final(disk)@).subset_of(free_set(old(disk)@)),
        forall|lo: int, h: int|
            0 <= lo <= off as int / 512 && (off + n + 511) / 512 <= h <= MAXFILE && #[trigger] fits(
                old(disk)@,
                old(ip).addrs@,
                lo,
                h,
            ) ==> fits(final(disk)@, final(ip).addrs@, lo, h),
        final(disk)@[iblock_spec(old(ip).inum as int)] == old(disk)@[iblock_spec(old(ip).inum as int)],
        frame_w(old(disk)@, final(disk)@, final(ip).addrs@),
        refs_fresh(old(disk)@, old(ip).addrs@, final(disk)@, final(ip).addrs@),
        write_changes(
            old(disk)@,
            final(disk)@,
            final(ip).addrs@,
            iblock_spec(old(ip).inum as int),
            off as int / 512,
            (off + n + 511) / 512,
        ),
        forall|p: int|
            0 <= p < MAXFILE * 512 ==> #[trigger] file_byte(final(disk)@, final(ip).addrs@, p) == written_byte(
                old(disk)@,
                old(ip).addrs@,
                src@,
                off as int,
                n as int,
                p,
            ),
        final(ip).size == old(ip).size,
        final(ip).dev == old(ip).dev && final(ip).inum == old(ip).inum && final(ip).ref_count == old(ip).ref_count
            && final(ip).flags == old(ip).flags,
        final(ip).type_ == old(ip).type_ && final(ip).major == old(ip).major && final(ip).minor == old(ip).minor
            && final(ip).nlink == old(ip).nlink,
        final(ip).ownerid == old(ip).ownerid && final(ip).groupid == old(ip).groupid && final(ip).mode == old(ip).mode,
{
    let ghost d0 = disk@;
    let ghost a0 = ip.addrs@;
    proof {
        let sb = disk_superblock(d0);
        crate::disk::lemma_bblock_mono(0, sb.size - 1, sb.ninodes as int);
        lemma_iblock_lt_meta(d0, ip.inum as int);
        assert forall|p: int| 0 <= p < MAXFILE * 512 implies #[trigger] file_byte(d0, a0, p) == written_byte(
            d0,
            a0,
            src@,
            off as int,
            0,
            p,
        ) by {}
    }
    let ghost hi = (off + n + 511) / 512;
    let ghost ib = iblock_spec(ip.inum as int);
    let mut tot: u32 = 0;
    let mut coff: u32 = off;
    while tot < n
        invariant
            disk.wf(),
            fs_valid(disk@),
            file_blocks_ok(disk@, ip.addrs@),
            fs_valid(d0),
            file_blocks_ok(d0, a0),
            d0.len() == disk@.len(),
            disk_superblock(disk@) == disk_superblock(d0),
            free_set(disk@).subset_of(free_set(d0)),
            ip.inum < disk_superblock(d0).ninodes,
            ib == iblock_spec(ip.inum as int),
            ib < meta_end(d0),
            disk@[ib] == d0[ib],
            frame_w(d0, disk@, ip.addrs@),
            refs_fresh(d0, a0, disk@, ip.addrs@),
            write_changes(d0, disk@, ip.addrs@, ib, off as int / 512, hi),
            forall|p: int|
                0 <= p < MAXFILE * 512 ==> #[trigger] file_byte(disk@, ip.addrs@, p) == written_byte(
                    d0,
                    a0,
                    src@,
                    off as int,
                    tot as int,
                    p,
                ),
            ip.size == old(ip).size,
            ip.dev == old(ip).dev && ip.inum == old(ip).inum && ip.ref_count == old(ip).ref_count && ip.flags == old(ip).flags,
            ip.type_ == old(ip).type_ && ip.major == old(ip).major && ip.minor == old(ip).minor && ip.nlink == old(ip).nlink,
            ip.ownerid == old(ip).ownerid && ip.groupid == old(ip).groupid && ip.mode == old(ip).mode,
            off + n <= MAXFILE * 512,
            src@.len() >= n,
            hi == (off + n + 511) / 512,
            tot <= n,
            coff == off + tot,
            tot > 0 && tot < n ==> coff % 512 == 0,
            tot < n ==> range_allocs(disk@, ip.addrs@, coff as int / 512, hi) <= nfree(disk@),
            forall|lo: int, h: int|
                0 <= lo <= off as int / 512 && hi <= h <= MAXFILE && #[trigger] fits(d0, a0, lo, h) ==> fits(
                    disk@,
                    ip.addrs@,
                    lo,
                    h,
                ),
        decreases n - tot,
    {
        let bn = coff / 512;
        let ghost d1 = disk@;
        let ghost a1 = ip.addrs@;
        proof {
            lemma_free_set_finite(disk@);
            vstd::arithmetic::div_mod::lemma_div_is_ordered((coff + 512) as int, (off + n + 511) as int, 512);
            lemma_allocs_le_range(d1, a1, bn as int, hi);
        }
        let addr = bmap(disk, ip, bn);
        let ghost d2 = disk@;
        let ghost a2 = ip.addrs@;
        proof {
            lemma_bmap_keeps_bytes(d1, a1, d2, a2, bn as int, addr);
            lemma_range_step(d1, a1, d2, a2, bn as int, hi);
            assert forall|lo: int, h: int|
                0 <= lo <= off as int / 512 && hi <= h <= MAXFILE && #[trigger] fits(d0, a0, lo, h) implies fits(
                    d2,
                    a2,
                    lo,
                    h,
                ) by {
                assert(fits(d1, a1, lo, h));
                lemma_bmap_fits(d1, a1, d2, a2, bn as int, lo, h);
            }
        }
        let blk = disk.read_block(addr as usize);
        let boff = coff % 512;
        let m: u32 = if n - tot < 512 - boff {
            n - tot
        } else {
            512 - boff
        };
        let mut nb = blk;
        let mut k: u32 = 0;
        while k < m
            invariant
                nb@.len() == 512,
                boff + m <= 512,
                tot + m <= n,
                src@.len() >= n,
                k <= m,
                forall|q: int| 0 <= q < 512 ==> #[trigger] nb@[q] == if boff <= q < boff + k { src@[tot + q - boff] } else { d2[addr as int][q] },
            decreases m - k,
        {
            nb.set((boff + k) as usize, src[(tot + k) as usize]);
            k += 1;
        }
        disk.write_block(addr as usize, nb);
        proof {
            let vals = src@.subrange(tot as int, (tot + m) as int);
            lemma_data_write(d2, a2, disk@, bn as int, addr as int, boff as int, m as int, vals);
            vstd::arithmetic::div_mod::lemma_fundamental_div_mod(coff as int, 512);
            lemma_write_step(d0, a0, d1, a1, d2, a2, disk@, src@, off as int, tot as int, m as int, bn as int, addr as int);
            lemma_fresh_step(d0, a0, d1, a1, d2, a2, disk@, bn as int);
            lemma_changes_step(d0, d1, a1, d2, a2, disk@, ib, off as int / 512, hi, bn as int);
            lemma_meta_in_use(d0, ib);
            lemma_iblock_not_bitmap(d0, ip.inum as int);
            lemma_meta_not_owned(disk@, ip.addrs@, ib);
            let d3 = disk@;
            lemma_not_bitmap_write(d2, addr as int, d3);
            lemma_holes_frame(d2, a2, d3, a2, 0, MAXFILE as int);
            assert forall|lo: int, h: int|
                0 <= lo <= off as int / 512 && hi <= h <= MAXFILE && #[trigger] fits(d0, a0, lo, h) implies fits(
                    d3,
                    a2,
                    lo,
                    h,
                ) by {
                assert(fits(d2, a2, lo, h));
                lemma_holes_frame(d2, a2, d3, a2, lo, h);
            }
        }
        tot = tot + m;
        coff = coff + m;
        proof {
            if tot < n {
                assert(m == 512 - boff);
                vstd::arithmetic::div_mod::lemma_fundamental_div_mod((coff - m) as int, 512);
                assert(coff == bn * 512 + 512);
                vstd::arithmetic::div_mod::lemma_mod_multiples_basic(bn + 1, 512);
                vstd::arithmetic::div_mod::lemma_div_multiples_vanish(bn + 1, 512);
                assert(coff / 512 == bn + 1);
                let d3 = disk@;
                lemma_not_bitmap_write(d2, addr as int, d3);
                lemma_holes_frame(d2, a2, d3, a2, (bn + 1) as int, hi);
            }
        }
    }
    proof {
        assert(meta_end(disk@) == meta_end(d0));
    }
    coff
}

/// An inode of the file system lives in a metadata block.
pub proof fn lemma_iblock_lt_meta(d: Seq<Seq<u8>>, inum: int)
    requires
        fs_valid(d),
        0 <= inum < disk_superblock(d).ninodes,
    ensures
        2 <= iblock_spec(inum) < meta_end(d),
{
    let sb = disk_superblock(d);
    vstd::arithmetic::div_mod::lemma_div_is_ordered(inum, sb.ninodes as int, 8);
    vstd::arithmetic::div_mod::lemma_div_pos_is_pos(sb.size - 1, 4096);
}

#[verifier::rlimit(90)]
pub fn writei(disk: &mut Disk, ip: &mut Inode, devsw: &Vec<Devsw>, src: &Vec<u8>, off: u32, n: u32) -> (r: Rw)
    requires
        old(disk).wf(),
        fs_valid(old(disk)@),
        file_blocks_ok(old(disk)@, old(ip).addrs@),
        old(ip).inum < disk_superblock(old(disk)@).ninodes,
        old(ip).type_ != T_DEV && off <= old(ip).size && off + n <= MAXFILE * 512 ==> ({
            &&& src@.len() >= n
            &&& n > 0 ==> range_allocs(old(disk)@, old(ip).addrs@, off as int / 512, (off + n + 511) / 512) <= nfree(
                old(disk)@,
            )
        }),
    ensures
        old(ip).type_ == T_DEV ==> final(disk)@ == old(disk)@ && final(ip).addrs@ == old(ip).addrs@ && *final(ip)
            == *old(ip) && final(ip).size == old(ip).size && (if 0 <= old(ip).major < NDEV && old(ip).major < devsw@.len()
            && devsw@[old(ip).major as int].write {
            r == Rw::Device(old(ip).major as usize)
        } else {
            r == Rw::Done(-1i32)
        }),
        old(ip).type_ != T_DEV && (off > old(ip).size || off + n > MAXFILE * 512) ==> r == Rw::Done(-1i32)
            && final(disk)@ == old(disk)@ && final(ip).addrs@ == old(ip).addrs@ && final(ip).size == old(ip).size,
        old(ip).type_ != T_DEV && off <= old(ip).size && off + n <= MAXFILE * 512 ==> ({
            let grew = n > 0 && off + n > old(ip).size;
            let ib = iblock_spec(old(ip).inum as int);
            &&& r == Rw::Done(n as i32)
            &&& forall|p: int|
                0 <= p < MAXFILE * 512 ==> #[trigger] file_byte(final(disk)@, final(ip).addrs@, p) == written_byte(
                    old(disk)@,
                    old(ip).addrs@,
                    src@,
                    off as int,
                    n as int,
                    p,
                )
            &&& final(ip).size == if grew { off + n } else { old(ip).size as int }
            &&& grew ==> inode_written(old(disk)@[ib], final(disk)@[ib], *final(ip))
            &&& !grew ==> final(disk)@[ib] == old(disk)@[ib]
        }),
        final(disk).wf(),
        fs_valid(final(disk)@),
        final(disk)@.len() == old(disk)@.len(),
        disk_superblock(final(disk)@) == disk_superblock(old(disk)@),
        file_blocks_ok(final(disk)@, final(ip).addrs@),
        free_set(final(disk)@).subset_of(free_set(old(disk)@)),
        forall|lo: int, h: int|
            0 <= lo <= off as int / 512 && (off + n + 511) / 512 <= h <= MAXFILE && #[trigger] fits(
                old(disk)@,
                old(ip).addrs@,
                lo,
                h,
            ) ==> fits(final(disk)@, final(ip).addrs@, lo, h),
        refs_fresh(old(disk)@, old(ip).addrs@, final(disk)@, final(ip).addrs@),
        write_changes(
            old(disk)@,
            final(disk)@,
            final(ip).addrs@,
            iblock_spec(old(ip).inum as int),
            off as int / 512,
            (off + n + 511) / 512,
        ),
        forall|b: int|
            0 <= b < disk_superblock(old(disk)@).size && block_in_use(old(disk)@, disk_superblock(old(disk)@).ninodes, b)
                && !is_bitmap_block(old(disk)@, b) && !owned(final(disk)@, final(ip).addrs@, b) && b != iblock_spec(
                old(ip).inum as int,
            ) ==> #[trigger] final(disk)@[b] == old(disk)@[b],
        final(ip).dev == old(ip).dev,
        final(ip).inum == old(ip).inum,
        final(ip).ref_count == old(ip).ref_count,
        final(ip).flags == old(ip).flags,
        final(ip).type_ == old(ip).type_,
        final(ip).major == old(ip).major,
        final(ip).minor == old(ip).minor,
        final(ip).nlink == old(ip).nlink,
        final(ip).ownerid == old(ip).ownerid,
        final(ip).groupid == old(ip).groupid,
        final(ip).mode == old(ip).mode,
{
    let ghost d0 = disk@;
    let ghost a0 = ip.addrs@;
    proof {
        assert(free_set(d0) =~= free_set(d0));
        let sb = disk_superblock(d0);
        crate::disk::lemma_bblock_mono(0, sb.size - 1, sb.ninodes as int);
    }
    if ip.type_ == T_DEV {
        if ip.major < 0 || ip.major >= NDEV as i16 || ip.major as usize >= devsw.len() || !devsw[ip.major as usize].write {
            return Rw::Done(-1);
        }
        return Rw::Device(ip.major as usize);
    }
    if off > ip.size || off as u64 + n as u64 > (MAXFILE * 512) as u64 {
        return Rw::Done(-1);
    }
    let ghost ib = iblock_spec(ip.inum as int);
    let coff = writei_data(disk, ip, src, off, n);
    proof {
        lemma_meta_in_use(d0, ib);
        lemma_iblock_not_bitmap(d0, ip.inum as int);
    }
    let ghost d4 = disk@;
    if n > 0 && coff > ip.size {
        ip.size = coff;
        iupdate(disk, ip);
        proof {
            lemma_meta_in_use(d0, ib);
            lemma_iblock_not_bitmap(d0, ip.inum as int);
            lemma_meta_write(d0, d4, disk@, ib, ip.addrs@);
            assert forall|k: int| 0 <= k < MAXFILE implies #[trigger] block_addr(disk@, ip.addrs@, k) == block_addr(
                d4,
                ip.addrs@,
                k,
            ) by {
                lemma_block_addr_slot(d4, ip.addrs@, k);
                lemma_block_addr_slot(disk@, ip.addrs@, k);
            }
            lemma_holes_frame(d4, ip.addrs@, disk@, ip.addrs@, 0, MAXFILE as int);
            assert forall|b: int| #[trigger] owned(disk@, ip.addrs@, b) implies owned(d0, a0, b) || !block_in_use(
                d0,
                disk_superblock(d0).ninodes,
                b,
            ) by {
                let s = choose|s: int| 0 <= s < nslots() && #[trigger] ref_slot(disk@, ip.addrs@, s) == b;
                let k = if s < NDIRECT { s } else { s - 1 };
                lemma_block_addr_slot(d4, ip.addrs@, k);
                lemma_block_addr_slot(disk@, ip.addrs@, k);
                assert(ref_slot(d4, ip.addrs@, s) == b);
                assert(owned(d4, ip.addrs@, b));
            }
            assert forall|b: int| 0 <= b < d0.len() && #[trigger] disk@[b] != d0[b] implies is_bitmap_block(d0, b) || b == ib
                || (b != 0 && b == ip.addrs@[NDIRECT as int]) || (b != 0 && exists|k: int|
                off as int / 512 <= k < (off + n + 511) / 512 && #[trigger] block_addr(disk@, ip.addrs@, k) == b) by {
                if b != ib && d4[b] != d0[b] && !is_bitmap_block(d0, b) && !(b != 0 && b == ip.addrs@[NDIRECT as int]) {
                    let k = choose|k: int| off as int / 512 <= k < (off + n + 511) / 512 && #[trigger] block_addr(d4, ip.addrs@, k) == b;
                    assert(block_addr(disk@, ip.addrs@, k) == b);
                }
            }
            assert forall|lo: int, h: int|
                0 <= lo <= off as int / 512 && (off + n + 511) / 512 <= h <= MAXFILE && #[trigger] fits(
                    d0,
                    a0,
                    lo,
                    h,
                ) implies fits(disk@, ip.addrs@, lo, h) by {
                assert(fits(d4, ip.addrs@, lo, h));
                lemma_holes_frame(d4, ip.addrs@, disk@, ip.addrs@, lo, h);
            }
            assert forall|b: int|
                0 <= b < disk_superblock(d0).size && block_in_use(d0, disk_superblock(d0).ninodes, b)
                    && !is_bitmap_block(d0, b) && !owned(disk@, ip.addrs@, b) && b != ib implies #[trigger] disk@[b]
                == d0[b] by {
                if owned(d4, ip.addrs@, b) {
                    let s = choose|s: int| 0 <= s < nslots() && #[trigger] ref_slot(d4, ip.addrs@, s) == b;
                    assert(ref_slot(disk@, ip.addrs@, s) == b);
                }
                assert(d4[b] == d0[b]);
            }
        }
    }
    Rw::Done(n as i32)
}

/// Metadata blocks are in use on a sound file system.
proof fn lemma_meta_in_use(d: Seq<Seq<u8>>, b: int)
    requires
        fs_valid(d),
        0 <= b < meta_end(d),
    ensures
        block_in_use(d, disk_superblock(d).ninodes, b),
{
}

/// An inode block is not a bitmap block.
pub proof fn lemma_iblock_not_bitmap(d: Seq<Seq<u8>>, inum: int)
    requires
        fs_valid(d),
        0 <= inum < disk_superblock(d).ninodes,
    ensures
        !is_bitmap_block(d, iblock_spec(inum)),
{
    let sb = disk_superblock(d);
    if is_bitmap_block(d, iblock_spec(inum)) {
        let y = choose|y: int| 0 <= y < sb.size && bblock_spec(y, sb.ninodes as int) == iblock_spec(inum);
        vstd::arithmetic::div_mod::lemma_div_is_ordered(inum, sb.ninodes as int, 8);
        vstd::arithmetic::div_mod::lemma_div_pos_is_pos(y, 4096);
    }
}

/// A file's blocks are data blocks, so no metadata block is one of them.
proof fn lemma_meta_not_owned(d: Seq<Seq<u8>>, a: Seq<u32>, b: int)
    requires
        file_blocks_ok(d, a),
        b < meta_end(d),
    ensures
        !owned(d, a, b),
{
    if owned(d, a, b) {
        let s = choose|s: int| 0 <= s < nslots() && #[trigger] ref_slot(d, a, s) == b;
        if b != 0 {
            assert(is_data(d, ref_slot(d, a, s) as int));
        }
    }
}

/// Writing an inode block keeps the file system sound and the file's
/// bytes and blocks as they were.
proof fn lemma_meta_write(d0: Seq<Seq<u8>>, d4: Seq<Seq<u8>>, d5: Seq<Seq<u8>>, ib: int, a: Seq<u32>)
    requires
        fs_valid(d4),
        disk_superblock(d4) == disk_superblock(d0),
        meta_end(d4) == meta_end(d0),
        2 <= ib < meta_end(d4),
        !is_bitmap_block(d4, ib),
        file_blocks_ok(d4, a),
        d5.len() == d4.len(),
        forall|b: int| 0 <= b < d4.len() && b != ib ==> #[trigger] d5[b] == d4[b],
    ensures
        fs_valid(d5),
        disk_superblock(d5) == disk_superblock(d4),
        free_set(d5) == free_set(d4),
        file_blocks_ok(d5, a),
        forall|s: int| 0 <= s < nslots() ==> #[trigger] ref_slot(d5, a, s) == ref_slot(d4, a, s),
        forall|p: int| 0 <= p < MAXFILE * 512 ==> #[trigger] file_byte(d5, a, p) == file_byte(d4, a, p),
{
    let sb = disk_superblock(d4);
    assert(d5[1] == d4[1]);
    assert forall|y: int| 0 <= y < sb.size implies #[trigger] block_in_use(d5, sb.ninodes, y) == block_in_use(
        d4,
        sb.ninodes,
        y,
    ) by {
        if bblock_spec(y, sb.ninodes as int) == ib {
            assert(is_bitmap_block(d4, ib));
        }
    }
    assert(free_set(d5) =~= free_set(d4));
    let ind = a[NDIRECT as int];
    if ind != 0 {
        assert(ref_slot(d4, a, NDIRECT as int) == ind);
        assert(d5[ind as int] == d4[ind as int]);
    }
    assert forall|s: int| 0 <= s < nslots() implies #[trigger] ref_slot(d5, a, s) == ref_slot(d4, a, s) by {}
    assert forall|p: int| 0 <= p < MAXFILE * 512 implies #[trigger] file_byte(d5, a, p) == file_byte(d4, a, p) by {
        let k = p / 512;
        lemma_block_addr_slot(d4, a, k);
        lemma_block_addr_slot(d5, a, k);
    }
}

/// What a write gives back: after `writei` wrote `n` bytes of `src` at
/// `off`, the file holds them there, and a read of `n` bytes at `off` is
/// not cut short (the size covers them).
pub proof fn lemma_read_after_write(
    d0: Seq<Seq<u8>>,
    a0: Seq<u32>,
    d1: Seq<Seq<u8>>,
    a1: Seq<u32>,
    src: Seq<u8>,
    off: int,
    n: int,
    size0: int,
    size1: int,
)
    requires
        0 <= off <= size0,
        0 <= n,
        off + n <= MAXFILE * 512,
        src.len() >= n,
        forall|p: int| 0 <= p < MAXFILE * 512 ==> #[trigger] file_byte(d1, a1, p) == written_byte(d0, a0, src, off, n, p),
        size1 == if n > 0 && off + n > size0 { off + n } else { size0 },
    ensures
        file_range(d1, a1, off, n) == src.subrange(0, n),
        read_len(size1, off, n) == n,
{
    assert forall|i: int| 0 <= i < n implies #[trigger] file_range(d1, a1, off, n)[i] == src.subrange(0, n)[i] by {
        assert(file_byte(d1, a1, off + i) == written_byte(d0, a0, src, off, n, off + i));
    }
    assert(file_range(d1, a1, off, n) =~= src.subrange(0, n));
}

/// A write leaves every byte outside the written range as it was.
pub proof fn lemma_write_keeps_rest(
    d0: Seq<Seq<u8>>,
    a0: Seq<u32>,
    d1: Seq<Seq<u8>>,
    a1: Seq<u32>,
    src: Seq<u8>,
    off: int,
    n: int,
    p: int,
)
    requires
        0 <= p < MAXFILE * 512,
        !(off <= p < off + n),
        forall|q: int| 0 <= q < MAXFILE * 512 ==> #[trigger] file_byte(d1, a1, q) == written_byte(d0, a0, src, off, n, q),
    ensures
        file_byte(d1, a1, p) == file_byte(d0, a0, p),
{
    assert(file_byte(d1, a1, p) == written_byte(d0, a0, src, off, n, p));
}

/// Changing the bitmap bit of block `x` changes no other block's bit.
proof fn lemma_bit_update_only(d0: Seq<Seq<u8>>, ninodes: u32, x: int, y: int, v: bool)
    requires
        0 <= x,
        0 <= y,
        y != x,
        0 <= bblock_spec(x, ninodes as int) < d0.len(),
        0 <= bblock_spec(y, ninodes as int) < d0.len(),
        d0[bblock_spec(x, ninodes as int)].len() == BSIZE,
    ensures
        ({
            let bb = bblock_spec(x, ninodes as int);
            let d1 = d0.update(bb, with_bit(d0[bb], x % 4096, v));
            &&& block_in_use(d1, ninodes, y) == block_in_use(d0, ninodes, y)
            &&& block_in_use(d1, ninodes, x) == v
        }),
{
    let bb = bblock_spec(x, ninodes as int);
    let by = bblock_spec(y, ninodes as int);
    let bi = x % 4096;
    let k = (bi % 8) as u8;
    crate::disk::lemma_bit_ops(d0[bb][bi / 8], k);
    if by == bb {
        let yi = y % 4096;
        if yi / 8 == bi / 8 {
            vstd::arithmetic::div_mod::lemma_fundamental_div_mod(x, 4096);
            vstd::arithmetic::div_mod::lemma_fundamental_div_mod(y, 4096);
            assert(yi != bi);
            assert(((yi % 8) as u8) != k);
        }
    }
}

/// Facts about freeing a data block of a sound file system.
proof fn lemma_bfree_effect(d0: Seq<Seq<u8>>, x: int, d1: Seq<Seq<u8>>)
    requires
        fs_valid(d0),
        forall|i: int| 0 <= i < d0.len() ==> (#[trigger] d0[i]).len() == BSIZE,
        is_data(d0, x),
        d1 == ({
            let bb = bblock_spec(x, disk_superblock(d0).ninodes as int);
            d0.update(bb, with_bit(d0[bb], x % 4096, false))
        }),
    ensures
        d1.len() == d0.len(),
        disk_superblock(d1) == disk_superblock(d0),
        meta_end(d1) == meta_end(d0),
        fs_valid(d1),
        forall|i: int| 0 <= i < d1.len() ==> (#[trigger] d1[i]).len() == BSIZE,
        forall|y: int| 0 <= y < disk_superblock(d0).size ==> #[trigger] block_in_use(d1, disk_superblock(d0).ninodes, y)
            == (block_in_use(d0, disk_superblock(d0).ninodes, y) && y != x),
        forall|b: int| 0 <= b < d0.len() && !is_bitmap_block(d0, b) ==> #[trigger] d1[b] == d0[b],
{
    let sb = disk_superblock(d0);
    let bb = bblock_spec(x, sb.ninodes as int);
    crate::disk::lemma_bblock_mono(x, sb.size - 1, sb.ninodes as int);
    assert(d1[1] == d0[1]);
    assert forall|y: int| 0 <= y < sb.size implies #[trigger] block_in_use(d1, sb.ninodes, y) == (block_in_use(
        d0,
        sb.ninodes,
        y,
    ) && y != x) by {
        crate::disk::lemma_bblock_mono(y, sb.size - 1, sb.ninodes as int);
        if y != x {
            lemma_bit_update_only(d0, sb.ninodes, x, y, false);
        } else {
            lemma_bit_update_only(d0, sb.ninodes, x, x + 1, false);
            crate::disk::lemma_bit_ops(d0[bb][(x % 4096) / 8], ((x % 4096) % 8) as u8);
        }
    }
    assert forall|b: int| 0 <= b < d0.len() && !is_bitmap_block(d0, b) implies #[trigger] d1[b] == d0[b] by {
        if b == bb {
            assert(is_bitmap_block(d0, b));
        }
    }
}

/// Frees every block of the file (its data blocks and indirect block),
/// empties its block map, sets its size to zero and writes the inode.
pub fn itrunc(disk: &mut Disk, ip: &mut Inode)
    requires
        old(disk).wf(),
        fs_valid(old(disk)@),
        file_blocks_ok(old(disk)@, old(ip).addrs@),
        old(ip).inum < disk_superblock(old(disk)@).ninodes,
    ensures
        final(disk).wf(),
        fs_valid(final(disk)@),
        final(disk)@.len() == old(disk)@.len(),
        disk_superblock(final(disk)@) == disk_superblock(old(disk)@),
        final(ip).addrs@ == Seq::new((NDIRECT + 1) as nat, |i: int| 0u32),
        final(ip).size == 0,
        forall|y: int|
            0 <= y < disk_superblock(old(disk)@).size ==> #[trigger] block_in_use(
                final(disk)@,
                disk_superblock(old(disk)@).ninodes,
                y,
            ) == (block_in_use(old(disk)@, disk_superblock(old(disk)@).ninodes, y) && !owned(old(disk)@, old(ip).addrs@, y)),
        forall|b: int|
            0 <= b < old(disk)@.len() && !is_bitmap_block(old(disk)@, b) && b != iblock_spec(old(ip).inum as int)
                ==> #[trigger] final(disk)@[b] == old(disk)@[b],
        inode_written(
            old(disk)@[iblock_spec(old(ip).inum as int)],
            final(disk)@[iblock_spec(old(ip).inum as int)],
            *final(ip),
        ),
        final(ip).dev == old(ip).dev && final(ip).inum == old(ip).inum && final(ip).ref_count == old(ip).ref_count
            && final(ip).flags == old(ip).flags,
        final(ip).type_ == old(ip).type_ && final(ip).major == old(ip).major && final(ip).minor == old(ip).minor
            && final(ip).nlink == old(ip).nlink,
        final(ip).ownerid == old(ip).ownerid && final(ip).groupid == old(ip).groupid && final(ip).mode == old(ip).mode,
{
    let ghost d0 = disk@;
    let ghost a0 = ip.addrs@;
    let ghost sb = disk_superblock(d0);
    let mut i: usize = 0;
    while i < NDIRECT
        invariant
            disk.wf(),
            fs_valid(d0),
            file_blocks_ok(d0, a0),
            fs_valid(disk@),
            disk@.len() == d0.len(),
            sb == disk_superblock(d0),
            disk_superblock(disk@) == sb,
            meta_end(disk@) == meta_end(d0),
            i <= NDIRECT,
            ip.addrs@.len() == NDIRECT + 1,
            forall|k: int| 0 <= k < i ==> #[trigger] ip.addrs@[k] == 0,
            forall|k: int| i <= k < NDIRECT + 1 ==> #[trigger] ip.addrs@[k] == a0[k],
            forall|y: int|
                0 <= y < sb.size ==> #[trigger] block_in_use(disk@, sb.ninodes, y) == (block_in_use(d0, sb.ninodes, y)
                    && !(exists|k: int| 0 <= k < i && #[trigger] a0[k] == y && y != 0)),
            forall|b: int| 0 <= b < d0.len() && !is_bitmap_block(d0, b) ==> #[trigger] disk@[b] == d0[b],
            ip.size == old(ip).size,
            ip.dev == old(ip).dev && ip.inum == old(ip).inum && ip.ref_count == old(ip).ref_count && ip.flags == old(ip).flags,
            ip.type_ == old(ip).type_ && ip.major == old(ip).major && ip.minor == old(ip).minor && ip.nlink == old(ip).nlink,
            ip.ownerid == old(ip).ownerid && ip.groupid == old(ip).groupid && ip.mode == old(ip).mode,
        decreases NDIRECT - i,
    {
        let a = ip.addrs[i];
        if a != 0 {
            let ghost d1 = disk@;
            proof {
                assert(ref_slot(d0, a0, i as int) == a);
                assert forall|k: int| 0 <= k < i && a0[k] == a implies false by {
                    assert(ref_slot(d0, a0, k) == a0[k]);
                }
                lemma_bblock_in_fs(d0, a as int);
            }
            bfree(disk, a);
            proof {
                lemma_bfree_effect(d1, a as int, disk@);
                assert forall|b: int| 0 <= b < d0.len() && !is_bitmap_block(d0, b) implies #[trigger] disk@[b] == d0[b] by {
                    assert(!is_bitmap_block(d1, b));
                }
            }
            ip.addrs.set(i, 0);
        }
        i += 1;
    }
    let ind = ip.addrs[NDIRECT];
    if ind != 0 {
        proof {
            assert(ref_slot(d0, a0, NDIRECT as int) == ind);
            assert(is_data(d0, ind as int));
            assert(!is_bitmap_block(d0, ind as int)) by {
                if is_bitmap_block(d0, ind as int) {
                    lemma_bitmap_block_is_meta(d0, ind as int);
                }
            }
        }
        let blk = disk.read_block(ind as usize);
        proof {
            assert(blk@ == d0[ind as int]);
        }
        let mut j: usize = 0;
        while j < NINDIRECT
            invariant
                disk.wf(),
                fs_valid(d0),
                file_blocks_ok(d0, a0),
                fs_valid(disk@),
                disk@.len() == d0.len(),
                sb == disk_superblock(d0),
                disk_superblock(disk@) == sb,
                meta_end(disk@) == meta_end(d0),
                ind == a0[NDIRECT as int],
                ind != 0,
                blk@ == d0[ind as int],
                blk@.len() == BSIZE,
                j <= NINDIRECT,
                forall|y: int|
                    0 <= y < sb.size ==> #[trigger] block_in_use(disk@, sb.ninodes, y) == (block_in_use(d0, sb.ninodes, y)
                        && !(exists|k: int| 0 <= k < NDIRECT && #[trigger] a0[k] == y && y != 0) && !(exists|k: int|
                        0 <= k < j && #[trigger] ind_entry(d0[ind as int], k) == y && y != 0)),
                forall|b: int| 0 <= b < d0.len() && !is_bitmap_block(d0, b) ==> #[trigger] disk@[b] == d0[b],
            decreases NINDIRECT - j,
        {
            let a = read_u32(&blk, 4 * j);
            if a != 0 {
                let ghost d1 = disk@;
                proof {
                    let sl = NDIRECT + 1 + j;
                    assert(ref_slot(d0, a0, sl) == a);
                    assert forall|k: int| 0 <= k < NDIRECT && a0[k] == a implies false by {
                        assert(ref_slot(d0, a0, k) == a0[k]);
                    }
                    assert forall|k: int| 0 <= k < j && ind_entry(d0[ind as int], k) == a implies false by {
                        assert(ref_slot(d0, a0, NDIRECT + 1 + k) == ind_entry(d0[ind as int], k));
                    }
                    lemma_bblock_in_fs(d0, a as int);
                }
                bfree(disk, a);
                proof {
                    lemma_bfree_effect(d1, a as int, disk@);
                    assert forall|b: int| 0 <= b < d0.len() && !is_bitmap_block(d0, b) implies #[trigger] disk@[b] == d0[b] by {
                        assert(!is_bitmap_block(d1, b));
                    }
                }
            }
            j += 1;
        }
        let ghost d1 = disk@;
        proof {
            assert forall|k: int| 0 <= k < NDIRECT && a0[k] == ind implies false by {
                assert(ref_slot(d0, a0, k) == a0[k]);
            }
            assert forall|k: int| 0 <= k < NINDIRECT && ind_entry(d0[ind as int], k) == ind implies false by {
                assert(ref_slot(d0, a0, NDIRECT + 1 + k) == ind_entry(d0[ind as int], k));
            }
            lemma_bblock_in_fs(d0, ind as int);
        }
        bfree(disk, ind);
        proof {
            lemma_bfree_effect(d1, ind as int, disk@);
            assert forall|b: int| 0 <= b < d0.len() && !is_bitmap_block(d0, b) implies #[trigger] disk@[b] == d0[b] by {
                assert(!is_bitmap_block(d1, b));
            }
        }
        ip.addrs.set(NDIRECT, 0);
    }
    proof {
        assert forall|y: int| 0 <= y < sb.size implies #[trigger] block_in_use(disk@, sb.ninodes, y) == (block_in_use(
            d0,
            sb.ninodes,
            y,
        ) && !owned(d0, a0, y)) by {
            if owned(d0, a0, y) {
                let s = choose|s: int| 0 <= s < nslots() && #[trigger] ref_slot(d0, a0, s) == y;
                if s < NDIRECT {
                    assert(a0[s] == y);
                } else if s > NDIRECT {
                    assert(ind_entry(d0[ind as int], s - NDIRECT - 1) == y);
                }
            }
            if exists|k: int| 0 <= k < NDIRECT && #[trigger] a0[k] == y && y != 0 {
                let k = choose|k: int| 0 <= k < NDIRECT && #[trigger] a0[k] == y && y != 0;
                assert(ref_slot(d0, a0, k) == y);
            }
            if ind != 0 {
                if exists|k: int| 0 <= k < NINDIRECT && #[trigger] ind_entry(d0[ind as int], k) == y && y != 0 {
                    let k = choose|k: int| 0 <= k < NINDIRECT && #[trigger] ind_entry(d0[ind as int], k) == y && y != 0;
                    assert(ref_slot(d0, a0, NDIRECT + 1 + k) == y);
                }
                if y == ind {
                    assert(ref_slot(d0, a0, NDIRECT as int) == y);
                }
            }
        }
        assert(ip.addrs@ =~= Seq::new((NDIRECT + 1) as nat, |i: int| 0u32));
    }
    ip.size = 0;
    let ghost d4 = disk@;
    proof {
        lemma_iblock_lt_meta(d0, ip.inum as int);
        lemma_iblock_not_bitmap(d0, ip.inum as int);
    }
    iupdate(disk, ip);
    proof {
        let ib = iblock_spec(ip.inum as int);
        assert(d4[ib] == d0[ib]);
        assert(disk@[1] == d4[1]);
        assert forall|y: int| 0 <= y < sb.size implies #[trigger] block_in_use(disk@, sb.ninodes, y) == block_in_use(
            d4,
            sb.ninodes,
            y,
        ) by {
            crate::disk::lemma_bblock_mono(y, sb.size - 1, sb.ninodes as int);
            if bblock_spec(y, sb.ninodes as int) == ib {
                assert(is_bitmap_block(d0, ib));
            }
        }
    }
}

/// The bitmap block of a block of the file system lies on the disk.
proof fn lemma_bblock_in_fs(d: Seq<Seq<u8>>, x: int)
    requires
        fs_valid(d),
        0 <= x < disk_superblock(d).size,
    ensures
        bblock_spec(x, disk_superblock(d).ninodes as int) < d.len(),
        d.len() > 1,
{
    let sb = disk_superblock(d);
    crate::disk::lemma_bblock_mono(x, sb.size - 1, sb.ninodes as int);
}

} // verus!
