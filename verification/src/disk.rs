//! The blocks of the file-system device as the file-system code sees them,
//! and the block bitmap: reading the super block, zeroing, allocating and
//! freeing blocks.
use vstd::prelude::*;
use crate::fs_layout::{bblock_spec, superblock_of, Superblock, BSIZE};

verus! {

/// The blocks of the device, each `BSIZE` bytes long.
pub struct Disk {
    pub blocks: Vec<Vec<u8>>,
}

/// Bit `k` of `byte` is set.
pub open spec fn bit_set(byte: u8, k: u8) -> bool {
    byte & (1u8 << k) != 0
}

/// The bitmap marks block `x` as in use.
pub open spec fn block_in_use(d: Seq<Seq<u8>>, ninodes: u32, x: int) -> bool {
    let bb = bblock_spec(x, ninodes as int);
    let bi = x % 4096;
    bit_set(d[bb][bi / 8], (bi % 8) as u8)
}

/// A block of zero bytes.
pub open spec fn zero_block() -> Seq<u8> {
    Seq::new(BSIZE as nat, |i: int| 0u8)
}

/// The bitmap block covering blocks `b..b+BPB`, with bit `bi` changed to `v`.
pub open spec fn with_bit(blk: Seq<u8>, bi: int, v: bool) -> Seq<u8> {
    let byte = blk[bi / 8];
    let m = 1u8 << ((bi % 8) as u8);
    blk.update(bi / 8, if v { byte | m } else { byte & !m })
}

impl Disk {
    /// The contents of every block.
    pub open spec fn view(&self) -> Seq<Seq<u8>> {
        self.blocks@.map_values(|b: Vec<u8>| b@)
    }

    /// Every block is `BSIZE` bytes long.
    pub open spec fn wf(&self) -> bool {
        forall|i: int| 0 <= i < self.blocks@.len() ==> (#[trigger] self.blocks@[i])@.len() == BSIZE
    }

    /// Number of blocks.
    pub fn nblocks(&self) -> (r: usize)
        ensures
            r == self@.len(),
    {
        self.blocks.len()
    }

    /// A copy of block `i`.
    pub fn read_block(&self, i: usize) -> (r: Vec<u8>)
        requires
            i < self@.len(),
        ensures
            r@ == self@[i as int],
    {
        self.blocks[i].clone()
    }

    /// Replaces block `i`.
    pub fn write_block(&mut self, i: usize, data: Vec<u8>)
        requires
            i < old(self)@.len(),
        ensures
            final(self)@ == old(self)@.update(i as int, data@),
            old(self).wf() && data@.len() == BSIZE ==> final(self).wf(),
    {
        self.blocks.set(i, data);
        proof {
            assert(self@ =~= old(self)@.update(i as int, data@));
        }
    }
}

/// The super block as it stands in block 1.
pub open spec fn disk_superblock(d: Seq<Seq<u8>>) -> Superblock {
    superblock_of(d[1])
}

/// The super block describes a bitmap that lies on the disk: every block
/// it counts, and the bitmap block of each, exist.
pub open spec fn bitmap_on_disk(d: Seq<Seq<u8>>, sb: Superblock) -> bool {
    &&& sb.size <= d.len()
    &&& sb.size > 0 ==> bblock_spec(sb.size - 1, sb.ninodes as int) < d.len()
}

/// Reads the super block.
pub fn readsb(disk: &Disk) -> (r: Superblock)
    requires
        disk.wf(),
        disk@.len() > 1,
    ensures
        r == disk_superblock(disk@),
{
    let blk = disk.read_block(1);
    Superblock::decode(&blk)
}

/// Zeroes block `bno`.
pub fn bzero(disk: &mut Disk, bno: u32)
    requires
        old(disk).wf(),
        bno < old(disk)@.len(),
    ensures
        final(disk).wf(),
        final(disk)@ == old(disk)@.update(bno as int, zero_block()),
{
    let z: Vec<u8> = vec![0u8; 512];
    proof {
        assert(z@ =~= zero_block());
    }
    disk.write_block(bno as usize, z);
}

pub proof fn lemma_bit_ops(byte: u8, k: u8)
    requires
        k < 8,
    ensures
        bit_set(byte | (1u8 << k), k),
        !bit_set(byte & !(1u8 << k), k),
        forall|j: u8| j < 8 && j != k ==> bit_set(byte | (1u8 << k), j) == bit_set(byte, j),
        forall|j: u8| j < 8 && j != k ==> bit_set(byte & !(1u8 << k), j) == bit_set(byte, j),
        bit_set(byte, k) ==> (byte & !(1u8 << k)) | (1u8 << k) == byte,
        !bit_set(byte, k) ==> (byte | (1u8 << k)) & !(1u8 << k) == byte,
{
    assert((k < 8 ==> (byte | (1u8 << k)) & (1u8 << k) != 0)
        && (k < 8 ==> (byte & !(1u8 << k)) & (1u8 << k) == 0)) by (bit_vector);
    assert forall|j: u8| j < 8 && j != k implies bit_set(byte | (1u8 << k), j) == bit_set(byte, j) by {
        assert(j < 8 && k < 8 && j != k ==> (((byte | (1u8 << k)) & (1u8 << j)) != 0) == ((byte & (1u8
            << j)) != 0)) by (bit_vector);
    }
    assert forall|j: u8| j < 8 && j != k implies bit_set(byte & !(1u8 << k), j) == bit_set(byte, j) by {
        assert(j < 8 && k < 8 && j != k ==> (((byte & !(1u8 << k)) & (1u8 << j)) != 0) == ((byte & (1u8
            << j)) != 0)) by (bit_vector);
    }
    assert((k < 8 && byte & (1u8 << k) != 0 ==> (byte & !(1u8 << k)) | (1u8 << k) == byte)
        && (k < 8 && byte & (1u8 << k) == 0 ==> (byte | (1u8 << k)) & !(1u8 << k) == byte)) by (bit_vector);
}

pub proof fn lemma_bblock_mono(x: int, y: int, n: int)
    requires
        0 <= x <= y,
        0 <= n,
    ensures
        bblock_spec(x, n) <= bblock_spec(y, n),
{
    vstd::arithmetic::div_mod::lemma_div_is_ordered(x, y, 4096);
}

proof fn lemma_split(b: int, bi: int)
    requires
        b % 4096 == 0,
        0 <= b,
        0 <= bi < 4096,
    ensures
        (b + bi) / 4096 == b / 4096,
        (b + bi) % 4096 == bi,
{
    vstd::arithmetic::div_mod::lemma_fundamental_div_mod(b, 4096);
    vstd::arithmetic::div_mod::lemma_div_multiples_vanish_fancy(b / 4096, bi, 4096);
    vstd::arithmetic::div_mod::lemma_mod_multiples_vanish(b / 4096, bi, 4096);
}

proof fn lemma_in_use_at(d0: Seq<Seq<u8>>, ninodes: u32, b: int, bi: int, bb: int)
    requires
        b % 4096 == 0,
        0 <= b,
        0 <= bi < 4096,
        bb == bblock_spec(b, ninodes as int),
    ensures
        bblock_spec(b + bi, ninodes as int) == bb,
        (b + bi) % 4096 == bi,
        block_in_use(d0, ninodes, b + bi) == bit_set(d0[bb][bi / 8], (bi % 8) as u8),
{
    lemma_split(b, bi);
}

/// Marks block `x` in use in bitmap block `bb` (whose contents are `blk`)
/// and zeroes block `x`.
fn claim_block(disk: &mut Disk, bb: usize, blk: Vec<u8>, x: u32, bi: usize)
    requires
        old(disk).wf(),
        bb < old(disk)@.len(),
        x < old(disk)@.len(),
        blk@ == old(disk)@[bb as int],
        bi < 4096,
    ensures
        final(disk).wf(),
        final(disk)@ == old(disk)@.update(bb as int, with_bit(old(disk)@[bb as int], bi as int, true)).update(
            x as int,
            zero_block(),
        ),
{
    let mut nb = blk;
    let m: u8 = 1u8 << ((bi % 8) as u8);
    let byte = nb[bi / 8];
    nb.set(bi / 8, byte | m);
    disk.write_block(bb, nb);
    bzero(disk, x);
}

/// Searches one bitmap block, which covers blocks `b..b+BPB`, for the first
/// clear bit whose block lies below `size`.
fn scan_bitmap_block(blk: &Vec<u8>, b: u64, size: u64) -> (r: Option<u64>)
    requires
        blk@.len() == BSIZE,
        b <= size <= u32::MAX,
    ensures
        match r {
            Some(bi) => {
                &&& bi < 4096
                &&& b + bi < size
                &&& !bit_set(blk@[bi as int / 8], (bi % 8) as u8)
                &&& forall|j: int|
                    0 <= j < bi ==> #[trigger] bit_set(blk@[j / 8], (j % 8) as u8)
            },
            None => forall|j: int|
                0 <= j < 4096 && b + j < size ==> #[trigger] bit_set(blk@[j / 8], (j % 8) as u8),
        },
{
    let mut bi: u64 = 0;
    while bi < 4096 && b + bi < size
        invariant
            blk@.len() == BSIZE,
            b <= size <= u32::MAX,
            bi <= 4096,
            forall|j: int| 0 <= j < bi ==> #[trigger] bit_set(blk@[j / 8], (j % 8) as u8),
        decreases 4096 - bi,
    {
        let m: u8 = 1u8 << ((bi % 8) as u8);
        if blk[(bi / 8) as usize] & m == 0 {
            return Some(bi);
        }
        bi += 1;
    }
    None
}

/// Allocates a zeroed disk block: the first block whose bitmap bit is clear
/// is marked in use, zeroed, and returned.
pub fn balloc(disk: &mut Disk) -> (r: u32)
    requires
        old(disk).wf(),
        old(disk)@.len() > 1,
        bitmap_on_disk(old(disk)@, disk_superblock(old(disk)@)),
        exists|x: int|
            0 <= x < disk_superblock(old(disk)@).size && !block_in_use(
                old(disk)@,
                disk_superblock(old(disk)@).ninodes,
                x,
            ),
    ensures
        ({
            let sb = disk_superblock(old(disk)@);
            let bb = bblock_spec(r as int, sb.ninodes as int);
            &&& r < sb.size
            &&& !block_in_use(old(disk)@, sb.ninodes, r as int)
            &&& forall|y: int| 0 <= y < r ==> block_in_use(old(disk)@, sb.ninodes, y)
            &&& final(disk)@ == old(disk)@.update(bb, with_bit(old(disk)@[bb], r as int % 4096, true)).update(
                r as int,
                zero_block(),
            )
        }),
        final(disk).wf(),
{
    let sb = readsb(disk);
    let ghost d0 = disk@;
    let ghost w = choose|x: int| 0 <= x < sb.size && !block_in_use(d0, sb.ninodes, x);
    let mut b: u64 = 0;
    while b < sb.size as u64
        invariant
            disk@ == d0,
            old(disk)@ == d0,
            disk.wf(),
            sb == disk_superblock(d0),
            bitmap_on_disk(d0, sb),
            b % 4096 == 0,
            b <= sb.size + 4096,
            0 <= w < sb.size,
            !block_in_use(d0, sb.ninodes, w),
            forall|y: int| 0 <= y < b && y < sb.size ==> block_in_use(d0, sb.ninodes, y),
        decreases sb.size + 4096 - b,
    {
        proof {
            lemma_bblock_mono(b as int, sb.size - 1, sb.ninodes as int);
        }
        let bb: u64 = b / 4096 + sb.ninodes as u64 / 8 + 3;
        let blk = disk.read_block(bb as usize);
        assert(blk@.len() == BSIZE);
        match scan_bitmap_block(&blk, b, sb.size as u64) {
            Some(bi) => {
                proof {
                    lemma_in_use_at(d0, sb.ninodes, b as int, bi as int, bb as int);
                    assert forall|y: int| 0 <= y < b + bi && y < sb.size implies block_in_use(
                        d0,
                        sb.ninodes,
                        y,
                    ) by {
                        if y >= b {
                            lemma_in_use_at(d0, sb.ninodes, b as int, y - b, bb as int);
                        }
                    }
                }
                let x: u32 = (b + bi) as u32;
                claim_block(disk, bb as usize, blk, x, bi as usize);
                return x;
            },
            None => {
                proof {
                    assert forall|y: int| 0 <= y < b + 4096 && y < sb.size implies block_in_use(
                        d0,
                        sb.ninodes,
                        y,
                    ) by {
                        if y >= b {
                            lemma_in_use_at(d0, sb.ninodes, b as int, y - b, bb as int);
                        }
                    }
                }
            },
        }
        b += 4096;
    }
    proof {
        assert(block_in_use(d0, sb.ninodes, w));
    }
    0
}

/// Frees block `b`: its bitmap bit, which must be set, is cleared.
pub fn bfree(disk: &mut Disk, b: u32)
    requires
        old(disk).wf(),
        old(disk)@.len() > 1,
        bblock_spec(b as int, disk_superblock(old(disk)@).ninodes as int) < old(disk)@.len(),
        block_in_use(old(disk)@, disk_superblock(old(disk)@).ninodes, b as int),
    ensures
        ({
            let bb = bblock_spec(b as int, disk_superblock(old(disk)@).ninodes as int);
            final(disk)@ == old(disk)@.update(bb, with_bit(old(disk)@[bb], b as int % 4096, false))
        }),
        final(disk).wf(),
{
    let sb = readsb(disk);
    let bb: u64 = b as u64 / 4096 + sb.ninodes as u64 / 8 + 3;
    let mut blk = disk.read_block(bb as usize);
    let bi: u64 = b as u64 % 4096;
    let m: u8 = 1u8 << ((bi % 8) as u8);
    let byte = blk[(bi / 8) as usize];
    blk.set((bi / 8) as usize, byte & !m);
    disk.write_block(bb as usize, blk);
}

/// Freeing the block that `balloc` just handed out puts the bitmap back as
/// it was: the only block left changed is the allocated block itself, which
/// now holds zeros.  (The allocated block must not be a bitmap block.)
pub proof fn lemma_bfree_undoes_balloc(d0: Seq<Seq<u8>>, ninodes: u32, x: int)
    requires
        0 <= x,
        x != bblock_spec(x, ninodes as int),
        0 <= bblock_spec(x, ninodes as int) < d0.len(),
        0 <= x < d0.len(),
        d0[bblock_spec(x, ninodes as int)].len() == BSIZE,
        !block_in_use(d0, ninodes, x),
    ensures
        ({
            let bb = bblock_spec(x, ninodes as int);
            let d1 = d0.update(bb, with_bit(d0[bb], x % 4096, true)).update(x, zero_block());
            let d2 = d1.update(bb, with_bit(d1[bb], x % 4096, false));
            &&& block_in_use(d1, ninodes, x)
            &&& d2 == d0.update(x, zero_block())
        }),
{
    let bb = bblock_spec(x, ninodes as int);
    let bi = x % 4096;
    let byte = d0[bb][bi / 8];
    let k = (bi % 8) as u8;
    lemma_bit_ops(byte, k);
    let d1 = d0.update(bb, with_bit(d0[bb], bi, true)).update(x, zero_block());
    let d2 = d1.update(bb, with_bit(d1[bb], bi, false));
    assert(d1[bb] == with_bit(d0[bb], bi, true));
    assert(with_bit(d1[bb], bi, false) =~= d0[bb]);
    assert(d2 =~= d0.update(x, zero_block()));
}

/// Allocation marks in use exactly the block it returns: every other block
/// keeps its bitmap bit.
pub proof fn lemma_balloc_marks_only_result(d0: Seq<Seq<u8>>, ninodes: u32, x: int, y: int)
    requires
        0 <= x,
        0 <= y,
        y != x,
        x != bblock_spec(x, ninodes as int),
        0 <= bblock_spec(x, ninodes as int) < d0.len(),
        0 <= bblock_spec(y, ninodes as int) < d0.len(),
        0 <= x < d0.len(),
        d0[bblock_spec(x, ninodes as int)].len() == BSIZE,
    ensures
        ({
            let bb = bblock_spec(x, ninodes as int);
            let d1 = d0.update(bb, with_bit(d0[bb], x % 4096, true)).update(x, zero_block());
            bblock_spec(y, ninodes as int) != x ==> block_in_use(d1, ninodes, y) == block_in_use(
                d0,
                ninodes,
                y,
            )
        }),
{
    let bb = bblock_spec(x, ninodes as int);
    let by = bblock_spec(y, ninodes as int);
    let bi = x % 4096;
    let k = (bi % 8) as u8;
    let d1 = d0.update(bb, with_bit(d0[bb], bi, true)).update(x, zero_block());
    if by != x && by == bb {
        let yi = y % 4096;
        lemma_bit_ops(d0[bb][bi / 8], k);
        if yi / 8 == bi / 8 {
            // same byte: the bits differ, since the offsets within the block differ
            vstd::arithmetic::div_mod::lemma_fundamental_div_mod(x, 4096);
            vstd::arithmetic::div_mod::lemma_fundamental_div_mod(y, 4096);
            assert(x / 4096 == y / 4096);
            assert(yi != bi);
            assert(yi % 8 != bi % 8);
            assert(((yi % 8) as u8) != k);
        }
    }
}

} // verus!
