//! The cache of in-memory inodes: finding an inode's entry, taking and
//! dropping references, locking an inode and loading it from disk, and
//! allocating inodes on disk.
use vstd::prelude::*;
use crate::disk::{Disk, disk_superblock, block_in_use};
use crate::fs::{
    Inode, I_BUSY, I_VALID, itrunc, iupdate, fs_valid, file_blocks_ok, owned, inode_written, inode_offset,
    is_bitmap_block, as_signed16_at, lemma_iblock_lt_meta, lemma_iblock_not_bitmap,
};
use crate::fs_layout::{NDIRECT, Dinode, dinode_fields_match, iblock_spec, le16, as_signed16, DINODE_SIZE};

verus! {

/// Number of entries in the inode cache.
pub const NINODE: usize = 50;

/// The inode cache.  An entry with a zero reference count is free.
pub struct ICache {
    pub inode: Vec<Inode>,
}

impl ICache {
    /// The cache has its `NINODE` entries, no reference count is negative,
    /// every entry has room for its block addresses, and no two referenced
    /// entries stand for the same inode.
    pub open spec fn wf(&self) -> bool {
        &&& self.inode@.len() == NINODE
        &&& forall|i: int|
            0 <= i < NINODE ==> (#[trigger] self.inode@[i]).ref_count >= 0 && self.inode@[i].addrs@.len() == NDIRECT + 1
        &&& forall|i: int, j: int|
            0 <= i < NINODE && 0 <= j < NINODE && i != j && (#[trigger] self.inode@[i]).ref_count > 0
                && (#[trigger] self.inode@[j]).ref_count > 0 ==> !(self.inode@[i].dev == self.inode@[j].dev
                && self.inode@[i].inum == self.inode@[j].inum)
    }

    /// Entry `i` is referenced and stands for inode `inum` of device `dev`.
    pub open spec fn holds(&self, i: int, dev: u32, inum: u32) -> bool {
        0 <= i < NINODE && self.inode@[i].ref_count > 0 && self.inode@[i].dev == dev && self.inode@[i].inum == inum
    }

    /// Some referenced entry stands for the inode.
    pub open spec fn is_cached(&self, dev: u32, inum: u32) -> bool {
        exists|i: int| self.holds(i, dev, inum)
    }

    /// Entry `i` is the first free entry.
    pub open spec fn first_free(&self, i: int) -> bool {
        &&& 0 <= i < NINODE
        &&& self.inode@[i].ref_count == 0
        &&& forall|j: int| 0 <= j < i ==> (#[trigger] self.inode@[j]).ref_count != 0
    }

    /// Some entry is free.
    pub open spec fn has_free(&self) -> bool {
        exists|i: int| 0 <= i < NINODE && (#[trigger] self.inode@[i]).ref_count == 0
    }
}

/// A free inode entry.
pub fn empty_inode() -> (r: Inode)
    ensures
        r.dev == 0 && r.inum == 0 && r.ref_count == 0 && r.flags == 0,
        r.type_ == 0 && r.major == 0 && r.minor == 0 && r.nlink == 0,
        r.ownerid == 0 && r.groupid == 0 && r.mode == 0 && r.size == 0,
        r.addrs@ == Seq::new((NDIRECT + 1) as nat, |k: int| 0u32),
{
    let addrs: Vec<u32> = vec![0u32; NDIRECT + 1];
    proof {
        assert(addrs@ =~= Seq::new((NDIRECT + 1) as nat, |k: int| 0u32));
    }
    Inode {
        dev: 0,
        inum: 0,
        ref_count: 0,
        flags: 0,
        type_: 0,
        major: 0,
        minor: 0,
        nlink: 0,
        ownerid: 0,
        groupid: 0,
        mode: 0,
        size: 0,
        addrs,
    }
}

/// An inode cache whose entries are all free.
pub fn iinit() -> (r: ICache)
    ensures
        r.wf(),
        forall|i: int| 0 <= i < NINODE ==> (#[trigger] r.inode@[i]).ref_count == 0 && r.inode@[i].flags == 0,
{
    let mut v: Vec<Inode> = Vec::new();
    let mut k: usize = 0;
    while k < NINODE
        invariant
            k <= NINODE,
            v@.len() == k,
            forall|i: int|
                0 <= i < k ==> (#[trigger] v@[i]).ref_count == 0 && v@[i].flags == 0 && v@[i].addrs@.len() == NDIRECT
                    + 1,
        decreases NINODE - k,
    {
        v.push(empty_inode());
        k += 1;
    }
    ICache { inode: v }
}

/// Finds the cache entry of inode `inum` on device `dev` and takes a
/// reference to it.  A referenced entry for the inode is reused; otherwise
/// the first free entry is given to the inode, not yet valid.  The inode
/// is neither locked nor read from disk.  Returns the entry's index.
pub fn iget(cache: &mut ICache, dev: u32, inum: u32) -> (r: usize)
    requires
        old(cache).wf(),
        old(cache).is_cached(dev, inum) || old(cache).has_free(),
        forall|i: int| 0 <= i < NINODE ==> (#[trigger] old(cache).inode@[i]).ref_count < i32::MAX,
    ensures
        final(cache).wf(),
        r < NINODE,
        old(cache).is_cached(dev, inum) ==> old(cache).holds(r as int, dev, inum) && final(cache).inode@[r as int]
            == (Inode { ref_count: (old(cache).inode@[r as int].ref_count + 1) as i32, ..old(cache).inode@[r as int] }),
        !old(cache).is_cached(dev, inum) ==> old(cache).first_free(r as int) && final(cache).inode@[r as int]
            == (Inode { dev, inum, ref_count: 1, flags: 0, ..old(cache).inode@[r as int] }),
        forall|j: int| 0 <= j < NINODE && j != r ==> #[trigger] final(cache).inode@[j] == old(cache).inode@[j],
{
    let mut empty: Option<usize> = None;
    let mut i: usize = 0;
    while i < NINODE
        invariant
            cache.wf(),
            *cache == *old(cache),
            forall|j: int| 0 <= j < NINODE ==> (#[trigger] cache.inode@[j]).ref_count < i32::MAX,
            i <= NINODE,
            forall|j: int| 0 <= j < i ==> !cache.holds(j, dev, inum),
            match empty {
                Some(e) => e < i && cache.first_free(e as int),
                None => forall|j: int| 0 <= j < i ==> (#[trigger] cache.inode@[j]).ref_count != 0,
            },
        decreases NINODE - i,
    {
        if cache.inode[i].ref_count > 0 && cache.inode[i].dev == dev && cache.inode[i].inum == inum {
            proof {
                assert(old(cache).holds(i as int, dev, inum));
            }
            cache.inode[i].ref_count = cache.inode[i].ref_count + 1;
            proof {
                assert forall|a: int, b: int|
                    0 <= a < NINODE && 0 <= b < NINODE && a != b && (#[trigger] cache.inode@[a]).ref_count > 0
                        && (#[trigger] cache.inode@[b]).ref_count > 0 implies !(cache.inode@[a].dev
                        == cache.inode@[b].dev && cache.inode@[a].inum == cache.inode@[b].inum) by {
                    assert(old(cache).inode@[a].ref_count > 0 && old(cache).inode@[b].ref_count > 0);
                }
            }
            return i;
        }
        if empty.is_none() && cache.inode[i].ref_count == 0 {
            empty = Some(i);
        }
        i += 1;
    }
    proof {
        assert(!old(cache).is_cached(dev, inum));
    }
    let e = match empty {
        Some(e) => e,
        None => {
            proof {
                let w = choose|w: int| 0 <= w < NINODE && (#[trigger] old(cache).inode@[w]).ref_count == 0;
                assert(cache.inode@[w].ref_count != 0);
            }
            0
        },
    };
    cache.inode[e].dev = dev;
    cache.inode[e].inum = inum;
    cache.inode[e].ref_count = 1;
    cache.inode[e].flags = 0;
    proof {
        assert forall|a: int, b: int|
            0 <= a < NINODE && 0 <= b < NINODE && a != b && (#[trigger] cache.inode@[a]).ref_count > 0
                && (#[trigger] cache.inode@[b]).ref_count > 0 implies !(cache.inode@[a].dev == cache.inode@[b].dev
                && cache.inode@[a].inum == cache.inode@[b].inum) by {
            if a == e {
                assert(!old(cache).holds(b, dev, inum));
            } else if b == e {
                assert(!old(cache).holds(a, dev, inum));
            } else {
                assert(old(cache).inode@[a].ref_count > 0 && old(cache).inode@[b].ref_count > 0);
            }
        }
    }
    e
}

/// Takes one more reference to entry `i`.
pub fn idup(cache: &mut ICache, i: usize)
    requires
        old(cache).wf(),
        i < NINODE,
        old(cache).inode@[i as int].ref_count < i32::MAX,
        old(cache).inode@[i as int].ref_count > 0,
    ensures
        final(cache).wf(),
        final(cache).inode@[i as int] == (Inode {
            ref_count: (old(cache).inode@[i as int].ref_count + 1) as i32,
            ..old(cache).inode@[i as int]
        }),
        forall|j: int| 0 <= j < NINODE && j != i ==> #[trigger] final(cache).inode@[j] == old(cache).inode@[j],
{
    cache.inode[i].ref_count = cache.inode[i].ref_count + 1;
    proof {
        assert forall|a: int, b: int|
            0 <= a < NINODE && 0 <= b < NINODE && a != b && (#[trigger] cache.inode@[a]).ref_count > 0
                && (#[trigger] cache.inode@[b]).ref_count > 0 implies !(cache.inode@[a].dev == cache.inode@[b].dev
                && cache.inode@[a].inum == cache.inode@[b].inum) by {
            assert(old(cache).inode@[a].ref_count > 0 && old(cache).inode@[b].ref_count > 0);
        }
    }
}

/// The inode is locked.
pub open spec fn is_busy(e: Inode) -> bool {
    e.flags & I_BUSY != 0
}

/// The inode's fields have been read from disk.
pub open spec fn is_valid(e: Inode) -> bool {
    e.flags & I_VALID != 0
}

/// Type of inode `inum` as the disk holds it.
pub open spec fn disk_type(d: Seq<Seq<u8>>, inum: int) -> int {
    as_signed16(le16(d[iblock_spec(inum)], inode_offset(inum)))
}

/// The fields of `e` that live on disk equal those of inode `inum` on the
/// disk.
pub open spec fn loaded_from(e: Inode, d: Seq<Seq<u8>>, inum: int) -> bool {
    dinode_fields_match(
        Dinode {
            type_: e.type_,
            major: e.major,
            minor: e.minor,
            nlink: e.nlink,
            ownerid: e.ownerid,
            groupid: e.groupid,
            mode: e.mode,
            size: e.size,
            addrs: e.addrs,
        },
        d[iblock_spec(inum)],
        inode_offset(inum),
    )
}

/// Locks entry `i`, reading the inode from disk if the entry is not valid
/// yet.  Returns `false`, changing nothing, when the inode is locked
/// already: the caller must wait until it is unlocked and try again.
pub fn ilock(cache: &mut ICache, disk: &Disk, i: usize) -> (locked: bool)
    requires
        old(cache).wf(),
        disk.wf(),
        i < NINODE,
        old(cache).inode@[i as int].ref_count >= 1,
        !is_busy(old(cache).inode@[i as int]) && !is_valid(old(cache).inode@[i as int]) ==> ({
            let inum = old(cache).inode@[i as int].inum as int;
            &&& iblock_spec(inum) < disk@.len()
            &&& disk_type(disk@, inum) != 0
        }),
    ensures
        final(cache).wf(),
        locked == !is_busy(old(cache).inode@[i as int]),
        !locked ==> *final(cache) == *old(cache),
        locked ==> final(cache).inode@[i as int].flags == old(cache).inode@[i as int].flags | 3,
        locked && is_valid(old(cache).inode@[i as int]) ==> final(cache).inode@[i as int] == (Inode {
            flags: final(cache).inode@[i as int].flags,
            ..old(cache).inode@[i as int]
        }),
        locked && !is_valid(old(cache).inode@[i as int]) ==> ({
            let e = final(cache).inode@[i as int];
            let o = old(cache).inode@[i as int];
            &&& loaded_from(e, disk@, o.inum as int)
            &&& e.dev == o.dev && e.inum == o.inum && e.ref_count == o.ref_count
        }),
        locked ==> is_busy(final(cache).inode@[i as int]) && is_valid(final(cache).inode@[i as int]),
        forall|j: int| 0 <= j < NINODE && j != i ==> #[trigger] final(cache).inode@[j] == old(cache).inode@[j],
{
    let f = cache.inode[i].flags;
    if f & I_BUSY != 0 {
        return false;
    }
    if f & I_VALID == 0 {
        let inum = cache.inode[i].inum;
        let blk = disk.read_block((inum / 8 + 2) as usize);
        let din = Dinode::decode(&blk, ((inum % 8) * 64) as usize);
        cache.inode[i].type_ = din.type_;
        cache.inode[i].major = din.major;
        cache.inode[i].minor = din.minor;
        cache.inode[i].nlink = din.nlink;
        cache.inode[i].size = din.size;
        cache.inode[i].ownerid = din.ownerid;
        cache.inode[i].groupid = din.groupid;
        cache.inode[i].mode = din.mode;
        cache.inode[i].addrs = din.addrs;
    }
    cache.inode[i].flags = f | 3;
    proof {
        assert((f | 3) & 1 != 0 && (f | 3) & 2 != 0) by (bit_vector);
        assert forall|a: int, b: int|
            0 <= a < NINODE && 0 <= b < NINODE && a != b && (#[trigger] cache.inode@[a]).ref_count > 0
                && (#[trigger] cache.inode@[b]).ref_count > 0 implies !(cache.inode@[a].dev == cache.inode@[b].dev
                && cache.inode@[a].inum == cache.inode@[b].inum) by {
            assert(old(cache).inode@[a].ref_count > 0 && old(cache).inode@[b].ref_count > 0);
        }
    }
    true
}

/// Unlocks entry `i`.
pub fn iunlock(cache: &mut ICache, i: usize)
    requires
        old(cache).wf(),
        i < NINODE,
        old(cache).inode@[i as int].ref_count >= 1,
        is_busy(old(cache).inode@[i as int]),
    ensures
        final(cache).wf(),
        final(cache).inode@[i as int] == (Inode {
            flags: old(cache).inode@[i as int].flags & !I_BUSY,
            ..old(cache).inode@[i as int]
        }),
        !is_busy(final(cache).inode@[i as int]),
        is_valid(final(cache).inode@[i as int]) == is_valid(old(cache).inode@[i as int]),
        forall|j: int| 0 <= j < NINODE && j != i ==> #[trigger] final(cache).inode@[j] == old(cache).inode@[j],
{
    let f = cache.inode[i].flags;
    cache.inode[i].flags = f & !I_BUSY;
    proof {
        assert((f & !1i32) & 1 == 0 && ((f & !1i32) & 2 != 0) == (f & 2 != 0)) by (bit_vector);
        assert forall|a: int, b: int|
            0 <= a < NINODE && 0 <= b < NINODE && a != b && (#[trigger] cache.inode@[a]).ref_count > 0
                && (#[trigger] cache.inode@[b]).ref_count > 0 implies !(cache.inode@[a].dev == cache.inode@[b].dev
                && cache.inode@[a].inum == cache.inode@[b].inum) by {
            assert(old(cache).inode@[a].ref_count > 0 && old(cache).inode@[b].ref_count > 0);
        }
    }
}

/// The entry will be truncated and freed on disk when its last reference
/// is dropped: it is valid and no directory links to it.
pub open spec fn frees_on_put(e: Inode) -> bool {
    e.ref_count == 1 && is_valid(e) && e.nlink == 0
}

/// Writing the inode twice leaves what the second write wrote.
proof fn lemma_inode_written_twice(b0: Seq<u8>, b1: Seq<u8>, b2: Seq<u8>, x: Inode, y: Inode)
    requires
        inode_written(b0, b1, x),
        inode_written(b1, b2, y),
        x.inum == y.inum,
        b0.len() == 512,
    ensures
        inode_written(b0, b2, y),
{
    let off = inode_offset(x.inum as int);
    assert(0 <= off && off + DINODE_SIZE <= 512) by {
        assert(0 <= x.inum % 8 < 8);
    }
    assert(b1[off + 8] == b1[off + 8] && le16(b1, off + 8) == le16(b1, off + 8));
    assert(as_signed16_at(b1, off + 8) == as_signed16_at(b0, off + 8)) by {
        let v = le16(b0, off + 8);
        assert(0 <= v < 65536) by {
            assert(0 <= b0[off + 8] < 256 && 0 <= b0[off + 9] < 256);
        }
    }
    assert(as_signed16_at(b1, off + 10) == as_signed16_at(b0, off + 10)) by {
        let v = le16(b0, off + 10);
        assert(0 <= v < 65536) by {
            assert(0 <= b0[off + 10] < 256 && 0 <= b0[off + 11] < 256);
        }
    }
}

/// Drops a reference to entry `i`.  When it was the last reference to a
/// valid inode that no directory links to, the inode is truncated, its
/// type cleared on disk, and the entry made free and not valid.
pub fn iput(cache: &mut ICache, disk: &mut Disk, i: usize)
    requires
        old(cache).wf(),
        i < NINODE,
        old(cache).inode@[i as int].ref_count >= 1,
        frees_on_put(old(cache).inode@[i as int]) ==> ({
            let e = old(cache).inode@[i as int];
            &&& !is_busy(e)
            &&& old(disk).wf()
            &&& fs_valid(old(disk)@)
            &&& file_blocks_ok(old(disk)@, e.addrs@)
            &&& e.inum < disk_superblock(old(disk)@).ninodes
        }),
    ensures
        final(cache).wf(),
        forall|j: int| 0 <= j < NINODE && j != i ==> #[trigger] final(cache).inode@[j] == old(cache).inode@[j],
        !frees_on_put(old(cache).inode@[i as int]) ==> final(disk)@ == old(disk)@ && *final(disk) == *old(disk)
            && final(cache).inode@[i as int] == (Inode {
            ref_count: (old(cache).inode@[i as int].ref_count - 1) as i32,
            ..old(cache).inode@[i as int]
        }),
        frees_on_put(old(cache).inode@[i as int]) ==> ({
            let e = old(cache).inode@[i as int];
            let f = final(cache).inode@[i as int];
            let d0 = old(disk)@;
            let d1 = final(disk)@;
            let sb = disk_superblock(d0);
            let ib = iblock_spec(e.inum as int);
            &&& f == (Inode { ref_count: 0, flags: 0, type_: 0, size: 0, addrs: f.addrs, ..e })
            &&& f.addrs@ == Seq::new((NDIRECT + 1) as nat, |k: int| 0u32)
            &&& final(disk).wf()
            &&& fs_valid(d1)
            &&& d1.len() == d0.len()
            &&& disk_superblock(d1) == sb
            &&& forall|y: int|
                0 <= y < sb.size ==> #[trigger] block_in_use(d1, sb.ninodes, y) == (block_in_use(d0, sb.ninodes, y)
                    && !owned(d0, e.addrs@, y))
            &&& forall|b: int|
                0 <= b < d0.len() && !is_bitmap_block(d0, b) && b != ib ==> #[trigger] d1[b] == d0[b]
            &&& inode_written(d0[ib], d1[ib], f)
        }),
{
    if cache.inode[i].ref_count == 1 && cache.inode[i].flags & I_VALID != 0 && cache.inode[i].nlink == 0 {
        let ghost d0 = disk@;
        let ghost e = cache.inode@[i as int];
        let f = cache.inode[i].flags;
        cache.inode[i].flags = f | I_BUSY;
        itrunc(disk, &mut cache.inode[i]);
        let ghost d1 = disk@;
        let ghost t = cache.inode@[i as int];
        cache.inode[i].type_ = 0;
        proof {
            lemma_iblock_lt_meta(d0, e.inum as int);
        }
        iupdate(disk, &cache.inode[i]);
        proof {
            let ib = iblock_spec(e.inum as int);
            lemma_iblock_not_bitmap(d0, e.inum as int);
            assert(d1[ib].len() == 512);
            assert(d0[ib].len() == 512);
            lemma_inode_written_twice(d0[ib], d1[ib], disk@[ib], t, cache.inode@[i as int]);
            assert(disk@[1] == d1[1]);
            assert forall|y: int| 0 <= y < disk_superblock(d0).size implies #[trigger] block_in_use(
                disk@,
                disk_superblock(d0).ninodes,
                y,
            ) == block_in_use(d1, disk_superblock(d0).ninodes, y) by {
                crate::disk::lemma_bblock_mono(y, disk_superblock(d0).size - 1, disk_superblock(d0).ninodes as int);
                if crate::fs_layout::bblock_spec(y, disk_superblock(d0).ninodes as int) == ib {
                    assert(is_bitmap_block(d0, ib));
                }
            }
        }
        cache.inode[i].flags = 0;
    }
    cache.inode[i].ref_count = cache.inode[i].ref_count - 1;
    proof {
        assert forall|a: int, b: int|
            0 <= a < NINODE && 0 <= b < NINODE && a != b && (#[trigger] cache.inode@[a]).ref_count > 0
                && (#[trigger] cache.inode@[b]).ref_count > 0 implies !(cache.inode@[a].dev == cache.inode@[b].dev
                && cache.inode@[a].inum == cache.inode@[b].inum) by {
            assert(old(cache).inode@[a].ref_count > 0 && old(cache).inode@[b].ref_count > 0);
        }
    }
}

/// Unlocks entry `i` and drops a reference to it, as `iunlock` then
/// `iput` do.
pub fn iunlockput(cache: &mut ICache, disk: &mut Disk, i: usize)
    requires
        old(cache).wf(),
        i < NINODE,
        old(cache).inode@[i as int].ref_count >= 1,
        is_busy(old(cache).inode@[i as int]),
        frees_on_put(old(cache).inode@[i as int]) ==> ({
            let e = old(cache).inode@[i as int];
            &&& old(disk).wf()
            &&& fs_valid(old(disk)@)
            &&& file_blocks_ok(old(disk)@, e.addrs@)
            &&& e.inum < disk_superblock(old(disk)@).ninodes
        }),
    ensures
        final(cache).wf(),
        forall|j: int| 0 <= j < NINODE && j != i ==> #[trigger] final(cache).inode@[j] == old(cache).inode@[j],
        !is_busy(final(cache).inode@[i as int]),
        !frees_on_put(old(cache).inode@[i as int]) ==> final(disk)@ == old(disk)@ && *final(disk) == *old(disk)
            && final(cache).inode@[i as int] == (Inode {
            ref_count: (old(cache).inode@[i as int].ref_count - 1) as i32,
            flags: old(cache).inode@[i as int].flags & !I_BUSY,
            ..old(cache).inode@[i as int]
        }),
        frees_on_put(old(cache).inode@[i as int]) ==> ({
            let e = old(cache).inode@[i as int];
            let f = final(cache).inode@[i as int];
            let d0 = old(disk)@;
            let d1 = final(disk)@;
            let sb = disk_superblock(d0);
            let ib = iblock_spec(e.inum as int);
            &&& f == (Inode { ref_count: 0, flags: 0, type_: 0, size: 0, addrs: f.addrs, ..e })
            &&& f.addrs@ == Seq::new((NDIRECT + 1) as nat, |k: int| 0u32)
            &&& final(disk).wf()
            &&& fs_valid(d1)
            &&& d1.len() == d0.len()
            &&& disk_superblock(d1) == sb
            &&& forall|y: int|
                0 <= y < sb.size ==> #[trigger] block_in_use(d1, sb.ninodes, y) == (block_in_use(d0, sb.ninodes, y)
                    && !owned(d0, e.addrs@, y))
            &&& forall|b: int|
                0 <= b < d0.len() && !is_bitmap_block(d0, b) && b != ib ==> #[trigger] d1[b] == d0[b]
            &&& inode_written(d0[ib], d1[ib], f)
        }),
{
    iunlock(cache, i);
    iput(cache, disk, i);
    proof {
        assert(0i32 & 1 == 0) by (bit_vector);
    }
}

/// Type of inode `k` on the disk is 0: the inode is free.
pub open spec fn inode_free(d: Seq<Seq<u8>>, k: int) -> bool {
    disk_type(d, k) == 0
}

/// Inode `k` is the first free inode, counting from 1.
pub open spec fn first_free_inode(d: Seq<Seq<u8>>, k: int) -> bool {
    &&& 1 <= k < disk_superblock(d).ninodes
    &&& inode_free(d, k)
    &&& forall|j: int| 1 <= j < k ==> !#[trigger] inode_free(d, j)
}

/// Some inode other than inode 0 is free.
pub open spec fn some_inode_free(d: Seq<Seq<u8>>) -> bool {
    exists|k: int| 1 <= k < disk_superblock(d).ninodes && #[trigger] inode_free(d, k)
}

/// The inode block after allocating inode `k` with type `t`: the inode's
/// bytes are zero but for its type, the rest of the block unchanged.
pub open spec fn allocated_block(old_blk: Seq<u8>, new_blk: Seq<u8>, k: int, t: i16) -> bool {
    let off = inode_offset(k);
    &&& new_blk.len() == old_blk.len()
    &&& as_signed16(le16(new_blk, off)) == t
    &&& forall|p: int| off + 2 <= p < off + DINODE_SIZE ==> #[trigger] new_blk[p] == 0
    &&& forall|p: int| 0 <= p < new_blk.len() && !(off <= p < off + DINODE_SIZE) ==> #[trigger] new_blk[p] == old_blk[p]
}

/// Allocates an inode of type `t` on the disk: the first free inode,
/// counting from 1, is cleared and given the type; then its cache entry
/// is taken as `iget` does.  Returns the entry's index and the inode
/// number.
pub fn ialloc(cache: &mut ICache, disk: &mut Disk, dev: u32, t: i16) -> (r: (usize, u32))
    requires
        old(cache).wf(),
        old(disk).wf(),
        fs_valid(old(disk)@),
        some_inode_free(old(disk)@),
        forall|k: int|
            1 <= k < disk_superblock(old(disk)@).ninodes && first_free_inode(old(disk)@, k) ==> old(cache).is_cached(
                dev,
                k as u32,
            ) || old(cache).has_free(),
        forall|j: int| 0 <= j < NINODE ==> (#[trigger] old(cache).inode@[j]).ref_count < i32::MAX,
    ensures
        final(disk).wf(),
        first_free_inode(old(disk)@, r.1 as int),
        allocated_block(
            old(disk)@[iblock_spec(r.1 as int)],
            final(disk)@[iblock_spec(r.1 as int)],
            r.1 as int,
            t,
        ),
        final(disk)@.len() == old(disk)@.len(),
        forall|b: int| 0 <= b < old(disk)@.len() && b != iblock_spec(r.1 as int) ==> #[trigger] final(disk)@[b]
            == old(disk)@[b],
        final(cache).wf(),
        r.0 < NINODE,
        old(cache).is_cached(dev, r.1) ==> old(cache).holds(r.0 as int, dev, r.1) && final(cache).inode@[r.0 as int]
            == (Inode { ref_count: (old(cache).inode@[r.0 as int].ref_count + 1) as i32, ..old(cache).inode@[r.0 as int] }),
        !old(cache).is_cached(dev, r.1) ==> old(cache).first_free(r.0 as int) && final(cache).inode@[r.0 as int]
            == (Inode { dev, inum: r.1, ref_count: 1, flags: 0, ..old(cache).inode@[r.0 as int] }),
        forall|j: int| 0 <= j < NINODE && j != r.0 ==> #[trigger] final(cache).inode@[j] == old(cache).inode@[j],
{
    let ghost d0 = disk@;
    let sb = crate::disk::readsb(disk);
    let mut inum: u32 = 1;
    while inum < sb.ninodes
        invariant
            disk.wf(),
            disk@ == d0,
            fs_valid(d0),
            sb == disk_superblock(d0),
            1 <= inum,
            some_inode_free(d0),
            forall|j: int| 1 <= j < inum ==> !#[trigger] inode_free(d0, j),
            *cache == *old(cache),
            cache.wf(),
            forall|k: int|
                1 <= k < disk_superblock(d0).ninodes && first_free_inode(d0, k) ==> cache.is_cached(dev, k as u32)
                    || cache.has_free(),
            forall|j: int| 0 <= j < NINODE ==> (#[trigger] cache.inode@[j]).ref_count < i32::MAX,
            d0 == old(disk)@,
        decreases sb.ninodes - inum,
    {
        proof {
            lemma_iblock_lt_meta(d0, inum as int);
        }
        let ib: usize = (inum / 8 + 2) as usize;
        let off: usize = ((inum % 8) * 64) as usize;
        let mut blk = disk.read_block(ib);
        let ty = crate::fs_layout::read_i16(&blk, off);
        if ty == 0 {
            let ghost b0 = blk@;
            let mut p: usize = off;
            while p < off + DINODE_SIZE
                invariant
                    off + DINODE_SIZE <= 512,
                    blk@.len() == 512,
                    off <= p <= off + DINODE_SIZE,
                    forall|q: int| off <= q < p ==> #[trigger] blk@[q] == 0,
                    forall|q: int| 0 <= q < 512 && !(off <= q < p) ==> #[trigger] blk@[q] == b0[q],
                decreases off + DINODE_SIZE - p,
            {
                blk.set(p, 0);
                p += 1;
            }
            crate::fs_layout::write_i16(&mut blk, off, t);
            disk.write_block(ib, blk);
            proof {
                assert(first_free_inode(d0, inum as int));
            }
            let e = iget(cache, dev, inum);
            return (e, inum);
        }
        inum += 1;
    }
    proof {
        let k = choose|k: int| 1 <= k < disk_superblock(d0).ninodes && #[trigger] inode_free(d0, k);
        assert(!inode_free(d0, k));
    }
    (0, 0)
}

} // verus!
