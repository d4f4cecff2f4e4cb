//! Buffer cache: a fixed set of buffers kept in most-recently-used order.
//! A block is cached in at most one buffer; a buffer is handed to one user
//! at a time (`B_BUSY`); releasing a buffer makes it the most recently used.
use vstd::prelude::*;
use crate::buf::{Buf, B_BUSY, B_DIRTY, B_VALID, BUF_SIZE};

verus! {

/// Number of buffers in the cache.
pub const NBUF: usize = 30;

/// Device number of a buffer that holds no block.
pub const NODEV: u32 = 0xFFFF_FFFF;

/// The buffer cache.  `order` lists buffer indices from most to least
/// recently used.
pub struct BCache {
    pub bufs: Vec<Buf>,
    pub order: Vec<usize>,
}

/// What `bget` found.
#[derive(Clone, Copy, PartialEq, Eq, Structural, Debug)]
pub enum Bget {
    /// The block was cached in this buffer, which is now busy.
    Cached(usize),
    /// The block was not cached; this clean, idle buffer now holds it and is busy.
    Recycled(usize),
    /// The block is cached in this buffer, but another user holds it: sleep
    /// on the buffer and ask again.
    Busy(usize),
}

/// What `bread` found.
#[derive(Clone, Copy, PartialEq, Eq, Structural, Debug)]
pub enum Bread {
    /// This busy buffer holds the block's current contents.
    Ready(usize),
    /// This busy buffer is assigned to the block but must be read from disk.
    NeedsRead(usize),
    /// Another user holds the block's buffer: sleep on it and ask again.
    Wait(usize),
}

/// Buffer `b` holds block `blockno` of `dev`.
pub open spec fn holds(b: Buf, dev: u32, blockno: u32) -> bool {
    b.dev == dev && b.blockno == blockno
}

pub open spec fn is_busy(b: Buf) -> bool {
    b.flags & B_BUSY != 0
}

pub open spec fn is_dirty(b: Buf) -> bool {
    b.flags & B_DIRTY != 0
}

impl BCache {
    /// The cache is well formed: `NBUF` buffers of a block each, `order`
    /// is a permutation of their indices, and no block is held twice.
    pub open spec fn wf(&self) -> bool {
        &&& self.bufs@.len() == NBUF
        &&& self.order@.len() == NBUF
        &&& forall|k: int| 0 <= k < NBUF ==> #[trigger] self.order@[k] < NBUF
        &&& forall|k: int, l: int|
            0 <= k < l < NBUF ==> #[trigger] self.order@[k] != #[trigger] self.order@[l]
        &&& forall|i: int| 0 <= i < NBUF ==> (#[trigger] self.bufs@[i]).data@.len() == BUF_SIZE
        &&& forall|i: int, j: int|
            0 <= i < NBUF && 0 <= j < NBUF && i != j && self.bufs@[i].dev != NODEV ==> !holds(
                #[trigger] self.bufs@[j],
                self.bufs@[i].dev,
                #[trigger] self.bufs@[i].blockno,
            )
    }

    /// Position of the first buffer in `order` that holds the block, if any.
    pub open spec fn first_holder(&self, dev: u32, blockno: u32, k: int) -> bool {
        &&& 0 <= k < self.order@.len()
        &&& holds(self.bufs@[self.order@[k] as int], dev, blockno)
        &&& forall|j: int| 0 <= j < k ==> !holds(#[trigger] self.bufs@[self.order@[j] as int], dev, blockno)
    }

    /// Some buffer holds the block.
    pub open spec fn cached(&self, dev: u32, blockno: u32) -> bool {
        exists|i: int| 0 <= i < self.bufs@.len() && holds(#[trigger] self.bufs@[i], dev, blockno)
    }

    /// Some buffer is idle and clean, so it can be recycled.
    pub open spec fn recyclable(&self) -> bool {
        exists|i: int| 0 <= i < self.bufs@.len() && !is_busy(#[trigger] self.bufs@[i]) && !is_dirty(self.bufs@[i])
    }

    /// Creates the cache: every buffer empty, holding no block.
    pub fn binit() -> (r: Self)
        ensures
            r.wf(),
            forall|i: int| 0 <= i < NBUF ==> (#[trigger] r.bufs@[i]).dev == NODEV && r.bufs@[i].flags == 0,
            forall|k: int| 0 <= k < NBUF ==> #[trigger] r.order@[k] == NBUF - 1 - k,
    {
        let mut bufs: Vec<Buf> = Vec::new();
        let mut order: Vec<usize> = Vec::new();
        let mut i: usize = 0;
        while i < NBUF
            invariant
                i <= NBUF,
                bufs@.len() == i,
                order@.len() == i,
                forall|j: int| 0 <= j < i ==> (#[trigger] bufs@[j]).dev == NODEV && bufs@[j].flags == 0
                    && bufs@[j].data@.len() == BUF_SIZE,
                forall|k: int| 0 <= k < i ==> #[trigger] order@[k] == i - 1 - k,
            decreases NBUF - i,
        {
            let mut b = Buf::new();
            b.dev = NODEV;
            bufs.push(b);
            order.insert(0, i);
            i += 1;
        }
        BCache { bufs, order }
    }

    /// What `bget` does for block `blockno` of `dev`, from cache `c0` to
    /// `c1`, returning `r`: the first buffer holding the block, marked busy
    /// if it was idle; else the least recently used idle and clean buffer,
    /// given the block, busy and not valid.
    pub open spec fn bget_effect(c0: BCache, c1: BCache, dev: u32, blockno: u32, r: Bget) -> bool {
        match r {
            Bget::Cached(i) => {
                &&& exists|k: int| c0.first_holder(dev, blockno, k) && c0.order@[k] == i
                &&& !is_busy(c0.bufs@[i as int])
                &&& c1.bufs@ == c0.bufs@.update(
                    i as int,
                    Buf { flags: c0.bufs@[i as int].flags | B_BUSY, ..c0.bufs@[i as int] },
                )
            },
            Bget::Busy(i) => {
                &&& exists|k: int| c0.first_holder(dev, blockno, k) && c0.order@[k] == i
                &&& is_busy(c0.bufs@[i as int])
                &&& c1.bufs@ == c0.bufs@
            },
            Bget::Recycled(i) => {
                &&& !c0.cached(dev, blockno)
                &&& exists|k: int|
                    0 <= k < NBUF && c0.order@[k] == i && forall|j: int|
                        k < j < NBUF ==> is_busy(#[trigger] c0.bufs@[c0.order@[j] as int])
                            || is_dirty(c0.bufs@[c0.order@[j] as int])
                &&& !is_busy(c0.bufs@[i as int])
                &&& !is_dirty(c0.bufs@[i as int])
                &&& c1.bufs@ == c0.bufs@.update(
                    i as int,
                    Buf { flags: B_BUSY, dev, blockno, ..c0.bufs@[i as int] },
                )
            },
        }
    }

    /// Looks for block `blockno` of `dev`.  A cached, idle buffer is marked
    /// busy and returned; a cached busy one is reported so that the caller
    /// sleeps; an uncached block takes the least recently used buffer that is
    /// idle and clean.
    pub fn bget(&mut self, dev: u32, blockno: u32) -> (r: Bget)
        requires
            old(self).wf(),
            old(self).cached(dev, blockno) || old(self).recyclable(),
        ensures
            final(self).wf(),
            final(self).order@ == old(self).order@,
            Self::bget_effect(*old(self), *final(self), dev, blockno, r),
    {
        let mut k: usize = 0;
        while k < NBUF
            invariant
                self.wf(),
                self.bufs@ == old(self).bufs@,
                self.order@ == old(self).order@,
                old(self).cached(dev, blockno) || old(self).recyclable(),
                k <= NBUF,
                forall|j: int| 0 <= j < k ==> !holds(#[trigger] self.bufs@[self.order@[j] as int], dev, blockno),
            decreases NBUF - k,
        {
            let i = self.order[k];
            if self.bufs[i].dev == dev && self.bufs[i].blockno == blockno {
                if self.bufs[i].flags & B_BUSY == 0 {
                    let ghost old_bufs = self.bufs@;
                    let mut b = self.bufs.remove(i);
                    b.flags = b.flags | B_BUSY;
                    self.bufs.insert(i, b);
                    proof {
                        assert(self.bufs@ =~= old_bufs.update(
                            i as int,
                            Buf { flags: old_bufs[i as int].flags | B_BUSY, ..old_bufs[i as int] },
                        ));
                        assert(self.first_holder(dev, blockno, k as int));
                    }
                    return Bget::Cached(i);
                }
                proof {
                    assert(self.first_holder(dev, blockno, k as int));
                }
                return Bget::Busy(i);
            }
            k += 1;
        }
        proof {
            assert forall|i: int| 0 <= i < NBUF implies !holds(#[trigger] self.bufs@[i], dev, blockno) by {
                lemma_perm_covers(self.order@, i);
            }
        }
        let mut k: usize = NBUF;
        while k > 0
            invariant
                self.wf(),
                self.bufs@ == old(self).bufs@,
                self.order@ == old(self).order@,
                k <= NBUF,
                !self.cached(dev, blockno),
                self.recyclable(),
                forall|j: int| k <= j < NBUF ==> is_busy(#[trigger] self.bufs@[self.order@[j] as int])
                    || is_dirty(self.bufs@[self.order@[j] as int]),
            decreases k,
        {
            let i = self.order[k - 1];
            if self.bufs[i].flags & B_BUSY == 0 && self.bufs[i].flags & B_DIRTY == 0 {
                let ghost old_bufs = self.bufs@;
                let mut b = self.bufs.remove(i);
                b.dev = dev;
                b.blockno = blockno;
                b.flags = B_BUSY;
                self.bufs.insert(i, b);
                proof {
                    assert(self.bufs@ =~= old_bufs.update(
                        i as int,
                        Buf { flags: B_BUSY, dev, blockno, ..old_bufs[i as int] },
                    ));
                }
                return Bget::Recycled(i);
            }
            k -= 1;
        }
        proof {
            let w = choose|i: int| 0 <= i < self.bufs@.len() && !is_busy(#[trigger] self.bufs@[i]) && !is_dirty(self.bufs@[i]);
            let p = lemma_perm_covers(self.order@, w);
            assert(is_busy(self.bufs@[self.order@[p] as int]) || is_dirty(self.bufs@[self.order@[p] as int]));
        }
        Bget::Busy(0)
    }
}

impl BCache {
    /// Returns a busy buffer holding block `blockno` of `dev`; when the
    /// buffer's contents are not valid yet, the caller must read the block
    /// from disk into it.
    pub fn bread(&mut self, dev: u32, blockno: u32) -> (r: Bread)
        requires
            old(self).wf(),
            old(self).cached(dev, blockno) || old(self).recyclable(),
        ensures
            final(self).wf(),
            final(self).order@ == old(self).order@,
            match r {
                Bread::Ready(i) | Bread::NeedsRead(i) => {
                    &&& i < NBUF
                    &&& !is_busy(old(self).bufs@[i as int])
                    &&& holds(final(self).bufs@[i as int], dev, blockno)
                    &&& is_busy(final(self).bufs@[i as int])
                    &&& old(self).cached(dev, blockno) ==> holds(old(self).bufs@[i as int], dev, blockno)
                        && final(self).bufs@[i as int].data@ == old(self).bufs@[i as int].data@
                    &&& (r is Ready) == (final(self).bufs@[i as int].flags & B_VALID != 0)
                    &&& forall|j: int| 0 <= j < NBUF && j != i ==> #[trigger] final(self).bufs@[j] == old(self).bufs@[j]
                    &&& Self::bget_effect(
                        *old(self),
                        *final(self),
                        dev,
                        blockno,
                        if old(self).cached(dev, blockno) { Bget::Cached(i) } else { Bget::Recycled(i) },
                    )
                },
                Bread::Wait(i) => {
                    &&& Self::bget_effect(*old(self), *final(self), dev, blockno, Bget::Busy(i))
                    &&& i < NBUF
                    &&& holds(old(self).bufs@[i as int], dev, blockno)
                    &&& is_busy(old(self).bufs@[i as int])
                    &&& final(self).bufs@ == old(self).bufs@
                },
            },
    {
        match self.bget(dev, blockno) {
            Bget::Cached(i) => {
                proof {
                    lemma_busy_set(old(self).bufs@[i as int].flags);
                    let k = choose|k: int| old(self).first_holder(dev, blockno, k) && old(self).order@[k] == i;
                    assert(i < NBUF);
                    assert(holds(old(self).bufs@[i as int], dev, blockno));
                    assert(old(self).cached(dev, blockno));
                }
                if self.bufs[i].flags & B_VALID != 0 {
                    Bread::Ready(i)
                } else {
                    Bread::NeedsRead(i)
                }
            },
            Bget::Recycled(i) => {
                proof {
                    lemma_busy_set(0);
                    assert((1u32 & 2u32 == 0u32)
                        && (1u32 & 1u32 != 0u32)) by (bit_vector);
                    let k = choose|k: int|
                        0 <= k < NBUF && old(self).order@[k] == i && forall|j: int|
                            k < j < NBUF ==> is_busy(#[trigger] old(self).bufs@[old(self).order@[j] as int])
                                || is_dirty(old(self).bufs@[old(self).order@[j] as int]);
                    assert(i < NBUF);
                    assert(holds(self.bufs@[i as int], dev, blockno));
                    assert(is_busy(self.bufs@[i as int]));
                    assert(self.bufs@[i as int].flags & B_VALID == 0);
                }
                Bread::NeedsRead(i)
            },
            Bget::Busy(i) => Bread::Wait(i),
        }
    }

    /// Marks busy buffer `i` dirty, so that its contents are written to disk.
    pub fn bwrite(&mut self, i: usize)
        requires
            old(self).wf(),
            i < NBUF,
            is_busy(old(self).bufs@[i as int]),
        ensures
            final(self).wf(),
            final(self).order@ == old(self).order@,
            final(self).bufs@ == old(self).bufs@.update(
                i as int,
                Buf { flags: old(self).bufs@[i as int].flags | B_DIRTY, ..old(self).bufs@[i as int] },
            ),
    {
        let ghost old_bufs = self.bufs@;
        let mut b = self.bufs.remove(i);
        b.flags = b.flags | B_DIRTY;
        self.bufs.insert(i, b);
        proof {
            assert(self.bufs@ =~= old_bufs.update(
                i as int,
                Buf { flags: old_bufs[i as int].flags | B_DIRTY, ..old_bufs[i as int] },
            ));
        }
    }

    /// Releases busy buffer `i`: it stops being busy and becomes the most
    /// recently used buffer.
    pub fn brelse(&mut self, i: usize)
        requires
            old(self).wf(),
            i < NBUF,
            is_busy(old(self).bufs@[i as int]),
        ensures
            final(self).wf(),
            final(self).bufs@ == old(self).bufs@.update(
                i as int,
                Buf { flags: old(self).bufs@[i as int].flags & !B_BUSY, ..old(self).bufs@[i as int] },
            ),
            exists|p: int|
                0 <= p < NBUF && old(self).order@[p] == i && final(self).order@ == seq![i]
                    + old(self).order@.remove(p),
            final(self).order@[0] == i,
    {
        let ghost old_bufs = self.bufs@;
        let mut b = self.bufs.remove(i);
        b.flags = b.flags & !B_BUSY;
        self.bufs.insert(i, b);
        proof {
            assert(self.bufs@ =~= old_bufs.update(
                i as int,
                Buf { flags: old_bufs[i as int].flags & !B_BUSY, ..old_bufs[i as int] },
            ));
        }
        let ghost p0 = lemma_perm_covers(self.order@, i as int);
        let mut p: usize = 0;
        while self.order[p] != i
            invariant
                self.order@ == old(self).order@,
                old(self).wf(),
                0 <= p0 < NBUF,
                self.order@[p0] == i,
                p <= p0,
            decreases p0 - p,
        {
            p += 1;
        }
        let ghost o = self.order@;
        self.order.remove(p);
        self.order.insert(0, i);
        proof {
            assert(self.order@ =~= seq![i] + o.remove(p as int));
            assert forall|k: int, l: int| 0 <= k < l < NBUF implies #[trigger] self.order@[k]
                != #[trigger] self.order@[l] by {
                let rk = if k < p + 1 && k > 0 { k - 1 } else { k };
                if k == 0 {
                    let ol = if l - 1 < p { l - 1 } else { l };
                    assert(self.order@[l] == o[ol]);
                    assert(o[ol] != o[p as int]);
                } else {
                    let ok = if k - 1 < p { k - 1 } else { k };
                    let ol = if l - 1 < p { l - 1 } else { l };
                    assert(self.order@[k] == o[ok]);
                    assert(self.order@[l] == o[ol]);
                    assert(ok < ol);
                }
            }
            assert forall|k: int| 0 <= k < NBUF implies #[trigger] self.order@[k] < NBUF by {
                if k > 0 {
                    let ok = if k - 1 < p { k - 1 } else { k };
                    assert(self.order@[k] == o[ok]);
                }
            }
        }
    }
}

/// Sleeping on a busy buffer and asking again works: when `bget` reports
/// block `blockno` of `dev` busy in buffer `i`, and its holder then
/// releases that buffer, the next `bget` for the block hands out buffer
/// `i`, now busy for the caller.
pub proof fn lemma_bget_after_release(
    c0: BCache,
    c1: BCache,
    c2: BCache,
    c3: BCache,
    dev: u32,
    blockno: u32,
    i: usize,
    r: Bget,
)
    requires
        c0.wf(),
        dev != NODEV,
        BCache::bget_effect(c0, c1, dev, blockno, Bget::Busy(i)),
        c1.order@ == c0.order@,
        i < NBUF,
        c2.wf(),
        c2.bufs@ == c1.bufs@.update(i as int, Buf { flags: c1.bufs@[i as int].flags & !B_BUSY, ..c1.bufs@[i as int] }),
        BCache::bget_effect(c2, c3, dev, blockno, r),
    ensures
        r == Bget::Cached(i),
        holds(c3.bufs@[i as int], dev, blockno),
        is_busy(c3.bufs@[i as int]),
{
    let f = c1.bufs@[i as int].flags;
    assert((f & !1u32) & 1u32 == 0 && ((f & !1u32) | 1u32) & 1u32 != 0) by (bit_vector);
    assert(holds(c2.bufs@[i as int], dev, blockno));
    assert(!is_busy(c2.bufs@[i as int]));
    match r {
        Bget::Cached(j) => {
            let k = choose|k: int| c2.first_holder(dev, blockno, k) && c2.order@[k] == j;
            if j != i {
                assert(!holds(c2.bufs@[j as int], c2.bufs@[i as int].dev, c2.bufs@[i as int].blockno));
            }
        },
        Bget::Busy(j) => {
            let k = choose|k: int| c2.first_holder(dev, blockno, k) && c2.order@[k] == j;
            if j != i {
                assert(!holds(c2.bufs@[j as int], c2.bufs@[i as int].dev, c2.bufs@[i as int].blockno));
            }
        },
        Bget::Recycled(j) => {
            assert(c2.cached(dev, blockno));
        },
    }
}

proof fn lemma_busy_set(flags: u32)
    ensures
        (flags | B_BUSY) & B_BUSY != 0,
        (flags | B_BUSY) & B_VALID == flags & B_VALID,
{
    assert(((flags | 1u32) & 1u32 != 0)
        && ((flags | 1u32) & 2u32 == flags & 2u32)) by (bit_vector);
}

/// A permutation of `0..NBUF` holds every index.
proof fn lemma_perm_covers(order: Seq<usize>, i: int) -> (p: int)
    requires
        order.len() == NBUF,
        forall|k: int| 0 <= k < NBUF ==> #[trigger] order[k] < NBUF,
        forall|k: int, l: int| 0 <= k < l < NBUF ==> #[trigger] order[k] != #[trigger] order[l],
        0 <= i < NBUF,
    ensures
        0 <= p < NBUF,
        order[p] == i,
{
    let s = order.map_values(|x: usize| x as int);
    let full = Set::new(|x: int| 0 <= x < NBUF);
    assert(s.no_duplicates()) by {
        assert forall|a: int, b: int| 0 <= a < s.len() && 0 <= b < s.len() && a != b implies s[a] != s[b] by {
            if a < b {
                assert(order[a] != order[b]);
            } else {
                assert(order[b] != order[a]);
            }
        }
    }
    s.unique_seq_to_set();
    assert(s.to_set().subset_of(full));
    vstd::set_lib::lemma_int_range(0, NBUF as int);
    assert(full =~= vstd::set_lib::set_int_range(0, NBUF as int));
    if !s.to_set().contains(i) {
        vstd::set_lib::lemma_len_subset(s.to_set(), full.remove(i));
        assert(false);
    }
    let p = choose|p: int| 0 <= p < s.len() && s[p] == i;
    p
}

} // verus!
