//! Physical page allocator: a list of free 4096-byte pages, handed out
//! last-freed first.
use vstd::prelude::*;
use crate::memlayout::{KERNBASE, PHYSTOP};
use crate::mmu::{pgroundup, PGSIZE};

verus! {

/// The free-page list.  `freelist` holds page addresses; its last element
/// is the head of the list.
pub struct Kmem {
    pub use_lock: bool,
    pub freelist: Vec<u64>,
}

/// A page that may be put on the free list: page aligned, past the end of
/// the kernel image, and backed by physical memory.
pub open spec fn freeable(v: int, kernel_end: int) -> bool {
    &&& v % 4096 == 0
    &&& v >= kernel_end
    &&& v >= KERNBASE
    &&& v - KERNBASE < PHYSTOP
}

/// The pages that `freerange` frees, in the order it frees them.
pub open spec fn range_pages(lo: int, hi: int) -> Seq<int>
    decreases hi - lo,
{
    if lo + 4096 <= hi {
        seq![lo] + range_pages(lo + 4096, hi)
    } else {
        seq![]
    }
}

impl Kmem {
    /// Every page on the list may be freed.
    pub open spec fn wf(&self, kernel_end: int) -> bool {
        forall|i: int| 0 <= i < self.freelist@.len() ==> freeable(#[trigger] self.freelist@[i] as int, kernel_end)
    }
}

/// Frees the page at `v`: it becomes the head of the free list.
pub fn kfree(kmem: &mut Kmem, v: u64, kernel_end: u64)
    requires
        freeable(v as int, kernel_end as int),
    ensures
        final(kmem).freelist@ == old(kmem).freelist@.push(v),
        final(kmem).use_lock == old(kmem).use_lock,
{
    kmem.freelist.push(v);
}

/// Allocates a page: the head of the free list, or 0 when it is empty.
pub fn kalloc(kmem: &mut Kmem) -> (r: u64)
    ensures
        old(kmem).freelist@.len() == 0 ==> r == 0 && final(kmem).freelist@ == old(kmem).freelist@,
        old(kmem).freelist@.len() > 0 ==> r == old(kmem).freelist@.last() && final(kmem).freelist@
            == old(kmem).freelist@.drop_last(),
        final(kmem).use_lock == old(kmem).use_lock,
{
    match kmem.freelist.pop() {
        Some(p) => p,
        None => 0,
    }
}

/// Frees every whole page between `vstart` (rounded up to a page) and
/// `vend`, lowest first.
pub fn freerange(kmem: &mut Kmem, vstart: u64, vend: u64, kernel_end: u64)
    requires
        vstart + PGSIZE <= u64::MAX,
        vstart + (4096 - vstart % 4096) % 4096 + PGSIZE <= u64::MAX,
        vstart >= kernel_end,
        vstart >= KERNBASE,
        vend <= KERNBASE + PHYSTOP,
    ensures
        final(kmem).freelist@.len() >= old(kmem).freelist@.len(),
        final(kmem).freelist@.subrange(0, old(kmem).freelist@.len() as int) == old(kmem).freelist@,
        final(kmem).freelist@.subrange(old(kmem).freelist@.len() as int, final(kmem).freelist@.len() as int).map_values(
            |p: u64| p as int,
        ) == range_pages(vstart + (4096 - vstart % 4096) % 4096, vend as int),
        final(kmem).use_lock == old(kmem).use_lock,
{
    let mut p = pgroundup(vstart);
    let ghost p0 = p as int;
    assert(p0 == vstart + (4096 - vstart % 4096) % 4096);
    while p + PGSIZE <= vend
        invariant
            p0 <= p,
            p % 4096 == 0,
            p0 >= kernel_end,
            p0 >= KERNBASE,
            vend <= KERNBASE + PHYSTOP,
            p <= vend + 4096 || p == p0,
            p + 4096 <= u64::MAX,
            kmem.freelist@.len() >= old(kmem).freelist@.len(),
            kmem.freelist@.subrange(0, old(kmem).freelist@.len() as int) == old(kmem).freelist@,
            kmem.freelist@.subrange(old(kmem).freelist@.len() as int, kmem.freelist@.len() as int).map_values(
                |q: u64| q as int,
            ) + range_pages(p as int, vend as int) == range_pages(p0, vend as int),
            kmem.use_lock == old(kmem).use_lock,
        decreases if p <= vend + 4096 { vend + 4096 - p } else { 0 },
    {
        let ghost before = kmem.freelist@;
        kfree(kmem, p, kernel_end);
        proof {
            let n0 = old(kmem).freelist@.len() as int;
            assert(kmem.freelist@.subrange(0, n0) =~= before.subrange(0, n0));
            assert(kmem.freelist@.subrange(n0, kmem.freelist@.len() as int).map_values(|q: u64| q as int)
                =~= before.subrange(n0, before.len() as int).map_values(|q: u64| q as int).push(p as int));
            assert(range_pages(p as int, vend as int) == seq![p as int] + range_pages(p + 4096, vend as int));
            assert(before.subrange(n0, before.len() as int).map_values(|q: u64| q as int).push(p as int) + range_pages(
                p + 4096,
                vend as int,
            ) =~= before.subrange(n0, before.len() as int).map_values(|q: u64| q as int) + (seq![p as int]
                + range_pages(p + 4096, vend as int)));
        }
        p = p + PGSIZE;
    }
    proof {
        let n0 = old(kmem).freelist@.len() as int;
        assert(range_pages(p as int, vend as int) == Seq::<int>::empty());
        assert(kmem.freelist@.subrange(n0, kmem.freelist@.len() as int).map_values(|q: u64| q as int)
            =~= kmem.freelist@.subrange(n0, kmem.freelist@.len() as int).map_values(|q: u64| q as int)
            + range_pages(p as int, vend as int));
    }
}

/// First phase of initialisation: the pages between `vstart` and `vend`
/// form the free list, used without locking.
pub fn kinit1(vstart: u64, vend: u64, kernel_end: u64) -> (r: Kmem)
    requires
        vstart + PGSIZE <= u64::MAX,
        vstart + (4096 - vstart % 4096) % 4096 + PGSIZE <= u64::MAX,
        vstart >= kernel_end,
        vstart >= KERNBASE,
        vend <= KERNBASE + PHYSTOP,
    ensures
        r.freelist@.map_values(|p: u64| p as int) == range_pages(
            vstart + (4096 - vstart % 4096) % 4096,
            vend as int,
        ),
        !r.use_lock,
{
    let mut k = Kmem { use_lock: false, freelist: Vec::new() };
    freerange(&mut k, vstart, vend, kernel_end);
    proof {
        assert(k.freelist@.subrange(0, k.freelist@.len() as int) =~= k.freelist@);
    }
    k
}

/// Second phase: the pages between `vstart` and `vend` join the list, and
/// the list is locked from now on.
pub fn kinit2(kmem: &mut Kmem, vstart: u64, vend: u64, kernel_end: u64)
    requires
        vstart + PGSIZE <= u64::MAX,
        vstart + (4096 - vstart % 4096) % 4096 + PGSIZE <= u64::MAX,
        vstart >= kernel_end,
        vstart >= KERNBASE,
        vend <= KERNBASE + PHYSTOP,
    ensures
        final(kmem).freelist@.subrange(0, old(kmem).freelist@.len() as int) == old(kmem).freelist@,
        final(kmem).freelist@.subrange(old(kmem).freelist@.len() as int, final(kmem).freelist@.len() as int).map_values(
            |p: u64| p as int,
        ) == range_pages(vstart + (4096 - vstart % 4096) % 4096, vend as int),
        final(kmem).use_lock,
{
    freerange(kmem, vstart, vend, kernel_end);
    kmem.use_lock = true;
}

/// `kalloc` hands back the page that the last `kfree` put on the list, and
/// leaves the list as it was before that `kfree`.
pub proof fn lemma_kalloc_after_kfree(list: Seq<u64>, v: u64)
    ensures
        list.push(v).len() > 0,
        list.push(v).last() == v,
        list.push(v).drop_last() == list,
{
    assert(list.push(v).drop_last() =~= list);
}

/// Every page that `freerange` frees is page aligned and lies in the range.
pub proof fn lemma_range_pages_aligned(lo: int, hi: int)
    requires
        lo % 4096 == 0,
    ensures
        forall|i: int|
            0 <= i < range_pages(lo, hi).len() ==> (#[trigger] range_pages(lo, hi)[i]) % 4096 == 0
                && lo <= range_pages(lo, hi)[i] && range_pages(lo, hi)[i] + 4096 <= hi,
    decreases hi - lo,
{
    if lo + 4096 <= hi {
        lemma_range_pages_aligned(lo + 4096, hi);
        assert forall|i: int| 0 <= i < range_pages(lo, hi).len() implies (#[trigger] range_pages(lo, hi)[i]) % 4096
            == 0 && lo <= range_pages(lo, hi)[i] && range_pages(lo, hi)[i] + 4096 <= hi by {
            if i > 0 {
                assert(range_pages(lo, hi)[i] == range_pages(lo + 4096, hi)[i - 1]);
            }
        }
    }
}

} // verus!
