//! Directories and path names: comparing names, splitting a path into its
//! elements, looking up and adding directory entries, and walking a path
//! to its inode.
use vstd::prelude::*;
use crate::disk::{Disk, disk_superblock};
use crate::fs::{
    Inode, T_DIR, Devsw, Rw, readi, writei, fs_valid, file_blocks_ok, file_range, file_byte, block_addr,
    range_allocs, holes, read_len, nfree, written_byte, owned, is_bitmap_block, inode_written,
};
use crate::fs_layout::iblock_spec;
use crate::disk::block_in_use;
use crate::fs_layout::{DIRSIZ, DIRENT_SIZE, le16, MAXFILE, NDIRECT, Dirent};
use crate::icache::{ICache, NINODE, iget, iput, frees_on_put, is_valid};

verus! {

/// Comparison of `s` and `t` from byte `i` on, up to byte `n`: the
/// difference of the first pair of bytes that differ, or 0.
pub open spec fn first_diff_from(s: Seq<u8>, t: Seq<u8>, i: int, n: int) -> int
    decreases n - i,
{
    if i >= n {
        0
    } else if s[i] != t[i] {
        s[i] - t[i]
    } else {
        first_diff_from(s, t, i + 1, n)
    }
}

/// Number of bytes `namecmp` looks at: the common length, at most
/// `DIRSIZ`.
pub open spec fn compare_len(s: Seq<u8>, t: Seq<u8>) -> int {
    let a = if s.len() < t.len() { s.len() as int } else { t.len() as int };
    if a < DIRSIZ { a } else { DIRSIZ as int }
}

/// `first_diff_from` at machine-sized indices.
pub open spec fn diff_from_index(s: Seq<u8>, t: Seq<u8>, i: usize, n: usize) -> int {
    first_diff_from(s, t, i as int, n as int)
}

/// Difference of two bytes.
fn byte_diff(a: u8, b: u8) -> (r: i32)
    ensures
        r == a - b,
{
    a as i32 - b as i32
}

/// Compares two names over their common length, at most `DIRSIZ` bytes:
/// the difference of the first pair of bytes that differ, or 0.
pub fn namecmp(s: &[u8], t: &[u8]) -> (r: i32)
    ensures
        r == first_diff_from(s@, t@, 0, compare_len(s@, t@)),
{
    let n: usize = if s.len() < t.len() { s.len() } else { t.len() };
    let n: usize = if n < DIRSIZ { n } else { DIRSIZ };
    let mut i: usize = n;
    let mut r: i32 = 0;
    while i > 0
        invariant
            n == compare_len(s@, t@),
            n <= s@.len() && n <= t@.len(),
            i <= n,
            r == diff_from_index(s@, t@, i, n),
        decreases i,
    {
        i -= 1;
        if s[i] != t[i] {
            r = byte_diff(s[i], t[i]);
        }
    }
    r
}

/// `namecmp` finds the names equal.
fn names_match(s: &[u8], t: &[u8]) -> (r: bool)
    ensures
        r == names_equal(s@, t@),
{
    namecmp(s, t) == 0
}

/// Index of the first byte at or after `i` that is not a slash.
pub open spec fn skip_slashes(p: Seq<u8>, i: int) -> int
    decreases p.len() - i,
{
    if 0 <= i < p.len() && p[i] == 0x2f {
        skip_slashes(p, i + 1)
    } else {
        i
    }
}

/// Index of the first slash at or after `i`, or the length.
pub open spec fn elem_end(p: Seq<u8>, i: int) -> int
    decreases p.len() - i,
{
    if 0 <= i < p.len() && p[i] != 0x2f {
        elem_end(p, i + 1)
    } else {
        i
    }
}

pub proof fn lemma_skip_bounds(p: Seq<u8>, i: int)
    requires
        0 <= i <= p.len(),
    ensures
        i <= skip_slashes(p, i) <= p.len(),
        skip_slashes(p, i) < p.len() ==> p[skip_slashes(p, i)] != 0x2f,
        forall|j: int| i <= j < skip_slashes(p, i) ==> p[j] == 0x2f,
    decreases p.len() - i,
{
    if i < p.len() && p[i] == 0x2f {
        lemma_skip_bounds(p, i + 1);
    }
}

pub proof fn lemma_end_bounds(p: Seq<u8>, i: int)
    requires
        0 <= i <= p.len(),
    ensures
        i <= elem_end(p, i) <= p.len(),
        elem_end(p, i) < p.len() ==> p[elem_end(p, i)] == 0x2f,
        forall|j: int| i <= j < elem_end(p, i) ==> p[j] != 0x2f,
    decreases p.len() - i,
{
    if i < p.len() && p[i] != 0x2f {
        lemma_end_bounds(p, i + 1);
    }
}

/// Length of the element starting at `s` that `skipelem` copies: at
/// most `DIRSIZ` bytes.
pub open spec fn elem_len(p: Seq<u8>, s: int) -> int {
    let e = elem_end(p, s);
    if e - s < DIRSIZ { e - s } else { DIRSIZ as int }
}

/// The bytes of the element starting at `s` that `skipelem` copies.
pub open spec fn elem_name(p: Seq<u8>, s: int) -> Seq<u8> {
    p.subrange(s, s + elem_len(p, s))
}

/// What `skipelem` does from index `start` of `path`, with `name` before
/// and after and `r` returned.
pub open spec fn skipelem_effect(path: Seq<u8>, start: int, n0: Seq<u8>, n1: Seq<u8>, r: Option<usize>) -> bool {
    let s = skip_slashes(path, start);
    &&& n1.len() == n0.len()
    &&& s >= path.len() ==> r is None && n1 == n0
    &&& s < path.len() ==> ({
        let len = elem_len(path, s);
        &&& r == Some(skip_slashes(path, elem_end(path, s)) as usize)
        &&& n1.subrange(0, len) == elem_name(path, s)
        &&& len < DIRSIZ ==> n1[len] == 0
        &&& forall|k: int| (if len < DIRSIZ { len + 1 } else { len }) <= k < n0.len() ==> #[trigger] n1[k] == n0[k]
    })
}

/// Copies the next element of `path` into `name` and returns the index
/// where the rest of the path starts, past the slashes that follow the
/// element; `None` when no element is left.  At most `DIRSIZ` bytes of the
/// element are copied; a shorter one is ended with a zero byte.
///
/// `skipelem("a/bb/c")` gives `"bb/c"` and the name `"a"`,
/// `skipelem("///a//bb")` gives `"bb"` and `"a"`, `skipelem("a")` gives
/// `""` and `"a"`, and `skipelem("")` and `skipelem("////")` give `None`.
pub fn skipelem(path: &[u8], name: &mut [u8]) -> (r: Option<usize>)
    requires
        old(name)@.len() >= DIRSIZ,
    ensures
        skipelem_effect(path@, 0, old(name)@, final(name)@, r),
{
    skipelem_from(path, 0, name)
}

/// `skipelem` from index `start` of the path.
pub(crate) fn skipelem_from(path: &[u8], start: usize, name: &mut [u8]) -> (r: Option<usize>)
    requires
        old(name)@.len() >= DIRSIZ,
        start <= path@.len(),
    ensures
        skipelem_effect(path@, start as int, old(name)@, final(name)@, r),
        final(name)@.len() == old(name)@.len(),
        skip_slashes(path@, start as int) == path@.len() ==> r is None && final(name)@ == old(name)@,
        skip_slashes(path@, start as int) < path@.len() ==> ({
            let s = skip_slashes(path@, start as int);
            let e = elem_end(path@, s);
            let len = if e - s < DIRSIZ { e - s } else { DIRSIZ as int };
            &&& r == Some(skip_slashes(path@, e) as usize)
            &&& final(name)@.subrange(0, len) == path@.subrange(s, s + len)
            &&& len < DIRSIZ ==> final(name)@[len] == 0
            &&& forall|k: int|
                (if len < DIRSIZ { len + 1 } else { len }) <= k < old(name)@.len() ==> #[trigger] final(name)@[k]
                    == old(name)@[k]
        }),
{
    proof {
        lemma_skip_bounds(path@, start as int);
    }
    let mut s: usize = start;
    while s < path.len() && path[s] == 0x2f
        invariant
            start <= s <= path@.len(),
            skip_slashes(path@, s as int) == skip_slashes(path@, start as int),
        decreases path@.len() - s,
    {
        s += 1;
    }
    if s == path.len() {
        return None;
    }
    proof {
        lemma_end_bounds(path@, s as int);
    }
    let mut e: usize = s;
    while e < path.len() && path[e] != 0x2f
        invariant
            s <= e <= path@.len(),
            elem_end(path@, e as int) == elem_end(path@, s as int),
        decreases path@.len() - e,
    {
        e += 1;
    }
    let len: usize = if e - s < DIRSIZ { e - s } else { DIRSIZ };
    let ghost n0 = name@;
    let mut k: usize = 0;
    while k < len
        invariant
            len <= DIRSIZ,
            s + len <= path.len(),
            name@.len() == n0.len(),
            n0.len() >= DIRSIZ,
            k <= len,
            forall|j: int| 0 <= j < k ==> #[trigger] name@[j] == path@[s + j],
            forall|j: int| k <= j < n0.len() ==> #[trigger] name@[j] == n0[j],
        decreases len - k,
    {
        name[k] = path[s + k];
        k += 1;
    }
    if len < DIRSIZ {
        name[len] = 0;
    }
    proof {
        lemma_skip_bounds(path@, e as int);
        assert(name@.subrange(0, len as int) =~= path@.subrange(s as int, s + len));
    }
    let mut t: usize = e;
    while t < path.len() && path[t] == 0x2f
        invariant
            e <= t <= path@.len(),
            skip_slashes(path@, t as int) == skip_slashes(path@, e as int),
        decreases path@.len() - t,
    {
        t += 1;
    }
    Some(t)
}

/// The name bytes `dirlink` writes for `name`: its first `DIRSIZ` bytes,
/// padded with zero bytes.
pub open spec fn name_key(name: Seq<u8>) -> Seq<u8> {
    Seq::new(DIRSIZ as nat, |i: int| if i < name.len() { name[i] } else { 0u8 })
}

/// Inode number of entry `k` of a directory's contents.
pub open spec fn dirent_inum(c: Seq<u8>, k: int) -> int {
    le16(c, DIRENT_SIZE * k)
}

/// Name bytes of entry `k` of a directory's contents.
pub open spec fn dirent_name(c: Seq<u8>, k: int) -> Seq<u8> {
    c.subrange(DIRENT_SIZE * k + 2, DIRENT_SIZE * k + DIRENT_SIZE)
}

/// `namecmp` finds the names equal: they agree on their common length,
/// at most `DIRSIZ` bytes.
pub open spec fn names_equal(s: Seq<u8>, t: Seq<u8>) -> bool {
    first_diff_from(s, t, 0, compare_len(s, t)) == 0
}

/// Entry `k` is in use and its name compares equal to `name`.
pub open spec fn entry_is(c: Seq<u8>, k: int, name: Seq<u8>) -> bool {
    dirent_inum(c, k) != 0 && names_equal(name, dirent_name(c, k))
}

/// Number of whole entries in a directory's contents.
pub open spec fn nentries(c: Seq<u8>) -> int {
    c.len() as int / DIRENT_SIZE as int
}

/// Entry `k` is the first whole entry holding `name`.
pub open spec fn first_entry(c: Seq<u8>, name: Seq<u8>, k: int) -> bool {
    &&& 0 <= k < nentries(c)
    &&& entry_is(c, k, name)
    &&& forall|j: int| 0 <= j < k ==> !#[trigger] entry_is(c, j, name)
}

/// Some whole entry holds `name`.
pub open spec fn has_entry(c: Seq<u8>, name: Seq<u8>) -> bool {
    exists|k: int| 0 <= k < nentries(c) && #[trigger] entry_is(c, k, name)
}

/// The contents of a directory inode.
pub open spec fn dir_content(d: Seq<Seq<u8>>, e: Inode) -> Seq<u8> {
    file_range(d, e.addrs@, 0, e.size as int)
}

/// Every block of a file of `size` bytes is on disk: reading it allocates
/// nothing.
pub open spec fn mapped(d: Seq<Seq<u8>>, a: Seq<u32>, size: int) -> bool {
    forall|k: int| 0 <= k < (size + 511) / 512 ==> #[trigger] block_addr(d, a, k) != 0
}

proof fn lemma_no_holes(d: Seq<Seq<u8>>, a: Seq<u32>, lo: int, hi: int)
    requires
        forall|k: int| lo <= k < hi ==> #[trigger] block_addr(d, a, k) != 0,
    ensures
        holes(d, a, lo, hi) == 0,
    decreases hi - lo,
{
    if lo < hi {
        lemma_no_holes(d, a, lo + 1, hi);
    }
}

/// Reading a mapped file allocates no block.
proof fn lemma_mapped_no_allocs(d: Seq<Seq<u8>>, a: Seq<u32>, size: int, lo: int, hi: int)
    requires
        mapped(d, a, size),
        0 <= lo,
        hi <= (size + 511) / 512,
        a.len() == NDIRECT + 1,
    ensures
        range_allocs(d, a, lo, hi) == 0,
{
    lemma_no_holes(d, a, lo, hi);
    if a[NDIRECT as int] == 0 && lo < hi && hi > NDIRECT {
        assert(block_addr(d, a, hi - 1) != 0);
    }
}

/// A directory that can be read without allocating: a sound file
/// system, the directory's blocks in order and all on disk, and a size
/// a file can have.
pub open spec fn dir_readable(d: Seq<Seq<u8>>, e: Inode) -> bool {
    &&& fs_valid(d)
    &&& file_blocks_ok(d, e.addrs@)
    &&& e.size <= MAXFILE * 512
    &&& mapped(d, e.addrs@, e.size as int)
}

/// Reads the directory entry at byte offset `off` of directory entry
/// `dp`, which lies wholly inside the directory.
fn read_entry(cache: &mut ICache, disk: &mut Disk, dp: usize, off: u32) -> (de: Dirent)
    requires
        old(cache).wf(),
        old(disk).wf(),
        dp < NINODE,
        old(cache).inode@[dp as int].type_ == T_DIR,
        dir_readable(old(disk)@, old(cache).inode@[dp as int]),
        off % 16 == 0,
        off + 16 <= old(cache).inode@[dp as int].size,
    ensures
        final(disk).wf(),
        final(disk)@ == old(disk)@,
        final(cache).inode@ == old(cache).inode@,
        de.inum == dirent_inum(dir_content(old(disk)@, old(cache).inode@[dp as int]), off as int / 16),
        de.name@ == dirent_name(dir_content(old(disk)@, old(cache).inode@[dp as int]), off as int / 16),
{
    let ghost d0 = disk@;
    let ghost e0 = cache.inode@[dp as int];
    let ghost c = dir_content(d0, e0);
    let devsw: Vec<Devsw> = Vec::new();
    let mut buf: Vec<u8> = vec![0u8; DIRENT_SIZE];
    proof {
        lemma_mapped_no_allocs(d0, e0.addrs@, e0.size as int, off as int / 512, (off + 16 + 511) / 512);
        assert(read_len(e0.size as int, off as int, 16) == 16);
    }
    let rr = readi(disk, &mut cache.inode[dp], &devsw, &mut buf, off, DIRENT_SIZE as u32);
    proof {
        assert(cache.inode@ =~= old(cache).inode@);
        assert(buf@.subrange(0, 16) == file_range(d0, e0.addrs@, off as int, 16));
        assert forall|j: int| 0 <= j < 16 implies #[trigger] buf@[j] == c[off + j] by {
            assert(buf@.subrange(0, 16)[j] == buf@[j]);
        }
    }
    let de = Dirent::decode(&buf, 0);
    proof {
        let k = off / 16;
        assert(de.inum == dirent_inum(c, k as int));
        assert(de.name@ =~= dirent_name(c, k as int));
    }
    de
}

/// Looks `name` up in directory entry `dp`: the first whole entry in use
/// whose name `namecmp` finds equal to `name` (they agree on their common
/// length, at most `DIRSIZ` bytes).  When there is one, takes a cache entry for its inode as
/// `iget` does and returns that entry's index and the entry's byte offset
/// in the directory.
pub fn dirlookup(cache: &mut ICache, disk: &mut Disk, dp: usize, name: &[u8]) -> (r: Option<(usize, u32)>)
    requires
        old(cache).wf(),
        old(disk).wf(),
        dp < NINODE,
        old(cache).inode@[dp as int].type_ == T_DIR,
        dir_readable(old(disk)@, old(cache).inode@[dp as int]),
        old(cache).inode@[dp as int].size % 16 == 0 || has_entry(
            dir_content(old(disk)@, old(cache).inode@[dp as int]),
            name@,
        ),
        forall|k: int|
            first_entry(dir_content(old(disk)@, old(cache).inode@[dp as int]), name@, k) ==> old(cache).is_cached(
                old(cache).inode@[dp as int].dev,
                dirent_inum(dir_content(old(disk)@, old(cache).inode@[dp as int]), k) as u32,
            ) || old(cache).has_free(),
        forall|j: int| 0 <= j < NINODE ==> (#[trigger] old(cache).inode@[j]).ref_count < i32::MAX,
    ensures
        final(disk)@ == old(disk)@,
        final(disk).wf(),
        final(cache).wf(),
        ({
            let e = old(cache).inode@[dp as int];
            let c = dir_content(old(disk)@, e);
            &&& !has_entry(c, name@) ==> r is None && final(cache).inode@ == old(cache).inode@
            &&& has_entry(c, name@) ==> r is Some && ({
                let (idx, off) = r->0;
                let k = off / 16;
                let inum = dirent_inum(c, k as int) as u32;
                &&& off % 16 == 0
                &&& first_entry(c, name@, k as int)
                &&& idx < NINODE
                &&& old(cache).is_cached(e.dev, inum) ==> old(cache).holds(idx as int, e.dev, inum)
                    && final(cache).inode@[idx as int] == (Inode {
                    ref_count: (old(cache).inode@[idx as int].ref_count + 1) as i32,
                    ..old(cache).inode@[idx as int]
                })
                &&& !old(cache).is_cached(e.dev, inum) ==> old(cache).first_free(idx as int)
                    && final(cache).inode@[idx as int] == (Inode {
                    dev: e.dev,
                    inum,
                    ref_count: 1,
                    flags: 0,
                    ..old(cache).inode@[idx as int]
                })
                &&& forall|j: int| 0 <= j < NINODE && j != idx ==> #[trigger] final(cache).inode@[j]
                    == old(cache).inode@[j]
            })
        }),
{
    let ghost d0 = disk@;
    let ghost e0 = cache.inode@[dp as int];
    let ghost c = dir_content(d0, e0);
    let size = cache.inode[dp].size;
    let dev = cache.inode[dp].dev;
    let mut off: u32 = 0;
    while off < size
        invariant
            cache.wf(),
            cache.inode@ == old(cache).inode@,
            disk.wf(),
            disk@ == d0,
            d0 == old(disk)@,
            e0 == old(cache).inode@[dp as int],
            c == dir_content(d0, e0),
            dp < NINODE,
            e0.type_ == T_DIR,
            dir_readable(d0, e0),
            size == e0.size,
            dev == e0.dev,
            e0.size % 16 == 0 || has_entry(c, name@),
            off % 16 == 0,
            off <= size + 16,
            forall|j: int| 0 <= j < off / 16 ==> !#[trigger] entry_is(c, j, name@),
            forall|k: int|
                first_entry(c, name@, k) ==> old(cache).is_cached(dev, dirent_inum(c, k) as u32) || old(cache).has_free(),
            forall|j: int| 0 <= j < NINODE ==> (#[trigger] old(cache).inode@[j]).ref_count < i32::MAX,
        decreases size + 16 - off,
    {
        let ghost k = off / 16;
        proof {
            if off + 16 > size {
                assert(size % 16 != 0);
                let w = choose|w: int| 0 <= w < nentries(c) && #[trigger] entry_is(c, w, name@);
                assert(w < k);
                assert(false);
            }
        }
        let de = read_entry(cache, disk, dp, off);
        proof {
            assert(cache.inode@ =~= old(cache).inode@);
        }
        if de.inum != 0 {
            let same = names_match(name, de.name.as_slice());
            proof {
                assert(same == entry_is(c, k as int, name@));
            }
            if same {
                proof {
                    assert(first_entry(c, name@, k as int));
                    assert(old(cache).is_cached(dev, de.inum as u32) || old(cache).has_free());
                    if old(cache).is_cached(dev, de.inum as u32) {
                        let w = choose|w: int| #[trigger] old(cache).holds(w, dev, de.inum as u32);
                        assert(cache.holds(w, dev, de.inum as u32));
                    } else {
                        let w = choose|w: int| 0 <= w < NINODE && (#[trigger] old(cache).inode@[w]).ref_count == 0;
                        assert(cache.inode@[w].ref_count == 0);
                    }
                }
                let ghost c1 = cache.inode@;
                let ghost cc = *cache;
                let idx = iget(cache, dev, de.inum as u32);
                proof {
                    if cc.is_cached(dev, de.inum as u32) {
                        let w = choose|w: int| #[trigger] cc.holds(w, dev, de.inum as u32);
                        assert(old(cache).holds(w, dev, de.inum as u32));
                    }
                    if old(cache).is_cached(dev, de.inum as u32) {
                        let w = choose|w: int| #[trigger] old(cache).holds(w, dev, de.inum as u32);
                        assert(cc.holds(w, dev, de.inum as u32));
                    }
                    assert(cc.is_cached(dev, de.inum as u32) == old(cache).is_cached(dev, de.inum as u32));
                    assert(cc.first_free(idx as int) == old(cache).first_free(idx as int));
                    assert(cc.holds(idx as int, dev, de.inum as u32) == old(cache).holds(idx as int, dev, de.inum as u32));
                    let inum = dirent_inum(c, k as int) as u32;
                    assert(inum == de.inum as u32);
                    assert(c1 == old(cache).inode@);
                    assert(off / 16 == k);
                    assert(old(cache).is_cached(dev, inum) ==> old(cache).holds(idx as int, dev, inum));
                    assert(!old(cache).is_cached(dev, inum) ==> old(cache).first_free(idx as int));
                }
                return Some((idx, off));
            }
        }
        off = off + 16;
    }
    proof {
        if has_entry(c, name@) {
            let w = choose|w: int| 0 <= w < nentries(c) && #[trigger] entry_is(c, w, name@);
            assert(w < off / 16);
        }
    }
    None
}

/// Entry `k` is the first whole entry not in use.
pub open spec fn first_empty(c: Seq<u8>, k: int) -> bool {
    &&& 0 <= k < nentries(c)
    &&& dirent_inum(c, k) == 0
    &&& forall|j: int| 0 <= j < k ==> #[trigger] dirent_inum(c, j) != 0
}

/// The entry `dirlink` writes: the first whole entry not in use, or the
/// entry just past the end.
pub open spec fn link_slot(c: Seq<u8>) -> int {
    if exists|k: int| #[trigger] first_empty(c, k) {
        choose|k: int| #[trigger] first_empty(c, k)
    } else {
        nentries(c)
    }
}

/// `c1` is `c0` with entry `k` replaced by one for `name` and `inum`,
/// the contents growing when the entry lies past their end.
pub open spec fn entry_written(c0: Seq<u8>, c1: Seq<u8>, k: int, name: Seq<u8>, inum: u16) -> bool {
    &&& c1.len() == if c0.len() < DIRENT_SIZE * k + DIRENT_SIZE { DIRENT_SIZE * k + DIRENT_SIZE } else { c0.len() as int }
    &&& dirent_inum(c1, k) == inum
    &&& dirent_name(c1, k) == name_key(name)
    &&& forall|p: int|
        0 <= p < c0.len() && !(DIRENT_SIZE * k <= p < DIRENT_SIZE * k + DIRENT_SIZE) ==> #[trigger] c1[p] == c0[p]
}

/// What a lookup gives back of a link: once `name` was absent and an
/// entry for it was written at the slot `dirlink` picks, the first entry
/// holding `name` is that entry, with the inode number written.
pub proof fn lemma_lookup_after_link(c0: Seq<u8>, c1: Seq<u8>, name: Seq<u8>, inum: u16)
    requires
        !has_entry(c0, name),
        name.len() <= DIRSIZ,
        c0.len() % 16 == 0,
        inum != 0,
        entry_written(c0, c1, link_slot(c0), name, inum),
    ensures
        first_entry(c1, name, link_slot(c0)),
        dirent_inum(c1, link_slot(c0)) == inum,
        has_entry(c1, name),
{
    let k = link_slot(c0);
    if exists|j: int| #[trigger] first_empty(c0, j) {
        let j = choose|j: int| #[trigger] first_empty(c0, j);
        assert(first_empty(c0, k));
    }
    assert(0 <= k <= nentries(c0));
    assert forall|j: int| 0 <= j < k implies !#[trigger] entry_is(c1, j, name) by {
        assert(!entry_is(c0, j, name));
        assert forall|p: int| DIRENT_SIZE * j <= p < DIRENT_SIZE * j + DIRENT_SIZE implies c1[p] == c0[p] by {}
        assert(dirent_name(c1, j) =~= dirent_name(c0, j));
        assert(dirent_inum(c1, j) == dirent_inum(c0, j));
    }
    assert(compare_len(name, name_key(name)) == name.len());
    lemma_diff_zero(name, name_key(name), 0, name.len() as int);
    assert(entry_is(c1, k, name));
}

/// Adds an entry for `name` and inode `inum` to directory entry `dp`,
/// unless the directory already has one for `name`: then returns -1 and
/// only the reference `dirlookup` took is dropped again.  The entry goes
/// in the first whole entry not in use, or is appended; the inode number
/// is stored in 16 bits and the name padded with zero bytes.  Returns 0.
pub fn dirlink(cache: &mut ICache, disk: &mut Disk, dp: usize, name: &[u8], inum: u32) -> (r: i32)
    requires
        old(cache).wf(),
        old(disk).wf(),
        dp < NINODE,
        old(cache).inode@[dp as int].type_ == T_DIR,
        dir_readable(old(disk)@, old(cache).inode@[dp as int]),
        old(cache).inode@[dp as int].inum < disk_superblock(old(disk)@).ninodes,
        name@.len() <= DIRSIZ,
        old(cache).inode@[dp as int].size % 16 == 0 || has_entry(
            dir_content(old(disk)@, old(cache).inode@[dp as int]),
            name@,
        ),
        forall|k: int|
            first_entry(dir_content(old(disk)@, old(cache).inode@[dp as int]), name@, k) ==> old(cache).is_cached(
                old(cache).inode@[dp as int].dev,
                dirent_inum(dir_content(old(disk)@, old(cache).inode@[dp as int]), k) as u32,
            ) || old(cache).has_free(),
        forall|j: int| 0 <= j < NINODE ==> (#[trigger] old(cache).inode@[j]).ref_count < i32::MAX,
        ({
            let e = old(cache).inode@[dp as int];
            let c = dir_content(old(disk)@, e);
            !has_entry(c, name@) && link_slot(c) == nentries(c) ==> e.size + 16 <= MAXFILE * 512 && range_allocs(
                old(disk)@,
                e.addrs@,
                e.size as int / 512,
                (e.size + 16 + 511) / 512,
            ) <= nfree(old(disk)@)
        }),
    ensures
        final(cache).wf(),
        ({
            let e = old(cache).inode@[dp as int];
            let c = dir_content(old(disk)@, e);
            &&& has_entry(c, name@) ==> r == -1 && final(disk)@ == old(disk)@ && forall|j: int|
                0 <= j < NINODE ==> #[trigger] final(cache).inode@[j].ref_count == old(cache).inode@[j].ref_count
            &&& !has_entry(c, name@) ==> ({
                let f = final(cache).inode@[dp as int];
                let k = link_slot(c);
                let ib = iblock_spec(e.inum as int);
                let grew = DIRENT_SIZE * k + DIRENT_SIZE > e.size;
                &&& r == 0
                &&& entry_written(c, dir_content(final(disk)@, f), k, name@, inum as u16)
                &&& f.dev == e.dev && f.inum == e.inum && f.ref_count == e.ref_count && f.flags == e.flags
                &&& f.type_ == e.type_ && f.nlink == e.nlink && f.major == e.major && f.minor == e.minor
                &&& f.ownerid == e.ownerid && f.groupid == e.groupid && f.mode == e.mode
                &&& grew ==> inode_written(old(disk)@[ib], final(disk)@[ib], f)
                &&& !grew ==> final(disk)@[ib] == old(disk)@[ib]
                &&& final(disk).wf()
                &&& fs_valid(final(disk)@)
                &&& file_blocks_ok(final(disk)@, f.addrs@)
                &&& forall|j: int| 0 <= j < NINODE && j != dp ==> #[trigger] final(cache).inode@[j]
                    == old(cache).inode@[j]
            })
        }),
{
    let ghost d0 = disk@;
    let ghost e0 = cache.inode@[dp as int];
    let ghost c = dir_content(d0, e0);
    let found = dirlookup(cache, disk, dp, name);
    match found {
        Some((ip, _)) => {
            let ghost c1 = cache.inode@;
            proof {
                assert(!frees_on_put(cache.inode@[ip as int])) by {
                    let k = choose|k: int| #[trigger] first_entry(c, name@, k);
                    if !old(cache).is_cached(e0.dev, dirent_inum(c, k) as u32) {
                        assert(cache.inode@[ip as int].flags == 0);
                        assert(0i32 & 2 == 0) by (bit_vector);
                    }
                }
            }
            iput(cache, disk, ip);
            proof {
                assert forall|j: int| 0 <= j < NINODE implies #[trigger] cache.inode@[j].ref_count
                    == old(cache).inode@[j].ref_count by {
                    if j != ip {
                        assert(cache.inode@[j] == c1[j]);
                    }
                }
            }
            return -1;
        },
        None => {},
    }
    let size = cache.inode[dp].size;
    let mut off: u32 = 0;
    let mut stop = false;
    while off < size && !stop
        invariant
            cache.wf(),
            cache.inode@ == old(cache).inode@,
            disk.wf(),
            disk@ == d0,
            d0 == old(disk)@,
            e0 == old(cache).inode@[dp as int],
            c == dir_content(d0, e0),
            dp < NINODE,
            e0.type_ == T_DIR,
            dir_readable(d0, e0),
            size == e0.size,
            size % 16 == 0,
            off % 16 == 0,
            off <= size,
            stop ==> off < size && dirent_inum(c, off as int / 16) == 0,
            forall|j: int| 0 <= j < off as int / 16 ==> #[trigger] dirent_inum(c, j) != 0,
        decreases size - off, if stop { 0int } else { 1int },
    {
        let de = read_entry(cache, disk, dp, off);
        if de.inum == 0 {
            stop = true;
        } else {
            off = off + 16;
        }
    }
    proof {
        if stop {
            assert(first_empty(c, off as int / 16));
            assert(link_slot(c) == off as int / 16) by {
                let w = choose|w: int| #[trigger] first_empty(c, w);
                if w < off as int / 16 {
                    assert(dirent_inum(c, w) != 0);
                } else if w > off as int / 16 {
                    assert(dirent_inum(c, off as int / 16) != 0);
                }
            }
        } else {
            assert(off == size);
            assert forall|w: int| !#[trigger] first_empty(c, w) by {
                if first_empty(c, w) {
                    assert(dirent_inum(c, w) != 0);
                }
            }
            assert(link_slot(c) == off as int / 16);
        }
    }
    let mut nm: Vec<u8> = Vec::new();
    let mut i: usize = 0;
    while i < DIRSIZ
        invariant
            i <= DIRSIZ,
            nm@.len() == i,
            forall|j: int| 0 <= j < i ==> #[trigger] nm@[j] == name_key(name@)[j],
        decreases DIRSIZ - i,
    {
        if i < name.len() {
            nm.push(name[i]);
        } else {
            nm.push(0);
        }
        i += 1;
    }
    proof {
        assert(nm@ =~= name_key(name@));
    }
    let de = Dirent { inum: inum as u16, name: nm };
    let bytes = de.encode();
    let devsw: Vec<Devsw> = Vec::new();
    proof {
        if off < size {
            lemma_mapped_no_allocs(d0, e0.addrs@, size as int, off as int / 512, (off + 16 + 511) / 512);
        }
    }
    let ghost c0 = cache.inode@;
    let rr = writei(disk, &mut cache.inode[dp], &devsw, &bytes, off, DIRENT_SIZE as u32);
    proof {
        let f = cache.inode@[dp as int];
        let c1 = dir_content(disk@, f);
        let k = off as int / 16;
        assert(rr == Rw::Done(16));
        assert forall|p: int| 0 <= p < c1.len() implies #[trigger] c1[p] == written_byte(
            d0,
            e0.addrs@,
            bytes@,
            off as int,
            16,
            p,
        ) by {}
        assert forall|p: int| 0 <= p < c.len() && !(16 * k <= p < 16 * k + 16) implies #[trigger] c1[p] == c[p] by {}
        assert(dirent_name(c1, k as int) =~= bytes@.subrange(2, 16));
        assert(dirent_inum(c1, k as int) == le16(bytes@, 0));
        assert(entry_written(c, c1, k as int, name@, inum as u16));
        assert forall|a: int, b: int|
            0 <= a < NINODE && 0 <= b < NINODE && a != b && (#[trigger] cache.inode@[a]).ref_count > 0
                && (#[trigger] cache.inode@[b]).ref_count > 0 implies !(cache.inode@[a].dev == cache.inode@[b].dev
                && cache.inode@[a].inum == cache.inode@[b].inum) by {
            assert(c0[a].ref_count > 0 && c0[b].ref_count > 0);
        }
    }
    0
}

proof fn lemma_diff_zero(s: Seq<u8>, t: Seq<u8>, i: int, n: int)
    requires
        forall|j: int| i <= j < n ==> s[j] == t[j],
    ensures
        first_diff_from(s, t, i, n) == 0,
    decreases n - i,
{
    if i < n {
        lemma_diff_zero(s, t, i + 1, n);
    }
}


} // verus!
