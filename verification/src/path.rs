//! Path names: walking a path from the root or the current directory to
//! the inode it names, or to the directory that holds its last element.
use vstd::prelude::*;
use crate::disk::{Disk, disk_superblock};
use crate::fs::{Inode, T_DIR, fs_valid, file_blocks_ok, file_range, inode_offset, lemma_iblock_lt_meta};
use crate::fs_layout::{iblock_spec, le16, le32, as_signed16, DIRSIZ, MAXFILE, NDIRECT, ROOTINO, DINODE_SIZE};
use crate::icache::{
    ICache, NINODE, iget, idup, ilock, iunlock, iput, iunlockput, is_busy, is_valid, frees_on_put, disk_type,
    loaded_from,
};
use crate::dir::{
    dirlookup, skipelem_from, skipelem_effect, skip_slashes, elem_end, elem_name, elem_len, has_entry,
    first_entry, dirent_inum, dir_content, mapped, lemma_skip_bounds, lemma_end_bounds,
};

verus! {

/// Device of the root directory.
pub const ROOTDEV: u32 = 1;

/// Size of inode `inum` as the disk holds it.
pub open spec fn disk_size(d: Seq<Seq<u8>>, inum: int) -> int {
    le32(d[iblock_spec(inum)], inode_offset(inum) + 16)
}

/// Link count of inode `inum` as the disk holds it.
pub open spec fn disk_nlink(d: Seq<Seq<u8>>, inum: int) -> int {
    as_signed16(le16(d[iblock_spec(inum)], inode_offset(inum) + 6))
}

/// Block addresses of inode `inum` as the disk holds them.
pub open spec fn disk_addrs(d: Seq<Seq<u8>>, inum: int) -> Seq<u32> {
    Seq::new((NDIRECT + 1) as nat, |k: int| le32(d[iblock_spec(inum)], inode_offset(inum) + 20 + 4 * k) as u32)
}

/// Contents of inode `inum` as the disk holds them.
pub open spec fn disk_dir(d: Seq<Seq<u8>>, inum: int) -> Seq<u8> {
    file_range(d, disk_addrs(d, inum), 0, disk_size(d, inum))
}

/// Inode `inum` can be read as a directory without allocating.
pub open spec fn dir_ok_at(d: Seq<Seq<u8>>, inum: int) -> bool {
    &&& file_blocks_ok(d, disk_addrs(d, inum))
    &&& disk_size(d, inum) <= MAXFILE * 512
    &&& mapped(d, disk_addrs(d, inum), disk_size(d, inum))
}

/// Index of the first zero byte of `x` at or after `k`, or its length.
pub open spec fn nul_index(x: Seq<u8>, k: int) -> int
    decreases x.len() - k,
{
    if k < 0 || k >= x.len() || x[k] == 0 {
        k
    } else {
        nul_index(x, k + 1)
    }
}

/// `x` up to its first zero byte.
pub open spec fn until_nul(x: Seq<u8>) -> Seq<u8> {
    x.subrange(0, nul_index(x, 0))
}

/// The name looked up for the element starting at `s`: the bytes
/// `skipelem` copies, up to a zero byte.
pub open spec fn elem_key(p: Seq<u8>, s: int) -> Seq<u8> {
    until_nul(elem_name(p, s))
}

/// Inode number of the first entry holding `name`.
pub open spec fn lookup_in(c: Seq<u8>, name: Seq<u8>) -> int {
    dirent_inum(c, choose|k: int| first_entry(c, name, k))
}

/// Index where the element after the one starting at `s` may begin.
pub open spec fn after_elem(p: Seq<u8>, s: int) -> int {
    skip_slashes(p, elem_end(p, s))
}

pub proof fn lemma_step_advances(p: Seq<u8>, i: int)
    requires
        0 <= i <= p.len(),
        skip_slashes(p, i) < p.len(),
    ensures
        i <= skip_slashes(p, i) < elem_end(p, skip_slashes(p, i)) <= after_elem(p, skip_slashes(p, i)) <= p.len(),
{
    lemma_skip_bounds(p, i);
    let s = skip_slashes(p, i);
    lemma_end_bounds(p, s);
    lemma_skip_bounds(p, elem_end(p, s));
}

/// The inode a path names, walking the disk's directories from inode
/// `inum` at index `i` of the path; in `parent` mode the directory that
/// holds the last element.  `None` when an element is missing, a
/// non-directory is walked through, or in `parent` mode the path has no
/// element left.
pub open spec fn walk(d: Seq<Seq<u8>>, inum: int, p: Seq<u8>, i: int, parent: bool) -> Option<int>
    decreases p.len() - i,
{
    if !(0 <= i <= p.len()) {
        None
    } else if skip_slashes(p, i) >= p.len() {
        if parent { None } else { Some(inum) }
    } else {
        let s = skip_slashes(p, i);
        let nx = after_elem(p, s);
        let c = disk_dir(d, inum);
        let key = elem_key(p, s);
        if disk_type(d, inum) != T_DIR {
            None
        } else if parent && nx >= p.len() {
            Some(inum)
        } else if !has_entry(c, key) {
            None
        } else {
            proof {
                lemma_step_advances(p, i);
            }
            walk(d, lookup_in(c, key), p, nx, parent)
        }
    }
}

/// The walk `walk` describes can be done: every inode it locks is a valid
/// inode of the file system with a type and links, and every directory it
/// searches can be read and searched without running off its end.
pub open spec fn walk_ok(d: Seq<Seq<u8>>, inum: int, p: Seq<u8>, i: int, parent: bool) -> bool
    decreases p.len() - i,
{
    if !(0 <= i <= p.len()) {
        true
    } else if skip_slashes(p, i) >= p.len() {
        true
    } else {
        let s = skip_slashes(p, i);
        let nx = after_elem(p, s);
        let c = disk_dir(d, inum);
        let key = elem_key(p, s);
        &&& 0 <= inum < disk_superblock(d).ninodes
        &&& disk_type(d, inum) != 0
        &&& disk_nlink(d, inum) != 0
        &&& (disk_type(d, inum) == T_DIR && !(parent && nx >= p.len())) ==> (dir_ok_at(d, inum) && (disk_size(d, inum)
            % 16 == 0 || has_entry(c, key)) && (has_entry(c, key) ==> {
            proof {
                lemma_step_advances(p, i);
            }
            walk_ok(d, lookup_in(c, key), p, nx, parent)
        }))
    }
}

/// Start of the last element of the path, from index `i`; -1 when none
/// is left.
pub open spec fn final_elem(p: Seq<u8>, i: int) -> int
    decreases p.len() - i,
{
    if !(0 <= i <= p.len()) || skip_slashes(p, i) >= p.len() {
        -1
    } else if after_elem(p, skip_slashes(p, i)) >= p.len() {
        skip_slashes(p, i)
    } else {
        proof {
            lemma_step_advances(p, i);
        }
        final_elem(p, after_elem(p, skip_slashes(p, i)))
    }
}

/// An entry loaded from disk holds the disk's fields.
proof fn lemma_loaded(e: Inode, d: Seq<Seq<u8>>, inum: int)
    requires
        loaded_from(e, d, inum),
    ensures
        e.type_ == disk_type(d, inum),
        e.size == disk_size(d, inum),
        e.nlink == disk_nlink(d, inum),
        e.addrs@ == disk_addrs(d, inum),
        dir_content(d, e) == disk_dir(d, inum),
{
    assert(e.addrs@ =~= disk_addrs(d, inum));
}

/// An entry loaded from disk holds the disk's fields.
pub proof fn lemma_loaded_pub(e: Inode, d: Seq<Seq<u8>>, inum: int)
    requires
        loaded_from(e, d, inum),
    ensures
        e.type_ == disk_type(d, inum),
        e.size == disk_size(d, inum),
        e.nlink == disk_nlink(d, inum),
        e.addrs@ == disk_addrs(d, inum),
        dir_content(d, e) == disk_dir(d, inum),
{
    lemma_loaded(e, d, inum);
}

/// The first entry holding a name is the one `lookup_in` reads.
proof fn lemma_first_entry_unique(c: Seq<u8>, name: Seq<u8>, k: int)
    requires
        first_entry(c, name, k),
    ensures
        lookup_in(c, name) == dirent_inum(c, k),
{
    let w = choose|w: int| first_entry(c, name, w);
    assert(first_entry(c, name, w));
    if w < k {
        assert(!crate::dir::entry_is(c, w, name));
    } else if w > k {
        assert(!crate::dir::entry_is(c, k, name));
    }
}

/// Two byte strings that agree on their first `m` bytes, the second of
/// length `m` and the first ending there or with a zero byte, have their
/// first zero byte at the same place.
proof fn lemma_nul_agree(x: Seq<u8>, y: Seq<u8>, k: int, m: int)
    requires
        0 <= k <= m,
        y.len() == m,
        x.len() >= m,
        forall|j: int| 0 <= j < m ==> x[j] == y[j],
        x.len() > m ==> x[m] == 0,
    ensures
        nul_index(x, k) == nul_index(y, k),
    decreases m - k,
{
    if k < m && x[k] != 0 {
        lemma_nul_agree(x, y, k + 1, m);
    }
}

pub proof fn lemma_nul_bound(x: Seq<u8>, k: int)
    requires
        0 <= k <= x.len(),
    ensures
        k <= nul_index(x, k) <= x.len(),
        forall|j: int| k <= j < nul_index(x, k) ==> x[j] != 0,
        nul_index(x, k) < x.len() ==> x[nul_index(x, k)] == 0,
    decreases x.len() - k,
{
    if k < x.len() && x[k] != 0 {
        lemma_nul_bound(x, k + 1);
    }
}

/// The first `DIRSIZ` bytes of `name`, up to a zero byte.
fn name_until_nul(name: &[u8]) -> (r: Vec<u8>)
    requires
        name@.len() >= DIRSIZ,
    ensures
        r@ == until_nul(name@.subrange(0, DIRSIZ as int)),
{
    let ghost x = name@.subrange(0, DIRSIZ as int);
    proof {
        lemma_nul_bound(x, 0);
    }
    let mut r: Vec<u8> = Vec::new();
    let mut k: usize = 0;
    while k < DIRSIZ && name[k] != 0
        invariant
            x == name@.subrange(0, DIRSIZ as int),
            name@.len() >= DIRSIZ,
            k <= DIRSIZ,
            nul_index(x, k as int) == nul_index(x, 0),
            r@ == x.subrange(0, k as int),
        decreases DIRSIZ - k,
    {
        r.push(name[k]);
        k += 1;
        proof {
            assert(r@ =~= x.subrange(0, k as int));
        }
    }
    r
}

/// No entry of the cache is locked.
pub open spec fn none_busy(c: ICache) -> bool {
    forall|j: int| 0 <= j < NINODE ==> !is_busy(#[trigger] c.inode@[j])
}

/// Every referenced valid entry holds what the disk holds for its inode.
pub open spec fn coherent(c: ICache, d: Seq<Seq<u8>>) -> bool {
    forall|j: int|
        0 <= j < NINODE && (#[trigger] c.inode@[j]).ref_count > 0 && is_valid(c.inode@[j]) ==> loaded_from(
            c.inode@[j],
            d,
            c.inode@[j].inum as int,
        )
}

/// Two entries are free.
pub open spec fn two_free(c: ICache) -> bool {
    exists|a: int, b: int|
        0 <= a < NINODE && 0 <= b < NINODE && a != b && (#[trigger] c.inode@[a]).ref_count == 0
            && (#[trigger] c.inode@[b]).ref_count == 0
}

/// One step of the walk keeps a free entry, and two when the entry held
/// has other references.
proof fn lemma_step_frees(c0: ICache, c1: ICache, c2: ICache, ip: int, nxt: int)
    requires
        0 <= ip < NINODE,
        0 <= nxt < NINODE,
        c0.inode@.len() == NINODE && c1.inode@.len() == NINODE && c2.inode@.len() == NINODE,
        c0.inode@[ip].ref_count >= 1,
        forall|j: int| 0 <= j < NINODE && j != nxt ==> #[trigger] c1.inode@[j].ref_count == c0.inode@[j].ref_count,
        c1.inode@[nxt].ref_count == c0.inode@[nxt].ref_count + 1,
        forall|j: int| 0 <= j < NINODE && j != ip ==> #[trigger] c2.inode@[j].ref_count == c1.inode@[j].ref_count,
        c2.inode@[ip].ref_count == c1.inode@[ip].ref_count - 1,
        c0.has_free(),
        c0.inode@[ip].ref_count > 1 ==> two_free(c0),
    ensures
        c2.has_free(),
        c2.inode@[nxt].ref_count > 1 ==> two_free(c2),
{
    let fa = choose|a: int| 0 <= a < NINODE && (#[trigger] c0.inode@[a]).ref_count == 0;
    if c0.inode@[ip].ref_count == 1 {
        if ip != nxt {
            assert(c2.inode@[ip].ref_count == 0);
            if c2.inode@[nxt].ref_count > 1 {
                assert(fa != ip && fa != nxt);
                assert(c2.inode@[fa].ref_count == 0);
            }
        } else {
            assert(fa != ip);
            assert(c2.inode@[fa].ref_count == 0);
        }
    } else {
        let (a, b) = choose|a: int, b: int|
            0 <= a < NINODE && 0 <= b < NINODE && a != b && (#[trigger] c0.inode@[a]).ref_count == 0
                && (#[trigger] c0.inode@[b]).ref_count == 0;
        assert(a != ip && b != ip);
        if a != nxt {
            assert(c2.inode@[a].ref_count == 0);
        } else {
            assert(c2.inode@[b].ref_count == 0);
        }
        if c2.inode@[nxt].ref_count > 1 {
            assert(a != nxt && b != nxt);
            assert(c2.inode@[a].ref_count == 0 && c2.inode@[b].ref_count == 0);
        }
    }
}

/// The name `namex` looks up after `skipelem` copied an element: the
/// element up to a zero byte.
proof fn lemma_elem_key(p: Seq<u8>, start: int, n0: Seq<u8>, n1: Seq<u8>, r: Option<usize>)
    requires
        skipelem_effect(p, start, n0, n1, r),
        r is Some,
        n0.len() >= DIRSIZ,
        0 <= start <= p.len(),
    ensures
        until_nul(n1.subrange(0, DIRSIZ as int)) == elem_key(p, skip_slashes(p, start)),
{
    let s = skip_slashes(p, start);
    lemma_skip_bounds(p, start);
    lemma_end_bounds(p, s);
    let len = elem_len(p, s);
    let x = n1.subrange(0, DIRSIZ as int);
    let y = elem_name(p, s);
    assert forall|j: int| 0 <= j < len implies x[j] == y[j] by {
        assert(n1.subrange(0, len)[j] == y[j]);
    }
    lemma_nul_agree(x, y, 0, len);
    lemma_nul_bound(x, 0);
    lemma_nul_bound(y, 0);
    assert(until_nul(x) =~= until_nul(y));
}

/// What one step of the walk keeps: after locking entry `ip` (`ch` to
/// `c1`), finding entry `nxt` for the next inode (`c1` to `c2`) and
/// dropping `ip` (`c2` to `c3`), no entry is locked, the cache agrees with
/// the disk, free entries remain, and the references are those at the
/// start plus the one held on `nxt`.
proof fn lemma_after_step(
    c00: ICache,
    ch: ICache,
    c1: ICache,
    c2: ICache,
    c3: ICache,
    ip: int,
    nxt: int,
    d0: Seq<Seq<u8>>,
    dev0: u32,
    inum2: u32,
)
    requires
        0 <= ip < NINODE,
        0 <= nxt < NINODE,
        ch.inode@.len() == NINODE && c1.inode@.len() == NINODE && c2.inode@.len() == NINODE
            && c3.inode@.len() == NINODE && c00.inode@.len() == NINODE,
        none_busy(ch),
        coherent(ch, d0),
        forall|j: int|
            0 <= j < NINODE ==> #[trigger] ch.inode@[j].ref_count == c00.inode@[j].ref_count + (if j == ip {
                1int
            } else {
                0int
            }),
        ch.has_free(),
        ch.inode@[ip].ref_count > 1 ==> two_free(ch),
        ch.inode@[ip].ref_count >= 1,
        ch.inode@[ip].dev == dev0,
        forall|j: int| 0 <= j < NINODE ==> (#[trigger] ch.inode@[j]).ref_count < i32::MAX - 1,
        forall|j: int| 0 <= j < NINODE && j != ip ==> #[trigger] c1.inode@[j] == ch.inode@[j],
        c1.inode@[ip].ref_count == ch.inode@[ip].ref_count,
        c1.inode@[ip].dev == dev0,
        is_valid(c1.inode@[ip]),
        loaded_from(c1.inode@[ip], d0, c1.inode@[ip].inum as int),
        c1.inode@[ip].nlink != 0,
        forall|j: int| 0 <= j < NINODE && j != nxt ==> #[trigger] c2.inode@[j] == c1.inode@[j],
        c1.is_cached(dev0, inum2) ==> c1.holds(nxt, dev0, inum2) && c2.inode@[nxt] == (Inode {
            ref_count: (c1.inode@[nxt].ref_count + 1) as i32,
            ..c1.inode@[nxt]
        }),
        !c1.is_cached(dev0, inum2) ==> c1.first_free(nxt) && c2.inode@[nxt] == (Inode {
            dev: dev0,
            inum: inum2,
            ref_count: 1,
            flags: 0,
            ..c1.inode@[nxt]
        }),
        forall|j: int| 0 <= j < NINODE && j != ip ==> #[trigger] c3.inode@[j] == c2.inode@[j],
        c3.inode@[ip] == (Inode {
            ref_count: (c2.inode@[ip].ref_count - 1) as i32,
            flags: c2.inode@[ip].flags & !1i32,
            ..c2.inode@[ip]
        }),
        !is_busy(c3.inode@[ip]),
    ensures
        none_busy(c3),
        coherent(c3, d0),
        !frees_on_put(c3.inode@[nxt]),
        forall|j: int|
            0 <= j < NINODE ==> #[trigger] c3.inode@[j].ref_count == c00.inode@[j].ref_count + (if j == nxt {
                1int
            } else {
                0int
            }),
        c3.has_free(),
        c3.inode@[nxt].ref_count > 1 ==> two_free(c3),
        c3.inode@[nxt].ref_count >= 1,
        c3.inode@[nxt].dev == dev0,
        c3.inode@[nxt].inum == inum2,
{
    assert(0i32 & 1 == 0 && 0i32 & 2 == 0) by (bit_vector);
    let f = c2.inode@[ip].flags;
    assert((f & !1i32) & 2 == f & 2) by (bit_vector);
    if c1.is_cached(dev0, inum2) {
        assert(c1.inode@[nxt].ref_count > 0);
    }
    assert forall|j: int| 0 <= j < NINODE implies #[trigger] c2.inode@[j].ref_count == ch.inode@[j].ref_count + (if j
        == nxt {
        1int
    } else {
        0int
    }) by {
        if j != nxt && j != ip {
            assert(c2.inode@[j] == ch.inode@[j]);
        }
        if j == nxt {
            if j != ip {
                assert(c1.inode@[j] == ch.inode@[j]);
            }
            if !c1.is_cached(dev0, inum2) {
                assert(c1.inode@[j].ref_count == 0);
            }
        }
        if j == ip && j != nxt {
            assert(c2.inode@[j] == c1.inode@[j]);
        }
    }
    assert forall|j: int| 0 <= j < NINODE && j != ip implies #[trigger] c3.inode@[j].ref_count == c2.inode@[j].ref_count by {
        assert(c3.inode@[j] == c2.inode@[j]);
    }
    lemma_step_frees(ch, c2, c3, ip, nxt);
    assert forall|j: int| 0 <= j < NINODE implies !is_busy(#[trigger] c3.inode@[j]) by {
        if j != ip && j != nxt {
            assert(c3.inode@[j] == ch.inode@[j]);
        }
    }
    assert forall|j: int|
        0 <= j < NINODE && (#[trigger] c3.inode@[j]).ref_count > 0 && is_valid(c3.inode@[j]) implies loaded_from(
        c3.inode@[j],
        d0,
        c3.inode@[j].inum as int,
    ) by {
        if j != ip && j != nxt {
            assert(c3.inode@[j] == ch.inode@[j]);
        }
        if j == nxt && j != ip && c1.is_cached(dev0, inum2) {
            assert(c1.inode@[j] == ch.inode@[j]);
        }
    }
    assert forall|j: int|
        0 <= j < NINODE implies #[trigger] c3.inode@[j].ref_count == c00.inode@[j].ref_count + (if j == nxt {
        1int
    } else {
        0int
    }) by {
        if j != ip {
            assert(c3.inode@[j] == c2.inode@[j]);
        }
    }
}

/// The path starts at the root.
pub open spec fn is_abs(p: Seq<u8>) -> bool {
    p.len() > 0 && p[0] == 0x2f
}

/// Inode a walk of the path starts from: the root, or the current
/// directory `cwd`.
pub open spec fn start_inum(c: ICache, cwd: usize, p: Seq<u8>) -> int {
    if is_abs(p) { ROOTINO as int } else { c.inode@[cwd as int].inum as int }
}

/// Device a walk of the path runs on.
pub open spec fn start_dev(c: ICache, cwd: usize, p: Seq<u8>) -> u32 {
    if is_abs(p) { ROOTDEV } else { c.inode@[cwd as int].dev }
}

/// What a walk may assume of the cache and disk it starts from.
pub open spec fn walk_pre(c: ICache, d: Seq<Seq<u8>>, cwd: usize, p: Seq<u8>, parent: bool) -> bool {
    &&& c.wf()
    &&& fs_valid(d)
    &&& none_busy(c)
    &&& coherent(c, d)
    &&& two_free(c)
    &&& forall|j: int| 0 <= j < NINODE ==> (#[trigger] c.inode@[j]).ref_count < i32::MAX - 2
    &&& !is_abs(p) ==> cwd < NINODE && c.inode@[cwd as int].ref_count >= 1
    &&& walk_ok(d, start_inum(c, cwd, p), p, 0, parent)
}

/// Looks up the inode `path` names, walking its directories from the
/// root when it starts with a slash and from the current directory `cwd`
/// otherwise; in `parent` mode stops at the directory holding the last
/// element and leaves that element in `name`.  Returns the cache entry of
/// the inode found, with a reference taken and not locked; every
/// reference and lock taken on the way is dropped again.
#[verifier::rlimit(100)]
fn namex(cache: &mut ICache, disk: &mut Disk, cwd: usize, path: &[u8], parent: bool, name: &mut [u8]) -> (r: Option<
    usize,
>)
    requires
        old(disk).wf(),
        old(name)@.len() >= DIRSIZ,
        walk_pre(*old(cache), old(disk)@, cwd, path@, parent),
    ensures
        final(disk)@ == old(disk)@,
        final(disk).wf(),
        final(cache).wf(),
        none_busy(*final(cache)),
        coherent(*final(cache), old(disk)@),
        final(name)@.len() == old(name)@.len(),
        r is None <==> walk(old(disk)@, start_inum(*old(cache), cwd, path@), path@, 0, parent) is None,
        r is Some ==> ({
            let idx = r->0;
            &&& idx < NINODE
            &&& final(cache).inode@[idx as int].inum == walk(
                old(disk)@,
                start_inum(*old(cache), cwd, path@),
                path@,
                0,
                parent,
            )->0
            &&& final(cache).inode@[idx as int].dev == start_dev(*old(cache), cwd, path@)
        }),
        forall|j: int|
            0 <= j < NINODE ==> #[trigger] final(cache).inode@[j].ref_count == old(cache).inode@[j].ref_count + (if r
                == Some(j as usize) { 1int } else { 0int }),
        parent && r is Some ==> ({
            let s = final_elem(path@, 0);
            let len = elem_len(path@, s);
            &&& final(name)@.subrange(0, len) == elem_name(path@, s)
            &&& len < DIRSIZ ==> final(name)@[len] == 0
        }),
{
    let ghost d0 = disk@;
    let ghost c00 = *cache;
    let ghost dev0 = start_dev(c00, cwd, path@);
    let ghost st = start_inum(c00, cwd, path@);
    let mut ip: usize;
    if path.len() > 0 && path[0] == 0x2f {
        ip = iget(cache, ROOTDEV, ROOTINO);
        proof {
            if c00.is_cached(ROOTDEV, ROOTINO) {
                let (a, b) = choose|a: int, b: int|
                    0 <= a < NINODE && 0 <= b < NINODE && a != b && (#[trigger] c00.inode@[a]).ref_count == 0
                        && (#[trigger] c00.inode@[b]).ref_count == 0;
                assert(a != ip && b != ip);
                assert(cache.inode@[a].ref_count == 0 && cache.inode@[b].ref_count == 0);
            } else {
                let (a, b) = choose|a: int, b: int|
                    0 <= a < NINODE && 0 <= b < NINODE && a != b && (#[trigger] c00.inode@[a]).ref_count == 0
                        && (#[trigger] c00.inode@[b]).ref_count == 0;
                if a != ip {
                    assert(cache.inode@[a].ref_count == 0);
                } else {
                    assert(cache.inode@[b].ref_count == 0);
                }
                assert(0i32 & 2 == 0) by (bit_vector);
            }
            assert(0i32 & 1 == 0) by (bit_vector);
            assert forall|j: int| 0 <= j < NINODE implies !is_busy(#[trigger] cache.inode@[j]) by {
                if j != ip {
                    assert(cache.inode@[j] == c00.inode@[j]);
                }
            }
        }
    } else {
        idup(cache, cwd);
        ip = cwd;
        proof {
            let (a, b) = choose|a: int, b: int|
                0 <= a < NINODE && 0 <= b < NINODE && a != b && (#[trigger] c00.inode@[a]).ref_count == 0
                    && (#[trigger] c00.inode@[b]).ref_count == 0;
            assert(a != ip && b != ip);
            assert(cache.inode@[a].ref_count == 0 && cache.inode@[b].ref_count == 0);
            assert forall|j: int| 0 <= j < NINODE implies !is_busy(#[trigger] cache.inode@[j]) by {
                if j != ip {
                    assert(cache.inode@[j] == c00.inode@[j]);
                }
            }
        }
    }
    let mut i: usize = 0;
    loop
        invariant
            cache.wf(),
            disk.wf(),
            disk@ == d0,
            d0 == old(disk)@,
            fs_valid(d0),
            c00 == *old(cache),
            c00.wf(),
            dev0 == start_dev(c00, cwd, path@),
            st == start_inum(c00, cwd, path@),
            name@.len() == old(name)@.len(),
            name@.len() >= DIRSIZ,
            none_busy(*cache),
            coherent(*cache, d0),
            ip < NINODE,
            cache.inode@[ip as int].ref_count >= 1,
            cache.inode@[ip as int].dev == dev0,
            forall|j: int|
                0 <= j < NINODE ==> #[trigger] cache.inode@[j].ref_count == c00.inode@[j].ref_count + (if j == ip {
                    1int
                } else {
                    0int
                }),
            forall|j: int| 0 <= j < NINODE ==> (#[trigger] c00.inode@[j]).ref_count < i32::MAX - 2,
            cache.has_free(),
            cache.inode@[ip as int].ref_count > 1 ==> two_free(*cache),
            !frees_on_put(cache.inode@[ip as int]),
            i <= path@.len(),
            walk(d0, st, path@, 0, parent) == walk(d0, cache.inode@[ip as int].inum as int, path@, i as int, parent),
            walk_ok(d0, cache.inode@[ip as int].inum as int, path@, i as int, parent),
            parent ==> final_elem(path@, 0) == final_elem(path@, i as int),
        ensures
            skip_slashes(path@, i as int) >= path@.len(),
        decreases path@.len() - i,
    {
        let ghost n_before = name@;
        let step = skipelem_from(path, i, name);
        let nx = match step {
            None => {
                break;
            },
            Some(nx) => nx,
        };
        let ghost sidx = skip_slashes(path@, i as int);
        let ghost cur = cache.inode@[ip as int].inum as int;
        let ghost ch = *cache;
        proof {
            lemma_step_advances(path@, i as int);
            lemma_iblock_lt_meta(d0, cur);
            assert(skipelem_effect(path@, i as int, n_before, name@, step));
            assert(step == Some(nx));
            assert(sidx < path@.len());
            assert(path@.len() == path.len());
            assert(0 <= after_elem(path@, sidx) <= path@.len());
            assert(nx == after_elem(path@, sidx));
        }
        let locked = ilock(cache, disk, ip);
        proof {
            lemma_loaded(cache.inode@[ip as int], d0, cur);
            let w = choose|w: int| 0 <= w < NINODE && (#[trigger] ch.inode@[w]).ref_count == 0;
            assert(cache.inode@[w].ref_count == 0);
        }
        if cache.inode[ip].type_ != T_DIR {
            iunlockput(cache, disk, ip);
            return None;
        }
        if parent && nx == path.len() {
            iunlock(cache, ip);
            proof {
                assert(final_elem(path@, i as int) == sidx);
            }
            return Some(ip);
        }
        let key = name_until_nul(name);
        proof {
            lemma_elem_key(path@, i as int, n_before, name@, step);
        }
        let ghost c1 = *cache;
        let found = dirlookup(cache, disk, ip, key.as_slice());
        match found {
            None => {
                iunlockput(cache, disk, ip);
                return None;
            },
            Some((nxt, off)) => {
                let ghost c2 = *cache;
                proof {
                    let c = disk_dir(d0, cur);
                    lemma_first_entry_unique(c, key@, off as int / 16);
                    assert(has_entry(c, key@));
                    assert(walk(d0, cur, path@, i as int, parent) == walk(d0, lookup_in(c, key@), path@, nx as int, parent));
                    assert(walk_ok(d0, lookup_in(c, key@), path@, nx as int, parent));
                    assert(c2.inode@[nxt as int].inum == lookup_in(c, key@));
                }
                iunlockput(cache, disk, ip);
                proof {
                    lemma_after_step(c00, ch, c1, c2, *cache, ip as int, nxt as int, d0, dev0, c2.inode@[nxt as int].inum);
                }
                ip = nxt;
                i = nx;
            },
        }
    }
    if parent {
        iput(cache, disk, ip);
        return None;
    }
    Some(ip)
}

/// Looks up the inode `path` names, from the root when it starts with a
/// slash and from the current directory `cwd` otherwise.  Returns the
/// cache entry of the inode, with a reference taken and not locked.
pub fn namei(cache: &mut ICache, disk: &mut Disk, cwd: usize, path: &[u8]) -> (r: Option<usize>)
    requires
        old(disk).wf(),
        walk_pre(*old(cache), old(disk)@, cwd, path@, false),
    ensures
        final(disk)@ == old(disk)@,
        final(disk).wf(),
        final(cache).wf(),
        none_busy(*final(cache)),
        coherent(*final(cache), old(disk)@),
        r is None <==> walk(old(disk)@, start_inum(*old(cache), cwd, path@), path@, 0, false) is None,
        r is Some ==> ({
            let idx = r->0;
            &&& idx < NINODE
            &&& final(cache).inode@[idx as int].inum == walk(
                old(disk)@,
                start_inum(*old(cache), cwd, path@),
                path@,
                0,
                false,
            )->0
            &&& final(cache).inode@[idx as int].dev == start_dev(*old(cache), cwd, path@)
        }),
        forall|j: int|
            0 <= j < NINODE ==> #[trigger] final(cache).inode@[j].ref_count == old(cache).inode@[j].ref_count + (if r
                == Some(j as usize) { 1int } else { 0int }),
{
    let mut name: Vec<u8> = vec![0u8; DIRSIZ];
    namex(cache, disk, cwd, path, false, name.as_mut_slice())
}

/// Looks up the directory that holds the last element of `path`, from
/// the root when it starts with a slash and from the current directory
/// `cwd` otherwise, and copies that element into `name`.  Returns the
/// cache entry of the directory, with a reference taken and not locked;
/// `None` when the path has no element.
pub fn nameiparent(cache: &mut ICache, disk: &mut Disk, cwd: usize, path: &[u8], name: &mut [u8]) -> (r: Option<usize>)
    requires
        old(disk).wf(),
        old(name)@.len() >= DIRSIZ,
        walk_pre(*old(cache), old(disk)@, cwd, path@, true),
    ensures
        final(disk)@ == old(disk)@,
        final(disk).wf(),
        final(cache).wf(),
        none_busy(*final(cache)),
        coherent(*final(cache), old(disk)@),
        final(name)@.len() == old(name)@.len(),
        r is None <==> walk(old(disk)@, start_inum(*old(cache), cwd, path@), path@, 0, true) is None,
        r is Some ==> ({
            let idx = r->0;
            let s = final_elem(path@, 0);
            let len = elem_len(path@, s);
            &&& idx < NINODE
            &&& final(cache).inode@[idx as int].inum == walk(
                old(disk)@,
                start_inum(*old(cache), cwd, path@),
                path@,
                0,
                true,
            )->0
            &&& final(cache).inode@[idx as int].dev == start_dev(*old(cache), cwd, path@)
            &&& final(name)@.subrange(0, len) == elem_name(path@, s)
            &&& len < DIRSIZ ==> final(name)@[len] == 0
        }),
        forall|j: int|
            0 <= j < NINODE ==> #[trigger] final(cache).inode@[j].ref_count == old(cache).inode@[j].ref_count + (if r
                == Some(j as usize) { 1int } else { 0int }),
{
    namex(cache, disk, cwd, path, true, name)
}

} // verus!
