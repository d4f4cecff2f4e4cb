//! Open files: the file table, and reading, writing and examining the
//! file behind an open-file entry.
use vstd::prelude::*;
use crate::disk::{Disk, disk_superblock};
use crate::fs::{
    Inode, Stat, T_DEV, Devsw, Rw, readi, writei, stati, fs_valid, file_blocks_ok, file_range, file_byte, read_len,
    written_byte, fits, lemma_fits_sub, inode_written, write_changes, is_bitmap_block, block_addr,
};
use crate::fs_layout::{MAXFILE, NDIRECT, iblock_spec};
use crate::log::LOGSIZE;
use crate::icache::{ICache, NINODE, ilock, iunlock, is_busy, is_valid};

verus! {

/// Number of entries in the file table.
pub const NFILE: usize = 100;

/// What an open file refers to.
#[derive(Clone, Copy, PartialEq, Eq, Structural, Debug)]
pub enum FileType {
    FdNone,
    FdPipe,
    FdInode,
}

/// A pipe; pipes are handled outside this library, and an open file
/// refers to one by index.
pub struct Pipe {
    pub id: usize,
}

/// An entry of the file table.
pub struct File {
    pub file_type: FileType,
    pub ref_count: i32,
    pub readable: bool,
    pub writable: bool,
    /// The pipe, for a pipe.
    pub pipe: Option<usize>,
    /// The inode's cache entry, for an inode.
    pub ip: Option<usize>,
    /// Offset of the next read or write.
    pub off: u32,
}

/// The file table.
pub struct FTable {
    pub file: Vec<File>,
}

impl FTable {
    /// The table has its `NFILE` entries and no reference count is negative.
    pub open spec fn wf(&self) -> bool {
        &&& self.file@.len() == NFILE
        &&& forall|i: int| 0 <= i < NFILE ==> (#[trigger] self.file@[i]).ref_count >= 0
    }
}

/// A table of unused entries.
pub fn fileinit() -> (r: FTable)
    ensures
        r.wf(),
        forall|i: int| 0 <= i < NFILE ==> (#[trigger] r.file@[i]).ref_count == 0 && r.file@[i].file_type
            == FileType::FdNone,
{
    let mut v: Vec<File> = Vec::new();
    let mut k: usize = 0;
    while k < NFILE
        invariant
            k <= NFILE,
            v@.len() == k,
            forall|i: int| 0 <= i < k ==> (#[trigger] v@[i]).ref_count == 0 && v@[i].file_type == FileType::FdNone,
        decreases NFILE - k,
    {
        v.push(File { file_type: FileType::FdNone, ref_count: 0, readable: false, writable: false, pipe: None, ip: None, off: 0 });
        k += 1;
    }
    FTable { file: v }
}

/// Takes the first unused entry of the table, giving it one reference;
/// `None` when every entry is in use.
pub fn filealloc(ft: &mut FTable) -> (r: Option<usize>)
    requires
        old(ft).wf(),
    ensures
        final(ft).wf(),
        r is None ==> final(ft).file@ == old(ft).file@ && forall|i: int|
            0 <= i < NFILE ==> (#[trigger] old(ft).file@[i]).ref_count != 0,
        r is Some ==> ({
            let i = r->0 as int;
            &&& 0 <= i < NFILE
            &&& old(ft).file@[i].ref_count == 0
            &&& forall|j: int| 0 <= j < i ==> (#[trigger] old(ft).file@[j]).ref_count != 0
            &&& final(ft).file@ == old(ft).file@.update(i, File { ref_count: 1, ..old(ft).file@[i] })
        }),
{
    let mut i: usize = 0;
    while i < NFILE
        invariant
            ft.wf(),
            ft.file@ == old(ft).file@,
            i <= NFILE,
            forall|j: int| 0 <= j < i ==> (#[trigger] ft.file@[j]).ref_count != 0,
        decreases NFILE - i,
    {
        if ft.file[i].ref_count == 0 {
            ft.file[i].ref_count = 1;
            return Some(i);
        }
        i += 1;
    }
    None
}

/// Takes one more reference to entry `i`, which must be in use.
pub fn filedup(ft: &mut FTable, i: usize)
    requires
        old(ft).wf(),
        i < NFILE,
        old(ft).file@[i as int].ref_count >= 1,
        old(ft).file@[i as int].ref_count < i32::MAX,
    ensures
        final(ft).wf(),
        final(ft).file@ == old(ft).file@.update(
            i as int,
            File { ref_count: (old(ft).file@[i as int].ref_count + 1) as i32, ..old(ft).file@[i as int] },
        ),
{
    ft.file[i].ref_count = ft.file[i].ref_count + 1;
}

/// What closing a file leaves to be done.
#[derive(Clone, Copy, PartialEq, Eq, Structural, Debug)]
pub enum Closed {
    /// Other references remain: nothing to do.
    StillOpen,
    /// The entry was unused: nothing to do.
    Nothing,
    /// Close the pipe's end: the pipe, and whether this was its write end.
    Pipe(usize, bool),
    /// Drop the reference to the inode's cache entry, inside a transaction.
    Inode(usize),
}

/// Drops a reference to entry `i`.  When it was the last, the entry is
/// made unused and what it referred to is returned, to be released.
pub fn fileclose(ft: &mut FTable, i: usize) -> (r: Closed)
    requires
        old(ft).wf(),
        i < NFILE,
        old(ft).file@[i as int].ref_count >= 1,
    ensures
        final(ft).wf(),
        ({
            let f = old(ft).file@[i as int];
            &&& f.ref_count > 1 ==> r == Closed::StillOpen && final(ft).file@ == old(ft).file@.update(
                i as int,
                File { ref_count: (f.ref_count - 1) as i32, ..f },
            )
            &&& f.ref_count == 1 ==> final(ft).file@ == old(ft).file@.update(
                i as int,
                File { ref_count: 0, file_type: FileType::FdNone, ..f },
            ) && r == match f.file_type {
                FileType::FdPipe => Closed::Pipe(f.pipe.unwrap_or(0), f.writable),
                FileType::FdInode => Closed::Inode(f.ip.unwrap_or(0)),
                FileType::FdNone => Closed::Nothing,
            }
        }),
{
    ft.file[i].ref_count = ft.file[i].ref_count - 1;
    if ft.file[i].ref_count > 0 {
        return Closed::StillOpen;
    }
    let ty = ft.file[i].file_type;
    let pipe = ft.file[i].pipe;
    let ip = ft.file[i].ip;
    let writable = ft.file[i].writable;
    ft.file[i].file_type = FileType::FdNone;
    match ty {
        FileType::FdPipe => Closed::Pipe(
            match pipe {
                Some(p) => p,
                None => 0,
            },
            writable,
        ),
        FileType::FdInode => Closed::Inode(
            match ip {
                Some(p) => p,
                None => 0,
            },
        ),
        FileType::FdNone => Closed::Nothing,
    }
}

/// The flags of a valid, unlocked inode are back as they were once it
/// is locked and unlocked again.
proof fn lemma_lock_unlock_flags(f: i32)
    requires
        f & 2 != 0,
        f & 1 == 0,
    ensures
        (f | 3) & !1i32 == f,
{
    assert((f & 2 != 0 && f & 1 == 0) ==> ((f | 3) & !1i32 == f)) by (bit_vector);
}

/// The inode of an open inode file can be locked: it is referenced,
/// valid, unlocked, and describes a file of the file system on `disk`.
pub open spec fn file_inode_ok(ft: FTable, i: int, cache: ICache, disk: Seq<Seq<u8>>) -> bool {
    let f = ft.file@[i];
    &&& f.ip is Some
    &&& f.ip->0 < NINODE
    &&& ({
        let e = cache.inode@[f.ip->0 as int];
        &&& e.ref_count >= 1
        &&& is_valid(e)
        &&& !is_busy(e)
        &&& fs_valid(disk)
        &&& file_blocks_ok(disk, e.addrs@)
        &&& e.size <= MAXFILE * 512
        &&& e.inum < disk_superblock(disk).ninodes
    })
}

/// Copies the status of the inode behind entry `i` into `st` and returns
/// 0; -1, changing nothing, when the entry is not an inode file.
pub fn filestat(ft: &FTable, i: usize, cache: &mut ICache, disk: &Disk, st: &mut Stat) -> (r: i32)
    requires
        ft.wf(),
        old(cache).wf(),
        disk.wf(),
        i < NFILE,
        ft.file@[i as int].file_type == FileType::FdInode ==> file_inode_ok(*ft, i as int, *old(cache), disk@),
    ensures
        final(cache).wf(),
        ft.file@[i as int].file_type != FileType::FdInode ==> r == -1 && *final(st) == *old(st) && final(cache).inode@
            == old(cache).inode@,
        ft.file@[i as int].file_type == FileType::FdInode ==> ({
            let e = old(cache).inode@[ft.file@[i as int].ip->0 as int];
            &&& r == 0
            &&& final(cache).inode@ == old(cache).inode@
            &&& final(st).dev == e.dev as i32 && final(st).ino == e.inum && final(st).type_ == e.type_
            &&& final(st).nlink == e.nlink && final(st).size == e.size && final(st).mode == e.mode
            &&& final(st).ownerid == e.ownerid && final(st).groupid == e.groupid
        }),
{
    if ft.file[i].file_type == FileType::FdInode {
        let ip = match ft.file[i].ip {
            Some(p) => p,
            None => 0,
        };
        let ghost e = cache.inode@[ip as int];
        ilock(cache, disk, ip);
        stati(&cache.inode[ip], st);
        iunlock(cache, ip);
        proof {
            lemma_lock_unlock_flags(e.flags);
            assert(cache.inode@[ip as int] == e);
            assert(cache.inode@ =~= old(cache).inode@);
        }
        return 0;
    }
    -1
}

/// What a read or write of an open file comes to.
#[derive(Clone, Copy, PartialEq, Eq, Structural, Debug)]
pub enum Io {
    /// The transfer is done: the byte count, or -1 on failure.
    Done(i32),
    /// The file is a pipe: the pipe code must do the transfer.
    Pipe(usize),
    /// The inode is a device: its driver must do the transfer.  A read's
    /// count goes to `fileread_dev_done`; a write goes to the driver in
    /// chunks, the first of `dev_chunk(n, 0)` bytes, each driver result
    /// reported to `filewrite_dev_step`.
    Device(usize),
}

/// Reads up to `n` bytes from entry `i` at its offset into the front of
/// `dst`, advancing the offset by the count read.  A file not open for
/// reading fails; a pipe, or a device inode, is left to its code.
pub fn fileread(
    ft: &mut FTable,
    i: usize,
    cache: &mut ICache,
    disk: &mut Disk,
    devsw: &Vec<Devsw>,
    dst: &mut Vec<u8>,
    n: i32,
) -> (r: Io)
    requires
        old(ft).wf(),
        old(cache).wf(),
        old(disk).wf(),
        i < NFILE,
        old(ft).file@[i as int].readable ==> old(ft).file@[i as int].file_type != FileType::FdNone,
        old(ft).file@[i as int].readable && old(ft).file@[i as int].file_type == FileType::FdPipe ==> old(ft).file@[i as int].pipe is Some,
        old(ft).file@[i as int].readable && old(ft).file@[i as int].file_type == FileType::FdInode ==> ({
            let f = old(ft).file@[i as int];
            &&& file_inode_ok(*old(ft), i as int, *old(cache), old(disk)@)
            &&& ({
                let e = old(cache).inode@[f.ip->0 as int];
                let len = read_len(e.size as int, f.off as int, (n as u32) as int);
                e.type_ != T_DEV && f.off <= e.size && f.off + (n as u32) <= u32::MAX ==> old(dst)@.len() >= len && (len
                    > 0 ==> fits(old(disk)@, e.addrs@, f.off as int / 512, (f.off + len + 511) / 512))
            })
        }),
    ensures
        final(ft).wf(),
        final(cache).wf(),
        final(disk).wf(),
        ({
            let f = old(ft).file@[i as int];
            &&& !f.readable ==> r == Io::Done(-1i32) && final(ft).file@ == old(ft).file@ && final(disk)@ == old(disk)@
                && final(dst)@ == old(dst)@ && final(cache).inode@ == old(cache).inode@
            &&& f.readable && f.file_type == FileType::FdPipe ==> r == Io::Pipe(f.pipe->0) && final(ft).file@ == old(
                ft,
            ).file@ && final(disk)@ == old(disk)@ && final(dst)@ == old(dst)@ && final(cache).inode@ == old(cache).inode@
            &&& f.readable && f.file_type == FileType::FdInode ==> ({
                let ip = f.ip->0 as int;
                let e = old(cache).inode@[ip];
                let nn = (n as u32) as int;
                let ok = e.type_ != T_DEV && f.off <= e.size && f.off + nn <= u32::MAX;
                let len = read_len(e.size as int, f.off as int, nn);
                &&& e.type_ == T_DEV ==> final(disk)@ == old(disk)@ && final(dst)@ == old(dst)@ && final(ft).file@
                    == old(ft).file@ && (if 0 <= e.major < crate::fs::NDEV && e.major < devsw@.len()
                    && devsw@[e.major as int].read {
                    r == Io::Device(e.major as usize)
                } else {
                    r == Io::Done(-1i32)
                })
                &&& e.type_ != T_DEV && !ok ==> r == Io::Done(-1i32) && final(disk)@ == old(disk)@ && final(dst)@ == old(
                    dst,
                )@ && final(ft).file@ == old(ft).file@
                &&& ok ==> r == Io::Done(len as i32) && final(dst)@.subrange(0, len) == file_range(
                    old(disk)@,
                    e.addrs@,
                    f.off as int,
                    len,
                ) && final(ft).file@ == old(ft).file@.update(i as int, File { off: (f.off + len) as u32, ..f })
                &&& ok ==> final(dst)@.len() == old(dst)@.len() && forall|k: int|
                    len <= k < old(dst)@.len() ==> #[trigger] final(dst)@[k] == old(dst)@[k]
                &&& forall|p: int| 0 <= p < MAXFILE * 512 ==> #[trigger] file_byte(
                    final(disk)@,
                    final(cache).inode@[ip].addrs@,
                    p,
                ) == file_byte(old(disk)@, e.addrs@, p)
                &&& file_inode_ok(*final(ft), i as int, *final(cache), final(disk)@)
                &&& final(cache).inode@[ip].size == e.size
                &&& forall|j: int| 0 <= j < NINODE && j != ip ==> #[trigger] final(cache).inode@[j]
                    == old(cache).inode@[j]
            })
        }),
{
    if !ft.file[i].readable {
        return Io::Done(-1);
    }
    if ft.file[i].file_type == FileType::FdPipe {
        return Io::Pipe(
            match ft.file[i].pipe {
                Some(p) => p,
                None => 0,
            },
        );
    }
    let ip = match ft.file[i].ip {
        Some(p) => p,
        None => 0,
    };
    let off = ft.file[i].off;
    let ghost e = cache.inode@[ip as int];
    let ghost d0 = disk@;
    ilock(cache, disk, ip);
    proof {
        lemma_lock_unlock_flags(e.flags);
    }
    let rr = readi(disk, &mut cache.inode[ip], devsw, dst, off, n as u32);
    let res = match rr {
        Rw::Done(v) => {
            if v > 0 {
                ft.file[i].off = ft.file[i].off + (v as u32);
            }
            Io::Done(v)
        },
        Rw::Device(m) => Io::Device(m),
    };
    iunlock(cache, ip);
    proof {
        assert(cache.inode@[ip as int].flags == e.flags);
        assert forall|j: int| 0 <= j < NINODE && j != ip implies #[trigger] cache.inode@[j] == old(cache).inode@[j] by {}
    }
    res
}

/// Most bytes one transaction of `filewrite` writes: the log's blocks
/// less the inode, the indirect block, an allocation block and two blocks
/// of slop for unaligned writes, halved, in bytes: ((LOGSIZE - 4) / 2) * 512.
pub const MAXWRITE: i32 = 1536;

/// Bytes `filewrite` writes of `n` at offset `off`: all of them when they
/// fit in a file, else as many whole `MAXWRITE` chunks as fit.
pub open spec fn write_len(off: int, n: int) -> int {
    if off + n <= MAXFILE * 512 {
        n
    } else {
        ((MAXFILE * 512 - off) / MAXWRITE as int) * MAXWRITE as int
    }
}

/// A copy of `len` bytes of `src` from `start`.
fn copy_range(src: &Vec<u8>, start: usize, len: usize) -> (r: Vec<u8>)
    requires
        start + len <= src.len(),
    ensures
        r@ == src@.subrange(start as int, start + len),
{
    let mut r: Vec<u8> = Vec::new();
    let mut k: usize = 0;
    while k < len
        invariant
            start + len <= src.len(),
            k <= len,
            r@ == src@.subrange(start as int, start + k),
        decreases len - k,
    {
        r.push(src[start + k]);
        k += 1;
        proof {
            assert(r@ =~= src@.subrange(start as int, start + k));
        }
    }
    r
}

/// Writing a chunk after what was written extends what was written.
proof fn lemma_chunk_compose(
    d0: Seq<Seq<u8>>,
    a0: Seq<u32>,
    d1: Seq<Seq<u8>>,
    a1: Seq<u32>,
    d2: Seq<Seq<u8>>,
    a2: Seq<u32>,
    src: Seq<u8>,
    chunk: Seq<u8>,
    off: int,
    w: int,
    n1: int,
)
    requires
        0 <= w,
        0 <= n1,
        w + n1 <= src.len(),
        chunk == src.subrange(w, w + n1),
        forall|p: int| 0 <= p < MAXFILE * 512 ==> #[trigger] file_byte(d1, a1, p) == written_byte(d0, a0, src, off, w, p),
        forall|p: int|
            0 <= p < MAXFILE * 512 ==> #[trigger] file_byte(d2, a2, p) == written_byte(d1, a1, chunk, off + w, n1, p),
    ensures
        forall|p: int|
            0 <= p < MAXFILE * 512 ==> #[trigger] file_byte(d2, a2, p) == written_byte(d0, a0, src, off, w + n1, p),
{
    assert forall|p: int| 0 <= p < MAXFILE * 512 implies #[trigger] file_byte(d2, a2, p) == written_byte(
        d0,
        a0,
        src,
        off,
        w + n1,
        p,
    ) by {
        assert(file_byte(d2, a2, p) == written_byte(d1, a1, chunk, off + w, n1, p));
        if !(off + w <= p < off + w + n1) {
            assert(file_byte(d1, a1, p) == written_byte(d0, a0, src, off, w, p));
        }
    }
}

/// A chunk of `filewrite` (at most `MAXWRITE` bytes) changes few blocks.
/// Besides bitmap blocks, writing it with `writei` changes only the inode
/// block, the indirect block and the blocks mapped for four consecutive
/// blocks of the file: at most six blocks, within the `LOGSIZE` blocks of
/// one transaction.
pub proof fn lemma_chunk_changes(d0: Seq<Seq<u8>>, d: Seq<Seq<u8>>, a: Seq<u32>, ib: int, off: int, n: int)
    requires
        write_changes(d0, d, a, ib, off / 512, (off + n + 511) / 512),
        0 <= off,
        0 < n <= MAXWRITE,
    ensures
        write_changes(d0, d, a, ib, off / 512, off / 512 + 4),
        4 + 2 <= LOGSIZE,
{
    let q = off / 512;
    vstd::arithmetic::div_mod::lemma_fundamental_div_mod(off, 512);
    assert(off + n + 511 < 512 * (q + 5)) by (nonlinear_arith)
        requires
            off == 512 * q + off % 512,
            0 <= off % 512 < 512,
            n <= 1536,
    ;
    vstd::arithmetic::div_mod::lemma_div_is_ordered(off + n + 511, 512 * (q + 5) - 1, 512);
    assert((512 * (q + 5) - 1) / 512 == q + 4) by (nonlinear_arith)
        requires
            q >= 0,
    ;
    let hi = (off + n + 511) / 512;
    assert forall|b: int| 0 <= b < d0.len() && #[trigger] d[b] != d0[b] implies is_bitmap_block(d0, b) || b == ib || (b
        != 0 && b == a[NDIRECT as int]) || (b != 0 && exists|k: int| q <= k < q + 4 && #[trigger] block_addr(d, a, k)
        == b) by {
        if !is_bitmap_block(d0, b) && b != ib && !(b != 0 && b == a[NDIRECT as int]) {
            let k = choose|k: int| q <= k < hi && #[trigger] block_addr(d, a, k) == b;
            assert(block_addr(d, a, k) == b);
        }
    }
}

/// The file block after the last one `filewrite` writes of `n` bytes at
/// `off`.
pub open spec fn write_end(off: int, n: int) -> int {
    (off + write_len(off, n) + 511) / 512
}

/// A chunk `filewrite` writes at `off + w`, when it fits in the file,
/// lies within the blocks of the whole write, which lie within a file.
proof fn lemma_chunk_range(off: int, n: int, w: int, n1: int)
    requires
        0 <= off <= MAXFILE * 512,
        0 <= w < n,
        w % (MAXWRITE as int) == 0,
        n1 == if n - w < MAXWRITE { n - w } else { MAXWRITE as int },
        off + w + n1 <= MAXFILE * 512,
    ensures
        off / 512 <= (off + w) / 512,
        (off + w + n1 + 511) / 512 <= write_end(off, n) <= MAXFILE,
{
    lemma_chunk_in_write(off, n, w, n1);
    lemma_write_len_le(off, n);
    vstd::arithmetic::div_mod::lemma_div_is_ordered(off, off + w, 512);
    vstd::arithmetic::div_mod::lemma_div_is_ordered(off + w + n1 + 511, off + write_len(off, n) + 511, 512);
    vstd::arithmetic::div_mod::lemma_div_is_ordered(off + write_len(off, n) + 511, MAXFILE * 512 + 511, 512);
}

/// `filewrite` writes no more than the file can take past `off`.
proof fn lemma_write_len_le(off: int, n: int)
    requires
        0 <= off <= MAXFILE * 512,
        0 < n,
    ensures
        0 <= write_len(off, n) <= MAXFILE * 512 - off,
{
    let m = MAXWRITE as int;
    let l = MAXFILE * 512 - off;
    if off + n > MAXFILE * 512 {
        assert((l / m) * m <= l && 0 <= (l / m) * m) by (nonlinear_arith)
            requires
                m > 0,
                l >= 0,
        ;
    }
}

/// A chunk that fits in the file lies within what `filewrite` writes.
proof fn lemma_chunk_in_write(off: int, n: int, w: int, n1: int)
    requires
        0 <= off,
        0 <= w < n,
        w % (MAXWRITE as int) == 0,
        n1 == if n - w < MAXWRITE { n - w } else { MAXWRITE as int },
        off + w + n1 <= MAXFILE * 512,
    ensures
        w + n1 <= write_len(off, n),
{
    let m = MAXWRITE as int;
    let l = MAXFILE * 512 - off;
    if off + n > MAXFILE * 512 {
        assert(n1 == m);
        assert(w + m <= (l / m) * m) by (nonlinear_arith)
            requires
                w % m == 0,
                w + m <= l,
                m > 0,
                w >= 0,
        {
            assert((w + m) % m == 0) by {
                vstd::arithmetic::div_mod::lemma_mod_add_multiples_vanish(w, m);
            }
            vstd::arithmetic::div_mod::lemma_fundamental_div_mod(w + m, m);
            vstd::arithmetic::div_mod::lemma_div_is_ordered(w + m, l, m);
            vstd::arithmetic::mul::lemma_mul_inequality((w + m) / m, l / m, m);
        }
    }
}

/// When whole chunks written so far fit and the next does not, they are
/// all `filewrite` writes.
proof fn lemma_write_len_stop(off: int, n: int, w: int)
    requires
        0 <= off,
        0 <= w < n,
        w % (MAXWRITE as int) == 0,
        off + w <= MAXFILE * 512,
        off + w + (if n - w < MAXWRITE { n - w } else { MAXWRITE as int }) > MAXFILE * 512,
    ensures
        write_len(off, n) == w,
{
    let m = MAXWRITE as int;
    let l = MAXFILE * 512 - off;
    assert(m == 1536);
    assert(w <= l < w + m);
    assert(l / m == w / m) by (nonlinear_arith)
        requires
            w <= l < w + m,
            w % m == 0,
            m > 0,
            w >= 0,
    ;
    assert((w / m) * m == w) by (nonlinear_arith)
        requires
            w % m == 0,
            m > 0,
    ;
}

/// Writes the first `n` bytes of `src` to entry `i` at its offset,
/// advancing the offset by the count written.  An inode file is written
/// in chunks of at most `MAXWRITE` bytes, one transaction each; the write
/// stops at the first chunk the file cannot take.  Returns `n`, or -1 when
/// not all of it was written.  A file not open for writing fails; a pipe,
/// or a device inode, is left to its code.
#[verifier::rlimit(60)]
pub fn filewrite(
    ft: &mut FTable,
    i: usize,
    cache: &mut ICache,
    disk: &mut Disk,
    devsw: &Vec<Devsw>,
    src: &Vec<u8>,
    n: i32,
) -> (r: Io)
    requires
        old(ft).wf(),
        old(cache).wf(),
        old(disk).wf(),
        i < NFILE,
        old(ft).file@[i as int].writable ==> old(ft).file@[i as int].file_type != FileType::FdNone,
        old(ft).file@[i as int].writable && old(ft).file@[i as int].file_type == FileType::FdPipe ==> old(ft).file@[i as int].pipe is Some,
        old(ft).file@[i as int].writable && old(ft).file@[i as int].file_type == FileType::FdInode ==> file_inode_ok(
            *old(ft),
            i as int,
            *old(cache),
            old(disk)@,
        ) && src@.len() >= n && ({
            let f = old(ft).file@[i as int];
            let e = old(cache).inode@[f.ip->0 as int];
            e.type_ != T_DEV && n > 0 && f.off <= e.size ==> fits(
                old(disk)@,
                e.addrs@,
                f.off as int / 512,
                write_end(f.off as int, n as int),
            )
        }),
    ensures
        final(ft).wf(),
        final(cache).wf(),
        final(disk).wf(),
        ({
            let f = old(ft).file@[i as int];
            &&& !f.writable ==> r == Io::Done(-1i32) && final(ft).file@ == old(ft).file@ && final(disk)@ == old(disk)@
                && final(cache).inode@ == old(cache).inode@
            &&& f.writable && f.file_type == FileType::FdPipe ==> r == Io::Pipe(f.pipe->0) && final(ft).file@ == old(
                ft,
            ).file@ && final(disk)@ == old(disk)@ && final(cache).inode@ == old(cache).inode@
            &&& f.writable && f.file_type == FileType::FdInode ==> ({
                let ip = f.ip->0 as int;
                let e = old(cache).inode@[ip];
                let w = if n <= 0 || f.off > e.size { 0 } else { write_len(f.off as int, n as int) };
                &&& e.type_ == T_DEV && n > 0 ==> final(disk)@ == old(disk)@ && final(ft).file@ == old(ft).file@ && (if 0
                    <= e.major < crate::fs::NDEV && e.major < devsw@.len() && devsw@[e.major as int].write {
                    r == Io::Device(e.major as usize)
                } else {
                    r == Io::Done(-1i32)
                })
                &&& e.type_ != T_DEV || n <= 0 ==> ({
                    &&& r == Io::Done(if w == n { n } else { -1i32 })
                    &&& forall|p: int| 0 <= p < MAXFILE * 512 ==> #[trigger] file_byte(
                        final(disk)@,
                        final(cache).inode@[ip].addrs@,
                        p,
                    ) == written_byte(old(disk)@, e.addrs@, src@, f.off as int, w, p)
                    &&& final(ft).file@ == old(ft).file@.update(i as int, File { off: (f.off + w) as u32, ..f })
                    &&& final(cache).inode@[ip].size == if w > 0 && f.off + w > e.size { f.off + w } else { e.size as int }
                })
                &&& file_inode_ok(*final(ft), i as int, *final(cache), final(disk)@)
                &&& forall|j: int| 0 <= j < NINODE && j != ip ==> #[trigger] final(cache).inode@[j]
                    == old(cache).inode@[j]
            })
        }),
{
    if !ft.file[i].writable {
        return Io::Done(-1);
    }
    if ft.file[i].file_type == FileType::FdPipe {
        return Io::Pipe(
            match ft.file[i].pipe {
                Some(p) => p,
                None => 0,
            },
        );
    }
    let ip = match ft.file[i].ip {
        Some(p) => p,
        None => 0,
    };
    let ghost e = cache.inode@[ip as int];
    let ghost d0 = disk@;
    let off0 = ft.file[i].off;
    let ghost f0 = ft.file@[i as int];
    if n > 0 && cache.inode[ip].type_ == T_DEV {
        let fl = cache.inode[ip].flags;
        ilock(cache, disk, ip);
        let rr = writei(disk, &mut cache.inode[ip], devsw, src, off0, n as u32);
        iunlock(cache, ip);
        proof {
            lemma_lock_unlock_flags(fl);
            assert(cache.inode@ =~= old(cache).inode@);
        }
        return match rr {
            Rw::Done(v) => Io::Done(v),
            Rw::Device(m) => Io::Device(m),
        };
    }
    let mut off: u32 = off0;
    let mut w: i32 = 0;
    let mut failed = false;
    while w < n && !failed
        invariant
            ft.file@ == old(ft).file@,
            cache.wf(),
            disk.wf(),
            i < NFILE,
            ip < NINODE,
            f0 == old(ft).file@[i as int],
            f0.ip == Some(ip),
            e == old(cache).inode@[ip as int],
            n > 0 ==> e.type_ != T_DEV,
            d0 == old(disk)@,
            off0 == f0.off,
            src@.len() >= n,
            0 <= w,
            n >= 0 ==> w <= n,
            n <= 0 ==> w == 0,
            w % MAXWRITE == 0 || w == n,
            file_inode_ok(*old(ft), i as int, *cache, disk@),
            forall|j: int| 0 <= j < NINODE && j != ip ==> #[trigger] cache.inode@[j] == old(cache).inode@[j],
            off == off0 + w,
            !failed && off0 <= e.size ==> off0 + w <= MAXFILE * 512,
            w > 0 ==> off0 <= e.size,
            failed ==> w < n,
            failed ==> (w == 0 && off0 > e.size) || (off0 <= e.size && off0 + w <= MAXFILE * 512 && off0 + w + (if n
                - w < MAXWRITE { n - w } else { MAXWRITE as int }) > MAXFILE * 512),
            forall|p: int| 0 <= p < MAXFILE * 512 ==> #[trigger] file_byte(disk@, cache.inode@[ip as int].addrs@, p)
                == written_byte(d0, e.addrs@, src@, off0 as int, w as int, p),
            cache.inode@[ip as int].size == if w > 0 && off0 + w > e.size { off0 + w } else { e.size as int },
            cache.inode@[ip as int].type_ == e.type_,
            n > 0 && off0 <= e.size ==> fits(
                disk@,
                cache.inode@[ip as int].addrs@,
                off0 as int / 512,
                write_end(off0 as int, n as int),
            ),
        decreases n - w, if failed { 0int } else { 1int },
    {
        let mut n1: i32 = n - w;
        if n1 > MAXWRITE {
            n1 = MAXWRITE;
        }
        let chunk = copy_range(src, w as usize, n1 as usize);
        let ghost d1 = disk@;
        let ghost a1 = cache.inode@[ip as int].addrs@;
        proof {
            if off <= cache.inode@[ip as int].size && off + n1 <= MAXFILE * 512 {
                lemma_chunk_range(off0 as int, n as int, w as int, n1 as int);
                lemma_fits_sub(d1, a1, off0 as int / 512, write_end(off0 as int, n as int), off as int / 512, (off + n1 + 511) / 512);
            }
        }
        let v = write_chunk(cache, disk, devsw, ip, &chunk, off, n1 as u32);
        proof {
            if n > 0 && off0 <= e.size && off <= cache.inode@[ip as int].size && off + n1 <= MAXFILE * 512 {
                lemma_chunk_range(off0 as int, n as int, w as int, n1 as int);
                assert(fits(d1, a1, off0 as int / 512, write_end(off0 as int, n as int)));
            }
        }
        if v < 0 {
            failed = true;
        } else {
            proof {
                lemma_chunk_compose(
                    d0,
                    e.addrs@,
                    d1,
                    a1,
                    disk@,
                    cache.inode@[ip as int].addrs@,
                    src@,
                    chunk@,
                    off0 as int,
                    w as int,
                    n1 as int,
                );
            }
            w = w + v;
            off = off + (v as u32);
        }
    }
    proof {
        if failed && !(w == 0 && off0 > e.size) {
            lemma_write_len_stop(off0 as int, n as int, w as int);
        }
    }
    ft.file[i].off = off;
    proof {
        assert(ft.file@ =~= old(ft).file@.update(i as int, File { off: (off0 + w) as u32, ..f0 }));
        assert(file_inode_ok(*ft, i as int, *cache, disk@));
        if n > 0 && !failed {
            assert(w == n);
            assert(write_len(off0 as int, n as int) == n);
        }
        let ws = if n <= 0 || f0.off > e.size { 0 } else { write_len(f0.off as int, n as int) };
        assert(ws == w);
    }
    if w == n {
        Io::Done(n)
    } else {
        Io::Done(-1)
    }
}

/// Writes one chunk of an inode file under the inode's lock: `n1` bytes
/// of `src` at `off`, as `writei` does.
fn write_chunk(cache: &mut ICache, disk: &mut Disk, devsw: &Vec<Devsw>, ip: usize, src: &Vec<u8>, off: u32, n1: u32) -> (v: i32)
    requires
        old(cache).wf(),
        old(disk).wf(),
        ip < NINODE,
        n1 > 0,
        src@.len() >= n1,
        ({
            let e = old(cache).inode@[ip as int];
            &&& e.ref_count >= 1
            &&& is_valid(e)
            &&& !is_busy(e)
            &&& fs_valid(old(disk)@)
            &&& file_blocks_ok(old(disk)@, e.addrs@)
            &&& e.size <= MAXFILE * 512
            &&& e.inum < disk_superblock(old(disk)@).ninodes
            &&& off <= e.size && off + n1 <= MAXFILE * 512 ==> fits(
                old(disk)@,
                e.addrs@,
                off as int / 512,
                (off + n1 + 511) / 512,
            )
            &&& e.type_ != T_DEV
        }),
    ensures
        final(cache).wf(),
        final(disk).wf(),
        forall|j: int| 0 <= j < NINODE && j != ip ==> #[trigger] final(cache).inode@[j] == old(cache).inode@[j],
        ({
            let e = old(cache).inode@[ip as int];
            let f = final(cache).inode@[ip as int];
            let in_file = off <= e.size && off + n1 <= MAXFILE * 512;
            &&& f.ref_count == e.ref_count && f.flags == e.flags && f.inum == e.inum && f.type_ == e.type_
            &&& fs_valid(final(disk)@)
            &&& disk_superblock(final(disk)@) == disk_superblock(old(disk)@)
            &&& file_blocks_ok(final(disk)@, f.addrs@)
            &&& f.size <= MAXFILE * 512
            &&& forall|lo: int, h: int|
                0 <= lo <= off as int / 512 && (off + n1 + 511) / 512 <= h <= MAXFILE && #[trigger] fits(
                    old(disk)@,
                    e.addrs@,
                    lo,
                    h,
                ) ==> fits(final(disk)@, f.addrs@, lo, h)
            &&& in_file ==> v == n1 && f.size == (if off + n1 > e.size { off + n1 } else { e.size as int }) && forall|p: int|
                0 <= p < MAXFILE * 512 ==> #[trigger] file_byte(final(disk)@, f.addrs@, p) == written_byte(
                    old(disk)@,
                    e.addrs@,
                    src@,
                    off as int,
                    n1 as int,
                    p,
                )
            &&& !in_file ==> v == -1 && final(disk)@ == old(disk)@ && f.size == e.size && f.addrs@ == e.addrs@
        }),
{
    let ghost e = cache.inode@[ip as int];
    let ghost d0 = disk@;
    ilock(cache, disk, ip);
    proof {
        lemma_lock_unlock_flags(e.flags);
    }
    let rr = writei(disk, &mut cache.inode[ip], devsw, src, off, n1);
    iunlock(cache, ip);
    match rr {
        Rw::Done(v) => v,
        Rw::Device(m) => -1,
    }
}

/// Size of the next chunk of a device write of `n` bytes of which `w`
/// are written: at most `MAXWRITE` bytes.
pub open spec fn dev_chunk(n: int, w: int) -> int {
    if n - w < MAXWRITE { n - w } else { MAXWRITE as int }
}

/// What a device write does next.
#[derive(Clone, Copy, PartialEq, Eq, Structural, Debug)]
pub enum DevWrite {
    /// Hand the driver the chunk of this many bytes starting at this byte
    /// of the source.
    Chunk(i32, i32),
    /// The write is over: `n`, or -1 when a chunk failed.
    Finished(i32),
}

/// The driver read `r` bytes for a read of device file `i`: the offset
/// advances by a positive count, and the count is the read's result.
pub fn fileread_dev_done(ft: &mut FTable, i: usize, r: i32) -> (res: i32)
    requires
        old(ft).wf(),
        i < NFILE,
        r > 0 ==> old(ft).file@[i as int].off + r <= u32::MAX,
    ensures
        final(ft).wf(),
        res == r,
        final(ft).file@ == if r > 0 {
            old(ft).file@.update(i as int, File { off: (old(ft).file@[i as int].off + r) as u32, ..old(ft).file@[i as int] })
        } else {
            old(ft).file@
        },
{
    if r > 0 {
        let f = ft.file[i].off;
        ft.file[i].off = f + r as u32;
        proof {
            assert(ft.file@ =~= old(ft).file@.update(
                i as int,
                File { off: (old(ft).file@[i as int].off + r) as u32, ..old(ft).file@[i as int] },
            ));
        }
    }
    r
}

/// The driver returned `r` for the chunk of a device write of `n` bytes
/// to file `i` that followed the `w` bytes already written: a positive
/// count advances the offset; a failure ends the write with -1; a whole
/// chunk moves on to the next chunk, or ends the write with `n` when none
/// is left.
pub fn filewrite_dev_step(ft: &mut FTable, i: usize, n: i32, w: i32, r: i32) -> (next: DevWrite)
    requires
        old(ft).wf(),
        i < NFILE,
        0 <= w < n,
        r < 0 || r == dev_chunk(n as int, w as int),
        r > 0 ==> old(ft).file@[i as int].off + r <= u32::MAX,
    ensures
        final(ft).wf(),
        final(ft).file@ == if r > 0 {
            old(ft).file@.update(i as int, File { off: (old(ft).file@[i as int].off + r) as u32, ..old(ft).file@[i as int] })
        } else {
            old(ft).file@
        },
        r < 0 ==> next == DevWrite::Finished(-1i32),
        r >= 0 && w + r == n ==> next == DevWrite::Finished(n),
        r >= 0 && w + r < n ==> next == DevWrite::Chunk((w + r) as i32, dev_chunk(n as int, w + r) as i32),
{
    fileread_dev_done(ft, i, r);
    if r < 0 {
        return DevWrite::Finished(-1);
    }
    let w1 = w + r;
    if w1 == n {
        return DevWrite::Finished(n);
    }
    let len = if n - w1 < MAXWRITE { n - w1 } else { MAXWRITE };
    DevWrite::Chunk(w1, len)
}

} // verus!
