//! Write-ahead log of file-system transactions.
//!
//! The header block at `start` lists the home block numbers of the blocks
//! held, in order, in the `size - 1` log blocks that follow it.  Commit
//! copies the logged blocks, as the cache holds them, into the log, writes
//! the header (the commit point), installs the blocks at their homes and
//! clears the header; recovery installs whatever a written header lists.  An operation done
//! on an in-memory image of the blocks is committed by `commit_op`, which
//! logs exactly the blocks the operation changed.
use vstd::prelude::*;
use crate::buf::{Buf, B_DIRTY};
use crate::disk::{Disk, readsb, disk_superblock};
use crate::fs_layout::{read_u32, write_u32, le32, BSIZE};

verus! {

/// Most blocks one transaction may log.
pub const LOGSIZE: usize = 10;
/// Most blocks one file-system operation may write.
pub const MAXOPBLOCKS: i32 = 10;
/// Device holding the root file system.
pub const ROOTDEV: i32 = 1;

/// Block numbers of the logged blocks: `n` of the `LOGSIZE` entries are used.
pub struct LogHeader {
    pub n: i32,
    pub block: Vec<i32>,
}

/// State of the log.
pub struct Log {
    pub start: i32,
    pub size: i32,
    /// How many file-system calls are executing.
    pub outstanding: i32,
    /// Nonzero while `commit` runs.
    pub committing: i32,
    pub dev: i32,
    pub lh: LogHeader,
}

/// Two's-complement reading of a 32-bit value.
pub open spec fn as_signed32(v: int) -> int {
    if v >= 0x8000_0000 {
        v - 0x1_0000_0000
    } else {
        v
    }
}

/// Count field of the header stored in `blk`.
pub open spec fn header_n(blk: Seq<u8>) -> int {
    as_signed32(le32(blk, 0))
}

/// Entry `i` of the header stored in `blk`.
pub open spec fn header_block(blk: Seq<u8>, i: int) -> int {
    as_signed32(le32(blk, 4 + 4 * i))
}

/// The disk after the first `k` logged blocks are copied from the log to
/// their homes, in order.
pub open spec fn installed(d: Seq<Seq<u8>>, start: int, blocks: Seq<i32>, k: nat) -> Seq<Seq<u8>>
    decreases k,
{
    if k == 0 {
        d
    } else {
        let d1 = installed(d, start, blocks, (k - 1) as nat);
        d1.update(blocks[k - 1] as int, d1[start + k])
    }
}

/// The disk `d` after the first `k` logged blocks are copied, in order,
/// from the cached image `c` of the blocks into the log.
pub open spec fn logged(d: Seq<Seq<u8>>, c: Seq<Seq<u8>>, start: int, blocks: Seq<i32>, k: nat) -> Seq<Seq<u8>>
    decreases k,
{
    if k == 0 {
        d
    } else {
        logged(d, c, start, blocks, (k - 1) as nat).update(start + k, c[blocks[k - 1] as int])
    }
}

/// The first `n` logged block numbers are distinct and all lie outside the
/// log (the header and the `n` log blocks after it).
pub open spec fn homes_apart(start: int, blocks: Seq<i32>, n: int) -> bool {
    &&& forall|i: int, j: int| 0 <= i < j < n ==> blocks[i] != blocks[j]
    &&& forall|i: int| 0 <= i < n ==> !(start <= #[trigger] blocks[i] <= start + n)
}

impl Log {
    /// The in-memory state is usable on `d`: the header has `LOGSIZE`
    /// entries of which the first `n` name existing blocks, and the log
    /// area lies on the disk.
    pub open spec fn wf_on(&self, d: Seq<Seq<u8>>) -> bool {
        &&& self.lh.block@.len() == LOGSIZE
        &&& 0 <= self.lh.n <= LOGSIZE
        &&& 0 <= self.start
        &&& self.start + LOGSIZE + 1 < d.len()
        &&& forall|i: int| 0 <= i < self.lh.n ==> 0 <= #[trigger] self.lh.block@[i] < d.len()
    }
}

/// Reads a two's-complement 32-bit value at `off`.
fn read_i32(s: &Vec<u8>, off: usize) -> (r: i32)
    requires
        off + 4 <= s.len(),
    ensures
        r == as_signed32(le32(s@, off as int)),
{
    let v = read_u32(s, off);
    if v < 0x8000_0000 {
        v as i32
    } else {
        let w: u32 = v - 0x8000_0000;
        (w as i32) - 0x4000_0000 - 0x4000_0000
    }
}

/// Writes a two's-complement 32-bit value at `off`.
fn write_i32(s: &mut Vec<u8>, off: usize, v: i32)
    requires
        off + 4 <= old(s).len(),
    ensures
        final(s)@.len() == old(s)@.len(),
        as_signed32(le32(final(s)@, off as int)) == v,
        forall|k: int|
            0 <= k < old(s)@.len() && !(off <= k < off + 4) ==> final(s)@[k] == old(s)@[k],
{
    let u: u32 = if v < 0 {
        let w: i64 = v as i64 + 0x1_0000_0000;
        w as u32
    } else {
        v as u32
    };
    write_u32(s, off, u);
}

/// Reads the header block into the in-memory header.
pub fn read_head(log: &mut Log, disk: &Disk)
    requires
        disk.wf(),
        old(log).lh.block@.len() == LOGSIZE,
        0 <= old(log).start < disk@.len(),
        0 <= header_n(disk@[old(log).start as int]) <= LOGSIZE,
    ensures
        final(log).lh.n == header_n(disk@[old(log).start as int]),
        final(log).lh.block@.len() == LOGSIZE,
        forall|i: int|
            0 <= i < final(log).lh.n ==> #[trigger] final(log).lh.block@[i] == header_block(
                disk@[old(log).start as int],
                i,
            ),
        final(log).start == old(log).start,
        final(log).size == old(log).size,
        final(log).outstanding == old(log).outstanding,
        final(log).committing == old(log).committing,
        final(log).dev == old(log).dev,
{
    let buf = disk.read_block(log.start as usize);
    assert(buf@.len() == BSIZE);
    log.lh.n = read_i32(&buf, 0);
    let mut i: usize = 0;
    while i < log.lh.n as usize
        invariant
            buf@ == disk@[log.start as int],
            buf@.len() == BSIZE,
            0 <= log.lh.n <= LOGSIZE,
            log.lh.n == header_n(buf@),
            log.lh.block@.len() == LOGSIZE,
            i <= log.lh.n,
            forall|j: int| 0 <= j < i ==> #[trigger] log.lh.block@[j] == header_block(buf@, j),
            log.start == old(log).start,
            log.size == old(log).size,
            log.outstanding == old(log).outstanding,
            log.committing == old(log).committing,
            log.dev == old(log).dev,
        decreases log.lh.n - i,
    {
        let v = read_i32(&buf, 4 + 4 * i);
        log.lh.block.set(i, v);
        i += 1;
    }
}

/// Writes the in-memory header to the header block: the count and the
/// first `n` entries.  This is the point at which a transaction commits.
pub fn write_head(log: &Log, disk: &mut Disk)
    requires
        old(disk).wf(),
        log.wf_on(old(disk)@),
    ensures
        final(disk).wf(),
        final(disk)@.len() == old(disk)@.len(),
        forall|b: int| 0 <= b < old(disk)@.len() && b != log.start ==> final(disk)@[b] == old(disk)@[b],
        final(disk)@[log.start as int].len() == BSIZE,
        header_n(final(disk)@[log.start as int]) == log.lh.n,
        forall|i: int|
            0 <= i < log.lh.n ==> header_block(final(disk)@[log.start as int], i) == #[trigger] log.lh.block@[i],
{
    let mut buf = disk.read_block(log.start as usize);
    assert(buf@.len() == BSIZE);
    write_i32(&mut buf, 0, log.lh.n);
    let mut i: usize = 0;
    while i < log.lh.n as usize
        invariant
            buf@.len() == BSIZE,
            0 <= log.lh.n <= LOGSIZE,
            log.lh.block@.len() == LOGSIZE,
            header_n(buf@) == log.lh.n,
            i <= log.lh.n,
            forall|j: int| 0 <= j < i ==> header_block(buf@, j) == #[trigger] log.lh.block@[j],
        decreases log.lh.n - i,
    {
        let ghost before = buf@;
        write_i32(&mut buf, 4 + 4 * i, log.lh.block[i]);
        proof {
            assert forall|j: int| 0 <= j < i + 1 implies header_block(buf@, j) == #[trigger] log.lh.block@[j] by {
                if j < i {
                    assert(header_block(before, j) == log.lh.block@[j]);
                    assert(buf@[4 + 4 * j] == before[4 + 4 * j]);
                    assert(buf@[4 + 4 * j + 1] == before[4 + 4 * j + 1]);
                    assert(buf@[4 + 4 * j + 2] == before[4 + 4 * j + 2]);
                    assert(buf@[4 + 4 * j + 3] == before[4 + 4 * j + 3]);
                }
            }
            assert(buf@[0] == before[0] && buf@[1] == before[1] && buf@[2] == before[2] && buf@[3] == before[3]);
        }
        i += 1;
    }
    disk.write_block(log.start as usize, buf);
}

/// Copies each logged block from the log to its home location.
pub fn install_trans(log: &Log, disk: &mut Disk)
    requires
        old(disk).wf(),
        log.wf_on(old(disk)@),
    ensures
        final(disk).wf(),
        final(disk)@ == installed(old(disk)@, log.start as int, log.lh.block@, log.lh.n as nat),
        final(disk)@.len() == old(disk)@.len(),
{
    let mut tail: usize = 0;
    while tail < log.lh.n as usize
        invariant
            disk.wf(),
            log.wf_on(old(disk)@),
            disk@.len() == old(disk)@.len(),
            tail <= log.lh.n,
            disk@ == installed(old(disk)@, log.start as int, log.lh.block@, tail as nat),
        decreases log.lh.n - tail,
    {
        let lbuf = disk.read_block(log.start as usize + tail + 1);
        let home = log.lh.block[tail];
        disk.write_block(home as usize, lbuf);
        tail += 1;
    }
}

/// Copies each logged block, as the cache `cache` holds it, into the log.
pub fn write_log(log: &Log, disk: &mut Disk, cache: &Disk)
    requires
        old(disk).wf(),
        cache.wf(),
        cache@.len() == old(disk)@.len(),
        log.wf_on(old(disk)@),
    ensures
        final(disk).wf(),
        final(disk)@ == logged(old(disk)@, cache@, log.start as int, log.lh.block@, log.lh.n as nat),
        final(disk)@.len() == old(disk)@.len(),
{
    let mut tail: usize = 0;
    while tail < log.lh.n as usize
        invariant
            disk.wf(),
            cache.wf(),
            cache@.len() == old(disk)@.len(),
            log.wf_on(old(disk)@),
            disk@.len() == old(disk)@.len(),
            tail <= log.lh.n,
            disk@ == logged(old(disk)@, cache@, log.start as int, log.lh.block@, tail as nat),
        decreases log.lh.n - tail,
    {
        let home = log.lh.block[tail];
        let from = cache.read_block(home as usize);
        disk.write_block(log.start as usize + tail + 1, from);
        tail += 1;
    }
}

/// `d1` is `d0` after committing the `n` logged blocks `blocks`, as the
/// cache `c` holds them, with the log at `start`: nothing changes when none
/// are logged; else every block but the header is as after copying the
/// cached blocks into the log and then installing them from it, and the
/// header is cleared.
pub open spec fn committed(
    d0: Seq<Seq<u8>>,
    c: Seq<Seq<u8>>,
    start: int,
    blocks: Seq<i32>,
    n: int,
    d1: Seq<Seq<u8>>,
) -> bool {
    &&& n == 0 ==> d1 == d0
    &&& n > 0 ==> ({
        let dl = logged(d0, c, start, blocks, n as nat);
        &&& d1.len() == d0.len()
        &&& header_n(d1[start]) == 0
        &&& forall|b: int| 0 <= b < d0.len() && b != start ==> d1[b] == installed(dl, start, blocks, n as nat)[b]
    })
}

/// `d1` is `d0` after recovery with the log at `start`: every block but
/// the header is as after installing the blocks the header lists, and the
/// header is cleared.
pub open spec fn recovered(d0: Seq<Seq<u8>>, start: int, d1: Seq<Seq<u8>>) -> bool {
    let h = d0[start];
    &&& d1.len() == d0.len()
    &&& header_n(d1[start]) == 0
    &&& forall|b: int|
        0 <= b < d0.len() && b != start ==> d1[b] == installed(
            d0,
            start,
            Seq::new(LOGSIZE as nat, |i: int| header_block(h, i) as i32),
            header_n(h) as nat,
        )[b]
}

/// Commits the transaction, if it logged anything: the logged blocks go
/// from the cache to the log, the header is written, the blocks are
/// installed and the header is cleared.
pub fn commit(log: &mut Log, disk: &mut Disk, cache: &Disk)
    requires
        old(disk).wf(),
        cache.wf(),
        cache@.len() == old(disk)@.len(),
        old(log).wf_on(old(disk)@),
    ensures
        final(disk).wf(),
        final(log).wf_on(final(disk)@),
        final(log).lh.n == 0,
        final(log).start == old(log).start,
        final(log).size == old(log).size,
        final(log).outstanding == old(log).outstanding,
        final(log).committing == old(log).committing,
        final(log).dev == old(log).dev,
        committed(old(disk)@, cache@, old(log).start as int, old(log).lh.block@, old(log).lh.n as int, final(disk)@),
{
    if log.lh.n > 0 {
        write_log(log, disk, cache);
        write_head(log, disk);
        let ghost d2 = disk@;
        install_trans(log, disk);
        let ghost d3 = disk@;
        proof {
            lemma_installed_len(d2, log.start as int, log.lh.block@, log.lh.n as nat);
        }
        log.lh.n = 0;
        write_head(log, disk);
        proof {
            let st = log.start as int;
            let d1 = logged(old(disk)@, cache@, st, old(log).lh.block@, old(log).lh.n as nat);
            lemma_logged_len(old(disk)@, cache@, st, old(log).lh.block@, old(log).lh.n as nat);
            lemma_installed_frame(d1, d2, st, old(log).lh.block@, old(log).lh.n as nat, st);
        }
    }
}

/// Installs a committed transaction found in the log, if any, and clears
/// the log.
pub fn recover_from_log(log: &mut Log, disk: &mut Disk)
    requires
        old(disk).wf(),
        old(log).lh.block@.len() == LOGSIZE,
        0 <= old(log).start,
        old(log).start + LOGSIZE + 1 < old(disk)@.len(),
        0 <= header_n(old(disk)@[old(log).start as int]) <= LOGSIZE,
        forall|i: int|
            0 <= i < header_n(old(disk)@[old(log).start as int]) ==> 0 <= #[trigger] header_block(
                old(disk)@[old(log).start as int],
                i,
            ) < old(disk)@.len(),
    ensures
        final(disk).wf(),
        final(log).wf_on(final(disk)@),
        final(log).lh.n == 0,
        final(log).start == old(log).start,
        final(log).size == old(log).size,
        final(log).outstanding == old(log).outstanding,
        final(log).committing == old(log).committing,
        final(log).dev == old(log).dev,
        recovered(old(disk)@, old(log).start as int, final(disk)@),
{
    read_head(log, disk);
    let ghost hb = Seq::new(LOGSIZE as nat, |i: int| header_block(old(disk)@[old(log).start as int], i) as i32);
    let ghost n = log.lh.n as nat;
    proof {
        lemma_installed_prefix(old(disk)@, log.start as int, log.lh.block@, hb, n);
    }
    install_trans(log, disk);
    let ghost d2 = disk@;
    proof {
        lemma_installed_len(old(disk)@, log.start as int, log.lh.block@, n);
    }
    log.lh.n = 0;
    write_head(log, disk);
}

/// Sets up the log from the super block and recovers any committed
/// transaction.
pub fn initlog(disk: &mut Disk) -> (r: Log)
    requires
        old(disk).wf(),
        old(disk)@.len() > 1,
        ({
            let sb = disk_superblock(old(disk)@);
            let st = sb.size - sb.nlog;
            &&& sb.nlog <= sb.size <= i32::MAX
            &&& 0 <= st
            &&& st + LOGSIZE + 1 < old(disk)@.len()
            &&& 0 <= header_n(old(disk)@[st]) <= LOGSIZE
            &&& forall|i: int|
                0 <= i < header_n(old(disk)@[st]) ==> 0 <= #[trigger] header_block(old(disk)@[st], i)
                    < old(disk)@.len()
        }),
    ensures
        final(disk).wf(),
        r.wf_on(final(disk)@),
        r.start == disk_superblock(old(disk)@).size - disk_superblock(old(disk)@).nlog,
        r.size == disk_superblock(old(disk)@).nlog,
        r.dev == ROOTDEV,
        r.outstanding == 0,
        r.committing == 0,
        r.lh.n == 0,
        recovered(old(disk)@, r.start as int, final(disk)@),
{
    let sb = readsb(disk);
    let mut log = Log {
        start: (sb.size - sb.nlog) as i32,
        size: sb.nlog as i32,
        outstanding: 0,
        committing: 0,
        dev: ROOTDEV,
        lh: LogHeader { n: 0, block: vec![0i32; LOGSIZE] },
    };
    recover_from_log(&mut log, disk);
    log
}

/// Called at the start of each file-system call.  Returns whether the call
/// may go on; `false` means the caller must sleep on the log and ask again,
/// because a commit is under way or the log might run out of space.
pub fn begin_op(log: &mut Log) -> (r: bool)
    requires
        0 <= old(log).lh.n <= LOGSIZE,
        0 <= old(log).outstanding < 1000,
    ensures
        r == (old(log).committing == 0 && old(log).lh.n + (old(log).outstanding + 1) * MAXOPBLOCKS
            <= LOGSIZE),
        final(log).outstanding == if r { old(log).outstanding + 1 } else { old(log).outstanding as int },
        final(log).committing == old(log).committing,
        final(log).start == old(log).start,
        final(log).size == old(log).size,
        final(log).lh.n == old(log).lh.n,
        final(log).lh.block@ == old(log).lh.block@,
        final(log).dev == old(log).dev,
{
    if log.committing != 0 {
        false
    } else if log.lh.n + (log.outstanding + 1) * MAXOPBLOCKS > LOGSIZE as i32 {
        false
    } else {
        log.outstanding = log.outstanding + 1;
        true
    }
}

/// Called at the end of each file-system call: when it was the last one
/// outstanding, the transaction commits from the cache `cache`.  Returns
/// whether it committed.
pub fn end_op(log: &mut Log, disk: &mut Disk, cache: &Disk) -> (r: bool)
    requires
        old(disk).wf(),
        cache.wf(),
        cache@.len() == old(disk)@.len(),
        old(log).wf_on(old(disk)@),
        old(log).committing == 0,
        old(log).outstanding >= 1,
    ensures
        final(disk).wf(),
        final(log).wf_on(final(disk)@),
        r == (old(log).outstanding == 1),
        final(log).outstanding == old(log).outstanding - 1,
        final(log).committing == 0,
        !r ==> final(disk)@ == old(disk)@ && final(log).lh.n == old(log).lh.n
            && final(log).lh.block@ == old(log).lh.block@,
        r ==> final(log).lh.n == 0 && committed(
            old(disk)@,
            cache@,
            old(log).start as int,
            old(log).lh.block@,
            old(log).lh.n as int,
            final(disk)@,
        ),
        final(log).start == old(log).start && final(log).size == old(log).size && final(log).dev == old(log).dev,
{
    log.outstanding = log.outstanding - 1;
    if log.outstanding == 0 {
        log.committing = 1;
        commit(log, disk, cache);
        log.committing = 0;
        true
    } else {
        false
    }
}

/// Records that busy buffer `b` belongs to the current transaction: its
/// block number joins the header unless already there, and the buffer is
/// marked dirty so that it stays in the cache until the commit.
pub fn log_write(log: &mut Log, b: &mut Buf)
    requires
        0 <= old(log).lh.n < LOGSIZE,
        old(log).lh.n < old(log).size - 1,
        old(log).outstanding >= 1,
        old(log).lh.block@.len() == LOGSIZE,
        old(b).blockno <= i32::MAX,
    ensures
        final(log).lh.block@.len() == LOGSIZE,
        final(b).flags == old(b).flags | B_DIRTY,
        final(b).dev == old(b).dev,
        final(b).blockno == old(b).blockno,
        final(b).data@ == old(b).data@,
        final(log).start == old(log).start,
        final(log).size == old(log).size,
        final(log).outstanding == old(log).outstanding,
        final(log).committing == old(log).committing,
        final(log).dev == old(log).dev,
        ({
            let present = exists|j: int| 0 <= j < old(log).lh.n && old(log).lh.block@[j] == old(b).blockno;
            &&& present ==> final(log).lh.n == old(log).lh.n && final(log).lh.block@ == old(log).lh.block@
            &&& !present ==> final(log).lh.n == old(log).lh.n + 1 && final(log).lh.block@
                == old(log).lh.block@.update(old(log).lh.n as int, old(b).blockno as i32)
        }),
{
    let bno = b.blockno as i32;
    let mut i: i32 = 0;
    let mut found = false;
    while !found && i < log.lh.n
        invariant
            0 <= log.lh.n < LOGSIZE,
            log.lh.n == old(log).lh.n,
            log.lh.block@ == old(log).lh.block@,
            log.lh.block@.len() == LOGSIZE,
            bno == old(b).blockno,
            0 <= i <= log.lh.n,
            forall|j: int| 0 <= j < i ==> log.lh.block@[j] != bno,
            found ==> i < log.lh.n && log.lh.block@[i as int] == bno,
        decreases 2 * (log.lh.n - i) + (if found { 0int } else { 1int }),
    {
        if log.lh.block[i as usize] == bno {
            found = true;
        } else {
            i += 1;
        }
    }
    log.lh.block.set(i as usize, bno);
    if !found {
        log.lh.n = log.lh.n + 1;
    } else {
        proof {
            assert(log.lh.block@ =~= old(log).lh.block@);
        }
    }
    b.flags = b.flags | B_DIRTY;
}

proof fn lemma_installed_len(d: Seq<Seq<u8>>, start: int, blocks: Seq<i32>, k: nat)
    requires
        forall|i: int| 0 <= i < k ==> 0 <= #[trigger] blocks[i] < d.len(),
    ensures
        installed(d, start, blocks, k).len() == d.len(),
    decreases k,
{
    if k > 0 {
        lemma_installed_len(d, start, blocks, (k - 1) as nat);
    }
}

proof fn lemma_logged_len(d: Seq<Seq<u8>>, c: Seq<Seq<u8>>, start: int, blocks: Seq<i32>, k: nat)
    requires
        0 <= start,
        start + k < d.len(),
    ensures
        logged(d, c, start, blocks, k).len() == d.len(),
    decreases k,
{
    if k > 0 {
        lemma_logged_len(d, c, start, blocks, (k - 1) as nat);
    }
}

/// Installing from two disks that agree on every block except `skip`
/// gives disks that again agree except on `skip`, when `skip` is neither a
/// log block read nor a home block written.
proof fn lemma_installed_frame(d: Seq<Seq<u8>>, e: Seq<Seq<u8>>, start: int, blocks: Seq<i32>, k: nat, skip: int)
    requires
        d.len() == e.len(),
        forall|b: int| 0 <= b < d.len() && b != skip ==> d[b] == e[b],
        forall|i: int| 0 <= i < k ==> 0 <= #[trigger] blocks[i] < d.len(),
        skip == start,
        start + k < d.len(),
        0 <= start,
    ensures
        installed(d, start, blocks, k).len() == d.len(),
        installed(e, start, blocks, k).len() == d.len(),
        forall|b: int| 0 <= b < d.len() && b != skip ==> installed(d, start, blocks, k)[b] == installed(e, start, blocks, k)[b],
    decreases k,
{
    lemma_installed_len(d, start, blocks, k);
    lemma_installed_len(e, start, blocks, k);
    if k > 0 {
        lemma_installed_frame(d, e, start, blocks, (k - 1) as nat, skip);
        lemma_installed_len(d, start, blocks, (k - 1) as nat);
    }
}

/// Installing depends only on the first `k` entries of the block list.
proof fn lemma_installed_prefix(d: Seq<Seq<u8>>, start: int, b1: Seq<i32>, b2: Seq<i32>, k: nat)
    requires
        k <= b1.len(),
        k <= b2.len(),
        forall|i: int| 0 <= i < k ==> b1[i] == b2[i],
    ensures
        installed(d, start, b1, k) == installed(d, start, b2, k),
    decreases k,
{
    if k > 0 {
        lemma_installed_prefix(d, start, b1, b2, (k - 1) as nat);
    }
}

/// What recovery does, stated directly: when the logged home blocks are
/// distinct and lie outside the log, block `blocks[i]` ends up with the
/// contents of log block `start + i + 1`, and every other block keeps its
/// contents.
pub proof fn lemma_install_moves_log_to_homes(d: Seq<Seq<u8>>, start: int, blocks: Seq<i32>, n: nat)
    requires
        0 <= start,
        start + n < d.len(),
        n <= blocks.len(),
        forall|i: int| 0 <= i < n ==> 0 <= #[trigger] blocks[i] < d.len(),
        homes_apart(start, blocks, n as int),
    ensures
        installed(d, start, blocks, n).len() == d.len(),
        forall|i: int| 0 <= i < n ==> installed(d, start, blocks, n)[#[trigger] blocks[i] as int] == d[start + i + 1],
        forall|b: int|
            0 <= b < d.len() && !(exists|i: int| 0 <= i < n && blocks[i] == b) ==> installed(d, start, blocks, n)[b]
                == d[b],
    decreases n,
{
    lemma_installed_len(d, start, blocks, n);
    if n > 0 {
        let m = (n - 1) as nat;
        lemma_install_moves_log_to_homes(d, start, blocks, m);
        lemma_installed_len(d, start, blocks, m);
        let d1 = installed(d, start, blocks, m);
        assert(d1[start + n] == d[start + n]) by {
            assert forall|i: int| 0 <= i < m implies blocks[i] != start + n by {}
        }
        assert forall|b: int|
            0 <= b < d.len() && !(exists|i: int| 0 <= i < n && blocks[i] == b) implies installed(d, start, blocks, n)[b]
                == d[b] by {
            assert(blocks[n - 1] != b);
            assert(!(exists|i: int| 0 <= i < m && blocks[i] == b));
        }
    }
}

/// Committing a transaction whose home blocks are distinct and lie outside
/// the log puts at each home block the contents the cache holds for it:
/// the cached blocks go to the log and from there to their homes.
pub proof fn lemma_commit_keeps_homes(d: Seq<Seq<u8>>, c: Seq<Seq<u8>>, start: int, blocks: Seq<i32>, n: nat)
    requires
        0 <= start,
        start + n < d.len(),
        c.len() == d.len(),
        n <= blocks.len(),
        forall|i: int| 0 <= i < n ==> 0 <= #[trigger] blocks[i] < d.len(),
        homes_apart(start, blocks, n as int),
    ensures
        forall|i: int|
            0 <= i < n ==> installed(logged(d, c, start, blocks, n), start, blocks, n)[#[trigger] blocks[i] as int]
                == c[blocks[i] as int],
{
    lemma_logged_moves_homes_to_log(d, c, start, blocks, n);
    lemma_logged_len(d, c, start, blocks, n);
    lemma_install_moves_log_to_homes(logged(d, c, start, blocks, n), start, blocks, n);
}

/// Logging copies the cached block `blocks[i]` into log block
/// `start + i + 1` and changes nothing outside the log.
proof fn lemma_logged_moves_homes_to_log(d: Seq<Seq<u8>>, c: Seq<Seq<u8>>, start: int, blocks: Seq<i32>, n: nat)
    requires
        0 <= start,
        start + n < d.len(),
        n <= blocks.len(),
    ensures
        forall|i: int| 0 <= i < n ==> logged(d, c, start, blocks, n)[start + i + 1] == #[trigger] c[blocks[i] as int],
        forall|b: int| 0 <= b < d.len() && !(start < b <= start + n) ==> logged(d, c, start, blocks, n)[b] == d[b],
    decreases n,
{
    lemma_logged_len(d, c, start, blocks, n);
    if n > 0 {
        let m = (n - 1) as nat;
        lemma_logged_moves_homes_to_log(d, c, start, blocks, m);
        lemma_logged_len(d, c, start, blocks, m);
        assert forall|i: int| 0 <= i < n implies logged(d, c, start, blocks, n)[start + i + 1] == #[trigger] c[blocks[i] as int] by {
            if i < m {
                assert(start + i + 1 != start + n);
            }
        }
    }
}


/// Block `b` belongs to the log area: the header at `start` or one of the
/// `LOGSIZE` log blocks after it.
pub open spec fn in_log_area(start: int, b: int) -> bool {
    start <= b <= start + LOGSIZE
}

/// The blocks below `k`, outside the log area, on which `d0` and `d1`
/// differ, in increasing order.
pub open spec fn changed_blocks(d0: Seq<Seq<u8>>, d1: Seq<Seq<u8>>, start: int, k: nat) -> Seq<int>
    decreases k,
{
    if k == 0 {
        Seq::empty()
    } else {
        let s = changed_blocks(d0, d1, start, (k - 1) as nat);
        let b = k - 1;
        if !in_log_area(start, b) && d0[b] != d1[b] {
            s.push(b)
        } else {
            s
        }
    }
}

/// `dl` is `d0` with the operation that turns `d0` into `d1` staged in the
/// log: the first `n` entries of `blocks` are the changed blocks, the new
/// contents of the `i`-th of them stand in log block `start + i + 1`, and
/// every other block is as in `d0`.
pub open spec fn staged(
    d0: Seq<Seq<u8>>,
    d1: Seq<Seq<u8>>,
    start: int,
    blocks: Seq<i32>,
    n: int,
    dl: Seq<Seq<u8>>,
) -> bool {
    let ch = changed_blocks(d0, d1, start, d0.len());
    &&& n == ch.len()
    &&& n <= blocks.len()
    &&& forall|i: int| 0 <= i < n ==> blocks[i] as int == #[trigger] ch[i]
    &&& dl.len() == d0.len()
    &&& forall|i: int| 0 <= i < n ==> dl[start + i + 1] == d1[#[trigger] ch[i]]
    &&& forall|b: int| 0 <= b < d0.len() && !(start < b <= start + n) ==> #[trigger] dl[b] == d0[b]
}

/// Every changed block lies below `k`, outside the log area, and differs;
/// the list is strictly increasing; and every block below `k` outside the
/// log area that differs is on the list.
proof fn lemma_changed_blocks(d0: Seq<Seq<u8>>, d1: Seq<Seq<u8>>, start: int, k: nat)
    ensures
        changed_blocks(d0, d1, start, k).len() <= k,
        forall|i: int|
            0 <= i < changed_blocks(d0, d1, start, k).len() ==> {
                let b = #[trigger] changed_blocks(d0, d1, start, k)[i];
                &&& 0 <= b < k
                &&& !in_log_area(start, b)
                &&& d0[b] != d1[b]
            },
        forall|i: int, j: int|
            0 <= i < j < changed_blocks(d0, d1, start, k).len() ==> changed_blocks(d0, d1, start, k)[i]
                < changed_blocks(d0, d1, start, k)[j],
        forall|b: int|
            0 <= b < k && !in_log_area(start, b) && d0[b] != d1[b] ==> exists|i: int|
                0 <= i < changed_blocks(d0, d1, start, k).len() && #[trigger] changed_blocks(d0, d1, start, k)[i]
                    == b,
    decreases k,
{
    if k > 0 {
        let m = (k - 1) as nat;
        lemma_changed_blocks(d0, d1, start, m);
        let s = changed_blocks(d0, d1, start, m);
        let t = changed_blocks(d0, d1, start, k);
        assert forall|b: int|
            0 <= b < k && !in_log_area(start, b) && d0[b] != d1[b] implies exists|i: int|
                0 <= i < t.len() && #[trigger] t[i] == b by {
            if b < m {
                let i = choose|i: int| 0 <= i < s.len() && #[trigger] s[i] == b;
                assert(t[i] == b);
            } else {
                assert(t[s.len() as int] == b);
            }
        }
    }
}

/// The changed blocks below `k` are the first ones of those below `m`.
proof fn lemma_changed_prefix(d0: Seq<Seq<u8>>, d1: Seq<Seq<u8>>, start: int, k: nat, m: nat)
    requires
        k <= m,
    ensures
        changed_blocks(d0, d1, start, k).len() <= changed_blocks(d0, d1, start, m).len(),
        forall|i: int|
            0 <= i < changed_blocks(d0, d1, start, k).len() ==> #[trigger] changed_blocks(d0, d1, start, k)[i]
                == changed_blocks(d0, d1, start, m)[i],
    decreases m - k,
{
    if k < m {
        lemma_changed_prefix(d0, d1, start, k, (m - 1) as nat);
    }
}

/// Whether two byte strings are equal.
fn same_bytes(a: &Vec<u8>, b: &Vec<u8>) -> (r: bool)
    ensures
        r == (a@ == b@),
{
    if a.len() != b.len() {
        return false;
    }
    let mut i: usize = 0;
    while i < a.len()
        invariant
            a@.len() == b@.len(),
            i <= a.len(),
            forall|j: int| 0 <= j < i ==> a@[j] == b@[j],
        decreases a.len() - i,
    {
        if a[i] != b[i] {
            return false;
        }
        i += 1;
    }
    assert(a@ =~= b@);
    true
}

/// Stages in the log the operation that turned the disk into `new`: each
/// block outside the log area whose contents differ is entered in the
/// in-memory header, in increasing order, and its new contents are written
/// to the next log block.  Nothing outside the log blocks changes.
pub fn stage_op(log: &mut Log, disk: &mut Disk, new: &Disk)
    requires
        old(disk).wf(),
        new.wf(),
        new@.len() == old(disk)@.len(),
        old(disk)@.len() <= i32::MAX,
        old(log).wf_on(old(disk)@),
        old(log).lh.n == 0,
        changed_blocks(old(disk)@, new@, old(log).start as int, old(disk)@.len()).len() <= LOGSIZE,
    ensures
        final(disk).wf(),
        final(log).wf_on(final(disk)@),
        final(log).start == old(log).start,
        final(log).size == old(log).size,
        final(log).outstanding == old(log).outstanding,
        final(log).committing == old(log).committing,
        final(log).dev == old(log).dev,
        staged(old(disk)@, new@, old(log).start as int, final(log).lh.block@, final(log).lh.n as int, final(disk)@),
{
    let ghost d0 = old(disk)@;
    let ghost st = log.start as int;
    let ghost total = changed_blocks(d0, new@, st, d0.len());
    let nb = disk.nblocks();
    let start = log.start as usize;
    let mut b: usize = 0;
    while b < nb
        invariant
            nb == d0.len(),
            d0.len() <= i32::MAX,
            new@.len() == d0.len(),
            new.wf(),
            disk.wf(),
            disk@.len() == d0.len(),
            start == st,
            log.start == st,
            log.lh.block@.len() == LOGSIZE,
            0 <= st,
            st + LOGSIZE + 1 < d0.len(),
            total == changed_blocks(d0, new@, st, d0.len()),
            total.len() <= LOGSIZE,
            b <= nb,
            log.lh.n == changed_blocks(d0, new@, st, b as nat).len(),
            forall|i: int|
                0 <= i < log.lh.n ==> log.lh.block@[i] as int == #[trigger] changed_blocks(d0, new@, st, b as nat)[i],
            forall|i: int|
                0 <= i < log.lh.n ==> disk@[st + i + 1] == new@[#[trigger] changed_blocks(d0, new@, st, b as nat)[i]],
            forall|c: int| 0 <= c < d0.len() && !(st < c <= st + log.lh.n) ==> #[trigger] disk@[c] == d0[c],
            log.size == old(log).size,
            log.outstanding == old(log).outstanding,
            log.committing == old(log).committing,
            log.dev == old(log).dev,
        decreases nb - b,
    {
        let ghost prev = changed_blocks(d0, new@, st, b as nat);
        proof {
            lemma_changed_prefix(d0, new@, st, (b + 1) as nat, d0.len());
            lemma_changed_blocks(d0, new@, st, b as nat);
        }
        let outside = b < start || b > start + LOGSIZE;
        proof {
            if outside {
                assert(disk@[b as int] == d0[b as int]);
            }
            assert(disk@[b as int] == disk.blocks@[b as int]@);
            assert(new@[b as int] == new.blocks@[b as int]@);
            assert(outside == !in_log_area(st, b as int));
        }
        if outside && !same_bytes(&disk.blocks[b], &new.blocks[b]) {
            let n = log.lh.n as usize;
            assert(changed_blocks(d0, new@, st, (b + 1) as nat) == prev.push(b as int));
            assert(n < LOGSIZE);
            let data = new.read_block(b);
            disk.write_block(start + n + 1, data);
            log.lh.block.set(n, b as i32);
            log.lh.n = log.lh.n + 1;
        } else {
            assert(changed_blocks(d0, new@, st, (b + 1) as nat) == prev);
        }
        b += 1;
    }
    proof {
        lemma_changed_blocks(d0, new@, st, d0.len());
        assert forall|i: int| 0 <= i < log.lh.n implies 0 <= #[trigger] log.lh.block@[i] < disk@.len() by {
            assert(total[i] < d0.len());
        }
    }
}

/// Every block the stage lists lies on the disk, outside the log area, and
/// no two are the same.
proof fn lemma_staged_homes(d0: Seq<Seq<u8>>, d1: Seq<Seq<u8>>, start: int, blocks: Seq<i32>, n: int, dl: Seq<Seq<u8>>)
    requires
        staged(d0, d1, start, blocks, n, dl),
        d1.len() == d0.len(),
        n <= LOGSIZE,
    ensures
        forall|i: int| 0 <= i < n ==> 0 <= #[trigger] blocks[i] < d0.len(),
        homes_apart(start, blocks, n),
        forall|b: int|
            0 <= b < d0.len() && !in_log_area(start, b) && !(exists|i: int| 0 <= i < n && blocks[i] == b)
                ==> d0[b] == d1[b],
{
    let ch = changed_blocks(d0, d1, start, d0.len());
    lemma_changed_blocks(d0, d1, start, d0.len());
    assert forall|i: int| 0 <= i < n implies 0 <= #[trigger] blocks[i] < d0.len() by {
        assert(blocks[i] as int == ch[i]);
    }
    assert forall|i: int, j: int| 0 <= i < j < n implies blocks[i] != blocks[j] by {
        assert(blocks[i] as int == ch[i]);
        assert(blocks[j] as int == ch[j]);
    }
    assert forall|i: int| 0 <= i < n implies !(start <= #[trigger] blocks[i] <= start + n) by {
        assert(blocks[i] as int == ch[i]);
        assert(!in_log_area(start, ch[i]));
    }
    assert forall|b: int|
        0 <= b < d0.len() && !in_log_area(start, b) && !(exists|i: int| 0 <= i < n && blocks[i] == b)
            implies d0[b] == d1[b] by {
        if d0[b] != d1[b] {
            let i = choose|i: int| 0 <= i < ch.len() && #[trigger] ch[i] == b;
            assert(blocks[i] as int == ch[i]);
        }
    }
}

/// Installing a staged operation gives, outside the log area, the disk the
/// operation produced.
proof fn lemma_install_staged(
    d0: Seq<Seq<u8>>,
    d1: Seq<Seq<u8>>,
    start: int,
    blocks: Seq<i32>,
    n: int,
    dl: Seq<Seq<u8>>,
    dh: Seq<Seq<u8>>,
)
    requires
        staged(d0, d1, start, blocks, n, dl),
        d1.len() == d0.len(),
        0 <= start,
        start + LOGSIZE + 1 < d0.len(),
        n <= LOGSIZE,
        dh.len() == dl.len(),
        forall|b: int| 0 <= b < dl.len() && b != start ==> dh[b] == dl[b],
    ensures
        installed(dh, start, blocks, n as nat).len() == d0.len(),
        forall|b: int|
            0 <= b < d0.len() && !in_log_area(start, b) ==> #[trigger] installed(dh, start, blocks, n as nat)[b]
                == d1[b],
{
    let ch = changed_blocks(d0, d1, start, d0.len());
    lemma_staged_homes(d0, d1, start, blocks, n, dl);
    lemma_install_moves_log_to_homes(dh, start, blocks, n as nat);
    let r = installed(dh, start, blocks, n as nat);
    assert forall|b: int| 0 <= b < d0.len() && !in_log_area(start, b) implies #[trigger] r[b] == d1[b] by {
        if exists|i: int| 0 <= i < n && blocks[i] == b {
            let i = choose|i: int| 0 <= i < n && blocks[i] == b;
            assert(r[blocks[i] as int] == dh[start + i + 1]);
            assert(blocks[i] as int == ch[i]);
            assert(dl[start + i + 1] == d1[ch[i]]);
        } else {
            assert(dl[b] == d0[b]);
        }
    }
}

/// Commits, through the log, the operation that turned the disk into
/// `new`, the in-memory image of the blocks on which the file-system
/// functions worked: the changed blocks are staged in the log, the header
/// is written (the commit point), the blocks are installed and the header
/// is cleared.  Afterwards every block outside the log area holds what it
/// holds in `new`.
pub fn commit_op(log: &mut Log, disk: &mut Disk, new: &Disk)
    requires
        old(disk).wf(),
        new.wf(),
        new@.len() == old(disk)@.len(),
        old(disk)@.len() <= i32::MAX,
        old(log).wf_on(old(disk)@),
        old(log).lh.n == 0,
        changed_blocks(old(disk)@, new@, old(log).start as int, old(disk)@.len()).len() <= LOGSIZE,
    ensures
        final(disk).wf(),
        final(log).wf_on(final(disk)@),
        final(log).lh.n == 0,
        final(log).start == old(log).start,
        final(log).size == old(log).size,
        final(log).outstanding == old(log).outstanding,
        final(log).committing == old(log).committing,
        final(log).dev == old(log).dev,
        final(disk)@.len() == old(disk)@.len(),
        header_n(final(disk)@[old(log).start as int]) == 0,
        forall|b: int|
            0 <= b < old(disk)@.len() && !in_log_area(old(log).start as int, b) ==> #[trigger] final(disk)@[b]
                == new@[b],
{
    let ghost d0 = old(disk)@;
    let ghost st = log.start as int;
    stage_op(log, disk, new);
    let ghost dl = disk@;
    let ghost blocks = log.lh.block@;
    let ghost n = log.lh.n as int;
    write_head(log, disk);
    let ghost dh = disk@;
    install_trans(log, disk);
    proof {
        lemma_install_staged(d0, new@, st, blocks, n, dl, dh);
    }
    log.lh.n = 0;
    write_head(log, disk);
}

/// A staged operation is all or nothing across a crash.  If the machine
/// stops before the header is written, recovery leaves every block outside
/// the log area as it was before the operation; once the header listing
/// the staged blocks is written, recovery leaves every such block as the
/// operation made it.
pub proof fn lemma_op_all_or_none(
    d0: Seq<Seq<u8>>,
    d1: Seq<Seq<u8>>,
    start: int,
    blocks: Seq<i32>,
    n: int,
    dl: Seq<Seq<u8>>,
    dh: Seq<Seq<u8>>,
    r_before: Seq<Seq<u8>>,
    r_after: Seq<Seq<u8>>,
)
    requires
        staged(d0, d1, start, blocks, n, dl),
        d1.len() == d0.len(),
        0 <= start,
        start + LOGSIZE + 1 < d0.len(),
        n <= LOGSIZE,
        header_n(d0[start]) == 0,
        dh.len() == dl.len(),
        forall|b: int| 0 <= b < dl.len() && b != start ==> dh[b] == dl[b],
        header_n(dh[start]) == n,
        forall|i: int| 0 <= i < n ==> header_block(dh[start], i) == #[trigger] blocks[i],
        recovered(dl, start, r_before),
        recovered(dh, start, r_after),
    ensures
        forall|b: int| 0 <= b < d0.len() && !in_log_area(start, b) ==> #[trigger] r_before[b] == d0[b],
        forall|b: int| 0 <= b < d0.len() && !in_log_area(start, b) ==> #[trigger] r_after[b] == d1[b],
{
    assert(dl[start] == d0[start]);
    let hb = Seq::new(LOGSIZE as nat, |i: int| header_block(dh[start], i) as i32);
    lemma_installed_prefix(dh, start, blocks, hb, n as nat);
    lemma_install_staged(d0, d1, start, blocks, n, dl, dh);
    assert forall|b: int| 0 <= b < d0.len() && !in_log_area(start, b) implies #[trigger] r_before[b] == d0[b] by {
        assert(dl[b] == d0[b]);
    }
}

/// A commit is all or nothing across a crash.  Write the cached blocks to
/// the log (`dl`), then the header listing them (`dh`).  If the machine
/// stops before the header is written, recovery leaves every block outside
/// the log area as it was; once the header is written, recovery puts at
/// each logged home the contents the cache holds for it and leaves every
/// other block outside the log area as it was.
pub proof fn lemma_commit_all_or_none(
    d0: Seq<Seq<u8>>,
    c: Seq<Seq<u8>>,
    start: int,
    blocks: Seq<i32>,
    n: int,
    dh: Seq<Seq<u8>>,
    r_before: Seq<Seq<u8>>,
    r_after: Seq<Seq<u8>>,
)
    requires
        0 <= start,
        start + LOGSIZE + 1 < d0.len(),
        c.len() == d0.len(),
        0 <= n <= LOGSIZE,
        n <= blocks.len(),
        forall|i: int| 0 <= i < n ==> 0 <= #[trigger] blocks[i] < d0.len(),
        forall|i: int| 0 <= i < n ==> !in_log_area(start, #[trigger] blocks[i] as int),
        forall|i: int, j: int| 0 <= i < j < n ==> blocks[i] != blocks[j],
        header_n(d0[start]) == 0,
        dh.len() == d0.len(),
        forall|b: int| 0 <= b < d0.len() && b != start ==> dh[b] == logged(d0, c, start, blocks, n as nat)[b],
        header_n(dh[start]) == n,
        forall|i: int| 0 <= i < n ==> header_block(dh[start], i) == #[trigger] blocks[i],
        recovered(logged(d0, c, start, blocks, n as nat), start, r_before),
        recovered(dh, start, r_after),
    ensures
        forall|b: int| 0 <= b < d0.len() && !in_log_area(start, b) ==> #[trigger] r_before[b] == d0[b],
        forall|i: int| 0 <= i < n ==> r_after[#[trigger] blocks[i] as int] == c[blocks[i] as int],
        forall|b: int|
            0 <= b < d0.len() && !in_log_area(start, b) && !(exists|i: int| 0 <= i < n && blocks[i] == b)
                ==> #[trigger] r_after[b] == d0[b],
{
    let dl = logged(d0, c, start, blocks, n as nat);
    lemma_logged_len(d0, c, start, blocks, n as nat);
    lemma_logged_moves_homes_to_log(d0, c, start, blocks, n as nat);
    assert(dl[start] == d0[start]);
    assert forall|b: int| 0 <= b < d0.len() && !in_log_area(start, b) implies #[trigger] r_before[b] == d0[b] by {
        assert(dl[b] == d0[b]);
    }
    assert(homes_apart(start, blocks, n)) by {
        assert forall|i: int| 0 <= i < n implies !(start <= #[trigger] blocks[i] <= start + n) by {
            assert(!in_log_area(start, blocks[i] as int));
        }
    }
    let hb = Seq::new(LOGSIZE as nat, |i: int| header_block(dh[start], i) as i32);
    lemma_installed_prefix(dh, start, blocks, hb, n as nat);
    lemma_install_moves_log_to_homes(dh, start, blocks, n as nat);
    assert forall|i: int| 0 <= i < n implies r_after[#[trigger] blocks[i] as int] == c[blocks[i] as int] by {
        assert(blocks[i] as int != start);
        assert(dh[start + i + 1] == dl[start + i + 1]);
    }
    assert forall|b: int|
        0 <= b < d0.len() && !in_log_area(start, b) && !(exists|i: int| 0 <= i < n && blocks[i] == b)
            implies #[trigger] r_after[b] == d0[b] by {
        assert(dh[b] == dl[b]);
    }
}

} // verus!
