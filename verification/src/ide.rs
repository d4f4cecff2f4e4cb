//! The IDE disk driver: the commands that start a request, the order in
//! which queued buffers are served, and what an interrupt does to the
//! buffer it completes.
use vstd::prelude::*;
use crate::buf::{Buf, B_BUSY, B_DIRTY, B_VALID, BUF_SIZE};

verus! {

/// Bytes in a disk sector.
pub const SECTOR_SIZE: u32 = 512;
/// Size of the file system in blocks.
pub const FSSIZE: u32 = 1000;
/// Status: the drive is busy.
pub const IDE_BSY: u8 = 0x80;
/// Status: the drive is ready.
pub const IDE_DRDY: u8 = 0x40;
/// Status: drive fault.
pub const IDE_DF: u8 = 0x20;
/// Status: error.
pub const IDE_ERR: u8 = 0x01;
/// Command: read sectors.
pub const IDE_CMD_READ: u8 = 0x20;
/// Command: write sectors.
pub const IDE_CMD_WRITE: u8 = 0x30;

/// One step of driving the disk controller.
#[derive(Clone, Copy, PartialEq, Eq, Structural, Debug)]
pub enum IdeOp {
    /// Wait until the status register shows the drive ready and not busy.
    Wait,
    /// Write a byte to an I/O port.
    Outb(u16, u8),
    /// Write the buffer's data to the data port.
    WriteData,
    /// Read one sector from the data port.
    ReadData,
}

/// The drive is ready: not busy, and ready.
pub open spec fn ide_ready(status: u8) -> bool {
    status & (IDE_BSY | IDE_DRDY) == IDE_DRDY
}

/// The drive reports a fault or an error.
pub open spec fn ide_failed(status: u8) -> bool {
    status & (IDE_DF | IDE_ERR) != 0
}

/// One reading `status` of the status register while waiting for the
/// drive: `None` while it is not ready (keep waiting); once it is, -1 if
/// errors are checked and the drive reports one, else 0.
pub fn idewait(status: u8, checkerr: bool) -> (r: Option<i32>)
    ensures
        !ide_ready(status) ==> r is None,
        ide_ready(status) && checkerr && ide_failed(status) ==> r == Some(-1i32),
        ide_ready(status) && !(checkerr && ide_failed(status)) ==> r == Some(0i32),
{
    if status & (IDE_BSY | IDE_DRDY) != IDE_DRDY {
        return None;
    }
    if checkerr && status & (IDE_DF | IDE_ERR) != 0 {
        return Some(-1);
    }
    Some(0)
}

/// The commands that start the disk on buffer `b`: wait for the drive,
/// ask for an interrupt, give the sector count (one sector per block),
/// the sector number in its three low bytes, the drive (bit 4, from the
/// device number) with the number's top four bits, then the command: a
/// write followed by the data when the buffer is dirty, else a read.
pub open spec fn idestart_ops(b: Buf) -> Seq<IdeOp> {
    let s = b.blockno as int;
    let head = seq![
        IdeOp::Wait,
        IdeOp::Outb(0x3f6, 0),
        IdeOp::Outb(0x1f2, 1),
        IdeOp::Outb(0x1f3, (s % 256) as u8),
        IdeOp::Outb(0x1f4, ((s / 256) % 256) as u8),
        IdeOp::Outb(0x1f5, ((s / 0x1_0000) % 256) as u8),
        IdeOp::Outb(0x1f6, (0xe0 + 16 * (b.dev % 2) + (s / 0x100_0000) % 16) as u8),
    ];
    if b.flags & B_DIRTY != 0 {
        head + seq![IdeOp::Outb(0x1f7, IDE_CMD_WRITE), IdeOp::WriteData]
    } else {
        head + seq![IdeOp::Outb(0x1f7, IDE_CMD_READ)]
    }
}

/// Starts the request for buffer `b`: returns the commands to perform, in
/// order.
pub fn idestart(b: &Buf) -> (r: Vec<IdeOp>)
    requires
        b.blockno < FSSIZE,
    ensures
        r@ == idestart_ops(*b),
{
    let sector: u32 = b.blockno;
    let d: u32 = b.dev;
    assert(((sector & 0xffu32) == sector % 256) && (((sector >> 8u32) & 0xffu32) == (sector / 256) % 256) && (((
    sector >> 16u32) & 0xffu32) == (sector / 0x1_0000) % 256) && ((0xe0u32 | ((d & 1u32) << 4u32) | ((sector
        >> 24u32) & 0x0fu32)) == 0xe0 + 16 * (d % 2) + (sector / 0x100_0000) % 16)) by (bit_vector);
    let mut ops: Vec<IdeOp> = Vec::new();
    ops.push(IdeOp::Wait);
    ops.push(IdeOp::Outb(0x3f6, 0));
    ops.push(IdeOp::Outb(0x1f2, (SECTOR_SIZE / 512) as u8));
    ops.push(IdeOp::Outb(0x1f3, (sector & 0xff) as u8));
    ops.push(IdeOp::Outb(0x1f4, ((sector >> 8) & 0xff) as u8));
    ops.push(IdeOp::Outb(0x1f5, ((sector >> 16) & 0xff) as u8));
    ops.push(IdeOp::Outb(0x1f6, (0xe0 | ((d & 1) << 4) | ((sector >> 24) & 0x0f)) as u8));
    if b.flags & B_DIRTY != 0 {
        ops.push(IdeOp::Outb(0x1f7, IDE_CMD_WRITE));
        ops.push(IdeOp::WriteData);
    } else {
        ops.push(IdeOp::Outb(0x1f7, IDE_CMD_READ));
    }
    proof {
        assert(ops@ =~= idestart_ops(*b));
    }
    ops
}

/// The buffers waiting for the disk, served first come first served; the
/// first is the one the disk is working on.  Each buffer links to the
/// next through its `qnext`.
pub struct IdeQueue {
    /// The first buffer waiting.
    pub head: Option<usize>,
    /// Disk 1 is present.
    pub havedisk1: bool,
    /// Indices of the waiting buffers, in order.
    pub order: Ghost<Seq<usize>>,
}

impl IdeQueue {
    /// The queue is well formed over the buffers `bufs`: its buffers are
    /// distinct buffers of `bufs`, the head is the first, each links to the
    /// next and the last to none.
    pub open spec fn wf(&self, bufs: Seq<Buf>) -> bool {
        let o = self.order@;
        &&& forall|k: int| 0 <= k < o.len() ==> #[trigger] o[k] < bufs.len()
        &&& forall|j: int, k: int| 0 <= j < k < o.len() ==> o[j] != o[k]
        &&& self.head == if o.len() == 0 { None } else { Some(o[0]) }
        &&& forall|k: int| 0 <= k < o.len() - 1 ==> #[trigger] bufs[o[k] as int].qnext == Some(o[k + 1])
        &&& o.len() > 0 ==> bufs[o.last() as int].qnext is None
    }
}

/// Sets up the driver: an empty queue, with disk 1 present when one of
/// the first thousand `probes` of the status register after selecting it
/// is nonzero.
pub fn ideinit(probes: &Vec<u8>) -> (q: IdeQueue)
    ensures
        q.head is None,
        q.order@ == Seq::<usize>::empty(),
        q.havedisk1 == exists|i: int| 0 <= i < probes@.len() && i < 1000 && probes@[i] != 0,
{
    let mut found = false;
    let mut i: usize = 0;
    while i < probes.len() && i < 1000
        invariant_except_break
            !found,
            forall|j: int| 0 <= j < i ==> probes@[j] == 0,
        invariant
            i <= probes@.len(),
        ensures
            found == exists|j: int| 0 <= j < probes@.len() && j < 1000 && probes@[j] != 0,
        decreases probes@.len() - i,
    {
        if probes[i] != 0 {
            found = true;
            break;
        }
        i += 1;
    }
    IdeQueue { head: None, havedisk1: found, order: Ghost(Seq::empty()) }
}

/// The fields of a buffer other than its queue link agree.
pub open spec fn same_but_link(a: Buf, b: Buf) -> bool {
    a.flags == b.flags && a.dev == b.dev && a.blockno == b.blockno && a.data@ == b.data@
}

/// Queues buffer `b` for the disk, behind the buffers already waiting.
/// Returns whether the disk must be started on it now, which is when no
/// buffer was waiting.  The caller then waits until the buffer is valid
/// and not dirty.
pub fn iderw(q: &mut IdeQueue, bufs: &mut Vec<Buf>, b: usize) -> (start: bool)
    requires
        old(q).wf(old(bufs)@),
        b < old(bufs)@.len(),
        !old(q).order@.contains(b),
        old(bufs)@[b as int].flags & B_BUSY != 0,
        old(bufs)@[b as int].flags & (B_VALID | B_DIRTY) != B_VALID,
        old(bufs)@[b as int].dev != 0 ==> old(q).havedisk1,
    ensures
        final(q).wf(final(bufs)@),
        final(q).order@ == old(q).order@.push(b),
        final(q).havedisk1 == old(q).havedisk1,
        start == (old(q).order@.len() == 0),
        final(bufs)@.len() == old(bufs)@.len(),
        forall|i: int| 0 <= i < old(bufs)@.len() ==> same_but_link(#[trigger] final(bufs)@[i], old(bufs)@[i]),
        forall|i: int|
            0 <= i < old(bufs)@.len() && !final(q).order@.contains(i as usize) ==> #[trigger] final(bufs)@[i].qnext
                == old(bufs)@[i].qnext,
{
    let ghost o = q.order@;
    let ghost b0 = bufs@;
    bufs[b].qnext = None;
    proof {
        assert forall|k: int| 0 <= k < o.len() implies o[k] != b by {
            if o[k] == b {
                assert(o.contains(b));
            }
        }
    }
    match q.head {
        None => {
            q.head = Some(b);
            proof {
                q.order@ = o.push(b);
            }
            true
        },
        Some(h) => {
            let mut cur: usize = h;
            let ghost mut k: int = 0;
            while bufs[cur].qnext.is_some()
                invariant
                    o == old(q).order@,
                    o.len() > 0,
                    0 <= k < o.len(),
                    cur == o[k],
                    forall|k: int| 0 <= k < o.len() ==> #[trigger] o[k] < b0.len(),
                    forall|k: int| 0 <= k < o.len() ==> o[k] != b,
                    forall|k: int| 0 <= k < o.len() - 1 ==> #[trigger] b0[o[k] as int].qnext == Some(o[k + 1]),
                    b0[o.last() as int].qnext is None,
                    bufs@ == b0.update(b as int, bufs@[b as int]),
                    b < b0.len(),
                decreases o.len() - k,
            {
                let next = bufs[cur].qnext.unwrap();
                proof {
                    if k == o.len() - 1 {
                        assert(bufs@[cur as int] == b0[cur as int]);
                    }
                    assert(b0[o[k] as int].qnext == Some(o[k + 1]));
                    k = k + 1;
                }
                cur = next;
            }
            proof {
                if k < o.len() - 1 {
                    assert(b0[o[k] as int].qnext == Some(o[k + 1]));
                    assert(bufs@[cur as int] == b0[cur as int]);
                }
            }
            bufs[cur].qnext = Some(b);
            proof {
                q.order@ = o.push(b);
                let n = o.push(b);
                assert forall|i: int| 0 <= i < n.len() - 1 implies #[trigger] bufs@[n[i] as int].qnext == Some(
                    n[i + 1],
                ) by {
                    if i < o.len() - 1 {
                        assert(b0[o[i] as int].qnext == Some(o[i + 1]));
                        assert(o[i] != o[k]);
                    }
                }
                assert forall|i: int|
                    0 <= i < b0.len() && !n.contains(i as usize) implies #[trigger] bufs@[i].qnext == b0[i].qnext by {
                    assert(n[k] == cur && n[o.len() as int] == b);
                }
            }
            false
        },
    }
}

/// What an interrupt finds: the buffer whose request completed, and the
/// buffer the disk must be started on next, if any.
#[derive(Clone, Copy, PartialEq, Eq, Structural, Debug)]
pub struct IdeDone {
    pub done: usize,
    pub next: Option<usize>,
}

/// The disk's data is read into the completed buffer: it was a read, and
/// the drive, once ready, reports no error.
pub open spec fn ide_reads(b: Buf, status: u8) -> bool {
    b.flags & B_DIRTY == 0 && !ide_failed(status)
}

/// Completes the request of the first buffer waiting, given the status
/// register `status` once the drive is ready and the `sector` the data
/// port then gives: when it was a read and the drive reports no error, the
/// buffer's data becomes the sector; in any case the buffer becomes valid
/// and not dirty, and leaves the queue.  Returns it with the buffer to
/// start next; `None` when no buffer was waiting.
pub fn ideintr(q: &mut IdeQueue, bufs: &mut Vec<Buf>, status: u8, sector: &Vec<u8>) -> (r: Option<IdeDone>)
    requires
        old(q).wf(old(bufs)@),
        old(q).head matches Some(h) && old(bufs)@[h as int].flags & B_DIRTY == 0 ==> ide_ready(status),
        old(q).head matches Some(h) && ide_reads(old(bufs)@[h as int], status) ==> sector@.len() == BUF_SIZE,
    ensures
        final(q).wf(final(bufs)@),
        final(q).havedisk1 == old(q).havedisk1,
        final(bufs)@.len() == old(bufs)@.len(),
        old(q).head is None ==> r is None && final(q).order@ == old(q).order@ && final(bufs)@ == old(bufs)@,
        old(q).head matches Some(h) ==> {
            let b0 = old(bufs)@[h as int];
            let b1 = final(bufs)@[h as int];
            &&& r == Some(IdeDone { done: h, next: final(q).head })
            &&& final(q).order@ == old(q).order@.drop_first()
            &&& b1.flags == (b0.flags | B_VALID) & !B_DIRTY
            &&& b1.flags & (B_VALID | B_DIRTY) == B_VALID
            &&& b1.dev == b0.dev && b1.blockno == b0.blockno
            &&& b1.qnext is None
            &&& b1.data@ == if ide_reads(b0, status) { sector@ } else { b0.data@ }
            &&& forall|i: int| 0 <= i < old(bufs)@.len() && i != h ==> #[trigger] final(bufs)@[i] == old(bufs)@[i]
        },
{
    let ghost o = q.order@;
    let ghost b0 = bufs@;
    match q.head {
        None => None,
        Some(h) => {
            let next = bufs[h].qnext;
            proof {
                assert(o[0] < b0.len());
                if o.len() > 1 {
                    assert(b0[o[0] as int].qnext == Some(o[1]));
                }
            }
            bufs[h].qnext = None;
            q.head = next;
            let dirty = bufs[h].flags & B_DIRTY != 0;
            if !dirty {
                let w = idewait(status, true);
                if w == Some(0i32) {
                    bufs[h].data = sector.clone();
                    proof {
                        assert(bufs@[h as int].data@ =~= sector@);
                    }
                }
            }
            let f = bufs[h].flags;
            bufs[h].flags = (f | B_VALID) & !B_DIRTY;
            assert(((f | 2u32) & !4u32) & (2u32 | 4u32) == 2u32) by (bit_vector);
            proof {
                q.order@ = o.drop_first();
                let n = o.drop_first();
                assert forall|k: int| 0 <= k < n.len() implies #[trigger] n[k] < bufs@.len() by {
                    assert(o[k + 1] < b0.len());
                }
                assert forall|k: int| 0 <= k < n.len() - 1 implies #[trigger] bufs@[n[k] as int].qnext == Some(
                    n[k + 1],
                ) by {
                    assert(b0[o[k + 1] as int].qnext == Some(o[k + 2]));
                    assert(o[0] != o[k + 1]);
                }
                if n.len() > 0 {
                    assert(o[0] != o[o.len() - 1]);
                    assert(n.last() == o.last());
                }
            }
            Some(IdeDone { done: h, next })
        },
    }
}

/// Requests are served in the order they were queued: a buffer that
/// `iderw` queues behind the `o.len()` buffers waiting is, once each
/// interrupt has dropped the head that many times, at the head, so the
/// next interrupt completes it.
pub proof fn lemma_served_in_order(o: Seq<usize>, b: usize)
    ensures
        o.push(b).skip(o.len() as int).len() == 1,
        o.push(b).skip(o.len() as int)[0] == b,
        forall|k: int| 0 <= k < o.len() ==> #[trigger] o.push(b).skip(k)[0] == o[k],
{
}

} // verus!
