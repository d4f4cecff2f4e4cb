use freax::bio::{BCache, Bget, Bread, NBUF};
use freax::buf::{Buf, B_BUSY, B_DIRTY, B_VALID};
use freax::disk::Disk;
use freax::log::{begin_op, commit, commit_op, end_op, stage_op, initlog, install_trans, log_write, read_head, write_head, write_log};

fn put32(b: &mut [u8], off: usize, v: u32) {
    b[off..off + 4].copy_from_slice(&v.to_le_bytes());
}

fn get32(b: &[u8], off: usize) -> u32 {
    u32::from_le_bytes(b[off..off + 4].try_into().unwrap())
}

/// A disk whose super block puts a 12-block log at block 88.
fn log_disk() -> Disk {
    let mut d = Disk { blocks: vec![vec![0u8; 512]; 100] };
    put32(&mut d.blocks[1], 0, 100);
    put32(&mut d.blocks[1], 8, 16);
    put32(&mut d.blocks[1], 12, 12);
    d
}

#[test]
fn initlog_recovers_committed_transaction() {
    let mut d = log_disk();
    // a committed header naming blocks 20 and 21, with their new contents
    put32(&mut d.blocks[88], 0, 2);
    put32(&mut d.blocks[88], 4, 20);
    put32(&mut d.blocks[88], 8, 21);
    d.blocks[89] = vec![0xA1; 512];
    d.blocks[90] = vec![0xB2; 512];
    let log = initlog(&mut d);
    assert_eq!(log.start, 88);
    assert_eq!(log.size, 12);
    assert_eq!(log.lh.n, 0);
    assert_eq!(d.blocks[20], vec![0xA1; 512]);
    assert_eq!(d.blocks[21], vec![0xB2; 512]);
    assert_eq!(get32(&d.blocks[88], 0), 0);
}

#[test]
fn initlog_with_empty_log_changes_nothing() {
    let mut d = log_disk();
    d.blocks[20] = vec![7; 512];
    let before = d.blocks.clone();
    let log = initlog(&mut d);
    assert_eq!(log.lh.n, 0);
    assert_eq!(d.blocks, before);
}

#[test]
fn begin_op_admits_while_room() {
    let mut d = log_disk();
    let mut log = initlog(&mut d);
    assert!(begin_op(&mut log));
    assert_eq!(log.outstanding, 1);
    // a second operation might overflow the log: it must wait
    assert!(!begin_op(&mut log));
    assert_eq!(log.outstanding, 1);
    log.committing = 1;
    log.outstanding = 0;
    assert!(!begin_op(&mut log));
}

#[test]
fn log_write_absorbs_repeated_blocks() {
    let mut d = log_disk();
    let mut log = initlog(&mut d);
    assert!(begin_op(&mut log));
    let mut b = Buf::new();
    b.flags = B_BUSY | B_VALID;
    b.blockno = 30;
    log_write(&mut log, &mut b);
    assert_eq!(log.lh.n, 1);
    assert_eq!(log.lh.block[0], 30);
    assert_eq!(b.flags, B_BUSY | B_VALID | B_DIRTY);
    log_write(&mut log, &mut b);
    assert_eq!(log.lh.n, 1);
    let mut c = Buf::new();
    c.blockno = 31;
    log_write(&mut log, &mut c);
    assert_eq!(log.lh.n, 2);
    assert_eq!(&log.lh.block[0..2], &[30, 31]);
}

#[test]
fn end_op_commits_last_operation() {
    let mut d = log_disk();
    let mut log = initlog(&mut d);
    assert!(begin_op(&mut log));
    // the operation changes block 30 in the cache only
    let mut cache = Disk { blocks: d.blocks.clone() };
    cache.blocks[30] = vec![0x5A; 512];
    let mut b = Buf::new();
    b.blockno = 30;
    log_write(&mut log, &mut b);
    assert_eq!(d.blocks[30], vec![0; 512]);
    assert!(end_op(&mut log, &mut d, &cache));
    assert_eq!(log.lh.n, 0);
    assert_eq!(log.outstanding, 0);
    // the block went through the log and the header is cleared again
    assert_eq!(d.blocks[89], vec![0x5A; 512]);
    assert_eq!(d.blocks[30], vec![0x5A; 512]);
    assert_eq!(get32(&d.blocks[88], 0), 0);
}

#[test]
fn commit_pieces() {
    let mut d = log_disk();
    let mut log = initlog(&mut d);
    log.lh.n = 2;
    log.lh.block[0] = 40;
    log.lh.block[1] = 41;
    let mut cache = Disk { blocks: d.blocks.clone() };
    cache.blocks[40] = vec![4; 512];
    cache.blocks[41] = vec![5; 512];
    write_log(&log, &mut d, &cache);
    assert_eq!(d.blocks[89], vec![4; 512]);
    assert_eq!(d.blocks[90], vec![5; 512]);
    assert_eq!(d.blocks[40], vec![0; 512]);
    // a crash before the header is written recovers nothing
    let mut crashed = Disk { blocks: d.blocks.clone() };
    initlog(&mut crashed);
    assert_eq!(crashed.blocks[40], vec![0; 512]);
    write_head(&log, &mut d);
    // a crash after it recovers both blocks
    let mut crashed = Disk { blocks: d.blocks.clone() };
    initlog(&mut crashed);
    assert_eq!(crashed.blocks[40], vec![4; 512]);
    assert_eq!(crashed.blocks[41], vec![5; 512]);
    assert_eq!(get32(&d.blocks[88], 0), 2);
    assert_eq!(get32(&d.blocks[88], 8), 41);
    let mut fresh = initlog(&mut log_disk());
    read_head(&mut fresh, &d);
    assert_eq!(fresh.lh.n, 2);
    assert_eq!(&fresh.lh.block[0..2], &[40, 41]);
    install_trans(&log, &mut d);
    assert_eq!(d.blocks[40], vec![4; 512]);
    assert_eq!(d.blocks[41], vec![5; 512]);
    commit(&mut log, &mut d, &cache);
    assert_eq!(log.lh.n, 0);
    assert_eq!(get32(&d.blocks[88], 0), 0);
    assert_eq!(d.blocks[41], vec![5; 512]);
    // committing an empty transaction writes nothing
    let before = d.blocks.clone();
    commit(&mut log, &mut d, &cache);
    assert_eq!(d.blocks, before);
}

#[test]
fn buffer_cache_recycles_least_recently_used() {
    let mut bc = BCache::binit();
    assert_eq!(bc.bufs.len(), NBUF);
    assert_eq!(bc.bget(1, 5), Bget::Recycled(0));
    assert_eq!(bc.bufs[0].flags, B_BUSY);
    assert_eq!(bc.bufs[0].blockno, 5);
    // held by someone else: wait
    assert_eq!(bc.bget(1, 5), Bget::Busy(0));
    bc.brelse(0);
    assert_eq!(bc.order[0], 0);
    assert_eq!(bc.bufs[0].flags, 0);
    assert_eq!(bc.bget(1, 5), Bget::Cached(0));
    bc.brelse(0);
    // another block takes the buffer at the cold end
    assert_eq!(bc.bread(1, 7), Bread::NeedsRead(1));
    bc.bufs[1].flags |= B_VALID;
    bc.bwrite(1);
    assert_eq!(bc.bufs[1].flags, B_BUSY | B_VALID | B_DIRTY);
    bc.brelse(1);
    assert_eq!(bc.bread(1, 7), Bread::Ready(1));
    assert_eq!(bc.bread(1, 7), Bread::Wait(1));
}

#[test]
fn buf_flags() {
    let mut b = Buf::new();
    assert_eq!(b.data, vec![0u8; 512]);
    b.set_flag(B_BUSY);
    b.set_flag(B_DIRTY);
    assert!(b.is_flag_set(B_DIRTY));
    b.clear_flag(B_DIRTY);
    assert!(!b.is_flag_set(B_DIRTY));
    assert!(b.is_flag_set(B_BUSY));
}

#[test]
fn commit_op_installs_an_operation_through_the_log() {
    let mut d = log_disk();
    let mut log = initlog(&mut d);
    let mut new = Disk { blocks: d.blocks.clone() };
    new.blocks[30] = vec![0x33; 512];
    new.blocks[7][5] = 9;
    // staging writes only the log blocks, in increasing block order
    let mut staged = Disk { blocks: d.blocks.clone() };
    let mut slog = initlog(&mut staged);
    stage_op(&mut slog, &mut staged, &new);
    assert_eq!(slog.lh.n, 2);
    assert_eq!(&slog.lh.block[..2], &[7, 30]);
    assert_eq!(staged.blocks[89], new.blocks[7]);
    assert_eq!(staged.blocks[90], new.blocks[30]);
    assert_eq!(staged.blocks[30], d.blocks[30]);
    assert_eq!(get32(&staged.blocks[88], 0), 0);
    // a crash now recovers the old contents
    let mut crashed = Disk { blocks: staged.blocks.clone() };
    initlog(&mut crashed);
    assert_eq!(crashed.blocks[30], d.blocks[30]);
    // once the header is written, a crash recovers the new contents
    write_head(&slog, &mut staged);
    initlog(&mut staged);
    assert_eq!(staged.blocks[30], vec![0x33; 512]);
    assert_eq!(staged.blocks[7], new.blocks[7]);
    // the whole commit
    commit_op(&mut log, &mut d, &new);
    assert_eq!(log.lh.n, 0);
    assert_eq!(d.blocks[30], vec![0x33; 512]);
    assert_eq!(d.blocks[7], new.blocks[7]);
    assert_eq!(get32(&d.blocks[88], 0), 0);
    for b in 0..88 {
        assert_eq!(d.blocks[b], new.blocks[b]);
    }
}
