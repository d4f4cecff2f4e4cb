use freax::dir::{dirlink, dirlookup, namecmp, skipelem};
use freax::disk::{balloc, bfree, bzero, readsb, Disk};
use freax::file::{
    filealloc, fileclose, filedup, fileinit, fileread, fileread_dev_done, filestat, filewrite, filewrite_dev_step,
    Closed, DevWrite, FileType, Io, MAXWRITE,
};
use freax::fs::{file_blocks_check, fits_check, fs_check, itrunc, iupdate, readi, stati, writei, bmap, min, Devsw, Rw, Stat, T_DEV, T_DIR, T_FILE};
use freax::fs_layout::{bblock, iblock, Dinode, Dirent, Superblock};
use freax::icache::{empty_inode, iget, iinit, ialloc, idup, ilock, iput, iunlock, iunlockput, ICache};
use freax::path::{namei, nameiparent};
use freax::exec::exec;
use freax::log::{commit_op, initlog};

fn put16(b: &mut [u8], off: usize, v: u16) {
    b[off..off + 2].copy_from_slice(&v.to_le_bytes());
}

fn put32(b: &mut [u8], off: usize, v: u32) {
    b[off..off + 4].copy_from_slice(&v.to_le_bytes());
}

fn mark(d: &mut Disk, b: usize) {
    d.blocks[5][b / 8] |= 1 << (b % 8);
}

fn used(d: &Disk, b: usize) -> bool {
    d.blocks[5][b / 8] & (1 << (b % 8)) != 0
}

fn put_inode(d: &mut Disk, inum: usize, typ: i16, nlink: i16, size: u32, addrs: &[u32]) {
    let blk = &mut d.blocks[2 + inum / 8];
    let off = (inum % 8) * 64;
    put16(blk, off, typ as u16);
    put16(blk, off + 6, nlink as u16);
    put32(blk, off + 16, size);
    for (k, a) in addrs.iter().enumerate() {
        put32(blk, off + 20 + 4 * k, *a);
    }
}

fn put_dirent(blk: &mut [u8], slot: usize, inum: u16, name: &[u8]) {
    let off = slot * 16;
    put16(blk, off, inum);
    blk[off + 2..off + 2 + name.len()].copy_from_slice(name);
}

/// A file system of 100 blocks and 16 inodes: the root directory (inode 1,
/// block 6) holds ".", ".." and "hello", a five-byte file (inode 2, block 7).
fn mkfs() -> Disk {
    let mut d = Disk { blocks: vec![vec![0u8; 512]; 100] };
    put32(&mut d.blocks[1], 0, 100);
    put32(&mut d.blocks[1], 4, 82);
    put32(&mut d.blocks[1], 8, 16);
    put32(&mut d.blocks[1], 12, 12);
    for b in 0..8 {
        mark(&mut d, b);
    }
    for b in 88..100 {
        mark(&mut d, b);
    }
    put_inode(&mut d, 1, T_DIR, 1, 48, &[6]);
    put_inode(&mut d, 2, T_FILE, 1, 5, &[7]);
    put_dirent(&mut d.blocks[6], 0, 1, b".");
    put_dirent(&mut d.blocks[6], 1, 1, b"..");
    put_dirent(&mut d.blocks[6], 2, 2, b"hello");
    d.blocks[7][0..5].copy_from_slice(b"hello");
    d
}

fn no_devices() -> Vec<Devsw> {
    vec![Devsw { read: false, write: false }; 10]
}

/// Takes a cache entry for inode `inum` and locks it.
fn open_inode(c: &mut ICache, d: &Disk, inum: u32) -> usize {
    let i = iget(c, 1, inum);
    assert!(ilock(c, d, i));
    i
}

#[test]
fn layout_helpers() {
    assert_eq!(iblock(17), 4);
    assert_eq!(bblock(5000, 16), 6);
    let d = mkfs();
    assert_eq!(readsb(&d), Superblock { size: 100, nblocks: 82, ninodes: 16, nlog: 12 });
    let din = Dinode::decode(&d.blocks[2], 128);
    assert_eq!(din.type_, T_FILE);
    assert_eq!(din.size, 5);
    assert_eq!(din.addrs[0], 7);
    let de = Dirent::decode(&d.blocks[6], 32);
    assert_eq!(de.inum, 2);
    assert_eq!(&de.name[0..5], b"hello");
    assert_eq!(de.encode(), d.blocks[6][32..48].to_vec());
    assert_eq!(min(3, 9), 3);
}

#[test]
fn balloc_takes_first_free_block_and_bfree_returns_it() {
    let mut d = mkfs();
    d.blocks[8][3] = 0xAA;
    let b = balloc(&mut d);
    assert_eq!(b, 8);
    assert!(used(&d, 8));
    assert_eq!(d.blocks[8], vec![0u8; 512]);
    assert_eq!(balloc(&mut d), 9);
    bfree(&mut d, 8);
    assert!(!used(&d, 8));
    assert!(used(&d, 9));
    assert_eq!(balloc(&mut d), 8);
    d.blocks[20][0] = 1;
    bzero(&mut d, 20);
    assert_eq!(d.blocks[20], vec![0u8; 512]);
}

#[test]
fn ilock_reads_inode_from_disk() {
    let d = mkfs();
    let mut c = iinit();
    let i = iget(&mut c, 1, 2);
    assert_eq!(i, 0);
    assert_eq!(c.inode[i].ref_count, 1);
    assert_eq!(iget(&mut c, 1, 2), 0);
    assert_eq!(c.inode[0].ref_count, 2);
    assert_eq!(iget(&mut c, 1, 1), 1);
    idup(&mut c, 1);
    assert_eq!(c.inode[1].ref_count, 2);
    assert!(ilock(&mut c, &d, i));
    assert_eq!(c.inode[i].type_, T_FILE);
    assert_eq!(c.inode[i].size, 5);
    assert_eq!(c.inode[i].addrs[0], 7);
    // locked already: the caller must wait
    assert!(!ilock(&mut c, &d, i));
    iunlock(&mut c, i);
    assert!(ilock(&mut c, &d, i));
    let mut st = Stat { type_: 0, dev: 0, ino: 0, nlink: 0, ownerid: 0, groupid: 0, mode: 0, size: 0 };
    stati(&c.inode[i], &mut st);
    assert_eq!(st, Stat { type_: T_FILE, dev: 1, ino: 2, nlink: 1, ownerid: 0, groupid: 0, mode: 0, size: 5 });
}

#[test]
fn readi_reads_file_bytes() {
    let mut d = mkfs();
    let mut c = iinit();
    let i = open_inode(&mut c, &d, 2);
    let devsw = no_devices();
    let mut dst = vec![0u8; 16];
    assert_eq!(readi(&mut d, &mut c.inode[i], &devsw, &mut dst, 0, 5), Rw::Done(5));
    assert_eq!(&dst[0..5], b"hello");
    // a read past the end is cut short
    let mut dst = vec![9u8; 16];
    assert_eq!(readi(&mut d, &mut c.inode[i], &devsw, &mut dst, 1, 10), Rw::Done(4));
    assert_eq!(&dst[0..5], b"ello\x09");
    // a read starting past the end fails
    assert_eq!(readi(&mut d, &mut c.inode[i], &devsw, &mut dst, 6, 1), Rw::Done(-1));
    assert_eq!(readi(&mut d, &mut c.inode[i], &devsw, &mut dst, 5, 0), Rw::Done(0));
}

#[test]
fn read_after_write_gives_written_bytes() {
    let mut d = mkfs();
    let mut c = iinit();
    let i = open_inode(&mut c, &d, 2);
    let devsw = no_devices();
    assert_eq!(writei(&mut d, &mut c.inode[i], &devsw, &b" world".to_vec(), 5, 6), Rw::Done(6));
    assert_eq!(c.inode[i].size, 11);
    let mut dst = vec![0u8; 11];
    assert_eq!(readi(&mut d, &mut c.inode[i], &devsw, &mut dst, 0, 11), Rw::Done(11));
    assert_eq!(dst, b"hello world".to_vec());
    // the inode on disk has the new size
    assert_eq!(Dinode::decode(&d.blocks[2], 128).size, 11);
    // a write across a block boundary allocates the next block
    let big: Vec<u8> = (0..600).map(|k| (k % 256) as u8).collect();
    assert_eq!(writei(&mut d, &mut c.inode[i], &devsw, &big, 11, 600), Rw::Done(600));
    assert_eq!(c.inode[i].addrs[1], 8);
    assert!(used(&d, 8));
    let mut all = vec![0u8; 611];
    assert_eq!(readi(&mut d, &mut c.inode[i], &devsw, &mut all, 0, 611), Rw::Done(611));
    assert_eq!(&all[0..11], b"hello world");
    assert_eq!(&all[11..], &big[..]);
    // overwriting the middle keeps the rest and the size
    assert_eq!(writei(&mut d, &mut c.inode[i], &devsw, &b"J".to_vec(), 0, 1), Rw::Done(1));
    assert_eq!(c.inode[i].size, 611);
    let mut head = vec![0u8; 5];
    readi(&mut d, &mut c.inode[i], &devsw, &mut head, 0, 5);
    assert_eq!(head, b"Jello".to_vec());
    // a write that starts past the end fails
    assert_eq!(writei(&mut d, &mut c.inode[i], &devsw, &b"x".to_vec(), 700, 1), Rw::Done(-1));
}

#[test]
fn bmap_maps_and_allocates() {
    let mut d = mkfs();
    let mut c = iinit();
    let i = open_inode(&mut c, &d, 2);
    assert_eq!(bmap(&mut d, &mut c.inode[i], 0), 7);
    assert_eq!(bmap(&mut d, &mut c.inode[i], 3), 8);
    // a block past the direct ones takes an indirect block too
    assert_eq!(bmap(&mut d, &mut c.inode[i], 12), 10);
    assert_eq!(c.inode[i].addrs[10], 9);
    assert_eq!(u32::from_le_bytes(d.blocks[9][8..12].try_into().unwrap()), 10);
    assert_eq!(bmap(&mut d, &mut c.inode[i], 12), 10);
    // mapping a block again allocates nothing
    let before = d.blocks.clone();
    assert_eq!(bmap(&mut d, &mut c.inode[i], 3), 8);
    assert_eq!(d.blocks, before);
}

#[test]
fn itrunc_frees_blocks() {
    let mut d = mkfs();
    let mut c = iinit();
    let i = open_inode(&mut c, &d, 2);
    let devsw = no_devices();
    let big = vec![1u8; 700];
    writei(&mut d, &mut c.inode[i], &devsw, &big, 0, 700);
    assert!(used(&d, 8));
    itrunc(&mut d, &mut c.inode[i]);
    assert_eq!(c.inode[i].size, 0);
    assert_eq!(c.inode[i].addrs, vec![0u32; 11]);
    assert!(!used(&d, 7) && !used(&d, 8));
    let din = Dinode::decode(&d.blocks[2], 128);
    assert_eq!(din.size, 0);
    assert_eq!(din.addrs[0], 0);
    assert_eq!(balloc(&mut d), 7);
}

#[test]
fn iupdate_writes_inode_back() {
    let mut d = mkfs();
    let mut c = iinit();
    let i = open_inode(&mut c, &d, 2);
    c.inode[i].nlink = 3;
    c.inode[i].mode = 0o644;
    iupdate(&mut d, &c.inode[i]);
    let din = Dinode::decode(&d.blocks[2], 128);
    assert_eq!(din.nlink, 3);
    assert_eq!(din.mode, 0o644);
    assert_eq!(din.size, 5);
    // the neighbouring inode is untouched
    assert_eq!(Dinode::decode(&d.blocks[2], 64).size, 48);
}

#[test]
fn device_inodes_go_to_their_driver() {
    let mut d = mkfs();
    let mut ip = empty_inode();
    ip.type_ = T_DEV;
    ip.major = 1;
    let mut devsw = no_devices();
    let mut dst = vec![0u8; 4];
    assert_eq!(readi(&mut d, &mut ip, &devsw, &mut dst, 0, 4), Rw::Done(-1));
    devsw[1] = Devsw { read: true, write: true };
    assert_eq!(readi(&mut d, &mut ip, &devsw, &mut dst, 0, 4), Rw::Device(1));
    assert_eq!(writei(&mut d, &mut ip, &devsw, &dst, 0, 4), Rw::Device(1));
}

#[test]
fn ialloc_and_iput_free_unlinked_inode() {
    let mut d = mkfs();
    let mut c = iinit();
    let (i, inum) = ialloc(&mut c, &mut d, 1, T_FILE);
    assert_eq!(inum, 3);
    assert_eq!(Dinode::decode(&d.blocks[2], 192).type_, T_FILE);
    assert!(ilock(&mut c, &d, i));
    assert_eq!(c.inode[i].nlink, 0);
    let devsw = no_devices();
    writei(&mut d, &mut c.inode[i], &devsw, &b"tmp".to_vec(), 0, 3);
    assert!(used(&d, 8));
    // last reference to an inode nothing links to: it is freed
    iunlockput(&mut c, &mut d, i);
    assert_eq!(c.inode[i].ref_count, 0);
    assert_eq!(Dinode::decode(&d.blocks[2], 192).type_, 0);
    assert!(!used(&d, 8));
    // a linked inode stays
    let j = open_inode(&mut c, &d, 2);
    iunlock(&mut c, j);
    iput(&mut c, &mut d, j);
    assert_eq!(c.inode[j].ref_count, 0);
    assert_eq!(Dinode::decode(&d.blocks[2], 128).type_, T_FILE);
}

#[test]
fn namecmp_compares_names() {
    assert_eq!(namecmp(b"hello", b"hello"), 0);
    assert_eq!(namecmp(b"a", b"b"), -1);
    assert_eq!(namecmp(b"b", b"a"), 1);
    assert_eq!(namecmp(b"abcdefghijklmnX", b"abcdefghijklmnY"), 0);
}

#[test]
fn skipelem_examples() {
    let mut name = [0u8; 14];
    assert_eq!(skipelem(b"a/bb/c", &mut name), Some(2));
    assert_eq!(&name[0..2], b"a\0");
    assert_eq!(skipelem(b"///a//bb", &mut name), Some(6));
    assert_eq!(&name[0..2], b"a\0");
    assert_eq!(skipelem(b"a", &mut name), Some(1));
    assert_eq!(skipelem(b"", &mut name), None);
    assert_eq!(skipelem(b"////", &mut name), None);
    let mut long = [0u8; 14];
    assert_eq!(skipelem(b"abcdefghijklmnopq/x", &mut long), Some(18));
    assert_eq!(&long, b"abcdefghijklmn");
}

#[test]
fn dirlookup_finds_entries() {
    let mut d = mkfs();
    let mut c = iinit();
    let dp = open_inode(&mut c, &d, 1);
    let (idx, off) = dirlookup(&mut c, &mut d, dp, b"hello").unwrap();
    assert_eq!(off, 32);
    assert_eq!(c.inode[idx].inum, 2);
    assert_eq!(c.inode[idx].ref_count, 1);
    assert_eq!(dirlookup(&mut c, &mut d, dp, b"nope"), None);
    let (dot, off) = dirlookup(&mut c, &mut d, dp, b"..").unwrap();
    assert_eq!(off, 16);
    assert_eq!(dot, dp);
}

#[test]
fn lookup_after_link() {
    let mut d = mkfs();
    let mut c = iinit();
    let dp = open_inode(&mut c, &d, 1);
    assert_eq!(dirlink(&mut c, &mut d, dp, b"new", 5), 0);
    assert_eq!(c.inode[dp].size, 64);
    let (idx, off) = dirlookup(&mut c, &mut d, dp, b"new").unwrap();
    assert_eq!(off, 48);
    assert_eq!(c.inode[idx].inum, 5);
    // an existing name is refused
    assert_eq!(dirlink(&mut c, &mut d, dp, b"hello", 9), -1);
    let (h, _) = dirlookup(&mut c, &mut d, dp, b"hello").unwrap();
    assert_eq!(c.inode[h].inum, 2);
    // a freed entry is reused
    d.blocks[6][32] = 0;
    d.blocks[6][33] = 0;
    assert_eq!(dirlink(&mut c, &mut d, dp, b"again", 7), 0);
    assert_eq!(c.inode[dp].size, 64);
    assert_eq!(&d.blocks[6][32..40], &[7, 0, b'a', b'g', b'a', b'i', b'n', 0]);
}

#[test]
fn namei_walks_paths() {
    let mut d = mkfs();
    let mut c = iinit();
    let f = namei(&mut c, &mut d, 0, b"/hello").unwrap();
    assert_eq!(c.inode[f].inum, 2);
    assert_eq!(c.inode[f].ref_count, 1);
    let root = namei(&mut c, &mut d, 0, b"/").unwrap();
    assert_eq!(c.inode[root].inum, 1);
    assert_eq!(namei(&mut c, &mut d, 0, b"/nope"), None);
    assert_eq!(namei(&mut c, &mut d, 0, b"/hello/x"), None);
    // relative to the current directory
    let g = namei(&mut c, &mut d, root, b"./hello").unwrap();
    assert_eq!(g, f);
    assert_eq!(c.inode[f].ref_count, 2);
    let mut name = [0u8; 14];
    let p = nameiparent(&mut c, &mut d, 0, b"/hello", &mut name).unwrap();
    assert_eq!(c.inode[p].inum, 1);
    assert_eq!(&name[0..6], b"hello\0");
    assert_eq!(nameiparent(&mut c, &mut d, 0, b"/", &mut name), None);
}

#[test]
fn file_table_lifecycle() {
    let mut ft = fileinit();
    let a = filealloc(&mut ft).unwrap();
    let b = filealloc(&mut ft).unwrap();
    assert_eq!((a, b), (0, 1));
    assert_eq!(ft.file[a].ref_count, 1);
    filedup(&mut ft, a);
    assert_eq!(ft.file[a].ref_count, 2);
    assert_eq!(fileclose(&mut ft, a), Closed::StillOpen);
    assert_eq!(fileclose(&mut ft, a), Closed::Nothing);
    assert_eq!(ft.file[a].ref_count, 0);
    ft.file[b].file_type = FileType::FdPipe;
    ft.file[b].pipe = Some(4);
    ft.file[b].writable = true;
    assert_eq!(fileclose(&mut ft, b), Closed::Pipe(4, true));
    assert_eq!(ft.file[b].file_type, FileType::FdNone);
    let c = filealloc(&mut ft).unwrap();
    ft.file[c].file_type = FileType::FdInode;
    ft.file[c].ip = Some(3);
    assert_eq!(fileclose(&mut ft, c), Closed::Inode(3));
}

#[test]
fn file_read_write_through_inode() {
    let mut d = mkfs();
    let mut c = iinit();
    let i = iget(&mut c, 1, 2);
    assert!(ilock(&mut c, &d, i));
    iunlock(&mut c, i);
    let mut ft = fileinit();
    let f = filealloc(&mut ft).unwrap();
    ft.file[f].file_type = FileType::FdInode;
    ft.file[f].ip = Some(i);
    ft.file[f].readable = true;
    ft.file[f].writable = true;
    let devsw = no_devices();
    let mut st = Stat { type_: 0, dev: 0, ino: 0, nlink: 0, ownerid: 0, groupid: 0, mode: 0, size: 0 };
    assert_eq!(filestat(&ft, f, &mut c, &d, &mut st), 0);
    assert_eq!(st.size, 5);
    let mut dst = vec![0u8; 3];
    assert_eq!(fileread(&mut ft, f, &mut c, &mut d, &devsw, &mut dst, 3), Io::Done(3));
    assert_eq!(dst, b"hel".to_vec());
    assert_eq!(ft.file[f].off, 3);
    assert_eq!(filewrite(&mut ft, f, &mut c, &mut d, &devsw, &b"LO!".to_vec(), 3), Io::Done(3));
    assert_eq!(ft.file[f].off, 6);
    ft.file[f].off = 0;
    let mut all = vec![0u8; 10];
    assert_eq!(fileread(&mut ft, f, &mut c, &mut d, &devsw, &mut all, 10), Io::Done(6));
    assert_eq!(&all[0..6], b"helLO!");
    // a long write goes in chunks and lands whole
    let big: Vec<u8> = (0..4000).map(|k| (k % 97) as u8).collect();
    ft.file[f].off = 0;
    assert_eq!(filewrite(&mut ft, f, &mut c, &mut d, &devsw, &big, 4000), Io::Done(4000));
    assert_eq!(ft.file[f].off, 4000);
    ft.file[f].off = 0;
    let mut back = vec![0u8; 4000];
    assert_eq!(fileread(&mut ft, f, &mut c, &mut d, &devsw, &mut back, 4000), Io::Done(4000));
    assert_eq!(back, big);
    // not open for reading
    ft.file[f].readable = false;
    assert_eq!(fileread(&mut ft, f, &mut c, &mut d, &devsw, &mut dst, 3), Io::Done(-1));
    assert_eq!(filestat(&ft, 5, &mut c, &d, &mut st), -1);
}

fn put64(b: &mut [u8], off: usize, v: u64) {
    b[off..off + 8].copy_from_slice(&v.to_le_bytes());
}

/// `mkfs` with a program "prog" (inode 3, block 8): one loadable segment
/// of 0x1800 bytes at address 0, and a note segment.
fn mkfs_with_program() -> Disk {
    let mut d = mkfs();
    mark(&mut d, 8);
    put_inode(&mut d, 3, T_FILE, 1, 176, &[8]);
    put_dirent(&mut d.blocks[6], 3, 3, b"prog");
    put_inode(&mut d, 1, T_DIR, 1, 64, &[6]);
    let b = &mut d.blocks[8];
    put32(b, 0, 0x464C_457F);
    put64(b, 24, 0x20);
    put64(b, 32, 64);
    put16(b, 56, 2);
    put32(b, 64, 1);
    put32(b, 68, 5);
    put64(b, 64 + 8, 0);
    put64(b, 64 + 16, 0);
    put64(b, 64 + 32, 176);
    put64(b, 64 + 40, 0x1800);
    put32(b, 120, 4);
    d
}

#[test]
fn exec_prepares_program_image() {
    let mut d = mkfs_with_program();
    let mut c = iinit();
    let argv = vec![b"prog".to_vec(), b"x".to_vec()];
    let im = exec(&mut c, &mut d, 0, b"/prog", &argv).unwrap();
    assert_eq!(im.entry, 0x20);
    assert_eq!(im.segments.len(), 1);
    assert_eq!(im.segments[0].memsz, 0x1800);
    assert_eq!(im.segments[0].filesz, 176);
    assert_eq!(im.stack.sz, 0x4000);
    assert_eq!(im.stack.ustack[1], 2);
    assert_eq!(im.name, b"prog".to_vec());
    // every reference taken is dropped
    assert!(c.inode.iter().all(|e| e.ref_count == 0));
    // not a program, or not there
    assert!(exec(&mut c, &mut d, 0, b"/hello", &argv).is_none());
    assert!(exec(&mut c, &mut d, 0, b"/missing", &argv).is_none());
}

#[test]
fn pipes_and_devices_go_elsewhere() {
    let mut d = mkfs();
    let mut c = iinit();
    let mut ft = fileinit();
    let p = filealloc(&mut ft).unwrap();
    ft.file[p].file_type = FileType::FdPipe;
    ft.file[p].pipe = Some(2);
    ft.file[p].readable = true;
    ft.file[p].writable = true;
    let mut devsw = no_devices();
    let mut dst = vec![0u8; 4];
    assert_eq!(fileread(&mut ft, p, &mut c, &mut d, &devsw, &mut dst, 4), Io::Pipe(2));
    assert_eq!(filewrite(&mut ft, p, &mut c, &mut d, &devsw, &dst, 4), Io::Pipe(2));
    // a console-like device inode
    let i = iget(&mut c, 1, 9);
    c.inode[i].flags = 2;
    c.inode[i].type_ = T_DEV;
    c.inode[i].major = 1;
    c.inode[i].nlink = 1;
    let f = filealloc(&mut ft).unwrap();
    ft.file[f].file_type = FileType::FdInode;
    ft.file[f].ip = Some(i);
    ft.file[f].readable = true;
    ft.file[f].writable = true;
    assert_eq!(fileread(&mut ft, f, &mut c, &mut d, &devsw, &mut dst, 4), Io::Done(-1));
    devsw[1] = Devsw { read: true, write: true };
    assert_eq!(fileread(&mut ft, f, &mut c, &mut d, &devsw, &mut dst, 4), Io::Device(1));
    assert_eq!(filewrite(&mut ft, f, &mut c, &mut d, &devsw, &dst, 4), Io::Device(1));
    assert_eq!(ft.file[f].off, 0);
}

#[test]
fn dirlookup_compares_over_the_shorter_name() {
    let mut d = mkfs();
    let mut c = iinit();
    let dp = open_inode(&mut c, &d, 1);
    // "hel" and "hello" agree over their common length
    let (idx, off) = dirlookup(&mut c, &mut d, dp, b"hel").unwrap();
    assert_eq!(off, 32);
    assert_eq!(c.inode[idx].inum, 2);
    assert_eq!(dirlookup(&mut c, &mut d, dp, b"help"), None);
}

#[test]
fn device_writes_go_in_chunks() {
    let mut ft = fileinit();
    let i = filealloc(&mut ft).unwrap();
    ft.file[i].off = 10;
    let n = 2 * MAXWRITE + 100;
    assert_eq!(filewrite_dev_step(&mut ft, i, n, 0, MAXWRITE), DevWrite::Chunk(MAXWRITE, MAXWRITE));
    assert_eq!(ft.file[i].off, 10 + MAXWRITE as u32);
    assert_eq!(filewrite_dev_step(&mut ft, i, n, MAXWRITE, MAXWRITE), DevWrite::Chunk(2 * MAXWRITE, 100));
    assert_eq!(filewrite_dev_step(&mut ft, i, n, 2 * MAXWRITE, 100), DevWrite::Finished(n));
    assert_eq!(ft.file[i].off, 10 + n as u32);
    // a failing chunk ends the write and leaves the offset
    assert_eq!(filewrite_dev_step(&mut ft, i, n, 0, -1), DevWrite::Finished(-1));
    assert_eq!(ft.file[i].off, 10 + n as u32);
    // a read advances the offset by what the driver returned
    assert_eq!(fileread_dev_done(&mut ft, i, 7), 7);
    assert_eq!(ft.file[i].off, 17 + n as u32);
    assert_eq!(fileread_dev_done(&mut ft, i, -1), -1);
    assert_eq!(ft.file[i].off, 17 + n as u32);
}

#[test]
fn file_write_committed_through_the_log() {
    let mut d = mkfs();
    let mut log = initlog(&mut d);
    assert_eq!(log.start, 88);
    // the write happens on the in-memory image of the blocks
    let mut img = Disk { blocks: d.blocks.clone() };
    let mut c = iinit();
    let i = open_inode(&mut c, &img, 2);
    let devsw = no_devices();
    assert_eq!(writei(&mut img, &mut c.inode[i], &devsw, &b" world".to_vec(), 5, 6), Rw::Done(6));
    assert_eq!(d.blocks[7][..5], *b"hello");
    // and reaches the device when the operation commits
    commit_op(&mut log, &mut d, &img);
    assert_eq!(&d.blocks[7][..11], b"hello world");
    assert_eq!(Dinode::decode(&d.blocks[2], 128).size, 11);
    let mut c2 = iinit();
    let j = open_inode(&mut c2, &d, 2);
    let mut dst = vec![0u8; 11];
    assert_eq!(readi(&mut d, &mut c2.inode[j], &devsw, &mut dst, 0, 11), Rw::Done(11));
    assert_eq!(dst, b"hello world".to_vec());
}

#[test]
fn image_checks() {
    let d = mkfs();
    assert!(fs_check(&d));
    // a metadata block the bitmap calls free
    let mut bad = Disk { blocks: d.blocks.clone() };
    bad.blocks[5][0] &= !(1 << 3);
    assert!(!fs_check(&bad));
    // a super block larger than the disk
    let mut big = Disk { blocks: d.blocks.clone() };
    put32(&mut big.blocks[1], 0, 200);
    assert!(!fs_check(&big));
    // a file whose blocks are data blocks in use, each once
    let mut a = vec![0u32; 11];
    a[0] = 7;
    assert!(file_blocks_check(&d, &a));
    a[1] = 7;
    assert!(!file_blocks_check(&d, &a));
    a[1] = 8;
    assert!(!file_blocks_check(&d, &a)); // block 8 is free
    a[1] = 3;
    assert!(!file_blocks_check(&d, &a)); // block 3 is metadata
    assert!(!file_blocks_check(&d, &vec![0u32; 10]));
}

#[test]
fn file_io_on_a_full_disk() {
    let mut d = mkfs();
    for b in 0..100 {
        mark(&mut d, b);
    }
    let mut c = iinit();
    let i = iget(&mut c, 1, 2);
    assert!(ilock(&mut c, &d, i));
    iunlock(&mut c, i);
    let mut ft = fileinit();
    let f = filealloc(&mut ft).unwrap();
    ft.file[f].file_type = FileType::FdInode;
    ft.file[f].ip = Some(i);
    ft.file[f].readable = true;
    ft.file[f].writable = true;
    let devsw = no_devices();
    // writing and reading inside the file's one block needs no free block
    assert_eq!(filewrite(&mut ft, f, &mut c, &mut d, &devsw, &b"HEL".to_vec(), 3), Io::Done(3));
    ft.file[f].off = 0;
    let mut dst = vec![0u8; 5];
    assert_eq!(fileread(&mut ft, f, &mut c, &mut d, &devsw, &mut dst, 5), Io::Done(5));
    assert_eq!(dst, b"HELlo".to_vec());
    let mut st = Stat { type_: 0, dev: 0, ino: 0, nlink: 0, ownerid: 0, groupid: 0, mode: 0, size: 0 };
    assert_eq!(filestat(&ft, f, &mut c, &d, &mut st), 0);
    assert_eq!(st.size, 5);
}

#[test]
fn exec_on_a_full_disk() {
    let mut d = mkfs_with_program();
    for b in 0..100 {
        mark(&mut d, b);
    }
    let mut c = iinit();
    let argv = vec![b"prog".to_vec()];
    let im = exec(&mut c, &mut d, 0, b"/prog", &argv).unwrap();
    assert_eq!(im.entry, 0x20);
    assert_eq!(im.name, b"prog".to_vec());
}

#[test]
fn new_blocks_come_from_the_free_ones() {
    let mut d = mkfs();
    let mut c = iinit();
    let i = open_inode(&mut c, &d, 2);
    assert!(!used(&d, 8));
    let r = bmap(&mut d, &mut c.inode[i], 1);
    assert_eq!(r, 8);
    assert!(used(&d, 8));
    assert_eq!(d.blocks[8], vec![0u8; 512]);
    // a long write to one file leaves the directory's block alone
    let dir_block = d.blocks[6].clone();
    let big: Vec<u8> = (0..3000).map(|k| (k % 251) as u8).collect();
    let devsw = no_devices();
    assert_eq!(writei(&mut d, &mut c.inode[i], &devsw, &big, 5, 3000), Rw::Done(3000));
    assert_eq!(d.blocks[6], dir_block);
}

#[test]
fn room_for_holes() {
    let mut d = mkfs();
    // file 2 has block 0 mapped; blocks 1 and 2 are holes
    let mut a = vec![0u32; 11];
    a[0] = 7;
    assert!(fits_check(&d, &a, 0, 1));
    assert!(fits_check(&d, &a, 0, 3));
    // a hole past the direct blocks needs the indirect block too
    assert!(fits_check(&d, &a, 10, 12));
    // with every block in use no hole can be filled
    for b in 0..100 {
        mark(&mut d, b);
    }
    assert!(fits_check(&d, &a, 0, 1));
    assert!(!fits_check(&d, &a, 0, 2));
}
