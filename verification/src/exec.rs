//! Loading a program: the ELF headers, choosing the segments to load,
//! laying the arguments out on the user stack, and naming the process.
use vstd::prelude::*;
use crate::fs_layout::{le16, le32, read_u16, read_u32, MAXFILE};
use crate::mmu::{PGSIZE, pgroundup};
use crate::path::{
    until_nul, nul_index, namei, walk, walk_pre, start_inum, disk_dir, disk_size, disk_addrs, disk_nlink,
    none_busy,
};
use crate::memlayout::KERNBASE;
use crate::disk::{Disk, disk_superblock};
use crate::fs::{Inode, T_DEV, Devsw, Rw, readi, fs_valid, file_blocks_ok, file_range, file_byte, fits, lemma_fits_sub, read_len};
use crate::icache::{ICache, NINODE, ilock, iunlockput, is_busy, is_valid, loaded_from, disk_type, frees_on_put};

verus! {

/// "\x7FELF" read little-endian.
pub const ELF_MAGIC: u32 = 0x464C457F;
/// Program header type of a loadable segment.
pub const ELF_PROG_LOAD: u32 = 1;
/// Segment flag: executable.
pub const ELF_PROG_FLAG_EXEC: u32 = 1;
/// Segment flag: writable.
pub const ELF_PROG_FLAG_WRITE: u32 = 2;
/// Segment flag: readable.
pub const ELF_PROG_FLAG_READ: u32 = 4;
/// Size of the ELF file header.
pub const ELFHDR_SIZE: u32 = 64;
/// Size of a program header.
pub const PROGHDR_SIZE: u32 = 56;
/// Most arguments a program can be given.
pub const MAXARG: usize = 32;
/// Size of a process name, its ending zero byte included.
pub const NAME_SIZE: usize = 16;

/// Little-endian 64-bit value at `off`.
pub open spec fn le64(s: Seq<u8>, off: int) -> int {
    le32(s, off) + le32(s, off + 4) * 0x1_0000_0000
}

/// Reads a little-endian `u64` at `off`.
pub fn read_u64(s: &Vec<u8>, off: usize) -> (r: u64)
    requires
        off + 8 <= s.len(),
    ensures
        r == le64(s@, off as int),
{
    let lo = read_u32(s, off) as u64;
    let hi = read_u32(s, off + 4) as u64;
    lo + hi * 0x1_0000_0000
}

/// ELF file header.
pub struct ElfHdr {
    pub magic: u32,
    pub elf: Vec<u8>,
    pub elf_type: u16,
    pub machine: u16,
    pub version: u32,
    pub entry: u64,
    pub phoff: u64,
    pub shoff: u64,
    pub flags: u32,
    pub ehsize: u16,
    pub phentsize: u16,
    pub phnum: u16,
    pub shentsize: u16,
    pub shnum: u16,
    pub shstrndx: u16,
}

/// Program header.
#[derive(Clone, Copy, PartialEq, Eq, Structural, Debug)]
pub struct ProgHdr {
    pub prog_type: u32,
    pub flags: u32,
    pub off: u64,
    pub vaddr: u64,
    pub paddr: u64,
    pub filesz: u64,
    pub memsz: u64,
    pub align: u64,
}

/// The header fields at the start of `c` that loading uses.
pub open spec fn elf_fields_match(h: ElfHdr, c: Seq<u8>) -> bool {
    &&& h.magic == le32(c, 0)
    &&& h.elf@ == c.subrange(4, 16)
    &&& h.elf_type == le16(c, 16)
    &&& h.machine == le16(c, 18)
    &&& h.version == le32(c, 20)
    &&& h.entry == le64(c, 24)
    &&& h.phoff == le64(c, 32)
    &&& h.shoff == le64(c, 40)
    &&& h.flags == le32(c, 48)
    &&& h.ehsize == le16(c, 52)
    &&& h.phentsize == le16(c, 54)
    &&& h.phnum == le16(c, 56)
    &&& h.shentsize == le16(c, 58)
    &&& h.shnum == le16(c, 60)
    &&& h.shstrndx == le16(c, 62)
}

impl ElfHdr {
    /// Decodes the header from the first 64 bytes of `b`.
    pub fn decode(b: &Vec<u8>) -> (h: ElfHdr)
        requires
            b.len() >= ELFHDR_SIZE,
        ensures
            elf_fields_match(h, b@),
    {
        let mut ident: Vec<u8> = Vec::new();
        let mut k: usize = 4;
        while k < 16
            invariant
                b.len() >= 64,
                4 <= k <= 16,
                ident@ == b@.subrange(4, k as int),
            decreases 16 - k,
        {
            ident.push(b[k]);
            k += 1;
            proof {
                assert(ident@ =~= b@.subrange(4, k as int));
            }
        }
        ElfHdr {
            magic: read_u32(b, 0),
            elf: ident,
            elf_type: read_u16(b, 16),
            machine: read_u16(b, 18),
            version: read_u32(b, 20),
            entry: read_u64(b, 24),
            phoff: read_u64(b, 32),
            shoff: read_u64(b, 40),
            flags: read_u32(b, 48),
            ehsize: read_u16(b, 52),
            phentsize: read_u16(b, 54),
            phnum: read_u16(b, 56),
            shentsize: read_u16(b, 58),
            shnum: read_u16(b, 60),
            shstrndx: read_u16(b, 62),
        }
    }
}

/// The program header held at byte `off` of `c`.
pub open spec fn proghdr_at(c: Seq<u8>, off: int) -> ProgHdr {
    ProgHdr {
        prog_type: le32(c, off) as u32,
        flags: le32(c, off + 4) as u32,
        off: le64(c, off + 8) as u64,
        vaddr: le64(c, off + 16) as u64,
        paddr: le64(c, off + 24) as u64,
        filesz: le64(c, off + 32) as u64,
        memsz: le64(c, off + 40) as u64,
        align: le64(c, off + 48) as u64,
    }
}

impl ProgHdr {
    /// Decodes the program header at byte `off` of `b`.
    pub fn decode(b: &Vec<u8>, off: usize) -> (h: ProgHdr)
        requires
            off + PROGHDR_SIZE <= b.len(),
        ensures
            h == proghdr_at(b@, off as int),
    {
        ProgHdr {
            prog_type: read_u32(b, off),
            flags: read_u32(b, off + 4),
            off: read_u64(b, off + 8),
            vaddr: read_u64(b, off + 16),
            paddr: read_u64(b, off + 24),
            filesz: read_u64(b, off + 32),
            memsz: read_u64(b, off + 40),
            align: read_u64(b, off + 48),
        }
    }
}

/// `x` rounded down to a multiple of 8.
pub open spec fn align8(x: int) -> int {
    x - x % 8
}

/// The stack pointer after the first `j` argument strings are pushed
/// below `top`, each with its zero byte and 8-byte aligned.
pub open spec fn arg_sp(top: int, argv: Seq<Seq<u8>>, j: int) -> int
    decreases j,
{
    if j <= 0 {
        top
    } else {
        align8(arg_sp(top, argv, j - 1) - (argv[j - 1].len() + 1))
    }
}

/// The arguments, the argument pointers and the three words before them
/// fit in the stack page below `top`, and there are at most `MAXARG`.
pub open spec fn stack_fits(top: int, argv: Seq<Seq<u8>>) -> bool {
    let argc = argv.len() as int;
    &&& argc <= MAXARG
    &&& forall|j: int| 0 <= j < argc ==> #[trigger] arg_sp(top, argv, j) - (argv[j].len() + 1) >= top - PGSIZE
    &&& arg_sp(top, argv, argc) - (argc + 4) * 8 >= top - PGSIZE
}

/// Size of the process image holding `sz` bytes of program: rounded up
/// to a page, then a guard page and a stack page.
pub open spec fn image_top(sz: int) -> int {
    ((sz + 4095) / 4096) * 4096 + 2 * PGSIZE
}

/// The bytes of each argument.
pub open spec fn arg_bytes(argv: Seq<Vec<u8>>) -> Seq<Seq<u8>> {
    argv.map_values(|v: Vec<u8>| v@)
}

/// `u` is the stack `exec_stack` lays out for segments ending at `sz`
/// and arguments `args`.
pub open spec fn stack_layout(u: UserStack, sz: int, args: Seq<Seq<u8>>) -> bool {
    let top = image_top(sz);
    let argc = args.len() as int;
    let sp = arg_sp(top, args, argc);
    &&& u.sz == top
    &&& u.sp == sp - (argc + 4) * 8
    &&& u.strings@.len() == argc
    &&& forall|j: int| 0 <= j < argc ==> #[trigger] u.strings@[j] == arg_sp(top, args, j + 1)
    &&& u.ustack@.len() == argc + 4
    &&& u.ustack@[0] == 0xffffffff
    &&& u.ustack@[1] == argc
    &&& u.ustack@[2] == sp - (argc + 1) * 8
    &&& forall|j: int| 0 <= j < argc ==> #[trigger] u.ustack@[3 + j] == u.strings@[j]
    &&& u.ustack@[3 + argc] == 0
}

/// The user stack of a new program.
pub struct UserStack {
    /// Size of the process image: its top.
    pub sz: u64,
    /// Initial stack pointer.
    pub sp: u64,
    /// Where each argument string (with its zero byte) is copied.
    pub strings: Vec<u64>,
    /// The words copied at `sp`: a fake return address, the argument
    /// count, the address of the argument pointers, the pointers, and a
    /// null pointer.
    pub ustack: Vec<u64>,
}

proof fn lemma_align8(x: u64)
    ensures
        x & !7u64 == align8(x as int),
        (x & !7u64) <= x,
{
    assert(x & !7u64 == x - x % 8) by (bit_vector);
}

proof fn lemma_arg_sp_le(top: int, argv: Seq<Seq<u8>>, j: int)
    requires
        0 <= j <= argv.len(),
        forall|k: int| 0 <= k < j ==> #[trigger] arg_sp(top, argv, k) - (argv[k].len() + 1) >= 0,
    ensures
        arg_sp(top, argv, j) <= top,
    decreases j,
{
    if j > 0 {
        lemma_arg_sp_le(top, argv, j - 1);
        let x = arg_sp(top, argv, j - 1) - (argv[j - 1].len() + 1);
        assert(x % 8 >= 0);
    }
}

/// Lays the user stack out for a program whose segments end at `sz`:
/// above them a guard page and a stack page, each argument string copied
/// in turn below the top, then the words that start the stack.  `None`
/// when there are more than `MAXARG` arguments, or they do not fit in the
/// stack page, or the image would reach `KERNBASE`.
pub fn exec_stack(sz: u64, argv: &Vec<Vec<u8>>) -> (r: Option<UserStack>)
    ensures
        ({
            let top = image_top(sz as int);
            let argc = argv@.len() as int;
            let args = arg_bytes(argv@);
            &&& (top < KERNBASE && stack_fits(top, args)) <==> r is Some
            &&& r is Some ==> stack_layout(r->0, sz as int, args)
        }),
{
    let ghost args = arg_bytes(argv@);
    let ghost top_s = image_top(sz as int);
    assert(args.len() == argv@.len());
    if sz > KERNBASE {
        return None;
    }
    let sz1 = pgroundup(sz);
    proof {
        assert(sz1 == ((sz + 4095) / 4096) * 4096) by (nonlinear_arith)
            requires
                sz1 % 4096 == 0,
                sz <= sz1,
                sz1 - sz < 4096,
        ;
    }
    if sz1 >= KERNBASE - 2 * PGSIZE {
        return None;
    }
    let top = sz1 + 2 * PGSIZE;
    let lo = top - PGSIZE;
    proof {
        assert(lo % 8 == 0) by (nonlinear_arith)
            requires
                sz1 % 4096 == 0,
                lo == sz1 + 4096,
        ;
    }
    let mut sp = top;
    let mut strings: Vec<u64> = Vec::new();
    let mut j: usize = 0;
    while j < argv.len()
        invariant
            args == arg_bytes(argv@),
            top == top_s,
            top_s == image_top(sz as int),
            lo == top - PGSIZE,
            top < KERNBASE,
            lo % 8 == 0,
            j <= argv@.len(),
            j <= MAXARG,
            sp == arg_sp(top as int, args, j as int),
            lo <= sp <= top,
            strings@.len() == j,
            forall|k: int| 0 <= k < j ==> #[trigger] strings@[k] == arg_sp(top as int, args, k + 1),
            forall|k: int| 0 <= k < j ==> #[trigger] arg_sp(top as int, args, k) - (args[k].len() + 1) >= lo,
        decreases argv@.len() - j,
    {
        if j >= MAXARG {
            return None;
        }
        let len = argv[j].len();
        if len >= (sp - lo) as usize {
            proof {
                assert(args[j as int] == argv@[j as int]@);
                assert(len == argv@[j as int]@.len());
                assert(sp - lo <= 4096);
                assert(!stack_fits(top as int, args)) by {
                    assert(arg_sp(top as int, args, j as int) - (args[j as int].len() + 1) < lo);
                }
                assert(top == image_top(sz as int));
                assert(args == arg_bytes(argv@));
                assert(!stack_fits(image_top(sz as int), arg_bytes(argv@)));
            }
            return None;
        }
        let x: u64 = sp - (len as u64 + 1);
        proof {
            lemma_align8(x);
            assert(args[j as int] == argv@[j as int]@);
        }
        sp = x & !7u64;
        strings.push(sp);
        j += 1;
        proof {
            assert(sp >= lo) by {
                assert(x >= lo);
                assert(x % 8 >= 0 && (x - x % 8) >= lo) by (nonlinear_arith)
                    requires
                        x >= lo,
                        lo % 8 == 0,
                ;
            }
        }
    }
    let argc = argv.len() as u64;
    if (argc + 4) * 8 > sp - lo {
        return None;
    }
    let mut ustack: Vec<u64> = Vec::new();
    ustack.push(0xffffffff);
    ustack.push(argc);
    ustack.push(sp - (argc + 1) * 8);
    let mut k: usize = 0;
    while k < strings.len()
        invariant
            ustack@.len() == 3 + k,
            k <= strings@.len(),
            ustack@[0] == 0xffffffff,
            ustack@[1] == argc,
            ustack@[2] == sp - (argc + 1) * 8,
            forall|q: int| 0 <= q < k ==> #[trigger] ustack@[3 + q] == strings@[q],
        decreases strings@.len() - k,
    {
        ustack.push(strings[k]);
        k += 1;
    }
    ustack.push(0);
    Some(UserStack { sz: top, sp: sp - (argc + 4) * 8, strings, ustack })
}

/// Index just past the last slash among the first `k` bytes, or 0.
pub open spec fn after_last_slash(p: Seq<u8>, k: int) -> int
    decreases k,
{
    if k <= 0 {
        0
    } else if p[k - 1] == 0x2f {
        k
    } else {
        after_last_slash(p, k - 1)
    }
}

/// The name a process running the program at `path` gets: the last
/// element of the path, up to a zero byte and at most `NAME_SIZE - 1`
/// bytes.
pub open spec fn proc_name(p: Seq<u8>) -> Seq<u8> {
    let t = until_nul(p.subrange(after_last_slash(p, p.len() as int), p.len() as int));
    if t.len() < NAME_SIZE { t } else { t.subrange(0, NAME_SIZE - 1) }
}

proof fn lemma_after_last_slash(p: Seq<u8>, k: int)
    requires
        0 <= k <= p.len(),
    ensures
        0 <= after_last_slash(p, k) <= k,
    decreases k,
{
    if k > 0 && p[k - 1] != 0x2f {
        lemma_after_last_slash(p, k - 1);
    }
}

/// The name for a process running the program at `path`.
pub fn exec_name(path: &[u8]) -> (r: Vec<u8>)
    ensures
        r@ == proc_name(path@),
{
    let mut k: usize = path.len();
    while k > 0 && path[k - 1] != 0x2f
        invariant
            k <= path@.len(),
            after_last_slash(path@, k as int) == after_last_slash(path@, path@.len() as int),
        decreases k,
    {
        k -= 1;
    }
    let ghost t = path@.subrange(k as int, path@.len() as int);
    proof {
        crate::path::lemma_nul_bound(t, 0);
    }
    let mut r: Vec<u8> = Vec::new();
    let mut i: usize = k;
    while i < path.len() && path[i] != 0 && r.len() < NAME_SIZE - 1
        invariant
            k <= i <= path@.len(),
            t == path@.subrange(k as int, path@.len() as int),
            r@ == t.subrange(0, (i - k) as int),
            nul_index(t, (i - k) as int) == nul_index(t, 0),
            r@.len() == i - k,
            r@.len() <= NAME_SIZE - 1,
        decreases path@.len() - i,
    {
        r.push(path[i]);
        i += 1;
        proof {
            assert(r@ =~= t.subrange(0, (i - k) as int));
        }
    }
    proof {
        let u = until_nul(t);
        crate::path::lemma_nul_bound(t, (i - k) as int);
        if r@.len() < NAME_SIZE - 1 {
            assert(r@ =~= u);
        } else {
            assert(r@ =~= u.subrange(0, NAME_SIZE - 1));
        }
    }
    r
}

/// Byte offset of program header `i` in the file `c`.
pub open spec fn ph_pos(c: Seq<u8>, i: int) -> int {
    le64(c, 32) + PROGHDR_SIZE * i
}

/// Program header `i` of the file `c`.
pub open spec fn ph(c: Seq<u8>, i: int) -> ProgHdr {
    proghdr_at(c, ph_pos(c, i))
}

/// Program headers `0..k` of `c` lie in the file, and every loadable one
/// has no more bytes in the file than in memory and ends in the address
/// space.
pub open spec fn phs_ok(c: Seq<u8>, k: int) -> bool {
    forall|i: int|
        #![trigger ph(c, i)]
        #![trigger ph_pos(c, i)]
        0 <= i < k ==> ph_pos(c, i) + PROGHDR_SIZE <= c.len() && (ph(c, i).prog_type == ELF_PROG_LOAD ==> ph(c, i).memsz
            >= ph(c, i).filesz && ph(c, i).vaddr + ph(c, i).memsz <= u64::MAX)
}

/// A program header that does not lie in the file spoils every longer
/// list of headers.
proof fn lemma_ph_missing(c: Seq<u8>, i: int, k: int)
    requires
        0 <= i < k,
        ph_pos(c, i) + PROGHDR_SIZE > c.len(),
    ensures
        !phs_ok(c, k),
{
    assert(ph(c, i) == ph(c, i));
}

/// The loadable segments among program headers `0..k`, in order.
pub open spec fn loads(c: Seq<u8>, k: int) -> Seq<ProgHdr>
    decreases k,
{
    if k <= 0 {
        Seq::empty()
    } else if ph(c, k - 1).prog_type == ELF_PROG_LOAD {
        loads(c, k - 1).push(ph(c, k - 1))
    } else {
        loads(c, k - 1)
    }
}

/// Size of the process image once the loadable segments among program
/// headers `0..k` are in place: the largest end of one, or 0.
pub open spec fn load_end(c: Seq<u8>, k: int) -> int
    decreases k,
{
    if k <= 0 {
        0
    } else {
        let p = ph(c, k - 1);
        let e = load_end(c, k - 1);
        if p.prog_type == ELF_PROG_LOAD && p.vaddr + p.memsz > e {
            p.vaddr + p.memsz
        } else {
            e
        }
    }
}

/// The executable `c` can be loaded with arguments `argv`: an ELF
/// header, sound program headers, and an image and stack that fit below
/// `KERNBASE`.
pub open spec fn exec_ok(c: Seq<u8>, argv: Seq<Seq<u8>>) -> bool {
    let n = le16(c, 56);
    &&& c.len() >= ELFHDR_SIZE
    &&& le32(c, 0) == ELF_MAGIC
    &&& phs_ok(c, n)
    &&& image_top(load_end(c, n)) < KERNBASE
    &&& stack_fits(image_top(load_end(c, n)), argv)
}

/// Inode `inum` is a file that can be read and released: a valid inode
/// with links, its blocks in order, and room on disk to map any holes
/// among its blocks (reading a hole maps it).
pub open spec fn exe_readable(d: Seq<Seq<u8>>, inum: int) -> bool {
    &&& 0 <= inum < disk_superblock(d).ninodes
    &&& disk_type(d, inum) != 0
    &&& disk_nlink(d, inum) != 0
    &&& file_blocks_ok(d, disk_addrs(d, inum))
    &&& disk_size(d, inum) <= MAXFILE * 512
    &&& fits(d, disk_addrs(d, inum), 0, (disk_size(d, inum) + 511) / 512)
}

/// What a locked inode being read keeps: it is locked, its fields are
/// those of `e`, the disk can be read from, and the file's bytes are those
/// of `c`.
pub open spec fn reading(cache: ICache, disk: Seq<Seq<u8>>, ip: int, e: Inode, c: Seq<u8>) -> bool {
    let f = cache.inode@[ip];
    &&& cache.wf()
    &&& 0 <= ip < NINODE
    &&& f.ref_count == e.ref_count && f.flags == e.flags && f.dev == e.dev && f.inum == e.inum
    &&& f.type_ == e.type_ && f.nlink == e.nlink && f.size == e.size
    &&& is_busy(f)
    &&& fs_valid(disk)
    &&& file_blocks_ok(disk, f.addrs@)
    &&& f.size <= MAXFILE * 512
    &&& f.inum < disk_superblock(disk).ninodes
    &&& fits(disk, f.addrs@, 0, (f.size + 511) / 512)
    &&& c.len() == f.size
    &&& forall|p: int| 0 <= p < f.size ==> #[trigger] file_byte(disk, f.addrs@, p) == c[p]
}

/// Reads `n` bytes at `off` of the file held by locked entry `ip`.
/// Returns the bytes when all of them lie in the file.
fn read_exact(cache: &mut ICache, disk: &mut Disk, ip: usize, off: u32, n: u32, Ghost(e): Ghost<Inode>, Ghost(c): Ghost<Seq<u8>>) -> (r: Option<Vec<u8>>)
    requires
        old(disk).wf(),
        reading(*old(cache), old(disk)@, ip as int, e, c),
        e.type_ != T_DEV,
        0 < n <= 4096,
    ensures
        final(disk).wf(),
        reading(*final(cache), final(disk)@, ip as int, e, c),
        forall|j: int| 0 <= j < NINODE && j != ip ==> #[trigger] final(cache).inode@[j] == old(cache).inode@[j],
        r is Some <==> off + n <= c.len(),
        r is Some ==> r->0@ == c.subrange(off as int, off + n),
{
    let ghost d0 = disk@;
    let ghost a0 = cache.inode@[ip as int].addrs@;
    let devsw: Vec<Devsw> = Vec::new();
    let mut buf: Vec<u8> = vec![0u8; n as usize];
    if off as u64 + n as u64 > u32::MAX as u64 {
        return None;
    }
    proof {
        let sz = cache.inode@[ip as int].size;
        if off <= sz {
            let len = read_len(sz as int, off as int, n as int);
            if len > 0 {
                vstd::arithmetic::div_mod::lemma_div_is_ordered(0, off as int, 512);
                vstd::arithmetic::div_mod::lemma_div_is_ordered(off + len + 511, sz + 511, 512);
                lemma_fits_sub(d0, a0, 0, (sz + 511) / 512, off as int / 512, (off + len + 511) / 512);
            }
        }
    }
    let rr = readi(disk, &mut cache.inode[ip], &devsw, &mut buf, off, n);
    proof {
        let sz = cache.inode@[ip as int].size;
        vstd::arithmetic::div_mod::lemma_div_is_ordered(sz + 511, MAXFILE * 512 + 511, 512);
        if off <= sz {
            let len = read_len(sz as int, off as int, n as int);
            vstd::arithmetic::div_mod::lemma_div_is_ordered(off + len + 511, sz + 511, 512);
        }
        assert(fits(disk@, cache.inode@[ip as int].addrs@, 0, (sz + 511) / 512));
        assert forall|j: int| 0 <= j < NINODE && j != ip implies #[trigger] cache.inode@[j] == old(cache).inode@[j] by {}
    }
    match rr {
        Rw::Done(v) => {
            if v == n as i32 {
                proof {
                    assert(off + n <= c.len());
                    assert forall|k: int| 0 <= k < n implies #[trigger] buf@[k] == c[off + k] by {
                        assert(buf@.subrange(0, n as int)[k] == buf@[k]);
                    }
                    assert(buf@ =~= c.subrange(off as int, off + n));
                }
                Some(buf)
            } else {
                None
            }
        },
        Rw::Device(m) => None,
    }
}

/// A program header read from a copy of its bytes is the one in the file.
proof fn lemma_proghdr_sub(c: Seq<u8>, o: int)
    requires
        0 <= o,
        o + PROGHDR_SIZE <= c.len(),
    ensures
        proghdr_at(c.subrange(o, o + PROGHDR_SIZE), 0) == proghdr_at(c, o),
{
    let b = c.subrange(o, o + PROGHDR_SIZE);
    assert forall|k: int| 0 <= k < PROGHDR_SIZE implies b[k] == c[o + k] by {}
}

/// Reads the program headers of the locked executable in entry `ip`,
/// whose bytes are `c`: the loadable segments in order and the size of
/// the image they make, or `None` when a header lies outside the file or
/// a loadable segment is unsound.
fn load_segments(
    cache: &mut ICache,
    disk: &mut Disk,
    ip: usize,
    phoff: u64,
    phnum: u16,
    Ghost(e): Ghost<Inode>,
    Ghost(c): Ghost<Seq<u8>>,
) -> (r: Option<(Vec<ProgHdr>, u64)>)
    requires
        old(disk).wf(),
        reading(*old(cache), old(disk)@, ip as int, e, c),
        e.type_ != T_DEV,
        phoff == le64(c, 32),
        phnum == le16(c, 56),
    ensures
        final(disk).wf(),
        reading(*final(cache), final(disk)@, ip as int, e, c),
        forall|j: int| 0 <= j < NINODE && j != ip ==> #[trigger] final(cache).inode@[j] == old(cache).inode@[j],
        r is Some <==> phs_ok(c, phnum as int),
        r is Some ==> ({
            let (segs, sz) = r->0;
            segs@ == loads(c, phnum as int) && sz == load_end(c, phnum as int)
        }),
{
    let mut segs: Vec<ProgHdr> = Vec::new();
    let mut sz: u64 = 0;
    let mut i: u16 = 0;
    while i < phnum
        invariant
            disk.wf(),
            reading(*cache, disk@, ip as int, e, c),
            forall|j: int| 0 <= j < NINODE && j != ip ==> #[trigger] cache.inode@[j] == old(cache).inode@[j],
            e.type_ != T_DEV,
            phoff == le64(c, 32),
            i <= phnum,
            phs_ok(c, i as int),
            segs@ == loads(c, i as int),
            sz == load_end(c, i as int),
            c.len() <= MAXFILE * 512,
        decreases phnum - i,
    {
        let off: u64 = if phoff > 0xFFFF_0000u64 {
            u64::MAX
        } else {
            phoff + 56 * (i as u64)
        };
        if off > 0xFFFF_0000u64 {
            proof {
                assert(ph_pos(c, i as int) + PROGHDR_SIZE > c.len());
                lemma_ph_missing(c, i as int, phnum as int);
            }
            return None;
        }
        let b = read_exact(cache, disk, ip, off as u32, PROGHDR_SIZE, Ghost(e), Ghost(c));
        let b = match b {
            None => {
                proof {
                    lemma_ph_missing(c, i as int, phnum as int);
                }
                return None;
            },
            Some(b) => b,
        };
        let p = ProgHdr::decode(&b, 0);
        proof {
            lemma_proghdr_sub(c, off as int);
            assert(p == ph(c, i as int));
        }
        if p.prog_type == ELF_PROG_LOAD {
            if p.memsz < p.filesz || p.vaddr > u64::MAX - p.memsz {
                proof {
                    assert(!phs_ok(c, phnum as int)) by {
                        assert(ph(c, i as int) == p);
                    }
                }
                return None;
            }
            let end = p.vaddr + p.memsz;
            if end > sz {
                sz = end;
            }
            segs.push(p);
        }
        i += 1;
        proof {
            assert(phs_ok(c, i as int)) by {
                assert forall|k: int| 0 <= k < i implies ph_pos(c, k) + PROGHDR_SIZE <= c.len() && ((#[trigger] ph(
                    c,
                    k,
                )).prog_type == ELF_PROG_LOAD ==> ph(c, k).memsz >= ph(c, k).filesz && ph(c, k).vaddr + ph(c, k).memsz
                    <= u64::MAX) by {
                    if k < i - 1 {
                        assert(ph(c, k) == ph(c, k));
                    }
                }
            }
        }
    }
    Some((segs, sz))
}

/// A program to run: where it starts, the segments to load from its
/// file, its user stack, and the name of the process.
pub struct ExecImage {
    pub entry: u64,
    pub segments: Vec<ProgHdr>,
    pub stack: UserStack,
    pub name: Vec<u8>,
}

/// Prepares the program at `path` to run with arguments `argv`: looks the
/// file up, checks its ELF header, reads its program headers, lays out
/// the user stack above the loaded segments, and names the process.
/// Returns what the address space must be built from, or `None` when the
/// file is missing, is a device, or is not a loadable program, or the
/// arguments do not fit.  Every reference and lock taken is dropped.
pub fn exec(cache: &mut ICache, disk: &mut Disk, cwd: usize, path: &[u8], argv: &Vec<Vec<u8>>) -> (r: Option<ExecImage>)
    requires
        old(disk).wf(),
        walk_pre(*old(cache), old(disk)@, cwd, path@, false),
        walk(old(disk)@, start_inum(*old(cache), cwd, path@), path@, 0, false) is Some ==> exe_readable(
            old(disk)@,
            walk(old(disk)@, start_inum(*old(cache), cwd, path@), path@, 0, false)->0,
        ),
    ensures
        final(disk).wf(),
        fs_valid(final(disk)@),
        final(cache).wf(),
        none_busy(*final(cache)),
        forall|j: int| 0 <= j < NINODE ==> #[trigger] final(cache).inode@[j].ref_count == old(cache).inode@[j].ref_count,
        ({
            let w = walk(old(disk)@, start_inum(*old(cache), cwd, path@), path@, 0, false);
            &&& w is None ==> r is None && final(disk)@ == old(disk)@
            &&& w is Some ==> ({
                let inum = w->0;
                let c = disk_dir(old(disk)@, inum);
                let n = le16(c, 56);
                let args = arg_bytes(argv@);
                &&& r is Some <==> disk_type(old(disk)@, inum) != T_DEV && exec_ok(c, args)
                &&& r is Some ==> ({
                    let im = r->0;
                    &&& im.entry == le64(c, 24)
                    &&& im.segments@ == loads(c, n)
                    &&& stack_layout(im.stack, load_end(c, n), args)
                    &&& im.name@ == proc_name(path@)
                })
            })
        }),
{
    let ghost d0 = disk@;
    let ghost w = walk(d0, start_inum(*old(cache), cwd, path@), path@, 0, false);
    let found = namei(cache, disk, cwd, path);
    let ip = match found {
        None => {
            return None;
        },
        Some(ip) => ip,
    };
    let ghost inum = w->0;
    let ghost c = disk_dir(d0, inum);
    let ghost c1 = *cache;
    proof {
        crate::fs::lemma_iblock_lt_meta(d0, inum);
    }
    ilock(cache, disk, ip);
    let ghost e = cache.inode@[ip as int];
    proof {
        crate::path::lemma_loaded_pub(e, d0, inum);
        assert forall|p: int| 0 <= p < e.size implies #[trigger] file_byte(d0, e.addrs@, p) == c[p] by {}
    }
    if cache.inode[ip].type_ == T_DEV {
        iunlockput(cache, disk, ip);
        return None;
    }
    let hb = read_exact(cache, disk, ip, 0, ELFHDR_SIZE, Ghost(e), Ghost(c));
    let hb = match hb {
        None => {
            iunlockput(cache, disk, ip);
            return None;
        },
        Some(b) => b,
    };
    let elf = ElfHdr::decode(&hb);
    proof {
        assert(le32(hb@, 0) == le32(c, 0));
        assert(le64(hb@, 24) == le64(c, 24));
        assert(le64(hb@, 32) == le64(c, 32));
        assert(le16(hb@, 56) == le16(c, 56));
    }
    if elf.magic != ELF_MAGIC {
        iunlockput(cache, disk, ip);
        return None;
    }
    let segs = load_segments(cache, disk, ip, elf.phoff, elf.phnum, Ghost(e), Ghost(c));
    iunlockput(cache, disk, ip);
    let (segments, sz) = match segs {
        None => {
            return None;
        },
        Some(x) => x,
    };
    let stack = exec_stack(sz, argv);
    let stack = match stack {
        None => {
            return None;
        },
        Some(u) => u,
    };
    let name = exec_name(path);
    Some(ExecImage { entry: elf.entry, segments, stack, name })
}

} // verus!
