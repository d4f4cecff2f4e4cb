//! Processes and processors: their state, and committing a process to a
//! new program image.
use vstd::prelude::*;
use crate::exec::ExecImage;

verus! {

/// Number of open files a process may have.
pub const NOFILE: usize = 16;
/// Size of a process's name, its zero byte included.
pub const PROC_NAME_SIZE: usize = 16;

/// Registers saved for a kernel context switch.
#[derive(Clone, Copy, PartialEq, Eq, Structural, Debug)]
pub struct Context {
    pub r15: u64,
    pub r14: u64,
    pub r13: u64,
    pub r12: u64,
    pub r11: u64,
    pub rbx: u64,
    pub ebp: u64,
    pub eip: u64,
}

/// The state of a process.
#[derive(Clone, Copy, PartialEq, Eq, Structural, Debug)]
pub enum Procstate {
    UNUSED,
    EMBRYO,
    SLEEPING,
    RUNNABLE,
    RUNNING,
    ZOMBIE,
}

/// Registers saved when a trap enters the kernel.
#[derive(Clone, Copy, PartialEq, Eq, Structural, Debug)]
pub struct Trapframe {
    pub eax: u64,
    pub rbx: u64,
    pub rcx: u64,
    pub rdx: u64,
    pub rbp: u64,
    pub rsi: u64,
    pub rdi: u64,
    pub r8: u64,
    pub r9: u64,
    pub r10: u64,
    pub r11: u64,
    pub r12: u64,
    pub r13: u64,
    pub r14: u64,
    pub r15: u64,
    pub trapno: u64,
    pub err: u64,
    pub eip: u64,
    pub cs: u64,
    pub eflags: u64,
    pub esp: u64,
    pub ds: u64,
}

/// A page directory, by the physical address of its page.
#[allow(non_camel_case_types)]
#[derive(Clone, Copy, PartialEq, Eq, Structural, Debug)]
pub struct pde_t {
    pub addr: u64,
}

/// Per-process state.  Other kernel objects are referred to by address
/// or by index.
pub struct Proc {
    /// Size of the process's memory, in bytes.
    pub sz: u64,
    /// Page table.
    pub pgdir: pde_t,
    /// Bottom of the kernel stack.
    pub kstack: u64,
    pub state: Procstate,
    pub pid: i32,
    /// Index of the parent process.
    pub parent: Option<usize>,
    /// Registers of the current system call.
    pub tf: Trapframe,
    /// Address of the saved kernel context.
    pub context: u64,
    /// Sleeping on this channel when nonzero.
    pub chan: u64,
    pub killed: i32,
    /// Open files, by file-table index.
    pub ofile: Vec<Option<usize>>,
    /// Current directory, by inode-cache index.
    pub cwd: usize,
    /// Name, for debugging: zero-terminated.
    pub name: Vec<u8>,
}

/// Per-processor state.
#[derive(Clone, Copy, PartialEq, Eq, Structural, Debug)]
pub struct Cpu {
    /// Index into the processor table.
    pub id: u8,
    /// Local APIC id.
    pub apicid: u8,
    /// Address of the scheduler's context.
    pub scheduler: u64,
    /// The processor has started.
    pub started: u32,
    /// Depth of nested interrupt disabling.
    pub ncli: i32,
    /// Interrupts were enabled before the outermost disabling.
    pub intena: i32,
}

/// A mutual-exclusion lock.
#[derive(Clone, Copy, PartialEq, Eq, Structural, Debug)]
pub struct Spinlock {
    /// The lock is held.
    pub locked: u32,
    /// Index of the processor holding it.
    pub cpu: Option<usize>,
}

/// The name field after copying `name` into it as `safestrcpy` does: the
/// bytes, then zero bytes to the end.
pub open spec fn name_field(name: Seq<u8>) -> Seq<u8> {
    Seq::new(PROC_NAME_SIZE as nat, |i: int| if i < name.len() { name[i] } else { 0u8 })
}

/// Commits process `p` to the program image `im`, whose page table is
/// `pgdir`: its memory size, name, and the registers that start the
/// program (the entry point, the stack pointer, and the argument count
/// and vector in the first two argument registers).  Returns the old page
/// table, to be freed once the new one is in use.
pub fn exec_commit(p: &mut Proc, im: &ExecImage, pgdir: pde_t) -> (old_pgdir: pde_t)
    requires
        im.name@.len() < PROC_NAME_SIZE,
        im.stack.ustack@.len() >= 3,
    ensures
        old_pgdir == old(p).pgdir,
        final(p).pgdir == pgdir,
        final(p).sz == im.stack.sz,
        final(p).name@ == name_field(im.name@),
        final(p).tf == (Trapframe {
            eip: im.entry,
            esp: im.stack.sp,
            rdi: im.stack.ustack@[1],
            rsi: im.stack.ustack@[2],
            ..old(p).tf
        }),
        final(p).kstack == old(p).kstack && final(p).state == old(p).state && final(p).pid == old(p).pid,
        final(p).parent == old(p).parent && final(p).context == old(p).context && final(p).chan == old(p).chan,
        final(p).killed == old(p).killed && final(p).ofile@ == old(p).ofile@ && final(p).cwd == old(p).cwd,
{
    let mut name: Vec<u8> = Vec::new();
    let mut k: usize = 0;
    while k < PROC_NAME_SIZE
        invariant
            k <= PROC_NAME_SIZE,
            name@.len() == k,
            im.name@.len() < PROC_NAME_SIZE,
            forall|i: int| 0 <= i < k ==> #[trigger] name@[i] == name_field(im.name@)[i],
        decreases PROC_NAME_SIZE - k,
    {
        if k < im.name.len() {
            name.push(im.name[k]);
        } else {
            name.push(0);
        }
        k += 1;
    }
    proof {
        assert(name@ =~= name_field(im.name@));
    }
    let old_pgdir = p.pgdir;
    p.name = name;
    p.tf.rdi = im.stack.ustack[1];
    p.tf.rsi = im.stack.ustack[2];
    p.pgdir = pgdir;
    p.sz = im.stack.sz;
    p.tf.eip = im.entry;
    p.tf.esp = im.stack.sp;
    old_pgdir
}

} // verus!
