//! Starting the other processors: the boot parameters each one finds
//! below its entry code.
use vstd::prelude::*;
use crate::kalloc::{Kmem, kalloc};
use crate::memlayout::{KERNBASE, v2p};

verus! {

/// Size of a processor's kernel stack.
pub const KSTACKSIZE: u64 = 4096;
/// Physical address the other processors' entry code is copied to.
pub const AP_CODE: u64 = 0x7000;
/// First word the entry code reads below its start.
pub const AP_BOOT_WORD: u32 = 0x8000;

/// What a processor being started finds below its entry code, and where
/// to send the start-up interrupt.
#[derive(Clone, Copy, PartialEq, Eq, Structural, Debug)]
pub struct ApBoot {
    /// Index of the processor.
    pub id: usize,
    /// Its local APIC id.
    pub apicid: u8,
    /// The word 4 bytes below the code.
    pub word4: u32,
    /// 8 bytes below: the physical address of the 32-bit entry point.
    pub entry: u32,
    /// 16 bytes below: the top of the processor's kernel stack.
    pub stack_top: u64,
    /// Physical address of the code, for the start-up interrupt.
    pub code: u64,
}

/// The stack the `m`-th processor started gets: the page `kalloc` hands
/// out then, last freed first, or 0 when none is left.
pub open spec fn ap_stack(free: Seq<u64>, m: int) -> u64 {
    if m < free.len() {
        free[free.len() - 1 - m]
    } else {
        0
    }
}

/// Number of processors before index `j` other than `me`.
pub open spec fn others_before(me: int, j: int) -> int {
    if me < j { j - 1 } else { j }
}

/// Prepares the start of every processor but `me`, in order: takes a
/// page for its kernel stack, and gives the words to write below the
/// entry code (at `AP_CODE`) before sending the start-up interrupt to its
/// APIC: `AP_BOOT_WORD`, the physical address of `entry32mp`, and the top
/// of the stack.
pub fn startothers(kmem: &mut Kmem, cpus: &Vec<u8>, me: usize, entry32mp: u64) -> (r: Vec<ApBoot>)
    requires
        forall|i: int| 0 <= i < old(kmem).freelist@.len() ==> #[trigger] old(kmem).freelist@[i] + KSTACKSIZE <= u64::MAX,
        entry32mp >= KERNBASE,
        me < cpus.len(),
    ensures
        r@.len() == cpus@.len() - 1,
        forall|j: int|
            0 <= j < cpus@.len() && j != me ==> #[trigger] r@[others_before(me as int, j)] == (ApBoot {
                id: j as usize,
                apicid: cpus@[j],
                word4: AP_BOOT_WORD,
                entry: ((entry32mp - KERNBASE) % 0x1_0000_0000) as u32,
                stack_top: (ap_stack(old(kmem).freelist@, others_before(me as int, j)) + KSTACKSIZE) as u64,
                code: AP_CODE,
            }),
        final(kmem).freelist@ == if cpus@.len() - 1 <= old(kmem).freelist@.len() {
            old(kmem).freelist@.subrange(0, old(kmem).freelist@.len() - (cpus@.len() - 1))
        } else {
            Seq::empty()
        },
{
    let entry_phys = v2p(entry32mp);
    let entry = (entry_phys % 0x1_0000_0000) as u32;
    let ghost free0 = kmem.freelist@;
    let mut r: Vec<ApBoot> = Vec::new();
    let mut j: usize = 0;
    while j < cpus.len()
        invariant
            free0 == old(kmem).freelist@,
            forall|i: int| 0 <= i < free0.len() ==> #[trigger] free0[i] + KSTACKSIZE <= u64::MAX,
            me < cpus@.len(),
            j <= cpus@.len(),
            r@.len() == others_before(me as int, j as int) + (if me < j { 0int } else { 0int }),
            r@.len() <= free0.len() ==> kmem.freelist@ == free0.subrange(0, free0.len() - r@.len()),
            r@.len() >= free0.len() ==> kmem.freelist@.len() == 0,
            entry == ((entry32mp - KERNBASE) % 0x1_0000_0000) as u32,
            forall|k: int|
                0 <= k < j && k != me ==> #[trigger] r@[others_before(me as int, k)] == (ApBoot {
                    id: k as usize,
                    apicid: cpus@[k],
                    word4: AP_BOOT_WORD,
                    entry,
                    stack_top: (ap_stack(free0, others_before(me as int, k)) + KSTACKSIZE) as u64,
                    code: AP_CODE,
                }),
        decreases cpus@.len() - j,
    {
        if j != me {
            let ghost m = r@.len();
            let stack = kalloc(kmem);
            proof {
                if m < free0.len() {
                    assert(stack == free0[free0.len() - 1 - m]);
                    assert(kmem.freelist@ =~= free0.subrange(0, free0.len() - (m + 1)));
                } else {
                    assert(stack == 0);
                }
                assert(stack == ap_stack(free0, m as int));
            }
            r.push(ApBoot { id: j, apicid: cpus[j], word4: AP_BOOT_WORD, entry, stack_top: stack + KSTACKSIZE, code: AP_CODE });
            proof {
                assert forall|k: int| 0 <= k < j + 1 && k != me implies #[trigger] r@[others_before(me as int, k)]
                    == (ApBoot {
                    id: k as usize,
                    apicid: cpus@[k],
                    word4: AP_BOOT_WORD,
                    entry,
                    stack_top: (ap_stack(free0, others_before(me as int, k)) + KSTACKSIZE) as u64,
                    code: AP_CODE,
                }) by {
                    if k < j {
                        assert(others_before(me as int, k) < m);
                    }
                }
            }
        }
        j += 1;
    }
    proof {
        assert(r@.len() == cpus@.len() - 1);
        if r@.len() <= free0.len() {
            assert(kmem.freelist@ == free0.subrange(0, free0.len() - r@.len()));
        } else {
            assert(kmem.freelist@ =~= Seq::<u64>::empty());
        }
    }
    r
}

/// Where the start of the other processors stands.
#[derive(Clone, Copy, PartialEq, Eq, Structural, Debug)]
pub enum SmpState {
    /// The processor of plan entry `k` is the next to start; none is
    /// being waited for.
    Next(usize),
    /// The processor of plan entry `k` has been sent its start-up
    /// interrupt and has not yet reported that it started.
    Waiting(usize),
}

/// What the caller must do next.
#[derive(Clone, Copy, PartialEq, Eq, Structural, Debug)]
pub enum SmpAction {
    /// Write the entry's words below the entry code and send the
    /// start-up interrupt to its APIC.
    Start(ApBoot),
    /// Read the started flag of the processor with this index again.
    Poll(usize),
    /// Every processor of the plan has started.
    Done,
}

/// The step from state `s`, with the started flag read as `started`, to
/// state and action `r`.
pub open spec fn smp_next(plan: Seq<ApBoot>, s: SmpState, started: bool, r: (SmpState, SmpAction)) -> bool {
    match s {
        SmpState::Next(k) => if k == plan.len() {
            r == (SmpState::Next(k), SmpAction::Done)
        } else {
            r == (SmpState::Waiting(k), SmpAction::Start(plan[k as int]))
        },
        SmpState::Waiting(k) => if !started {
            r == (SmpState::Waiting(k), SmpAction::Poll(plan[k as int].id))
        } else if k + 1 == plan.len() {
            r == (SmpState::Next((k + 1) as usize), SmpAction::Done)
        } else {
            r == (SmpState::Waiting((k + 1) as usize), SmpAction::Start(plan[k + 1]))
        },
    }
}

/// One step of starting the processors of `plan` (as `startothers`
/// prepares it) one at a time: the next one is started only once the one
/// before it has reported, through its started flag `started`, that it
/// runs.  The start begins in `Next(0)`; `started` is not read there.
pub fn smp_step(plan: &Vec<ApBoot>, s: SmpState, started: bool) -> (r: (SmpState, SmpAction))
    requires
        match s {
            SmpState::Next(k) => k <= plan@.len(),
            SmpState::Waiting(k) => k < plan@.len(),
        },
    ensures
        smp_next(plan@, s, started, r),
{
    match s {
        SmpState::Next(k) => {
            if k == plan.len() {
                (SmpState::Next(k), SmpAction::Done)
            } else {
                (SmpState::Waiting(k), SmpAction::Start(plan[k]))
            }
        },
        SmpState::Waiting(k) => {
            let len = plan.len();
            assert(k < len);
            if !started {
                (SmpState::Waiting(k), SmpAction::Poll(plan[k].id))
            } else if k + 1 == len {
                (SmpState::Next(k + 1), SmpAction::Done)
            } else {
                (SmpState::Waiting(k + 1), SmpAction::Start(plan[k + 1]))
            }
        },
    }
}

/// A processor is started only once the one before it in the plan has
/// reported that it runs: in a start that begins in `Next(0)`, a step that
/// starts entry `k > 0` comes from waiting on entry `k - 1` with its
/// started flag set.
pub proof fn lemma_start_after_started(plan: Seq<ApBoot>, s: SmpState, started: bool, r: (SmpState, SmpAction), k: int)
    requires
        match s {
            SmpState::Next(j) => j == 0,
            SmpState::Waiting(j) => j < plan.len(),
        },
        smp_next(plan, s, started, r),
        0 < k < plan.len(),
        r.1 == SmpAction::Start(plan[k]),
        forall|i: int, j: int| 0 <= i < j < plan.len() ==> plan[i] != plan[j],
    ensures
        s == SmpState::Waiting((k - 1) as usize),
        started,
{
}

} // verus!
