//! Trap and interrupt vector numbers.
use vstd::prelude::*;

verus! {

/// Divide error.
pub const T_DIVIDE: u32 = 0;
/// Debug exception.
pub const T_DEBUG: u32 = 1;
/// Non-maskable interrupt.
pub const T_NMI: u32 = 2;
/// Breakpoint.
pub const T_BRKPT: u32 = 3;
/// Overflow.
pub const T_OFLOW: u32 = 4;
/// Bounds check.
pub const T_BOUND: u32 = 5;
/// Illegal opcode.
pub const T_ILLOP: u32 = 6;
/// Device not available.
pub const T_DEVICE: u32 = 7;
/// Double fault.
pub const T_DBLFLT: u32 = 8;
/// Invalid task switch segment.
pub const T_TSS: u32 = 10;
/// Segment not present.
pub const T_SEGNP: u32 = 11;
/// Stack exception.
pub const T_STACK: u32 = 12;
/// General protection fault.
pub const T_GPFLT: u32 = 13;
/// Page fault.
pub const T_PGFLT: u32 = 14;
/// Floating point error.
pub const T_FPERR: u32 = 16;
/// Alignment check.
pub const T_ALIGN: u32 = 17;
/// Machine check.
pub const T_MCHK: u32 = 18;
/// SIMD floating point error.
pub const T_SIMDERR: u32 = 19;
/// System call.
pub const T_SYSCALL: u32 = 64;
/// Catch-all.
pub const T_DEFAULT: u32 = 500;
/// Vector of hardware interrupt 0.
pub const T_IRQ0: u32 = 32;
/// Timer interrupt.
pub const IRQ_TIMER: u32 = 0;
/// Keyboard interrupt.
pub const IRQ_KBD: u32 = 1;
/// First serial port's interrupt.
pub const IRQ_COM1: u32 = 4;
/// IDE disk interrupt.
pub const IRQ_IDE: u32 = 14;
/// Local APIC error interrupt.
pub const IRQ_ERROR: u32 = 19;
/// Spurious interrupt.
pub const IRQ_SPURIOUS: u32 = 31;

} // verus!
