//! A small x86-64 Unix-like kernel as a verified library: the
//! file system (disk bitmap, buffer cache, log, inodes, directories, path
//! names, open files), program loading, memory layout and page allocation,
//! the console and keyboard, and the set-up of processors, interrupt
//! controllers and the IDE disk.  Each device function returns the steps
//! the hardware must see, or takes what the hardware reported.

pub mod memlayout;
pub mod mmu;
pub mod fs_layout;
pub mod disk;
pub mod buf;
pub mod bio;
pub mod log;
pub mod kalloc;
pub mod console;
pub mod kbd;
pub mod lapic;
pub mod traps;
pub mod ioapic;
pub mod ide;
pub mod cpuid;
pub mod fs;
pub mod icache;
pub mod dir;
pub mod path;
pub mod file;
pub mod exec;
pub mod acpi;
pub mod boot;
pub mod smp;
pub mod proc;
pub mod mp;
pub mod defs;
