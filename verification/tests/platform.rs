use freax::acpi::{acpi_config_smp, acpiinit, find_rdsp, scan_rdsp, SmpConfig};
use freax::boot::{bootmain, waitdisk, BootLoad, MB_MAGIC};
use freax::cpuid::{
    cpu_printfeatures, cpuid_leaf_wanted, cpuid_read, cpuid_write, cpuinfo, get_family, get_model, get_stepping, print_feature, CpuidRegs,
    CPUID_LEAF_1_APIC, CPUID_LEAF_1_FPU, CPUID_LEAF_1_SSE3, CPUID_LEAF_7_SMEP,
};
use freax::exec::{exec_name, exec_stack, ElfHdr, ProgHdr, MAXARG};
use freax::memlayout::{DEVBASE, KERNBASE};
use freax::proc::{exec_commit, pde_t, Proc, Procstate, Trapframe};
use freax::exec::{ExecImage, UserStack};

fn put32(m: &mut [u8], off: usize, v: u32) {
    m[off..off + 4].copy_from_slice(&v.to_le_bytes());
}

fn put64(m: &mut [u8], off: usize, v: u64) {
    m[off..off + 8].copy_from_slice(&v.to_le_bytes());
}

#[test]
fn cpuid_signature_fields() {
    let sig: u32 = 0x0009_06EA;
    assert_eq!(get_stepping(sig), 0xA);
    assert_eq!(get_model(sig), 0xE);
    assert_eq!(get_family(sig), 0x6);
    assert!(cpuid_leaf_wanted(0, 0));
    assert!(!cpuid_leaf_wanted(1, 7));
    assert!(cpuid_leaf_wanted(0xD, 7));
}

#[test]
fn print_feature_names_set_bits() {
    let mut out = Vec::new();
    print_feature(&mut out, 0b10, 0b10, "VME");
    print_feature(&mut out, 0b10, 0b01, "FPU");
    assert_eq!(out, b"VME ".to_vec());
}

fn genuine_intel() -> CpuidRegs {
    // "GenuineIntel": EBX "Genu", EDX "ineI", ECX "ntel"
    CpuidRegs { eax: 7, ebx: 0x756e_6547, ecx: 0x6c65_746e, edx: 0x4965_6e69 }
}

#[test]
fn cpu_printfeatures_text() {
    let leaf1 = CpuidRegs { eax: 0x906EA, ebx: 0, ecx: CPUID_LEAF_1_SSE3, edx: CPUID_LEAF_1_FPU | CPUID_LEAF_1_APIC };
    let leaf7 = CpuidRegs { eax: 0, ebx: CPUID_LEAF_7_SMEP, ecx: 0, edx: 0 };
    let info = cpuinfo(genuine_intel(), leaf1, leaf7);
    assert_eq!(info.version, 0x906EA);
    let text = String::from_utf8(cpu_printfeatures(&info)).unwrap();
    assert_eq!(
        text,
        "CPU vendor: GenuineIntel\0\nMax leaf: 0x7\nFeatures: FPU APIC \nExt Features: SSE3 \nStructured Extended Features: SMEP \n"
    );
}

#[test]
fn cpuinfo_ignores_unanswered_leaves() {
    let leaf0 = CpuidRegs { eax: 0, ..genuine_intel() };
    let leaf1 = CpuidRegs { eax: 1, ebx: 2, ecx: 3, edx: 4 };
    let info = cpuinfo(leaf0, leaf1, leaf1);
    assert_eq!(info.features, 0);
    assert_eq!(info.featuresext, 0);
    assert_eq!(info.sef_flags, 0);
    let text = String::from_utf8(cpu_printfeatures(&info)).unwrap();
    assert_eq!(text, "CPU vendor: GenuineIntel\0\nMax leaf: 0x0\n");
}

const RDSP_AT: usize = 0xE0010;
const RSDT_AT: usize = 0x1000;
const FACP_AT: usize = 0x2000;
const MADT_AT: usize = 0x3000;

/// A machine whose tables list two processors and an I/O APIC.
fn acpi_memory() -> Vec<u8> {
    let mut m = vec![0u8; 0x100400];
    // root pointer: signature, checksum over 20 bytes, root table address
    m[RDSP_AT..RDSP_AT + 8].copy_from_slice(b"RSD PTR ");
    put32(&mut m, RDSP_AT + 16, RSDT_AT as u32);
    let sum: u32 = m[RDSP_AT..RDSP_AT + 20].iter().map(|&b| b as u32).sum();
    m[RDSP_AT + 8] = ((256 - sum % 256) % 256) as u8;
    // root table with two entries
    m[RSDT_AT..RSDT_AT + 4].copy_from_slice(b"RSDT");
    put32(&mut m, RSDT_AT + 4, 36 + 8);
    put32(&mut m, RSDT_AT + 36, FACP_AT as u32);
    put32(&mut m, RSDT_AT + 40, MADT_AT as u32);
    m[FACP_AT..FACP_AT + 4].copy_from_slice(b"FACP");
    // MADT: local APIC address, two processors, an I/O APIC
    m[MADT_AT..MADT_AT + 4].copy_from_slice(b"APIC");
    put32(&mut m, MADT_AT + 4, 44 + 8 + 8 + 12);
    put32(&mut m, MADT_AT + 36, 0xFEE0_0000);
    let e = MADT_AT + 44;
    m[e..e + 8].copy_from_slice(&[0, 8, 0, 0, 1, 0, 0, 0]);
    m[e + 8..e + 16].copy_from_slice(&[0, 8, 1, 1, 1, 0, 0, 0]);
    m[e + 16..e + 28].copy_from_slice(&[1, 12, 2, 0, 0, 0, 0xC0, 0xFE, 0, 0, 0, 0]);
    m
}

fn empty_smp() -> SmpConfig {
    SmpConfig { cpus: Vec::new(), ioapicid: 0, ismp: 0, lapic: 0 }
}

#[test]
fn find_rdsp_scans_bios_area() {
    let m = acpi_memory();
    assert_eq!(scan_rdsp(&m, 0xE0000, 0x20000), Some(RDSP_AT));
    assert_eq!(find_rdsp(&m), Some(RDSP_AT));
    // a bad checksum is skipped
    let mut bad = m.clone();
    bad[RDSP_AT + 8] ^= 1;
    assert_eq!(find_rdsp(&bad), None);
}

#[test]
fn acpiinit_reads_processors() {
    let m = acpi_memory();
    let mut smp = empty_smp();
    assert_eq!(acpiinit(&m, &mut smp), 0);
    assert_eq!(smp.cpus, vec![0, 1]);
    assert_eq!(smp.ioapicid, 2);
    assert_eq!(smp.ismp, 1);
    assert_eq!(smp.lapic, DEVBASE + 0xE0_0000);
}

#[test]
fn acpi_config_smp_stops_at_disabled_cpu() {
    let mut m = acpi_memory();
    // the second processor is not usable: the walk stops there
    m[MADT_AT + 44 + 8 + 4] = 0;
    let mut smp = empty_smp();
    assert_eq!(acpi_config_smp(&m, MADT_AT, &mut smp), 0);
    assert_eq!(smp.cpus, vec![0]);
    assert_eq!(smp.ioapicid, 0);
}

#[test]
fn acpiinit_failures() {
    // no MADT among the tables
    let mut m = acpi_memory();
    m[MADT_AT..MADT_AT + 4].copy_from_slice(b"XXXX");
    let mut smp = empty_smp();
    assert_eq!(acpiinit(&m, &mut smp), -1);
    assert!(smp.cpus.is_empty() && smp.ismp == 0);
    // a table above the mapped limit
    let mut m = acpi_memory();
    put32(&mut m, RSDT_AT + 36, 0x9000_0000);
    assert_eq!(acpiinit(&m, &mut smp), -1);
    // the root table itself above the limit
    let mut m = acpi_memory();
    put32(&mut m, RDSP_AT + 16, 0x9000_0000);
    m[RDSP_AT + 8] = 0;
    let sum: u32 = m[RDSP_AT..RDSP_AT + 20].iter().map(|&b| b as u32).sum();
    m[RDSP_AT + 8] = ((256 - sum % 256) % 256) as u8;
    assert_eq!(acpiinit(&m, &mut smp), -1);
    // a MADT that lists no processor
    let mut m = acpi_memory();
    put32(&mut m, MADT_AT + 4, 44);
    assert_eq!(acpiinit(&m, &mut smp), -1);
    assert_eq!(smp.ismp, 0);
}

fn boot_image(flags: u32) -> Vec<u8> {
    let mut b = vec![0u8; 8192 + 32];
    let w = 16;
    put32(&mut b, w, MB_MAGIC);
    put32(&mut b, w + 4, flags);
    put32(&mut b, w + 8, 0u32.wrapping_sub(MB_MAGIC).wrapping_sub(flags));
    put32(&mut b, w + 12, 0x10_0010);
    put32(&mut b, w + 16, 0x10_0000);
    put32(&mut b, w + 20, 0x10_1000);
    put32(&mut b, w + 24, 0x10_2000);
    put32(&mut b, w + 28, 0x10_000C);
    b
}

#[test]
fn bootmain_finds_multiboot_header() {
    let l = bootmain(&boot_image(0x10000)).unwrap();
    assert_eq!(
        l,
        BootLoad { load_addr: 0x10_0000, count: 0x1000, offset: 0, bss_start: 0x10_1000, bss_len: 0x1000, entry: 0x10_000C }
    );
    assert_eq!(bootmain(&boot_image(0)), None);
    assert_eq!(bootmain(&vec![0u8; 8192 + 32]), None);
}

#[test]
fn exec_stack_layout() {
    let argv = vec![b"ls".to_vec(), b"-l".to_vec()];
    let u = exec_stack(0x1000, &argv).unwrap();
    assert_eq!(u.sz, 0x3000);
    assert_eq!(u.strings, vec![0x2FF8, 0x2FF0]);
    assert_eq!(u.ustack, vec![0xffff_ffff, 2, 0x2FD8, 0x2FF8, 0x2FF0, 0]);
    assert_eq!(u.sp, 0x2FC0);
    let many: Vec<Vec<u8>> = (0..MAXARG + 1).map(|_| b"x".to_vec()).collect();
    assert!(exec_stack(0x1000, &many).is_none());
    assert!(exec_stack(0x1000, &vec![vec![b'a'; 5000]]).is_none());
    assert!(exec_stack(KERNBASE - 0x1000, &argv).is_none());
}

#[test]
fn exec_name_is_last_element() {
    assert_eq!(exec_name(b"/bin/ls"), b"ls".to_vec());
    assert_eq!(exec_name(b"init"), b"init".to_vec());
    assert_eq!(exec_name(b"a/b/"), Vec::<u8>::new());
    assert_eq!(exec_name(b"/averyveryverylongname"), b"averyveryverylo".to_vec());
    assert_eq!(exec_name(b"/x\0yz"), b"x".to_vec());
}

#[test]
fn elf_headers_decode() {
    let mut b = vec![0u8; 64 + 56];
    put32(&mut b, 0, 0x464C_457F);
    b[4] = 2;
    b[16] = 2;
    b[18] = 0x3E;
    put64(&mut b, 24, 0x40_1000);
    put64(&mut b, 32, 64);
    b[56] = 1;
    let h = ElfHdr::decode(&b);
    assert_eq!(h.magic, 0x464C_457F);
    assert_eq!(h.elf[0], 2);
    assert_eq!(h.elf.len(), 12);
    assert_eq!(h.elf_type, 2);
    assert_eq!(h.machine, 0x3E);
    assert_eq!(h.entry, 0x40_1000);
    assert_eq!(h.phoff, 64);
    assert_eq!(h.phnum, 1);
    put32(&mut b, 64, 1);
    put32(&mut b, 68, 5);
    put64(&mut b, 72, 0x1000);
    put64(&mut b, 80, 0x40_0000);
    put64(&mut b, 96, 0x234);
    put64(&mut b, 104, 0x300);
    let p = ProgHdr::decode(&b, 64);
    assert_eq!(
        p,
        ProgHdr { prog_type: 1, flags: 5, off: 0x1000, vaddr: 0x40_0000, paddr: 0, filesz: 0x234, memsz: 0x300, align: 0 }
    );
}

fn zero_tf() -> Trapframe {
    Trapframe {
        eax: 0, rbx: 0, rcx: 0, rdx: 0, rbp: 0, rsi: 0, rdi: 0, r8: 0, r9: 0, r10: 0, r11: 0, r12: 0, r13: 0,
        r14: 0, r15: 0, trapno: 0, err: 0, eip: 0, cs: 0x1B, eflags: 0x200, esp: 0, ds: 0x23,
    }
}

#[test]
fn exec_commit_switches_image() {
    let mut p = Proc {
        sz: 0x5000,
        pgdir: pde_t { addr: 0x1000 },
        kstack: 0x9000,
        state: Procstate::RUNNING,
        pid: 3,
        parent: Some(1),
        tf: zero_tf(),
        context: 0,
        chan: 0,
        killed: 0,
        ofile: vec![None; 16],
        cwd: 4,
        name: b"sh\0\0\0\0\0\0\0\0\0\0\0\0\0\0".to_vec(),
    };
    let stack = exec_stack(0x1000, &vec![b"ls".to_vec()]).unwrap();
    let im = ExecImage { entry: 0x40_0000, segments: Vec::new(), stack, name: b"ls".to_vec() };
    let old = exec_commit(&mut p, &im, pde_t { addr: 0x7000 });
    assert_eq!(old, pde_t { addr: 0x1000 });
    assert_eq!(p.pgdir, pde_t { addr: 0x7000 });
    assert_eq!(p.sz, 0x3000);
    assert_eq!(p.name, b"ls\0\0\0\0\0\0\0\0\0\0\0\0\0\0".to_vec());
    assert_eq!(p.tf.eip, 0x40_0000);
    assert_eq!(p.tf.esp, im.stack.sp);
    assert_eq!(p.tf.rdi, 1);
    assert_eq!(p.tf.rsi, im.stack.ustack[2]);
    assert_eq!(p.tf.cs, 0x1B);
    assert_eq!(p.pid, 3);
    assert_eq!(p.cwd, 4);
    let _ = UserStack { sz: 0, sp: 0, strings: Vec::new(), ustack: Vec::new() };
}

#[test]
fn cpuid_device_read_and_write() {
    let info = cpuinfo(CpuidRegs { eax: 0, ..genuine_intel() }, genuine_intel(), genuine_intel());
    let mut out = b">".to_vec();
    assert_eq!(cpuid_read(&info, &mut out), 0);
    assert_eq!(String::from_utf8(out).unwrap(), ">CPU vendor: GenuineIntel\0\nMax leaf: 0x0\n");
    let mut w = Vec::new();
    assert_eq!(cpuid_write(&mut w), 0);
    assert_eq!(w, b"cpuid_write\n".to_vec());
}

#[test]
fn waitdisk_ready_status() {
    assert!(waitdisk(0x40));
    assert!(waitdisk(0x58));
    assert!(!waitdisk(0xC0));
    assert!(!waitdisk(0x80));
    assert!(!waitdisk(0x00));
}
