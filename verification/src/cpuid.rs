//! What the CPUID instruction reports: the processor signature's fields,
//! the feature bits, which leaves to ask for, and the text that lists the
//! features.
use vstd::prelude::*;
use vstd::string::StrSliceExecFns;
use vstd::string::StringSliceAdditionalSpecFns;
use crate::console::{show, printint, printint_text};

verus! {

/// Stepping: bits 0..3.
pub fn get_stepping(a: u32) -> (r: u32)
    ensures
        r == a % 16,
{
    assert(a & 0xFu32 == a % 16) by (bit_vector);
    a & 0xF
}

/// Model: bits 4..7.
pub fn get_model(a: u32) -> (r: u32)
    ensures
        r == (a / 16) % 16,
{
    assert((a >> 4u32) & 0xFu32 == (a / 16) % 16) by (bit_vector);
    (a >> 4) & 0xF
}

/// Family: bits 8..11.
pub fn get_family(a: u32) -> (r: u32)
    ensures
        r == (a / 256) % 16,
{
    assert((a >> 8u32) & 0xFu32 == (a / 256) % 16) by (bit_vector);
    (a >> 8) & 0xF
}

/// Family field of the signature: bits 8..11.
pub const INTEL_PROC_FAMILY_SHIFT: u32 = 8;
/// Mask of the family field.
pub const INTEL_PROC_FAMILY_MASK: u32 = 0xF << 8;
/// Family of the Pentium 4.
pub const INTEL_PROC_FAMILY_PENTIUM_4: u32 = 0xF;

/// Leaf 1 EDX feature bit FPU.
pub const CPUID_LEAF_1_FPU: u32 = 1 << 0;

/// Leaf 1 EDX feature bit VME.
pub const CPUID_LEAF_1_VME: u32 = 1 << 1;

/// Leaf 1 EDX feature bit DE.
pub const CPUID_LEAF_1_DE: u32 = 1 << 2;

/// Leaf 1 EDX feature bit PSE.
pub const CPUID_LEAF_1_PSE: u32 = 1 << 3;

/// Leaf 1 EDX feature bit TSC.
pub const CPUID_LEAF_1_TSC: u32 = 1 << 4;

/// Leaf 1 EDX feature bit MSR.
pub const CPUID_LEAF_1_MSR: u32 = 1 << 5;

/// Leaf 1 EDX feature bit PAE.
pub const CPUID_LEAF_1_PAE: u32 = 1 << 6;

/// Leaf 1 EDX feature bit MCE.
pub const CPUID_LEAF_1_MCE: u32 = 1 << 7;

/// Leaf 1 EDX feature bit CX8.
pub const CPUID_LEAF_1_CX8: u32 = 1 << 8;

/// Leaf 1 EDX feature bit APIC.
pub const CPUID_LEAF_1_APIC: u32 = 1 << 9;

/// Leaf 1 EDX feature bit SEP.
pub const CPUID_LEAF_1_SEP: u32 = 1 << 11;

/// Leaf 1 EDX feature bit MTRR.
pub const CPUID_LEAF_1_MTRR: u32 = 1 << 12;

/// Leaf 1 EDX feature bit PGE.
pub const CPUID_LEAF_1_PGE: u32 = 1 << 13;

/// Leaf 1 EDX feature bit MCA.
pub const CPUID_LEAF_1_MCA: u32 = 1 << 14;

/// Leaf 1 EDX feature bit CMOV.
pub const CPUID_LEAF_1_CMOV: u32 = 1 << 15;

/// Leaf 1 EDX feature bit PAT.
pub const CPUID_LEAF_1_PAT: u32 = 1 << 16;

/// Leaf 1 EDX feature bit PSE36.
pub const CPUID_LEAF_1_PSE36: u32 = 1 << 17;

/// Leaf 1 EDX feature bit PSN.
pub const CPUID_LEAF_1_PSN: u32 = 1 << 18;

/// Leaf 1 EDX feature bit CLFSH.
pub const CPUID_LEAF_1_CLFSH: u32 = 1 << 19;

/// Leaf 1 EDX feature bit DS.
pub const CPUID_LEAF_1_DS: u32 = 1 << 21;

/// Leaf 1 EDX feature bit ACPI.
pub const CPUID_LEAF_1_ACPI: u32 = 1 << 22;

/// Leaf 1 EDX feature bit MMX.
pub const CPUID_LEAF_1_MMX: u32 = 1 << 23;

/// Leaf 1 EDX feature bit FXSR.
pub const CPUID_LEAF_1_FXSR: u32 = 1 << 24;

/// Leaf 1 EDX feature bit SSE.
pub const CPUID_LEAF_1_SSE: u32 = 1 << 25;

/// Leaf 1 EDX feature bit SSE2.
pub const CPUID_LEAF_1_SSE2: u32 = 1 << 26;

/// Leaf 1 EDX feature bit SS.
pub const CPUID_LEAF_1_SS: u32 = 1 << 27;

/// Leaf 1 EDX feature bit HTT.
pub const CPUID_LEAF_1_HTT: u32 = 1 << 28;

/// Leaf 1 EDX feature bit TM.
pub const CPUID_LEAF_1_TM: u32 = 1 << 29;

/// Leaf 1 EDX feature bit PBE.
pub const CPUID_LEAF_1_PBE: u32 = 1 << 31;

/// Leaf 1 ECX feature bit SSE3.
pub const CPUID_LEAF_1_SSE3: u32 = 1 << 0;

/// Leaf 1 ECX feature bit PCLMULQDQ.
pub const CPUID_LEAF_1_PCLMULQDQ: u32 = 1 << 1;

/// Leaf 1 ECX feature bit DTES64.
pub const CPUID_LEAF_1_DTES64: u32 = 1 << 2;

/// Leaf 1 ECX feature bit MONITOR.
pub const CPUID_LEAF_1_MONITOR: u32 = 1 << 3;

/// Leaf 1 ECX feature bit DS_CPL.
pub const CPUID_LEAF_1_DS_CPL: u32 = 1 << 4;

/// Leaf 1 ECX feature bit VMX.
pub const CPUID_LEAF_1_VMX: u32 = 1 << 5;

/// Leaf 1 ECX feature bit SMX.
pub const CPUID_LEAF_1_SMX: u32 = 1 << 6;

/// Leaf 1 ECX feature bit EIST.
pub const CPUID_LEAF_1_EIST: u32 = 1 << 7;

/// Leaf 1 ECX feature bit TM2.
pub const CPUID_LEAF_1_TM2: u32 = 1 << 8;

/// Leaf 1 ECX feature bit SSSE3.
pub const CPUID_LEAF_1_SSSE3: u32 = 1 << 9;

/// Leaf 1 ECX feature bit CNXT_ID.
pub const CPUID_LEAF_1_CNXT_ID: u32 = 1 << 10;

/// Leaf 1 ECX feature bit FMA.
pub const CPUID_LEAF_1_FMA: u32 = 1 << 12;

/// Leaf 1 ECX feature bit CMPXCHG16B.
pub const CPUID_LEAF_1_CMPXCHG16B: u32 = 1 << 13;

/// Leaf 1 ECX feature bit xTPR.
pub const CPUID_LEAF_1_xTPR: u32 = 1 << 14;

/// Leaf 1 ECX feature bit PDCM.
pub const CPUID_LEAF_1_PDCM: u32 = 1 << 15;

/// Leaf 1 ECX feature bit PCID.
pub const CPUID_LEAF_1_PCID: u32 = 1 << 17;

/// Leaf 1 ECX feature bit DCA.
pub const CPUID_LEAF_1_DCA: u32 = 1 << 18;

/// Leaf 1 ECX feature bit SSE4_1.
pub const CPUID_LEAF_1_SSE4_1: u32 = 1 << 19;

/// Leaf 1 ECX feature bit SSE4_2.
pub const CPUID_LEAF_1_SSE4_2: u32 = 1 << 20;

/// Leaf 1 ECX feature bit x2APIC.
pub const CPUID_LEAF_1_x2APIC: u32 = 1 << 21;

/// Leaf 1 ECX feature bit MOVBE.
pub const CPUID_LEAF_1_MOVBE: u32 = 1 << 22;

/// Leaf 1 ECX feature bit POPCNT.
pub const CPUID_LEAF_1_POPCNT: u32 = 1 << 23;

/// Leaf 1 ECX feature bit TSCD.
pub const CPUID_LEAF_1_TSCD: u32 = 1 << 24;

/// Leaf 1 ECX feature bit AESNI.
pub const CPUID_LEAF_1_AESNI: u32 = 1 << 25;

/// Leaf 1 ECX feature bit XSAVE.
pub const CPUID_LEAF_1_XSAVE: u32 = 1 << 26;

/// Leaf 1 ECX feature bit OSXSAVE.
pub const CPUID_LEAF_1_OSXSAVE: u32 = 1 << 27;

/// Leaf 1 ECX feature bit AVX.
pub const CPUID_LEAF_1_AVX: u32 = 1 << 28;

/// Leaf 1 ECX feature bit F16C.
pub const CPUID_LEAF_1_F16C: u32 = 1 << 29;

/// Leaf 1 ECX feature bit RDRAND.
pub const CPUID_LEAF_1_RDRAND: u32 = 1 << 30;

/// Leaf 7 EBX feature bit FSGSBASE.
pub const CPUID_LEAF_7_FSGSBASE: u32 = 1 << 0;

/// Leaf 7 EBX feature bit TAM.
pub const CPUID_LEAF_7_TAM: u32 = 1 << 1;

/// Leaf 7 EBX feature bit SMEP.
pub const CPUID_LEAF_7_SMEP: u32 = 1 << 7;

/// Leaf 7 EBX feature bit EREP.
pub const CPUID_LEAF_7_EREP: u32 = 1 << 9;

/// Leaf 7 EBX feature bit INVPCID.
pub const CPUID_LEAF_7_INVPCID: u32 = 1 << 10;

/// Leaf 7 EBX feature bit QM.
pub const CPUID_LEAF_7_QM: u32 = 1 << 12;

/// Leaf 7 EBX feature bit FPUCS.
pub const CPUID_LEAF_7_FPUCS: u32 = 1 << 13;

/// The features leaf 1 reports in EDX, in the order they are listed.
pub open spec fn leaf1_edx_features_spec() -> Seq<(u32, &'static str)> {
    seq![
        (CPUID_LEAF_1_FPU, "FPU"),
        (CPUID_LEAF_1_VME, "VME"),
        (CPUID_LEAF_1_DE, "DE"),
        (CPUID_LEAF_1_PSE, "PSE"),
        (CPUID_LEAF_1_TSC, "TSC"),
        (CPUID_LEAF_1_MSR, "MSR"),
        (CPUID_LEAF_1_PAE, "PAE"),
        (CPUID_LEAF_1_MCE, "MCE"),
        (CPUID_LEAF_1_CX8, "CX8"),
        (CPUID_LEAF_1_APIC, "APIC"),
        (CPUID_LEAF_1_SEP, "SEP"),
        (CPUID_LEAF_1_MTRR, "MTRR"),
        (CPUID_LEAF_1_PGE, "PGE"),
        (CPUID_LEAF_1_MCA, "MCA"),
        (CPUID_LEAF_1_CMOV, "CMOV"),
        (CPUID_LEAF_1_PAT, "PAT"),
        (CPUID_LEAF_1_PSE36, "PSE36"),
        (CPUID_LEAF_1_PSN, "PSN"),
        (CPUID_LEAF_1_CLFSH, "CLFSH"),
        (CPUID_LEAF_1_DS, "DS"),
        (CPUID_LEAF_1_ACPI, "ACPI"),
        (CPUID_LEAF_1_MMX, "MMX"),
        (CPUID_LEAF_1_FXSR, "FXSR"),
        (CPUID_LEAF_1_SSE, "SSE"),
        (CPUID_LEAF_1_SSE2, "SSE2"),
        (CPUID_LEAF_1_SS, "SS"),
        (CPUID_LEAF_1_HTT, "HTT"),
        (CPUID_LEAF_1_TM, "TM"),
        (CPUID_LEAF_1_PBE, "PBE"),
    ]
}
/// The features leaf 1 reports in ECX, in the order they are listed.
pub open spec fn leaf1_ecx_features_spec() -> Seq<(u32, &'static str)> {
    seq![
        (CPUID_LEAF_1_SSE3, "SSE3"),
        (CPUID_LEAF_1_PCLMULQDQ, "PCLMULQDQ"),
        (CPUID_LEAF_1_DTES64, "DTES64"),
        (CPUID_LEAF_1_MONITOR, "MONITOR"),
        (CPUID_LEAF_1_DS_CPL, "DS_CPL"),
        (CPUID_LEAF_1_VMX, "VMX"),
        (CPUID_LEAF_1_SMX, "SMX"),
        (CPUID_LEAF_1_EIST, "EIST"),
        (CPUID_LEAF_1_TM2, "TM2"),
        (CPUID_LEAF_1_SSSE3, "SSSE3"),
        (CPUID_LEAF_1_CNXT_ID, "CNXT_ID"),
        (CPUID_LEAF_1_FMA, "FMA"),
        (CPUID_LEAF_1_CMPXCHG16B, "CMPXCHG16B"),
        (CPUID_LEAF_1_xTPR, "xTPR"),
        (CPUID_LEAF_1_PDCM, "PDCM"),
        (CPUID_LEAF_1_PCID, "PCID"),
        (CPUID_LEAF_1_DCA, "DCA"),
        (CPUID_LEAF_1_SSE4_1, "SSE4_1"),
        (CPUID_LEAF_1_SSE4_2, "SSE4_2"),
        (CPUID_LEAF_1_x2APIC, "x2APIC"),
        (CPUID_LEAF_1_MOVBE, "MOVBE"),
        (CPUID_LEAF_1_POPCNT, "POPCNT"),
        (CPUID_LEAF_1_TSCD, "TSCD"),
        (CPUID_LEAF_1_AESNI, "AESNI"),
        (CPUID_LEAF_1_XSAVE, "XSAVE"),
        (CPUID_LEAF_1_OSXSAVE, "OSXSAVE"),
        (CPUID_LEAF_1_AVX, "AVX"),
        (CPUID_LEAF_1_F16C, "F16C"),
        (CPUID_LEAF_1_RDRAND, "RDRAND"),
    ]
}
/// The structured extended features leaf 7 reports in EBX, in the order they are listed.
pub open spec fn leaf7_ebx_features_spec() -> Seq<(u32, &'static str)> {
    seq![
        (CPUID_LEAF_7_FSGSBASE, "FSGSBASE"),
        (CPUID_LEAF_7_TAM, "TAM"),
        (CPUID_LEAF_7_SMEP, "SMEP"),
        (CPUID_LEAF_7_EREP, "EREP"),
        (CPUID_LEAF_7_INVPCID, "INVPCID"),
        (CPUID_LEAF_7_QM, "QM"),
        (CPUID_LEAF_7_FPUCS, "FPUCS"),
    ]
}

/// The features leaf 1 reports in EDX.
fn leaf1_edx_features() -> (r: Vec<(u32, &'static str)>)
    ensures
        r@ == leaf1_edx_features_spec(),
{
    let r = vec![
        (CPUID_LEAF_1_FPU, "FPU"),
        (CPUID_LEAF_1_VME, "VME"),
        (CPUID_LEAF_1_DE, "DE"),
        (CPUID_LEAF_1_PSE, "PSE"),
        (CPUID_LEAF_1_TSC, "TSC"),
        (CPUID_LEAF_1_MSR, "MSR"),
        (CPUID_LEAF_1_PAE, "PAE"),
        (CPUID_LEAF_1_MCE, "MCE"),
        (CPUID_LEAF_1_CX8, "CX8"),
        (CPUID_LEAF_1_APIC, "APIC"),
        (CPUID_LEAF_1_SEP, "SEP"),
        (CPUID_LEAF_1_MTRR, "MTRR"),
        (CPUID_LEAF_1_PGE, "PGE"),
        (CPUID_LEAF_1_MCA, "MCA"),
        (CPUID_LEAF_1_CMOV, "CMOV"),
        (CPUID_LEAF_1_PAT, "PAT"),
        (CPUID_LEAF_1_PSE36, "PSE36"),
        (CPUID_LEAF_1_PSN, "PSN"),
        (CPUID_LEAF_1_CLFSH, "CLFSH"),
        (CPUID_LEAF_1_DS, "DS"),
        (CPUID_LEAF_1_ACPI, "ACPI"),
        (CPUID_LEAF_1_MMX, "MMX"),
        (CPUID_LEAF_1_FXSR, "FXSR"),
        (CPUID_LEAF_1_SSE, "SSE"),
        (CPUID_LEAF_1_SSE2, "SSE2"),
        (CPUID_LEAF_1_SS, "SS"),
        (CPUID_LEAF_1_HTT, "HTT"),
        (CPUID_LEAF_1_TM, "TM"),
        (CPUID_LEAF_1_PBE, "PBE"),
    ];
    proof {
        assert(r@ =~= leaf1_edx_features_spec());
    }
    r
}

/// The features leaf 1 reports in ECX.
fn leaf1_ecx_features() -> (r: Vec<(u32, &'static str)>)
    ensures
        r@ == leaf1_ecx_features_spec(),
{
    let r = vec![
        (CPUID_LEAF_1_SSE3, "SSE3"),
        (CPUID_LEAF_1_PCLMULQDQ, "PCLMULQDQ"),
        (CPUID_LEAF_1_DTES64, "DTES64"),
        (CPUID_LEAF_1_MONITOR, "MONITOR"),
        (CPUID_LEAF_1_DS_CPL, "DS_CPL"),
        (CPUID_LEAF_1_VMX, "VMX"),
        (CPUID_LEAF_1_SMX, "SMX"),
        (CPUID_LEAF_1_EIST, "EIST"),
        (CPUID_LEAF_1_TM2, "TM2"),
        (CPUID_LEAF_1_SSSE3, "SSSE3"),
        (CPUID_LEAF_1_CNXT_ID, "CNXT_ID"),
        (CPUID_LEAF_1_FMA, "FMA"),
        (CPUID_LEAF_1_CMPXCHG16B, "CMPXCHG16B"),
        (CPUID_LEAF_1_xTPR, "xTPR"),
        (CPUID_LEAF_1_PDCM, "PDCM"),
        (CPUID_LEAF_1_PCID, "PCID"),
        (CPUID_LEAF_1_DCA, "DCA"),
        (CPUID_LEAF_1_SSE4_1, "SSE4_1"),
        (CPUID_LEAF_1_SSE4_2, "SSE4_2"),
        (CPUID_LEAF_1_x2APIC, "x2APIC"),
        (CPUID_LEAF_1_MOVBE, "MOVBE"),
        (CPUID_LEAF_1_POPCNT, "POPCNT"),
        (CPUID_LEAF_1_TSCD, "TSCD"),
        (CPUID_LEAF_1_AESNI, "AESNI"),
        (CPUID_LEAF_1_XSAVE, "XSAVE"),
        (CPUID_LEAF_1_OSXSAVE, "OSXSAVE"),
        (CPUID_LEAF_1_AVX, "AVX"),
        (CPUID_LEAF_1_F16C, "F16C"),
        (CPUID_LEAF_1_RDRAND, "RDRAND"),
    ];
    proof {
        assert(r@ =~= leaf1_ecx_features_spec());
    }
    r
}

/// The structured extended features leaf 7 reports in EBX.
fn leaf7_ebx_features() -> (r: Vec<(u32, &'static str)>)
    ensures
        r@ == leaf7_ebx_features_spec(),
{
    let r = vec![
        (CPUID_LEAF_7_FSGSBASE, "FSGSBASE"),
        (CPUID_LEAF_7_TAM, "TAM"),
        (CPUID_LEAF_7_SMEP, "SMEP"),
        (CPUID_LEAF_7_EREP, "EREP"),
        (CPUID_LEAF_7_INVPCID, "INVPCID"),
        (CPUID_LEAF_7_QM, "QM"),
        (CPUID_LEAF_7_FPUCS, "FPUCS"),
    ];
    proof {
        assert(r@ =~= leaf7_ebx_features_spec());
    }
    r
}

/// What the features of `table` set in `flags` print as, in order.
pub open spec fn features_text(flags: u32, table: Seq<(u32, &'static str)>) -> Seq<u8>
    decreases table.len(),
{
    if table.len() == 0 {
        Seq::empty()
    } else {
        features_text(flags, table.drop_last()) + feature_text(flags, table.last().0, table.last().1)
    }
}

/// Appends the features of `table` set in `flags`.
fn print_features(out: &mut Vec<u8>, flags: u32, table: &Vec<(u32, &'static str)>)
    ensures
        final(out)@ == old(out)@ + features_text(flags, table@),
{
    let ghost o = out@;
    let mut k: usize = 0;
    while k < table.len()
        invariant
            k <= table@.len(),
            out@ == o + features_text(flags, table@.subrange(0, k as int)),
        decreases table@.len() - k,
    {
        let (bit, name) = table[k];
        print_feature(out, flags, bit, name);
        proof {
            let t = table@.subrange(0, k + 1);
            assert(t.drop_last() =~= table@.subrange(0, k as int));
            assert(out@ =~= o + features_text(flags, t));
        }
        k += 1;
    }
    proof {
        assert(table@.subrange(0, table@.len() as int) =~= table@);
    }
}

/// What `print_feature` prints for a feature: its name and a space when
/// its bit is set in `flags`.
pub open spec fn feature_text(flags: u32, feature: u32, name: &str) -> Seq<u8> {
    if flags & feature != 0 {
        name.spec_bytes().push(0x20u8)
    } else {
        Seq::empty()
    }
}

/// Appends the bytes of `s`.
fn push_bytes(out: &mut Vec<u8>, s: &str)
    ensures
        final(out)@ == old(out)@ + s.spec_bytes(),
{
    let b = s.as_bytes_vec();
    let mut k: usize = 0;
    let ghost o = out@;
    while k < b.len()
        invariant
            k <= b@.len(),
            b@ == s.spec_bytes(),
            out@ == o + b@.subrange(0, k as int),
        decreases b@.len() - k,
    {
        out.push(b[k]);
        k += 1;
        proof {
            assert(out@ =~= o + b@.subrange(0, k as int));
        }
    }
    proof {
        assert(b@.subrange(0, b@.len() as int) =~= b@);
    }
}

/// Appends the name of a feature, and a space, when its bit is set in
/// `flags`.
pub fn print_feature(out: &mut Vec<u8>, flags: u32, feature: u32, feature_name: &str)
    ensures
        final(out)@ == old(out)@ + feature_text(flags, feature, feature_name),
{
    if flags & feature != 0 {
        push_bytes(out, feature_name);
        out.push(0x20);
    }
}

/// The registers CPUID returns for one leaf.
#[derive(Clone, Copy, PartialEq, Eq, Structural, Debug)]
pub struct CpuidRegs {
    pub eax: u32,
    pub ebx: u32,
    pub ecx: u32,
    pub edx: u32,
}

/// What the kernel keeps of what CPUID reports.
#[derive(Clone, Copy, PartialEq, Eq, Structural, Debug)]
pub struct CpuInfo {
    /// Highest leaf the processor answers.
    pub maxleaf: u32,
    /// The vendor string, four bytes per word, in order.
    pub vendor0: u32,
    pub vendor1: u32,
    pub vendor2: u32,
    /// Processor signature (leaf 1, EAX).
    pub version: u32,
    /// Brand, cache line and APIC id (leaf 1, EBX).
    pub processor: u32,
    /// Features of leaf 1 in ECX.
    pub featuresext: u32,
    /// Features of leaf 1 in EDX.
    pub features: u32,
    /// Structured extended features (leaf 7, EBX).
    pub sef_flags: u32,
}

/// Leaf `leaf` is to be asked for: leaf 0 always, the others when the
/// processor answers them.
pub fn cpuid_leaf_wanted(maxleaf: u32, leaf: u32) -> (r: bool)
    ensures
        r == (leaf == 0 || leaf <= maxleaf),
{
    leaf == 0 || leaf <= maxleaf
}

/// Gathers what CPUID reported for leaves 0, 1 and 7: the highest leaf
/// and the vendor from leaf 0 (EBX, EDX, ECX), the signature and features
/// from leaf 1, the structured extended features from leaf 7; a leaf the
/// processor does not answer counts as zeros.
pub fn cpuinfo(leaf0: CpuidRegs, leaf1: CpuidRegs, leaf7: CpuidRegs) -> (r: CpuInfo)
    ensures
        r.maxleaf == leaf0.eax,
        r.vendor0 == leaf0.ebx && r.vendor1 == leaf0.edx && r.vendor2 == leaf0.ecx,
        r.version == (if leaf0.eax >= 1 { leaf1.eax } else { 0 }),
        r.processor == (if leaf0.eax >= 1 { leaf1.ebx } else { 0 }),
        r.featuresext == (if leaf0.eax >= 1 { leaf1.ecx } else { 0 }),
        r.features == (if leaf0.eax >= 1 { leaf1.edx } else { 0 }),
        r.sef_flags == (if leaf0.eax >= 7 { leaf7.ebx } else { 0 }),
{
    let maxleaf = leaf0.eax;
    let mut info = CpuInfo {
        maxleaf,
        vendor0: leaf0.ebx,
        vendor1: leaf0.edx,
        vendor2: leaf0.ecx,
        version: 0,
        processor: 0,
        featuresext: 0,
        features: 0,
        sef_flags: 0,
    };
    if maxleaf >= 1 {
        info.version = leaf1.eax;
        info.processor = leaf1.ebx;
        info.featuresext = leaf1.ecx;
        info.features = leaf1.edx;
    }
    if maxleaf >= 7 {
        info.sef_flags = leaf7.ebx;
    }
    info
}

/// The four bytes of `x`, least significant first.
pub open spec fn le_bytes(x: u32) -> Seq<u8> {
    seq![(x % 256) as u8, ((x / 256) % 256) as u8, ((x / 65536) % 256) as u8, (x / 16777216) as u8]
}

/// A continuation byte of UTF-8.
pub open spec fn utf8_cont(b: u8) -> bool {
    0x80 <= b <= 0xBF
}

/// `s` is well-formed UTF-8.
pub open spec fn valid_utf8(s: Seq<u8>) -> bool
    decreases s.len(),
{
    if s.len() == 0 {
        true
    } else if s[0] < 0x80 {
        valid_utf8(s.subrange(1, s.len() as int))
    } else if 0xC2 <= s[0] <= 0xDF {
        s.len() >= 2 && utf8_cont(s[1]) && valid_utf8(s.subrange(2, s.len() as int))
    } else if 0xE0 <= s[0] <= 0xEF {
        &&& s.len() >= 3
        &&& if s[0] == 0xE0 {
            0xA0 <= s[1] <= 0xBF
        } else if s[0] == 0xED {
            0x80 <= s[1] <= 0x9F
        } else {
            utf8_cont(s[1])
        }
        &&& utf8_cont(s[2])
        &&& valid_utf8(s.subrange(3, s.len() as int))
    } else if 0xF0 <= s[0] <= 0xF4 {
        &&& s.len() >= 4
        &&& if s[0] == 0xF0 {
            0x90 <= s[1] <= 0xBF
        } else if s[0] == 0xF4 {
            0x80 <= s[1] <= 0x8F
        } else {
            utf8_cont(s[1])
        }
        &&& utf8_cont(s[2])
        &&& utf8_cont(s[3])
        &&& valid_utf8(s.subrange(4, s.len() as int))
    } else {
        false
    }
}

/// The vendor string as the processor gives it: twelve bytes.
pub open spec fn vendor_bytes(i: CpuInfo) -> Seq<u8> {
    le_bytes(i.vendor0) + le_bytes(i.vendor1) + le_bytes(i.vendor2)
}

/// The text `cpu_printfeatures` prints: the vendor (its twelve bytes and
/// the zero byte that ends the buffer they are copied to), the highest leaf in
/// hex, the features of leaf 1 when it is answered, and the structured
/// extended features when leaf 7 is.
pub open spec fn cpu_features_text(i: CpuInfo) -> Seq<u8> {
    "CPU vendor: ".spec_bytes() + vendor_bytes(i).push(0u8) + "\n".spec_bytes() + "Max leaf: 0x".spec_bytes() + show(
        i.maxleaf as nat,
        16,
    ) + "\n".spec_bytes() + (if i.maxleaf >= 1 {
        "Features: ".spec_bytes() + features_text(i.features, leaf1_edx_features_spec()) + "\nExt Features: ".spec_bytes()
            + features_text(i.featuresext, leaf1_ecx_features_spec()) + "\n".spec_bytes()
    } else {
        Seq::empty()
    }) + (if i.maxleaf >= 7 {
        "Structured Extended Features: ".spec_bytes() + features_text(i.sef_flags, leaf7_ebx_features_spec())
            + "\n".spec_bytes()
    } else {
        Seq::empty()
    })
}

/// `16` to the power `k`.
pub open spec fn p16(k: nat) -> nat
    decreases k,
{
    if k == 0 {
        1
    } else {
        16 * p16((k - 1) as nat)
    }
}

proof fn lemma_show_len(x: nat, k: nat)
    requires
        k >= 1,
        x < p16(k),
    ensures
        show(x, 16).len() <= k,
    decreases x,
{
    if x >= 16 {
        assert(k >= 2) by {
            if k == 1 {
                assert(p16(1) == 16) by {
                    reveal_with_fuel(p16, 2);
                }
            }
        }
        assert(x / 16 < p16((k - 1) as nat));
        vstd::arithmetic::div_mod::lemma_div_decreases(x as int, 16);
        lemma_show_len(x / 16, (k - 1) as nat);
    }
}

/// The bytes of `x`, least significant first.
fn push_le(out: &mut Vec<u8>, x: u32)
    ensures
        final(out)@ == old(out)@ + le_bytes(x),
{
    out.push((x % 256) as u8);
    out.push(((x / 256) % 256) as u8);
    out.push(((x / 65536) % 256) as u8);
    out.push((x / 16777216) as u8);
    proof {
        assert(final(out)@ =~= old(out)@ + le_bytes(x));
    }
}

/// The text listing what CPUID reported.
pub fn cpu_printfeatures(info: &CpuInfo) -> (r: Vec<u8>)
    requires
        valid_utf8(vendor_bytes(*info).push(0u8)),
    ensures
        r@ == cpu_features_text(*info),
{
    let mut out: Vec<u8> = Vec::new();
    push_bytes(&mut out, "CPU vendor: ");
    let ghost o1 = out@;
    push_le(&mut out, info.vendor0);
    push_le(&mut out, info.vendor1);
    push_le(&mut out, info.vendor2);
    out.push(0u8);
    proof {
        assert(out@ =~= o1 + vendor_bytes(*info).push(0u8));
    }
    push_bytes(&mut out, "\n");
    push_bytes(&mut out, "Max leaf: 0x");
    proof {
        reveal_with_fuel(p16, 9);
        lemma_show_len(info.maxleaf as nat, 8);
        let m = info.maxleaf;
        let xx = m as i32;
        assert((xx as u32) == m) by (bit_vector)
            requires
                xx == m as i32,
        ;
    }
    let hex = printint(info.maxleaf as i32, 16, false);
    let mut h: usize = 0;
    let ghost o2 = out@;
    while h < hex.len()
        invariant
            h <= hex@.len(),
            out@ == o2 + hex@.subrange(0, h as int),
        decreases hex@.len() - h,
    {
        out.push(hex[h]);
        h += 1;
        proof {
            assert(out@ =~= o2 + hex@.subrange(0, h as int));
        }
    }
    proof {
        assert(hex@.subrange(0, hex@.len() as int) =~= hex@);
    }
    push_bytes(&mut out, "\n");
    let ghost o3 = out@;
    if info.maxleaf >= 1 {
        push_bytes(&mut out, "Features: ");
        print_features(&mut out, info.features, &leaf1_edx_features());
        push_bytes(&mut out, "\nExt Features: ");
        print_features(&mut out, info.featuresext, &leaf1_ecx_features());
        push_bytes(&mut out, "\n");
    }
    let ghost o4 = out@;
    if info.maxleaf >= 7 {
        push_bytes(&mut out, "Structured Extended Features: ");
        print_features(&mut out, info.sef_flags, &leaf7_ebx_features());
        push_bytes(&mut out, "\n");
    }
    proof {
        assert(out@ =~= cpu_features_text(*info));
    }
    out
}

/// Reading the CPUID device prints the processor's features (what
/// `cpu_printfeatures` lists for `info`) to the console output `out`, and
/// returns 0.
pub fn cpuid_read(info: &CpuInfo, out: &mut Vec<u8>) -> (r: i32)
    requires
        valid_utf8(vendor_bytes(*info).push(0u8)),
    ensures
        r == 0,
        final(out)@ == old(out)@ + cpu_features_text(*info),
{
    let text = cpu_printfeatures(info);
    let mut k: usize = 0;
    let ghost o = out@;
    while k < text.len()
        invariant
            k <= text@.len(),
            out@ == o + text@.subrange(0, k as int),
        decreases text@.len() - k,
    {
        out.push(text[k]);
        k += 1;
        proof {
            assert(out@ =~= o + text@.subrange(0, k as int));
        }
    }
    proof {
        assert(text@.subrange(0, text@.len() as int) =~= text@);
    }
    0
}

/// Writing the CPUID device only reports the attempt on the console
/// output `out`, and returns 0.
pub fn cpuid_write(out: &mut Vec<u8>) -> (r: i32)
    ensures
        r == 0,
        final(out)@ == old(out)@ + "cpuid_write\n".spec_bytes(),
{
    push_bytes(out, "cpuid_write\n");
    0
}

/// Two names that differ in length or in one of their first six
/// characters differ.
proof fn lemma_names_differ(a: Seq<char>, b: Seq<char>)
    requires
        a.len() != b.len() || a[0] != b[0] || a[1] != b[1] || a[2] != b[2] || a[3] != b[3] || a[4] != b[4] || a[5]
            != b[5],
    ensures
        a != b,
{
}

/// Two different bits of a word are different single-bit masks.
proof fn lemma_single_bits_differ(a: u32, b: u32)
    by (bit_vector)
    ensures
        a < 32 && b < 32 && a != b ==> (1u32 << a) != (1u32 << b),
{
}

/// The features listed for leaf 1 EDX are named after their bits as the
/// processor documents them: bit 0 FPU, bit 1 VME, bit 2 DE, bit 3 PSE, bit 4
/// TSC, bit 5 MSR, bit 6 PAE, bit 7 MCE, bit 8 CX8, bit 9 APIC, bit 11 SEP,
/// bit 12 MTRR, bit 13 PGE, bit 14 MCA, bit 15 CMOV, bit 16 PAT, bit 17
/// PSE36, bit 18 PSN, bit 19 CLFSH, bit 21 DS, bit 22 ACPI, bit 23 MMX, bit
/// 24 FXSR, bit 25 SSE, bit 26 SSE2, bit 27 SS, bit 28 HTT, bit 29 TM, bit 31
/// PBE. No two entries share a bit or a name.
pub proof fn lemma_edx_names()
    ensures
        leaf1_edx_features_spec().len() == 29,
        leaf1_edx_features_spec()[0] == (1u32 << 0u32, "FPU"),
        leaf1_edx_features_spec()[1] == (1u32 << 1u32, "VME"),
        leaf1_edx_features_spec()[2] == (1u32 << 2u32, "DE"),
        leaf1_edx_features_spec()[3] == (1u32 << 3u32, "PSE"),
        leaf1_edx_features_spec()[4] == (1u32 << 4u32, "TSC"),
        leaf1_edx_features_spec()[5] == (1u32 << 5u32, "MSR"),
        leaf1_edx_features_spec()[6] == (1u32 << 6u32, "PAE"),
        leaf1_edx_features_spec()[7] == (1u32 << 7u32, "MCE"),
        leaf1_edx_features_spec()[8] == (1u32 << 8u32, "CX8"),
        leaf1_edx_features_spec()[9] == (1u32 << 9u32, "APIC"),
        leaf1_edx_features_spec()[10] == (1u32 << 11u32, "SEP"),
        leaf1_edx_features_spec()[11] == (1u32 << 12u32, "MTRR"),
        leaf1_edx_features_spec()[12] == (1u32 << 13u32, "PGE"),
        leaf1_edx_features_spec()[13] == (1u32 << 14u32, "MCA"),
        leaf1_edx_features_spec()[14] == (1u32 << 15u32, "CMOV"),
        leaf1_edx_features_spec()[15] == (1u32 << 16u32, "PAT"),
        leaf1_edx_features_spec()[16] == (1u32 << 17u32, "PSE36"),
        leaf1_edx_features_spec()[17] == (1u32 << 18u32, "PSN"),
        leaf1_edx_features_spec()[18] == (1u32 << 19u32, "CLFSH"),
        leaf1_edx_features_spec()[19] == (1u32 << 21u32, "DS"),
        leaf1_edx_features_spec()[20] == (1u32 << 22u32, "ACPI"),
        leaf1_edx_features_spec()[21] == (1u32 << 23u32, "MMX"),
        leaf1_edx_features_spec()[22] == (1u32 << 24u32, "FXSR"),
        leaf1_edx_features_spec()[23] == (1u32 << 25u32, "SSE"),
        leaf1_edx_features_spec()[24] == (1u32 << 26u32, "SSE2"),
        leaf1_edx_features_spec()[25] == (1u32 << 27u32, "SS"),
        leaf1_edx_features_spec()[26] == (1u32 << 28u32, "HTT"),
        leaf1_edx_features_spec()[27] == (1u32 << 29u32, "TM"),
        leaf1_edx_features_spec()[28] == (1u32 << 31u32, "PBE"),
        ({
            let t = leaf1_edx_features_spec();
            forall|i: int, j: int| 0 <= i < j < t.len() ==> t[i].0 != t[j].0 && t[i].1@ != t[j].1@
        }),
{
    let t = leaf1_edx_features_spec();
    let bits: Seq<u32> = seq![
        0u32, 1u32, 2u32, 3u32, 4u32, 5u32, 6u32, 7u32, 8u32, 9u32, 11u32, 12u32, 13u32, 14u32,
        15u32, 16u32, 17u32, 18u32, 19u32, 21u32, 22u32, 23u32, 24u32, 25u32, 26u32, 27u32, 28u32,
        29u32, 31u32,
    ];
    assert forall|i: int| 0 <= i < t.len() implies t[i].0 == 1u32 << #[trigger] bits[i] && bits[i] < 32 by {
        assert(i == 0 || i == 1 || i == 2 || i == 3 || i == 4 || i == 5 || i == 6 || i == 7 || i == 8 ||
            i == 9 || i == 10 || i == 11 || i == 12 || i == 13 || i == 14 || i == 15 || i == 16 || i == 17 ||
            i == 18 || i == 19 || i == 20 || i == 21 || i == 22 || i == 23 || i == 24 || i == 25 ||
            i == 26 || i == 27 || i == 28);
    }
    assert forall|i: int, j: int| 0 <= i < j < t.len() implies t[i].0 != t[j].0 && t[i].1@ != t[j].1@ by {
        assert(i == 0 || i == 1 || i == 2 || i == 3 || i == 4 || i == 5 || i == 6 || i == 7 || i == 8 ||
            i == 9 || i == 10 || i == 11 || i == 12 || i == 13 || i == 14 || i == 15 || i == 16 || i == 17 ||
            i == 18 || i == 19 || i == 20 || i == 21 || i == 22 || i == 23 || i == 24 || i == 25 ||
            i == 26 || i == 27 || i == 28);
        assert(j == 0 || j == 1 || j == 2 || j == 3 || j == 4 || j == 5 || j == 6 || j == 7 || j == 8 ||
            j == 9 || j == 10 || j == 11 || j == 12 || j == 13 || j == 14 || j == 15 || j == 16 || j == 17 ||
            j == 18 || j == 19 || j == 20 || j == 21 || j == 22 || j == 23 || j == 24 || j == 25 ||
            j == 26 || j == 27 || j == 28);
        reveal_strlit("ACPI");
        reveal_strlit("APIC");
        reveal_strlit("CLFSH");
        reveal_strlit("CMOV");
        reveal_strlit("CX8");
        reveal_strlit("DE");
        reveal_strlit("DS");
        reveal_strlit("FPU");
        reveal_strlit("FXSR");
        reveal_strlit("HTT");
        reveal_strlit("MCA");
        reveal_strlit("MCE");
        reveal_strlit("MMX");
        reveal_strlit("MSR");
        reveal_strlit("MTRR");
        reveal_strlit("PAE");
        reveal_strlit("PAT");
        reveal_strlit("PBE");
        reveal_strlit("PGE");
        reveal_strlit("PSE");
        reveal_strlit("PSE36");
        reveal_strlit("PSN");
        reveal_strlit("SEP");
        reveal_strlit("SS");
        reveal_strlit("SSE");
        reveal_strlit("SSE2");
        reveal_strlit("TM");
        reveal_strlit("TSC");
        reveal_strlit("VME");
        lemma_single_bits_differ(bits[i], bits[j]);
        lemma_names_differ(t[i].1@, t[j].1@);
    }
}

/// The features listed for leaf 1 ECX are named after their bits as the
/// processor documents them: bit 0 SSE3, bit 1 PCLMULQDQ, bit 2 DTES64, bit 3
/// MONITOR, bit 4 DS_CPL, bit 5 VMX, bit 6 SMX, bit 7 EIST, bit 8 TM2, bit 9
/// SSSE3, bit 10 CNXT_ID, bit 12 FMA, bit 13 CMPXCHG16B, bit 14 xTPR, bit 15
/// PDCM, bit 17 PCID, bit 18 DCA, bit 19 SSE4_1, bit 20 SSE4_2, bit 21
/// x2APIC, bit 22 MOVBE, bit 23 POPCNT, bit 24 TSCD, bit 25 AESNI, bit 26
/// XSAVE, bit 27 OSXSAVE, bit 28 AVX, bit 29 F16C, bit 30 RDRAND. No two
/// entries share a bit or a name.
pub proof fn lemma_ecx_names()
    ensures
        leaf1_ecx_features_spec().len() == 29,
        leaf1_ecx_features_spec()[0] == (1u32 << 0u32, "SSE3"),
        leaf1_ecx_features_spec()[1] == (1u32 << 1u32, "PCLMULQDQ"),
        leaf1_ecx_features_spec()[2] == (1u32 << 2u32, "DTES64"),
        leaf1_ecx_features_spec()[3] == (1u32 << 3u32, "MONITOR"),
        leaf1_ecx_features_spec()[4] == (1u32 << 4u32, "DS_CPL"),
        leaf1_ecx_features_spec()[5] == (1u32 << 5u32, "VMX"),
        leaf1_ecx_features_spec()[6] == (1u32 << 6u32, "SMX"),
        leaf1_ecx_features_spec()[7] == (1u32 << 7u32, "EIST"),
        leaf1_ecx_features_spec()[8] == (1u32 << 8u32, "TM2"),
        leaf1_ecx_features_spec()[9] == (1u32 << 9u32, "SSSE3"),
        leaf1_ecx_features_spec()[10] == (1u32 << 10u32, "CNXT_ID"),
        leaf1_ecx_features_spec()[11] == (1u32 << 12u32, "FMA"),
        leaf1_ecx_features_spec()[12] == (1u32 << 13u32, "CMPXCHG16B"),
        leaf1_ecx_features_spec()[13] == (1u32 << 14u32, "xTPR"),
        leaf1_ecx_features_spec()[14] == (1u32 << 15u32, "PDCM"),
        leaf1_ecx_features_spec()[15] == (1u32 << 17u32, "PCID"),
        leaf1_ecx_features_spec()[16] == (1u32 << 18u32, "DCA"),
        leaf1_ecx_features_spec()[17] == (1u32 << 19u32, "SSE4_1"),
        leaf1_ecx_features_spec()[18] == (1u32 << 20u32, "SSE4_2"),
        leaf1_ecx_features_spec()[19] == (1u32 << 21u32, "x2APIC"),
        leaf1_ecx_features_spec()[20] == (1u32 << 22u32, "MOVBE"),
        leaf1_ecx_features_spec()[21] == (1u32 << 23u32, "POPCNT"),
        leaf1_ecx_features_spec()[22] == (1u32 << 24u32, "TSCD"),
        leaf1_ecx_features_spec()[23] == (1u32 << 25u32, "AESNI"),
        leaf1_ecx_features_spec()[24] == (1u32 << 26u32, "XSAVE"),
        leaf1_ecx_features_spec()[25] == (1u32 << 27u32, "OSXSAVE"),
        leaf1_ecx_features_spec()[26] == (1u32 << 28u32, "AVX"),
        leaf1_ecx_features_spec()[27] == (1u32 << 29u32, "F16C"),
        leaf1_ecx_features_spec()[28] == (1u32 << 30u32, "RDRAND"),
        ({
            let t = leaf1_ecx_features_spec();
            forall|i: int, j: int| 0 <= i < j < t.len() ==> t[i].0 != t[j].0 && t[i].1@ != t[j].1@
        }),
{
    let t = leaf1_ecx_features_spec();
    let bits: Seq<u32> = seq![
        0u32, 1u32, 2u32, 3u32, 4u32, 5u32, 6u32, 7u32, 8u32, 9u32, 10u32, 12u32, 13u32, 14u32,
        15u32, 17u32, 18u32, 19u32, 20u32, 21u32, 22u32, 23u32, 24u32, 25u32, 26u32, 27u32, 28u32,
        29u32, 30u32,
    ];
    assert forall|i: int| 0 <= i < t.len() implies t[i].0 == 1u32 << #[trigger] bits[i] && bits[i] < 32 by {
        assert(i == 0 || i == 1 || i == 2 || i == 3 || i == 4 || i == 5 || i == 6 || i == 7 || i == 8 ||
            i == 9 || i == 10 || i == 11 || i == 12 || i == 13 || i == 14 || i == 15 || i == 16 || i == 17 ||
            i == 18 || i == 19 || i == 20 || i == 21 || i == 22 || i == 23 || i == 24 || i == 25 ||
            i == 26 || i == 27 || i == 28);
    }
    assert forall|i: int, j: int| 0 <= i < j < t.len() implies t[i].0 != t[j].0 && t[i].1@ != t[j].1@ by {
        assert(i == 0 || i == 1 || i == 2 || i == 3 || i == 4 || i == 5 || i == 6 || i == 7 || i == 8 ||
            i == 9 || i == 10 || i == 11 || i == 12 || i == 13 || i == 14 || i == 15 || i == 16 || i == 17 ||
            i == 18 || i == 19 || i == 20 || i == 21 || i == 22 || i == 23 || i == 24 || i == 25 ||
            i == 26 || i == 27 || i == 28);
        assert(j == 0 || j == 1 || j == 2 || j == 3 || j == 4 || j == 5 || j == 6 || j == 7 || j == 8 ||
            j == 9 || j == 10 || j == 11 || j == 12 || j == 13 || j == 14 || j == 15 || j == 16 || j == 17 ||
            j == 18 || j == 19 || j == 20 || j == 21 || j == 22 || j == 23 || j == 24 || j == 25 ||
            j == 26 || j == 27 || j == 28);
        reveal_strlit("AESNI");
        reveal_strlit("AVX");
        reveal_strlit("CMPXCHG16B");
        reveal_strlit("CNXT_ID");
        reveal_strlit("DCA");
        reveal_strlit("DS_CPL");
        reveal_strlit("DTES64");
        reveal_strlit("EIST");
        reveal_strlit("F16C");
        reveal_strlit("FMA");
        reveal_strlit("MONITOR");
        reveal_strlit("MOVBE");
        reveal_strlit("OSXSAVE");
        reveal_strlit("PCID");
        reveal_strlit("PCLMULQDQ");
        reveal_strlit("PDCM");
        reveal_strlit("POPCNT");
        reveal_strlit("RDRAND");
        reveal_strlit("SMX");
        reveal_strlit("SSE3");
        reveal_strlit("SSE4_1");
        reveal_strlit("SSE4_2");
        reveal_strlit("SSSE3");
        reveal_strlit("TM2");
        reveal_strlit("TSCD");
        reveal_strlit("VMX");
        reveal_strlit("XSAVE");
        reveal_strlit("x2APIC");
        reveal_strlit("xTPR");
        lemma_single_bits_differ(bits[i], bits[j]);
        lemma_names_differ(t[i].1@, t[j].1@);
    }
}

/// The features listed for leaf 7 EBX are named after their bits as the
/// processor documents them: bit 0 FSGSBASE, bit 1 TAM, bit 7 SMEP, bit 9
/// EREP, bit 10 INVPCID, bit 12 QM, bit 13 FPUCS. No two entries share a bit
/// or a name.
pub proof fn lemma_leaf7_names()
    ensures
        leaf7_ebx_features_spec().len() == 7,
        leaf7_ebx_features_spec()[0] == (1u32 << 0u32, "FSGSBASE"),
        leaf7_ebx_features_spec()[1] == (1u32 << 1u32, "TAM"),
        leaf7_ebx_features_spec()[2] == (1u32 << 7u32, "SMEP"),
        leaf7_ebx_features_spec()[3] == (1u32 << 9u32, "EREP"),
        leaf7_ebx_features_spec()[4] == (1u32 << 10u32, "INVPCID"),
        leaf7_ebx_features_spec()[5] == (1u32 << 12u32, "QM"),
        leaf7_ebx_features_spec()[6] == (1u32 << 13u32, "FPUCS"),
        ({
            let t = leaf7_ebx_features_spec();
            forall|i: int, j: int| 0 <= i < j < t.len() ==> t[i].0 != t[j].0 && t[i].1@ != t[j].1@
        }),
{
    let t = leaf7_ebx_features_spec();
    let bits: Seq<u32> = seq![
        0u32, 1u32, 7u32, 9u32, 10u32, 12u32, 13u32,
    ];
    assert forall|i: int| 0 <= i < t.len() implies t[i].0 == 1u32 << #[trigger] bits[i] && bits[i] < 32 by {
        assert(i == 0 || i == 1 || i == 2 || i == 3 || i == 4 || i == 5 || i == 6);
    }
    assert forall|i: int, j: int| 0 <= i < j < t.len() implies t[i].0 != t[j].0 && t[i].1@ != t[j].1@ by {
        assert(i == 0 || i == 1 || i == 2 || i == 3 || i == 4 || i == 5 || i == 6);
        assert(j == 0 || j == 1 || j == 2 || j == 3 || j == 4 || j == 5 || j == 6);
        reveal_strlit("EREP");
        reveal_strlit("FPUCS");
        reveal_strlit("FSGSBASE");
        reveal_strlit("INVPCID");
        reveal_strlit("QM");
        reveal_strlit("SMEP");
        reveal_strlit("TAM");
        lemma_single_bits_differ(bits[i], bits[j]);
        lemma_names_differ(t[i].1@, t[j].1@);
    }
}

} // verus!
