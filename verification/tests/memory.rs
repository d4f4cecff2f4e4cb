use freax::kalloc::{kalloc, kfree, kinit1, kinit2, Kmem};
use freax::memlayout::{io2v, p2v, p2v_wo, v2p, v2p_wo, DEVBASE, DEVSPACE, KERNBASE, PHYSTOP};
use freax::mmu::{
    lgdt, lidt, pdx, pgaddr, pgrounddown, pgroundup, pte_addr, pte_flags, ptx, Gatedesc, Segdesc, STS_IG32,
    STS_TG32,
};

#[test]
fn v2p_undoes_p2v() {
    let pa: u64 = 0x12_3000;
    assert_eq!(p2v(pa), KERNBASE + pa);
    assert_eq!(v2p(p2v(pa)), pa);
    assert_eq!(p2v_wo(v2p_wo(KERNBASE + 0x5000)), KERNBASE + 0x5000);
    assert_eq!(v2p(KERNBASE), 0);
}

#[test]
fn io2v_maps_device_space_into_devbase() {
    assert_eq!(io2v(DEVSPACE), DEVBASE);
    assert_eq!(io2v(0xFEE0_0000), DEVBASE + 0xE0_0000);
    // addresses below the device space wrap below DEVBASE
    assert_eq!(io2v(0), DEVBASE.wrapping_sub(DEVSPACE));
}

#[test]
fn page_table_indices() {
    let va: u64 = 0x3FE0_1234;
    assert_eq!(pdx(va), 0x1FF);
    assert_eq!(ptx(va), 0x001);
    assert_eq!(pgaddr(pdx(va), ptx(va), va % 4096), va);
    assert_eq!(pgaddr(1, 2, 3), 0x20_0000 + 2 * 4096 + 3);
    assert_eq!(pte_addr(0x1234_5067), 0x1234_5000);
    assert_eq!(pte_flags(0x1234_5067), 0x067);
}

#[test]
fn page_rounding() {
    assert_eq!(pgroundup(0), 0);
    assert_eq!(pgroundup(1), 4096);
    assert_eq!(pgroundup(4096), 4096);
    assert_eq!(pgroundup(4097), 8192);
    assert_eq!(pgroundup(u64::MAX - 4095), u64::MAX - 4095);
    assert_eq!(pgroundup(u64::MAX - 8190), u64::MAX - 4095);
    assert_eq!(pgrounddown(4097), 4096);
    assert_eq!(pgrounddown(4095), 0);
    assert_eq!(pgrounddown(8192), 8192);
}

#[test]
fn segment_descriptors() {
    let d = Segdesc::new(0xA, 0x1234_5678, 0xFFFF_FFFF, 3);
    assert_eq!(d.lim_15_0, 0xFFFF);
    assert_eq!(d.base_15_0, 0x5678);
    assert_eq!(d.base_23_16, 0x34);
    assert_eq!(d.base_31_24, 0x12);
    assert_eq!(d.type_, 0xA);
    assert_eq!(d.s, 1);
    assert_eq!(d.dpl, 3);
    assert_eq!(d.p, 1);
    assert_eq!(d.lim_19_16, 0xF);
    assert_eq!(d.db, 1);
    assert_eq!(d.g, 1);
    let e = Segdesc::new16(0x2, 0x0001_0000, 0x0002_0067, 0);
    assert_eq!(e.lim_15_0, 0x0067);
    assert_eq!(e.lim_19_16, 0x2);
    assert_eq!(e.base_15_0, 0);
    assert_eq!(e.base_23_16, 1);
    assert_eq!(e.g, 0);
}

#[test]
fn gate_descriptors() {
    let mut g = Gatedesc { off_15_0: 9, cs: 9, args: 9, rsv1: 9, type_: 9, s: 9, dpl: 9, p: 9, off_31_16: 9 };
    g.set_gate(false, 8, 0xDEAD_BEEF, 0);
    assert_eq!(g.off_15_0, 0xBEEF);
    assert_eq!(g.off_31_16, 0xDEAD);
    assert_eq!(g.cs, 8);
    assert_eq!(g.type_ as u32, STS_IG32);
    assert_eq!(g.p, 1);
    assert_eq!(g.args, 0);
    g.set_gate(true, 8, 0x10, 3);
    assert_eq!(g.type_ as u32, STS_TG32);
    assert_eq!(g.dpl, 3);
}

#[test]
fn descriptor_table_pseudo_descriptors() {
    let p: u64 = 0x0123_4567_89AB_CDEF;
    assert_eq!(lgdt(p, 56), vec![55u16, 0xCDEF, 0x89AB, 0x4567, 0x0123]);
    assert_eq!(lidt(0x1000, 4096), vec![4095u16, 0x1000, 0, 0, 0]);
}

#[test]
fn kalloc_returns_last_freed_page() {
    let mut k = Kmem { use_lock: false, freelist: Vec::new() };
    let end = KERNBASE + 0x20_0000;
    assert_eq!(kalloc(&mut k), 0);
    kfree(&mut k, end + 0x1000, end);
    kfree(&mut k, end + 0x3000, end);
    assert_eq!(kalloc(&mut k), end + 0x3000);
    assert_eq!(kalloc(&mut k), end + 0x1000);
    assert_eq!(kalloc(&mut k), 0);
}

#[test]
fn kinit_frees_whole_pages_in_range() {
    let end = KERNBASE + 0x20_0010;
    let k = kinit1(end, end + 3 * 4096, end);
    // the start rounds up to 0x201000; only two whole pages fit before the end
    assert_eq!(k.freelist, vec![KERNBASE + 0x20_1000, KERNBASE + 0x20_2000]);
    assert!(!k.use_lock);
    let mut k2 = k;
    kinit2(&mut k2, KERNBASE + 0x40_0000, KERNBASE + 0x40_1000, end);
    assert_eq!(k2.freelist.len(), 3);
    assert_eq!(k2.freelist[2], KERNBASE + 0x40_0000);
    assert!(k2.use_lock);
    let top = KERNBASE + PHYSTOP;
    let k3 = kinit1(top - 4096, top, end);
    assert_eq!(k3.freelist, vec![top - 4096]);
}
