use kernel_core::mm::{
    init, Freelist, MemoryKind, MemoryRegion, PageError, PageFrame, PageMap, PageMapEntry, PageTable, PhysMem,
};

fn entry_of(r: Result<PageMapEntry, PageError>) -> u64 {
    match r {
        Ok(e) => e.raw(),
        Err(e) => panic!("unexpected error: {}", e.message()),
    }
}

fn page_of(r: Result<usize, PageError>) -> usize {
    match r {
        Ok(p) => p,
        Err(e) => panic!("unexpected error: {}", e.message()),
    }
}

#[test]
fn error_messages() {
    assert_eq!(PageError::OutOfMemory.message(), "out of memory");
    assert_eq!(PageError::AllocationFailed.message(), "allocation failed");
    assert_eq!(PageError::InvalidFrame.message(), "invalid frame");
    assert_eq!(PageError::NotPresent.message(), "address not mapped");
}

#[test]
fn entry_present_roundtrip() {
    let mut e = PageMapEntry::from_raw(0x1234_5000);
    assert!(!e.present());
    e.set_present(true);
    assert!(e.present());
    assert_eq!(e.raw(), 0x1234_5001);
    assert_eq!(e.addr(), 0x1234_5000);
    e.set_present(false);
    assert!(!e.present());
    assert_eq!(e.raw(), 0x1234_5000);
}

#[test]
fn entry_addr_keeps_flags() {
    let mut e = PageMapEntry::from_raw(0x1FF);
    e.set_addr(0xABCD_E123);
    assert_eq!(e.raw(), 0xABCD_E1FF);
    assert_eq!(e.addr(), 0xABCD_E000);
    assert_eq!(PageMapEntry::from_raw(0xFFFF_FFFF_FFFF_FFFF).addr() as u64, 0xFFFF_FFFF_FFFF_FE00);
}

#[test]
fn entry_writable_and_user_bits() {
    let mut e = PageMapEntry::empty();
    e.set_writable(true);
    assert_eq!(e.raw(), 2);
    assert!(!e.writable());
    e.set_user_mode(true);
    assert_eq!(e.raw(), 6);
    assert!(!e.user_mode());
    e.set_writable(false);
    assert_eq!(e.raw(), 4);
    e.set_user_mode(false);
    assert_eq!(e.raw(), 0);
}

#[test]
fn entry_executable_bits() {
    let mut e = PageMapEntry::from_raw(0x8000_0000_0000_0000);
    assert!(!e.executable());
    e.set_executable(true);
    assert!(e.executable());
    assert_eq!(e.raw(), 0);
    let mut f = PageMapEntry::from_raw(0x8000_0000_0000_0000);
    f.set_executable(false);
    assert!(f.executable());
    assert_eq!(f.raw(), 4);
}

#[test]
fn freelist_is_last_in_first_out() {
    let mut m = PhysMem::new();
    let mut f = Freelist::new();
    assert!(matches!(f.alloc_page(), Err(PageError::OutOfMemory)));
    f.insert(&mut m, 0x1000);
    f.insert(&mut m, 0);
    f.insert(&mut m, 0x2000);
    assert_eq!(f.len(), 2);
    assert_eq!(f.newest(), Some(0x2000));
    assert_eq!(m.read_entry(0x1000, 0), Some(0));
    assert_eq!(m.read_entry(0x2000, 0), Some(0x1000));
    assert_eq!(m.read_entry(0, 0), None);
    assert_eq!(page_of(f.alloc_page()), 0x2000);
    assert_eq!(page_of(f.alloc_page()), 0x1000);
    assert!(matches!(f.alloc_page(), Err(PageError::OutOfMemory)));
    assert_eq!(f.len(), 0);
}

#[test]
fn physmem_frames() {
    let mut m = PhysMem::new();
    assert_eq!(m.read_entry(0x1000, 0), None);
    assert!(m.add_frame(0x1000));
    assert!(!m.add_frame(0x1000));
    assert_eq!(m.read_entry(0x1000, 511), Some(0));
    assert!(m.write_entry(0x1000, 511, 77));
    assert_eq!(m.read_entry(0x1000, 511), Some(77));
    assert!(!m.write_entry(0x2000, 0, 1));
}

/// Builds a four-level walk for `addr` through tables at 0x1000, 0x2000, 0x3000, 0x4000.
fn mapped_memory(addr: usize) -> PhysMem {
    let mut m = PhysMem::new();
    for base in [0x1000u64, 0x2000, 0x3000, 0x4000] {
        assert!(m.add_frame(base));
    }
    let a = addr as u64;
    assert!(m.write_entry(0x1000, ((a >> 39) & 0x1FF) as usize, 0x2000 | 1));
    assert!(m.write_entry(0x2000, ((a >> 30) & 0x1FF) as usize, 0x3000 | 3));
    assert!(m.write_entry(0x3000, ((a >> 21) & 0x1FF) as usize, 0x4FFF));
    m
}

#[test]
fn get_page_walks_four_levels() {
    let addr: usize = 0x0000_7F12_3456_7000;
    let mut m = mapped_memory(addr);
    let idx = ((addr as u64 >> 12) & 0x1FF) as usize;
    assert!(m.write_entry(0x4000, idx, 0xDEAD_B003));
    let root = PageTable::at(0x1000);
    assert_eq!(entry_of(root.get_page(&m, addr)), 0xDEAD_B003);
    assert_eq!(entry_of(root.get_page(&m, addr + 0x1000)), 0);
}

#[test]
fn get_page_errors() {
    let addr: usize = 0x0000_7F12_3456_7000;
    let m = mapped_memory(addr);
    assert!(matches!(PageTable::at(0x9000).get_page(&m, addr), Err(PageError::InvalidFrame)));
    assert!(matches!(PageTable::at(0).get_page(&m, addr), Err(PageError::InvalidFrame)));
    assert!(matches!(PageTable::at(0x1000).get_page(&m, 0), Err(PageError::NotPresent)));
    let mut m2 = PhysMem::new();
    assert!(m2.add_frame(0x1000));
    assert!(m2.write_entry(0x1000, 0, 0x8001));
    assert!(matches!(PageTable::at(0x1000).get_page(&m2, 0), Err(PageError::InvalidFrame)));
}

#[test]
fn set_then_get() {
    let addr: usize = 0x0000_7F12_3456_7000;
    let mut m = mapped_memory(addr);
    let mut f = Freelist::new();
    f.insert(&mut m, 0x8000);
    let root = PageTable::at(0x1000);
    let r = root.set_page(&mut m, &mut f, addr, Some(PageMapEntry::from_raw(0x5555_5003)), true);
    assert!(r.is_ok());
    assert_eq!(f.len(), 1);
    assert_eq!(entry_of(root.get_page(&m, addr)), 0x5555_5003);
    assert!(root.set_page(&mut m, &mut f, addr, None, false).is_ok());
    assert_eq!(entry_of(root.get_page(&m, addr)), 0);
}

#[test]
fn set_page_without_allocation_fails() {
    let mut m = PhysMem::new();
    assert!(m.add_frame(0x1000));
    let mut f = Freelist::new();
    f.insert(&mut m, 0x2000);
    let root = PageTable::at(0x1000);
    let r = root.set_page(&mut m, &mut f, 0, Some(PageMapEntry::from_raw(7)), false);
    assert!(matches!(r, Err(PageError::NotPresent)));
    assert_eq!(f.len(), 1);
    assert_eq!(m.read_entry(0x1000, 0), Some(0));
}

#[test]
fn set_page_allocates_tables() {
    let mut m = PhysMem::new();
    for base in [0x1000u64, 0x2000, 0x3000, 0x4000] {
        assert!(m.add_frame(base));
    }
    let mut f = Freelist::new();
    f.insert(&mut m, 0x2000);
    f.insert(&mut m, 0x3000);
    f.insert(&mut m, 0x4000);
    let root = PageTable::at(0x1000);
    let r = root.set_page(&mut m, &mut f, 0, Some(PageMapEntry::from_raw(0x9003)), true);
    assert!(r.is_ok());
    assert_eq!(f.len(), 0);
    assert_eq!(m.read_entry(0x1000, 0), Some(0x4000));
    assert_eq!(m.read_entry(0x4000, 0), Some(0x3000));
    assert_eq!(m.read_entry(0x3000, 0), Some(0x2000));
    assert_eq!(m.read_entry(0x2000, 0), Some(0x9003));
    // The new entries hold bare addresses without the present bit, so a read walk stops at once.
    assert!(matches!(root.get_page(&m, 0), Err(PageError::NotPresent)));
}

#[test]
fn set_page_out_of_memory() {
    let mut m = PhysMem::new();
    assert!(m.add_frame(0x1000));
    assert!(m.add_frame(0x2000));
    let mut f = Freelist::new();
    f.insert(&mut m, 0x2000);
    let root = PageTable::at(0x1000);
    let r = root.set_page(&mut m, &mut f, 0, None, true);
    assert!(matches!(r, Err(PageError::OutOfMemory)));
    assert_eq!(m.read_entry(0x1000, 0), Some(0x2000));
    assert_eq!(f.len(), 0);
}

#[test]
fn init_cuts_usable_regions() {
    let regions = [
        MemoryRegion { base: 0, len: 0x3000, kind: MemoryKind::Usable },
        MemoryRegion { base: 0x10000, len: 0x1000, kind: MemoryKind::Reserved },
        MemoryRegion { base: 0x20000, len: 0x1800, kind: MemoryKind::Usable },
        MemoryRegion { base: 0x30000, len: 0, kind: MemoryKind::Usable },
    ];
    let mut f = Freelist::new();
    let mut m = PhysMem::new();
    init(&mut f, &mut m, &regions);
    assert_eq!(f.len(), 4);
    assert_eq!(m.read_entry(0x1000, 0), Some(0));
    assert_eq!(m.read_entry(0x2000, 0), Some(0x1000));
    assert_eq!(m.read_entry(0x20000, 0), Some(0x2000));
    assert_eq!(m.read_entry(0x21000, 0), Some(0x20000));
    assert_eq!(m.read_entry(0x10000, 0), None);
    assert_eq!(m.read_entry(0, 0), None);
    assert_eq!(page_of(f.alloc_page()), 0x21000);
    assert_eq!(page_of(f.alloc_page()), 0x20000);
    assert_eq!(page_of(f.alloc_page()), 0x2000);
    assert_eq!(page_of(f.alloc_page()), 0x1000);
    assert!(f.alloc_page().is_err());
}

#[test]
fn init_keeps_existing_pages() {
    let mut f = Freelist::new();
    let mut m = PhysMem::new();
    f.insert(&mut m, 0x7000);
    let regions = [MemoryRegion { base: 0x9000, len: 0x1000, kind: MemoryKind::BootloaderReclaimable },
        MemoryRegion { base: 0xA000, len: 0x1000, kind: MemoryKind::Usable }];
    init(&mut f, &mut m, &regions);
    assert_eq!(f.len(), 2);
    assert_eq!(m.read_entry(0xA000, 0), Some(0x7000));
    assert_eq!(page_of(f.alloc_page()), 0xA000);
    assert_eq!(page_of(f.alloc_page()), 0x7000);
}

#[test]
fn get_after_set_other_slot_unchanged() {
    let addr: usize = 0x0000_0000_4020_3000;
    let mut m = mapped_memory(addr);
    let mut f = Freelist::new();
    let root = PageTable::at(0x1000);
    assert!(root.set_page(&mut m, &mut f, addr, Some(PageMapEntry::from_raw(0x1_2345_6001)), false).is_ok());
    assert_eq!(entry_of(root.get_page(&m, addr)), 0x1_2345_6001);
    assert_eq!(entry_of(root.get_page(&m, addr + 0x1000)), 0);
    assert_eq!(f.len(), 0);
}

#[test]
fn null_table_is_never_a_frame() {
    let mut m = PhysMem::new();
    assert!(!m.add_frame(0));
    assert_eq!(m.read_entry(0, 0), None);
    let mut f = Freelist::new();
    f.insert(&mut m, 0x2000);
    let null = PageTable::at(0);
    assert!(matches!(null.get_page(&m, 0), Err(PageError::InvalidFrame)));
    assert!(matches!(null.set_page(&mut m, &mut f, 0x1000, None, true), Err(PageError::InvalidFrame)));
    assert_eq!(f.len(), 1);
}

#[test]
fn freed_pages_hold_links_and_become_tables() {
    let mut m = PhysMem::new();
    assert!(m.add_frame(0x1000));
    let mut f = Freelist::new();
    f.insert(&mut m, 0x2000);
    f.insert(&mut m, 0x3000);
    let root = PageTable::at(0x1000);
    assert_eq!(m.read_entry(0x2000, 0), Some(0));
    assert_eq!(m.read_entry(0x3000, 0), Some(0x2000));
    let r = root.set_page(&mut m, &mut f, 0, Some(PageMapEntry::from_raw(1)), true);
    assert!(matches!(r, Err(PageError::OutOfMemory)));
    assert_eq!(f.len(), 0);
    assert_eq!(m.read_entry(0x1000, 0), Some(0x3000));
    assert_eq!(m.read_entry(0x3000, 0), Some(0x2000));
    assert_eq!(m.read_entry(0x2000, 0), Some(0));
}

#[test]
fn set_page_leaves_other_pages() {
    let addr: usize = 0x0000_7F12_3456_7000;
    let mut m = mapped_memory(addr);
    let idx = ((addr as u64 >> 12) & 0x1FF) as usize;
    assert!(m.write_entry(0x4000, (idx + 1) % 512, 0xAAAA_A001));
    let root = PageTable::at(0x1000);
    let other = addr + 0x1000;
    let before = entry_of(root.get_page(&m, other));
    let mut f = Freelist::new();
    assert!(root.set_page(&mut m, &mut f, addr, Some(PageMapEntry::from_raw(0xBBBB_B001)), false).is_ok());
    assert_eq!(entry_of(root.get_page(&m, other)), before);
    assert_eq!(before, 0xAAAA_A001);
}

#[test]
fn page_unknown_to_memory_joins_it_as_a_free_page() {
    let mut scratch = PhysMem::new();
    let mut f = Freelist::new();
    f.insert(&mut scratch, 0x2000);
    f.insert(&mut scratch, 0x3000);
    let mut m = PhysMem::new();
    assert!(m.add_frame(0x1000));
    let root = PageTable::at(0x1000);
    let r = root.set_page(&mut m, &mut f, 0, None, true);
    assert!(matches!(r, Err(PageError::OutOfMemory)));
    assert_eq!(m.read_entry(0x1000, 0), Some(0x3000));
    assert_eq!(m.read_entry(0x3000, 0), Some(0x2000));
    assert_eq!(m.read_entry(0x3000, 1), Some(0));
    assert_eq!(m.read_entry(0x2000, 0), Some(0));
}
