use kernel_core::gdt::populate_gdt;
use kernel_core::interrupts::{setup_interrupts, InterruptGate, InterruptTablePtr};
use kernel_core::keyb::scandecode;
use kernel_core::mm::{Freelist, PhysMem};

#[test]
fn scandecode_digits_and_letters() {
    assert_eq!(scandecode(0), 0);
    assert_eq!(scandecode(1), 0x1F);
    assert_eq!(scandecode(2), b'1');
    assert_eq!(scandecode(11), b'0');
    assert_eq!(scandecode(14), 0x08);
    assert_eq!(scandecode(15), b'\t');
    assert_eq!(scandecode(16), b'q');
    assert_eq!(scandecode(28), b'\n');
    assert_eq!(scandecode(30), b'a');
    assert_eq!(scandecode(43), b'\\');
    assert_eq!(scandecode(44), b'z');
    assert_eq!(scandecode(57), b' ');
    assert_eq!(scandecode(71), b'7');
    assert_eq!(scandecode(81), b'.');
    assert_eq!(scandecode(89), 0);
}

#[test]
fn scandecode_out_of_table() {
    assert_eq!(scandecode(90), 0);
    assert_eq!(scandecode(200), 0);
    assert_eq!(scandecode(255), 0);
    for c in 0..=255u8 {
        assert!(scandecode(c) < 128);
    }
}

#[test]
fn interrupt_gate_splits_offset() {
    let g = InterruptGate::new(0x1234_5678_9ABC_DEF0, 0x28, 1, 0x8E);
    assert_eq!(g.offset_1, 0xDEF0);
    assert_eq!(g.offset_2, 0x9ABC);
    assert_eq!(g.offset_3, 0x1234_5678);
    assert_eq!(g.selector, 0x28);
    assert_eq!(g.ist, 1);
    assert_eq!(g.attrs, 0x8E);
    assert_eq!(g.zero, 0);
    let back = g.offset_1 as u64 | (g.offset_2 as u64) << 16 | (g.offset_3 as u64) << 32;
    assert_eq!(back, 0x1234_5678_9ABC_DEF0);
}

#[test]
fn interrupt_table_pointer_size() {
    let p = InterruptTablePtr::new(32, 0x5000);
    assert_eq!(p.size, 511);
    assert_eq!(p.offset, 0x5000);
    assert_eq!(InterruptTablePtr::new(1, 0).size, 15);
    assert_eq!(InterruptTablePtr::new(4095, 0).size, 65519);
}

#[test]
fn exception_table() {
    let mut m = PhysMem::new();
    let mut f = Freelist::new();
    f.insert(&mut m, 0x7000);
    f.insert(&mut m, 0x8000);
    let s = setup_interrupts(&mut f, 0x1111, 0x2222);
    assert_eq!(s.table, 0x8000);
    assert_eq!(f.len(), 1);
    assert_eq!(s.gates.len(), 32);
    let with_code = [8usize, 10, 11, 12, 13, 14, 17, 21, 29, 30];
    for (v, g) in s.gates.iter().enumerate() {
        let expected = if with_code.contains(&v) { 0x2222 } else { 0x1111 };
        assert_eq!(*g, InterruptGate::new(expected, 0x28, 0, 0x8E));
    }
    assert_eq!(s.idtr, InterruptTablePtr::new(32, 0x8000));
}

#[test]
fn gdt_words() {
    let mut gdt = [0xFFFF_FFFF_FFFF_FFFFu64; 9];
    populate_gdt(&mut gdt);
    assert_eq!(
        gdt,
        [
            0,
            0x000F_9A00_0000_FFFF,
            0x000F_9200_0000_FFFF,
            0x00CF_9A00_0000_FFFF,
            0x00CF_9200_0000_FFFF,
            0x0020_9A00_0000_0000,
            0x0000_9200_0000_0000,
            0x0020_FA00_0000_0000,
            0x0000_F200_0000_0000,
        ]
    );
}
