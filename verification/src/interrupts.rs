use vstd::prelude::*;

use crate::mm::Freelist;

verus! {

/// One 16-byte entry of the interrupt descriptor table: the handler's address
/// cut in three parts, the code segment selector, the interrupt-stack index
/// and the type-and-attributes byte.
#[derive(Clone, Copy, Debug, PartialEq, Eq, Structural)]
pub struct InterruptGate {
    pub offset_1: u16,
    pub selector: u16,
    pub ist: u8,
    pub attrs: u8,
    pub offset_2: u16,
    pub offset_3: u32,
    pub zero: u32,
}

/// The operand of `lidt`: the table's size in bytes minus one, and its address.
#[derive(Clone, Copy, Debug, PartialEq, Eq, Structural)]
pub struct InterruptTablePtr {
    pub size: u16,
    pub offset: usize,
}

/// The entry made by `InterruptGate::new`.
pub open spec fn gate_spec(offset: usize, selector: u16, ist: u8, attrs: u8) -> InterruptGate {
    InterruptGate {
        offset_1: (offset & 0xFFFF) as u16,
        selector,
        ist,
        attrs,
        offset_2: ((offset >> 16) & 0xFFFF) as u16,
        offset_3: ((offset as u64) >> 32) as u32,
        zero: 0,
    }
}

/// The handler address that a gate holds, put back together from its parts.
pub open spec fn gate_offset(g: InterruptGate) -> u64 {
    (g.offset_1 as u64) | ((g.offset_2 as u64) << 16u64) | ((g.offset_3 as u64) << 32u64)
}

impl InterruptGate {
    /// A gate for the handler at `offset`.
    pub fn new(offset: usize, selector: u16, ist: u8, attrs: u8) -> (g: InterruptGate)
        ensures
            g == gate_spec(offset, selector, ist, attrs),
    {
        let low: usize = offset & 0xFFFF;
        let mid: usize = (offset >> 16) & 0xFFFF;
        assert(low <= 0xFFFF) by (bit_vector)
            requires
                low == offset & 0xFFFF;
        assert(mid <= 0xFFFF) by (bit_vector)
            requires
                mid == (offset >> 16) & 0xFFFF;
        let high: u64 = (offset as u64) >> 32;
        assert(high <= 0xFFFF_FFFF) by (bit_vector)
            requires
                high == (offset as u64) >> 32;
        InterruptGate {
            offset_1: low as u16,
            selector: selector,
            ist,
            attrs,
            offset_2: mid as u16,
            offset_3: high as u32,
            zero: 0,
        }
    }
}

/// Cutting a handler address into a gate loses nothing: its three parts put
/// back together give the address.
pub proof fn lemma_gate_keeps_offset(offset: usize, selector: u16, ist: u8, attrs: u8)
    ensures
        gate_offset(gate_spec(offset, selector, ist, attrs)) == offset as u64,
{
    let x = offset as u64;
    assert((offset & 0xFFFF) as u64 == x & 0xFFFF) by (bit_vector)
        requires
            x == offset as u64;
    assert(((offset >> 16) & 0xFFFF) as u64 == (x >> 16) & 0xFFFF) by (bit_vector)
        requires
            x == offset as u64;
    assert(((x & 0xFFFF) as u16) as u64 == x & 0xFFFF) by (bit_vector);
    assert((((x >> 16) & 0xFFFF) as u16) as u64 == (x >> 16) & 0xFFFF) by (bit_vector);
    assert(((x >> 32) as u32) as u64 == x >> 32) by (bit_vector);
    assert((x & 0xFFFF) | (((x >> 16) & 0xFFFF) << 16u64) | ((x >> 32) << 32u64) == x) by (bit_vector);
}

/// An entry keeps its selector, stack index and attributes as given, and its
/// reserved word is 0; and every entry of the exception table is a present,
/// ring-0, 64-bit interrupt gate (attributes 0x8E) for selector 0x28 with
/// stack index 0, holding the error-code stub exactly for vectors 8, 10 to
/// 14, 17, 21, 29 and 30.
pub proof fn lemma_gate_fields(offset: usize, selector: u16, ist: u8, attrs: u8, no_err_stub: usize, err_stub: usize)
    ensures
        gate_spec(offset, selector, ist, attrs).selector == selector,
        gate_spec(offset, selector, ist, attrs).ist == ist,
        gate_spec(offset, selector, ist, attrs).attrs == attrs,
        gate_spec(offset, selector, ist, attrs).zero == 0,
        forall|v: int| 0 <= v < 32 ==> {
            &&& (#[trigger] exception_gate(v, no_err_stub, err_stub)).attrs == 0x8Eu8
            &&& exception_gate(v, no_err_stub, err_stub).selector == 0x28u16
            &&& exception_gate(v, no_err_stub, err_stub).ist == 0u8
            &&& exception_gate(v, no_err_stub, err_stub).zero == 0u32
            &&& gate_offset(exception_gate(v, no_err_stub, err_stub)) == (if v == 8 || (10 <= v <= 14) || v == 17
                || v == 21 || v == 29 || v == 30 { err_stub } else { no_err_stub }) as u64
        },
{
    lemma_gate_keeps_offset(no_err_stub, 0x28, 0, 0x8E);
    lemma_gate_keeps_offset(err_stub, 0x28, 0, 0x8E);
}

impl InterruptTablePtr {
    /// The `lidt` operand for a table of `entries` gates at `offset`.
    pub fn new(entries: u16, offset: usize) -> (p: InterruptTablePtr)
        requires
            1 <= entries <= 4095,
        ensures
            p.size == entries * 16 - 1,
            p.offset == offset,
    {
        InterruptTablePtr { size: entries * 16 - 1, offset }
    }
}

/// The CPU exceptions that push an error code, whose gates take the
/// error-code stub: 8, 10 to 14, 17, 21, 29 and 30.
pub open spec fn has_error_code(vector: int) -> bool {
    vector == 8 || (10 <= vector <= 14) || vector == 17 || vector == 21 || vector == 29 || vector == 30
}

/// The segment selector of the kernel's 64-bit code segment.
pub const KERNEL_CODE_SELECTOR: u16 = 0x28;

/// Present, ring 0, 64-bit interrupt gate.
pub const INTERRUPT_GATE_ATTRS: u8 = 0x8E;

/// The entry for exception `vector` in the table of `setup_interrupts`.
pub open spec fn exception_gate(vector: int, no_err_stub: usize, err_stub: usize) -> InterruptGate {
    gate_spec(
        if has_error_code(vector) { err_stub } else { no_err_stub },
        KERNEL_CODE_SELECTOR,
        0,
        INTERRUPT_GATE_ATTRS,
    )
}

/// What the interrupt table is built from: the page it lives in, its first 32
/// gates (one per CPU exception) and the `lidt` operand.
pub struct InterruptSetup {
    pub table: usize,
    pub gates: Vec<InterruptGate>,
    pub idtr: InterruptTablePtr,
}

/// Takes a page for the interrupt table from the free list and fills the 32
/// exception vectors: the error-code stub where the CPU pushes an error code,
/// the other stub elsewhere.
pub fn setup_interrupts(freelist: &mut Freelist, no_err_stub: usize, err_stub: usize) -> (s: InterruptSetup)
    requires
        old(freelist)@.len() > 0,
    ensures
        s.table == old(freelist)@.last(),
        final(freelist)@ == old(freelist)@.drop_last(),
        s.gates@.len() == 32,
        forall|v: int| 0 <= v < 32 ==> #[trigger] s.gates@[v] == exception_gate(v, no_err_stub, err_stub),
        s.idtr == (InterruptTablePtr { size: 511, offset: s.table }),
{
    let table = match freelist.alloc_page() {
        Ok(p) => p,
        Err(_) => {
            assert(false);
            0
        },
    };
    let mut gates: Vec<InterruptGate> = Vec::new();
    let mut v: usize = 0;
    while v < 32
        invariant
            v <= 32,
            gates@.len() == v,
            forall|j: int| 0 <= j < v ==> #[trigger] gates@[j] == exception_gate(j, no_err_stub, err_stub),
        decreases 32 - v,
    {
        let stub = if v == 8 || (10 <= v && v <= 14) || v == 17 || v == 21 || v == 29 || v == 30 {
            err_stub
        } else {
            no_err_stub
        };
        gates.push(InterruptGate::new(stub, KERNEL_CODE_SELECTOR, 0, INTERRUPT_GATE_ATTRS));
        v = v + 1;
    }
    let idtr = InterruptTablePtr::new(32, table);
    InterruptSetup { table, gates, idtr }
}

} // verus!
