use vstd::prelude::*;

use x86::segmentation::{BuildDescriptor, Descriptor, DescriptorBuilder, SegmentDescriptorBuilder};
use x86::segmentation::CodeSegmentType as X86Code;
use x86::segmentation::DataSegmentType as X86Data;
use x86::Ring as X86Ring;

verus! {

#[verifier::external_type_specification]
#[verifier::external_body]
pub struct ExDescriptorBuilder(x86::segmentation::DescriptorBuilder);

/// The number of entries of the global descriptor table.
pub const GDT_ENTRIES: usize = 9;

/// Code segment types (Intel SDM 3a, table 3-1).
#[derive(Clone, Copy, Debug, PartialEq, Eq, Structural)]
pub enum CodeSegmentType {
    Execute,
    ExecuteAccessed,
    ExecuteRead,
    ExecuteReadAccessed,
    ExecuteConforming,
    ExecuteConformingAccessed,
    ExecuteReadConforming,
    ExecuteReadConformingAccessed,
}

/// Data segment types (Intel SDM 3a, table 3-1).
#[derive(Clone, Copy, Debug, PartialEq, Eq, Structural)]
pub enum DataSegmentType {
    ReadOnly,
    ReadOnlyAccessed,
    ReadWrite,
    ReadWriteAccessed,
    ReadExpand,
    ReadExpandAccessed,
    ReadWriteExpand,
    ReadWriteExpandAccessed,
}

/// Privilege levels.
#[derive(Clone, Copy, Debug, PartialEq, Eq, Structural)]
pub enum Ring {
    Ring0,
    Ring1,
    Ring2,
    Ring3,
}

/// The kind of a code or data segment.
#[derive(Clone, Copy, Debug, PartialEq, Eq, Structural)]
pub enum SegmentKind {
    Code(CodeSegmentType),
    Data(DataSegmentType),
}

/// The four-bit type field of a code segment type.
pub open spec fn code_type_bits(t: CodeSegmentType) -> u64 {
    match t {
        CodeSegmentType::Execute => 0b1000,
        CodeSegmentType::ExecuteAccessed => 0b1001,
        CodeSegmentType::ExecuteRead => 0b1010,
        CodeSegmentType::ExecuteReadAccessed => 0b1011,
        CodeSegmentType::ExecuteConforming => 0b1100,
        CodeSegmentType::ExecuteConformingAccessed => 0b1101,
        CodeSegmentType::ExecuteReadConforming => 0b1110,
        CodeSegmentType::ExecuteReadConformingAccessed => 0b1111,
    }
}

/// The four-bit type field of a data segment type.
pub open spec fn data_type_bits(t: DataSegmentType) -> u64 {
    match t {
        DataSegmentType::ReadOnly => 0b0000,
        DataSegmentType::ReadOnlyAccessed => 0b0001,
        DataSegmentType::ReadWrite => 0b0010,
        DataSegmentType::ReadWriteAccessed => 0b0011,
        DataSegmentType::ReadExpand => 0b0100,
        DataSegmentType::ReadExpandAccessed => 0b0101,
        DataSegmentType::ReadWriteExpand => 0b0110,
        DataSegmentType::ReadWriteExpandAccessed => 0b0111,
    }
}

/// The type field of a segment kind.
pub open spec fn kind_bits(k: SegmentKind) -> u64 {
    match k {
        SegmentKind::Code(t) => code_type_bits(t),
        SegmentKind::Data(t) => data_type_bits(t),
    }
}

/// The two-bit value of a privilege level.
pub open spec fn ring_bits(r: Ring) -> u64 {
    match r {
        Ring::Ring0 => 0,
        Ring::Ring1 => 1,
        Ring::Ring2 => 2,
        Ring::Ring3 => 3,
    }
}

/// What a descriptor builder has been told so far.
#[derive(Clone, Copy, Debug, PartialEq, Eq, Structural)]
pub struct SegmentSettings {
    pub base: u32,
    pub limit: u32,
    pub kind: SegmentKind,
    pub dpl: Option<Ring>,
    pub present: bool,
    pub db: bool,
    pub granularity_4k: bool,
    pub long_mode: bool,
}

/// 1 for a set flag, 0 for a clear one.
pub open spec fn flag(b: bool) -> u64 {
    if b { 1 } else { 0 }
}

/// The low 32 bits of a code or data segment descriptor: base bits 0-15 over
/// limit bits 0-15 (Intel SDM 3a, section 3.4.5).
pub open spec fn descriptor_lower(s: SegmentSettings) -> u64 {
    (((s.base as u64) & 0xFFFF) << 16u64) | ((s.limit as u64) & 0xFFFF)
}

/// The privilege field of a descriptor, 0 when no level was given.
pub open spec fn dpl_bits(dpl: Option<Ring>) -> u64 {
    match dpl {
        Some(r) => ring_bits(r),
        None => 0,
    }
}

/// The high 32 bits of a code or data segment descriptor from its fields:
/// base bits 16-23 and 24-31, limit bits 16-19, the type in bits 8-11, the S
/// flag (bit 12, set for code and data), the DPL in bits 13-14, P (15), L (21),
/// D/B (22) and G (23).
pub open spec fn upper_bits(base: u64, limit: u64, typ: u64, dpl: u64, p: u64, l: u64, db: u64, g: u64) -> u64 {
    ((base >> 16u64) & 0xFF)
        | (base & 0xFF00_0000)
        | (((limit >> 16u64) & 0xF) << 16u64)
        | (typ << 8u64)
        | 0x1000
        | (dpl << 13u64)
        | (p << 15u64)
        | (l << 21u64)
        | (db << 22u64)
        | (g << 23u64)
}

/// The high 32 bits of a code or data segment descriptor.
pub open spec fn descriptor_upper(s: SegmentSettings) -> u64 {
    upper_bits(
        s.base as u64,
        s.limit as u64,
        kind_bits(s.kind),
        dpl_bits(s.dpl),
        flag(s.present),
        flag(s.long_mode),
        flag(s.db),
        flag(s.granularity_4k),
    )
}

/// A descriptor as one 64-bit word: the high half over the low half.
pub open spec fn descriptor_word(s: SegmentSettings) -> u64 {
    (descriptor_upper(s) << 32u64) | descriptor_lower(s)
}

/// A descriptor builder of the `x86` crate together with the settings it holds.
pub struct SegmentBuilder {
    raw: DescriptorBuilder,
    settings: Ghost<SegmentSettings>,
}

impl View for SegmentBuilder {
    type V = SegmentSettings;

    closed spec fn view(&self) -> SegmentSettings {
        self.settings@
    }
}

/// Starts a code segment descriptor with `base` and `limit`, not yet present
/// and with no privilege level: `SegmentDescriptorBuilder::<u32>::code_descriptor`
/// of `x86`, which records exactly these.
#[verifier::external_body]
fn code_descriptor(base: u32, limit: u32, cst: CodeSegmentType) -> (b: SegmentBuilder)
    ensures
        b@ == (SegmentSettings { base, limit, kind: SegmentKind::Code(cst), dpl: None, present: false, db: false, granularity_4k: false, long_mode: false }),
{
    let t = match cst {
        CodeSegmentType::Execute => X86Code::Execute,
        CodeSegmentType::ExecuteAccessed => X86Code::ExecuteAccessed,
        CodeSegmentType::ExecuteRead => X86Code::ExecuteRead,
        CodeSegmentType::ExecuteReadAccessed => X86Code::ExecuteReadAccessed,
        CodeSegmentType::ExecuteConforming => X86Code::ExecuteConforming,
        CodeSegmentType::ExecuteConformingAccessed => X86Code::ExecuteConformingAccessed,
        CodeSegmentType::ExecuteReadConforming => X86Code::ExecuteReadConforming,
        CodeSegmentType::ExecuteReadConformingAccessed => X86Code::ExecuteReadConformingAccessed,
    };
    let raw = <DescriptorBuilder as SegmentDescriptorBuilder<u32>>::code_descriptor(base, limit, t);
    SegmentBuilder { raw, settings: Ghost(arbitrary()) }
}

/// Starts a data segment descriptor with `base` and `limit`, not yet present
/// and with no privilege level: `SegmentDescriptorBuilder::<u32>::data_descriptor`
/// of `x86`, which records exactly these.
#[verifier::external_body]
fn data_descriptor(base: u32, limit: u32, dst: DataSegmentType) -> (b: SegmentBuilder)
    ensures
        b@ == (SegmentSettings { base, limit, kind: SegmentKind::Data(dst), dpl: None, present: false, db: false, granularity_4k: false, long_mode: false }),
{
    let t = match dst {
        DataSegmentType::ReadOnly => X86Data::ReadOnly,
        DataSegmentType::ReadOnlyAccessed => X86Data::ReadOnlyAccessed,
        DataSegmentType::ReadWrite => X86Data::ReadWrite,
        DataSegmentType::ReadWriteAccessed => X86Data::ReadWriteAccessed,
        DataSegmentType::ReadExpand => X86Data::ReadExpand,
        DataSegmentType::ReadExpandAccessed => X86Data::ReadExpandAccessed,
        DataSegmentType::ReadWriteExpand => X86Data::ReadWriteExpand,
        DataSegmentType::ReadWriteExpandAccessed => X86Data::ReadWriteExpandAccessed,
    };
    let raw = <DescriptorBuilder as SegmentDescriptorBuilder<u32>>::data_descriptor(base, limit, t);
    SegmentBuilder { raw, settings: Ghost(arbitrary()) }
}

/// `DescriptorBuilder::present` of `x86`: marks the segment present, nothing else.
#[verifier::external_body]
fn present(b: SegmentBuilder) -> (r: SegmentBuilder)
    ensures
        r@ == (SegmentSettings { present: true, ..b@ }),
{
    SegmentBuilder { raw: b.raw.present(), settings: Ghost(arbitrary()) }
}

/// `DescriptorBuilder::dpl` of `x86`: sets the privilege level, nothing else.
#[verifier::external_body]
fn dpl(b: SegmentBuilder, ring: Ring) -> (r: SegmentBuilder)
    ensures
        r@ == (SegmentSettings { dpl: Some(ring), ..b@ }),
{
    let level = match ring {
        Ring::Ring0 => X86Ring::Ring0,
        Ring::Ring1 => X86Ring::Ring1,
        Ring::Ring2 => X86Ring::Ring2,
        Ring::Ring3 => X86Ring::Ring3,
    };
    SegmentBuilder { raw: b.raw.dpl(level), settings: Ghost(arbitrary()) }
}

/// `DescriptorBuilder::db` of `x86`: sets the D/B (32-bit default size) flag, nothing else.
#[verifier::external_body]
fn db(b: SegmentBuilder) -> (r: SegmentBuilder)
    ensures
        r@ == (SegmentSettings { db: true, ..b@ }),
{
    SegmentBuilder { raw: b.raw.db(), settings: Ghost(arbitrary()) }
}

/// `DescriptorBuilder::l` of `x86`: sets the L (64-bit code) flag, nothing else.
#[verifier::external_body]
fn long_mode(b: SegmentBuilder) -> (r: SegmentBuilder)
    ensures
        r@ == (SegmentSettings { long_mode: true, ..b@ }),
{
    SegmentBuilder { raw: b.raw.l(), settings: Ghost(arbitrary()) }
}

/// `DescriptorBuilder::limit_granularity_4kb` of `x86`: sets the G (limit in
/// 4 KiB units) flag, nothing else.
#[verifier::external_body]
fn limit_granularity_4kb(b: SegmentBuilder) -> (r: SegmentBuilder)
    ensures
        r@ == (SegmentSettings { granularity_4k: true, ..b@ }),
{
    SegmentBuilder { raw: b.raw.limit_granularity_4kb(), settings: Ghost(arbitrary()) }
}

/// `BuildDescriptor::<Descriptor>::finish` of `x86`, read out as one word with
/// `Descriptor::as_u64`: the code or data descriptor laid out as the Intel SDM
/// (3a, section 3.4.5) and the setters of `x86::segmentation::Descriptor` place
/// the builder's settings.
#[verifier::external_body]
fn finish(b: &SegmentBuilder) -> (word: u64)
    ensures
        word == descriptor_word(b@),
{
    let d: Descriptor = b.raw.finish();
    d.as_u64()
}

/// `Descriptor::NULL` of `x86` as one word: all bits clear.
#[verifier::external_body]
fn null_descriptor() -> (word: u64)
    ensures
        word == 0,
{
    Descriptor::NULL.as_u64()
}

/// The settings of the nine entries that `populate_gdt` fills (entry 0 is the
/// null descriptor): 16-bit code and data, 32-bit code and data, 64-bit
/// kernel code and data, 64-bit user code and data.
pub open spec fn gdt_layout(i: int) -> SegmentSettings {
    let code = SegmentKind::Code(CodeSegmentType::ExecuteRead);
    let data = SegmentKind::Data(DataSegmentType::ReadWrite);
    let base = SegmentSettings { base: 0, limit: 0, kind: code, dpl: Some(Ring::Ring0), present: true, db: false, granularity_4k: false, long_mode: false };
    if i == 1 {
        SegmentSettings { limit: 0x000fffff, ..base }
    } else if i == 2 {
        SegmentSettings { limit: 0x000fffff, kind: data, ..base }
    } else if i == 3 {
        SegmentSettings { limit: 0x000fffff, db: true, granularity_4k: true, ..base }
    } else if i == 4 {
        SegmentSettings { limit: 0x000fffff, kind: data, db: true, granularity_4k: true, ..base }
    } else if i == 5 {
        SegmentSettings { long_mode: true, ..base }
    } else if i == 6 {
        SegmentSettings { kind: data, ..base }
    } else if i == 7 {
        SegmentSettings { dpl: Some(Ring::Ring3), long_mode: true, ..base }
    } else {
        SegmentSettings { kind: data, dpl: Some(Ring::Ring3), ..base }
    }
}

/// Fills the global descriptor table: the null descriptor, then the entries of
/// `gdt_layout`.
pub fn populate_gdt(gdt: &mut [u64; 9])
    ensures
        final(gdt)@[0] == 0,
        forall|i: int| 1 <= i < 9 ==> #[trigger] final(gdt)@[i] == descriptor_word(gdt_layout(i)),
        final(gdt)@ == seq![
            0u64,
            0x000F_9A00_0000_FFFFu64,
            0x000F_9200_0000_FFFFu64,
            0x00CF_9A00_0000_FFFFu64,
            0x00CF_9200_0000_FFFFu64,
            0x0020_9A00_0000_0000u64,
            0x0000_9200_0000_0000u64,
            0x0020_FA00_0000_0000u64,
            0x0000_F200_0000_0000u64,
        ],
{
    gdt[0] = null_descriptor();
    gdt[1] = finish(&dpl(present(code_descriptor(0, 0x000fffff, CodeSegmentType::ExecuteRead)), Ring::Ring0));
    gdt[2] = finish(&dpl(present(data_descriptor(0, 0x000fffff, DataSegmentType::ReadWrite)), Ring::Ring0));
    gdt[3] = finish(
        &limit_granularity_4kb(db(dpl(present(code_descriptor(0, 0x000fffff, CodeSegmentType::ExecuteRead)), Ring::Ring0))),
    );
    gdt[4] = finish(
        &limit_granularity_4kb(db(dpl(present(data_descriptor(0, 0x000fffff, DataSegmentType::ReadWrite)), Ring::Ring0))),
    );
    gdt[5] = finish(&long_mode(dpl(present(code_descriptor(0, 0, CodeSegmentType::ExecuteRead)), Ring::Ring0)));
    gdt[6] = finish(&dpl(present(data_descriptor(0, 0, DataSegmentType::ReadWrite)), Ring::Ring0));
    gdt[7] = finish(&long_mode(dpl(present(code_descriptor(0, 0, CodeSegmentType::ExecuteRead)), Ring::Ring3)));
    gdt[8] = finish(&dpl(present(data_descriptor(0, 0, DataSegmentType::ReadWrite)), Ring::Ring3));
    proof { lemma_gdt_words(); }
}

/// The words of the table's entries.
proof fn lemma_gdt_words()
    ensures
        descriptor_word(gdt_layout(1)) == 0x000F_9A00_0000_FFFFu64,
        descriptor_word(gdt_layout(2)) == 0x000F_9200_0000_FFFFu64,
        descriptor_word(gdt_layout(3)) == 0x00CF_9A00_0000_FFFFu64,
        descriptor_word(gdt_layout(4)) == 0x00CF_9200_0000_FFFFu64,
        descriptor_word(gdt_layout(5)) == 0x0020_9A00_0000_0000u64,
        descriptor_word(gdt_layout(6)) == 0x0000_9200_0000_0000u64,
        descriptor_word(gdt_layout(7)) == 0x0020_FA00_0000_0000u64,
        descriptor_word(gdt_layout(8)) == 0x0000_F200_0000_0000u64,
{
    assert(((upper_bits(0, 0x000fffff, 0b1010, 0, 1, 0, 0, 0) << 32u64) | (((0u64 & 0xFFFF) << 16u64) | (0x000fffffu64 & 0xFFFF))) == 0x000F_9A00_0000_FFFFu64) by (bit_vector);
    assert(((upper_bits(0, 0x000fffff, 0b0010, 0, 1, 0, 0, 0) << 32u64) | (((0u64 & 0xFFFF) << 16u64) | (0x000fffffu64 & 0xFFFF))) == 0x000F_9200_0000_FFFFu64) by (bit_vector);
    assert(((upper_bits(0, 0x000fffff, 0b1010, 0, 1, 0, 1, 1) << 32u64) | (((0u64 & 0xFFFF) << 16u64) | (0x000fffffu64 & 0xFFFF))) == 0x00CF_9A00_0000_FFFFu64) by (bit_vector);
    assert(((upper_bits(0, 0x000fffff, 0b0010, 0, 1, 0, 1, 1) << 32u64) | (((0u64 & 0xFFFF) << 16u64) | (0x000fffffu64 & 0xFFFF))) == 0x00CF_9200_0000_FFFFu64) by (bit_vector);
    assert(((upper_bits(0, 0, 0b1010, 0, 1, 1, 0, 0) << 32u64) | (((0u64 & 0xFFFF) << 16u64) | (0u64 & 0xFFFF))) == 0x0020_9A00_0000_0000u64) by (bit_vector);
    assert(((upper_bits(0, 0, 0b0010, 0, 1, 0, 0, 0) << 32u64) | (((0u64 & 0xFFFF) << 16u64) | (0u64 & 0xFFFF))) == 0x0000_9200_0000_0000u64) by (bit_vector);
    assert(((upper_bits(0, 0, 0b1010, 3, 1, 1, 0, 0) << 32u64) | (((0u64 & 0xFFFF) << 16u64) | (0u64 & 0xFFFF))) == 0x0020_FA00_0000_0000u64) by (bit_vector);
    assert(((upper_bits(0, 0, 0b0010, 3, 1, 0, 0, 0) << 32u64) | (((0u64 & 0xFFFF) << 16u64) | (0u64 & 0xFFFF))) == 0x0000_F200_0000_0000u64) by (bit_vector);
}

} // verus!
