//! How a generation record crosses between processes.
//!
//! The three numbers of a record travel as one block of fixed layout, which
//! is described here field by field, so that a transport can rebuild the
//! record on the other side from the description alone. The serialized
//! individual has no fixed length; it travels apart, as a counted buffer of
//! raw bytes.
use vstd::prelude::*;
use vstd::string::StringSliceAdditionalSpecFns;

verus! {

/// The elementary datatypes of the transport.
#[derive(Clone, Copy, Debug, PartialEq, Eq, Structural)]
pub enum ElementType {
    /// A 32-bit unsigned integer.
    Unsigned32,
    /// A 32-bit signed integer.
    Signed32,
    /// A 32-bit binary floating-point number.
    Float32,
    /// One raw byte.
    Byte,
}

impl ElementType {
    /// The number of bytes that one element takes.
    pub open spec fn spec_size(self) -> int {
        match self {
            ElementType::Unsigned32 => 4,
            ElementType::Signed32 => 4,
            ElementType::Float32 => 4,
            ElementType::Byte => 1,
        }
    }

    /// The number of bytes that one element takes.
    pub fn size(&self) -> (bytes: usize)
        ensures
            bytes == self.spec_size(),
    {
        match self {
            ElementType::Unsigned32 => 4,
            ElementType::Signed32 => 4,
            ElementType::Float32 => 4,
            ElementType::Byte => 1,
        }
    }
}

/// The fields of a generation record that travel in the fixed block.
#[derive(Clone, Copy, Debug, PartialEq, Eq, Structural)]
pub enum RecordField {
    Generation,
    Index,
    Fitness,
}

/// Where one field lies in the block, and what it is made of.
#[derive(Clone, Copy, Debug, PartialEq, Eq, Structural)]
pub struct FieldLayout {
    pub field: RecordField,
    /// The number of bytes between the start of the block and the field.
    pub offset: usize,
    /// The number of elements that the field holds.
    pub count: usize,
    /// The datatype of each element.
    pub datatype: ElementType,
}

impl FieldLayout {
    /// The place after the last byte of the field.
    pub open spec fn end(self) -> int {
        self.offset + self.count * self.datatype.spec_size()
    }
}

/// The number of bytes of the fixed block.
pub const RECORD_BYTES: usize = 12;

/// The layout of the fixed block: the generation, the index and the fitness,
/// four bytes each, one after the other.
pub open spec fn record_layout_of() -> Seq<FieldLayout> {
    seq![
        FieldLayout {
            field: RecordField::Generation,
            offset: 0,
            count: 1,
            datatype: ElementType::Unsigned32,
        },
        FieldLayout { field: RecordField::Index, offset: 4, count: 1, datatype: ElementType::Signed32 },
        FieldLayout {
            field: RecordField::Fitness,
            offset: 8,
            count: 1,
            datatype: ElementType::Float32,
        },
    ]
}

/// Whether the fields of a layout fill a block of `bytes` bytes exactly: the
/// first starts at 0, each starts where the one before it ends, and the
/// last ends with the block.
pub open spec fn is_packed(layout: Seq<FieldLayout>, bytes: int) -> bool {
    &&& layout.len() > 0
    &&& layout[0].offset == 0
    &&& forall|i: int| 0 < i < layout.len() ==> (#[trigger] layout[i]).offset == layout[i - 1].end()
    &&& layout[layout.len() - 1].end() == bytes
}

/// The fixed block has no gap and no overlap, and each field of a record
/// has its place in it.
pub proof fn lemma_record_layout_is_packed()
    ensures
        is_packed(record_layout_of(), RECORD_BYTES as int),
        record_layout_of().len() == 3,
        record_layout_of()[0].field == RecordField::Generation,
        record_layout_of()[1].field == RecordField::Index,
        record_layout_of()[2].field == RecordField::Fitness,
{
    let layout = record_layout_of();
    assert(layout[0].end() == 4);
    assert(layout[1].end() == 8);
    assert(layout[2].end() == 12);
}

/// Describes the fixed block of a generation record.
pub fn record_layout() -> (layout: Vec<FieldLayout>)
    ensures
        layout@ == record_layout_of(),
{
    let mut layout: Vec<FieldLayout> = Vec::with_capacity(3);
    layout.push(
        FieldLayout {
            field: RecordField::Generation,
            offset: 0,
            count: 1,
            datatype: ElementType::Unsigned32,
        },
    );
    layout.push(
        FieldLayout { field: RecordField::Index, offset: 4, count: 1, datatype: ElementType::Signed32 },
    );
    layout.push(
        FieldLayout {
            field: RecordField::Fitness,
            offset: 8,
            count: 1,
            datatype: ElementType::Float32,
        },
    );
    assert(layout@ =~= record_layout_of());
    layout
}

/// The serialized individual as it travels: its bytes and their number. The
/// transport counts with 32-bit signed numbers; an individual too long for
/// that cannot be sent.
pub fn payload(individual: &str) -> (buffer: Option<(&[u8], i32)>)
    ensures
        buffer.is_some() == (individual.spec_bytes().len() <= i32::MAX),
        buffer.is_some() ==> buffer.unwrap().0@ == individual.spec_bytes(),
        buffer.is_some() ==> buffer.unwrap().1 == individual.spec_bytes().len(),
{
    let bytes = individual.as_bytes();
    if bytes.len() > i32::MAX as usize {
        None
    } else {
        Some((bytes, bytes.len() as i32))
    }
}

} // verus!
