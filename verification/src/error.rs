use vstd::prelude::*;

verus! {

/// Why a compaction run stopped.
#[derive(Clone, Copy, Debug, PartialEq, Eq, Structural)]
pub enum CompactError {
    /// The input holds a number whose text is not a number, so it has no
    /// serialized form.
    Serialization,
    /// A new text was to be interned, and the dictionary already holds as
    /// many texts as its code width has codes.
    DictionaryExhausted,
}

/// Why an artifact could not be decoded.
#[derive(Clone, Copy, Debug, PartialEq, Eq, Structural)]
pub enum DecodeError {
    /// A cell holds a code that its dictionary does not have.
    UnknownCode,
    /// A column has more or fewer cells than its group has rows.
    ColumnLength,
    /// A cell does not fit the type of its column.
    CellType,
}

} // verus!
