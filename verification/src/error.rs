//! The ways in which decoding a container can fail.

use vstd::prelude::*;

verus! {

/// Why a decode stopped. Every failure is final: the first one met is
/// returned to the caller and nothing decoded so far is handed out.
#[derive(Clone, Copy, Debug, PartialEq, Eq, Hash)]
pub enum DecodeError {
    /// Fewer than 24 bytes were supplied.
    TruncatedHeader,
    /// A read or skip would go past the end of the buffer.
    UnexpectedEndOfStream,
    /// A variable-width integer was asked for with a chunk width outside
    /// `2..=32`, or it went on past the 64th bit.
    VbrOverflow,
    /// A 6-bit character code above 63.
    InvalidChar6,
    /// An operand-kind selector that names none of the five kinds.
    UnknownOperandEncoding,
    /// A record refers to an abbreviation that the table does not hold.
    UnknownAbbreviation,
    /// An array or a blob was to be read as a scalar, or a record's
    /// abbreviation has no operand to read its identifier from.
    NotAScalarOperand,
    /// A record in unabbreviated form.
    UnsupportedRecordForm,
    /// A block type that this decoder does not model.
    UnknownBlockType,
    /// A fixed-width field or an abbreviation ID of more than 64 bits.
    InvalidBitWidth,
    /// Blocks nested deeper than `MAX_NESTING_DEPTH`.
    NestingTooDeep,
}

} // verus!
