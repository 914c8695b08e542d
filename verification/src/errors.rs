//! Error values returned by the codec. Every fallible operation names the
//! exact kind of malformation, with the field number where one is involved.

use vstd::prelude::*;
use crate::model::SpecErr;

verus! {

/// One error kind per way an encode or decode can fail; no operation
/// panics on malformed input.
#[derive(Debug)]
pub enum IsoError {
    /// The bit vector's length is not a whole, even number of nibbles.
    InvalidBitmapLength,
    /// A bitmap hex string holds a non-hex character or has odd length.
    InvalidHex,
    /// The first two characters after the indicator are not a hex byte.
    InvalidBitmapHeader,
    /// The wire ends before the bitmap (or its header) is complete.
    TruncatedBitmap,
    /// A message type indicator is not exactly four characters.
    InvalidMtiLength,
    /// A message type indicator holds a non-digit character.
    InvalidMtiContent,
    /// The cursor ends before this field's value (or length prefix).
    TruncatedField(u64),
    /// This field's length prefix holds a non-digit character.
    InvalidLengthPrefix(u64),
    /// This field's value is too long for its length prefix width.
    LengthOverflow(u64),
    /// A field number outside `2 ..= bitmap length`.
    FieldOutOfRange(u64),
    /// A length-type tag that is neither fixed nor a known variable kind.
    UnknownLenType(String),
    /// The field specification has no entry for this present field.
    MissingFieldSpec(u64),
    /// A fixed field's value does not have the expected length.
    LengthMismatch(u64),
    /// A variable field's value is outside its declared length bounds.
    LengthOutOfRange(u64),
}

impl View for IsoError {
    type V = SpecErr;

    open spec fn view(&self) -> SpecErr {
        match self {
            IsoError::InvalidBitmapLength => SpecErr::InvalidBitmapLength,
            IsoError::InvalidHex => SpecErr::InvalidHex,
            IsoError::InvalidBitmapHeader => SpecErr::InvalidBitmapHeader,
            IsoError::TruncatedBitmap => SpecErr::TruncatedBitmap,
            IsoError::InvalidMtiLength => SpecErr::InvalidMtiLength,
            IsoError::InvalidMtiContent => SpecErr::InvalidMtiContent,
            IsoError::TruncatedField(k) => SpecErr::TruncatedField(*k),
            IsoError::InvalidLengthPrefix(k) => SpecErr::InvalidLengthPrefix(*k),
            IsoError::LengthOverflow(k) => SpecErr::LengthOverflow(*k),
            IsoError::FieldOutOfRange(k) => SpecErr::FieldOutOfRange(*k),
            IsoError::UnknownLenType(s) => SpecErr::UnknownLenType(s@),
            IsoError::MissingFieldSpec(k) => SpecErr::MissingFieldSpec(*k),
            IsoError::LengthMismatch(k) => SpecErr::LengthMismatch(*k),
            IsoError::LengthOutOfRange(k) => SpecErr::LengthOutOfRange(*k),
        }
    }
}

} // verus!
