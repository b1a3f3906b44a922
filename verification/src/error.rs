//! The ways in which recording and decoding fail.

use vstd::prelude::*;

verus! {

/// Why a value was not recorded. The histogram is then as it was.
#[derive(Clone, Copy, Debug, PartialEq, Eq, Structural)]
pub enum RecordError {
    /// The value is negative.
    InvalidValue,
    /// The value's slot lies beyond the counts array.
    ValueOutOfRange,
    /// The slot, or the total, already holds the largest count of its type.
    CountOverflow,
}

/// Why a byte string was not decoded.
#[derive(Clone, Copy, Debug, PartialEq, Eq, Structural)]
pub enum DecodeError {
    /// The bytes end before the header, or before the payload that the
    /// header announces.
    TruncatedInput,
    /// A number of the payload has not ended where the payload ends.
    MalformedVarint,
    /// The first four bytes are not the tag of this format for this count
    /// type.
    InvalidCookie,
    /// The header holds parameters that no histogram can be made with.
    InvalidParameters,
    /// The payload holds more counts than the array has slots, or a count
    /// that the count type or the total cannot hold.
    CountOutOfRange,
}

} // verus!
