//! Errors of the wire decoder.

use crate::names::NameParseError;
use crate::rr::Type;
use vstd::prelude::*;

verus! {

/// Errors that may occur while decoding bytes.
#[derive(Debug, PartialEq, Eq, Clone, Copy)]
pub enum ParseError {
    /// An insufficient number of bytes were provided.
    Incomplete,
    /// An error occured while parsing a name.
    NameError(NameParseError),
    /// A compression pointer names an offset at or behind the end of the
    /// message.
    PointerOutOfBounds(usize),
    /// A compression pointer names an offset inside the message that does not
    /// lie before the pointer itself.
    PointerNotBackward(usize),
    /// A resource record length field is invalid.
    InvalidRecordLength(Type),
    /// An OPT record has a name field other than the root name.
    OptNameNotRoot,
    /// A TXT record has an invalid character string.
    TxtInvalidUtf8,
    /// Bytes are left behind the last section of a message.
    TrailingBytes(usize),
}

/// Errors that may occur while encoding a message.
#[derive(Debug, PartialEq, Eq, Clone, Copy)]
pub enum WriteError {
    /// The data of a record is longer than its 16-bit length can say.
    DataTooLong,
    /// A character string of a TXT record is longer than 255 bytes.
    StringTooLong,
    /// A section holds more entries than its 16-bit count can say.
    TooManyEntries,
}

impl From<NameParseError> for ParseError {
    fn from(error: NameParseError) -> (r: ParseError) {
        ParseError::NameError(error)
    }
}

impl vstd::std_specs::convert::FromSpecImpl<NameParseError> for ParseError {
    open spec fn obeys_from_spec() -> bool {
        true
    }

    open spec fn from_spec(error: NameParseError) -> ParseError {
        ParseError::NameError(error)
    }
}

} // verus!
