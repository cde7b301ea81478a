//! The error taxonomy shared by the decoder and the encoder.

use vstd::prelude::*;

verus! {

/// Everything that can go wrong while decoding or encoding.
///
/// Offsets are byte positions from the start of the original input, so a
/// caller can point at the exact malformed byte.
#[derive(Debug)]
pub enum Error {
    /// A caller-supplied message from the generic mapping path.
    Message(String),
    /// The input ended in the middle of a frame.
    Eof,
    /// A malformed frame at the given offset.
    Syntax(usize),
    /// Bytes remained after a complete top-level value.
    TrailingCharacters,
    /// No legal frame tag at the given offset.
    ExpectedSign(usize),
    /// A bare CR, not followed by LF, at the given offset.
    UnexpectedCR(usize),
    /// A frame tag other than the one the calling context asked for.
    UnexpectedSign { expected: char, found: char, pos: usize },
    /// A declared bulk-string length above the fixed maximum.
    BulkStringOverflow,
    /// A declared bulk-string length that does not match the payload found.
    WrongSizeOfBulkString { expected: usize, found: usize },
    /// A value that none of the five frame types can carry.
    UnexpectedType,
    /// An unsigned integer too large for the signed 64-bit integer frame.
    IntegerOverflow,
    /// Text was required but the bytes were not valid UTF-8.
    FromUtf8Error,
    /// The underlying source could not be read.
    IoError,
    /// A `:` payload or a declared length that is not a 64-bit integer.
    ParseIntError,
}

/// The kind of an [`Error`], with any payload stripped.
#[derive(Debug, PartialEq, Eq, Structural, Clone, Copy)]
pub enum ErrorKind {
    Message,
    Eof,
    Syntax,
    TrailingCharacters,
    ExpectedSign,
    UnexpectedCR,
    UnexpectedSign,
    BulkStringOverflow,
    WrongSizeOfBulkString,
    UnexpectedType,
    IntegerOverflow,
    FromUtf8Error,
    IoError,
    ParseIntError,
}

impl Error {
    /// The kind of this error.
    pub open spec fn kind_spec(&self) -> ErrorKind {
        match *self {
            Error::Message(_) => ErrorKind::Message,
            Error::Eof => ErrorKind::Eof,
            Error::Syntax(_) => ErrorKind::Syntax,
            Error::TrailingCharacters => ErrorKind::TrailingCharacters,
            Error::ExpectedSign(_) => ErrorKind::ExpectedSign,
            Error::UnexpectedCR(_) => ErrorKind::UnexpectedCR,
            Error::UnexpectedSign { .. } => ErrorKind::UnexpectedSign,
            Error::BulkStringOverflow => ErrorKind::BulkStringOverflow,
            Error::WrongSizeOfBulkString { .. } => ErrorKind::WrongSizeOfBulkString,
            Error::UnexpectedType => ErrorKind::UnexpectedType,
            Error::IntegerOverflow => ErrorKind::IntegerOverflow,
            Error::FromUtf8Error => ErrorKind::FromUtf8Error,
            Error::IoError => ErrorKind::IoError,
            Error::ParseIntError => ErrorKind::ParseIntError,
        }
    }

    /// Strip the payload and return which kind of error this is.
    pub fn kind(&self) -> (k: ErrorKind)
        ensures
            k == self.kind_spec(),
    {
        match *self {
            Error::Message(_) => ErrorKind::Message,
            Error::Eof => ErrorKind::Eof,
            Error::Syntax(_) => ErrorKind::Syntax,
            Error::TrailingCharacters => ErrorKind::TrailingCharacters,
            Error::ExpectedSign(_) => ErrorKind::ExpectedSign,
            Error::UnexpectedCR(_) => ErrorKind::UnexpectedCR,
            Error::UnexpectedSign { .. } => ErrorKind::UnexpectedSign,
            Error::BulkStringOverflow => ErrorKind::BulkStringOverflow,
            Error::WrongSizeOfBulkString { .. } => ErrorKind::WrongSizeOfBulkString,
            Error::UnexpectedType => ErrorKind::UnexpectedType,
            Error::IntegerOverflow => ErrorKind::IntegerOverflow,
            Error::FromUtf8Error => ErrorKind::FromUtf8Error,
            Error::IoError => ErrorKind::IoError,
            Error::ParseIntError => ErrorKind::ParseIntError,
        }
    }
}

} // verus!
