//! The ways in which reading or editing a PNG file can fail.

use vstd::prelude::*;

verus! {

/// Why an operation on chunk types, chunks or whole files was refused.
#[derive(Debug, Clone, Copy, PartialEq, Eq, Structural)]
pub enum Error {
    /// A chunk type holds a byte that is not an ASCII letter.
    InvalidByte,
    /// The text given for a chunk type is not four bytes long.
    InvalidLength,
    /// The bytes ended before a chunk's length, type, data or checksum was
    /// complete.
    Truncated,
    /// The four type bytes of a chunk in a byte stream are not all letters.
    InvalidChunkType,
    /// The checksum stored with a chunk is not the checksum of its type and
    /// data.
    CrcMismatch,
    /// The bytes do not start with the PNG signature.
    BadSignature,
    /// No chunk of the requested type is in the file.
    NotFound,
}

impl Error {
    /// The message of each kind of error, as a sequence of characters.
    pub open spec fn message_spec(self) -> Seq<char> {
        match self {
            Error::InvalidByte => "invalid chunk type byte"@,
            Error::InvalidLength => "invalid chunk type length"@,
            Error::Truncated => "ran out of bytes reading a chunk"@,
            Error::InvalidChunkType => "invalid chunk type"@,
            Error::CrcMismatch => "invalid crc"@,
            Error::BadSignature => "invalid PNG signature"@,
            Error::NotFound => "chunk type not found"@,
        }
    }

    /// A short description for the user.
    pub fn message(&self) -> (text: &'static str)
        ensures
            text@ == self.message_spec(),
    {
        match self {
            Error::InvalidByte => "invalid chunk type byte",
            Error::InvalidLength => "invalid chunk type length",
            Error::Truncated => "ran out of bytes reading a chunk",
            Error::InvalidChunkType => "invalid chunk type",
            Error::CrcMismatch => "invalid crc",
            Error::BadSignature => "invalid PNG signature",
            Error::NotFound => "chunk type not found",
        }
    }
}

} // verus!
