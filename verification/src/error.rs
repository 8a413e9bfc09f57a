//! What can go wrong while a save file is read or written.

use vstd::prelude::*;

verus! {

/// Why the bytes at hand could not be taken in.
#[derive(Debug, Clone, Copy, PartialEq, Eq, Hash, Structural)]
pub enum IoError {
    /// The input ended before the value that was being read.
    UnexpectedEof,
    /// A deflated section did not inflate to what its header announces, or
    /// a payload could not be deflated.
    InvalidData,
}

/// An error met while reading or writing a save file. Each one ends the
/// operation that met it.
#[derive(Debug, Clone, Copy, PartialEq, Eq, Hash, Structural)]
pub enum Error {
    /// The file does not start with `BRS`.
    InvalidMagic,
    /// The version word is below the oldest version that can be read.
    VersionTooOld(u16),
    /// The version word is above the newest version that can be read.
    VersionTooNew(u16),
    /// The version word names no known version.
    VersionUnknown(u16),
    /// The two lengths of a compressed section contradict each other.
    InvalidCompressedSection,
    /// The screenshot marker names no known image format.
    UnknownScreenshotFormat(u8),
    /// A string is not what its length prefix announces, or cannot be
    /// written in either of the two encodings.
    InvalidString,
    /// A value handed to the encoder is out of the range the format can hold.
    InvalidInput,
    /// The input itself failed.
    Io(IoError),
}

impl Error {
    /// A short description of the error.
    pub fn message(&self) -> (text: &'static str)
        ensures
            text@ == (match *self {
                Error::InvalidMagic => "invalid magic (may not be a brs file)"@,
                Error::VersionTooOld(_) => "version too old (unsupported)"@,
                Error::VersionTooNew(_) => "version too new (unsupported)"@,
                Error::VersionUnknown(_) => "unknown version (unsupported)"@,
                Error::InvalidCompressedSection => "invalid compressed section"@,
                Error::UnknownScreenshotFormat(_) => "unknown screenshot format"@,
                Error::InvalidString => "invalid string"@,
                Error::InvalidInput => "invalid input"@,
                Error::Io(_) => "i/o error"@,
            }),
    {
        match self {
            Error::InvalidMagic => "invalid magic (may not be a brs file)",
            Error::VersionTooOld(_) => "version too old (unsupported)",
            Error::VersionTooNew(_) => "version too new (unsupported)",
            Error::VersionUnknown(_) => "unknown version (unsupported)",
            Error::InvalidCompressedSection => "invalid compressed section",
            Error::UnknownScreenshotFormat(_) => "unknown screenshot format",
            Error::InvalidString => "invalid string",
            Error::InvalidInput => "invalid input",
            Error::Io(_) => "i/o error",
        }
    }
}

} // verus!
