//! Error types shared by the decoder and the encoder.

use vstd::prelude::*;

verus! {

/// What went wrong, by kind.
#[derive(Clone, Copy, Debug, PartialEq, Eq, Structural)]
pub enum ErrorKind {
    /// The Zstd codec context could not be created.
    ZstdInit,
    /// The Zstd codec rejected an operation.
    ZstdCodec,
    /// A skippable frame carried the wrong magic nibble for its role.
    InvalidNibble {
        /// The nibble the role demands.
        expected: u8,
        /// The nibble found in the frame magic.
        actual: u8,
    },
    /// The file magic names a format version this library does not read.
    UnsupportedVersion(u8),
    /// An internal step ran before its prerequisite state existed.
    ReadOrderViolation,
    /// A legacy embedded-magic block did not match.
    InvalidUnintendedMagic,
    /// The header and the trailer name different format versions.
    MismatchedVersion,
    /// The directory digest does not match the trailer, or a structural
    /// integrity check failed.
    DirectoryIntegrity,
    /// Framing or record structure is malformed.
    Parse,
}

/// The standing message of each kind of error.
pub open spec fn spec_default_message(kind: ErrorKind) -> Seq<char> {
    match kind {
        ErrorKind::ZstdInit => "zstd initialization error"@,
        ErrorKind::ZstdCodec => "zstd codec error"@,
        ErrorKind::InvalidNibble { .. } => "invalid skippable frame magic nibble"@,
        ErrorKind::UnsupportedVersion(_) => "unsupported zarc file version"@,
        ErrorKind::ReadOrderViolation => "read order violation"@,
        ErrorKind::InvalidUnintendedMagic => "malformed unintended magic header"@,
        ErrorKind::MismatchedVersion => "mismatched file version"@,
        ErrorKind::DirectoryIntegrity => "directory integrity check failed"@,
        ErrorKind::Parse => "parse error"@,
    }
}

impl ErrorKind {
    /// The standing message for this kind of error.
    pub fn default_message(self) -> (r: &'static str)
        ensures
            r@ == spec_default_message(self),
            r@.len() > 0,
    {
        let r: &'static str = match self {
            ErrorKind::ZstdInit => "zstd initialization error",
            ErrorKind::ZstdCodec => "zstd codec error",
            ErrorKind::InvalidNibble { .. } => "invalid skippable frame magic nibble",
            ErrorKind::UnsupportedVersion(_) => "unsupported zarc file version",
            ErrorKind::ReadOrderViolation => "read order violation",
            ErrorKind::InvalidUnintendedMagic => "malformed unintended magic header",
            ErrorKind::MismatchedVersion => "mismatched file version",
            ErrorKind::DirectoryIntegrity => "directory integrity check failed",
            ErrorKind::Parse => "parse error",
        };
        proof {
            reveal_strlit("zstd initialization error");
            reveal_strlit("zstd codec error");
            reveal_strlit("invalid skippable frame magic nibble");
            reveal_strlit("unsupported zarc file version");
            reveal_strlit("read order violation");
            reveal_strlit("malformed unintended magic header");
            reveal_strlit("mismatched file version");
            reveal_strlit("directory integrity check failed");
            reveal_strlit("parse error");
        }
        r
    }
}

/// An error with its kind and a message.
#[derive(Clone, Debug)]
pub struct SimpleError {
    /// Error kind.
    pub kind: ErrorKind,
    /// Error message.
    pub message: String,
}

impl SimpleError {
    /// A fresh error of the given kind, with its standing message.
    pub fn new(kind: ErrorKind) -> (r: Self)
        ensures
            r.kind == kind,
            r.message@ == spec_default_message(kind),
    {
        let message = kind.default_message();
        SimpleError { kind, message: message.to_owned() }
    }

    /// The same error with another message.
    pub fn with_message(self, message: String) -> (r: Self)
        ensures
            r.kind == self.kind,
            r.message@ == message@,
    {
        SimpleError { kind: self.kind, message }
    }
}

} // verus!
