//! What can stop the decoder.

use vstd::prelude::*;
use crate::key_value_datatype::KeyValueDataType;

verus! {

/// The reason decoding stopped.
#[derive(Clone, Copy, Debug, PartialEq, Eq, Structural)]
pub enum DecodeError {
    /// The input ends inside the eight bytes of the header.
    TruncatedHeader,
    /// The first four bytes are not `PReg`.
    InvalidMagic,
    /// The version field is not 1.
    InvalidVersion,
    /// The input ends inside an entry.
    UnexpectedEnd,
    /// A structural character of an entry is not the one the grammar asks for.
    WrongDelimiter { expected: char, found: char },
    /// The type tag names no registry data type.
    UnknownTypeTag(u32),
    /// The type is known, but values of it have no decoder.
    UnsupportedType(KeyValueDataType),
    /// A string payload is neither clean UTF-16LE nor clean ISO-8859-15.
    UndecodableString,
}

/// The five families that the errors fall into.
#[derive(Clone, Copy, Debug, PartialEq, Eq, Structural)]
pub enum ErrorKind {
    Header,
    Grammar,
    UnknownTypeTag,
    UnsupportedType,
    StringDecode,
}

impl DecodeError {
    pub open spec fn spec_kind(self) -> ErrorKind {
        match self {
            DecodeError::TruncatedHeader => ErrorKind::Header,
            DecodeError::InvalidMagic => ErrorKind::Header,
            DecodeError::InvalidVersion => ErrorKind::Header,
            DecodeError::UnexpectedEnd => ErrorKind::Grammar,
            DecodeError::WrongDelimiter { .. } => ErrorKind::Grammar,
            DecodeError::UnknownTypeTag(_) => ErrorKind::UnknownTypeTag,
            DecodeError::UnsupportedType(_) => ErrorKind::UnsupportedType,
            DecodeError::UndecodableString => ErrorKind::StringDecode,
        }
    }

    /// The family of this error.
    #[verifier::when_used_as_spec(spec_kind)]
    pub fn kind(self) -> (k: ErrorKind)
        ensures
            k == self.spec_kind(),
    {
        match self {
            DecodeError::TruncatedHeader => ErrorKind::Header,
            DecodeError::InvalidMagic => ErrorKind::Header,
            DecodeError::InvalidVersion => ErrorKind::Header,
            DecodeError::UnexpectedEnd => ErrorKind::Grammar,
            DecodeError::WrongDelimiter { .. } => ErrorKind::Grammar,
            DecodeError::UnknownTypeTag(_) => ErrorKind::UnknownTypeTag,
            DecodeError::UnsupportedType(_) => ErrorKind::UnsupportedType,
            DecodeError::UndecodableString => ErrorKind::StringDecode,
        }
    }
}

} // verus!
