//! The failures that decoding and encoding report.
use vstd::prelude::*;

use crate::text::{nat_text, usize_text};

verus! {

/// A failure of the codec. Every failure is returned to the caller; none aborts.
#[derive(Debug, Clone, PartialEq, Eq)]
pub enum Error {
    /// A message from the data-model binding layer.
    Message(String),
    /// The input ended where a token was required, or inside a quoted scalar.
    UnexpectedEndOfInput,
    /// A quoted scalar was required, but the next significant character was not `"`.
    ExpectedString,
    /// A scalar in a boolean position was neither `"1"` nor `"0"`.
    InvalidBoolean,
    /// A scalar in a numeric position is not a number of the requested type.
    InvalidNumber,
    /// A sequence was required, but no `{` opened it.
    ExpectedSequence,
    /// The input ended inside a sequence.
    ExpectedSequenceEnd,
    /// A sequence element's key was not the next position.
    SequenceIndexMismatch { expected: usize, found: String },
    /// A nested mapping was required, but no `{` opened it.
    ExpectedMapping,
    /// The input ended inside a nested mapping.
    ExpectedMappingEnd,
    /// The requested shape has no representation in the format.
    UnsupportedShape,
    /// Something other than whitespace follows a complete document.
    TrailingCharacters,
}

pub type Result<T> = core::result::Result<T, Error>;

/// The text that describes a failure.
pub open spec fn describe(e: Error) -> Seq<char> {
    match e {
        Error::Message(m) => m@,
        Error::UnexpectedEndOfInput => "unexpected end of string"@,
        Error::ExpectedString => "expected a quoted string"@,
        Error::InvalidBoolean => "expected a boolean, \"1\" or \"0\""@,
        Error::InvalidNumber => "invalid number"@,
        Error::ExpectedSequence => "expected a sequence"@,
        Error::ExpectedSequenceEnd => "expected the end of a sequence"@,
        Error::SequenceIndexMismatch { expected, found } => "expected sequence index "@ + nat_text(
            expected as nat,
        ) + ", found "@ + found@,
        Error::ExpectedMapping => "expected a mapping"@,
        Error::ExpectedMappingEnd => "expected the end of a mapping"@,
        Error::UnsupportedShape => "unsupported data type"@,
        Error::TrailingCharacters => "trailing characters"@,
    }
}

impl Error {
    /// Describes the failure in words.
    pub fn message(&self) -> (r: String)
        ensures
            r@ == describe(*self),
    {
        match self {
            Error::Message(m) => m.clone(),
            Error::UnexpectedEndOfInput => String::from_str("unexpected end of string"),
            Error::ExpectedString => String::from_str("expected a quoted string"),
            Error::InvalidBoolean => String::from_str("expected a boolean, \"1\" or \"0\""),
            Error::InvalidNumber => String::from_str("invalid number"),
            Error::ExpectedSequence => String::from_str("expected a sequence"),
            Error::ExpectedSequenceEnd => String::from_str("expected the end of a sequence"),
            Error::SequenceIndexMismatch { expected, found } => {
                let mut r = String::from_str("expected sequence index ");
                let n = usize_text(*expected);
                r.append(n.as_str());
                r.append(", found ");
                r.append(found.as_str());
                r
            },
            Error::ExpectedMapping => String::from_str("expected a mapping"),
            Error::ExpectedMappingEnd => String::from_str("expected the end of a mapping"),
            Error::UnsupportedShape => String::from_str("unsupported data type"),
            Error::TrailingCharacters => String::from_str("trailing characters"),
        }
    }
}

} // verus!
