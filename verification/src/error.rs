use vstd::prelude::*;

verus! {

/// What can go wrong while encoding or decoding.
#[derive(Debug, Clone, Copy, PartialEq, Eq, Structural)]
pub enum Error {
    /// The source was exhausted in the middle of a value.
    UnexpectedEnd,
    /// A decode rule ran with no current type code available.
    MissingType,
    /// The type code at hand is not valid for the requested operation.
    TypeMismatch,
    /// A raw byte block was not preceded by a nested header of type 0.
    InvalidBlockMarker,
    /// A string payload is not valid UTF-8.
    InvalidUtf8,
    /// A type code outside 0..=13 was met.
    UnknownTypeCode,
    /// A field identifier is not a decimal integer in 0..=255.
    InvalidFieldTag,
}

impl Error {
    /// What `message` says of each kind of error.
    pub open spec fn text(self) -> Seq<char> {
        match self {
            Error::UnexpectedEnd => "unexpected end of input"@,
            Error::MissingType => "missing type"@,
            Error::TypeMismatch => "type mismatch"@,
            Error::InvalidBlockMarker => "byte block must be followed by type 0"@,
            Error::InvalidUtf8 => "invalid UTF-8"@,
            Error::UnknownTypeCode => "unknown type code"@,
            Error::InvalidFieldTag => "field name is not a valid tag"@,
        }
    }

    /// A short description of the error, for people.
    pub fn message(&self) -> (text: &'static str)
        ensures
            text@ == self.text(),
    {
        match self {
            Error::UnexpectedEnd => "unexpected end of input",
            Error::MissingType => "missing type",
            Error::TypeMismatch => "type mismatch",
            Error::InvalidBlockMarker => "byte block must be followed by type 0",
            Error::InvalidUtf8 => "invalid UTF-8",
            Error::UnknownTypeCode => "unknown type code",
            Error::InvalidFieldTag => "field name is not a valid tag",
        }
    }
}

} // verus!
