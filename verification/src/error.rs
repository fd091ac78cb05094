//! Typed failures of the wire codecs.

use vstd::prelude::*;

verus! {

/// Why a wire string could not be decoded.
///
/// `Format` means the text does not match the grammar of the encoding;
/// `IntegerParse` means the grammar was met but a numeric field is not a
/// valid integer of the expected width.
#[derive(Clone, Copy, Debug, PartialEq, Eq, Hash, Structural)]
pub enum ParseError {
    Format,
    IntegerParse,
}

impl ParseError {
    /// A short human-readable description of the failure.
    pub fn message(&self) -> (r: &'static str)
        ensures
            *self == ParseError::Format ==> r@ == "text does not match the expected format"@,
            *self == ParseError::IntegerParse ==> r@ == "numeric field is not a valid integer"@,
    {
        match self {
            ParseError::Format => "text does not match the expected format",
            ParseError::IntegerParse => "numeric field is not a valid integer",
        }
    }
}

} // verus!
