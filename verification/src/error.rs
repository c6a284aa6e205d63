//! The errors that the library reports to its callers.

use vstd::prelude::*;
use vstd::string::StringExecFns;
use crate::text::{decimal, decimal_chars};

verus! {

/// What can go wrong when text is read.
#[derive(Debug, Clone, PartialEq, Eq)]
pub enum NeoError {
    /// The input is malformed at byte `pos`.
    ParseError { pos: usize, message: String },
    /// An offset reaches past the end of the input.
    UnexpectedEOF,
}

impl NeoError {
    /// The sentence that describes this error.
    pub open spec fn rendered(self) -> Seq<char> {
        match self {
            NeoError::ParseError { pos, message } => "Parsing error at position "@ + decimal_chars(
                pos as nat,
            ) + ": "@ + message@,
            NeoError::UnexpectedEOF => "Unexpected end of input"@,
        }
    }

    /// Writes the error as a sentence.
    pub fn to_text(&self) -> (s: String)
        ensures
            s@ == self.rendered(),
    {
        match self {
            NeoError::ParseError { pos, message } => {
                let mut s = String::from_str("Parsing error at position ");
                let digits = decimal(*pos);
                s.append(digits.as_str());
                s.append(": ");
                s.append(message.as_str());
                s
            },
            NeoError::UnexpectedEOF => String::from_str("Unexpected end of input"),
        }
    }
}

} // verus!
