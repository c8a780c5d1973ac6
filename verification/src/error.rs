//! The error taxonomy of the library.

use vstd::prelude::*;

verus! {

/// Why a run could not produce a sum.
#[derive(Debug, PartialEq, Eq)]
pub enum SumError {
    /// The file flag was given without a following path.
    MissingArgument,
    /// A token (after comma stripping) is not a valid number; holds the token.
    ParseError(String),
    /// Standard input or the named file could not be read; holds the
    /// operating-system message.  Only the surrounding binary constructs it.
    IoError(String),
}

impl SumError {
    /// The one-line human-readable description of the error.
    pub open spec fn message_spec(&self) -> Seq<char> {
        match self {
            SumError::MissingArgument => "Missing path to file."@,
            SumError::ParseError(t) => "Failed to parse '"@ + t@ + "'"@,
            SumError::IoError(m) => m@,
        }
    }

    /// Renders the error as its one-line message.
    pub fn message(&self) -> (r: String)
        ensures
            r@ == self.message_spec(),
    {
        match self {
            SumError::MissingArgument => String::from_str("Missing path to file."),
            SumError::ParseError(t) => {
                let mut s = String::from_str("Failed to parse '");
                s.append(t.as_str());
                s.append("'");
                s
            },
            SumError::IoError(m) => m.clone(),
        }
    }
}

} // verus!
