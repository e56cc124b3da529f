//! What the library reports when it is asked for something it cannot do.

use vstd::prelude::*;
use crate::text::{chars_of, string_of};

verus! {

/// A request that the library turns down.
#[derive(Debug, Clone, Copy, PartialEq, Eq, Structural)]
pub enum FormatError {
    /// The number of significant figures is not between 3 and 7.
    InvalidSigfig,
    /// The least column width is below 2.
    InvalidMinWidth,
    /// The greatest column width does not exceed the least, or is the
    /// greatest number there is.
    InvalidMaxWidth,
    /// The column holds no cell that is not missing, so no kind has a
    /// majority.
    EmptyColumnKind,
}

impl FormatError {
    /// The text of the message for this error.
    pub open spec fn message_text(self) -> Seq<char> {
        match self {
            FormatError::InvalidSigfig => "significant figures must be between 3 and 7"@,
            FormatError::InvalidMinWidth => "the minimum column width must be at least 2"@,
            FormatError::InvalidMaxWidth => "the maximum column width must exceed the minimum and be less than the largest integer"@,
            FormatError::EmptyColumnKind => "the column holds no value that is not missing"@,
        }
    }

    /// A message that names the offending parameter and its valid range.
    pub fn message(&self) -> (m: String)
        ensures
            m@ == self.message_text(),
    {
        let word = match self {
            FormatError::InvalidSigfig => "significant figures must be between 3 and 7",
            FormatError::InvalidMinWidth => "the minimum column width must be at least 2",
            FormatError::InvalidMaxWidth => "the maximum column width must exceed the minimum and be less than the largest integer",
            FormatError::EmptyColumnKind => "the column holds no value that is not missing",
        };
        string_of(&chars_of(word))
    }
}

} // verus!
