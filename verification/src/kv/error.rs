//! Errors of reading and writing KeyValues text.

use vstd::prelude::*;

verus! {

/// What went wrong while reading or converting KeyValues.
#[derive(Debug, Clone, PartialEq, Eq)]
pub enum Error {
    /// A free-form message.
    Message(String),
    /// The text ended where a string was expected.
    Eof,
    /// A string was expected but a block was found.
    ExpectedString,
    /// A block `{` was expected.
    ExpectedObjectStart,
    /// A block end `}` was expected.
    ExpectedObjectEnd,
    /// A key was expected.
    ExpectedKey,
    /// A value was expected.
    ExpectedValue,
    /// Characters follow the document.
    TrailingCharacters,
    /// A syntax error at a line and column of the text.
    Syntax { line: usize, column: usize, msg: String },
    /// The text is not an integer of the requested type.
    IntParse(String),
}

} // verus!
