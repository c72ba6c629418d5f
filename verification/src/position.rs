//! Positions in a text document.
use vstd::prelude::*;

verus! {

/// A position in a text document.
///
/// Both coordinates are zero-based.  `column` counts UTF-16 code units
/// from the start of the line, the unit of the standard editor protocols.
#[derive(Clone, Copy, Debug, PartialEq, Eq, Structural)]
pub struct Position {
    /// Zero-based physical line number.
    pub line: u32,
    /// Zero-based column, in UTF-16 code units from the start of the line.
    pub column: u32,
}

impl Position {
    /// Creates a new `Position` with the given `line` and `column`.
    pub fn new(line: u32, column: u32) -> (r: Self)
        ensures
            r == (Position { line, column }),
    {
        Position { line, column }
    }
}

} // verus!
