//! Spans of source text and the editor's coordinates.

use vstd::prelude::*;

verus! {

/// A run of source text, from the byte offset `start` to the byte offset
/// `end`.
#[derive(Clone, Copy, Debug, PartialEq, Eq, Structural)]
pub struct SrcSpan {
    pub start: usize,
    pub end: usize,
}

impl SrcSpan {
    /// Whether an offset lies within the span, both ends included.
    pub open spec fn spec_contains(self, byte_index: usize) -> bool {
        self.start <= byte_index <= self.end
    }

    #[verifier::when_used_as_spec(spec_contains)]
    pub fn contains(self, byte_index: usize) -> (inside: bool)
        ensures
            inside == self.spec_contains(byte_index),
    {
        self.start <= byte_index && byte_index <= self.end
    }
}

/// A place in a text as an editor names it: a line, counted from zero, and
/// a column on it, counted in UTF-16 code units.
#[derive(Clone, Copy, Debug, PartialEq, Eq, Structural)]
pub struct Position {
    pub line: u32,
    pub character: u32,
}

/// A run of text between two editor positions.
#[derive(Clone, Copy, Debug, PartialEq, Eq, Structural)]
pub struct Range {
    pub start: Position,
    pub end: Position,
}

impl Position {
    /// Whether this position comes before another or is the same.
    pub open spec fn at_or_before(self, other: Position) -> bool {
        self.line < other.line || (self.line == other.line && self.character <= other.character)
    }
}

impl Range {
    /// Whether a position lies within the range, both ends included.
    pub open spec fn spec_contains(self, position: Position) -> bool {
        self.start.at_or_before(position) && position.at_or_before(self.end)
    }
}

} // verus!
