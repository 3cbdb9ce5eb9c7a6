//! Source positions and spans.

use vstd::prelude::*;

verus! {

/// A position in source text.
#[derive(Debug, Clone, Copy, PartialEq, Eq, Structural)]
pub struct Position {
    /// One-based line number.
    pub line: usize,
    /// One-based column number.
    pub column: usize,
    /// Zero-based character offset.
    pub offset: usize,
}

impl Position {
    /// Build a position.
    pub fn new(line: usize, column: usize, offset: usize) -> (r: Position)
        ensures
            r == (Position { line, column, offset }),
    {
        Position { line, column, offset }
    }

    /// The first position of a source file.
    pub fn start() -> (r: Position)
        ensures
            r == (Position { line: 1, column: 1, offset: 0 }),
    {
        Position { line: 1, column: 1, offset: 0 }
    }
}

/// A half-open region of source text.
#[derive(Debug, Clone, Copy, PartialEq, Eq, Structural)]
pub struct Span {
    /// First position covered.
    pub start: Position,
    /// Position just after the region.
    pub end: Position,
}

impl Span {
    /// Build a span.
    pub fn new(start: Position, end: Position) -> (r: Span)
        ensures
            r == (Span { start, end }),
    {
        Span { start, end }
    }

    /// A zero-width span at one position.
    pub fn single(position: Position) -> (r: Span)
        ensures
            r == (Span { start: position, end: position }),
    {
        Span { start: position, end: position }
    }
}

} // verus!
