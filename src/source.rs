//! Positions in source text: a line/column `Location` and a half-open `Span`.
use vstd::prelude::*;

verus! {

/// A location within a source text (line and column).
#[derive(Debug, Clone, Copy, PartialEq, Eq, Structural)]
pub struct Location {
    /// The line of the location, starting at 1.
    pub line: u32,
    /// The column of the location, starting at 1; 0 stands before the first column of a line.
    pub col_offset: u32,
}

impl Location {
    /// The location of the first character of a text.
    pub fn start() -> (r: Location)
        ensures
            r == (Location { line: 1, col_offset: 1 }),
    {
        Location { line: 1, col_offset: 1 }
    }

    /// The placeholder location of a node that was not read from a text.
    pub fn unknown() -> (r: Location)
        ensures
            r == (Location { line: 0, col_offset: 0 }),
    {
        Location::new(0, 0)
    }

    pub fn new(line: u32, col_offset: u32) -> (r: Location)
        ensures
            r == (Location { line, col_offset }),
    {
        Location { line, col_offset }
    }

    /// The location one column further on the same line.
    pub fn next(&self) -> (r: Location)
        requires
            self.col_offset < u32::MAX,
        ensures
            r == (Location { line: self.line, col_offset: (self.col_offset + 1) as u32 }),
    {
        Location { line: self.line, col_offset: self.col_offset + 1 }
    }

    /// The location before the first column of the following line.
    pub fn next_line(&self) -> (r: Location)
        requires
            self.line < u32::MAX,
        ensures
            r == (Location { line: (self.line + 1) as u32, col_offset: 0 }),
    {
        Location { line: self.line + 1, col_offset: 0 }
    }
}

/// The span placed on what was not read from a text.
pub open spec fn unknown_span() -> Span {
    Span { start: Location { line: 0, col_offset: 0 }, end: Location { line: 0, col_offset: 0 } }
}

/// A span within a source text, from a starting to an ending location.
#[derive(Debug, Clone, Copy, PartialEq, Eq, Structural)]
pub struct Span {
    pub start: Location,
    pub end: Location,
}

impl Span {
    pub fn new(start: Location, end: Location) -> (r: Span)
        ensures
            r == (Span { start, end }),
    {
        Span { start, end }
    }

    /// The span that starts and ends at `loc`.
    pub fn from_location(loc: Location) -> (r: Span)
        ensures
            r == (Span { start: loc, end: loc }),
    {
        Span { start: loc, end: loc }
    }

    /// The placeholder span of a node that was not read from a text.
    pub fn unknown() -> (r: Span)
        ensures
            r == (Span { start: Location { line: 0, col_offset: 0 }, end: Location { line: 0, col_offset: 0 } }),
    {
        Span::new(Location::unknown(), Location::unknown())
    }
}

} // verus!
