//! Source positions and interned names shared by the front end.
use vstd::prelude::*;

pub mod arena;
pub mod bitset;
pub mod join;

verus! {

/// An interned identifier: the interner hands out one id per distinct name.
#[derive(Debug, Clone, Copy, PartialEq, Eq, Hash, Structural)]
pub struct Symbol {
    pub id: u32,
}

/// An interned string literal.
#[derive(Debug, Clone, Copy, PartialEq, Eq, Hash, Structural)]
pub struct StrLit {
    pub id: u32,
}

/// A source file, identified by the id the driver gave it.
#[derive(Debug, Clone, Copy, PartialEq, Eq, Hash, Structural)]
pub struct SourceFile {
    pub id: u32,
}

/// A byte offset inside a source file.
#[derive(Debug, Clone, Copy, PartialEq, Eq, Hash, Structural)]
pub struct Location {
    pub file: SourceFile,
    pub offset: usize,
}

/// A byte range `[start_offset, end_offset)` inside a source file.
#[derive(Debug, Clone, Copy, PartialEq, Eq, Hash, Structural)]
pub struct Span {
    pub file: SourceFile,
    pub start_offset: usize,
    pub end_offset: usize,
}

/// The span from `start` up to `end`.
pub open spec fn span_of(start: Location, end: Location) -> Span {
    Span { file: start.file, start_offset: start.offset, end_offset: end.offset }
}

impl Location {
    pub fn new(file: SourceFile, offset: usize) -> (r: Location)
        ensures
            r == (Location { file, offset }),
    {
        Location { file, offset }
    }

    /// The span from this location up to `end`.
    pub fn span(self, end: Location) -> (r: Span)
        ensures
            r == span_of(self, end),
    {
        Span { file: self.file, start_offset: self.offset, end_offset: end.offset }
    }

    /// The location `n` bytes further (wrapping, as the release build does).
    pub fn advance(self, n: usize) -> (r: Location)
        ensures
            r.file == self.file,
            r.offset == (if self.offset + n > usize::MAX {
                self.offset + n - usize::MAX - 1
            } else {
                self.offset + n
            }),
    {
        Location { file: self.file, offset: self.offset.wrapping_add(n) }
    }
}

impl Span {
    pub fn new(file: SourceFile, start_offset: usize, end_offset: usize) -> (r: Span)
        ensures
            r == (Span { file, start_offset, end_offset }),
    {
        Span { file, start_offset, end_offset }
    }

    pub fn start(self) -> (r: Location)
        ensures
            r == (Location { file: self.file, offset: self.start_offset }),
    {
        Location { file: self.file, offset: self.start_offset }
    }

    pub fn end(self) -> (r: Location)
        ensures
            r == (Location { file: self.file, offset: self.end_offset }),
    {
        Location { file: self.file, offset: self.end_offset }
    }

    /// Whether `loc` lies in this span (end inclusive).
    pub fn encloses(self, loc: Location) -> (r: bool)
        ensures
            r == (loc.file == self.file && self.start_offset <= loc.offset
                && loc.offset <= self.end_offset),
    {
        loc.file == self.file && self.start_offset <= loc.offset && loc.offset <= self.end_offset
    }
}

} // verus!
