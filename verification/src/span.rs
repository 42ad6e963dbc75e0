use vstd::prelude::*;
use crate::live_ptr::LiveFileId;

verus! {

/// A zero-based source coordinate.
#[derive(Clone, Copy, Debug, PartialEq, Eq, Hash, Structural)]
pub struct TextPos {
    pub line: u32,
    pub column: u32,
}

impl Default for TextPos {
    fn default() -> (r: TextPos)
        ensures
            r == (TextPos { line: 0, column: 0 }),
    {
        TextPos { line: 0, column: 0 }
    }
}

/// A half-open range of positions within one file.
#[derive(Clone, Copy, Debug, PartialEq, Eq, Hash, Structural)]
pub struct Span {
    pub file_id: LiveFileId,
    pub start: TextPos,
    pub end: TextPos,
}

impl Span {
    /// The span that stands for no place at all: file zero, both ends at the origin.
    pub open spec fn spec_empty() -> Span {
        Span {
            file_id: LiveFileId(0),
            start: TextPos { line: 0, column: 0 },
            end: TextPos { line: 0, column: 0 },
        }
    }
}

impl Default for Span {
    fn default() -> (r: Span)
        ensures
            r == Span::spec_empty(),
    {
        Span {
            file_id: LiveFileId(0),
            start: TextPos { line: 0, column: 0 },
            end: TextPos { line: 0, column: 0 },
        }
    }
}

} // verus!
