use vstd::prelude::*;

verus! {

/// A byte offset in a source file.
#[derive(Clone, Copy, Debug, PartialEq, Eq, Structural)]
pub struct Position {
    pub offset: u32,
}

/// A contiguous range of source code in one file: `start` is inclusive and
/// `end` exclusive.
#[derive(Clone, Copy, Debug, PartialEq, Eq, Structural)]
pub struct Span {
    pub file_id: u64,
    pub start: Position,
    pub end: Position,
}

impl Span {
    /// A span of the given file between two offsets.
    pub fn new(file_id: u64, start: u32, end: u32) -> (r: Span)
        ensures
            r.file_id == file_id,
            r.start.offset == start,
            r.end.offset == end,
    {
        Span { file_id, start: Position { offset: start }, end: Position { offset: end } }
    }
}

} // verus!
