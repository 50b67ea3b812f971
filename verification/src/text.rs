//! Source positions and ranges, measured in bytes from the start of the file.

use vstd::prelude::*;

verus! {

/// A range of text in the source document, `start..end`, with `start <= end`.
#[derive(Clone, Copy, PartialEq, Eq, Structural, Debug)]
pub struct TextRange {
    pub start: u32,
    pub end: u32,
}

impl TextRange {
    /// True when the range is well formed: it does not end before it starts.
    pub open spec fn wf(self) -> bool {
        self.start <= self.end
    }

    pub open spec fn spec_start(self) -> u32 {
        self.start
    }

    pub open spec fn spec_end(self) -> u32 {
        self.end
    }

    pub open spec fn spec_len(self) -> int {
        self.end - self.start
    }

    pub fn new(start: u32, end: u32) -> (r: TextRange)
        requires
            start <= end,
        ensures
            r.spec_start() == start,
            r.spec_end() == end,
            r.wf(),
    {
        TextRange { start, end }
    }

    /// The range `offset..offset + len`.
    pub fn at(offset: u32, len: u32) -> (r: TextRange)
        requires
            offset + len <= u32::MAX,
        ensures
            r.spec_start() == offset,
            r.spec_end() == offset + len,
            r.wf(),
    {
        TextRange { start: offset, end: offset + len }
    }

    pub fn start(&self) -> (r: u32)
        ensures
            r == self.spec_start(),
    {
        self.start
    }

    pub fn end(&self) -> (r: u32)
        ensures
            r == self.spec_end(),
    {
        self.end
    }

    pub fn len(&self) -> (r: u32)
        requires
            self.wf(),
        ensures
            r == self.spec_len(),
    {
        self.end - self.start
    }

    /// True when `other` lies entirely inside this range.
    pub fn contains_range(&self, other: &TextRange) -> (r: bool)
        ensures
            r == (self.start <= other.start && other.end <= self.end),
    {
        self.start <= other.start && other.end <= self.end
    }
}

} // verus!
