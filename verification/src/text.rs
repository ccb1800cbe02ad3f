//! Byte ranges of the source text.

use vstd::prelude::*;

verus! {

/// Half-open range `[start, end)` of byte offsets into the source.
#[derive(Clone, Copy, PartialEq, Eq, Debug, Hash, Structural)]
pub struct TextRange {
    pub start: u32,
    pub end: u32,
}

impl TextRange {
    /// The range does not end before it starts.
    pub open spec fn ordered(self) -> bool {
        self.start <= self.end
    }

    /// The byte at `offset` lies in the range.
    pub open spec fn holds(self, offset: int) -> bool {
        self.start <= offset < self.end
    }

    /// The range from `start` up to `end`.
    pub fn new(start: u32, end: u32) -> (range: TextRange)
        ensures
            range == (TextRange { start, end }),
    {
        TextRange { start, end }
    }

    /// Number of bytes in the range.
    pub fn len(&self) -> (n: u32)
        requires
            self.ordered(),
        ensures
            n == self.end - self.start,
    {
        self.end - self.start
    }

    /// Whether the range holds no byte.
    pub fn is_empty(&self) -> (b: bool)
        ensures
            b == (self.start >= self.end),
    {
        self.start >= self.end
    }

    /// Whether the byte at `offset` lies in the range.
    pub fn contains(&self, offset: u32) -> (b: bool)
        ensures
            b == self.holds(offset as int),
    {
        self.start <= offset && offset < self.end
    }
}

} // verus!
