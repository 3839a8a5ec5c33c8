//! Byte ranges of the input.

use vstd::prelude::*;

verus! {

/// A half-open range of byte offsets, `start..end`.
#[derive(Clone, Copy, Debug, PartialEq, Eq, Structural)]
pub struct Span {
    pub start: u32,
    pub end: u32,
}

impl Span {
    /// The range `start..end`.
    pub fn new(start: u32, end: u32) -> (r: Span)
        requires
            start <= end,
        ensures
            r == (Span { start, end }),
    {
        Span { start, end }
    }

    /// The offset of the first byte.
    pub fn start(self) -> (r: u32)
        ensures
            r == self.start,
    {
        self.start
    }

    /// The offset one past the last byte.
    pub fn end(self) -> (r: u32)
        ensures
            r == self.end,
    {
        self.end
    }

    /// The number of bytes covered; zero where the end lies before the start.
    pub fn len(self) -> (r: u32)
        ensures
            r == if self.start <= self.end {
                self.end - self.start
            } else {
                0
            },
    {
        if self.start <= self.end {
            self.end - self.start
        } else {
            0
        }
    }

    /// Whether no byte is covered.
    pub fn is_empty(self) -> (r: bool)
        ensures
            r == (self.start >= self.end),
    {
        self.start >= self.end
    }
}

} // verus!
