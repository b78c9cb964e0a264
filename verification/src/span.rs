//! Spans of the source text.

use vstd::prelude::*;

verus! {

/// A span in the source code: the bytes from `start` up to `end`.
#[derive(Clone, Copy, Debug, Default, PartialEq, Eq, Structural, Hash)]
pub struct Span {
    /// The first byte of the span.
    pub start: u32,
    /// The byte after the last byte of the span.
    pub end: u32,
}

impl Span {
    /// The span from `start` up to `end`.
    pub fn new(start: u32, end: u32) -> (span: Span)
        requires
            start <= end,
        ensures
            span == (Span { start, end }),
    {
        Span { start, end }
    }

    /// The number of bytes in the span.
    pub fn len(&self) -> (len: u32)
        requires
            self.start <= self.end,
        ensures
            len == self.end - self.start,
    {
        self.end - self.start
    }
}

} // verus!
