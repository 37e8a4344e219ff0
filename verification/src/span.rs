//! Source locations.

use vstd::prelude::*;

verus! {

/// A half-open range of source positions.
#[derive(Clone, Copy, Debug, PartialEq, Eq, Structural)]
pub struct Span {
    pub start: u64,
    pub end: u64,
}

impl Span {
    pub fn new(start: u64, end: u64) -> (r: Span)
        ensures
            r.start == start,
            r.end == end,
    {
        Span { start, end }
    }

    /// The span that starts where `a` starts and ends where `b` ends.
    pub fn combine(a: Span, b: Span) -> (r: Span)
        ensures
            r.start == a.start,
            r.end == b.end,
    {
        Span { start: a.start, end: b.end }
    }

    /// The empty span at position 0, used for nodes that have no source text.
    pub fn dummy() -> (r: Span)
        ensures
            r.start == 0,
            r.end == 0,
    {
        Span { start: 0, end: 0 }
    }
}

} // verus!
