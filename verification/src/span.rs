//! Byte positions and half-open byte ranges into one source text.

use vstd::prelude::*;

verus! {

/// A half-open byte range `[lo, hi)` into the source text.
#[derive(Clone, Copy, Debug, PartialEq, Eq, Structural)]
pub struct Span {
    pub lo: usize,
    pub hi: usize,
}

impl Span {
    /// A span is well formed when it does not run backwards.
    pub open spec fn wf(self) -> bool {
        self.lo <= self.hi
    }

    pub fn new(lo: usize, hi: usize) -> (r: Span)
        ensures
            r.lo == lo,
            r.hi == hi,
    {
        Span { lo, hi }
    }
}

/// True when the two half-open ranges share at least one byte.
pub open spec fn spec_spans_intersect(a: Span, b: Span) -> bool {
    !(a.hi <= b.lo || b.hi <= a.lo)
}

pub fn spans_intersect(a: &Span, b: &Span) -> (r: bool)
    ensures
        r == spec_spans_intersect(*a, *b),
{
    if a.hi <= b.lo {
        return false;
    }
    if b.hi <= a.lo {
        return false;
    }
    true
}

} // verus!
