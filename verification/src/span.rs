//! Source locations attached to expressions, definitions and diagnostics.

use vstd::prelude::*;

verus! {

/// A half-open byte range in the source text.
#[derive(Clone, Copy, PartialEq, Eq, Structural, Debug)]
pub struct Span {
    pub start: u32,
    pub end: u32,
}

/// The smallest span covering both `a` and `b`.
pub open spec fn spec_merge(a: Span, b: Span) -> Span {
    Span {
        start: if a.start <= b.start {
            a.start
        } else {
            b.start
        },
        end: if a.end >= b.end {
            a.end
        } else {
            b.end
        },
    }
}

impl Span {
    /// The smallest span covering both `self` and `other`.
    pub fn merge(&self, other: &Span) -> (r: Span)
        ensures
            r == spec_merge(*self, *other),
    {
        let start: u32 = if self.start <= other.start {
            self.start
        } else {
            other.start
        };
        let end: u32 = if self.end >= other.end {
            self.end
        } else {
            other.end
        };
        Span { start, end }
    }
}

} // verus!
