use vstd::prelude::*;

verus! {

/// A half-open range `[start, end)` of byte offsets into a source buffer.
#[derive(Debug, Clone, Copy, PartialEq, Eq, Structural)]
pub struct Span {
    pub start: usize,
    pub end: usize,
}

impl Span {
    /// The bounding range of two spans, as a specification.
    pub open spec fn spec_merge(self, other: Span) -> Span {
        Span {
            start: if self.start <= other.start { self.start } else { other.start },
            end: if self.end >= other.end { self.end } else { other.end },
        }
    }

    /// The smallest span that covers both `self` and `other`.
    #[verifier::when_used_as_spec(spec_merge)]
    pub fn merge(self, other: Span) -> (r: Span)
        ensures
            r == self.spec_merge(other),
    {
        Span {
            start: if self.start <= other.start { self.start } else { other.start },
            end: if self.end >= other.end { self.end } else { other.end },
        }
    }

    pub fn new(start: usize, end: usize) -> (r: Span)
        ensures
            r.start == start,
            r.end == end,
    {
        Span { start, end }
    }
}

/// `merge` yields the bounding range: it covers both spans, every span that
/// covers both covers it, and the order of the two does not matter.
pub proof fn lemma_merge_is_bounding(a: Span, b: Span, c: Span)
    ensures
        a.merge(b).start <= a.start && a.end <= a.merge(b).end,
        a.merge(b).start <= b.start && b.end <= a.merge(b).end,
        c.start <= a.start && c.start <= b.start && a.end <= c.end && b.end <= c.end ==> c.start
            <= a.merge(b).start && a.merge(b).end <= c.end,
        a.merge(b) == b.merge(a),
        a.merge(a) == a,
        a.start <= a.end && b.start <= b.end ==> a.merge(b).start <= a.merge(b).end,
{
}

} // verus!
