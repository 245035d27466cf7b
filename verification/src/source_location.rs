//! Source spans and the smallest span that covers two of them.

use vstd::prelude::*;

verus! {

/// A region of source text: the first and last line it touches and the
/// first and last column, counted from the start of the line.
#[derive(PartialEq, Eq, Structural, Debug, Copy, Clone)]
pub struct SourceLocation {
    pub line_start: usize,
    pub line_end: usize,
    pub start: usize,
    pub end: usize,
}

/// The smaller of two numbers.
pub open spec fn lesser(a: usize, b: usize) -> usize {
    if a <= b {
        a
    } else {
        b
    }
}

/// The larger of two numbers.
pub open spec fn greater(a: usize, b: usize) -> usize {
    if a >= b {
        a
    } else {
        b
    }
}

/// The smallest span that covers both `a` and `b`.
pub open spec fn join_spans(a: SourceLocation, b: SourceLocation) -> SourceLocation {
    SourceLocation {
        line_start: lesser(a.line_start, b.line_start),
        line_end: greater(a.line_end, b.line_end),
        start: lesser(a.start, b.start),
        end: greater(a.end, b.end),
    }
}

/// Whether `outer` covers `inner`: it begins no later and ends no earlier,
/// in lines and in columns.
pub open spec fn covers(outer: SourceLocation, inner: SourceLocation) -> bool {
    &&& outer.line_start <= inner.line_start
    &&& outer.line_end >= inner.line_end
    &&& outer.start <= inner.start
    &&& outer.end >= inner.end
}

/// The span that every field of which is zero.
pub open spec fn dummy_span() -> SourceLocation {
    SourceLocation { line_start: 0, line_end: 0, start: 0, end: 0 }
}

impl SourceLocation {
    /// The span from line `line_start` to line `line_end`, and from column
    /// `start` to column `end`.
    pub fn new_multiple_line(line_start: usize, line_end: usize, start: usize, end: usize) -> (r:
        Self)
        ensures
            r == (SourceLocation { line_start, line_end, start, end }),
    {
        SourceLocation { line_start, line_end, start, end }
    }

    /// The span on line `line` from column `start` to column `end`.
    pub fn new_single_line(line: usize, start: usize, end: usize) -> (r: Self)
        ensures
            r == (SourceLocation { line_start: line, line_end: line, start, end }),
    {
        SourceLocation { line_end: line, line_start: line, start, end }
    }

    /// The span of a value that no source text stands for.
    pub fn dummy() -> (r: Self)
        ensures
            r == dummy_span(),
    {
        SourceLocation { line_end: 0, line_start: 0, start: 0, end: 0 }
    }

    /// The smallest span covering `self` and `rhs`: the earlier of the two
    /// starts and the later of the two ends, for lines and for columns.
    pub fn join(self, rhs: SourceLocation) -> (r: SourceLocation)
        ensures
            r == join_spans(self, rhs),
            r.line_start <= self.line_start && r.line_start <= rhs.line_start,
            r.line_end >= self.line_end && r.line_end >= rhs.line_end,
            r.start <= self.start && r.start <= rhs.start,
            r.end >= self.end && r.end >= rhs.end,
    {
        SourceLocation {
            line_start: if self.line_start <= rhs.line_start {
                self.line_start
            } else {
                rhs.line_start
            },
            line_end: if self.line_end >= rhs.line_end {
                self.line_end
            } else {
                rhs.line_end
            },
            start: if self.start <= rhs.start {
                self.start
            } else {
                rhs.start
            },
            end: if self.end >= rhs.end {
                self.end
            } else {
                rhs.end
            },
        }
    }
}

impl Default for SourceLocation {
    fn default() -> (r: Self)
        ensures
            r == dummy_span(),
    {
        SourceLocation { line_end: 0, line_start: 0, start: 0, end: 0 }
    }
}

/// The join of two spans covers both, and is the smallest span that does:
/// every span that covers both covers their join.
pub proof fn join_is_the_smallest_cover(a: SourceLocation, b: SourceLocation, c: SourceLocation)
    ensures
        covers(join_spans(a, b), a),
        covers(join_spans(a, b), b),
        covers(c, a) && covers(c, b) ==> covers(c, join_spans(a, b)),
{
}

/// Joining two spans gives the same span whichever comes first.
pub proof fn join_is_commutative(a: SourceLocation, b: SourceLocation)
    ensures
        join_spans(a, b) == join_spans(b, a),
{
}

/// Joining three spans gives the same span however they are grouped.
pub proof fn join_is_associative(a: SourceLocation, b: SourceLocation, c: SourceLocation)
    ensures
        join_spans(join_spans(a, b), c) == join_spans(a, join_spans(b, c)),
{
}

} // verus!
