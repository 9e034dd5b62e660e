//! Places in source text.

use vstd::prelude::*;

verus! {

/// A position in source text: a line and a column on that line.
#[derive(Debug, Clone, Copy, PartialEq, Eq, Structural)]
pub struct LineColumn {
    pub line: usize,
    pub column: usize,
}

impl LineColumn {
    /// Lexicographic order on positions: by line first, then by column.
    pub open spec fn at_or_before(self, other: LineColumn) -> bool {
        self.line < other.line || (self.line == other.line && self.column <= other.column)
    }
}

/// A range of source text, from a start position to an end position.
///
/// A span stores positions only; it carries no file or hygiene information, so it can be
/// built from any pair of known positions.
#[derive(Debug, Clone, Copy, PartialEq, Eq, Structural)]
pub struct Span {
    start: LineColumn,
    end: LineColumn,
}

impl Span {
    /// The position at which the span begins.
    pub closed spec fn first(self) -> LineColumn {
        self.start
    }

    /// The position at which the span ends.
    pub closed spec fn last(self) -> LineColumn {
        self.end
    }

    /// The start of a proper span does not lie after its end.
    pub open spec fn proper(self) -> bool {
        self.first().at_or_before(self.last())
    }

    /// Adjacency: this span begins exactly where `other` ends.
    pub open spec fn follows(self, other: Span) -> bool {
        self.first() == other.last()
    }

    /// Precedence: this span ends at or before the position where `other` begins.
    pub open spec fn precedes(self, other: Span) -> bool {
        self.last().at_or_before(other.first())
    }

    /// Creates a span from its start and end positions.
    #[must_use]
    pub fn new(start: LineColumn, end: LineColumn) -> (span: Span)
        ensures
            span.first() == start,
            span.last() == end,
    {
        Span { start, end }
    }

    /// Returns `true` if this span begins at the very position where `other` ends.
    #[must_use]
    pub fn immediately_follows(&self, other: &Span) -> (adjacent: bool)
        ensures
            adjacent == self.follows(*other),
    {
        self.start.line == other.end.line && self.start.column == other.end.column
    }

    /// Returns `true` if this span lies entirely before `other`: its end is at or before
    /// the other's start.
    #[must_use]
    pub fn comes_before(&self, other: &Span) -> (before: bool)
        ensures
            before == self.precedes(*other),
    {
        self.end.line < other.start.line || (self.end.line == other.start.line
            && self.end.column <= other.start.column)
    }

    /// Returns the starting position of this span.
    #[must_use]
    pub fn start(&self) -> (position: LineColumn)
        ensures
            position == self.first(),
    {
        self.start
    }

    /// Returns the ending position of this span.
    #[must_use]
    pub fn end(&self) -> (position: LineColumn)
        ensures
            position == self.last(),
    {
        self.end
    }

    /// Returns `true` if the span's start does not lie after its end.
    #[must_use]
    pub fn is_proper(&self) -> (ok: bool)
        ensures
            ok == self.proper(),
    {
        self.start.line < self.end.line || (self.start.line == self.end.line && self.start.column
            <= self.end.column)
    }
}

/// Precedence is transitive through a proper span: what precedes a proper span also
/// precedes everything that the span precedes.
pub proof fn lemma_precedes_transitive(a: Span, b: Span, c: Span)
    requires
        b.proper(),
        a.precedes(b),
        b.precedes(c),
    ensures
        a.precedes(c),
{
}

} // verus!
