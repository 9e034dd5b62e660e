//! Text fragments and trivia.

use crate::pretty::span::Span;
use vstd::prelude::*;

verus! {

/// A fragment of output text, which may know the place in the source that it came from.
pub trait Text: Sized {
    /// The characters of the fragment.
    spec fn content(&self) -> Seq<char>;

    /// The place in the source that the fragment came from, if it has one.
    spec fn source(&self) -> Option<Span>;

    /// Returns the place in the source that the fragment came from; a fragment without one
    /// is synthetic.
    fn span(&self) -> (span: Option<Span>)
        ensures
            span == self.source(),
    ;

    /// Turns the fragment into its text.
    fn into_string(self) -> (text: String)
        ensures
            text@ == self.content(),
    ;
}

impl<'a> Text for &'a str {
    open spec fn content(&self) -> Seq<char> {
        (*self)@
    }

    open spec fn source(&self) -> Option<Span> {
        None
    }

    fn span(&self) -> (span: Option<Span>) {
        None
    }

    fn into_string(self) -> (text: String) {
        self.to_owned()
    }
}

impl Text for String {
    open spec fn content(&self) -> Seq<char> {
        self@
    }

    open spec fn source(&self) -> Option<Span> {
        None
    }

    fn span(&self) -> (span: Option<Span>) {
        None
    }

    fn into_string(self) -> (text: String) {
        self
    }
}

/// A slice of source text together with the place where it stood.
pub struct Fragment {
    /// The text of the slice.
    pub text: String,
    /// Where the slice stood in the source.
    pub span: Span,
}

impl Fragment {
    /// A fragment with the given text and place.
    pub fn new(text: String, span: Span) -> (fragment: Fragment)
        ensures
            fragment.text == text,
            fragment.span == span,
    {
        Fragment { text, span }
    }
}

impl Text for Fragment {
    open spec fn content(&self) -> Seq<char> {
        self.text@
    }

    open spec fn source(&self) -> Option<Span> {
        Some(self.span)
    }

    fn span(&self) -> (span: Option<Span>) {
        Some(self.span)
    }

    fn into_string(self) -> (text: String) {
        self.text
    }
}

/// A piece of source text from outside the grammar, such as a comment or a blank line,
/// with the place where it stood.
#[derive(Debug, Clone, Copy)]
pub struct Trivia<'a> {
    /// Where the piece stood in the source.
    pub span: Span,
    /// The piece as it was written.
    pub text: &'a str,
}

/// Whether a sequence of trivia is in source order: every span is proper and each one
/// precedes the next.
pub open spec fn in_order(trivia: Seq<Trivia<'_>>) -> bool {
    forall|i: int|
        #![trigger trivia[i]]
        0 <= i < trivia.len() ==> trivia[i].span.proper() && (i + 1 < trivia.len()
            ==> trivia[i].span.precedes(trivia[i + 1].span))
}

/// The texts of a sequence of trivia.
pub open spec fn texts_of(trivia: Seq<Trivia<'_>>) -> Seq<Seq<char>> {
    Seq::new(trivia.len(), |i: int| trivia[i].text@)
}

/// In a sequence in source order, each entry precedes every later one.
pub proof fn lemma_in_order_pairs(trivia: Seq<Trivia<'_>>, i: int, j: int)
    requires
        in_order(trivia),
        0 <= i < j < trivia.len(),
    ensures
        trivia[i].span.precedes(trivia[j].span),
    decreases j - i,
{
    if i + 1 < j {
        lemma_in_order_pairs(trivia, i + 1, j);
        assert(trivia[i].span.precedes(trivia[i + 1].span));
        assert(trivia[i + 1].span.proper());
        crate::pretty::span::lemma_precedes_transitive(
            trivia[i].span,
            trivia[i + 1].span,
            trivia[j].span,
        );
    } else {
        assert(trivia[i].span.precedes(trivia[i + 1].span));
    }
}

/// Checks that a sequence of trivia is in source order.
pub fn is_in_order(trivia: &[Trivia<'_>]) -> (ok: bool)
    ensures
        ok == in_order(trivia@),
{
    let mut i: usize = 0;
    while i < trivia.len()
        invariant
            i <= trivia@.len(),
            forall|k: int|
                #![trigger trivia@[k]]
                0 <= k < i ==> trivia@[k].span.proper() && (k + 1 < trivia@.len()
                    ==> trivia@[k].span.precedes(trivia@[k + 1].span)),
        decreases trivia@.len() - i,
    {
        if !trivia[i].span.is_proper() {
            return false;
        }
        if i + 1 < trivia.len() && !trivia[i].span.comes_before(&trivia[i + 1].span) {
            return false;
        }
        i += 1;
    }
    true
}

/// Where a checkpoint at `span` stops that starts at entry `from`: at the first entry
/// from there on that does not lie before `span`, or behind the last entry.
pub open spec fn flush_stop(trivia: Seq<Trivia<'_>>, from: int, span: Span) -> int
    decreases trivia.len() - from,
{
    if from < 0 || from >= trivia.len() || !trivia[from].span.precedes(span) {
        from
    } else {
        flush_stop(trivia, from + 1, span)
    }
}

} // verus!
