//! Delimiters around groups.

use crate::pretty::document::{BreakMode, Item, TextMode};
use crate::pretty::printer::{spliced, Printer, Progress};
use crate::pretty::shape::PrettyPrint;
use crate::pretty::span::Span;
use crate::pretty::text::{flush_stop, Trivia};
use vstd::prelude::*;

verus! {

/// The places of the two delimiters around a group.
#[derive(Debug, Clone, Copy, PartialEq, Eq, Structural)]
pub struct DelimSpan {
    /// The place of the opening delimiter.
    pub open: Span,
    /// The place of the closing delimiter.
    pub close: Span,
}

/// Where a scan stands once it has entered delimiters from `before`, where `opening` is
/// the text of the opening delimiter and `place` is where the delimiters stood: the
/// trivia that lie before the opening delimiter are spliced in, and behind them stand
/// the opening delimiter and the start of a group.
pub open spec fn entered(
    opening: Seq<char>,
    place: DelimSpan,
    break_mode: BreakMode,
    trivia: Seq<Trivia<'_>>,
    before: Progress,
) -> Progress {
    let stop = flush_stop(trivia, before.flushed as int, place.open);
    Progress {
        doc: before.doc + spliced(trivia, before.flushed as int, stop) + seq![
            Item::Text { content: opening, span: None, mode: TextMode::Always },
            Item::Begin { breaking: break_mode },
        ],
        flushed: stop as nat,
    }
}

/// Where a scan stands once it has left delimiters from `inside`, where `closing` is the
/// text of the closing delimiter and `place` is where the delimiters stood: the trivia
/// that lie before the closing delimiter are spliced in, and behind them stand the end
/// of the group and the closing delimiter.
pub open spec fn left(
    closing: Seq<char>,
    place: DelimSpan,
    trivia: Seq<Trivia<'_>>,
    inside: Progress,
) -> Progress {
    let stop = flush_stop(trivia, inside.flushed as int, place.close);
    Progress {
        doc: inside.doc + spliced(trivia, inside.flushed as int, stop) + seq![
            Item::End,
            Item::Text { content: closing, span: None, mode: TextMode::Always },
        ],
        flushed: stop as nat,
    }
}

/// Whether a scan that stood at `before` stands at `after` once `inner` has been printed
/// between delimiters with the texts `opening` and `closing` that stood at `place`: the
/// delimiters are entered, `inner` prints itself once, and the delimiters are left.
pub open spec fn wrapped<T: PrettyPrint>(
    opening: Seq<char>,
    closing: Seq<char>,
    place: DelimSpan,
    break_mode: BreakMode,
    inner: &T,
    trivia: Seq<Trivia<'_>>,
    before: Progress,
    after: Progress,
) -> bool {
    exists|inside: Progress|
        #[trigger] inner.prints(trivia, entered(opening, place, break_mode, trivia, before), inside)
            && after == left(closing, place, trivia, inside)
}

/// A pair of delimiters: it knows its two texts and where they stood in the source, and
/// wraps what is printed between them into a group.
pub trait Delim {
    /// The text of the opening delimiter.
    spec fn opening(&self) -> Seq<char>;

    /// The text of the closing delimiter.
    spec fn closing(&self) -> Seq<char>;

    /// The places of the two delimiters.
    spec fn place(&self) -> DelimSpan;

    /// Returns the text of the opening delimiter.
    #[must_use]
    fn open_text(&self) -> (text: &'static str)
        ensures
            text@ == self.opening(),
    ;

    /// Returns the text of the closing delimiter.
    #[must_use]
    fn close_text(&self) -> (text: &'static str)
        ensures
            text@ == self.closing(),
    ;

    /// Returns the places of the two delimiters.
    #[must_use]
    fn span(&self) -> (span: DelimSpan)
        ensures
            span == self.place(),
    ;

    /// Enters the delimiters: splices in the trivia that lie before the opening
    /// delimiter, prints the opening delimiter and starts a group.
    fn enter(&self, printer: &mut Printer<'_>, break_mode: BreakMode)
        requires
            old(printer).wf(),
        ensures
            final(printer).wf(),
            final(printer).config() == old(printer).config(),
            final(printer).trivia() == old(printer).trivia(),
            final(printer).depth() == old(printer).depth() + 1,
            final(printer).progress() == entered(
                self.opening(),
                self.place(),
                break_mode,
                old(printer).trivia(),
                old(printer).progress(),
            ),
            old(printer).flushed() <= final(printer).flushed() <= old(printer).trivia().len(),
            final(printer).flushed() == flush_stop(
                old(printer).trivia(),
                old(printer).flushed() as int,
                self.place().open,
            ),
            final(printer).doc() == old(printer).doc() + spliced(
                old(printer).trivia(),
                old(printer).flushed() as int,
                final(printer).flushed() as int,
            ) + seq![
                Item::Text { content: self.opening(), span: None, mode: TextMode::Always },
                Item::Begin { breaking: break_mode },
            ],
    {
        printer.flush_trivia(self.span().open);
        printer.scan_text(self.open_text());
        printer.scan_begin(break_mode);
        assert(printer.doc() =~= old(printer).doc() + spliced(
            old(printer).trivia(),
            old(printer).flushed() as int,
            printer.flushed() as int,
        ) + seq![
            Item::Text { content: self.opening(), span: None, mode: TextMode::Always },
            Item::Begin { breaking: break_mode },
        ]);
    }

    /// Leaves the delimiters: splices in the trivia that lie before the closing
    /// delimiter, ends the group and prints the closing delimiter.
    fn leave(&self, printer: &mut Printer<'_>)
        requires
            old(printer).wf(),
            old(printer).depth() > 0,
        ensures
            final(printer).wf(),
            final(printer).config() == old(printer).config(),
            final(printer).trivia() == old(printer).trivia(),
            final(printer).depth() == old(printer).depth() - 1,
            final(printer).progress() == left(
                self.closing(),
                self.place(),
                old(printer).trivia(),
                old(printer).progress(),
            ),
            old(printer).flushed() <= final(printer).flushed() <= old(printer).trivia().len(),
            final(printer).flushed() == flush_stop(
                old(printer).trivia(),
                old(printer).flushed() as int,
                self.place().close,
            ),
            final(printer).doc() == old(printer).doc() + spliced(
                old(printer).trivia(),
                old(printer).flushed() as int,
                final(printer).flushed() as int,
            ) + seq![
                Item::End,
                Item::Text { content: self.closing(), span: None, mode: TextMode::Always },
            ],
    {
        printer.flush_trivia(self.span().close);
        printer.scan_end();
        printer.scan_text(self.close_text());
        assert(printer.doc() =~= old(printer).doc() + spliced(
            old(printer).trivia(),
            old(printer).flushed() as int,
            printer.flushed() as int,
        ) + seq![
            Item::End,
            Item::Text { content: self.closing(), span: None, mode: TextMode::Always },
        ]);
    }

    /// Prints `inner` between the delimiters, as one group: the trivia that lie before
    /// the opening delimiter, the opening delimiter, the start of the group, what `inner`
    /// prints, once, the trivia that lie before the closing delimiter, the end of the
    /// group and the closing delimiter.
    fn pretty_print<T: PrettyPrint>(
        &self,
        printer: &mut Printer<'_>,
        break_mode: BreakMode,
        inner: &T,
    )
        requires
            old(printer).wf(),
        ensures
            final(printer).wf(),
            wrapped(
                self.opening(),
                self.closing(),
                self.place(),
                break_mode,
                inner,
                old(printer).trivia(),
                old(printer).progress(),
                final(printer).progress(),
            ),
            final(printer).config() == old(printer).config(),
            final(printer).trivia() == old(printer).trivia(),
            final(printer).depth() == old(printer).depth(),
            old(printer).flushed() <= final(printer).flushed(),
            old(printer).doc().is_prefix_of(final(printer).doc()),
            (old(printer).doc() + spliced(
                old(printer).trivia(),
                old(printer).flushed() as int,
                flush_stop(
                    old(printer).trivia(),
                    old(printer).flushed() as int,
                    self.place().open,
                ),
            ) + seq![
                Item::Text { content: self.opening(), span: None, mode: TextMode::Always },
                Item::Begin { breaking: break_mode },
            ]).is_prefix_of(final(printer).doc()),
            final(printer).doc().len() >= 2,
            final(printer).doc()[final(printer).doc().len() - 2] == Item::End,
            final(printer).doc().last() == (Item::Text {
                content: self.closing(),
                span: None,
                mode: TextMode::Always,
            }),
    {
        proof {
            printer.lemma_wf();
        }
        self.enter(printer, break_mode);
        let ghost entered = printer.doc();
        let ghost start = printer.progress();
        inner.pretty_print(printer);
        let ghost printed = printer.doc();
        let ghost inside = printer.progress();
        self.leave(printer);
        proof {
            assert(inner.prints(old(printer).trivia(), start, inside));
            let left = printer.doc();
            assert(entered.is_prefix_of(printed));
            assert(printed.is_prefix_of(left));
            assert(entered =~= left.subrange(0, entered.len() as int)) by {
                assert forall|i: int| 0 <= i < entered.len() implies entered[i] == left[i] by {
                    assert(printed.subrange(0, entered.len() as int)[i] == printed[i]);
                    assert(left.subrange(0, printed.len() as int)[i] == left[i]);
                }
            }
            assert(old(printer).doc() =~= left.subrange(0, old(printer).doc().len() as int)) by {
                assert forall|i: int| 0 <= i < old(printer).doc().len() implies old(
                    printer,
                ).doc()[i] == left[i] by {
                    assert(entered[i] == old(printer).doc()[i]);
                    assert(left.subrange(0, entered.len() as int)[i] == left[i]);
                }
            }
        }
    }
}

/// A pair of parentheses.
#[derive(Debug, Clone, Copy)]
pub struct Paren {
    /// Where the two parentheses stood.
    pub span: DelimSpan,
}

/// A pair of square brackets.
#[derive(Debug, Clone, Copy)]
pub struct Bracket {
    /// Where the two brackets stood.
    pub span: DelimSpan,
}

/// A pair of braces.
#[derive(Debug, Clone, Copy)]
pub struct Brace {
    /// Where the two braces stood.
    pub span: DelimSpan,
}

impl Delim for Paren {
    open spec fn opening(&self) -> Seq<char> {
        "("@
    }

    open spec fn closing(&self) -> Seq<char> {
        ")"@
    }

    open spec fn place(&self) -> DelimSpan {
        self.span
    }

    fn open_text(&self) -> (text: &'static str) {
        "("
    }

    fn close_text(&self) -> (text: &'static str) {
        ")"
    }

    fn span(&self) -> (span: DelimSpan) {
        self.span
    }
}

impl Delim for Bracket {
    open spec fn opening(&self) -> Seq<char> {
        "["@
    }

    open spec fn closing(&self) -> Seq<char> {
        "]"@
    }

    open spec fn place(&self) -> DelimSpan {
        self.span
    }

    fn open_text(&self) -> (text: &'static str) {
        "["
    }

    fn close_text(&self) -> (text: &'static str) {
        "]"
    }

    fn span(&self) -> (span: DelimSpan) {
        self.span
    }
}

impl Delim for Brace {
    open spec fn opening(&self) -> Seq<char> {
        "{"@
    }

    open spec fn closing(&self) -> Seq<char> {
        "}"@
    }

    open spec fn place(&self) -> DelimSpan {
        self.span
    }

    fn open_text(&self) -> (text: &'static str) {
        "{"
    }

    fn close_text(&self) -> (text: &'static str) {
        "}"
    }

    fn span(&self) -> (span: DelimSpan) {
        self.span
    }
}

/// Any of the three pairs of delimiters, or none.
pub enum Delimiter<'a> {
    Paren(&'a Paren),
    Brace(&'a Brace),
    Bracket(&'a Bracket),
    /// No delimiters.
    Empty,
}

impl Delimiter<'_> {
    /// The places of the two delimiters, if there are delimiters.
    pub open spec fn place(&self) -> Option<DelimSpan> {
        match self {
            Delimiter::Paren(inner) => Some(inner.span),
            Delimiter::Brace(inner) => Some(inner.span),
            Delimiter::Bracket(inner) => Some(inner.span),
            Delimiter::Empty => None,
        }
    }

    /// Returns the places of the two delimiters, if there are delimiters.
    pub fn span(&self) -> (span: Option<DelimSpan>)
        ensures
            span == self.place(),
    {
        match self {
            Self::Paren(inner) => Some(inner.span),
            Self::Brace(inner) => Some(inner.span),
            Self::Bracket(inner) => Some(inner.span),
            Self::Empty => None,
        }
    }
}

} // verus!
