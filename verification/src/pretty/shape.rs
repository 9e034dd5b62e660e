//! Values that print themselves, and the shapes of a macro invocation.

use crate::pretty::delim::{entered, left, wrapped, Brace, Bracket, Delim, DelimSpan, Paren};
use crate::pretty::document::{BreakMode, Item, TextMode};
use crate::pretty::printer::{spliced, Printer, Progress};
use crate::pretty::span::Span;
use crate::pretty::text::{flush_stop, Fragment, Trivia};
use vstd::prelude::*;

verus! {

/// Something that can print itself: it scans its items into a printer and leaves every
/// group closed that it has opened.
pub trait PrettyPrint {
    /// Whether a scan that stood at `before` stands at `after` once the value has printed
    /// itself, where `trivia` are the trivia of the source.
    spec fn prints(&self, trivia: Seq<Trivia<'_>>, before: Progress, after: Progress) -> bool;

    /// Scans the value's items into `printer`, as `prints` says. What stood in the
    /// document stays, the groups that were open stay open, and no other is left open.
    fn pretty_print(&self, printer: &mut Printer<'_>)
        requires
            old(printer).wf(),
        ensures
            final(printer).wf(),
            final(printer).depth() == old(printer).depth(),
            final(printer).config() == old(printer).config(),
            final(printer).trivia() == old(printer).trivia(),
            old(printer).flushed() <= final(printer).flushed(),
            old(printer).doc().is_prefix_of(final(printer).doc()),
            self.prints(old(printer).trivia(), old(printer).progress(), final(printer).progress()),
    ;
}

impl<'a> PrettyPrint for &'a str {
    /// A text prints as itself: one text that always shows, and no trivia.
    open spec fn prints(&self, trivia: Seq<Trivia<'_>>, before: Progress, after: Progress) -> bool {
        after == (Progress {
            doc: before.doc.push(
                Item::Text { content: (*self)@, span: None, mode: TextMode::Always },
            ),
            flushed: before.flushed,
        })
    }

    fn pretty_print(&self, printer: &mut Printer<'_>) {
        printer.scan_text(*self);
    }
}

/// A scan with a space scanned behind it that shows while its group is not broken.
pub open spec fn spaced(progress: Progress) -> Progress {
    Progress {
        doc: progress.doc.push(Item::Text { content: " "@, span: None, mode: TextMode::NoBreak }),
        flushed: progress.flushed,
    }
}

/// What stands between the delimiters of a macro invocation, with the delimiters.
pub enum Macro<T> {
    Parenthesized { paren: Paren, inner: T },
    Braced { brace: Brace, inner: T },
    Bracketed { bracket: Bracket, inner: T },
}

impl<T> Macro<T> {
    /// The places of the invocation's delimiters.
    pub open spec fn place(&self) -> DelimSpan {
        match self {
            Macro::Parenthesized { paren, .. } => paren.span,
            Macro::Braced { brace, .. } => brace.span,
            Macro::Bracketed { bracket, .. } => bracket.span,
        }
    }

    /// The items with which the invocation starts: the opening delimiter and the start
    /// of a consistent group, and between braces a space that shows while the group is
    /// not broken.
    pub open spec fn head(&self) -> Seq<Item> {
        match self {
            Macro::Parenthesized { paren, .. } => seq![
                Item::Text { content: paren.opening(), span: None, mode: TextMode::Always },
                Item::Begin { breaking: BreakMode::Consistent },
            ],
            Macro::Braced { brace, .. } => seq![
                Item::Text { content: brace.opening(), span: None, mode: TextMode::Always },
                Item::Begin { breaking: BreakMode::Consistent },
                Item::Text { content: " "@, span: None, mode: TextMode::NoBreak },
            ],
            Macro::Bracketed { bracket, .. } => seq![
                Item::Text { content: bracket.opening(), span: None, mode: TextMode::Always },
                Item::Begin { breaking: BreakMode::Consistent },
            ],
        }
    }

    /// The text of the invocation's closing delimiter.
    pub open spec fn closing(&self) -> Seq<char> {
        match self {
            Macro::Parenthesized { paren, .. } => paren.closing(),
            Macro::Braced { brace, .. } => brace.closing(),
            Macro::Bracketed { bracket, .. } => bracket.closing(),
        }
    }
}

impl<T: PrettyPrint> PrettyPrint for Macro<T> {
    /// An invocation prints as a consistent group between its delimiters: the delimiters
    /// are entered, the content prints itself once, and the delimiters are left. Between
    /// braces a space that shows while the group is not broken stands in front of the
    /// content and behind it.
    open spec fn prints(&self, trivia: Seq<Trivia<'_>>, before: Progress, after: Progress) -> bool {
        match self {
            Macro::Parenthesized { paren, inner } => wrapped(
                paren.opening(),
                paren.closing(),
                paren.span,
                BreakMode::Consistent,
                inner,
                trivia,
                before,
                after,
            ),
            Macro::Braced { brace, inner } => exists|inside: Progress|
                #[trigger] inner.prints(
                    trivia,
                    spaced(
                        entered(brace.opening(), brace.span, BreakMode::Consistent, trivia, before),
                    ),
                    inside,
                ) && after == left(brace.closing(), brace.span, trivia, spaced(inside)),
            Macro::Bracketed { bracket, inner } => wrapped(
                bracket.opening(),
                bracket.closing(),
                bracket.span,
                BreakMode::Consistent,
                inner,
                trivia,
                before,
                after,
            ),
        }
    }

    fn pretty_print(&self, printer: &mut Printer<'_>)
        ensures
            (old(printer).doc() + spliced(
                old(printer).trivia(),
                old(printer).flushed() as int,
                flush_stop(
                    old(printer).trivia(),
                    old(printer).flushed() as int,
                    self.place().open,
                ),
            ) + self.head()).is_prefix_of(final(printer).doc()),
            final(printer).doc().len() >= 2,
            final(printer).doc()[final(printer).doc().len() - 2] == Item::End,
            final(printer).doc().last() == (Item::Text {
                content: self.closing(),
                span: None,
                mode: TextMode::Always,
            }),
    {
        match self {
            Self::Parenthesized { paren, inner } => {
                paren.pretty_print(printer, BreakMode::Consistent, inner);
            },
            Self::Braced { brace, inner } => {
                proof {
                    printer.lemma_wf();
                }
                let ghost trivia = printer.trivia();
                let ghost before = printer.progress();
                brace.enter(printer, BreakMode::Consistent);
                printer.scan_text_with_mode(" ", TextMode::NoBreak);
                let ghost opened = printer.progress();
                inner.pretty_print(printer);
                let ghost inside = printer.progress();
                printer.scan_text_with_mode(" ", TextMode::NoBreak);
                brace.leave(printer);
                proof {
                    let start = spaced(
                        entered(brace.opening(), brace.span, BreakMode::Consistent, trivia, before),
                    );
                    let whole = printer.doc();
                    assert(brace.place() == brace.span);
                    assert(opened == start);
                    assert(inner.prints(trivia, start, inside));
                    assert(printer.progress() == left(
                        brace.closing(),
                        brace.span,
                        trivia,
                        spaced(inside),
                    ));
                    assert forall|i: int| 0 <= i < opened.doc.len() implies opened.doc[i]
                        == whole[i] by {
                        assert(inside.doc.subrange(0, opened.doc.len() as int)[i] == inside.doc[i]);
                    }
                    assert(before.doc =~= whole.subrange(0, before.doc.len() as int));
                    let head = before.doc + spliced(
                        trivia,
                        before.flushed as int,
                        flush_stop(trivia, before.flushed as int, self.place().open),
                    ) + self.head();
                    assert(head =~= opened.doc);
                    assert(head =~= whole.subrange(0, head.len() as int));
                }
            },
            Self::Bracketed { bracket, inner } => {
                bracket.pretty_print(printer, BreakMode::Consistent, inner);
            },
        }
    }
}

/// An attribute as it stood in the source: the place of its `#`, the place of the `!`
/// behind it if it is an inner attribute, and the text between its brackets, brackets
/// included, where the source is at hand.
pub struct Attribute {
    pub pound: Span,
    pub not: Option<Span>,
    pub source_text: Option<String>,
}

impl Attribute {
    /// The items that the attribute prints: `#`, then `!` for an inner attribute, then
    /// the text in brackets where it is known; each a text that always shows.
    pub open spec fn items(&self) -> Seq<Item> {
        seq![Item::Text { content: "#"@, span: Some(self.pound), mode: TextMode::Always }] + (
        match self.not {
            Some(not) => seq![
                Item::Text { content: "!"@, span: Some(not), mode: TextMode::Always },
            ],
            None => Seq::empty(),
        }) + (match self.source_text {
            Some(text) => seq![Item::Text { content: text@, span: None, mode: TextMode::Always }],
            None => Seq::empty(),
        })
    }
}

impl PrettyPrint for Attribute {
    /// An attribute prints its items, and splices in no trivia.
    open spec fn prints(&self, trivia: Seq<Trivia<'_>>, before: Progress, after: Progress) -> bool {
        after == (Progress { doc: before.doc + self.items(), flushed: before.flushed })
    }

    fn pretty_print(&self, printer: &mut Printer<'_>) {
        printer.scan_text(Fragment::new("#".to_owned(), self.pound));
        if let Some(not) = self.not {
            printer.scan_text(Fragment::new("!".to_owned(), not));
        }
        if let Some(source_text) = &self.source_text {
            printer.scan_text(source_text.clone());
        }
        proof {
            let before = old(printer).doc();
            assert(printer.doc() =~= before + self.items());
            assert(before =~= printer.doc().subrange(0, before.len() as int));
        }
    }
}

} // verus!
