//! Rendering changes white space only.

use crate::pretty::document::{Item, TextMode};
use crate::pretty::layout::{piece, printed, render, shows, state_at, Config};
use vstd::prelude::*;

verus! {

/// Whether a character is white space.
pub open spec fn is_blank(c: char) -> bool {
    c == ' ' || c == '\n' || c == '\t' || c == '\r'
}

/// Whether a text holds white space only.
pub open spec fn blank(text: Seq<char>) -> bool {
    forall|i: int| 0 <= i < text.len() ==> is_blank(#[trigger] text[i])
}

/// A text without its white space.
pub open spec fn skeleton(text: Seq<char>) -> Seq<char>
    decreases text.len(),
{
    if text.len() == 0 {
        Seq::empty()
    } else if is_blank(text.last()) {
        skeleton(text.drop_last())
    } else {
        skeleton(text.drop_last()).push(text.last())
    }
}

/// The skeleton of two texts joined is the two skeletons joined.
pub proof fn lemma_skeleton_concat(front: Seq<char>, back: Seq<char>)
    ensures
        skeleton(front + back) == skeleton(front) + skeleton(back),
    decreases back.len(),
{
    if back.len() == 0 {
        assert(front + back =~= front);
        assert(skeleton(front) + skeleton(back) =~= skeleton(front));
    } else {
        lemma_skeleton_concat(front, back.drop_last());
        assert((front + back).drop_last() =~= front + back.drop_last());
        assert((front + back).last() == back.last());
        assert(skeleton(front + back) =~= skeleton(front) + skeleton(back));
    }
}

/// White space has an empty skeleton.
pub proof fn lemma_skeleton_blank(text: Seq<char>)
    requires
        blank(text),
    ensures
        skeleton(text) == Seq::<char>::empty(),
    decreases text.len(),
{
    if text.len() > 0 {
        assert(is_blank(text[text.len() - 1]));
        assert forall|i: int| 0 <= i < text.drop_last().len() implies is_blank(
            #[trigger] text.drop_last()[i],
        ) by {
            assert(text.drop_last()[i] == text[i]);
        }
        lemma_skeleton_blank(text.drop_last());
    }
}

/// A hard line break is white space.
proof fn lemma_line_break_is_blank(config: Config, level: nat)
    ensures
        blank(config.line_break(level)),
{
    let line = config.line_break(level);
    assert forall|i: int| 0 <= i < line.len() implies is_blank(#[trigger] line[i]) by {
        if i > 0 {
            assert(line[i] == config.indentation(level)[i - 1]);
        }
    }
}

/// What an item holds that is not layout: the content of a text or of a piece of trivia.
pub open spec fn substance_of(item: Item) -> Seq<char> {
    match item {
        Item::Text { content, .. } => content,
        Item::Trivia { content } => content,
        _ => Seq::empty(),
    }
}

/// The contents of the texts and trivia among the first `count` items, joined.
pub open spec fn substance(doc: Seq<Item>, count: nat) -> Seq<char>
    decreases count,
{
    if count == 0 {
        Seq::empty()
    } else {
        substance(doc, (count - 1) as nat) + substance_of(doc[count - 1])
    }
}

/// Whether only white space depends on the layout: every separator is white space, and
/// so is every text that does not always show.
pub open spec fn layout_is_blank(doc: Seq<Item>) -> bool {
    forall|i: int|
        0 <= i < doc.len() ==> match #[trigger] doc[i] {
            Item::Text { content, mode, .. } => mode != TextMode::Always ==> blank(content),
            Item::Break { content } => blank(content),
            _ => true,
        }
}

/// The rendering of the first `count` items has the skeleton of their substance.
proof fn lemma_skeleton_prefix(config: Config, doc: Seq<Item>, count: nat)
    requires
        layout_is_blank(doc),
        count <= doc.len(),
    ensures
        skeleton(printed(config, doc, count)) == skeleton(substance(doc, count)),
    decreases count,
{
    if count > 0 {
        let index = count - 1;
        lemma_skeleton_prefix(config, doc, index as nat);
        let state = state_at(config, doc, index as nat);
        let part = piece(config, doc, index, state);
        let core = substance_of(doc[index]);
        lemma_skeleton_concat(printed(config, doc, index as nat), part);
        lemma_skeleton_concat(substance(doc, index as nat), core);
        assert(skeleton(part) == skeleton(core)) by {
            lemma_line_break_is_blank(config, state.level(config));
            lemma_line_break_is_blank(config, state.level(config) + 1);
            lemma_line_break_is_blank(config, (state.level(config) - 1) as nat);
            lemma_skeleton_blank(Seq::<char>::empty());
            if blank(part) {
                lemma_skeleton_blank(part);
            }
            if blank(core) {
                lemma_skeleton_blank(core);
            }
        }
    }
}

/// Rendering adds and takes away white space only: where the separators, and the texts
/// that do not always show, are white space, the rendered text without its white space is
/// the contents of the document's texts and trivia, in their order, without theirs.
pub proof fn lemma_rendering_keeps_substance(config: Config, doc: Seq<Item>)
    requires
        layout_is_blank(doc),
    ensures
        skeleton(render(config, doc)) == skeleton(substance(doc, doc.len())),
{
    lemma_skeleton_prefix(config, doc, doc.len());
}

/// What the item at `index` puts out that is not layout: the content of a text that
/// shows where it stands, or of a piece of trivia.
pub open spec fn shown_of(config: Config, doc: Seq<Item>, index: int) -> Seq<char> {
    match doc[index] {
        Item::Text { content, mode, .. } => {
            if shows(mode, state_at(config, doc, index as nat).content_break()) {
                content
            } else {
                Seq::empty()
            }
        },
        Item::Trivia { content } => content,
        _ => Seq::empty(),
    }
}

/// The contents of the texts that show, and of the trivia, among the first `count`
/// items, joined.
pub open spec fn shown(config: Config, doc: Seq<Item>, count: nat) -> Seq<char>
    decreases count,
{
    if count == 0 {
        Seq::empty()
    } else {
        shown(config, doc, (count - 1) as nat) + shown_of(config, doc, count - 1)
    }
}

/// Whether every separator of the document is white space.
pub open spec fn separators_are_blank(doc: Seq<Item>) -> bool {
    forall|i: int|
        0 <= i < doc.len() ==> match #[trigger] doc[i] {
            Item::Break { content } => blank(content),
            _ => true,
        }
}

/// The rendering of the first `count` items has the skeleton of the texts that show
/// among them.
proof fn lemma_shown_prefix(config: Config, doc: Seq<Item>, count: nat)
    requires
        separators_are_blank(doc),
        count <= doc.len(),
    ensures
        skeleton(printed(config, doc, count)) == skeleton(shown(config, doc, count)),
    decreases count,
{
    if count > 0 {
        let index = count - 1;
        lemma_shown_prefix(config, doc, index as nat);
        let state = state_at(config, doc, index as nat);
        let part = piece(config, doc, index, state);
        let core = shown_of(config, doc, index);
        lemma_skeleton_concat(printed(config, doc, index as nat), part);
        lemma_skeleton_concat(shown(config, doc, index as nat), core);
        assert(skeleton(part) == skeleton(core)) by {
            lemma_line_break_is_blank(config, state.level(config));
            lemma_line_break_is_blank(config, state.level(config) + 1);
            lemma_line_break_is_blank(config, (state.level(config) - 1) as nat);
            lemma_skeleton_blank(Seq::<char>::empty());
            if blank(part) {
                lemma_skeleton_blank(part);
            }
        }
    }
}

/// Rendering adds and takes away white space only, whatever the texts are: where the
/// separators are white space, the rendered text without its white space is the
/// contents of the texts that show, and of the trivia, in their order, without theirs.
pub proof fn lemma_rendering_keeps_shown_texts(config: Config, doc: Seq<Item>)
    requires
        separators_are_blank(doc),
    ensures
        skeleton(render(config, doc)) == skeleton(shown(config, doc, doc.len())),
{
    lemma_shown_prefix(config, doc, doc.len());
}

} // verus!
