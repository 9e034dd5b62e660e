//! The widths of the lines of a text.

use crate::pretty::document::{lemma_width_ascii, lemma_width_concat, width};
use crate::pretty::layout::{spaces, Config};
use vstd::prelude::*;

verus! {

/// The width of the last line of a text: of what stands behind its last newline.
pub open spec fn line_tail(text: Seq<char>) -> nat
    decreases text.len(),
{
    if text.len() == 0 || text.last() == '\n' {
        0
    } else {
        line_tail(text.drop_last()) + width(seq![text.last()])
    }
}

/// The width of the widest line of a text.
pub open spec fn widest_line(text: Seq<char>) -> nat
    decreases text.len(),
{
    if text.len() == 0 {
        0
    } else if widest_line(text.drop_last()) >= line_tail(text) {
        widest_line(text.drop_last())
    } else {
        line_tail(text)
    }
}

/// The width of a text is the width of all but its last character and the width of that.
pub proof fn lemma_width_last(text: Seq<char>)
    requires
        text.len() > 0,
    ensures
        width(text) == width(text.drop_last()) + width(seq![text.last()]),
{
    assert(text =~= text.drop_last() + seq![text.last()]);
    lemma_width_concat(text.drop_last(), seq![text.last()]);
}

/// Text added to a line makes the line wider by its width at most.
pub proof fn lemma_tail_concat(front: Seq<char>, back: Seq<char>)
    ensures
        line_tail(front + back) <= line_tail(front) + width(back),
    decreases back.len(),
{
    if back.len() == 0 {
        assert(front + back =~= front);
    } else {
        assert((front + back).drop_last() =~= front + back.drop_last());
        assert((front + back).last() == back.last());
        lemma_tail_concat(front, back.drop_last());
        lemma_width_last(back);
    }
}

/// Text added to a text makes no line wider than the last line was and the added text is
/// together, unless a line was wider before.
pub proof fn lemma_widest_concat(front: Seq<char>, back: Seq<char>)
    ensures
        widest_line(front + back) <= widest_line(front) || widest_line(front + back) <= line_tail(
            front,
        ) + width(back),
    decreases back.len(),
{
    if back.len() == 0 {
        assert(front + back =~= front);
    } else {
        assert((front + back).drop_last() =~= front + back.drop_last());
        lemma_widest_concat(front, back.drop_last());
        lemma_tail_concat(front, back);
        lemma_width_last(back);
    }
}

/// Behind a hard line break the last line is the indentation, and no line is wider than
/// before unless the indentation is.
pub proof fn lemma_line_break(front: Seq<char>, count: nat)
    ensures
        line_tail(front + (seq!['\n'] + spaces(count))) == count,
        widest_line(front + (seq!['\n'] + spaces(count))) <= widest_line(front)
            || widest_line(front + (seq!['\n'] + spaces(count))) <= count,
    decreases count,
{
    let whole = front + (seq!['\n'] + spaces(count));
    if count == 0 {
        assert(whole =~= front.push('\n'));
        assert(whole.drop_last() =~= front);
    } else {
        let shorter = front + (seq!['\n'] + spaces((count - 1) as nat));
        lemma_line_break(front, (count - 1) as nat);
        assert(whole.drop_last() =~= shorter);
        assert(whole.last() == ' ');
        lemma_width_ascii(' ');
    }
}

/// The line break of a configuration, joined to a text.
pub proof fn lemma_config_line_break(config: Config, front: Seq<char>, level: nat)
    ensures
        line_tail(front + config.line_break(level)) == level * config.indent_width,
        widest_line(front + config.line_break(level)) <= widest_line(front) || widest_line(
            front + config.line_break(level),
        ) <= level * config.indent_width,
{
    assert(level * config.indent_width >= 0) by (nonlinear_arith)
        requires
            level >= 0,
            config.indent_width >= 0,
    ;
    lemma_line_break(front, (level * config.indent_width) as nat);
}

} // verus!
