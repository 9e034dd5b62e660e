//! When no line is wider than the line width.

use crate::pretty::document::{
    break_rest, group_need, lemma_tail_depth_push, open_groups, width, Item,
};
use crate::pretty::layout::{group_breaks, piece, printed, render, shows, state_at, step, Config};
use crate::pretty::lines::{
    lemma_config_line_break, lemma_tail_concat, lemma_widest_concat, line_tail, widest_line,
};
use vstd::prelude::*;

verus! {

/// What the accounting of the line asks of the document at position `at`, where `at`
/// may be the position behind the last item: the indentation there leaves the line its
/// minimum room, and the item there is no trivia.
pub open spec fn indented_at(config: Config, doc: Seq<Item>, at: int) -> bool {
    let state = state_at(config, doc, at as nat);
    &&& state.level(config) * config.indent_width + config.min_width <= config.max_line_width
    &&& at < doc.len() ==> !(doc[at] is Trivia)
}

/// Whether the document holds no trivia and indentation leaves every line its minimum
/// room.
pub open spec fn indented(config: Config, doc: Seq<Item>) -> bool {
    forall|at: int| 0 <= at <= doc.len() ==> #[trigger] indented_at(config, doc, at)
}

/// Whether the item at `index` is a text that shows and is wider than the room that is
/// left for it on its line.
pub open spec fn runs_over(config: Config, doc: Seq<Item>, index: int) -> bool {
    let state = state_at(config, doc, index as nat);
    doc[index] matches Item::Text { content, mode, .. } && shows(mode, state.content_break())
        && width(content) > state.space
}

/// The steps that the laws of this module go by: what one item does to the output, and
/// what a line break of the level behind the item does to the lines.
proof fn lemma_step_facts(config: Config, doc: Seq<Item>, count: nat)
    requires
        0 < count <= doc.len(),
    ensures
        state_at(config, doc, count) == step(
            config,
            doc,
            count - 1,
            state_at(config, doc, (count - 1) as nat),
        ),
        printed(config, doc, count) == printed(config, doc, (count - 1) as nat) + piece(
            config,
            doc,
            count - 1,
            state_at(config, doc, (count - 1) as nat),
        ),
        state_at(config, doc, count).level(config) * config.indent_width >= 0,
        state_at(config, doc, (count - 1) as nat).level(config) * config.indent_width >= 0,
{
    let after = state_at(config, doc, count);
    let state = state_at(config, doc, (count - 1) as nat);
    assert(after.level(config) * config.indent_width >= 0) by (nonlinear_arith)
        requires
            after.level(config) >= 0,
            config.indent_width >= 0,
    ;
    assert(state.level(config) * config.indent_width >= 0) by (nonlinear_arith)
        requires
            state.level(config) >= 0,
            config.indent_width >= 0,
    ;
}

/// The room left accounts for the line: in a document without trivia, where indentation
/// leaves every line its minimum room, the width of the line so far and the room left on
/// it are together no more than the line width, behind every item. So a line is wider
/// than the line width only while the room left on it is below zero.
pub proof fn lemma_room_accounts_for_line(config: Config, doc: Seq<Item>, count: nat)
    requires
        indented(config, doc),
        count <= doc.len(),
    ensures
        line_tail(printed(config, doc, count)) + state_at(config, doc, count).space
            <= config.max_line_width,
    decreases count,
{
    assert(indented_at(config, doc, count as int));
    let after = state_at(config, doc, count);
    if count > 0 {
        let index = count - 1;
        lemma_room_accounts_for_line(config, doc, index as nat);
        lemma_step_facts(config, doc, count);
        assert(indented_at(config, doc, index));
        let state = state_at(config, doc, index as nat);
        let out = printed(config, doc, index as nat);
        let part = piece(config, doc, index, state);
        lemma_tail_concat(out, part);
        lemma_config_line_break(config, out, after.level(config));
        match doc[index] {
            Item::Text { content, mode, .. } => {
                if !shows(mode, state.content_break()) {
                    assert(out + part =~= out);
                }
            },
            Item::Break { content } => {},
            Item::Begin { breaking } => {
                if !group_breaks(state, breaking, group_need(doc, index)) {
                    assert(out + part =~= out);
                }
            },
            Item::End => {
                if !(state.frames.len() > 0 && state.frames.last().group_break) {
                    assert(out + part =~= out);
                }
            },
            Item::Trivia { .. } => {},
        }
    } else {
        assert(after.level(config) * config.indent_width >= 0) by (nonlinear_arith)
            requires
                after.level(config) >= 0,
                config.indent_width >= 0,
        ;
    }
}

/// The room left on a line falls below zero by one thing only: by a text that shows and
/// is wider than the room that was left for it. No separator does it, and behind every
/// hard line break there is room again.
pub proof fn lemma_only_long_text_runs_over(config: Config, doc: Seq<Item>, index: int)
    requires
        0 <= index < doc.len(),
        state_at(config, doc, index as nat).space >= 0,
        state_at(config, doc, (index + 1) as nat).space < 0,
    ensures
        runs_over(config, doc, index),
{
    lemma_step_facts(config, doc, (index + 1) as nat);
}

/// The width bound: in a document without trivia, where indentation leaves every line
/// its minimum room, no line put out by the first `count` items is wider than the line
/// width, unless one of those items is a text that is wider than the room left for it.
pub proof fn lemma_lines_within_width(config: Config, doc: Seq<Item>, count: nat)
    requires
        indented(config, doc),
        count <= doc.len(),
        forall|index: int| 0 <= index < count ==> !#[trigger] runs_over(config, doc, index),
    ensures
        state_at(config, doc, count).space >= 0,
        widest_line(printed(config, doc, count)) <= config.max_line_width,
    decreases count,
{
    assert(indented_at(config, doc, count as int));
    let after = state_at(config, doc, count);
    if count > 0 {
        let index = count - 1;
        lemma_lines_within_width(config, doc, index as nat);
        lemma_room_accounts_for_line(config, doc, index as nat);
        lemma_step_facts(config, doc, count);
        assert(indented_at(config, doc, index));
        assert(!runs_over(config, doc, index));
        let state = state_at(config, doc, index as nat);
        let out = printed(config, doc, index as nat);
        let part = piece(config, doc, index, state);
        lemma_widest_concat(out, part);
        lemma_config_line_break(config, out, after.level(config));
        match doc[index] {
            Item::Text { content, mode, .. } => {
                if !shows(mode, state.content_break()) {
                    assert(out + part =~= out);
                }
            },
            Item::Break { content } => {},
            Item::Begin { breaking } => {
                if !group_breaks(state, breaking, group_need(doc, index)) {
                    assert(out + part =~= out);
                }
            },
            Item::End => {
                if !(state.frames.len() > 0 && state.frames.last().group_break) {
                    assert(out + part =~= out);
                }
            },
            Item::Trivia { .. } => {},
        }
    }
}

/// The width bound for the whole rendering: in a document without trivia, where
/// indentation leaves every line its minimum room, no line of the rendered text is
/// wider than the line width, unless the document holds a text that is wider than the
/// room left for it.
pub proof fn lemma_width_bound_unless_over(config: Config, doc: Seq<Item>)
    requires
        indented(config, doc),
        forall|index: int| 0 <= index < doc.len() ==> !#[trigger] runs_over(config, doc, index),
    ensures
        widest_line(render(config, doc)) <= config.max_line_width,
{
    lemma_lines_within_width(config, doc, doc.len());
}

/// How far the room left has been below zero behind any of the first `count` items, at
/// most: zero while no text has been wider than the room left for it.
pub open spec fn overrun(config: Config, doc: Seq<Item>, count: nat) -> int
    decreases count,
{
    if count == 0 {
        0
    } else if -state_at(config, doc, count).space > overrun(config, doc, (count - 1) as nat) {
        -state_at(config, doc, count).space
    } else {
        overrun(config, doc, (count - 1) as nat)
    }
}

/// The width bound with its exception: in a document without trivia, where indentation
/// leaves every line its minimum room, no line put out by the first `count` items is
/// wider than the line width by more than the room left has been below zero. Texts that
/// are wider than the room left for them run over by what they lack, and nothing else
/// makes a line wider than the line width.
pub proof fn lemma_lines_within_overrun(config: Config, doc: Seq<Item>, count: nat)
    requires
        indented(config, doc),
        count <= doc.len(),
    ensures
        overrun(config, doc, count) >= 0,
        widest_line(printed(config, doc, count)) <= config.max_line_width + overrun(
            config,
            doc,
            count,
        ),
    decreases count,
{
    assert(indented_at(config, doc, count as int));
    let after = state_at(config, doc, count);
    if count > 0 {
        let index = count - 1;
        lemma_lines_within_overrun(config, doc, index as nat);
        lemma_room_accounts_for_line(config, doc, index as nat);
        lemma_step_facts(config, doc, count);
        assert(indented_at(config, doc, index));
        let state = state_at(config, doc, index as nat);
        let out = printed(config, doc, index as nat);
        let part = piece(config, doc, index, state);
        lemma_widest_concat(out, part);
        lemma_config_line_break(config, out, after.level(config));
        match doc[index] {
            Item::Text { content, mode, .. } => {
                if !shows(mode, state.content_break()) {
                    assert(out + part =~= out);
                }
            },
            Item::Break { content } => {},
            Item::Begin { breaking } => {
                if !group_breaks(state, breaking, group_need(doc, index)) {
                    assert(out + part =~= out);
                }
            },
            Item::End => {
                if !(state.frames.len() > 0 && state.frames.last().group_break) {
                    assert(out + part =~= out);
                }
            },
            Item::Trivia { .. } => {},
        }
    }
}

/// What keeps every text within the room left for it, at position `at`, where `at` may
/// be the position behind the last item:
/// the indentation there leaves the line its minimum room;
/// the texts from there up to the next `Break` or `End` fit on a line of their own;
/// the item there is no trivia;
/// and if it is the `End` of a group that did not break, no text stands between it and
/// the next `Break` or `End`.
pub open spec fn covered_at(config: Config, doc: Seq<Item>, at: int) -> bool {
    let state = state_at(config, doc, at as nat);
    let indent = state.level(config) * config.indent_width;
    &&& indent + config.min_width <= config.max_line_width
    &&& break_rest(doc, at) + indent <= config.max_line_width
    &&& at < doc.len() ==> !(doc[at] is Trivia)
    &&& at < doc.len() && doc[at] is End && !(state.frames.len() > 0
        && state.frames.last().group_break) ==> break_rest(doc, at + 1) == 0
}

/// Whether those conditions hold at every position of the document.
pub open spec fn covered(config: Config, doc: Seq<Item>) -> bool {
    forall|at: int| 0 <= at <= doc.len() ==> #[trigger] covered_at(config, doc, at)
}

/// In a covered document, what follows up to the next break fits in the room left.
proof fn lemma_runs_fit(config: Config, doc: Seq<Item>, count: nat)
    requires
        covered(config, doc),
        count <= doc.len(),
    ensures
        state_at(config, doc, count).space >= break_rest(doc, count as int),
    decreases count,
{
    assert(covered_at(config, doc, count as int));
    let after = state_at(config, doc, count);
    assert(after.level(config) * config.indent_width >= 0) by (nonlinear_arith)
        requires
            after.level(config) >= 0,
            config.indent_width >= 0,
    ;
    if count > 0 {
        let index = count - 1;
        lemma_runs_fit(config, doc, index as nat);
        lemma_step_facts(config, doc, count);
        assert(covered_at(config, doc, index));
        assert(config.line_space(after.level(config)) == config.max_line_width - after.level(
            config,
        ) * config.indent_width);
    }
}

/// The width bound, told without the room left: in a document without trivia, where
/// indentation leaves every line its minimum room, every run of texts between two
/// breaks fits on a line of its own, and no text stands directly behind a group that
/// did not break, no text is wider than the room left for it, and no line of the
/// rendered text is wider than the line width.
pub proof fn lemma_width_bound(config: Config, doc: Seq<Item>)
    requires
        covered(config, doc),
    ensures
        indented(config, doc),
        forall|index: int| 0 <= index < doc.len() ==> !#[trigger] runs_over(config, doc, index),
        widest_line(render(config, doc)) <= config.max_line_width,
{
    assert forall|at: int| 0 <= at <= doc.len() implies #[trigger] indented_at(config, doc, at) by {
        assert(covered_at(config, doc, at));
    }
    assert forall|index: int| 0 <= index < doc.len() implies !#[trigger] runs_over(
        config,
        doc,
        index,
    ) by {
        lemma_runs_fit(config, doc, index as nat);
    }
    lemma_width_bound_unless_over(config, doc);
}

/// In front of every position of a document in which no `End` lacks its group, the
/// rendering holds one frame for each group that is open there.
pub proof fn lemma_frames_count_groups(config: Config, doc: Seq<Item>, at: nat)
    requires
        at <= doc.len(),
        open_groups(doc.take(at as int)) >= 0,
    ensures
        state_at(config, doc, at).frames.len() == open_groups(doc.take(at as int)),
    decreases at,
{
    if at > 0 {
        let before = at - 1;
        assert(doc.take(at as int) =~= doc.take(before).push(doc[before]));
        lemma_tail_depth_push(doc.take(before), doc[before], 0, 0);
        lemma_frames_count_groups(config, doc, before as nat);
        assert(state_at(config, doc, at) == step(
            config,
            doc,
            before,
            state_at(config, doc, before as nat),
        ));
    }
}

/// What the width bound asks of the document at position `at`, told from the document
/// alone: no `End` in front of `at` lacks its group;
/// the indentation of the groups that are open at `at` leaves the line its minimum room;
/// the texts from `at` up to the next `Break` or `End` fit on a line of their own;
/// the item at `at` is no trivia;
/// and if it is an `End`, no text stands between it and the next `Break` or `End`.
pub open spec fn plainly_covered_at(config: Config, doc: Seq<Item>, at: int) -> bool {
    let level = config.initial_indent + open_groups(doc.take(at));
    let indent = level * config.indent_width;
    &&& open_groups(doc.take(at)) >= 0
    &&& indent + config.min_width <= config.max_line_width
    &&& break_rest(doc, at) + indent <= config.max_line_width
    &&& at < doc.len() ==> !(doc[at] is Trivia)
    &&& at < doc.len() && doc[at] is End ==> break_rest(doc, at + 1) == 0
}

/// The width bound, told from the document alone: in a document without trivia, where
/// indentation leaves every line its minimum room, every run of texts between two
/// breaks fits on a line of its own, and no text stands directly behind the end of a
/// group, no line of the rendered text is wider than the line width.
pub proof fn lemma_width_bound_by_structure(config: Config, doc: Seq<Item>)
    requires
        forall|at: int| 0 <= at <= doc.len() ==> #[trigger] plainly_covered_at(config, doc, at),
    ensures
        covered(config, doc),
        widest_line(render(config, doc)) <= config.max_line_width,
{
    assert forall|at: int| 0 <= at <= doc.len() implies #[trigger] covered_at(config, doc, at) by {
        assert(plainly_covered_at(config, doc, at));
        lemma_frames_count_groups(config, doc, at as nat);
    }
    lemma_width_bound(config, doc);
}

/// What the accounting of the line asks of the document at position `at`, told from the
/// document alone: no `End` in front of `at` lacks its group, the indentation of the
/// groups that are open at `at` leaves the line its minimum room, and the item at `at`
/// is no trivia.
pub open spec fn plainly_indented_at(config: Config, doc: Seq<Item>, at: int) -> bool {
    let level = config.initial_indent + open_groups(doc.take(at));
    &&& open_groups(doc.take(at)) >= 0
    &&& level * config.indent_width + config.min_width <= config.max_line_width
    &&& at < doc.len() ==> !(doc[at] is Trivia)
}

/// A document that is well nested, holds no trivia and is nowhere so deep that its
/// indentation takes from the minimum room is indented as the accounting of the line
/// asks.
pub proof fn lemma_indented_by_structure(config: Config, doc: Seq<Item>)
    requires
        forall|at: int| 0 <= at <= doc.len() ==> #[trigger] plainly_indented_at(config, doc, at),
    ensures
        indented(config, doc),
{
    assert forall|at: int| 0 <= at <= doc.len() implies #[trigger] indented_at(config, doc, at) by {
        assert(plainly_indented_at(config, doc, at));
        lemma_frames_count_groups(config, doc, at as nat);
    }
}

} // verus!
