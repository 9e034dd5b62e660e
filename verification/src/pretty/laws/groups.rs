//! How the breaks of a group go together.

use crate::pretty::document::{
    break_need, flat_between, group_need, lemma_break_rest_between, lemma_group_rest_between,
    lemma_tail_depth_push, lemma_tail_depth_shift, lemma_tail_depth_split, tail_depth, BreakMode,
    Item,
};
use crate::pretty::layout::{break_fires, group_breaks, piece, state_at, step, Config, PrintFrame};
use vstd::prelude::*;

verus! {

/// Whether index `index` lies directly in the group that the `Begin` at `group` opens:
/// between the two, every group that starts also ends, and the group itself does not.
pub open spec fn directly_inside(doc: Seq<Item>, group: int, index: int) -> bool {
    &&& 0 <= group < index <= doc.len()
    &&& doc[group] is Begin
    &&& tail_depth(doc.take(index), group + 1, 0) == 0
}

/// The frame that the `Begin` at `group` pushes.
pub open spec fn frame_of(config: Config, doc: Seq<Item>, group: int) -> PrintFrame {
    let broken = group_breaks(
        state_at(config, doc, group as nat),
        doc[group]->breaking,
        group_need(doc, group),
    );
    PrintFrame { group_break: broken, content_break: broken }
}

/// While a group is open, its frame stays where its `Begin` put it, below one frame for
/// each group that is open inside it.
proof fn lemma_frames_inside(config: Config, doc: Seq<Item>, group: int, index: int)
    requires
        0 <= group < index <= doc.len(),
        doc[group] is Begin,
        tail_depth(doc.take(index), group + 1, 0) >= 0,
    ensures
        state_at(config, doc, index as nat).frames.len() == state_at(
            config,
            doc,
            group as nat,
        ).frames.len() + 1 + tail_depth(doc.take(index), group + 1, 0),
        state_at(config, doc, index as nat).frames[state_at(
            config,
            doc,
            group as nat,
        ).frames.len() as int] == frame_of(config, doc, group),
    decreases index - group,
{
    let outer = state_at(config, doc, group as nat);
    if index == group + 1 {
        assert(state_at(config, doc, index as nat) == step(config, doc, group, outer));
    } else {
        let before = index - 1;
        let state = state_at(config, doc, before as nat);
        assert(doc.take(index) =~= doc.take(before).push(doc[before]));
        lemma_tail_depth_push(doc.take(before), doc[before], group + 1, 0);
        lemma_frames_inside(config, doc, group, before);
        assert(state_at(config, doc, index as nat) == step(config, doc, before, state));
    }
}

/// Atomicity of a consistent group: once the group has chosen to break, every break
/// directly inside it fires.
pub proof fn lemma_consistent_group_breaks_together(
    config: Config,
    doc: Seq<Item>,
    group: int,
    index: int,
)
    requires
        directly_inside(doc, group, index),
        index < doc.len(),
        doc[index] is Break,
        doc[group] == (Item::Begin { breaking: BreakMode::Consistent }),
        group_need(doc, group) >= state_at(config, doc, group as nat).space,
    ensures
        break_fires(state_at(config, doc, index as nat), break_need(doc, index)),
        piece(config, doc, index, state_at(config, doc, index as nat)) == config.line_break(
            state_at(config, doc, index as nat).level(config),
        ),
{
    lemma_frames_inside(config, doc, group, index);
}

/// Independence in an inconsistent group: a break directly inside one fires exactly when
/// the room that it asks for is not left on the line, whatever the other breaks of the
/// group have done.
pub proof fn lemma_inconsistent_group_breaks_locally(
    config: Config,
    doc: Seq<Item>,
    group: int,
    index: int,
)
    requires
        directly_inside(doc, group, index),
        index < doc.len(),
        doc[index] is Break,
        doc[group] == (Item::Begin { breaking: BreakMode::Inconsistent }),
    ensures
        break_fires(state_at(config, doc, index as nat), break_need(doc, index)) <==> break_need(
            doc,
            index,
        ) >= state_at(config, doc, index as nat).space,
{
    lemma_frames_inside(config, doc, group, index);
}

/// Whether the frames from position `base` up are all unbroken.
pub open spec fn unbroken_above(frames: Seq<PrintFrame>, base: int) -> bool {
    forall|k: int|
        base <= k < frames.len() ==> !(#[trigger] frames[k]).group_break
            && !frames[k].content_break
}

/// A group that lies directly or deeper in a group closed at `end` is closed there too.
proof fn lemma_closed_inside(doc: Seq<Item>, group: int, end: int, inner: int)
    requires
        0 <= group < inner < end < doc.len(),
        doc[end] is End,
        doc[inner] is Begin,
        tail_depth(doc.take(end), group + 1, 0) == 0,
        tail_depth(doc.take(inner), group + 1, 0) >= 0,
    ensures
        tail_depth(doc.take(end + 1), inner + 1, 0) < 0,
{
    let cut = doc.take(end + 1);
    assert(cut =~= doc.take(end).push(doc[end]));
    lemma_tail_depth_push(doc.take(end), doc[end], group + 1, 0);
    assert(tail_depth(cut, group + 1, 0) == -1);
    assert(cut.take(inner) =~= doc.take(inner));
    lemma_tail_depth_split(cut, group + 1, inner, 0);
    let arriving = tail_depth(doc.take(inner), group + 1, 0);
    assert(cut[inner] == doc[inner]);
    assert(tail_depth(cut, inner, arriving) == tail_depth(cut, inner + 1, arriving + 1));
    if tail_depth(cut, inner + 1, 0) >= 0 {
        lemma_tail_depth_shift(cut, inner + 1, 0, (arriving + 1) as nat);
    }
}

/// A scan that has not closed its group by some index has not closed it before.
proof fn lemma_open_before(doc: Seq<Item>, group: int, earlier: int, later: int)
    requires
        0 <= group < earlier <= later <= doc.len(),
        tail_depth(doc.take(later), group + 1, 0) >= 0,
    ensures
        tail_depth(doc.take(earlier), group + 1, 0) >= 0,
    decreases later - earlier,
{
    if earlier < later {
        assert(doc.take(later) =~= doc.take(later - 1).push(doc[later - 1]));
        lemma_tail_depth_push(doc.take(later - 1), doc[later - 1], group + 1, 0);
        lemma_open_before(doc, group, earlier, later - 1);
    }
}

/// Inside a group that fits on the line with all its separators, nothing breaks: the
/// frames above the group's surroundings stay unbroken, and the room left stays greater
/// than what the rest of the group takes.
proof fn lemma_fits_inside(config: Config, doc: Seq<Item>, group: int, end: int, index: int)
    requires
        0 <= group < index <= end < doc.len(),
        doc[group] is Begin,
        doc[end] is End,
        tail_depth(doc.take(end), group + 1, 0) == 0,
        flat_between(doc, group + 1, end) < state_at(config, doc, group as nat).space,
    ensures
        tail_depth(doc.take(index), group + 1, 0) >= 0,
        state_at(config, doc, index as nat).frames.len() == state_at(
            config,
            doc,
            group as nat,
        ).frames.len() + 1 + tail_depth(doc.take(index), group + 1, 0),
        unbroken_above(
            state_at(config, doc, index as nat).frames,
            state_at(config, doc, group as nat).frames.len() as int,
        ),
        state_at(config, doc, index as nat).space > flat_between(doc, index, end),
    decreases index - group,
{
    let outer = state_at(config, doc, group as nat);
    let base = outer.frames.len() as int;
    lemma_open_before(doc, group, index, end);
    if index == group + 1 {
        assert(doc.take(end + 1) =~= doc.take(end).push(doc[end]));
        lemma_tail_depth_push(doc.take(end), doc[end], group + 1, 0);
        lemma_group_rest_between(doc, group + 1, 0, end);
        assert(state_at(config, doc, index as nat) == step(config, doc, group, outer));
    } else {
        let before = index - 1;
        let state = state_at(config, doc, before as nat);
        lemma_fits_inside(config, doc, group, end, before);
        assert(doc.take(index) =~= doc.take(before).push(doc[before]));
        lemma_tail_depth_push(doc.take(before), doc[before], group + 1, 0);
        let after = state_at(config, doc, index as nat);
        assert(after == step(config, doc, before, state));
        assert(!state.content_break());
        match doc[before] {
            Item::Break { .. } => {
                lemma_break_rest_between(doc, before + 1, end);
            },
            Item::Begin { .. } => {
                lemma_closed_inside(doc, group, end, before);
                lemma_group_rest_between(doc, before + 1, 0, end);
            },
            _ => {},
        }
        assert(unbroken_above(after.frames, base));
    }
}

/// A consistent group stays together: where the group fits on what is left of the line,
/// its separators counted too, no break directly inside it fires.
pub proof fn lemma_consistent_group_stays_together(
    config: Config,
    doc: Seq<Item>,
    group: int,
    end: int,
    index: int,
)
    requires
        directly_inside(doc, group, index),
        directly_inside(doc, group, end),
        index < end < doc.len(),
        doc[index] is Break,
        doc[end] is End,
        flat_between(doc, group + 1, end) < state_at(config, doc, group as nat).space,
    ensures
        !break_fires(state_at(config, doc, index as nat), break_need(doc, index)),
{
    lemma_fits_inside(config, doc, group, end, index);
    lemma_break_rest_between(doc, index + 1, end);
    let state = state_at(config, doc, index as nat);
    assert(!state.content_break());
}

/// Atomicity of a consistent group: of two breaks directly inside the group, both fire
/// or neither does, where the group has chosen to break or fits on what is left of the
/// line with its separators counted.
pub proof fn lemma_consistent_group_atomic(
    config: Config,
    doc: Seq<Item>,
    group: int,
    end: int,
    first: int,
    second: int,
)
    requires
        doc[group] == (Item::Begin { breaking: BreakMode::Consistent }),
        directly_inside(doc, group, end),
        end < doc.len(),
        doc[end] is End,
        directly_inside(doc, group, first),
        directly_inside(doc, group, second),
        first < end,
        second < end,
        doc[first] is Break,
        doc[second] is Break,
        group_need(doc, group) >= state_at(config, doc, group as nat).space || flat_between(
            doc,
            group + 1,
            end,
        ) < state_at(config, doc, group as nat).space,
    ensures
        break_fires(state_at(config, doc, first as nat), break_need(doc, first)) == break_fires(
            state_at(config, doc, second as nat),
            break_need(doc, second),
        ),
{
    if group_need(doc, group) >= state_at(config, doc, group as nat).space {
        lemma_consistent_group_breaks_together(config, doc, group, first);
        lemma_consistent_group_breaks_together(config, doc, group, second);
    } else {
        lemma_consistent_group_stays_together(config, doc, group, end, first);
        lemma_consistent_group_stays_together(config, doc, group, end, second);
    }
}

} // verus!
