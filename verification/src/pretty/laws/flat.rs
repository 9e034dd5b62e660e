//! A document that fits on one line is rendered on one line.

use crate::pretty::document::{
    flat_rest, lemma_break_rest_bound, lemma_group_rest_bound, total_width, Item,
};
use crate::pretty::layout::{flat, printed, render, state_at, step, unbroken, Config};
use vstd::prelude::*;

verus! {

/// While everything that is left of the document fits on the line, nothing breaks.
proof fn lemma_flat_prefix(config: Config, doc: Seq<Item>, count: nat)
    requires
        total_width(doc) < config.initial_space(),
        count <= doc.len(),
    ensures
        unbroken(state_at(config, doc, count).frames),
        state_at(config, doc, count).space > flat_rest(doc, count as int),
        printed(config, doc, count) == flat(doc, count),
    decreases count,
{
    if count > 0 {
        let index = count - 1;
        lemma_flat_prefix(config, doc, index as nat);
        let state = state_at(config, doc, index as nat);
        lemma_break_rest_bound(doc, index + 1);
        lemma_group_rest_bound(doc, index + 1, 0);
        assert(!state.content_break());
        assert(state_at(config, doc, count) == step(config, doc, index, state));
        assert(unbroken(state_at(config, doc, count).frames));
    }
}

/// A document whose texts and separators together are narrower than the line width
/// renders on one line: every text that shows outside a broken group stands in the
/// output, every break stands as its separator, and nothing else is put out.
pub proof fn lemma_flat_rendering(config: Config, doc: Seq<Item>)
    requires
        total_width(doc) < config.max_line_width,
    ensures
        render(config, doc) == flat(doc, doc.len()),
{
    lemma_flat_prefix(config, doc, doc.len());
}

} // verus!
