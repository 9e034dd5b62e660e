//! Trivia keep their text and their order.

use crate::pretty::document::{trivia_of, Item};
use crate::pretty::layout::{piece, printed, render, state_at, Config};
use vstd::prelude::*;

verus! {

/// What has been put out stays: the output of fewer items begins the output of more.
pub proof fn lemma_printed_grows(config: Config, doc: Seq<Item>, fewer: nat, more: nat)
    requires
        fewer <= more,
    ensures
        printed(config, doc, fewer).len() <= printed(config, doc, more).len(),
        printed(config, doc, more).take(printed(config, doc, fewer).len() as int) == printed(
            config,
            doc,
            fewer,
        ),
    decreases more - fewer,
{
    if fewer < more {
        lemma_printed_grows(config, doc, fewer, (more - 1) as nat);
        let shorter = printed(config, doc, (more - 1) as nat);
        let longer = printed(config, doc, more);
        let len = printed(config, doc, fewer).len() as int;
        assert(longer.take(len) =~= shorter.take(len));
    } else {
        assert(printed(config, doc, more).take(printed(config, doc, fewer).len() as int)
            =~= printed(config, doc, fewer));
    }
}

/// Where item `index` stands in the output: behind what the items before it put out.
pub open spec fn offset_of(config: Config, doc: Seq<Item>, index: int) -> int {
    printed(config, doc, index as nat).len() as int
}

/// Each item's piece stands in the rendered text at the item's offset, and the pieces of
/// later items stand behind it.
pub proof fn lemma_piece_in_output(config: Config, doc: Seq<Item>, index: int)
    requires
        0 <= index < doc.len(),
    ensures
        offset_of(config, doc, index + 1) == offset_of(config, doc, index) + piece(
            config,
            doc,
            index,
            state_at(config, doc, index as nat),
        ).len(),
        offset_of(config, doc, index + 1) <= render(config, doc).len(),
        render(config, doc).subrange(
            offset_of(config, doc, index),
            offset_of(config, doc, index + 1),
        ) == piece(config, doc, index, state_at(config, doc, index as nat)),
{
    let next = (index + 1) as nat;
    let out = render(config, doc);
    lemma_printed_grows(config, doc, next, doc.len());
    let here = printed(config, doc, index as nat);
    let part = piece(config, doc, index, state_at(config, doc, index as nat));
    assert(printed(config, doc, next) == here + part);
    assert(out.take((here + part).len() as int) == here + part);
    let whole = here + part;
    let from = here.len() as int;
    assert(out.len() >= whole.len());
    assert forall|k: int| 0 <= k < part.len() implies out.subrange(from, whole.len() as int)[k]
        == part[k] by {
        assert(out.take(whole.len() as int)[from + k] == out[from + k]);
        assert(whole[from + k] == part[k]);
    }
    assert(out.subrange(from, whole.len() as int) =~= part);
}

/// Offsets follow the order of the items.
pub proof fn lemma_offsets_ordered(config: Config, doc: Seq<Item>, first: int, second: int)
    requires
        0 <= first <= second,
    ensures
        offset_of(config, doc, first) <= offset_of(config, doc, second),
{
    lemma_printed_grows(config, doc, first as nat, second as nat);
}

/// Trivia keep their order and their text: of two trivia items of a document, the
/// earlier one's text stands in the rendered text, as it was written, before the later
/// one's.
pub proof fn lemma_trivia_order(config: Config, doc: Seq<Item>, first: int, second: int)
    requires
        0 <= first < second < doc.len(),
        doc[first] is Trivia,
        doc[second] is Trivia,
    ensures
        ({
            let out = render(config, doc);
            let a = offset_of(config, doc, first);
            let b = offset_of(config, doc, second);
            let earlier = doc[first]->Trivia_content;
            let later = doc[second]->Trivia_content;
            &&& 0 <= a
            &&& a + earlier.len() <= b
            &&& b + later.len() <= out.len()
            &&& out.subrange(a, a + earlier.len()) == earlier
            &&& out.subrange(b, b + later.len()) == later
        }),
{
    lemma_piece_in_output(config, doc, first);
    lemma_piece_in_output(config, doc, second);
    lemma_offsets_ordered(config, doc, first + 1, second);
}

/// The index in the document of the trivia item number `number`, counted from zero.
pub open spec fn trivia_at(doc: Seq<Item>, number: nat) -> int
    decreases doc.len(),
{
    if doc.len() == 0 {
        -1
    } else if doc.last() is Trivia && trivia_of(doc.drop_last()).len() == number {
        doc.len() - 1
    } else {
        trivia_at(doc.drop_last(), number)
    }
}

/// The trivia of a document joined to another are those of the one, then those of the other.
pub proof fn lemma_trivia_of_concat(front: Seq<Item>, back: Seq<Item>)
    ensures
        trivia_of(front + back) == trivia_of(front) + trivia_of(back),
    decreases back.len(),
{
    if back.len() == 0 {
        assert(front + back =~= front);
        assert(trivia_of(front) + trivia_of(back) =~= trivia_of(front));
    } else {
        lemma_trivia_of_concat(front, back.drop_last());
        assert((front + back).drop_last() =~= front + back.drop_last());
        assert((front + back).last() == back.last());
        match back.last() {
            Item::Trivia { content } => {
                assert(trivia_of(front + back) =~= trivia_of(front) + trivia_of(back));
            },
            _ => {},
        }
    }
}

/// Trivia item number `number` of a document is where `trivia_at` says, holds the text
/// with that number, and has exactly `number` trivia items in front of it.
pub proof fn lemma_trivia_at(doc: Seq<Item>, number: nat)
    requires
        number < trivia_of(doc).len(),
    ensures
        0 <= trivia_at(doc, number) < doc.len(),
        doc[trivia_at(doc, number)] == (Item::Trivia { content: trivia_of(doc)[number as int] }),
        trivia_of(doc.take(trivia_at(doc, number))).len() == number,
    decreases doc.len(),
{
    if doc.len() > 0 {
        let front = doc.drop_last();
        if doc.last() is Trivia && trivia_of(front).len() == number {
            assert(doc.take(doc.len() - 1) =~= front);
        } else {
            lemma_trivia_at(front, number);
            assert(doc.take(trivia_at(front, number)) =~= front.take(trivia_at(front, number)));
        }
    }
}

/// A longer beginning of a document holds at least as many trivia items as a shorter one.
pub proof fn lemma_trivia_count_grows(doc: Seq<Item>, shorter: int, longer: int)
    requires
        0 <= shorter <= longer <= doc.len(),
    ensures
        trivia_of(doc.take(shorter)).len() <= trivia_of(doc.take(longer)).len(),
    decreases longer - shorter,
{
    if shorter < longer {
        lemma_trivia_count_grows(doc, shorter, longer - 1);
        assert(doc.take(longer).drop_last() =~= doc.take(longer - 1));
    }
}

/// Where trivia item number `number` of the document stands in the rendered text.
pub open spec fn trivia_offset(config: Config, doc: Seq<Item>, number: nat) -> int {
    offset_of(config, doc, trivia_at(doc, number))
}

/// Trivia keep their order, by number: the texts of the document's trivia items stand
/// in the rendered text as they were written, each behind the one before it.
pub proof fn lemma_trivia_order_by_number(
    config: Config,
    doc: Seq<Item>,
    first: nat,
    second: nat,
)
    requires
        first < second < trivia_of(doc).len(),
    ensures
        ({
            let out = render(config, doc);
            let a = trivia_offset(config, doc, first);
            let b = trivia_offset(config, doc, second);
            let earlier = trivia_of(doc)[first as int];
            let later = trivia_of(doc)[second as int];
            &&& 0 <= a
            &&& a + earlier.len() <= b
            &&& b + later.len() <= out.len()
            &&& out.subrange(a, a + earlier.len()) == earlier
            &&& out.subrange(b, b + later.len()) == later
        }),
{
    lemma_trivia_at(doc, first);
    lemma_trivia_at(doc, second);
    let i = trivia_at(doc, first);
    let j = trivia_at(doc, second);
    if i >= j {
        lemma_trivia_count_grows(doc, j, i);
    }
    lemma_trivia_order(config, doc, i, j);
}

} // verus!
