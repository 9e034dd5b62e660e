//! The document that a printer scans, and the room that its groups and breaks ask for.

use crate::pretty::span::Span;
use vstd::prelude::*;
use vstd::utf8::encode_utf8;

verus! {

/// When a text fragment is shown.
#[derive(Debug, Copy, Clone, PartialEq, Eq, Structural)]
pub enum TextMode {
    /// The fragment is always shown.
    Always,
    /// The fragment is shown only while the enclosing group stays on one line.
    NoBreak,
    /// The fragment is shown only when the enclosing group has been broken.
    Break,
}

/// How a group decides about the breaks inside it.
#[derive(Debug, Copy, Clone, PartialEq, Eq, Structural)]
pub enum BreakMode {
    /// All breaks of the group fire together, or each decides by the room left for it.
    Consistent,
    /// Each break decides for itself from the room left on the line.
    Inconsistent,
}

/// One element of a scanned document, as the contracts see it.
pub enum Item {
    /// Literal output with the place it came from and the condition under which it shows.
    Text { content: Seq<char>, span: Option<Span>, mode: TextMode },
    /// A place where the line may end; `content` is printed when it does not.
    Break { content: Seq<char> },
    /// The start of a group.
    Begin { breaking: BreakMode },
    /// The end of the innermost open group.
    End,
    /// Source text from outside the grammar, spliced in as it was written: it is put out
    /// unchanged, gets no indentation, and counts towards no width.
    Trivia { content: Seq<char> },
}

/// The width of a piece of text: the number of bytes of its UTF-8 encoding.
pub open spec fn width(text: Seq<char>) -> nat {
    encode_utf8(text).len()
}

impl Item {
    /// What the item adds to the measurements of the groups and breaks that cover it.
    pub open spec fn text_width(self) -> nat {
        match self {
            Item::Text { content, .. } => width(content),
            _ => 0,
        }
    }

    /// The width of the item when it is printed on the line: its text, or its separator.
    pub open spec fn flat_width(self) -> nat {
        match self {
            Item::Text { content, .. } => width(content),
            Item::Break { content } => width(content),
            _ => 0,
        }
    }

    /// The nesting depth behind the item, given the depth in front of it; a negative
    /// depth says that the group in question has been closed, and stays.
    pub open spec fn depth_after(self, depth: int) -> int {
        if depth < 0 {
            -1
        } else {
            match self {
                Item::Begin { .. } => depth + 1,
                Item::End => depth - 1,
                _ => depth,
            }
        }
    }

    /// Whether the item ends the reach of a break in front of it.
    pub open spec fn ends_reach(self) -> bool {
        self is Break || self is End
    }
}

/// The depth at the end of the document, relative to a group whose inside begins at
/// index `from` at depth `depth`: `-1` once an `End` has closed that group.
pub open spec fn tail_depth(doc: Seq<Item>, from: int, depth: int) -> int
    decreases doc.len() - from,
{
    if depth < 0 {
        -1
    } else if from < 0 || from >= doc.len() {
        depth
    } else {
        tail_depth(doc, from + 1, doc[from].depth_after(depth))
    }
}

/// The number of groups that are open at the end of the document, or `-1` if some `End`
/// had no group to close.
pub open spec fn open_groups(doc: Seq<Item>) -> int {
    tail_depth(doc, 0, 0)
}

/// The total text width from index `from` up to the `End` that closes the group lying
/// `depth` levels above `from`, or up to the end of the document if nothing closes it.
pub open spec fn group_rest(doc: Seq<Item>, from: int, depth: int) -> nat
    decreases doc.len() - from,
{
    if depth < 0 || from < 0 || from >= doc.len() {
        0
    } else {
        doc[from].text_width() + group_rest(doc, from + 1, doc[from].depth_after(depth))
    }
}

/// The room a group asks for: the width of all text between the `Begin` at `index` and
/// its `End`, nested groups included.
pub open spec fn group_need(doc: Seq<Item>, index: int) -> nat {
    group_rest(doc, index + 1, 0)
}

/// Whether no `Break` and no `End` lies at or behind index `from`.
pub open spec fn reach_open(doc: Seq<Item>, from: int) -> bool
    decreases doc.len() - from,
{
    if from < 0 || from >= doc.len() {
        true
    } else {
        !doc[from].ends_reach() && reach_open(doc, from + 1)
    }
}

/// The total text width from index `from` up to the next `Break` or `End`.
pub open spec fn break_rest(doc: Seq<Item>, from: int) -> nat
    decreases doc.len() - from,
{
    if from < 0 || from >= doc.len() || doc[from].ends_reach() {
        0
    } else {
        doc[from].text_width() + break_rest(doc, from + 1)
    }
}

/// The room a break asks for: its separator and all text up to the next `Break` or `End`.
pub open spec fn break_need(doc: Seq<Item>, index: int) -> nat {
    doc[index].flat_width() + break_rest(doc, index + 1)
}

/// The texts of the trivia items of a document, in their order.
pub open spec fn trivia_of(doc: Seq<Item>) -> Seq<Seq<char>>
    decreases doc.len(),
{
    if doc.len() == 0 {
        Seq::empty()
    } else {
        match doc.last() {
            Item::Trivia { content } => trivia_of(doc.drop_last()).push(content),
            _ => trivia_of(doc.drop_last()),
        }
    }
}

/// The width of two texts joined is the sum of their widths.
pub proof fn lemma_width_concat(a: Seq<char>, b: Seq<char>)
    ensures
        width(a + b) == width(a) + width(b),
        encode_utf8(a + b) == encode_utf8(a) + encode_utf8(b),
    decreases a.len(),
{
    if a.len() == 0 {
        assert(a + b == b);
        assert(encode_utf8(a) == Seq::<u8>::empty());
        assert(encode_utf8(a) + encode_utf8(b) == encode_utf8(b));
    } else {
        lemma_width_concat(a.drop_first(), b);
        assert((a + b).drop_first() == a.drop_first() + b);
        assert((a + b)[0] == a[0]);
        let head = vstd::utf8::encode_scalar(a[0] as u32);
        assert(encode_utf8(a + b) == head + encode_utf8(a.drop_first() + b));
        assert(encode_utf8(a) == head + encode_utf8(a.drop_first()));
        assert(head + (encode_utf8(a.drop_first()) + encode_utf8(b)) == (head + encode_utf8(
            a.drop_first(),
        )) + encode_utf8(b));
    }
}

/// A text of one ASCII character has width one.
pub proof fn lemma_width_ascii(c: char)
    requires
        (c as u32) < 128,
    ensures
        width(seq![c]) == 1,
{
    let s = seq![c];
    assert(s.drop_first() == Seq::<char>::empty());
    assert(encode_utf8(s.drop_first()) == Seq::<u8>::empty());
    assert(vstd::utf8::has_width_1_encoding(c as u32));
    assert(encode_utf8(s) == vstd::utf8::encode_scalar(s[0] as u32) + encode_utf8(
        s.drop_first(),
    ));
}

/// How the depth at the end changes when one more item is scanned.
pub proof fn lemma_tail_depth_push(doc: Seq<Item>, item: Item, from: int, depth: int)
    requires
        0 <= from <= doc.len(),
    ensures
        tail_depth(doc.push(item), from, depth) == item.depth_after(tail_depth(doc, from, depth)),
    decreases doc.len() - from,
{
    let longer = doc.push(item);
    if depth < 0 {
    } else if from == doc.len() {
        assert(longer[from] == item);
        assert(tail_depth(longer, from + 1, item.depth_after(depth)) == item.depth_after(depth));
    } else {
        assert(longer[from] == doc[from]);
        lemma_tail_depth_push(doc, item, from + 1, doc[from].depth_after(depth));
    }
}

/// A group that is still open takes the text width of the next item; a closed one does not
/// change any more.
pub proof fn lemma_group_rest_push(doc: Seq<Item>, item: Item, from: int, depth: int)
    requires
        0 <= from <= doc.len(),
    ensures
        group_rest(doc.push(item), from, depth) == group_rest(doc, from, depth) + (if tail_depth(
            doc,
            from,
            depth,
        ) >= 0 {
            item.text_width()
        } else {
            0
        }),
    decreases doc.len() - from,
{
    let longer = doc.push(item);
    if depth < 0 {
    } else if from == doc.len() {
        assert(longer[from] == item);
        assert(group_rest(longer, from + 1, item.depth_after(depth)) == 0);
    } else {
        assert(longer[from] == doc[from]);
        lemma_group_rest_push(doc, item, from + 1, doc[from].depth_after(depth));
    }
}

/// A reach stays open behind a new item unless that item ends it.
pub proof fn lemma_reach_open_push(doc: Seq<Item>, item: Item, from: int)
    requires
        0 <= from <= doc.len(),
    ensures
        reach_open(doc.push(item), from) == (reach_open(doc, from) && !item.ends_reach()),
    decreases doc.len() - from,
{
    let longer = doc.push(item);
    if from == doc.len() {
        assert(longer[from] == item);
        assert(reach_open(longer, from + 1));
    } else {
        assert(longer[from] == doc[from]);
        lemma_reach_open_push(doc, item, from + 1);
    }
}

/// A break whose reach is still open takes the text width of the next item.
pub proof fn lemma_break_rest_push(doc: Seq<Item>, item: Item, from: int)
    requires
        0 <= from <= doc.len(),
    ensures
        break_rest(doc.push(item), from) == break_rest(doc, from) + (if reach_open(doc, from)
            && !item.ends_reach() {
            item.text_width()
        } else {
            0
        }),
    decreases doc.len() - from,
{
    let longer = doc.push(item);
    if from == doc.len() {
        assert(longer[from] == item);
        assert(break_rest(longer, from + 1) == 0);
    } else {
        assert(longer[from] == doc[from]);
        if !doc[from].ends_reach() {
            lemma_break_rest_push(doc, item, from + 1);
        }
    }
}

/// Raising the depth at which a scan starts raises the depth at which it ends by as much,
/// as long as the scan does not close its group.
pub proof fn lemma_tail_depth_shift(doc: Seq<Item>, from: int, depth: int, by: nat)
    requires
        tail_depth(doc, from, depth) >= 0,
    ensures
        tail_depth(doc, from, depth + by) == tail_depth(doc, from, depth) + by,
    decreases doc.len() - from,
{
    if from < 0 || from >= doc.len() {
    } else {
        lemma_tail_depth_shift(doc, from + 1, doc[from].depth_after(depth), by);
    }
}

/// The total width of the texts and separators from index `from` on.
pub open spec fn flat_rest(doc: Seq<Item>, from: int) -> nat
    decreases doc.len() - from,
{
    if from < 0 || from >= doc.len() {
        0
    } else {
        doc[from].flat_width() + flat_rest(doc, from + 1)
    }
}

/// The width of the whole document on one line: all its texts and separators.
pub open spec fn total_width(doc: Seq<Item>) -> nat {
    flat_rest(doc, 0)
}

/// A break asks for no more room than everything behind it takes on one line.
pub proof fn lemma_break_rest_bound(doc: Seq<Item>, from: int)
    ensures
        break_rest(doc, from) <= flat_rest(doc, from),
    decreases doc.len() - from,
{
    if 0 <= from < doc.len() {
        lemma_break_rest_bound(doc, from + 1);
    }
}

/// A group asks for no more room than everything behind its start takes on one line.
pub proof fn lemma_group_rest_bound(doc: Seq<Item>, from: int, depth: int)
    ensures
        group_rest(doc, from, depth) <= flat_rest(doc, from),
    decreases doc.len() - from,
{
    if 0 <= from < doc.len() {
        lemma_group_rest_bound(doc, from + 1, doc[from].depth_after(depth));
    }
}

/// The width on one line of the items from index `from` up to, not including, index `to`.
pub open spec fn flat_between(doc: Seq<Item>, from: int, to: int) -> nat
    decreases to - from,
{
    if from < 0 || from >= to || from >= doc.len() {
        0
    } else {
        doc[from].flat_width() + flat_between(doc, from + 1, to)
    }
}

/// The depth at the end of a document is the depth that a scan reaches from the depth at
/// which it arrives at any index on the way.
pub proof fn lemma_tail_depth_split(doc: Seq<Item>, from: int, mid: int, depth: int)
    requires
        0 <= from <= mid <= doc.len(),
    ensures
        tail_depth(doc, from, depth) == tail_depth(doc, mid, tail_depth(doc.take(mid), from, depth)),
    decreases mid - from,
{
    if depth >= 0 && from < mid {
        assert(doc.take(mid)[from] == doc[from]);
        lemma_tail_depth_split(doc, from + 1, mid, doc[from].depth_after(depth));
    }
}

/// A break in front of a `Break` or an `End` asks for no more than what stands between.
pub proof fn lemma_break_rest_between(doc: Seq<Item>, from: int, stop: int)
    requires
        0 <= from <= stop < doc.len(),
        doc[stop].ends_reach(),
    ensures
        break_rest(doc, from) <= flat_between(doc, from, stop),
    decreases stop - from,
{
    if from < stop {
        lemma_break_rest_between(doc, from + 1, stop);
    }
}

/// A group that is closed by index `stop` asks for no more than what stands up to there.
pub proof fn lemma_group_rest_between(doc: Seq<Item>, from: int, depth: int, stop: int)
    requires
        0 <= from <= stop + 1 <= doc.len(),
        tail_depth(doc.take(stop + 1), from, depth) < 0,
    ensures
        group_rest(doc, from, depth) <= flat_between(doc, from, stop),
    decreases stop + 1 - from,
{
    if depth >= 0 && from <= stop {
        assert(doc.take(stop + 1)[from] == doc[from]);
        if doc[from].depth_after(depth) >= 0 {
            lemma_group_rest_between(doc, from + 1, doc[from].depth_after(depth), stop);
        }
        if from == stop {
            assert(doc[from].depth_after(depth) < 0);
            assert(doc[from] is End);
        }
    }
}

} // verus!
