//! The printer: scanning with its bookkeeping, and rendering.

use crate::pretty::document::{
    break_need, break_rest, group_need, group_rest, lemma_break_rest_push, lemma_group_rest_push,
    lemma_reach_open_push, lemma_tail_depth_push, open_groups, reach_open, tail_depth, trivia_of,
    width, BreakMode, Item, TextMode,
};
use crate::pretty::laws::trivia::{
    lemma_trivia_of_concat, lemma_trivia_order_by_number, trivia_offset,
};
use crate::pretty::layout::{
    piece, printed, render, spaces, state_at, step, Config, PrintFrame,
};
use crate::pretty::span::{lemma_precedes_transitive, Span};
use crate::pretty::text::{
    flush_stop, in_order, lemma_in_order_pairs, texts_of, Text, Trivia,
};
use vstd::prelude::*;
use vstd::string::StringExecFns;

verus! {

/// A scanned item together with the room that it has been found to ask for so far.
enum Token {
    Text { text: String, span: Option<Span>, mode: TextMode },
    Break { text: String, len: usize },
    Begin { breaking: BreakMode, len: usize },
    End,
    Trivia { text: String },
}

/// A count kept in a machine word: it stops at the largest value.
spec fn capped(amount: int) -> int {
    if amount > usize::MAX {
        usize::MAX as int
    } else {
        amount
    }
}

impl Token {
    /// The item that the token stands for.
    spec fn item(self) -> Item {
        match self {
            Token::Text { text, span, mode } => Item::Text { content: text@, span, mode },
            Token::Break { text, .. } => Item::Break { content: text@ },
            Token::Begin { breaking, .. } => Item::Begin { breaking },
            Token::End => Item::End,
            Token::Trivia { text } => Item::Trivia { content: text@ },
        }
    }

    /// The room recorded in the token.
    spec fn stored(self) -> int {
        match self {
            Token::Break { len, .. } => len as int,
            Token::Begin { len, .. } => len as int,
            _ => 0,
        }
    }

    /// The token with `extra` added to the room recorded in it.
    spec fn widened(self, extra: usize) -> Token {
        match self {
            Token::Break { text, len } => Token::Break {
                text,
                len: capped(len + extra) as usize,
            },
            Token::Begin { breaking, len } => Token::Begin {
                breaking,
                len: capped(len + extra) as usize,
            },
            other => other,
        }
    }

    /// The width that the token stands for: the text's own, or the room recorded so far.
    fn len(&self) -> (n: usize)
        ensures
            self is Text ==> n == self.item().text_width(),
            !(self is Text) ==> n == self.stored(),
    {
        match self {
            Token::Text { text, .. } => text.as_str().as_bytes().len(),
            Token::Break { len, .. } => *len,
            Token::Begin { len, .. } => *len,
            Token::End => 0,
            Token::Trivia { .. } => 0,
        }
    }
}

/// The items that a sequence of tokens stands for.
spec fn items(tokens: Seq<Token>) -> Seq<Item> {
    Seq::new(tokens.len(), |i: int| tokens[i].item())
}

/// The tokens with `extra` added to the room recorded at `index`, if there is one.
spec fn bumped(tokens: Seq<Token>, index: Option<usize>, extra: usize) -> Seq<Token> {
    match index {
        Some(i) if i < tokens.len() => tokens.update(i as int, tokens[i as int].widened(extra)),
        _ => tokens,
    }
}

/// The room that the open group above position `k` of the stack has taken so far.
spec fn inner_need(doc: Seq<Item>, stack: Seq<usize>, k: int) -> int {
    if 0 <= k + 1 < stack.len() {
        group_need(doc, stack[k + 1] as int) as int
    } else {
        0
    }
}

/// Position `k` of the stack names an open group at the right depth.
spec fn stack_ok(tokens: Seq<Token>, stack: Seq<usize>, k: int) -> bool {
    let b = stack[k] as int;
    &&& b < tokens.len()
    &&& tokens[b] is Begin
    &&& tail_depth(items(tokens), b + 1, 0) == stack.len() - 1 - k
}

/// The room recorded in a `Begin` is what its group asks for, less what a group that is
/// still open inside it has not handed up yet.
spec fn begin_ok(tokens: Seq<Token>, stack: Seq<usize>, i: int) -> bool {
    let doc = items(tokens);
    let depth = tail_depth(doc, i + 1, 0);
    tokens[i] is Begin ==> if depth < 0 {
        tokens[i].stored() == capped(group_need(doc, i) as int)
    } else {
        let k = stack.len() - 1 - depth;
        &&& 0 <= k
        &&& stack[k] == i
        &&& tokens[i].stored() == capped(group_need(doc, i) - inner_need(doc, stack, k))
    }
}

/// The room recorded in a `Break` is what it asks for, and only the last break can grow.
spec fn break_ok(tokens: Seq<Token>, last: Option<usize>, i: int) -> bool {
    let doc = items(tokens);
    tokens[i] is Break ==> {
        &&& tokens[i].stored() == capped(break_need(doc, i) as int)
        &&& reach_open(doc, i + 1) ==> last == Some(i as usize)
    }
}

/// The bookkeeping of a scan agrees with the document scanned so far.
spec fn accounted(tokens: Seq<Token>, stack: Seq<usize>, last: Option<usize>) -> bool {
    &&& tokens.len() <= usize::MAX
    &&& open_groups(items(tokens)) == stack.len()
    &&& forall|k: int| 0 <= k < stack.len() ==> #[trigger] stack_ok(tokens, stack, k)
    &&& forall|i: int| 0 <= i < tokens.len() ==> #[trigger] begin_ok(tokens, stack, i)
    &&& forall|i: int| 0 <= i < tokens.len() ==> #[trigger] break_ok(tokens, last, i)
    &&& last matches Some(b) ==> b < tokens.len() && tokens[b as int] is Break && reach_open(
        items(tokens),
        b + 1,
    )
}

/// What one more item changes in the measurements of the items before it.
proof fn lemma_push_facts(doc: Seq<Item>, item: Item)
    ensures
        forall|from: int|
            0 <= from <= doc.len() ==> #[trigger] tail_depth(doc.push(item), from, 0)
                == item.depth_after(tail_depth(doc, from, 0)),
        forall|from: int|
            0 <= from <= doc.len() ==> #[trigger] group_rest(doc.push(item), from, 0)
                == group_rest(doc, from, 0) + (if tail_depth(doc, from, 0) >= 0 {
                item.text_width()
            } else {
                0
            }),
        forall|from: int|
            0 <= from <= doc.len() ==> #[trigger] reach_open(doc.push(item), from) == (reach_open(
                doc,
                from,
            ) && !item.ends_reach()),
        forall|from: int|
            0 <= from <= doc.len() ==> #[trigger] break_rest(doc.push(item), from) == break_rest(
                doc,
                from,
            ) + (if reach_open(doc, from) && !item.ends_reach() {
                item.text_width()
            } else {
                0
            }),
{
    assert forall|from: int| 0 <= from <= doc.len() implies #[trigger] tail_depth(
        doc.push(item),
        from,
        0,
    ) == item.depth_after(tail_depth(doc, from, 0)) by {
        lemma_tail_depth_push(doc, item, from, 0);
    }
    assert forall|from: int| 0 <= from <= doc.len() implies #[trigger] group_rest(
        doc.push(item),
        from,
        0,
    ) == group_rest(doc, from, 0) + (if tail_depth(doc, from, 0) >= 0 {
        item.text_width()
    } else {
        0
    }) by {
        lemma_group_rest_push(doc, item, from, 0);
    }
    assert forall|from: int| 0 <= from <= doc.len() implies #[trigger] reach_open(
        doc.push(item),
        from,
    ) == (reach_open(doc, from) && !item.ends_reach()) by {
        lemma_reach_open_push(doc, item, from);
    }
    assert forall|from: int| 0 <= from <= doc.len() implies #[trigger] break_rest(
        doc.push(item),
        from,
    ) == break_rest(doc, from) + (if reach_open(doc, from) && !item.ends_reach() {
        item.text_width()
    } else {
        0
    }) by {
        lemma_break_rest_push(doc, item, from);
    }
}

/// Pushing a token pushes its item.
proof fn lemma_items_push(tokens: Seq<Token>, token: Token)
    ensures
        items(tokens.push(token)) == items(tokens).push(token.item()),
{
    assert(items(tokens.push(token)) =~= items(tokens).push(token.item()));
}

/// Widening a token leaves the items as they are.
proof fn lemma_items_bumped(tokens: Seq<Token>, index: Option<usize>, extra: usize)
    ensures
        items(bumped(tokens, index, extra)) == items(tokens),
        bumped(tokens, index, extra).len() == tokens.len(),
{
    assert(items(bumped(tokens, index, extra)) =~= items(tokens));
}

/// The bookkeeping after a `Begin` has been scanned.
proof fn lemma_account_begin(
    tokens: Seq<Token>,
    stack: Seq<usize>,
    last: Option<usize>,
    mode: BreakMode,
)
    requires
        accounted(tokens, stack, last),
        tokens.len() < usize::MAX,
    ensures
        accounted(
            tokens.push(Token::Begin { breaking: mode, len: 0 }),
            stack.push(tokens.len() as usize),
            last,
        ),
        items(tokens.push(Token::Begin { breaking: mode, len: 0 })) == items(tokens).push(
            Item::Begin { breaking: mode },
        ),
{
    let token = Token::Begin { breaking: mode, len: 0 };
    let after = tokens.push(token);
    let above = stack.push(tokens.len() as usize);
    let doc = items(tokens);
    let n = tokens.len() as int;
    lemma_items_push(tokens, token);
    lemma_push_facts(doc, token.item());
    assert(group_rest(items(after), n + 1, 0) == 0);
    assert(tail_depth(items(after), n + 1, 0) == 0);
    assert forall|k: int| 0 <= k < above.len() implies #[trigger] stack_ok(after, above, k) by {
        if k < stack.len() {
            assert(stack_ok(tokens, stack, k));
        }
    }
    assert forall|i: int| 0 <= i < after.len() implies #[trigger] begin_ok(after, above, i) by {
        if i < n {
            assert(begin_ok(tokens, stack, i));
        }
    }
    assert forall|i: int| 0 <= i < after.len() implies #[trigger] break_ok(after, last, i) by {
        if i < n {
            assert(break_ok(tokens, last, i));
        }
    }
}

/// The bookkeeping after a `Break` has been scanned.
proof fn lemma_account_break(
    tokens: Seq<Token>,
    stack: Seq<usize>,
    last: Option<usize>,
    text: String,
    len: usize,
)
    requires
        accounted(tokens, stack, last),
        tokens.len() < usize::MAX,
        len == width(text@),
    ensures
        accounted(tokens.push(Token::Break { text, len }), stack, Some(tokens.len() as usize)),
        items(tokens.push(Token::Break { text, len })) == items(tokens).push(
            Item::Break { content: text@ },
        ),
{
    let token = Token::Break { text, len };
    let after = tokens.push(token);
    let doc = items(tokens);
    let n = tokens.len() as int;
    lemma_items_push(tokens, token);
    lemma_push_facts(doc, token.item());
    assert(break_rest(items(after), n + 1) == 0);
    assert(reach_open(items(after), n + 1));
    assert forall|k: int| 0 <= k < stack.len() implies #[trigger] stack_ok(after, stack, k) by {
        assert(stack_ok(tokens, stack, k));
    }
    assert forall|i: int| 0 <= i < after.len() implies #[trigger] begin_ok(after, stack, i) by {
        if i < n {
            assert(begin_ok(tokens, stack, i));
        }
    }
    assert forall|i: int| 0 <= i < after.len() implies #[trigger] break_ok(
        after,
        Some(n as usize),
        i,
    ) by {
        if i < n {
            assert(break_ok(tokens, last, i));
        }
    }
}

/// The bookkeeping after a piece of trivia has been spliced in.
proof fn lemma_account_trivia(
    tokens: Seq<Token>,
    stack: Seq<usize>,
    last: Option<usize>,
    text: String,
)
    requires
        accounted(tokens, stack, last),
        tokens.len() < usize::MAX,
    ensures
        accounted(tokens.push(Token::Trivia { text }), stack, last),
        items(tokens.push(Token::Trivia { text })) == items(tokens).push(
            Item::Trivia { content: text@ },
        ),
{
    let token = Token::Trivia { text };
    let after = tokens.push(token);
    let doc = items(tokens);
    let n = tokens.len() as int;
    lemma_items_push(tokens, token);
    lemma_push_facts(doc, token.item());
    assert forall|k: int| 0 <= k < stack.len() implies #[trigger] stack_ok(after, stack, k) by {
        assert(stack_ok(tokens, stack, k));
    }
    assert forall|i: int| 0 <= i < after.len() implies #[trigger] begin_ok(after, stack, i) by {
        if i < n {
            assert(begin_ok(tokens, stack, i));
        }
    }
    assert forall|i: int| 0 <= i < after.len() implies #[trigger] break_ok(after, last, i) by {
        if i < n {
            assert(break_ok(tokens, last, i));
        }
    }
}

/// The innermost open group, if there is one.
spec fn top_of(stack: Seq<usize>) -> Option<usize> {
    if stack.len() > 0 {
        Some(stack.last())
    } else {
        None
    }
}

/// The bookkeeping after a text has been scanned: the last break and the innermost open
/// group have taken its width.
proof fn lemma_account_text(
    tokens: Seq<Token>,
    stack: Seq<usize>,
    last: Option<usize>,
    token: Token,
    len: usize,
)
    requires
        accounted(tokens, stack, last),
        tokens.len() < usize::MAX,
        token is Text,
        len == token.item().text_width(),
    ensures
        accounted(bumped(bumped(tokens.push(token), last, len), top_of(stack), len), stack, last),
        items(bumped(bumped(tokens.push(token), last, len), top_of(stack), len)) == items(
            tokens,
        ).push(token.item()),
{
    let pushed = tokens.push(token);
    let middle = bumped(pushed, last, len);
    let after = bumped(middle, top_of(stack), len);
    let doc = items(tokens);
    let n = tokens.len() as int;
    lemma_items_push(tokens, token);
    lemma_items_bumped(pushed, last, len);
    lemma_items_bumped(middle, top_of(stack), len);
    lemma_push_facts(doc, token.item());
    let longer = items(after);
    assert(longer == doc.push(token.item()));
    assert forall|k: int| 0 <= k < stack.len() implies #[trigger] stack_ok(after, stack, k) by {
        assert(stack_ok(tokens, stack, k));
    }
    assert forall|i: int| 0 <= i < after.len() implies #[trigger] begin_ok(after, stack, i) by {
        if i < n {
            assert(begin_ok(tokens, stack, i));
            if tokens[i] is Begin {
                let depth = tail_depth(doc, i + 1, 0);
                if depth >= 0 {
                    let k = stack.len() - 1 - depth;
                    if k + 1 < stack.len() {
                        assert(stack_ok(tokens, stack, k + 1));
                        assert(stack_ok(tokens, stack, stack.len() - 1));
                    }
                } else {
                    if stack.len() > 0 {
                        assert(stack_ok(tokens, stack, stack.len() - 1));
                    }
                }
            }
        }
    }
    assert forall|i: int| 0 <= i < after.len() implies #[trigger] break_ok(after, last, i) by {
        if i < n {
            assert(break_ok(tokens, last, i));
            if stack.len() > 0 {
                assert(stack_ok(tokens, stack, stack.len() - 1));
            }
        }
    }
    if stack.len() > 0 {
        assert(stack_ok(tokens, stack, stack.len() - 1));
    }
}

/// The bookkeeping after an `End` has been scanned: the group that it closes hands the
/// room it took to the group around it.
proof fn lemma_account_end(tokens: Seq<Token>, stack: Seq<usize>, last: Option<usize>)
    requires
        accounted(tokens, stack, last),
        tokens.len() < usize::MAX,
        stack.len() > 0,
    ensures
        tokens[stack.last() as int].stored() <= usize::MAX,
        accounted(
            bumped(
                tokens,
                top_of(stack.drop_last()),
                tokens[stack.last() as int].stored() as usize,
            ).push(Token::End),
            stack.drop_last(),
            None,
        ),
        items(
            bumped(
                tokens,
                top_of(stack.drop_last()),
                tokens[stack.last() as int].stored() as usize,
            ).push(Token::End),
        ) == items(tokens).push(Item::End),
{
    let below = stack.drop_last();
    let closing = stack.last() as int;
    assert(stack_ok(tokens, stack, stack.len() - 1));
    assert(begin_ok(tokens, stack, closing));
    let handed = tokens[closing].stored() as usize;
    let middle = bumped(tokens, top_of(below), handed);
    let after = middle.push(Token::End);
    let doc = items(tokens);
    let n = tokens.len() as int;
    lemma_items_bumped(tokens, top_of(below), handed);
    lemma_items_push(middle, Token::End);
    lemma_push_facts(doc, Item::End);
    let longer = items(after);
    assert(longer == doc.push(Item::End));
    if below.len() > 0 {
        assert(stack_ok(tokens, stack, stack.len() - 2));
        assert(begin_ok(tokens, stack, stack[stack.len() - 2] as int));
    }
    assert forall|k: int| 0 <= k < below.len() implies #[trigger] stack_ok(after, below, k) by {
        assert(stack_ok(tokens, stack, k));
    }
    assert forall|i: int| 0 <= i < after.len() implies #[trigger] begin_ok(after, below, i) by {
        if i < n {
            assert(begin_ok(tokens, stack, i));
            if tokens[i] is Begin {
                let depth = tail_depth(doc, i + 1, 0);
                if depth >= 1 {
                    let k = stack.len() - 1 - depth;
                    assert(stack_ok(tokens, stack, k + 1));
                }
            }
        }
    }
    assert forall|i: int| 0 <= i < after.len() implies #[trigger] break_ok(after, None, i) by {
        if i < n {
            assert(break_ok(tokens, last, i));
            if below.len() > 0 {
                assert(stack_ok(tokens, stack, stack.len() - 2));
            }
        }
    }
}

/// Adds `extra` to the room recorded at `index`, stopping at the largest count.
fn add_need(tokens: &mut Vec<Token>, index: usize, extra: usize)
    requires
        index < old(tokens)@.len(),
    ensures
        final(tokens)@ == bumped(old(tokens)@, Some(index), extra),
{
    match &mut tokens[index] {
        Token::Break { len, .. } => {
            *len = if extra > usize::MAX - *len {
                usize::MAX
            } else {
                *len + extra
            };
        },
        Token::Begin { len, .. } => {
            *len = if extra > usize::MAX - *len {
                usize::MAX
            } else {
                *len + extra
            };
        },
        _ => {},
    }
    assert(tokens@ =~= bumped(old(tokens)@, Some(index), extra));
}

/// The trivia items that stand for entries `from` up to `to` of a sequence of trivia.
pub open spec fn spliced(trivia: Seq<Trivia<'_>>, from: int, to: int) -> Seq<Item> {
    Seq::new((to - from) as nat, |i: int| Item::Trivia { content: trivia[from + i].text@ })
}

/// An item that is no trivia leaves the trivia of a document as they are.
proof fn lemma_trivia_of_push(doc: Seq<Item>, item: Item)
    ensures
        trivia_of(doc.push(item)) == (match item {
            Item::Trivia { content } => trivia_of(doc).push(content),
            _ => trivia_of(doc),
        }),
{
    assert(doc.push(item).drop_last() =~= doc);
}

/// How far a scan has come: the document scanned so far, and the number of trivia that
/// have been spliced into it.
pub struct Progress {
    pub doc: Seq<Item>,
    pub flushed: nat,
}

/// The pretty-printer: it takes a document item by item, measures the room that each
/// group and each break asks for, and renders the whole once the document is complete.
pub struct Printer<'a> {
    secondary_tokens: &'a [Trivia<'a>],
    consumed: usize,
    config: Config,
    tokens: Vec<Token>,
    last_break: Option<usize>,
    begin_stack: Vec<usize>,
}

impl<'a> Printer<'a> {
    /// The document scanned so far.
    pub closed spec fn doc(&self) -> Seq<Item> {
        items(self.tokens@)
    }

    /// The measures that the rendering will go by.
    pub closed spec fn config(&self) -> Config {
        self.config
    }

    /// The trivia of the source, in source order.
    pub closed spec fn trivia(&self) -> Seq<Trivia<'a>> {
        self.secondary_tokens@
    }

    /// The number of trivia that have been spliced into the document.
    pub closed spec fn flushed(&self) -> nat {
        self.consumed as nat
    }

    /// The number of groups that are open.
    pub open spec fn depth(&self) -> int {
        open_groups(self.doc())
    }

    /// How far the scan has come.
    pub open spec fn progress(&self) -> Progress {
        Progress { doc: self.doc(), flushed: self.flushed() }
    }

    /// The printer's bookkeeping agrees with the document scanned so far.
    pub closed spec fn wf(&self) -> bool {
        &&& accounted(self.tokens@, self.begin_stack@, self.last_break)
        &&& self.consumed <= self.secondary_tokens@.len()
        &&& in_order(self.secondary_tokens@)
        &&& trivia_of(items(self.tokens@)) == texts_of(
            self.secondary_tokens@.take(self.consumed as int),
        )
    }

    /// What a well-formed printer holds: no `End` without a group to close, the trivia in
    /// source order, and in the document exactly those that have been spliced in.
    pub proof fn lemma_wf(&self)
        requires
            self.wf(),
        ensures
            self.depth() >= 0,
            self.flushed() <= self.trivia().len(),
            in_order(self.trivia()),
            trivia_of(self.doc()) == texts_of(self.trivia().take(self.flushed() as int)),
    {
    }

    /// Creates a printer for a document whose first line has room for `initial_space` and
    /// which starts at the level of indentation `initial_indent`.
    pub fn new(
        secondary_tokens: &'a [Trivia<'a>],
        initial_space: usize,
        initial_indent: usize,
    ) -> (printer: Printer<'a>)
        requires
            in_order(secondary_tokens@),
        ensures
            printer.wf(),
            printer.doc() == Seq::<Item>::empty(),
            printer.config() == (Config {
                max_line_width: initial_space,
                indent_width: crate::pretty::layout::INDENT,
                min_width: crate::pretty::layout::MIN_SPACE,
                initial_indent,
            }),
            printer.trivia() == secondary_tokens@,
            printer.flushed() == 0,
    {
        Printer::with_config(secondary_tokens, Config::new(initial_space, initial_indent))
    }

    /// Creates a printer that renders by the given measures.
    pub fn with_config(secondary_tokens: &'a [Trivia<'a>], config: Config) -> (printer: Printer<
        'a,
    >)
        requires
            in_order(secondary_tokens@),
        ensures
            printer.wf(),
            printer.doc() == Seq::<Item>::empty(),
            printer.config() == config,
            printer.trivia() == secondary_tokens@,
            printer.flushed() == 0,
    {
        let printer = Printer {
            secondary_tokens,
            consumed: 0,
            config,
            tokens: Vec::new(),
            last_break: None,
            begin_stack: Vec::new(),
        };
        proof {
            assert(items(printer.tokens@) =~= Seq::<Item>::empty());
            assert(texts_of(secondary_tokens@.take(0)) =~= Seq::<Seq<char>>::empty());
        }
        printer
    }

    /// Returns the number of groups that are open.
    pub fn open_groups(&self) -> (count: usize)
        requires
            self.wf(),
        ensures
            count == self.depth(),
    {
        self.begin_stack.len()
    }

    /// Scans a text that always shows.
    pub fn scan_text<T: Text>(&mut self, text: T)
        requires
            old(self).wf(),
        ensures
            final(self).wf(),
            final(self).doc() == old(self).doc().push(
                Item::Text {
                    content: text.content(),
                    span: text.source(),
                    mode: TextMode::Always,
                },
            ),
            final(self).config() == old(self).config(),
            final(self).trivia() == old(self).trivia(),
            final(self).flushed() == old(self).flushed(),
            final(self).depth() == old(self).depth(),
    {
        self.scan_text_with_mode(text, TextMode::Always);
    }

    /// Scans a text that shows as `mode` says. The break scanned last, if no group has
    /// ended since, and the innermost open group take the text's width into the room
    /// that they ask for.
    pub fn scan_text_with_mode<T: Text>(&mut self, text: T, mode: TextMode)
        requires
            old(self).wf(),
        ensures
            final(self).wf(),
            final(self).doc() == old(self).doc().push(
                Item::Text { content: text.content(), span: text.source(), mode },
            ),
            final(self).config() == old(self).config(),
            final(self).trivia() == old(self).trivia(),
            final(self).flushed() == old(self).flushed(),
            final(self).depth() == old(self).depth(),
    {
        let span = text.span();
        let content = text.into_string();
        let text_len = content.as_str().as_bytes().len();
        let ghost before = self.tokens@;
        let ghost token = Token::Text { text: content, span, mode };
        self.tokens.push(Token::Text { text: content, span, mode });

        // The break scanned last must find room for this text too, if it is not to fire.
        if let Some(break_index) = self.last_break {
            add_need(&mut self.tokens, break_index, text_len);
        }
        // So must the innermost open group.

        if self.begin_stack.len() > 0 {
            let begin_index = self.begin_stack[self.begin_stack.len() - 1];
            proof {
                assert(stack_ok(before, self.begin_stack@, self.begin_stack@.len() - 1));
            }
            add_need(&mut self.tokens, begin_index, text_len);
        }
        proof {
            vstd::std_specs::vec::axiom_spec_len(&self.tokens);
            lemma_account_text(before, self.begin_stack@, self.last_break, token, text_len);
            lemma_trivia_of_push(items(before), token.item());
        }
    }

    /// Scans a place where the line may end; `text` is what stands there when it does
    /// not. Texts scanned from now on count towards the room that this break asks for,
    /// until the next break or the end of a group.
    pub fn scan_break(&mut self, text: &str)
        requires
            old(self).wf(),
        ensures
            final(self).wf(),
            final(self).doc() == old(self).doc().push(Item::Break { content: text@ }),
            final(self).config() == old(self).config(),
            final(self).trivia() == old(self).trivia(),
            final(self).flushed() == old(self).flushed(),
            final(self).depth() == old(self).depth(),
    {
        let text = text.to_owned();
        let len = text.as_str().as_bytes().len();
        let ghost before = self.tokens@;
        self.last_break = Some(self.tokens.len());
        self.tokens.push(Token::Break { text, len });
        proof {
            vstd::std_specs::vec::axiom_spec_len(&self.tokens);
            lemma_account_break(before, self.begin_stack@, old(self).last_break, text, len);
            lemma_trivia_of_push(items(before), Item::Break { content: text@ });
        }
    }

    /// Scans the start of a group.
    pub fn scan_begin(&mut self, mode: BreakMode)
        requires
            old(self).wf(),
        ensures
            final(self).wf(),
            final(self).doc() == old(self).doc().push(Item::Begin { breaking: mode }),
            final(self).config() == old(self).config(),
            final(self).trivia() == old(self).trivia(),
            final(self).flushed() == old(self).flushed(),
            final(self).depth() == old(self).depth() + 1,
    {
        let ghost before = self.tokens@;
        let ghost stack = self.begin_stack@;
        self.begin_stack.push(self.tokens.len());
        self.tokens.push(Token::Begin { breaking: mode, len: 0 });
        proof {
            vstd::std_specs::vec::axiom_spec_len(&self.tokens);
            lemma_account_begin(before, stack, self.last_break, mode);
            lemma_trivia_of_push(items(before), Item::Begin { breaking: mode });
        }
    }

    /// Scans the end of the innermost open group. The room that the group asks for goes
    /// into the room that the group around it asks for, and no break reaches past it.
    pub fn scan_end(&mut self)
        requires
            old(self).wf(),
            old(self).depth() > 0,
        ensures
            final(self).wf(),
            final(self).doc() == old(self).doc().push(Item::End),
            final(self).config() == old(self).config(),
            final(self).trivia() == old(self).trivia(),
            final(self).flushed() == old(self).flushed(),
            final(self).depth() == old(self).depth() - 1,
    {
        let ghost before = self.tokens@;
        let ghost stack = self.begin_stack@;
        proof {
            assert(stack_ok(before, stack, stack.len() - 1));
        }
        let begin_index = self.begin_stack[self.begin_stack.len() - 1];
        self.begin_stack.pop();
        let begin_len = self.tokens[begin_index].len();
        assert(self.begin_stack@ == stack.drop_last());
        if self.begin_stack.len() > 0 {
            let parent_index = self.begin_stack[self.begin_stack.len() - 1];
            proof {
                assert(stack_ok(before, stack, stack.len() - 2));
            }
            add_need(&mut self.tokens, parent_index, begin_len);
        }
        self.last_break = None;
        self.tokens.push(Token::End);
        proof {
            vstd::std_specs::vec::axiom_spec_len(&self.tokens);
            lemma_account_end(before, stack, old(self).last_break);
            lemma_trivia_of_push(items(before), Item::End);
        }
    }
}

/// Every `Begin` and every `Break` records the room that it asks for in the whole document.
spec fn settled(tokens: Seq<Token>) -> bool {
    forall|i: int|
        #![trigger tokens[i]]
        0 <= i < tokens.len() ==> {
            &&& tokens[i] is Begin ==> tokens[i].stored() == capped(
                group_need(items(tokens), i) as int,
            )
            &&& tokens[i] is Break ==> tokens[i].stored() == capped(
                break_need(items(tokens), i) as int,
            )
        }
}

/// Once every group is closed, the bookkeeping is final.
proof fn lemma_settled(tokens: Seq<Token>, stack: Seq<usize>, last: Option<usize>)
    requires
        accounted(tokens, stack, last),
        stack.len() == 0,
    ensures
        settled(tokens),
{
    assert forall|i: int| #![trigger tokens[i]] 0 <= i < tokens.len() implies {
        &&& tokens[i] is Begin ==> tokens[i].stored() == capped(
            group_need(items(tokens), i) as int,
        )
        &&& tokens[i] is Break ==> tokens[i].stored() == capped(
            break_need(items(tokens), i) as int,
        )
    } by {
        assert(begin_ok(tokens, stack, i));
        assert(break_ok(tokens, last, i));
    }
}

/// The room left on a line as the rendering keeps it: exact down to `-1`, below which
/// every break fires anyway.
spec fn floored(space: int) -> int {
    if space < -1 {
        -1
    } else {
        space
    }
}

/// The room on a fresh line at the given level of indentation.
fn line_space(config: &Config, level: u128) -> (space: i128)
    ensures
        space == config.line_space(level as nat),
        space <= usize::MAX,
        space >= 0,
{
    let width = config.max_line_width as u128;
    let step = config.indent_width as u128;
    let floor = config.min_width as i128;
    if step == 0 || level == 0 {
        assert(level * config.indent_width == 0) by (nonlinear_arith)
            requires
                config.indent_width == 0 || level == 0,
        ;
        let free = width as i128;
        if free >= floor {
            free
        } else {
            floor
        }
    } else if level > width / step {
        assert(level * config.indent_width > config.max_line_width) by (nonlinear_arith)
            requires
                level > (config.max_line_width as int) / (config.indent_width as int),
                config.indent_width > 0,
        ;
        floor
    } else {
        assert(level * config.indent_width <= config.max_line_width) by (nonlinear_arith)
            requires
                level <= (config.max_line_width as int) / (config.indent_width as int),
                config.indent_width > 0,
                level >= 0,
        ;
        let free = (width - level * step) as i128;
        if free >= floor {
            free
        } else {
            floor
        }
    }
}

/// Ends the line: puts one newline behind `output`, and behind it `indent_width` spaces
/// for each of the `level` levels of indentation, and nothing else. Returns the room on
/// the line that begins so.
pub fn print_break(output: &mut String, config: &Config, level: u128) -> (space: i128)
    ensures
        final(output)@ == old(output)@ + config.line_break(level as nat),
        space == config.line_space(level as nat),
        0 <= space <= usize::MAX,
{
    let ghost base = output@;
    output.append("\n");
    proof {
        reveal_strlit("\n");
        assert("\n"@ =~= seq!['\n']);
        assert(level * config.indent_width >= 0) by (nonlinear_arith)
            requires
                level >= 0,
                config.indent_width >= 0,
        ;
        assert(output@ =~= base + seq!['\n'] + spaces(0));
        assert(0 * config.indent_width == 0);
    }
    let mut done: u128 = 0;
    while done < level
        invariant
            done <= level,
            done * config.indent_width >= 0,
            output@ == base + seq!['\n'] + spaces((done * config.indent_width) as nat),
        decreases level - done,
    {
        let mut put: usize = 0;
        while put < config.indent_width
            invariant
                put <= config.indent_width,
                done < level,
                done * config.indent_width >= 0,
                output@ == base + seq!['\n'] + spaces((done * config.indent_width + put) as nat),
            decreases config.indent_width - put,
        {
            let ghost line = output@;
            output.append(" ");
            proof {
                reveal_strlit(" ");
                assert(" "@ =~= seq![' ']);
                assert(output@ =~= base + seq!['\n'] + spaces(
                    (done * config.indent_width + put + 1) as nat,
                ));
            }
            put += 1;
        }
        proof {
            assert((done + 1) * config.indent_width == done * config.indent_width
                + config.indent_width) by (nonlinear_arith);
        }
        done += 1;
    }
    line_space(config, level)
}

/// Puts out what the token at `index` renders to and moves the state of the rendering
/// past it.
fn print_token(
    config: &Config,
    tokens: &Vec<Token>,
    index: usize,
    output: &mut String,
    space: &mut i128,
    frames: &mut Vec<PrintFrame>,
)
    requires
        index < tokens@.len(),
        settled(tokens@),
        old(frames)@ == state_at(*config, items(tokens@), index as nat).frames,
        *old(space) == floored(state_at(*config, items(tokens@), index as nat).space),
        state_at(*config, items(tokens@), index as nat).space <= usize::MAX,
        old(output)@ == printed(*config, items(tokens@), index as nat),
    ensures
        final(frames)@ == state_at(*config, items(tokens@), (index + 1) as nat).frames,
        *final(space) == floored(state_at(*config, items(tokens@), (index + 1) as nat).space),
        state_at(*config, items(tokens@), (index + 1) as nat).space <= usize::MAX,
        final(output)@ == printed(*config, items(tokens@), (index + 1) as nat),
{
    let ghost doc = items(tokens@);
    let ghost state = state_at(*config, doc, index as nat);
    proof {
        assert(doc[index as int] == tokens@[index as int].item());
        assert(state_at(*config, doc, (index + 1) as nat) == step(*config, doc, index as int, state));
        assert(printed(*config, doc, (index + 1) as nat) == printed(*config, doc, index as nat)
            + piece(*config, doc, index as int, state));
        vstd::std_specs::vec::axiom_spec_len(frames);
        vstd::std_specs::vec::axiom_spec_len(tokens);
    }
    let content_break = if frames.len() > 0 {
        frames[frames.len() - 1].content_break
    } else {
        false
    };
    assert(content_break == state.content_break());
    match &tokens[index] {
        Token::Text { text, mode, .. } => {
            let should_print = match mode {
                TextMode::Always => true,
                TextMode::Break => content_break,
                TextMode::NoBreak => !content_break,
            };
            if should_print {
                output.append(text.as_str());
                let rest = *space - (text.as_str().as_bytes().len() as i128);
                *space = if rest < -1 {
                    -1
                } else {
                    rest
                };
            } else {
                assert(output@ =~= old(output)@ + Seq::<char>::empty());
            }
        },
        Token::Break { text, len } => {
            if content_break || *len as i128 >= *space {
                let level = config.initial_indent as u128 + frames.len() as u128;
                *space = print_break(output, config, level);
            } else {
                output.append(text.as_str());
                let rest = *space - (text.as_str().as_bytes().len() as i128);
                *space = if rest < -1 {
                    -1
                } else {
                    rest
                };
            }
        },
        Token::Begin { breaking, len } => {
            let group_break = *len as i128 >= *space && *breaking == BreakMode::Consistent;
            frames.push(PrintFrame { group_break, content_break: group_break });
            if group_break {
                let level = config.initial_indent as u128 + frames.len() as u128;
                *space = print_break(output, config, level);
            } else {
                assert(output@ =~= old(output)@ + Seq::<char>::empty());
            }
        },
        Token::End => {
            if frames.len() > 0 {
                let frame = frames[frames.len() - 1];
                frames.pop();
                if frame.group_break {
                    let level = config.initial_indent as u128 + frames.len() as u128;
                    *space = print_break(output, config, level);
                } else {
                    assert(output@ =~= old(output)@ + Seq::<char>::empty());
                }
            } else {
                assert(output@ =~= old(output)@ + Seq::<char>::empty());
            }
        },
        Token::Trivia { text } => {
            output.append(text.as_str());
        },
    }
}

impl<'a> Printer<'a> {
    /// The document as it is rendered: what has been scanned, and behind it the trivia
    /// that no checkpoint has spliced in.
    pub open spec fn final_doc(&self) -> Seq<Item> {
        self.doc() + spliced(self.trivia(), self.flushed() as int, self.trivia().len() as int)
    }

    /// Splices the next entry of the trivia into the document.
    fn splice_next(&mut self)
        requires
            old(self).wf(),
            old(self).flushed() < old(self).trivia().len(),
        ensures
            final(self).wf(),
            final(self).doc() == old(self).doc().push(
                Item::Trivia { content: old(self).trivia()[old(self).flushed() as int].text@ },
            ),
            final(self).config() == old(self).config(),
            final(self).trivia() == old(self).trivia(),
            final(self).flushed() == old(self).flushed() + 1,
            final(self).depth() == old(self).depth(),
    {
        let ghost before = self.tokens@;
        let ghost entries = self.secondary_tokens@;
        let ghost at = self.consumed as int;
        let text = self.secondary_tokens[self.consumed].text.to_owned();
        self.tokens.push(Token::Trivia { text });
        self.consumed = self.consumed + 1;
        proof {
            vstd::std_specs::vec::axiom_spec_len(&self.tokens);
            lemma_account_trivia(before, self.begin_stack@, self.last_break, text);
            lemma_trivia_of_push(items(before), Item::Trivia { content: text@ });
            assert(texts_of(entries.take(at + 1)) =~= texts_of(entries.take(at)).push(
                entries[at].text@,
            ));
        }
    }

    /// A checkpoint: splices into the document, in their order, all trivia not yet
    /// spliced in that lie before `span` in the source. A piece of trivia is rendered as
    /// it was written: its text alone, line breaks included, with no indentation put in
    /// front of it or behind it, and without taking from the room on the line.
    pub fn flush_trivia(&mut self, span: Span)
        requires
            old(self).wf(),
        ensures
            final(self).wf(),
            final(self).config() == old(self).config(),
            final(self).trivia() == old(self).trivia(),
            final(self).depth() == old(self).depth(),
            old(self).flushed() <= final(self).flushed() <= old(self).trivia().len(),
            final(self).flushed() == flush_stop(
                old(self).trivia(),
                old(self).flushed() as int,
                span,
            ),
            final(self).doc() == old(self).doc() + spliced(
                old(self).trivia(),
                old(self).flushed() as int,
                final(self).flushed() as int,
            ),
            forall|k: int|
                old(self).flushed() <= k < old(self).trivia().len() ==> (k < final(self).flushed()
                    <==> (#[trigger] old(self).trivia()[k]).span.precedes(span)),
    {
        let ghost entries = self.secondary_tokens@;
        let ghost from = self.consumed as int;
        proof {
            assert(self.doc() =~= old(self).doc() + spliced(entries, from, from));
        }
        while self.consumed < self.secondary_tokens.len()
            && self.secondary_tokens[self.consumed].span.comes_before(&span)
            invariant
                self.wf(),
                self.config() == old(self).config(),
                self.trivia() == entries,
                self.secondary_tokens@ == entries,
                self.depth() == old(self).depth(),
                from <= self.consumed <= entries.len(),
                flush_stop(entries, from, span) == flush_stop(entries, self.consumed as int, span),
                self.doc() == old(self).doc() + spliced(entries, from, self.consumed as int),
                forall|k: int|
                    from <= k < self.consumed ==> (#[trigger] entries[k]).span.precedes(span),
            decreases entries.len() - self.consumed,
        {
            let ghost scanned = self.doc();
            let ghost at = self.consumed as int;
            self.splice_next();
            proof {
                assert(scanned.push(Item::Trivia { content: entries[at].text@ }) =~= old(
                    self,
                ).doc() + spliced(entries, from, at + 1));
            }
        }
        proof {
            let stop = self.consumed as int;
            assert forall|k: int| from <= k < entries.len() implies (k < stop <==> (
            #[trigger] entries[k]).span.precedes(span)) by {
                if k > stop {
                    lemma_in_order_pairs(entries, stop, k);
                    if entries[k].span.precedes(span) {
                        lemma_precedes_transitive(entries[stop].span, entries[k].span, span);
                    }
                }
            }
        }
    }

    /// Renders the document. Every group must have been closed. Trivia that no checkpoint
    /// has spliced in come out at the end, in their order, each as it was written.
    pub fn eof(self) -> (output: String)
        requires
            self.wf(),
            self.depth() == 0,
        ensures
            output@ == render(self.config(), self.final_doc()),
    {
        let ghost entries = self.secondary_tokens@;
        let ghost from = self.consumed as int;
        let ghost scanned = self.doc();
        let ghost measures = self.config();
        let mut this = self;
        proof {
            assert(this.doc() =~= scanned + spliced(entries, from, from));
        }
        while this.consumed < this.secondary_tokens.len()
            invariant
                this.wf(),
                this.config() == measures,
                this.secondary_tokens@ == entries,
                this.depth() == 0,
                from <= this.consumed <= entries.len(),
                this.doc() == scanned + spliced(entries, from, this.consumed as int),
            decreases entries.len() - this.consumed,
        {
            let ghost so_far = this.doc();
            let ghost at = this.consumed as int;
            this.splice_next();
            proof {
                assert(so_far.push(Item::Trivia { content: entries[at].text@ }) =~= scanned
                    + spliced(entries, from, at + 1));
            }
        }
        proof {
            lemma_settled(this.tokens@, this.begin_stack@, this.last_break);
        }
        let config = this.config;
        let mut output = String::new();
        let mut space: i128 = if config.max_line_width >= config.min_width {
            config.max_line_width as i128
        } else {
            config.min_width as i128
        };
        let mut frames: Vec<PrintFrame> = Vec::new();
        let mut index: usize = 0;
        while index < this.tokens.len()
            invariant
                index <= this.tokens@.len(),
                settled(this.tokens@),
                frames@ == state_at(config, items(this.tokens@), index as nat).frames,
                space == floored(state_at(config, items(this.tokens@), index as nat).space),
                state_at(config, items(this.tokens@), index as nat).space <= usize::MAX,
                output@ == printed(config, items(this.tokens@), index as nat),
            decreases this.tokens@.len() - index,
        {
            print_token(&config, &this.tokens, index, &mut output, &mut space, &mut frames);
            index += 1;
        }
        output
    }
}

/// The trivia of a run of spliced entries are the texts of those entries.
proof fn lemma_trivia_of_spliced(trivia: Seq<Trivia<'_>>, from: int, to: int)
    requires
        0 <= from <= to <= trivia.len(),
    ensures
        trivia_of(spliced(trivia, from, to)) == texts_of(trivia.subrange(from, to)),
    decreases to - from,
{
    if from < to {
        lemma_trivia_of_spliced(trivia, from, to - 1);
        assert(spliced(trivia, from, to).drop_last() =~= spliced(trivia, from, to - 1));
        assert(texts_of(trivia.subrange(from, to)) =~= texts_of(
            trivia.subrange(from, to - 1),
        ).push(trivia[to - 1].text@));
    } else {
        assert(texts_of(trivia.subrange(from, to)) =~= Seq::<Seq<char>>::empty());
    }
}

impl<'a> Printer<'a> {
    /// No trivia is lost, doubled or moved: the trivia items of the document as it is
    /// rendered are the trivia of the source, one for one and in source order.
    pub proof fn lemma_final_trivia(&self)
        requires
            self.wf(),
        ensures
            trivia_of(self.final_doc()) == texts_of(self.trivia()),
    {
        let entries = self.trivia();
        let from = self.flushed() as int;
        let to = entries.len() as int;
        lemma_trivia_of_concat(self.doc(), spliced(entries, from, to));
        lemma_trivia_of_spliced(entries, from, to);
        assert(texts_of(entries.take(from)) + texts_of(entries.subrange(from, to)) =~= texts_of(
            entries,
        ));
    }

    /// Trivia keep their order: of two trivia of the source, the text of the earlier one
    /// stands in the rendered text, as it was written, before the text of the later one.
    pub proof fn lemma_trivia_ordering(&self, first: nat, second: nat)
        requires
            self.wf(),
            first < second < self.trivia().len(),
        ensures
            ({
                let out = render(self.config(), self.final_doc());
                let a = trivia_offset(self.config(), self.final_doc(), first);
                let b = trivia_offset(self.config(), self.final_doc(), second);
                let earlier = self.trivia()[first as int].text@;
                let later = self.trivia()[second as int].text@;
                &&& 0 <= a
                &&& a + earlier.len() <= b
                &&& b + later.len() <= out.len()
                &&& out.subrange(a, a + earlier.len()) == earlier
                &&& out.subrange(b, b + later.len()) == later
            }),
    {
        self.lemma_final_trivia();
        lemma_trivia_order_by_number(self.config(), self.final_doc(), first, second);
    }
}

} // verus!
