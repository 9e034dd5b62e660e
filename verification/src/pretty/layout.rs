//! What a document renders to: the state of a rendering and its steps.

use crate::pretty::document::{break_need, group_need, width, BreakMode, Item, TextMode};
use vstd::prelude::*;

verus! {

/// The line width used where the caller names none.
pub const MARGIN: usize = 89;

/// The number of spaces by which each open group indents its lines.
pub const INDENT: usize = 4;

/// The room that a line keeps however deep its indentation is.
pub const MIN_SPACE: usize = 60;

/// A run of `count` spaces.
pub open spec fn spaces(count: nat) -> Seq<char> {
    Seq::new(count, |i: int| ' ')
}

/// The measures that a rendering goes by.
#[derive(Debug, Clone, Copy, PartialEq, Eq, Structural)]
pub struct Config {
    /// The width that lines should stay within.
    pub max_line_width: usize,
    /// The number of spaces per level of indentation.
    pub indent_width: usize,
    /// The room left to a line when indentation would leave it less.
    pub min_width: usize,
    /// The level of indentation at which the document starts.
    pub initial_indent: usize,
}

impl Config {
    /// The room on the first line.
    pub open spec fn initial_space(self) -> int {
        if self.max_line_width >= self.min_width {
            self.max_line_width as int
        } else {
            self.min_width as int
        }
    }

    /// The room on a fresh line at the given level of indentation.
    pub open spec fn line_space(self, level: nat) -> int {
        if self.max_line_width - level * self.indent_width >= self.min_width {
            self.max_line_width - level * self.indent_width
        } else {
            self.min_width as int
        }
    }

    /// The spaces that begin a line at the given level of indentation.
    pub open spec fn indentation(self, level: nat) -> Seq<char> {
        spaces((level * self.indent_width) as nat)
    }

    /// What a hard line break puts out: a newline and the indentation of the next line.
    pub open spec fn line_break(self, level: nat) -> Seq<char> {
        seq!['\n'] + self.indentation(level)
    }

    /// A configuration with the given line width and starting level, and the usual
    /// indentation and minimum.
    pub fn new(max_line_width: usize, initial_indent: usize) -> (config: Config)
        ensures
            config == (Config {
                max_line_width,
                indent_width: INDENT,
                min_width: MIN_SPACE,
                initial_indent,
            }),
    {
        Config { max_line_width, indent_width: INDENT, min_width: MIN_SPACE, initial_indent }
    }
}

impl Default for Config {
    fn default() -> (config: Config)
        ensures
            config == (Config {
                max_line_width: MARGIN,
                indent_width: INDENT,
                min_width: MIN_SPACE,
                initial_indent: 0,
            }),
    {
        Config {
            max_line_width: MARGIN,
            indent_width: INDENT,
            min_width: MIN_SPACE,
            initial_indent: 0,
        }
    }
}

/// What the rendering remembers of one open group.
#[derive(Debug, Clone, Copy, PartialEq, Eq, Structural)]
pub struct PrintFrame {
    /// Whether the group chose to break when it was opened.
    pub group_break: bool,
    /// Whether the breaks and conditional texts directly in the group count as broken.
    pub content_break: bool,
}

/// The state of a rendering between two items.
pub struct Layout {
    /// The room left on the current line; negative once the line has run over.
    pub space: int,
    /// One frame for each group that is open, the innermost last.
    pub frames: Seq<PrintFrame>,
}

impl Layout {
    /// The state in which a rendering starts.
    pub open spec fn start(config: Config) -> Layout {
        Layout { space: config.initial_space(), frames: Seq::empty() }
    }

    /// Whether the innermost open group counts as broken; outside all groups nothing does.
    pub open spec fn content_break(self) -> bool {
        self.frames.len() > 0 && self.frames.last().content_break
    }

    /// The current level of indentation.
    pub open spec fn level(self, config: Config) -> nat {
        config.initial_indent as nat + self.frames.len()
    }
}

/// Whether a text of the given mode shows, given whether its group counts as broken.
pub open spec fn shows(mode: TextMode, content_break: bool) -> bool {
    match mode {
        TextMode::Always => true,
        TextMode::NoBreak => !content_break,
        TextMode::Break => content_break,
    }
}

/// Whether a break that asks for `need` ends the line in state `state`.
pub open spec fn break_fires(state: Layout, need: nat) -> bool {
    state.content_break() || need >= state.space
}

/// Whether a group of the given mode that asks for `need` breaks when it opens in state `state`.
pub open spec fn group_breaks(state: Layout, mode: BreakMode, need: nat) -> bool {
    mode == BreakMode::Consistent && need >= state.space
}

/// The state behind item `index` of the document, given the state in front of it. A piece
/// of trivia leaves the state as it is: it takes no room, even where it ends the line.
pub open spec fn step(config: Config, doc: Seq<Item>, index: int, state: Layout) -> Layout {
    match doc[index] {
        Item::Text { content, mode, .. } => {
            if shows(mode, state.content_break()) {
                Layout { space: state.space - width(content), frames: state.frames }
            } else {
                state
            }
        },
        Item::Break { content } => {
            if break_fires(state, break_need(doc, index)) {
                Layout { space: config.line_space(state.level(config)), frames: state.frames }
            } else {
                Layout { space: state.space - width(content), frames: state.frames }
            }
        },
        Item::Begin { breaking } => {
            let broken = group_breaks(state, breaking, group_need(doc, index));
            let frames = state.frames.push(
                PrintFrame { group_break: broken, content_break: broken },
            );
            Layout {
                space: if broken {
                    config.line_space(state.level(config) + 1)
                } else {
                    state.space
                },
                frames,
            }
        },
        Item::End => {
            if state.frames.len() == 0 {
                state
            } else {
                Layout {
                    space: if state.frames.last().group_break {
                        config.line_space((state.level(config) - 1) as nat)
                    } else {
                        state.space
                    },
                    frames: state.frames.drop_last(),
                }
            }
        },
        Item::Trivia { .. } => state,
    }
}

/// What item `index` of the document puts out in state `state`. A piece of trivia puts
/// out its text as it was written and nothing more: no indentation is added to it, so
/// what follows a piece of trivia that ends its line begins at the start of the next line.
pub open spec fn piece(config: Config, doc: Seq<Item>, index: int, state: Layout) -> Seq<char> {
    match doc[index] {
        Item::Text { content, mode, .. } => {
            if shows(mode, state.content_break()) {
                content
            } else {
                Seq::empty()
            }
        },
        Item::Break { content } => {
            if break_fires(state, break_need(doc, index)) {
                config.line_break(state.level(config))
            } else {
                content
            }
        },
        Item::Begin { breaking } => {
            if group_breaks(state, breaking, group_need(doc, index)) {
                config.line_break(state.level(config) + 1)
            } else {
                Seq::empty()
            }
        },
        Item::End => {
            if state.frames.len() > 0 && state.frames.last().group_break {
                config.line_break((state.level(config) - 1) as nat)
            } else {
                Seq::empty()
            }
        },
        Item::Trivia { content } => content,
    }
}

/// The state of the rendering in front of item `count`, that is behind the first `count` items.
pub open spec fn state_at(config: Config, doc: Seq<Item>, count: nat) -> Layout
    decreases count,
{
    if count == 0 {
        Layout::start(config)
    } else {
        step(config, doc, count - 1, state_at(config, doc, (count - 1) as nat))
    }
}

/// What the first `count` items of the document put out.
pub open spec fn printed(config: Config, doc: Seq<Item>, count: nat) -> Seq<char>
    decreases count,
{
    if count == 0 {
        Seq::empty()
    } else {
        printed(config, doc, (count - 1) as nat) + piece(
            config,
            doc,
            count - 1,
            state_at(config, doc, (count - 1) as nat),
        )
    }
}

/// The text that the whole document renders to.
pub open spec fn render(config: Config, doc: Seq<Item>) -> Seq<char> {
    printed(config, doc, doc.len())
}

/// What an item puts out when nothing is broken: its text unless that shows only in a
/// broken group, or its separator.
pub open spec fn flat_piece(item: Item) -> Seq<char> {
    match item {
        Item::Text { content, mode, .. } => {
            if shows(mode, false) {
                content
            } else {
                Seq::empty()
            }
        },
        Item::Break { content } => content,
        Item::Trivia { content } => content,
        _ => Seq::empty(),
    }
}

/// The first `count` items of the document on one line.
pub open spec fn flat(doc: Seq<Item>, count: nat) -> Seq<char>
    decreases count,
{
    if count == 0 {
        Seq::empty()
    } else {
        flat(doc, (count - 1) as nat) + flat_piece(doc[count - 1])
    }
}

/// Whether no frame of a stack is broken.
pub open spec fn unbroken(frames: Seq<PrintFrame>) -> bool {
    forall|i: int|
        0 <= i < frames.len() ==> !(#[trigger] frames[i]).group_break && !frames[i].content_break
}

/// The shape of a hard line break: one newline, then `indent_width` spaces for each level
/// of indentation, and nothing else.
pub proof fn lemma_line_break_shape(config: Config, level: nat)
    ensures
        config.line_break(level).len() == 1 + level * config.indent_width,
        config.line_break(level)[0] == '\n',
        forall|i: int|
            1 <= i < config.line_break(level).len() ==> #[trigger] config.line_break(level)[i]
                == ' ',
        config.line_break(level) == seq!['\n'] + spaces((level * config.indent_width) as nat),
{
    assert(level * config.indent_width >= 0) by (nonlinear_arith)
        requires
            level >= 0,
            config.indent_width >= 0,
    ;
    let line = config.line_break(level);
    assert forall|i: int| 1 <= i < line.len() implies #[trigger] line[i] == ' ' by {
        assert(line[i] == config.indentation(level)[i - 1]);
    }
}

} // verus!
