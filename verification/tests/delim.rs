use kosame::pretty::delim::{Brace, Bracket, Delim, DelimSpan, Delimiter, Paren};
use kosame::pretty::document::BreakMode;
use kosame::pretty::layout::Config;
use kosame::pretty::printer::Printer;
use kosame::pretty::shape::{Attribute, Macro, PrettyPrint};
use kosame::pretty::span::{LineColumn, Span};
use kosame::pretty::text::Trivia;

fn span(line: usize, from: usize, to: usize) -> Span {
    Span::new(LineColumn { line, column: from }, LineColumn { line, column: to })
}

fn around(open: Span, close: Span) -> DelimSpan {
    DelimSpan { open, close }
}

fn narrow(width: usize) -> Config {
    Config { max_line_width: width, indent_width: 4, min_width: 0, initial_indent: 0 }
}

#[test]
fn delimiters_know_their_texts() {
    let place = around(span(1, 0, 1), span(1, 5, 6));
    assert_eq!(Paren { span: place }.open_text(), "(");
    assert_eq!(Paren { span: place }.close_text(), ")");
    assert_eq!(Bracket { span: place }.open_text(), "[");
    assert_eq!(Bracket { span: place }.close_text(), "]");
    assert_eq!(Brace { span: place }.open_text(), "{");
    assert_eq!(Brace { span: place }.close_text(), "}");
    assert_eq!(Paren { span: place }.span(), place);
    assert_eq!(Bracket { span: place }.span(), place);
    assert_eq!(Brace { span: place }.span(), place);
}

#[test]
fn delimiter_has_a_span_unless_it_is_empty() {
    let place = around(span(1, 0, 1), span(1, 5, 6));
    let paren = Paren { span: place };
    let brace = Brace { span: place };
    let bracket = Bracket { span: place };
    assert_eq!(Delimiter::Paren(&paren).span(), Some(place));
    assert_eq!(Delimiter::Brace(&brace).span(), Some(place));
    assert_eq!(Delimiter::Bracket(&bracket).span(), Some(place));
    assert_eq!(Delimiter::Empty.span(), None);
}

#[test]
fn delimiters_wrap_a_group() {
    let paren = Paren { span: around(span(1, 0, 1), span(1, 5, 6)) };
    let mut printer = Printer::new(&[], 89, 0);
    paren.pretty_print(&mut printer, BreakMode::Consistent, &"x, y");
    assert_eq!(printer.eof(), "(x, y)");

    let mut printer = Printer::with_config(&[], narrow(3));
    paren.pretty_print(&mut printer, BreakMode::Consistent, &"abcdef");
    assert_eq!(printer.eof(), "(\n    abcdef\n)");

    let mut printer = Printer::with_config(&[], narrow(3));
    paren.pretty_print(&mut printer, BreakMode::Inconsistent, &"abcdef");
    assert_eq!(printer.eof(), "(abcdef)");
}

#[test]
fn delimiters_splice_in_the_trivia_before_them() {
    let trivia = [
        Trivia { span: span(1, 0, 7), text: "/* a */" },
        Trivia { span: span(2, 3, 10), text: "/* b */" },
        Trivia { span: span(4, 0, 7), text: "/* c */" },
    ];
    let bracket = Bracket { span: around(span(2, 0, 1), span(3, 0, 1)) };
    let mut printer = Printer::new(&trivia, 89, 0);
    bracket.pretty_print(&mut printer, BreakMode::Consistent, &"x");
    assert_eq!(printer.eof(), "/* a */[x/* b */]/* c */");
}

#[test]
fn entering_and_leaving_are_the_two_halves() {
    let brace = Brace { span: around(span(1, 0, 1), span(1, 9, 10)) };
    let mut printer = Printer::new(&[], 89, 0);
    brace.enter(&mut printer, BreakMode::Consistent);
    assert_eq!(printer.open_groups(), 1);
    printer.scan_text("a");
    printer.scan_break(" ");
    printer.scan_text("b");
    brace.leave(&mut printer);
    assert_eq!(printer.open_groups(), 0);
    assert_eq!(printer.eof(), "{a b}");
}

#[test]
fn invocation_prints_between_its_delimiters() {
    let place = around(span(1, 0, 1), span(1, 9, 10));
    let mut printer = Printer::new(&[], 89, 0);
    Macro::Parenthesized { paren: Paren { span: place }, inner: "x" }.pretty_print(&mut printer);
    printer.scan_text(" ");
    Macro::Bracketed { bracket: Bracket { span: place }, inner: "y" }.pretty_print(&mut printer);
    printer.scan_text(" ");
    Macro::Braced { brace: Brace { span: place }, inner: "z" }.pretty_print(&mut printer);
    assert_eq!(printer.eof(), "(x) [y] { z }");
}

#[test]
fn broken_invocation_drops_the_spaces_inside_braces() {
    let place = around(span(1, 0, 1), span(1, 9, 10));
    let mut printer = Printer::with_config(&[], narrow(6));
    Macro::Braced { brace: Brace { span: place }, inner: "select" }.pretty_print(&mut printer);
    assert_eq!(printer.eof(), "{\n    select\n}");

    let mut printer = Printer::with_config(&[], narrow(6));
    Macro::Parenthesized { paren: Paren { span: place }, inner: "select" }
        .pretty_print(&mut printer);
    assert_eq!(printer.eof(), "(\n    select\n)");
}

#[test]
fn invocations_nest() {
    let place = around(span(1, 0, 1), span(1, 9, 10));
    let inner = Macro::Bracketed { bracket: Bracket { span: place }, inner: "a" };
    let outer = Macro::Parenthesized { paren: Paren { span: place }, inner };
    let mut printer = Printer::new(&[], 89, 0);
    outer.pretty_print(&mut printer);
    assert_eq!(printer.eof(), "([a])");
}

#[test]
fn braces_keep_their_space_in_front_of_the_trivia_before_them() {
    let trivia = [
        Trivia { span: span(1, 0, 7), text: "/* a */" },
        Trivia { span: span(2, 3, 10), text: "/* b */" },
        Trivia { span: span(4, 0, 7), text: "/* c */" },
    ];
    let brace = Brace { span: around(span(2, 0, 1), span(3, 0, 1)) };
    let mut printer = Printer::new(&trivia, 89, 0);
    Macro::Braced { brace, inner: "z" }.pretty_print(&mut printer);
    assert_eq!(printer.eof(), "/* a */{ z /* b */}/* c */");
}

#[test]
fn content_is_printed_once_between_the_delimiters() {
    let place = around(span(1, 0, 1), span(1, 9, 10));
    let mut printer = Printer::new(&[], 89, 0);
    printer.scan_text("f");
    Paren { span: place }.pretty_print(&mut printer, BreakMode::Inconsistent, &"x");
    Bracket { span: place }.pretty_print(&mut printer, BreakMode::Inconsistent, &"y");
    assert_eq!(printer.open_groups(), 0);
    assert_eq!(printer.eof(), "f(x)[y]");
}

#[test]
fn attribute_prints_as_it_stood() {
    let outer = Attribute {
        pound: span(1, 0, 1),
        not: None,
        source_text: Some(String::from("[derive(Debug)]")),
    };
    let inner = Attribute {
        pound: span(2, 0, 1),
        not: Some(span(2, 1, 2)),
        source_text: Some(String::from("[allow(unused)]")),
    };
    let bare = Attribute { pound: span(3, 0, 1), not: Some(span(3, 1, 2)), source_text: None };
    let mut printer = Printer::new(&[], 89, 0);
    outer.pretty_print(&mut printer);
    printer.scan_text(" ");
    inner.pretty_print(&mut printer);
    printer.scan_text(" ");
    bare.pretty_print(&mut printer);
    assert_eq!(printer.eof(), "#[derive(Debug)] #![allow(unused)] #!");
}
