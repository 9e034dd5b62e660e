use kosame::pretty::document::BreakMode;
use kosame::pretty::layout::Config;
use kosame::pretty::printer::Printer;
use kosame::pretty::span::{LineColumn, Span};
use kosame::pretty::text::{is_in_order, Fragment, Text, Trivia};

fn at(line: usize, column: usize) -> LineColumn {
    LineColumn { line, column }
}

fn span(line: usize, from: usize, to: usize) -> Span {
    Span::new(at(line, from), at(line, to))
}

fn comments() -> [Trivia<'static>; 3] {
    [
        Trivia { span: span(1, 0, 8), text: "// first\n" },
        Trivia { span: span(3, 0, 9), text: "// second\n" },
        Trivia { span: span(9, 0, 8), text: "// third\n" },
    ]
}

#[test]
fn trivia_are_spliced_in_at_checkpoints() {
    let trivia = comments();
    let mut printer = Printer::new(&trivia, 89, 0);
    printer.flush_trivia(span(2, 0, 1));
    printer.scan_text("a");
    printer.flush_trivia(span(5, 0, 1));
    printer.scan_text("b");
    assert_eq!(printer.eof(), "// first\na// second\nb// third\n");
}

#[test]
fn checkpoint_takes_every_trivia_before_it() {
    let trivia = comments();
    let mut printer = Printer::new(&trivia, 89, 0);
    printer.flush_trivia(span(5, 0, 1));
    printer.scan_text("a");
    assert_eq!(printer.eof(), "// first\n// second\na// third\n");
}

#[test]
fn checkpoint_in_front_of_all_trivia_takes_none() {
    let trivia = comments();
    let mut printer = Printer::new(&trivia, 89, 0);
    printer.flush_trivia(span(0, 0, 1));
    printer.scan_text("a");
    printer.flush_trivia(span(1, 7, 9));
    printer.scan_text("b");
    assert_eq!(printer.eof(), "ab// first\n// second\n// third\n");
}

#[test]
fn trivia_that_ends_where_the_span_begins_lies_before_it() {
    let trivia = comments();
    let mut printer = Printer::new(&trivia, 89, 0);
    printer.flush_trivia(span(1, 8, 9));
    printer.scan_text("a");
    assert_eq!(printer.eof(), "// first\na// second\n// third\n");
}

#[test]
fn trivia_left_over_come_out_at_the_end() {
    let trivia = comments();
    let mut printer = Printer::new(&trivia, 89, 0);
    printer.scan_text("a");
    assert_eq!(printer.eof(), "a// first\n// second\n// third\n");
}

#[test]
fn trivia_take_no_room() {
    let trivia = [Trivia { span: span(1, 0, 30), text: "/* a comment of some length */" }];
    let config = Config { max_line_width: 10, indent_width: 4, min_width: 0, initial_indent: 0 };
    let mut printer = Printer::with_config(&trivia, config);
    printer.scan_begin(BreakMode::Inconsistent);
    printer.scan_text("aaaa");
    printer.flush_trivia(span(2, 0, 1));
    printer.scan_break(" ");
    printer.scan_text("bbbb");
    printer.scan_end();
    assert_eq!(printer.eof(), "aaaa/* a comment of some length */ bbbb");
}

#[test]
fn trivia_keep_their_order_in_the_output() {
    let trivia = comments();
    let mut printer = Printer::new(&trivia, 89, 0);
    printer.scan_begin(BreakMode::Consistent);
    printer.flush_trivia(span(2, 0, 1));
    printer.scan_text("a");
    printer.scan_break(" ");
    printer.flush_trivia(span(4, 0, 1));
    printer.scan_text("b");
    printer.scan_end();
    let output = printer.eof();
    let first = output.find("// first\n").unwrap();
    let second = output.find("// second\n").unwrap();
    let third = output.find("// third\n").unwrap();
    assert!(first + "// first\n".len() <= second);
    assert!(second + "// second\n".len() <= third);
}

#[test]
fn order_of_trivia_is_checked() {
    assert!(is_in_order(&comments()));
    assert!(is_in_order(&[]));
    let swapped = [
        Trivia { span: span(3, 0, 9), text: "// second\n" },
        Trivia { span: span(1, 0, 8), text: "// first\n" },
    ];
    assert!(!is_in_order(&swapped));
    let overlapping = [
        Trivia { span: span(1, 0, 8), text: "a" },
        Trivia { span: span(1, 7, 9), text: "b" },
    ];
    assert!(!is_in_order(&overlapping));
    let backwards = [Trivia { span: Span::new(at(2, 0), at(1, 0)), text: "a" }];
    assert!(!is_in_order(&backwards));
    let touching = [
        Trivia { span: span(1, 0, 8), text: "a" },
        Trivia { span: span(1, 8, 9), text: "b" },
    ];
    assert!(is_in_order(&touching));
}

#[test]
fn fragment_knows_its_place() {
    let fragment = Fragment::new(String::from("users"), span(4, 2, 7));
    assert_eq!(fragment.span(), Some(span(4, 2, 7)));
    assert_eq!(fragment.into_string(), "users");
    assert_eq!("users".span(), None);
    assert_eq!(String::from("users").span(), None);
    assert_eq!("users".into_string(), "users");
}

#[test]
fn fragment_is_scanned_as_text() {
    let mut printer = Printer::new(&[], 89, 0);
    printer.scan_text(Fragment::new(String::from("users"), span(4, 2, 7)));
    assert_eq!(printer.eof(), "users");
}
