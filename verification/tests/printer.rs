use kosame::pretty::document::{BreakMode, TextMode};
use kosame::pretty::layout::{Config, INDENT, MARGIN, MIN_SPACE};
use kosame::pretty::printer::{print_break, Printer};

fn narrow(width: usize) -> Config {
    Config { max_line_width: width, indent_width: 4, min_width: 0, initial_indent: 0 }
}

fn select_group(printer: &mut Printer<'_>, mode: BreakMode) {
    printer.scan_begin(mode);
    printer.scan_text("select");
    printer.scan_break(" ");
    printer.scan_text("a, b, c, d, e, f, g, h");
    printer.scan_end();
}

fn skeleton(text: &str) -> String {
    text.chars().filter(|c| !matches!(c, ' ' | '\n' | '\t' | '\r')).collect()
}

#[test]
fn group_that_fits_stays_on_one_line() {
    let mut printer = Printer::new(&[], 89, 0);
    select_group(&mut printer, BreakMode::Consistent);
    assert_eq!(printer.eof(), "select a, b, c, d, e, f, g, h");
}

#[test]
fn inconsistent_group_breaks_where_the_line_is_full() {
    let mut printer = Printer::with_config(&[], narrow(10));
    select_group(&mut printer, BreakMode::Inconsistent);
    assert_eq!(printer.eof(), "select\n    a, b, c, d, e, f, g, h");
}

#[test]
fn consistent_group_breaks_as_a_whole() {
    let mut printer = Printer::with_config(&[], narrow(10));
    select_group(&mut printer, BreakMode::Consistent);
    assert_eq!(printer.eof(), "\n    select\n    a, b, c, d, e, f, g, h\n");
}

#[test]
fn first_line_never_has_less_than_the_minimum_room() {
    let mut printer = Printer::new(&[], 10, 0);
    select_group(&mut printer, BreakMode::Consistent);
    assert_eq!(printer.eof(), "select a, b, c, d, e, f, g, h");
}

#[test]
fn usual_measures() {
    assert_eq!(MARGIN, 89);
    assert_eq!(INDENT, 4);
    assert_eq!(MIN_SPACE, 60);
    assert_eq!(
        Config::default(),
        Config { max_line_width: 89, indent_width: 4, min_width: 60, initial_indent: 0 }
    );
    assert_eq!(
        Config::new(100, 2),
        Config { max_line_width: 100, indent_width: 4, min_width: 60, initial_indent: 2 }
    );
}

#[test]
fn empty_document_renders_to_nothing() {
    let printer = Printer::new(&[], 89, 0);
    assert_eq!(printer.eof(), "");
}

#[test]
fn conditional_text_follows_the_group() {
    let mut printer = Printer::with_config(&[], narrow(10));
    printer.scan_text("(");
    printer.scan_begin(BreakMode::Consistent);
    printer.scan_text("alpha,");
    printer.scan_break(" ");
    printer.scan_text("beta");
    printer.scan_text_with_mode(",", TextMode::Break);
    printer.scan_text_with_mode(" ", TextMode::NoBreak);
    printer.scan_end();
    printer.scan_text(")");
    assert_eq!(printer.eof(), "(\n    alpha,\n    beta,\n)");
}

#[test]
fn conditional_text_in_a_group_that_fits() {
    let mut printer = Printer::with_config(&[], narrow(40));
    printer.scan_text("{");
    printer.scan_begin(BreakMode::Consistent);
    printer.scan_text_with_mode(" ", TextMode::NoBreak);
    printer.scan_text("alpha,");
    printer.scan_break(" ");
    printer.scan_text("beta");
    printer.scan_text_with_mode(",", TextMode::Break);
    printer.scan_text_with_mode(" ", TextMode::NoBreak);
    printer.scan_end();
    printer.scan_text("}");
    assert_eq!(printer.eof(), "{ alpha, beta }");
}

#[test]
fn conditional_text_outside_all_groups() {
    let mut printer = Printer::with_config(&[], narrow(40));
    printer.scan_text_with_mode("a", TextMode::NoBreak);
    printer.scan_text_with_mode("b", TextMode::Break);
    printer.scan_text_with_mode("c", TextMode::Always);
    assert_eq!(printer.eof(), "ac");
}

#[test]
fn flat_document_gets_no_line_breaks() {
    let mut printer = Printer::with_config(&[], narrow(30));
    printer.scan_begin(BreakMode::Consistent);
    printer.scan_text("one");
    printer.scan_break(", ");
    printer.scan_begin(BreakMode::Inconsistent);
    printer.scan_text("two");
    printer.scan_break(" ");
    printer.scan_text("three");
    printer.scan_end();
    printer.scan_break(", ");
    printer.scan_text("four\nfive");
    printer.scan_end();
    assert_eq!(printer.eof(), "one, two three, four\nfive");
}

#[test]
fn consistent_group_breaks_every_break() {
    let mut printer = Printer::with_config(&[], narrow(10));
    printer.scan_begin(BreakMode::Consistent);
    printer.scan_text("aaaa");
    printer.scan_break(" ");
    printer.scan_text("bbbb");
    printer.scan_break(" ");
    printer.scan_text("cccc");
    printer.scan_end();
    assert_eq!(printer.eof(), "\n    aaaa\n    bbbb\n    cccc\n");
}

#[test]
fn separators_can_push_a_consistent_group_over_the_line() {
    let mut printer = Printer::with_config(&[], narrow(10));
    printer.scan_begin(BreakMode::Consistent);
    printer.scan_text("aaaa");
    printer.scan_break(" ");
    printer.scan_text("bbbb");
    printer.scan_break(" ");
    printer.scan_text("c");
    printer.scan_end();
    assert_eq!(printer.eof(), "aaaa bbbb\n    c");
}

#[test]
fn inconsistent_group_breaks_some_breaks_only() {
    let mut printer = Printer::with_config(&[], narrow(20));
    printer.scan_begin(BreakMode::Inconsistent);
    printer.scan_text("aaaa");
    printer.scan_break(" ");
    printer.scan_text("bbbb");
    printer.scan_break(" ");
    printer.scan_text("cccccccccccc");
    printer.scan_break(" ");
    printer.scan_text("dd");
    printer.scan_end();
    assert_eq!(printer.eof(), "aaaa bbbb\n    cccccccccccc dd");
}

#[test]
fn inner_group_decides_for_itself() {
    let mut printer = Printer::with_config(&[], narrow(12));
    printer.scan_begin(BreakMode::Consistent);
    printer.scan_text("outer");
    printer.scan_break(" ");
    printer.scan_begin(BreakMode::Consistent);
    printer.scan_text("in");
    printer.scan_break(" ");
    printer.scan_text("ner");
    printer.scan_end();
    printer.scan_break(" ");
    printer.scan_text("tail");
    printer.scan_end();
    assert_eq!(printer.eof(), "\n    outer\n    in ner\n    tail\n");
}

#[test]
fn break_reaches_into_a_group_that_follows() {
    let mut printer = Printer::with_config(&[], narrow(10));
    printer.scan_begin(BreakMode::Inconsistent);
    printer.scan_text("aaaa");
    printer.scan_break(" ");
    printer.scan_begin(BreakMode::Inconsistent);
    printer.scan_text("bbbbbb");
    printer.scan_end();
    printer.scan_end();
    assert_eq!(printer.eof(), "aaaa\n    bbbbbb");
}

#[test]
fn break_does_not_reach_past_the_end_of_a_group() {
    let mut printer = Printer::with_config(&[], narrow(10));
    printer.scan_begin(BreakMode::Inconsistent);
    printer.scan_text("aaaa");
    printer.scan_break(" ");
    printer.scan_begin(BreakMode::Inconsistent);
    printer.scan_text("bb");
    printer.scan_end();
    printer.scan_text("cccccc");
    printer.scan_end();
    assert_eq!(printer.eof(), "aaaa bbcccccc");
}

#[test]
fn indentation_keeps_the_minimum_room() {
    let roomy = Config { max_line_width: 10, indent_width: 4, min_width: 8, initial_indent: 0 };
    let mut printer = Printer::with_config(&[], roomy);
    printer.scan_begin(BreakMode::Inconsistent);
    printer.scan_text("aaaa");
    printer.scan_break(" ");
    printer.scan_text("bbbb");
    printer.scan_break(" ");
    printer.scan_text("ccccc");
    printer.scan_break(" ");
    printer.scan_text("d");
    printer.scan_end();
    assert_eq!(printer.eof(), "aaaa bbbb\n    ccccc d");

    let mut printer = Printer::with_config(&[], narrow(10));
    printer.scan_begin(BreakMode::Inconsistent);
    printer.scan_text("aaaa");
    printer.scan_break(" ");
    printer.scan_text("bbbb");
    printer.scan_break(" ");
    printer.scan_text("ccccc");
    printer.scan_break(" ");
    printer.scan_text("d");
    printer.scan_end();
    assert_eq!(printer.eof(), "aaaa bbbb\n    ccccc\n    d");
}

#[test]
fn document_starts_at_the_initial_indent() {
    let config = Config { max_line_width: 20, indent_width: 4, min_width: 0, initial_indent: 2 };
    let mut printer = Printer::with_config(&[], config);
    printer.scan_begin(BreakMode::Inconsistent);
    printer.scan_text("aaaaaaaaaaaaaaa");
    printer.scan_break(" ");
    printer.scan_text("bbbbbbbb");
    printer.scan_end();
    assert_eq!(printer.eof(), "aaaaaaaaaaaaaaa\n            bbbbbbbb");
}

#[test]
fn indent_width_is_configured() {
    let config = Config { max_line_width: 10, indent_width: 2, min_width: 0, initial_indent: 0 };
    let mut printer = Printer::with_config(&[], config);
    select_group(&mut printer, BreakMode::Consistent);
    assert_eq!(printer.eof(), "\n  select\n  a, b, c, d, e, f, g, h\n");

    let config = Config { max_line_width: 10, indent_width: 0, min_width: 0, initial_indent: 3 };
    let mut printer = Printer::with_config(&[], config);
    select_group(&mut printer, BreakMode::Consistent);
    assert_eq!(printer.eof(), "\nselect\na, b, c, d, e, f, g, h\n");
}

#[test]
fn width_counts_bytes() {
    let mut printer = Printer::with_config(&[], narrow(9));
    printer.scan_begin(BreakMode::Inconsistent);
    printer.scan_text("ab");
    printer.scan_break(" ");
    printer.scan_text("ééééé");
    printer.scan_end();
    assert_eq!(printer.eof(), "ab\n    ééééé");

    let mut printer = Printer::with_config(&[], narrow(9));
    printer.scan_begin(BreakMode::Inconsistent);
    printer.scan_text("ab");
    printer.scan_break(" ");
    printer.scan_text("eeeee");
    printer.scan_end();
    assert_eq!(printer.eof(), "ab eeeee");
}

#[test]
fn break_fires_when_the_room_is_just_taken() {
    let mut printer = Printer::with_config(&[], narrow(8));
    printer.scan_begin(BreakMode::Inconsistent);
    printer.scan_text("ab");
    printer.scan_break(" ");
    printer.scan_text("ccccc");
    printer.scan_end();
    assert_eq!(printer.eof(), "ab\n    ccccc");

    let mut printer = Printer::with_config(&[], narrow(9));
    printer.scan_begin(BreakMode::Inconsistent);
    printer.scan_text("ab");
    printer.scan_break(" ");
    printer.scan_text("ccccc");
    printer.scan_end();
    assert_eq!(printer.eof(), "ab ccccc");
}

#[test]
fn lines_stay_within_the_width() {
    let mut printer = Printer::with_config(&[], narrow(12));
    printer.scan_begin(BreakMode::Inconsistent);
    printer.scan_text("one");
    for word in ["two", "three", "four", "five", "six", "seven", "eight"] {
        printer.scan_break(" ");
        printer.scan_text(word);
    }
    printer.scan_end();
    let output = printer.eof();
    assert_eq!(output, "one two\n    three\n    four\n    five\n    six\n    seven\n    eight");
    for line in output.split('\n') {
        assert!(line.len() <= 12);
    }
}

#[test]
fn text_that_is_too_long_runs_over() {
    let mut printer = Printer::with_config(&[], narrow(10));
    printer.scan_begin(BreakMode::Inconsistent);
    printer.scan_text("short");
    printer.scan_break(" ");
    printer.scan_text("much_too_long_for_a_line");
    printer.scan_break(" ");
    printer.scan_text("end");
    printer.scan_end();
    let output = printer.eof();
    assert_eq!(output, "short\n    much_too_long_for_a_line\n    end");
    let lines: Vec<&str> = output.split('\n').collect();
    assert!(lines[0].len() <= 10);
    assert_eq!(lines[1].len(), 28);
    assert!(lines[2].len() <= 10);
}

#[test]
fn text_behind_a_group_can_run_over() {
    let mut printer = Printer::with_config(&[], narrow(10));
    printer.scan_begin(BreakMode::Inconsistent);
    printer.scan_text("aaaaaaaa");
    printer.scan_end();
    printer.scan_text("bbbb");
    assert_eq!(printer.eof(), "aaaaaaaabbbb");
}

#[test]
fn rendering_changes_white_space_only() {
    for width in [5, 10, 20, 40, 89] {
        let mut printer = Printer::with_config(&[], narrow(width));
        printer.scan_text("fn");
        printer.scan_text_with_mode(" ", TextMode::NoBreak);
        printer.scan_begin(BreakMode::Consistent);
        printer.scan_text("alpha");
        printer.scan_break(" ");
        printer.scan_begin(BreakMode::Inconsistent);
        printer.scan_text("beta");
        printer.scan_break("  ");
        printer.scan_text("gamma delta");
        printer.scan_end();
        printer.scan_break("\t");
        printer.scan_text("omega");
        printer.scan_end();
        assert_eq!(skeleton(&printer.eof()), "fnalphabetagammadeltaomega");
    }
}

#[test]
fn open_groups_are_counted() {
    let mut printer = Printer::new(&[], 89, 0);
    assert_eq!(printer.open_groups(), 0);
    printer.scan_begin(BreakMode::Consistent);
    printer.scan_begin(BreakMode::Inconsistent);
    assert_eq!(printer.open_groups(), 2);
    printer.scan_end();
    assert_eq!(printer.open_groups(), 1);
    printer.scan_end();
    assert_eq!(printer.open_groups(), 0);
    assert_eq!(printer.eof(), "");
}

#[test]
fn owned_text_is_scanned_like_a_literal() {
    let mut printer = Printer::new(&[], 89, 0);
    printer.scan_text(String::from("from"));
    printer.scan_break(" ");
    printer.scan_text("users");
    assert_eq!(printer.eof(), "from users");
}

#[test]
fn hard_line_break_is_a_newline_and_the_indentation() {
    let mut output = String::from("select");
    let space = print_break(&mut output, &Config::default(), 2);
    assert_eq!(output, "select\n        ");
    assert_eq!(space, 81);

    let mut output = String::new();
    let space = print_break(&mut output, &Config::default(), 0);
    assert_eq!(output, "\n");
    assert_eq!(space, 89);

    let deep = Config { max_line_width: 20, indent_width: 3, min_width: 8, initial_indent: 0 };
    let mut output = String::from("a");
    let space = print_break(&mut output, &deep, 5);
    assert_eq!(output, format!("a\n{}", " ".repeat(15)));
    assert_eq!(space, 8);
}
