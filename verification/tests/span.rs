use kosame::pretty::span::{LineColumn, Span};

fn at(line: usize, column: usize) -> LineColumn {
    LineColumn { line, column }
}

#[test]
fn span_keeps_its_positions() {
    let span = Span::new(at(1, 2), at(3, 4));
    assert_eq!(span.start(), at(1, 2));
    assert_eq!(span.end(), at(3, 4));
}

#[test]
fn span_follows_where_the_other_ends() {
    let first = Span::new(at(1, 0), at(1, 5));
    let second = Span::new(at(1, 5), at(1, 9));
    let third = Span::new(at(1, 6), at(1, 9));
    let below = Span::new(at(2, 5), at(2, 9));
    assert!(second.immediately_follows(&first));
    assert!(!first.immediately_follows(&second));
    assert!(!third.immediately_follows(&first));
    assert!(!below.immediately_follows(&first));
}

#[test]
fn span_comes_before_by_line_then_column() {
    let first = Span::new(at(1, 0), at(1, 5));
    let touching = Span::new(at(1, 5), at(1, 9));
    let overlapping = Span::new(at(1, 4), at(1, 9));
    let below = Span::new(at(2, 0), at(2, 1));
    assert!(first.comes_before(&touching));
    assert!(!first.comes_before(&overlapping));
    assert!(first.comes_before(&below));
    assert!(!below.comes_before(&first));
    assert!(!touching.comes_before(&first));
    let long = Span::new(at(1, 0), at(3, 0));
    let inside = Span::new(at(2, 7), at(2, 9));
    assert!(!long.comes_before(&inside));
    assert!(long.comes_before(&Span::new(at(3, 0), at(3, 1))));
}

#[test]
fn proper_span_starts_before_it_ends() {
    assert!(Span::new(at(1, 2), at(1, 2)).is_proper());
    assert!(Span::new(at(1, 2), at(2, 0)).is_proper());
    assert!(!Span::new(at(1, 2), at(1, 1)).is_proper());
    assert!(!Span::new(at(2, 0), at(1, 9)).is_proper());
}
