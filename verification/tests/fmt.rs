use kosame::fmt::{apply, can_apply, Replace};

fn replace(start: usize, end: usize, text: &str) -> Replace {
    Replace { start, end, replacement: String::from(text) }
}

#[test]
fn replacements_are_made_in_their_order() {
    let input = "table!{ a }  pg_table!( b )";
    let replacements = vec![replace(7, 10, "x"), replace(23, 26, "yy")];
    assert!(can_apply(input.len(), &replacements));
    let output = apply(input.as_bytes(), &replacements);
    assert_eq!(String::from_utf8(output).unwrap(), "table!{x}  pg_table!(yy)");
}

#[test]
fn file_without_replacements_stays() {
    assert!(can_apply(5, &vec![]));
    assert_eq!(apply(b"hello", &vec![]), b"hello");
    assert_eq!(apply(b"", &vec![]), b"");
}

#[test]
fn replacement_can_fill_an_empty_stretch() {
    let replacements = vec![replace(0, 0, ">"), replace(3, 3, "<")];
    assert!(can_apply(3, &replacements));
    assert_eq!(apply(b"abc", &replacements), b">abc<");
}

#[test]
fn replacement_can_take_the_whole_file() {
    let replacements = vec![replace(0, 3, "")];
    assert_eq!(apply(b"abc", &replacements), b"");
}

#[test]
fn replacements_must_lie_in_the_file_and_in_order() {
    assert!(!can_apply(3, &vec![replace(4, 4, "x")]));
    assert!(!can_apply(3, &vec![replace(1, 4, "x")]));
    assert!(!can_apply(9, &vec![replace(4, 6, "x"), replace(5, 7, "y")]));
    assert!(!can_apply(9, &vec![replace(4, 6, "x"), replace(1, 2, "y")]));
    assert!(can_apply(9, &vec![replace(4, 6, "x"), replace(6, 9, "y")]));
}

#[test]
fn replacement_inside_delimiters_keeps_them() {
    let inside = Replace::inside(6, 11, String::from("x"));
    assert_eq!(inside.start, 7);
    assert_eq!(inside.end, 10);
    assert_eq!(inside.replacement, "x");
    assert_eq!(apply(b"table!{ a }", &vec![inside]), b"table!{x}");
}
