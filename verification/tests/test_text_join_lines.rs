use tux::text::join_lines;

#[test]
fn with_empty_sequence_returns_empty() {
    let out = join_lines(&Vec::<String>::new());
    assert_eq!(out, "");
}

#[test]
fn returns_lines_joined_by_line_break() {
    let out = join_lines(&["a", "b", "c"]);
    assert_eq!(out, "a\nb\nc");
}

#[test]
fn join_lines_of_one_line_has_no_line_break() {
    assert_eq!(join_lines(&["only"]), "only");
}

#[test]
fn join_lines_keeps_empty_lines() {
    assert_eq!(join_lines(&["", "a", "", ""]), "\na\n\n");
    assert_eq!(join_lines(&[""]), "");
}

#[test]
fn join_lines_takes_owned_strings() {
    let lines = vec!["x".to_string(), "y".to_string()];
    assert_eq!(join_lines(&lines), "x\ny");
}
