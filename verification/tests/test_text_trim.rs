use tux::text::trim;

#[test]
fn of_empty_string() {
    let out = trim("");
    assert_eq!(out, "");
}

#[test]
fn removes_extra_blank_lines() {
    let out = trim("\n \n  \ntext\n\n \n  \n");
    assert_eq!(out, "text");
}

#[test]
fn removes_first_line_indentation_from_all_lines() {
    let out = trim("\n  l1\n\n    l2\n  l3\n");
    assert_eq!(out, "l1\n\n  l2\nl3");
}

#[test]
fn trim_of_an_indented_literal() {
    let input = "\n\n\tLine 1\n\t\tLine 2\n\tLine 3\n\n\tLine 4\n\n";
    let expected = vec!["Line 1", "\tLine 2", "Line 3", "", "Line 4"].join("\n");
    assert_eq!(trim(input), expected);
}

#[test]
fn trim_keeps_lines_that_do_not_start_with_the_indentation() {
    let out = trim("    first\n  less\n\tother\n      more");
    assert_eq!(out, "first\n  less\n\tother\n  more");
}
