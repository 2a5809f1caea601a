use tux::text::lines::{LinesIterator, TrimEndIterator};
use tux::text::{lines, trim_lines};

#[test]
fn returns_single_line_for_no_line_break() {
    let out = lines("single line");
    assert_eq!(out, vec!["single line"]);
}

#[test]
fn supports_multiple_line_break_sequences() {
    let out = lines("line 1\nline 2\r\nline 3\rline 4");
    assert_eq!(out, vec!["line 1", "line 2", "line 3", "line 4"]);
}

#[test]
fn returns_empty_for_empty_string() {
    let out = lines("");
    assert!(out.len() == 0);
}

#[test]
fn skips_leading_empty_lines() {
    let out = lines("\n\n  \r\n\t\rfirst non-empty\nsecond");
    assert_eq!(out, vec!["first non-empty", "second"]);
}

#[test]
fn removes_trailing_empty_lines() {
    let out = lines("first\nlast non-empty\n\n  \r\n\t\r\n");
    assert_eq!(out, vec!["first", "last non-empty"]);
}

#[test]
fn trim_line_ends() {
    let out = lines("l1  \nl2\t\r\nl3\t \rl4  ");
    assert_eq!(out, vec!["l1", "l2", "l3", "l4"]);
}

#[test]
fn does_not_strip_lead_indentation() {
    let out = lines("\n 1\n  2\n   3");
    assert_eq!(out, vec![" 1", "  2", "   3"]);
}

#[test]
fn returns_non_empty_lines() {
    let input = vec!["1", "2", "3"];
    let out = trim_lines(&input);
    assert_eq!(out, vec!["1", "2", "3"]);
}

#[test]
fn skips_leading_blank_lines() {
    let input = vec!["", "  ", "\t", "first non-empty", "second"];
    let out = trim_lines(&input);
    assert_eq!(out, vec!["first non-empty", "second"]);
}

#[test]
fn removes_trailing_space_from_lines() {
    let input = vec!["l1  ", "l2\t", "l3\t ", "l4  "];
    let out = trim_lines(&input);
    assert_eq!(out, vec!["l1", "l2", "l3", "l4"]);
}

#[test]
fn removes_trailing_blank_lines() {
    let input = vec!["first", "last non-empty", "", "  ", "\t"];
    let out = trim_lines(&input);
    assert_eq!(out, vec!["first", "last non-empty"]);
}

#[test]
fn does_not_remove_blank_lines_from_the_middle() {
    let input = vec!["1x", "", "2x", "", "", "3x", "", "", "", "!"];
    let out = trim_lines(&input);
    assert_eq!(out, vec!["1x", "", "2x", "", "", "3x", "", "", "", "!"]);
}

#[test]
fn does_not_trim_lead_indentation() {
    let input = vec![" 1", "  2", "   3"];
    let out = trim_lines(&input);
    assert_eq!(out, vec![" 1", "  2", "   3"]);
}

#[test]
fn trim_lines_of_blank_lines_only_is_empty() {
    let input = vec!["", "  ", "\t \t"];
    assert!(trim_lines(&input).is_empty());
    let none: Vec<String> = Vec::new();
    assert!(trim_lines(&none).is_empty());
}

#[test]
fn trim_lines_trims_unicode_white_space() {
    let input = vec!["a\u{a0}\u{2003}", "b\u{3000}"];
    assert_eq!(trim_lines(&input), vec!["a", "b"]);
}

#[test]
fn lines_iterator_hands_out_raw_lines() {
    let mut it = LinesIterator::new("a \r\n\rb\n");
    assert_eq!(it.next(), Some("a ".to_string()));
    assert_eq!(it.next(), Some("".to_string()));
    assert_eq!(it.next(), Some("b".to_string()));
    assert_eq!(it.next(), None);
    assert_eq!(it.next(), None);
}

#[test]
fn lines_iterator_counts_line_feed_before_carriage_return_as_two_breaks() {
    let mut it = LinesIterator::new("a\n\rb");
    assert_eq!(it.next(), Some("a".to_string()));
    assert_eq!(it.next(), Some("".to_string()));
    assert_eq!(it.next(), Some("b".to_string()));
    assert_eq!(it.next(), None);
}

#[test]
fn lines_iterator_splits_text_with_wide_characters() {
    let mut it = LinesIterator::new("\u{e9}t\u{e9}\r\n\u{4e2d}\u{6587}\n");
    assert_eq!(it.next(), Some("\u{e9}t\u{e9}".to_string()));
    assert_eq!(it.next(), Some("\u{4e2d}\u{6587}".to_string()));
    assert_eq!(it.next(), None);
}

#[test]
fn trim_end_iterator_drops_empty_strings_at_the_end_only() {
    let input = vec!["", "a", "", "", "b", "", ""];
    let input: Vec<String> = input.into_iter().map(|x| x.to_string()).collect();
    let mut it = TrimEndIterator::wrap(input);
    let mut out = Vec::new();
    while let Some(next) = it.next() {
        out.push(next);
    }
    assert_eq!(out, vec!["", "a", "", "", "b"]);
    assert_eq!(it.next(), None);
}

#[test]
fn trim_end_iterator_of_empty_strings_hands_out_nothing() {
    let mut it = TrimEndIterator::wrap(vec![String::new(), String::new()]);
    assert_eq!(it.next(), None);
    assert_eq!(it.next(), None);
}

#[test]
fn white_space_is_what_has_the_unicode_property() {
    let white = |code: u32| {
        (0x0009..=0x000D).contains(&code)
            || code == 0x0020
            || code == 0x0085
            || code == 0x00A0
            || code == 0x1680
            || (0x2000..=0x200A).contains(&code)
            || code == 0x2028
            || code == 0x2029
            || code == 0x202F
            || code == 0x205F
            || code == 0x3000
    };
    let mut count = 0;
    let mut line = String::new();
    for code in 0..=0x10FFFF_u32 {
        if let Some(c) = char::from_u32(code) {
            line.clear();
            line.push('x');
            line.push(c);
            let trimmed = tux::text::lines::trim_line_end(&line);
            assert_eq!(trimmed.len() == 1, white(code), "U+{:04X}", code);
            if white(code) {
                count += 1;
            }
        }
    }
    assert_eq!(count, 25);
}
