use tux::diff::ranges::{diff_lines, Diff};
use tux::text;

fn diff_to_text(a: Vec<&str>, b: Vec<&str>) -> String {
    let diff = diff_lines(&a, &b);
    diff_to_string(diff, &a, &b)
}

fn diff_to_string(diff: Vec<Diff>, source: &Vec<&str>, result: &Vec<&str>) -> String {
    let output = diff
        .into_iter()
        .flat_map(|item| -> Vec<String> {
            match item {
                Diff::Output(sta, end) => (sta..end).map(|x| format!(" {}", source[x])).collect(),
                Diff::Insert(sta, end) => (sta..end).map(|x| format!("+{}", result[x])).collect(),
                Diff::Delete(sta, end) => (sta..end).map(|x| format!("-{}", source[x])).collect(),
            }
        })
        .collect::<Vec<String>>();
    output.join("\n")
}

#[test]
fn diff_lines_empty() {
    let a: Vec<String> = Vec::new();
    let b: Vec<String> = Vec::new();
    let diff = diff_lines(&a, &b);
    assert!(diff.len() == 0);
}

#[test]
fn diff_lines_equal() {
    let a = vec!["line 1", "line 2"];
    let b = vec!["line 1", "line 2"];
    let diff = diff_lines(&a, &b);
    assert!(diff.len() == 0);
}

#[test]
fn diff_lines_empty_result() {
    let a = vec!["line 1", "line 2"];
    let b = Vec::new();
    let diff = diff_to_text(a, b);
    assert_eq!(diff, text::join_lines(&["-line 1", "-line 2"]));
}

#[test]
fn diff_lines_empty_source() {
    let a = Vec::new();
    let b = vec!["line 1", "line 2"];
    let diff = diff_to_text(a, b);
    assert_eq!(diff, text::join_lines(&["+line 1", "+line 2"]));
}

#[test]
fn diff_lines_nothing_in_common() {
    let a = vec!["line 1", "line 2"];
    let b = vec!["line A", "line B"];
    let diff = diff_to_text(a, b);
    assert_eq!(
        diff,
        text::join_lines(&["-line 1", "-line 2", "+line A", "+line B"])
    );
}

#[test]
fn diff_lines_removed_suffix() {
    let a = vec!["same 1", "same 2", "suffix 1", "suffix 2"];
    let b = vec!["same 1", "same 2"];
    let diff = diff_to_text(a, b);
    assert_eq!(
        diff,
        text::join_lines(&[" same 1", " same 2", "-suffix 1", "-suffix 2"])
    );
}

#[test]
fn diff_lines_added_suffix() {
    let a = vec!["same 1", "same 2"];
    let b = vec!["same 1", "same 2", "suffix 1", "suffix 2"];
    let diff = diff_to_text(a, b);
    assert_eq!(
        diff,
        text::join_lines(&[" same 1", " same 2", "+suffix 1", "+suffix 2"])
    );
}

#[test]
fn diff_lines_removed_prefix() {
    let a = vec!["prefix 1", "prefix 2", "same 1", "same 2"];
    let b = vec!["same 1", "same 2"];
    let diff = diff_to_text(a, b);
    assert_eq!(
        diff,
        text::join_lines(&["-prefix 1", "-prefix 2", " same 1", " same 2"])
    );
}

#[test]
fn diff_lines_added_prefix() {
    let a = vec!["same 1", "same 2"];
    let b = vec!["prefix 1", "prefix 2", "same 1", "same 2"];
    let diff = diff_to_text(a, b);
    assert_eq!(
        diff,
        text::join_lines(&["+prefix 1", "+prefix 2", " same 1", " same 2"])
    );
}

#[test]
fn diff_lines_gives_exact_ranges() {
    let a = vec!["same", "old 1", "old 2", "end"];
    let b = vec!["same", "new", "end"];
    let diff = diff_lines(&a, &b);
    assert_eq!(
        diff,
        vec![
            Diff::Output(0, 1),
            Diff::Delete(1, 3),
            Diff::Insert(1, 2),
            Diff::Output(3, 4)
        ]
    );
}

#[test]
fn diff_lines_compares_lines_of_different_string_types() {
    let a = vec!["one".to_string(), "two".to_string()];
    let b = vec!["one", "three"];
    let diff = diff_lines(&a, &b);
    assert_eq!(
        diff,
        vec![Diff::Output(0, 1), Diff::Delete(1, 2), Diff::Insert(1, 2)]
    );
}

#[test]
fn diff_lines_does_not_count_a_line_twice() {
    // the one line of `b` is the common prefix; nothing is left of it for a
    // common suffix
    let a = vec!["a", "a"];
    let b = vec!["a"];
    assert_eq!(diff_lines(&a, &b), vec![Diff::Output(0, 1), Diff::Delete(1, 2)]);
    assert_eq!(diff_to_text(a, b), " a\n-a");

    let a = vec!["a"];
    let b = vec!["a", "a"];
    assert_eq!(diff_lines(&a, &b), vec![Diff::Output(0, 1), Diff::Insert(1, 2)]);
    assert_eq!(diff_to_text(a, b), " a\n+a");
}

#[test]
fn diff_lines_keeps_common_lines_in_the_middle() {
    let a = vec!["1", "2", "3"];
    let b = vec!["0", "2", "4"];
    assert_eq!(
        diff_lines(&a, &b),
        vec![
            Diff::Delete(0, 1),
            Diff::Insert(0, 1),
            Diff::Output(1, 2),
            Diff::Delete(2, 3),
            Diff::Insert(2, 3),
        ]
    );
    assert_eq!(diff_to_text(a, b), "-1\n+0\n 2\n-3\n+4");
}

#[test]
fn diff_lines_ranges_follow_one_another() {
    let a = vec!["a1", "sX", "a2", "sW", "sX", "a3", "sY", "a4", "sZ"];
    let b = vec!["b1", "b2", "sW", "sX", "b3", "sY", "b4", "sZ"];
    let diff = diff_lines(&a, &b);
    let mut at_source = 0;
    let mut at_result = 0;
    let mut last_was_output = false;
    for item in diff.iter() {
        match *item {
            Diff::Output(sta, end) => {
                assert!(!last_was_output);
                assert_eq!(sta, at_source);
                assert!(sta < end);
                at_result += end - sta;
                at_source = end;
            }
            Diff::Delete(sta, end) => {
                assert_eq!(sta, at_source);
                assert!(sta < end);
                at_source = end;
            }
            Diff::Insert(sta, end) => {
                assert_eq!(sta, at_result);
                assert!(sta < end);
                at_result = end;
            }
        }
        last_was_output = matches!(item, Diff::Output(_, _));
    }
    assert_eq!(at_source, a.len());
    assert_eq!(at_result, b.len());
    assert_eq!(
        diff_to_text(a, b),
        "-a1\n-sX\n-a2\n+b1\n+b2\n sW\n sX\n-a3\n+b3\n sY\n-a4\n+b4\n sZ"
    );
}
