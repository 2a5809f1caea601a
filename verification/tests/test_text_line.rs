use tux::diff::render::render;
use tux::diff::{lines, Diff};
use tux::text::{to_lines, Line};

#[test]
fn lines_are_equal_if_their_texts_are() {
    assert!(Line::new("a b".to_string()) == Line::new("a b".to_string()));
    assert!(Line::new("a b".to_string()) != Line::new("a  b".to_string()));
    assert!(Line::new(String::new()) == Line::new(String::new()));
    assert!(Line::new("a".to_string()) != Line::new("A".to_string()));
}

#[test]
fn to_lines_keeps_each_text() {
    let lines = to_lines(&["one", "", "three"]);
    let texts: Vec<String> = lines.into_iter().map(|x| x.into_string()).collect();
    assert_eq!(texts, vec!["one", "", "three"]);
    assert!(to_lines(&Vec::<String>::new()).is_empty());
}

#[test]
fn diff_of_lines_compares_texts() {
    let a = to_lines(&["same", "old", "end"]);
    let b = to_lines(&["same".to_string(), "new".to_string(), "end".to_string()]);
    let diff = lines(&a, &b);
    assert_eq!(
        diff.items(),
        &vec![Diff::Output(1), Diff::Delete(1), Diff::Insert(1), Diff::Output(1)]
    );
    assert_eq!(render(diff.items(), &a, &b), " same\n-old\n+new\n end");
}
