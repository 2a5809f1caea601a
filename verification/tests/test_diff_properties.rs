use tux::diff::render::{display_all, render};
use tux::diff::{lcs, lines, Diff};

/// All lists of up to `len` items out of `0..kinds`.
fn all_lists(len: usize, kinds: u8) -> Vec<Vec<u8>> {
    let mut out: Vec<Vec<u8>> = vec![Vec::new()];
    let mut last: Vec<Vec<u8>> = vec![Vec::new()];
    for _ in 0..len {
        let mut next = Vec::new();
        for list in last.iter() {
            for item in 0..kinds {
                let mut longer = list.clone();
                longer.push(item);
                next.push(longer);
            }
        }
        out.extend(next.iter().cloned());
        last = next;
    }
    out
}

/// Applies a script to `source`, taking the inserted items from `result`.
fn apply(script: &[Diff], source: &[u8], result: &[u8]) -> Vec<u8> {
    let mut out = Vec::new();
    let mut at_source = 0;
    let mut at_result = 0;
    for item in script {
        match *item {
            Diff::Output(count) => {
                out.extend_from_slice(&source[at_source..at_source + count]);
                at_source += count;
                at_result += count;
            }
            Diff::Delete(count) => {
                at_source += count;
            }
            Diff::Insert(count) => {
                out.extend_from_slice(&result[at_result..at_result + count]);
                at_result += count;
            }
        }
    }
    out
}

/// Length of a longest common subsequence, by trying every choice.
fn longest(a: &[u8], b: &[u8]) -> usize {
    if a.is_empty() || b.is_empty() {
        0
    } else if a[0] == b[0] {
        1 + longest(&a[1..], &b[1..])
    } else {
        longest(&a[1..], b).max(longest(a, &b[1..]))
    }
}

#[test]
fn diff_of_a_list_with_itself_is_empty() {
    for list in all_lists(5, 2) {
        let diff = lines(&list, &list);
        assert!(diff.is_empty(), "{:?}", list);
        assert_eq!(diff.items(), &Vec::<Diff>::new());
    }
}

#[test]
fn diff_is_empty_only_for_equal_lists() {
    let lists = all_lists(3, 2);
    for a in lists.iter() {
        for b in lists.iter() {
            assert_eq!(lines(a, b).is_empty(), a == b, "{:?} {:?}", a, b);
        }
    }
}

#[test]
fn diff_applied_to_source_gives_result() {
    let lists = all_lists(4, 3);
    for a in lists.iter() {
        for b in lists.iter() {
            if a == b {
                continue;
            }
            let diff = lines(a, b);
            assert_eq!(&apply(diff.items(), a, b), b, "{:?} {:?}", a, b);
        }
    }
}

#[test]
fn diff_counts_every_item_of_both_lists() {
    let lists = all_lists(4, 3);
    for a in lists.iter() {
        for b in lists.iter() {
            if a == b {
                continue;
            }
            let diff = lines(a, b);
            let mut in_source = 0;
            let mut in_result = 0;
            for item in diff.items() {
                match *item {
                    Diff::Output(count) => {
                        in_source += count;
                        in_result += count;
                    }
                    Diff::Delete(count) => in_source += count,
                    Diff::Insert(count) => in_result += count,
                }
            }
            assert_eq!(in_source, a.len(), "{:?} {:?}", a, b);
            assert_eq!(in_result, b.len(), "{:?} {:?}", a, b);
        }
    }
}

#[test]
fn diff_has_no_empty_item_and_no_two_outputs_in_a_row() {
    let lists = all_lists(4, 3);
    for a in lists.iter() {
        for b in lists.iter() {
            let diff = lines(a, b);
            let items = diff.items();
            for item in items {
                match *item {
                    Diff::Output(count) | Diff::Delete(count) | Diff::Insert(count) => {
                        assert!(count > 0, "{:?} {:?}", a, b)
                    }
                }
            }
            for k in 1..items.len() {
                let both = matches!(items[k - 1], Diff::Output(_))
                    && matches!(items[k], Diff::Output(_));
                assert!(!both, "{:?} {:?}", a, b);
            }
        }
    }
}

#[test]
fn diff_has_deleted_items_before_inserted_items() {
    let lists = all_lists(4, 3);
    for a in lists.iter() {
        for b in lists.iter() {
            let diff = lines(a, b);
            let items = diff.items();
            for k in 1..items.len() {
                match items[k - 1] {
                    Diff::Insert(_) => assert!(matches!(items[k], Diff::Output(_))),
                    Diff::Delete(_) => assert!(!matches!(items[k], Diff::Delete(_))),
                    Diff::Output(_) => assert!(!matches!(items[k], Diff::Output(_))),
                }
            }
        }
    }
}

#[test]
fn lcs_is_a_longest_common_subsequence() {
    let lists = all_lists(4, 3);
    for a in lists.iter() {
        for b in lists.iter() {
            let pairs = lcs(a, b);
            assert_eq!(pairs.len(), longest(a, b), "{:?} {:?}", a, b);
            for k in 0..pairs.len() {
                assert_eq!(a[pairs[k].0], b[pairs[k].1]);
                if k > 0 {
                    assert!(pairs[k - 1].0 < pairs[k].0 && pairs[k - 1].1 < pairs[k].1);
                }
            }
        }
    }
}

#[test]
fn diff_has_exact_items() {
    let a = vec![1, 2, 3, 4, 5, 6, 7, 8, 9];
    let b = vec![2, 3, 1, 5, 6, 4, 8, 9, 7];
    let diff = lines(&a, &b);
    assert_eq!(
        diff.items(),
        &vec![
            Diff::Delete(1),
            Diff::Output(2),
            Diff::Delete(1),
            Diff::Insert(1),
            Diff::Output(2),
            Diff::Delete(1),
            Diff::Insert(1),
            Diff::Output(2),
            Diff::Insert(1),
        ]
    );
}

#[test]
fn diff_keeps_prefix_and_suffix_as_one_output_each() {
    let a = vec!["p1", "p2", "x", "same", "y", "s1"];
    let b = vec!["p1", "p2", "same", "z", "s1"];
    let diff = lines(&a, &b);
    assert_eq!(
        diff.items(),
        &vec![
            Diff::Output(2),
            Diff::Delete(1),
            Diff::Output(1),
            Diff::Delete(1),
            Diff::Insert(1),
            Diff::Output(1),
        ]
    );
}

#[test]
fn diff_of_repeated_item_trims_the_prefix_first() {
    // the one item of `b` is the prefix; nothing is left for a suffix
    let a = vec![7, 7, 7];
    let b = vec![7];
    assert_eq!(lines(&a, &b).items(), &vec![Diff::Output(1), Diff::Delete(2)]);
    assert_eq!(lines(&b, &a).items(), &vec![Diff::Output(1), Diff::Insert(2)]);
}

#[test]
fn diff_as_text_of_numbers() {
    let a = vec![1, 2, 3];
    let b = vec![0, 2, 4];
    assert_eq!(lines(&a, &b).to_text(), "-1\n+0\n 2\n-3\n+4");
}

#[test]
fn diff_as_text_of_equal_lists_is_empty() {
    let a = vec!["a", "b"];
    assert_eq!(lines(&a, &a).to_text(), "");
    let none: Vec<&str> = Vec::new();
    assert_eq!(lines(&none, &none).to_text(), "");
}

#[test]
fn diff_as_text_keeps_empty_lines() {
    let a = vec!["", "x"];
    let b = vec!["", "", "y"];
    assert_eq!(lines(&a, &b).to_text(), " \n-x\n+\n+y");
}

#[test]
fn render_writes_each_item_on_a_line_of_its_own() {
    let source = vec!["a", "b", "c"];
    let result = vec!["a", "x", "y", "c"];
    let items = vec![
        Diff::Output(1),
        Diff::Delete(1),
        Diff::Insert(2),
        Diff::Output(1),
    ];
    assert_eq!(render(&items, &source, &result), " a\n-b\n+x\n+y\n c");
}

#[test]
fn render_of_a_script_that_stops_early_writes_what_it_covers() {
    let source = vec!["a", "b", "c"];
    let result = vec!["a"];
    assert_eq!(render(&[Diff::Output(1), Diff::Delete(1)], &source, &result), " a\n-b");
    assert_eq!(render(&[], &source, &result), "");
    assert_eq!(render(&[Diff::Delete(0)], &source, &result), "");
}

#[test]
fn display_all_shows_each_item() {
    assert_eq!(display_all(&[1, 20, 300]), vec!["1", "20", "300"]);
    assert_eq!(display_all(&["a", ""]), vec!["a", ""]);
    assert!(display_all::<u8>(&[]).is_empty());
}

#[test]
fn diff_keeps_as_many_items_as_the_lists_have_in_common() {
    let lists = all_lists(4, 3);
    for a in lists.iter() {
        for b in lists.iter() {
            if a == b {
                continue;
            }
            let diff = lines(a, b);
            let mut kept = 0;
            for item in diff.items() {
                if let Diff::Output(count) = *item {
                    kept += count;
                }
            }
            assert_eq!(kept, longest(a, b), "{:?} {:?}", a, b);
        }
    }
}
