use tux::diff::lcs;

#[test]
fn of_empty() {
    let a = &[];
    let b = &[];
    let out = lcs::<u32>(a, b);
    assert!(out.len() == 0);
}

#[test]
fn of_equal() {
    let a = &[1];
    let b = &[1];
    let out = lcs(a, b);
    assert_eq!(out, [(0, 0)]);

    let a = &[1, 2, 3];
    let b = &[1, 2, 3];
    let out = lcs(a, b);
    assert_eq!(out, [(0, 0), (1, 1), (2, 2)]);
}

#[test]
fn with_completely_different() {
    let a = &[1];
    let b = &[2];
    let out = lcs(a, b);
    assert!(out.len() == 0);

    let a = &[1, 2, 3];
    let b = &[4, 5, 6];
    let out = lcs(a, b);
    assert!(out.len() == 0);
}

#[test]
fn with_common_sequence() {
    let a = &[1, 2, 3];
    let b = &[0, 0, 1, 2, 3, 0, 0];
    let out = lcs(a, b);
    assert_eq!(out, [(0, 2), (1, 3), (2, 4)]);

    let a = &[0, 0, 1, 2, 3, 0, 0];
    let b = &[1, 2, 3];
    let out = lcs(a, b);
    assert_eq!(out, [(2, 0), (3, 1), (4, 2)]);
}

#[test]
fn with_common_sub_sequence() {
    let a = &[1, 2, 3];
    let b = &[0, 0, 1, 0, 2, 0, 3, 0, 0];
    let out = lcs(a, b);
    assert_eq!(out, [(0, 2), (1, 4), (2, 6)]);

    let a = &[0, 0, 1, 0, 2, 0, 3, 0, 0];
    let b = &[1, 2, 3];
    let out = lcs(a, b);
    assert_eq!(out, [(2, 0), (4, 1), (6, 2)]);

    let a = &[0, 0, 1, 0, 2, 0, 3, 0, 0];
    let b = &[9, 9, 1, 9, 2, 9, 3, 9, 9];
    let out = lcs(a, b);
    assert_eq!(out, [(2, 2), (4, 4), (6, 6)]);
}

#[test]
fn with_out_of_order() {
    let a = &[1, 2, 3, 4, 5];
    let b = &[5, 4, 2, 3, 1];
    let out = lcs(a, b);
    assert_eq!(out, [(1, 2), (2, 3)]);

    let a = &[5, 4, 2, 3, 1];
    let b = &[1, 2, 3, 4, 5];
    let out = lcs(a, b);
    assert_eq!(out, [(2, 1), (3, 2)]);
}

#[test]
fn with_complex_sequence() {
    let a = &[1, 2, 3, 4, 5, 6, 7, 8, 9];
    let b = &[2, 3, 1, 5, 6, 4, 8, 9, 7];
    let out = lcs(a, b);
    assert_eq!(out, [(1, 0), (2, 1), (4, 3), (5, 4), (7, 6), (8, 7)]);
}

#[test]
fn lcs_with_one_side_empty() {
    let a: &[u8] = &[];
    let b: &[u8] = &[1, 2, 3];
    assert!(lcs(a, b).is_empty());
    assert!(lcs(b, a).is_empty());
}

#[test]
fn lcs_prefers_to_skip_the_second_list_on_ties() {
    // both (0, 1) and (1, 0) are longest; the tie skips an item of `b` first
    let a = &[1, 2];
    let b = &[2, 1];
    assert_eq!(lcs(a, b), [(0, 1)]);
}

#[test]
fn lcs_skips_the_first_list_only_for_a_longer_match() {
    let a = &[9, 1, 2];
    let b = &[1, 2, 9];
    assert_eq!(lcs(a, b), [(1, 0), (2, 1)]);
}

#[test]
fn lcs_pairs_are_increasing_and_join_equal_items() {
    let a = &[3, 1, 4, 1, 5, 9, 2, 6, 5, 3, 5];
    let b = &[2, 7, 1, 8, 2, 8, 1, 8, 2, 8, 4, 5, 9];
    let out = lcs(a, b);
    assert_eq!(out.len(), 4);
    for pair in out.iter() {
        assert_eq!(a[pair.0], b[pair.1]);
    }
    for k in 1..out.len() {
        assert!(out[k - 1].0 < out[k].0);
        assert!(out[k - 1].1 < out[k].1);
    }
}

#[test]
fn lcs_at_the_last_item_of_the_second_list() {
    // the walk reaches the last item of `b` and has to move on in `a`
    let a = &[1, 2, 3, 7];
    let b = &[0, 7];
    assert_eq!(lcs(a, b), [(3, 1)]);
}
