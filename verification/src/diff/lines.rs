//! The difference between two lists as a run-length edit script.

use super::lcs::{
    index_pairs, is_alignment, is_common_subsequence, items_match, lcs, lcs_len, lcs_pairs,
    same_matches,
};
use super::lcs::{
    lemma_lcs_by_matches, lemma_lcs_len_is_maximal, lemma_lcs_len_without_prefix,
    lemma_lcs_len_without_suffix, lemma_lcs_pairs_valid,
};
use super::steps::{
    assemble, cursor, lemma_assemble, lemma_assemble_in_order, lemma_matched_keeps_first,
    matched_upto, with_gap, with_match,
};
use super::script::{
    apply, covers, deletes_come_first, fits, in_order, is_canonical, kept_len, may_follow,
    rebuilds, result_len, run_matches, same_item, source_len, well_formed,
};
use super::script::{
    lemma_last_count_bounded, lemma_len_grow, lemma_len_push, lemma_well_formed_is_canonical,
};
use super::render::{display_all, render, report, shows};
use crate::text::join_lines::texts_of;
use crate::text::line::{holds_texts, Line};
use std::fmt::Display;
use vstd::prelude::*;
use vstd::slice::slice_subrange;
use vstd::std_specs::cmp::PartialEqSpec;

verus! {

/// Single element of a diff between a `source` and `result` lists. A complete
/// diff consists of a sequence of these elements (see [`DiffResult`]).
///
/// The sequence of [`Diff`] elements describes the differences between both
/// lists in terms of what happens for each item in them, starting with
/// the `source` list to reach the given `result`. This representation maps
/// directly onto the usual textual form of a diff.
///
/// Each [`Diff`] elements contains a `count` of items it applies to. Elements
/// must be considered in order when using the diff result:
///
/// - [`Diff::Output`]: the next `count` items from both lists are the same,
/// that is, the sequence from `source` has not been changed in the `result`.
///
/// - [`Diff::Delete`]: the next `count` items from `source` have been removed
/// and don't appear in the `result`.
///
/// - [`Diff::Insert`]: the next `count` items from `result` have been added
/// to the current position in `source`.
///
/// Note that for a position that has both deleted and inserted items, the
/// result will always have the [`Diff::Delete`] before the [`Diff::Insert`].
#[derive(Debug, Clone, Copy, PartialEq, Eq, Structural)]
pub enum Diff {
    /// Represents a sequence of items in `source` and `result` that are the
    /// same.
    Output(usize),
    /// Represents a sequence of items from `source` that has been removed
    /// and does not appear in `result`.
    Delete(usize),
    /// Represents a sequence of items from `result` that have been added
    /// at the current position in `source`.
    Insert(usize),
}

/// Both lists have the same length and equal items at every position.
pub open spec fn same_lists<T: PartialEq>(a: Seq<T>, b: Seq<T>) -> bool {
    &&& a.len() == b.len()
    &&& forall|k: int| 0 <= k < a.len() ==> #[trigger] items_match(a, b, k, k)
}

/// Where the common prefix of `a` and `b` ends, given that it reaches `k`.
pub open spec fn prefix_from<T: PartialEq>(a: Seq<T>, b: Seq<T>, k: nat) -> nat
    decreases a.len() - k,
{
    if k < a.len() && k < b.len() && items_match(a, b, k as int, k as int) {
        prefix_from(a, b, k + 1)
    } else {
        k
    }
}

/// Length of the longest prefix on which `a` and `b` agree item by item.
pub open spec fn common_prefix_len<T: PartialEq>(a: Seq<T>, b: Seq<T>) -> nat {
    prefix_from(a, b, 0)
}

/// How long the common suffix of `a` and `b` is, given that it has `k` items
/// at least.
pub open spec fn suffix_from<T: PartialEq>(a: Seq<T>, b: Seq<T>, k: nat) -> nat
    decreases a.len() - k,
{
    if k < a.len() && k < b.len() && items_match(a, b, a.len() - 1 - k, b.len() - 1 - k) {
        suffix_from(a, b, k + 1)
    } else {
        k
    }
}

/// Length of the longest suffix on which `a` and `b` agree item by item.
pub open spec fn common_suffix_len<T: PartialEq>(a: Seq<T>, b: Seq<T>) -> nat {
    suffix_from(a, b, 0)
}

/// Number of items that the two lists share at their ends, behind their
/// common prefix.
pub open spec fn trimmed_suffix_len<T: PartialEq>(source: Seq<T>, result: Seq<T>) -> nat {
    let prefix = common_prefix_len(source, result) as int;
    common_suffix_len(
        source.subrange(prefix, source.len() as int),
        result.subrange(prefix, result.len() as int),
    )
}

/// The edit script that turns `source` into `result`.
///
/// The common prefix and, of what is left, the common suffix are kept as one
/// `Output` each. In between, the script follows the longest common
/// subsequence of the two middle parts. Two lists without a difference have
/// the empty script.
pub open spec fn diff_script<T: PartialEq>(source: Seq<T>, result: Seq<T>) -> Seq<Diff> {
    let prefix = common_prefix_len(source, result) as int;
    let rest_source = source.subrange(prefix, source.len() as int);
    let rest_result = result.subrange(prefix, result.len() as int);
    if rest_source.len() == 0 && rest_result.len() == 0 {
        Seq::empty()
    } else {
        let suffix = common_suffix_len(rest_source, rest_result) as int;
        let mid_source = rest_source.subrange(0, rest_source.len() - suffix);
        let mid_result = rest_result.subrange(0, rest_result.len() - suffix);
        assemble(
            prefix,
            suffix,
            lcs_pairs(mid_source, mid_result, 0, 0),
            mid_source.len() as int,
            mid_result.len() as int,
        )
    }
}

/// The common prefix found from `k` on ends inside both lists, everything up
/// to its end matches, and the items just behind it differ.
pub proof fn lemma_prefix_from<T: PartialEq>(a: Seq<T>, b: Seq<T>, k: nat)
    requires
        k <= a.len(),
        k <= b.len(),
    ensures
        k <= prefix_from(a, b, k) <= a.len(),
        prefix_from(a, b, k) <= b.len(),
        forall|t: int| k <= t < prefix_from(a, b, k) ==> #[trigger] items_match(a, b, t, t),
        prefix_from(a, b, k) < a.len() && prefix_from(a, b, k) < b.len() ==> !items_match(
            a,
            b,
            prefix_from(a, b, k) as int,
            prefix_from(a, b, k) as int,
        ),
    decreases a.len() - k,
{
    if k < a.len() && k < b.len() && items_match(a, b, k as int, k as int) {
        lemma_prefix_from(a, b, k + 1);
    }
}

/// The common suffix found from `k` items on stays inside both lists, all of
/// it matches, and the items just before it differ.
pub proof fn lemma_suffix_from<T: PartialEq>(a: Seq<T>, b: Seq<T>, k: nat)
    requires
        k <= a.len(),
        k <= b.len(),
    ensures
        k <= suffix_from(a, b, k) <= a.len(),
        suffix_from(a, b, k) <= b.len(),
        forall|t: int|
            k <= t < suffix_from(a, b, k) ==> #[trigger] items_match(
                a,
                b,
                a.len() - 1 - t,
                b.len() - 1 - t,
            ),
        suffix_from(a, b, k) < a.len() && suffix_from(a, b, k) < b.len() ==> !items_match(
            a,
            b,
            a.len() - 1 - suffix_from(a, b, k),
            b.len() - 1 - suffix_from(a, b, k),
        ),
    decreases a.len() - k,
{
    if k < a.len() && k < b.len() && items_match(a, b, a.len() - 1 - k, b.len() - 1 - k) {
        lemma_suffix_from(a, b, k + 1);
    }
}

/// Everything that is known of the script of two lists: its form, when it
/// is empty, and, where it is not, that it covers both lists and rebuilds
/// `result`.
pub proof fn lemma_diff_script<T: PartialEq>(source: Seq<T>, result: Seq<T>)
    requires
        source.len() <= usize::MAX,
        result.len() <= usize::MAX,
    ensures
        well_formed(diff_script(source, result)),
        diff_script(source, result).len() == 0 <==> same_lists(source, result),
        diff_script(source, result).len() > 0 ==> covers(
            diff_script(source, result),
            source.len(),
            result.len(),
        ),
        diff_script(source, result).len() > 0 ==> rebuilds(
            diff_script(source, result),
            source,
            result,
        ),
        diff_script(source, result).len() > 0 ==> kept_len(diff_script(source, result)) == lcs_len(
            source,
            result,
            0,
            0,
        ),
{
    lemma_prefix_from(source, result, 0);
    let prefix = common_prefix_len(source, result) as int;
    let rest_source = source.subrange(prefix, source.len() as int);
    let rest_result = result.subrange(prefix, result.len() as int);
    if rest_source.len() == 0 && rest_result.len() == 0 {
        assert(same_lists(source, result));
    } else {
        assert(!same_lists(source, result)) by {
            if same_lists(source, result) {
                assert(items_match(source, result, prefix, prefix));
            }
        }
        lemma_suffix_from(rest_source, rest_result, 0);
        let suffix = common_suffix_len(rest_source, rest_result) as int;
        let mid_source = rest_source.subrange(0, rest_source.len() - suffix);
        let mid_result = rest_result.subrange(0, rest_result.len() - suffix);
        let mid_n = mid_source.len() as int;
        let mid_m = mid_result.len() as int;
        let pairs = lcs_pairs(mid_source, mid_result, 0, 0);
        lemma_lcs_pairs_valid(mid_source, mid_result, 0, 0);

        assert forall|t: int| 0 <= t < pairs.len() implies items_match(
            source,
            result,
            prefix + (#[trigger] pairs[t]).0,
            prefix + pairs[t].1,
        ) by {
            assert(items_match(mid_source, mid_result, pairs[t].0, pairs[t].1));
            assert(mid_source[pairs[t].0] == source[prefix + pairs[t].0]);
            assert(mid_result[pairs[t].1] == result[prefix + pairs[t].1]);
        }
        assert(run_matches(source, result, prefix + mid_n, prefix + mid_m, suffix)) by {
            assert forall|t: int| 0 <= t < suffix implies #[trigger] items_match(
                source,
                result,
                prefix + mid_n + t,
                prefix + mid_m + t,
            ) by {
                let back = suffix - 1 - t;
                assert(items_match(
                    rest_source,
                    rest_result,
                    rest_source.len() - 1 - back,
                    rest_result.len() - 1 - back,
                ));
                assert(rest_source[rest_source.len() - 1 - back] == source[prefix + mid_n + t]);
                assert(rest_result[rest_result.len() - 1 - back] == result[prefix + mid_m + t]);
            }
        }
        if suffix > 0 {
            // The suffix cannot be made longer, so the aligned pairs stop
            // short of it.
            assert(cursor(pairs, pairs.len() as int) != (mid_n, mid_m)) by {
                if cursor(pairs, pairs.len() as int) == (mid_n, mid_m) {
                    if pairs.len() > 0 {
                        let pair = pairs[pairs.len() - 1];
                        assert(items_match(mid_source, mid_result, pair.0, pair.1));
                        assert(mid_source[pair.0] == rest_source[rest_source.len() - 1 - suffix]);
                        assert(mid_result[pair.1] == rest_result[rest_result.len() - 1 - suffix]);
                    } else {
                        assert(items_match(
                            rest_source,
                            rest_result,
                            rest_source.len() - 1 - (suffix - 1),
                            rest_result.len() - 1 - (suffix - 1),
                        ));
                        assert(rest_source[0] == source[prefix]);
                        assert(rest_result[0] == result[prefix]);
                    }
                }
            }
        }
        lemma_assemble(source, result, prefix, suffix, pairs, mid_n, mid_m);

        // the prefix and the suffix belong to a longest common subsequence
        lemma_lcs_len_without_prefix(source, result, prefix);
        lemma_lcs_len_without_suffix(rest_source, rest_result, suffix);
    }
}

/// The script keeps as many items as the two lists have in common at most:
/// no common subsequence of the two lists is longer than what the `Output`
/// elements count. So no script that leads from `source` to `result` deletes
/// and inserts fewer items.
///
/// Two lists that are equal are left out: their script is empty.
pub proof fn lemma_diff_keeps_most<T: PartialEq>(
    source: Seq<T>,
    result: Seq<T>,
    other: Seq<(int, int)>,
)
    requires
        source.len() <= usize::MAX,
        result.len() <= usize::MAX,
        !same_lists(source, result),
        is_common_subsequence(source, result, other),
    ensures
        other.len() <= kept_len(diff_script(source, result)),
        kept_len(diff_script(source, result)) == lcs_len(source, result, 0, 0),
{
    lemma_diff_script(source, result);
    lemma_lcs_len_is_maximal(source, result, 0, 0, other);
}

/// Two lists that are equal item by item have the empty script.
pub proof fn lemma_diff_of_equal_lists<T: PartialEq>(source: Seq<T>, result: Seq<T>)
    requires
        source.len() <= usize::MAX,
        same_lists(source, result),
    ensures
        diff_script(source, result) == Seq::<Diff>::empty(),
{
    lemma_diff_script(source, result);
    assert(diff_script(source, result).len() == 0);
}

/// The script of a list against itself is empty, as long as every item
/// equals itself.
pub proof fn lemma_diff_of_list_with_itself<T: PartialEq>(list: Seq<T>)
    requires
        list.len() <= usize::MAX,
        forall|k: int| 0 <= k < list.len() ==> #[trigger] items_match(list, list, k, k),
    ensures
        diff_script(list, list) == Seq::<Diff>::empty(),
{
    lemma_diff_of_equal_lists(list, list);
}

/// Applying the script to `source` rebuilds `result`: every kept item is
/// equal to the item of `result` at its place, and every other item is the
/// item of `result` itself. Where equal items are identical, the list that
/// is built is `result`.
///
/// Two lists that are equal and not empty are left out: their script is
/// empty and builds nothing.
pub proof fn lemma_diff_rebuilds_result<T: PartialEq>(source: Seq<T>, result: Seq<T>)
    requires
        source.len() <= usize::MAX,
        result.len() <= usize::MAX,
        !same_lists(source, result) || source.len() == 0,
    ensures
        rebuilds(diff_script(source, result), source, result),
        (forall|x: T, y: T| #[trigger] x.eq_spec(&y) ==> x == y) ==> apply(
            diff_script(source, result),
            source,
            result,
        ) == result,
{
    lemma_diff_script(source, result);
    let script = diff_script(source, result);
    let built = apply(script, source, result);
    if script.len() > 0 {
        if forall|x: T, y: T| #[trigger] x.eq_spec(&y) ==> x == y {
            assert forall|k: int| 0 <= k < built.len() implies built[k] == result[k] by {
                assert(same_item(built[k], result[k]));
            }
            assert(built == result);
        }
    } else {
        assert(result.len() == 0);
        assert(built == result);
    }
}

/// The script walks over all of `source` and all of `result`: the counts of
/// its `Output` and `Delete` elements add up to the length of `source`,
/// those of its `Output` and `Insert` elements to the length of `result`.
///
/// Two lists that are equal and not empty are left out: their script is
/// empty.
pub proof fn lemma_diff_covers<T: PartialEq>(source: Seq<T>, result: Seq<T>)
    requires
        source.len() <= usize::MAX,
        result.len() <= usize::MAX,
        !same_lists(source, result) || source.len() == 0,
    ensures
        covers(diff_script(source, result), source.len(), result.len()),
{
    lemma_diff_script(source, result);
}

/// No element of the script is empty and no two `Output` elements are
/// neighbours.
pub proof fn lemma_diff_is_canonical<T: PartialEq>(source: Seq<T>, result: Seq<T>)
    requires
        source.len() <= usize::MAX,
        result.len() <= usize::MAX,
    ensures
        is_canonical(diff_script(source, result)),
{
    lemma_diff_script(source, result);
    lemma_well_formed_is_canonical(diff_script(source, result));
}

/// Where items are deleted and inserted at one position, the `Delete` stands
/// before the `Insert`: behind an `Insert` only an `Output` can follow.
pub proof fn lemma_diff_deletes_first<T: PartialEq>(source: Seq<T>, result: Seq<T>)
    requires
        source.len() <= usize::MAX,
        result.len() <= usize::MAX,
    ensures
        deletes_come_first(diff_script(source, result)),
        forall|k: int|
            0 <= k < diff_script(source, result).len() - 1 && (#[trigger] diff_script(
                source,
                result,
            )[k]) is Insert ==> !(diff_script(source, result)[k + 1] is Delete),
{
    lemma_diff_script(source, result);
    let script = diff_script(source, result);
    assert forall|k: int| 0 <= k < script.len() - 1 && (#[trigger] script[k]) is Insert implies !(
    script[k + 1] is Delete) by {
        assert(may_follow(script[k], script[k + 1]));
    }
}

/// The common prefix and the common suffix of two lists that differ are one
/// `Output` each, at the two ends of the script. No item that is kept in
/// between is counted with them.
pub proof fn lemma_diff_keeps_prefix_and_suffix<T: PartialEq>(source: Seq<T>, result: Seq<T>)
    requires
        source.len() <= usize::MAX,
        result.len() <= usize::MAX,
        !same_lists(source, result),
    ensures
        common_prefix_len(source, result) + trimmed_suffix_len(source, result) <= source.len(),
        common_prefix_len(source, result) + trimmed_suffix_len(source, result) <= result.len(),
        common_prefix_len(source, result) > 0 ==> diff_script(source, result)[0] == Diff::Output(
            common_prefix_len(source, result) as usize,
        ),
        trimmed_suffix_len(source, result) > 0 ==> diff_script(source, result).last()
            == Diff::Output(trimmed_suffix_len(source, result) as usize),
{
    lemma_diff_script(source, result);
    lemma_prefix_from(source, result, 0);
    let prefix = common_prefix_len(source, result) as int;
    let rest_source = source.subrange(prefix, source.len() as int);
    let rest_result = result.subrange(prefix, result.len() as int);
    lemma_suffix_from(rest_source, rest_result, 0);
    let suffix = common_suffix_len(rest_source, rest_result) as int;
    let mid_source = rest_source.subrange(0, rest_source.len() - suffix);
    let mid_result = rest_result.subrange(0, rest_result.len() - suffix);
    let pairs = lcs_pairs(mid_source, mid_result, 0, 0);
    lemma_lcs_pairs_valid(mid_source, mid_result, 0, 0);
    if prefix > 0 {
        let start = seq![Diff::Output(prefix as usize)];
        if pairs.len() > 0 && pairs[0] == (0int, 0int) {
            // the prefix could have been one item longer
            assert(items_match(mid_source, mid_result, pairs[0].0, pairs[0].1));
            assert(mid_source[0] == source[prefix]);
            assert(mid_result[0] == result[prefix]);
        }
        lemma_matched_keeps_first(start, pairs, pairs.len());
    }
}

/// The common prefix goes by which items match.
pub proof fn lemma_prefix_by_matches<T: PartialEq, U: PartialEq>(
    a: Seq<T>,
    b: Seq<T>,
    c: Seq<U>,
    d: Seq<U>,
    k: nat,
)
    requires
        same_matches(a, b, c, d),
    ensures
        prefix_from(a, b, k) == prefix_from(c, d, k),
    decreases a.len() - k,
{
    if k < a.len() && k < b.len() {
        assert(items_match(a, b, k as int, k as int) == items_match(c, d, k as int, k as int));
        if items_match(a, b, k as int, k as int) {
            lemma_prefix_by_matches(a, b, c, d, k + 1);
        }
    }
}

/// The common suffix goes by which items match.
pub proof fn lemma_suffix_by_matches<T: PartialEq, U: PartialEq>(
    a: Seq<T>,
    b: Seq<T>,
    c: Seq<U>,
    d: Seq<U>,
    k: nat,
)
    requires
        same_matches(a, b, c, d),
    ensures
        suffix_from(a, b, k) == suffix_from(c, d, k),
    decreases a.len() - k,
{
    if k < a.len() && k < b.len() {
        assert(items_match(a, b, a.len() - 1 - k, b.len() - 1 - k) == items_match(
            c,
            d,
            c.len() - 1 - k,
            d.len() - 1 - k,
        ));
        if items_match(a, b, a.len() - 1 - k, b.len() - 1 - k) {
            lemma_suffix_by_matches(a, b, c, d, k + 1);
        }
    }
}

/// Parts of lists between which the same pairs match are lists between
/// which the same pairs match.
pub proof fn lemma_subrange_by_matches<T: PartialEq, U: PartialEq>(
    a: Seq<T>,
    b: Seq<T>,
    c: Seq<U>,
    d: Seq<U>,
    from: int,
    to_a: int,
    to_b: int,
)
    requires
        same_matches(a, b, c, d),
        0 <= from <= to_a <= a.len(),
        from <= to_b <= b.len(),
    ensures
        same_matches(
            a.subrange(from, to_a),
            b.subrange(from, to_b),
            c.subrange(from, to_a),
            d.subrange(from, to_b),
        ),
{
    let (pa, pb) = (a.subrange(from, to_a), b.subrange(from, to_b));
    let (pc, pd) = (c.subrange(from, to_a), d.subrange(from, to_b));
    assert forall|i: int, j: int|
        0 <= i < pa.len() && 0 <= j < pb.len() implies #[trigger] items_match(pa, pb, i, j)
        == items_match(pc, pd, i, j) by {
        assert(items_match(a, b, from + i, from + j) == items_match(c, d, from + i, from + j));
        assert(pa[i] == a[from + i] && pb[j] == b[from + j]);
        assert(pc[i] == c[from + i] && pd[j] == d[from + j]);
    }
}

/// The script goes by the lengths of the two lists and by which of their
/// items match, and by nothing else: lists between which the same pairs
/// match have the same script.
pub proof fn lemma_diff_script_by_matches<T: PartialEq, U: PartialEq>(
    a: Seq<T>,
    b: Seq<T>,
    c: Seq<U>,
    d: Seq<U>,
)
    requires
        same_matches(a, b, c, d),
    ensures
        diff_script(a, b) == diff_script(c, d),
{
    lemma_prefix_by_matches(a, b, c, d, 0);
    lemma_prefix_from(a, b, 0);
    let prefix = common_prefix_len(a, b) as int;
    let (rest_a, rest_b) = (a.subrange(prefix, a.len() as int), b.subrange(prefix, b.len() as int));
    let (rest_c, rest_d) = (c.subrange(prefix, c.len() as int), d.subrange(prefix, d.len() as int));
    lemma_subrange_by_matches(a, b, c, d, prefix, a.len() as int, b.len() as int);
    if !(rest_a.len() == 0 && rest_b.len() == 0) {
        lemma_suffix_by_matches(rest_a, rest_b, rest_c, rest_d, 0);
        lemma_suffix_from(rest_a, rest_b, 0);
        let suffix = common_suffix_len(rest_a, rest_b) as int;
        lemma_subrange_by_matches(
            rest_a,
            rest_b,
            rest_c,
            rest_d,
            0,
            rest_a.len() - suffix,
            rest_b.len() - suffix,
        );
        lemma_lcs_by_matches(
            rest_a.subrange(0, rest_a.len() - suffix),
            rest_b.subrange(0, rest_b.len() - suffix),
            rest_c.subrange(0, rest_c.len() - suffix),
            rest_d.subrange(0, rest_d.len() - suffix),
            0,
            0,
        );
    }
}

/// The script of two lists of lines goes by their texts: lists of lines
/// that hold the same texts have the same script.
pub proof fn lemma_diff_script_of_texts(
    source: Seq<Line>,
    result: Seq<Line>,
    other_source: Seq<Line>,
    other_result: Seq<Line>,
    source_texts: Seq<Seq<char>>,
    result_texts: Seq<Seq<char>>,
)
    requires
        holds_texts(source, source_texts),
        holds_texts(result, result_texts),
        holds_texts(other_source, source_texts),
        holds_texts(other_result, result_texts),
    ensures
        diff_script(source, result) == diff_script(other_source, other_result),
{
    assert(same_matches(source, result, other_source, other_result)) by {
        assert forall|i: int, j: int|
            0 <= i < source.len() && 0 <= j < result.len() implies #[trigger] items_match(
            source,
            result,
            i,
            j,
        ) == items_match(other_source, other_result, i, j) by {
            assert(source[i]@ == source_texts[i] && other_source[i]@ == source_texts[i]);
            assert(result[j]@ == result_texts[j] && other_result[j]@ == result_texts[j]);
        }
    }
    lemma_diff_script_by_matches(source, result, other_source, other_result);
}

/// Result of a diff operation between a `source` list and a `result` list.
///
/// This struct contains a sequence of [`Diff`] elements, and the `source` and
/// `result` lists that the diff sequence was computed from.
///
/// See the [`Diff`] documentation for more details on how the diff is
/// represented.
pub struct DiffResult<'a, T> {
    items: Vec<Diff>,
    source: &'a [T],
    result: &'a [T],
}

impl<'a, T> View for DiffResult<'a, T> {
    type V = Seq<Diff>;

    /// The edit script.
    closed spec fn view(&self) -> Seq<Diff> {
        self.items@
    }
}

impl<'a, T> DiffResult<'a, T> {
    /// The list that the script starts from.
    pub closed spec fn source(&self) -> Seq<T> {
        self.source@
    }

    /// The list that the script leads to.
    pub closed spec fn result(&self) -> Seq<T> {
        self.result@
    }

    /// The script never reaches past the end of either list.
    #[verifier::type_invariant]
    spec fn script_fits(&self) -> bool {
        fits(self.items@, self.source@.len(), self.result@.len())
    }

    /// Whether the two lists are without any difference.
    pub fn is_empty(&self) -> (empty: bool)
        ensures
            empty == (self@.len() == 0),
    {
        self.items.len() == 0
    }

    /// The diff as text: one line for each item of the two lists that the
    /// script walks over. An item that is in both lists stands behind a
    /// space, one that is only in `source` behind `-`, one that is only in
    /// `result` behind `+`. Each item is written as `Display` shows it.
    pub fn to_text(&self) -> (text: String) where T: Display
        ensures
            exists|source: Seq<String>, result: Seq<String>|
                shows(self.source(), source) && shows(self.result(), result) && text@ == report(
                    self@,
                    texts_of(source),
                    texts_of(result),
                ),
    {
        proof {
            use_type_invariant(self);
        }
        let source = display_all(self.source);
        let result = display_all(self.result);
        let text = render(self.items.as_slice(), source.as_slice(), result.as_slice());
        proof {
            assert(shows(self.source(), source@) && shows(self.result(), result@) && text@
                == report(self@, texts_of(source@), texts_of(result@)));
        }
        text
    }

    /// The elements of the diff, in their order. They never reach past the
    /// end of either list.
    pub fn items(&self) -> (items: &Vec<Diff>)
        ensures
            items@ == self@,
            fits(self@, self.source().len(), self.result().len()),
    {
        proof {
            use_type_invariant(self);
        }
        &self.items
    }
}

/// Length of the longest prefix that the two lists have in common.
fn common_prefix<T: PartialEq>(source: &[T], result: &[T]) -> (len: usize)
    ensures
        len <= source@.len(),
        len <= result@.len(),
        T::obeys_eq_spec() ==> len == common_prefix_len(source@, result@),
{
    let mut len: usize = 0;
    while len < source.len() && len < result.len() && source[len] == result[len]
        invariant
            len <= source@.len(),
            len <= result@.len(),
            T::obeys_eq_spec() ==> prefix_from(source@, result@, len as nat) == common_prefix_len(
                source@,
                result@,
            ),
        decreases source@.len() - len,
    {
        len += 1;
    }
    len
}

/// Length of the longest suffix that the two lists have in common.
fn common_suffix<T: PartialEq>(source: &[T], result: &[T]) -> (len: usize)
    ensures
        len <= source@.len(),
        len <= result@.len(),
        T::obeys_eq_spec() ==> len == common_suffix_len(source@, result@),
{
    let mut len: usize = 0;
    while len < source.len() && len < result.len() && source[source.len() - len - 1]
        == result[result.len() - len - 1]
        invariant
            len <= source@.len(),
            len <= result@.len(),
            T::obeys_eq_spec() ==> suffix_from(source@, result@, len as nat) == common_suffix_len(
                source@,
                result@,
            ),
        decreases source@.len() - len,
    {
        len += 1;
    }
    len
}

/// Writes down what lies between the cursors and the position
/// `(to_source, to_result)`: the skipped items of `source` as deleted, then
/// the skipped items of `result` as inserted.
fn push_gap(
    diff: &mut Vec<Diff>,
    cur_source: usize,
    cur_result: usize,
    to_source: usize,
    to_result: usize,
)
    requires
        cur_source <= to_source,
        cur_result <= to_result,
    ensures
        final(diff)@ == with_gap(
            old(diff)@,
            (cur_source as int, cur_result as int),
            (to_source as int, to_result as int),
        ),
        source_len(final(diff)@) == source_len(old(diff)@) + (to_source - cur_source),
        result_len(final(diff)@) == result_len(old(diff)@) + (to_result - cur_result),
{
    if to_source > cur_source {
        proof {
            lemma_len_push(diff@, Diff::Delete((to_source - cur_source) as usize));
        }
        diff.push(Diff::Delete(to_source - cur_source));
    }
    if to_result > cur_result {
        proof {
            lemma_len_push(diff@, Diff::Insert((to_result - cur_result) as usize));
        }
        diff.push(Diff::Insert(to_result - cur_result));
    }
}

/// Writes down one more item that both lists share.
fn push_match(diff: &mut Vec<Diff>)
    requires
        source_len(old(diff)@) < usize::MAX,
    ensures
        final(diff)@ == with_match(old(diff)@),
        source_len(final(diff)@) == source_len(old(diff)@) + 1,
        result_len(final(diff)@) == result_len(old(diff)@) + 1,
{
    let len = diff.len();
    // if we already have an output element, append to it
    if len > 0 {
        if let Diff::Output(count) = diff[len - 1] {
            proof {
                lemma_last_count_bounded(diff@);
                lemma_len_grow(diff@, count);
            }
            diff.set(len - 1, Diff::Output(count + 1));
            return ;
        }
    }
    proof {
        lemma_len_push(diff@, Diff::Output(1));
    }
    diff.push(Diff::Output(1));
}

/// Computes the difference between two lists, typically of lines of text.
///
/// The result describes how to get from `source` to `result`: which items
/// stay, which are removed and which are added. Without any difference it is
/// empty.
///
/// Whatever `==` does on the items, a result that is not empty walks over
/// every item of both lists, none of its elements is empty, and deleted
/// items stand before the items inserted at their place. Of two lists of
/// which one is empty, the other is deleted or inserted as a whole.
///
/// For items whose `==` computes what their `eq_spec` says, the result is
/// exactly [`diff_script`]: it is in canonical form, applied to `source` it
/// gives `result`, and it keeps as many items as the two lists have in
/// common. `String` and `&str` are not such items: lists of text are
/// compared as lists of [`Line`](crate::text::Line), which
/// [`to_lines`](crate::text::to_lines) makes of them.
pub fn lines<'a, T>(source: &'a [T], result: &'a [T]) -> (diff: DiffResult<'a, T>) where
    T: PartialEq,

    ensures
        diff.source() == source@,
        diff.result() == result@,
        diff@.len() == 0 || covers(diff@, source@.len(), result@.len()),
        in_order(diff@),
        source@.len() == 0 && result@.len() == 0 ==> diff@.len() == 0,
        source@.len() == 0 && result@.len() > 0 ==> diff@ == seq![
            Diff::Insert(result@.len() as usize),
        ],
        source@.len() > 0 && result@.len() == 0 ==> diff@ == seq![
            Diff::Delete(source@.len() as usize),
        ],
        T::obeys_eq_spec() ==> diff@ == diff_script(source@, result@),
        T::obeys_eq_spec() ==> (diff@.len() == 0 <==> same_lists(source@, result@)),
        T::obeys_eq_spec() ==> is_canonical(diff@) && deletes_come_first(diff@),
        T::obeys_eq_spec() && diff@.len() > 0 ==> rebuilds(diff@, source@, result@),
        T::obeys_eq_spec() && diff@.len() > 0 ==> kept_len(diff@) == lcs_len(
            source@,
            result@,
            0,
            0,
        ),
{
    let full_source = source;
    let full_result = result;

    let prefix_len = common_prefix(source, result);
    let source = slice_subrange(source, prefix_len, source.len());
    let result = slice_subrange(result, prefix_len, result.len());

    let both_are_equal = source.len() == 0 && result.len() == 0;
    if both_are_equal {
        proof {
            if T::obeys_eq_spec() {
                lemma_diff_script(full_source@, full_result@);
            }
        }
        return DiffResult { items: Vec::new(), source: full_source, result: full_result };
    }

    let suffix_len = common_suffix(source, result);
    let source = slice_subrange(source, 0, source.len() - suffix_len);
    let result = slice_subrange(result, 0, result.len() - suffix_len);

    let common_subsequence = lcs(source, result);
    let ghost pairs = index_pairs(common_subsequence@);

    let mut diff: Vec<Diff> = Vec::new();
    if prefix_len > 0 {
        proof {
            lemma_len_push(diff@, Diff::Output(prefix_len));
        }
        diff.push(Diff::Output(prefix_len));
    }
    let ghost start = diff@;

    let mut cur_source: usize = 0;
    let mut cur_result: usize = 0;

    let mut k: usize = 0;
    while k < common_subsequence.len()
        invariant
            k <= common_subsequence@.len(),
            pairs == index_pairs(common_subsequence@),
            is_alignment(pairs, source@.len() as int, result@.len() as int),
            (cur_source as int, cur_result as int) == cursor(pairs, k as int),
            cur_source <= source@.len(),
            cur_result <= result@.len(),
            prefix_len + source@.len() <= usize::MAX,
            prefix_len + result@.len() <= usize::MAX,
            diff@ == matched_upto(start, pairs, k as nat),
            source_len(diff@) == prefix_len + cur_source,
            result_len(diff@) == prefix_len + cur_result,
        decreases common_subsequence@.len() - k,
    {
        let (line_source, line_result) = common_subsequence[k];
        proof {
            assert(pairs[k as int] == (line_source as int, line_result as int));
            if k > 0 {
                assert(pairs[k - 1].0 < pairs[k as int].0 && pairs[k - 1].1 < pairs[k as int].1);
            }
        }
        push_gap(&mut diff, cur_source, cur_result, line_source, line_result);
        push_match(&mut diff);

        cur_source = line_source + 1;
        cur_result = line_result + 1;
        k += 1;
    }

    push_gap(&mut diff, cur_source, cur_result, source.len(), result.len());

    if suffix_len > 0 {
        proof {
            lemma_len_push(diff@, Diff::Output(suffix_len));
        }
        diff.push(Diff::Output(suffix_len));
    }

    proof {
        assert(diff@ == assemble(
            prefix_len as int,
            suffix_len as int,
            pairs,
            source@.len() as int,
            result@.len() as int,
        ));
        assert(covers(diff@, full_source@.len(), full_result@.len()));
        assert(diff@.len() > 0);
        lemma_assemble_in_order(
            prefix_len as int,
            suffix_len as int,
            pairs,
            source@.len() as int,
            result@.len() as int,
        );
        if T::obeys_eq_spec() {
            assert(diff@ == diff_script(full_source@, full_result@));
            lemma_diff_script(full_source@, full_result@);
            lemma_well_formed_is_canonical(diff@);
        }
    }
    DiffResult { items: diff, source: full_source, result: full_result }
}

} // verus!
