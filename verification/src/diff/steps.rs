//! Building an edit script along an alignment of two lists.

use super::lcs::{is_alignment, items_match};
use super::lines::Diff;
use super::script::{
    covers, in_order, kept_len, may_follow, may_follow_change, rebuilds, rebuilds_prefix,
    result_len, run_matches, source_len, well_formed,
};
use super::script::{
    lemma_last_count_bounded, lemma_len_grow, lemma_len_push, lemma_rebuilds_delete,
    lemma_rebuilds_grow, lemma_rebuilds_insert, lemma_rebuilds_output,
};
use vstd::prelude::*;

verus! {

/// Where the two cursors stand once the first `k` pairs are dealt with: just
/// behind pair `k - 1`, or at the start.
pub open spec fn cursor(pairs: Seq<(int, int)>, k: int) -> (int, int) {
    if k <= 0 {
        (0, 0)
    } else {
        (pairs[k - 1].0 + 1, pairs[k - 1].1 + 1)
    }
}

/// The script with what lies between the cursors `from` and `to`: the items
/// of `source` as one `Delete`, then those of `result` as one `Insert`.
pub open spec fn with_gap(script: Seq<Diff>, from: (int, int), to: (int, int)) -> Seq<Diff> {
    let deleted = if to.0 > from.0 {
        script.push(Diff::Delete((to.0 - from.0) as usize))
    } else {
        script
    };
    if to.1 > from.1 {
        deleted.push(Diff::Insert((to.1 - from.1) as usize))
    } else {
        deleted
    }
}

/// The script with one more kept item: a last `Output` grows by one, behind
/// anything else a new `Output` starts.
pub open spec fn with_match(script: Seq<Diff>) -> Seq<Diff> {
    if script.len() > 0 && script.last() is Output {
        script.update(script.len() - 1, Diff::Output((script.last().count() + 1) as usize))
    } else {
        script.push(Diff::Output(1))
    }
}

/// The script `start` continued over the first `k` pairs of an alignment.
pub open spec fn matched_upto(start: Seq<Diff>, pairs: Seq<(int, int)>, k: nat) -> Seq<Diff>
    decreases k,
{
    if k == 0 {
        start
    } else {
        let before = matched_upto(start, pairs, (k - 1) as nat);
        with_match(with_gap(before, cursor(pairs, k - 1), pairs[k - 1]))
    }
}

/// The script for two lists that share `prefix` items at the front and
/// `suffix` items at the back, where `pairs` aligns what lies in between:
/// `mid_source` items of `source` and `mid_result` items of `result`.
pub open spec fn assemble(
    prefix: int,
    suffix: int,
    pairs: Seq<(int, int)>,
    mid_source: int,
    mid_result: int,
) -> Seq<Diff> {
    let start = if prefix > 0 {
        seq![Diff::Output(prefix as usize)]
    } else {
        Seq::empty()
    };
    let matched = matched_upto(start, pairs, pairs.len());
    let middle = with_gap(matched, cursor(pairs, pairs.len() as int), (mid_source, mid_result));
    if suffix > 0 {
        middle.push(Diff::Output(suffix as usize))
    } else {
        middle
    }
}

/// What holds of a script that has been built as far as item `at_source` of
/// `source` and item `at_result` of `result`.
pub open spec fn built_upto<T: PartialEq>(
    script: Seq<Diff>,
    source: Seq<T>,
    result: Seq<T>,
    at_source: int,
    at_result: int,
) -> bool {
    &&& well_formed(script)
    &&& source_len(script) == at_source
    &&& result_len(script) == at_result
    &&& rebuilds_prefix(script, source, result)
}

/// Either nothing has been written yet or the last element is an `Output`.
pub open spec fn ends_with_output(script: Seq<Diff>) -> bool {
    script.len() == 0 || script.last() is Output
}

/// Moving the cursors forward over unmatched items keeps a script sound.
/// Where the cursors do move, the script then ends in a `Delete` or an
/// `Insert`.
pub proof fn lemma_with_gap<T: PartialEq>(
    script: Seq<Diff>,
    source: Seq<T>,
    result: Seq<T>,
    base: int,
    from: (int, int),
    to: (int, int),
)
    requires
        built_upto(script, source, result, base + from.0, base + from.1),
        ends_with_output(script),
        from.0 <= to.0,
        from.1 <= to.1,
        base + to.0 <= source.len() <= usize::MAX,
        base + to.1 <= result.len() <= usize::MAX,
    ensures
        built_upto(with_gap(script, from, to), source, result, base + to.0, base + to.1),
        from == to ==> with_gap(script, from, to) == script,
        from != to ==> with_gap(script, from, to).len() > 0 && !(with_gap(
            script,
            from,
            to,
        ).last() is Output),
        with_gap(script, from, to).len() >= script.len(),
        kept_len(with_gap(script, from, to)) == kept_len(script),
{
    let deleted = if to.0 > from.0 {
        script.push(Diff::Delete((to.0 - from.0) as usize))
    } else {
        script
    };
    if to.0 > from.0 {
        let op = Diff::Delete((to.0 - from.0) as usize);
        lemma_len_push(script, op);
        lemma_rebuilds_delete(script, source, result, (to.0 - from.0) as usize);
        assert forall|k: int| 0 <= k < deleted.len() - 1 implies may_follow(
            #[trigger] deleted[k],
            deleted[k + 1],
        ) by {
            if k < script.len() - 1 {
                assert(may_follow(script[k], script[k + 1]));
            }
        }
    }
    assert(built_upto(deleted, source, result, base + to.0, base + from.1));
    if to.1 > from.1 {
        let op = Diff::Insert((to.1 - from.1) as usize);
        let inserted = deleted.push(op);
        lemma_len_push(deleted, op);
        lemma_rebuilds_insert(deleted, source, result, (to.1 - from.1) as usize);
        assert forall|k: int| 0 <= k < inserted.len() - 1 implies may_follow(
            #[trigger] inserted[k],
            inserted[k + 1],
        ) by {
            if k < deleted.len() - 1 {
                assert(may_follow(deleted[k], deleted[k + 1]));
            }
        }
    }
}

/// Keeping one more pair of matching items keeps a script sound, and leaves
/// an `Output` at its end.
pub proof fn lemma_with_match<T: PartialEq>(
    script: Seq<Diff>,
    source: Seq<T>,
    result: Seq<T>,
    at_source: int,
    at_result: int,
)
    requires
        built_upto(script, source, result, at_source, at_result),
        at_source < source.len() <= usize::MAX,
        at_result < result.len(),
        items_match(source, result, at_source, at_result),
    ensures
        built_upto(with_match(script), source, result, at_source + 1, at_result + 1),
        with_match(script).len() > 0,
        with_match(script).last() is Output,
        kept_len(with_match(script)) == kept_len(script) + 1,
{
    let next = with_match(script);
    if script.len() > 0 && script.last() is Output {
        let count = script.last()->Output_0;
        lemma_last_count_bounded(script);
        lemma_len_grow(script, count);
        lemma_rebuilds_grow(script, source, result, count);
        assert forall|k: int| 0 <= k < next.len() - 1 implies may_follow(
            #[trigger] next[k],
            next[k + 1],
        ) by {
            assert(may_follow(script[k], script[k + 1]));
        }
    } else {
        lemma_len_push(script, Diff::Output(1));
        assert(run_matches(source, result, at_source, at_result, 1));
        lemma_rebuilds_output(script, source, result, 1);
        assert forall|k: int| 0 <= k < next.len() - 1 implies may_follow(
            #[trigger] next[k],
            next[k + 1],
        ) by {
            if k < script.len() - 1 {
                assert(may_follow(script[k], script[k + 1]));
            }
        }
    }
}

/// A sound script continued over the pairs of a common subsequence stays
/// sound, pair after pair, and stands just behind the last pair dealt with.
pub proof fn lemma_matched_upto<T: PartialEq>(
    start: Seq<Diff>,
    pairs: Seq<(int, int)>,
    k: nat,
    source: Seq<T>,
    result: Seq<T>,
    base: int,
    mid_source_len: int,
    mid_result_len: int,
)
    requires
        built_upto(start, source, result, base, base),
        ends_with_output(start),
        is_alignment(pairs, mid_source_len, mid_result_len),
        k <= pairs.len(),
        base + mid_source_len <= source.len() <= usize::MAX,
        base + mid_result_len <= result.len() <= usize::MAX,
        forall|t: int|
            0 <= t < pairs.len() ==> items_match(
                source,
                result,
                base + (#[trigger] pairs[t]).0,
                base + pairs[t].1,
            ),
    ensures
        built_upto(
            matched_upto(start, pairs, k),
            source,
            result,
            base + cursor(pairs, k as int).0,
            base + cursor(pairs, k as int).1,
        ),
        ends_with_output(matched_upto(start, pairs, k)),
        matched_upto(start, pairs, k).len() >= start.len(),
        kept_len(matched_upto(start, pairs, k)) == kept_len(start) + k,
    decreases k,
{
    if k > 0 {
        let before = matched_upto(start, pairs, (k - 1) as nat);
        let from = cursor(pairs, k - 1);
        let to = pairs[k - 1];
        lemma_matched_upto(
            start,
            pairs,
            (k - 1) as nat,
            source,
            result,
            base,
            mid_source_len,
            mid_result_len,
        );
        if k > 1 {
            assert(pairs[k - 2].0 < pairs[k - 1].0 && pairs[k - 2].1 < pairs[k - 1].1);
        }
        lemma_with_gap(before, source, result, base, from, to);
        lemma_with_match(with_gap(before, from, to), source, result, base + to.0, base + to.1);
    }
}

/// The assembled script of two lists that are not both empty is well formed
/// and not empty, covers both lists and rebuilds `result`, and it keeps the
/// prefix, one item for each aligned pair, and the suffix, provided that the
/// prefix, the aligned pairs and the suffix join matching items, and that the
/// suffix does not directly continue the last aligned pair.
pub proof fn lemma_assemble<T: PartialEq>(
    source: Seq<T>,
    result: Seq<T>,
    prefix: int,
    suffix: int,
    pairs: Seq<(int, int)>,
    mid_source: int,
    mid_result: int,
)
    requires
        0 <= prefix,
        0 <= suffix,
        0 <= mid_source,
        0 <= mid_result,
        prefix + mid_source + suffix == source.len() <= usize::MAX,
        prefix + mid_result + suffix == result.len() <= usize::MAX,
        source.len() > 0 || result.len() > 0,
        run_matches(source, result, 0, 0, prefix),
        is_alignment(pairs, mid_source, mid_result),
        forall|t: int|
            0 <= t < pairs.len() ==> items_match(
                source,
                result,
                prefix + (#[trigger] pairs[t]).0,
                prefix + pairs[t].1,
            ),
        run_matches(source, result, prefix + mid_source, prefix + mid_result, suffix),
        suffix > 0 ==> cursor(pairs, pairs.len() as int) != (mid_source, mid_result),
    ensures
        well_formed(assemble(prefix, suffix, pairs, mid_source, mid_result)),
        covers(assemble(prefix, suffix, pairs, mid_source, mid_result), source.len(), result.len()),
        rebuilds(assemble(prefix, suffix, pairs, mid_source, mid_result), source, result),
        assemble(prefix, suffix, pairs, mid_source, mid_result).len() > 0,
        kept_len(assemble(prefix, suffix, pairs, mid_source, mid_result)) == prefix + pairs.len()
            + suffix,
{
    let none = Seq::<Diff>::empty();
    let start = if prefix > 0 {
        seq![Diff::Output(prefix as usize)]
    } else {
        none
    };
    assert(built_upto(start, source, result, prefix, prefix) && ends_with_output(start)
        && kept_len(start) == prefix) by {
        assert(rebuilds_prefix(none, source, result));
        if prefix > 0 {
            assert(start == none.push(Diff::Output(prefix as usize)));
            lemma_len_push(none, Diff::Output(prefix as usize));
            lemma_rebuilds_output(none, source, result, prefix as usize);
        }
    }
    lemma_matched_upto(start, pairs, pairs.len(), source, result, prefix, mid_source, mid_result);
    let matched = matched_upto(start, pairs, pairs.len());
    let from = cursor(pairs, pairs.len() as int);
    let to = (mid_source, mid_result);
    lemma_with_gap(matched, source, result, prefix, from, to);
    let middle = with_gap(matched, from, to);
    let whole = assemble(prefix, suffix, pairs, mid_source, mid_result);
    if suffix > 0 {
        let last = Diff::Output(suffix as usize);
        assert(whole == middle.push(last));
        lemma_len_push(middle, last);
        lemma_rebuilds_output(middle, source, result, suffix as usize);
        assert forall|k: int| 0 <= k < whole.len() - 1 implies may_follow(
            #[trigger] whole[k],
            whole[k + 1],
        ) by {
            if k < middle.len() - 1 {
                assert(may_follow(middle[k], middle[k + 1]));
            }
        }
    } else {
        assert(whole == middle);
    }
    assert(built_upto(whole, source, result, source.len() as int, result.len() as int));
}

/// A first element that is followed by a gap stays as it is: the items that
/// are kept later are counted behind the gap.
pub proof fn lemma_matched_keeps_first(start: Seq<Diff>, pairs: Seq<(int, int)>, k: nat)
    requires
        start.len() == 1,
        k <= pairs.len(),
        pairs.len() > 0 ==> pairs[0].0 > 0 || pairs[0].1 > 0,
    ensures
        matched_upto(start, pairs, k).len() >= 1,
        k >= 1 ==> matched_upto(start, pairs, k).len() >= 2,
        matched_upto(start, pairs, k)[0] == start[0],
    decreases k,
{
    if k > 0 {
        lemma_matched_keeps_first(start, pairs, (k - 1) as nat);
    }
}

/// Moving the cursors forward keeps a script in order, whatever the items
/// are.
pub proof fn lemma_with_gap_in_order(script: Seq<Diff>, from: (int, int), to: (int, int))
    requires
        in_order(script),
        ends_with_output(script),
        from.0 <= to.0 <= from.0 + usize::MAX,
        from.1 <= to.1 <= from.1 + usize::MAX,
    ensures
        in_order(with_gap(script, from, to)),
        source_len(with_gap(script, from, to)) == source_len(script) + (to.0 - from.0),
{
    let deleted = if to.0 > from.0 {
        script.push(Diff::Delete((to.0 - from.0) as usize))
    } else {
        script
    };
    if to.0 > from.0 {
        lemma_len_push(script, Diff::Delete((to.0 - from.0) as usize));
        assert forall|k: int| 0 <= k < deleted.len() - 1 implies may_follow_change(
            #[trigger] deleted[k],
            deleted[k + 1],
        ) by {
            if k < script.len() - 1 {
                assert(may_follow_change(script[k], script[k + 1]));
            }
        }
    }
    if to.1 > from.1 {
        let inserted = deleted.push(Diff::Insert((to.1 - from.1) as usize));
        lemma_len_push(deleted, Diff::Insert((to.1 - from.1) as usize));
        assert forall|k: int| 0 <= k < inserted.len() - 1 implies may_follow_change(
            #[trigger] inserted[k],
            inserted[k + 1],
        ) by {
            if k < deleted.len() - 1 {
                assert(may_follow_change(deleted[k], deleted[k + 1]));
            }
        }
    }
}

/// Keeping one more item keeps a script in order, whatever the items are.
pub proof fn lemma_with_match_in_order(script: Seq<Diff>)
    requires
        in_order(script),
        source_len(script) < usize::MAX,
    ensures
        in_order(with_match(script)),
        ends_with_output(with_match(script)),
        source_len(with_match(script)) == source_len(script) + 1,
{
    let next = with_match(script);
    if script.len() > 0 && script.last() is Output {
        let count = script.last()->Output_0;
        lemma_last_count_bounded(script);
        lemma_len_grow(script, count);
        assert forall|k: int| 0 <= k < next.len() - 1 implies may_follow_change(
            #[trigger] next[k],
            next[k + 1],
        ) by {
            assert(may_follow_change(script[k], script[k + 1]));
        }
    } else {
        lemma_len_push(script, Diff::Output(1));
        assert forall|k: int| 0 <= k < next.len() - 1 implies may_follow_change(
            #[trigger] next[k],
            next[k + 1],
        ) by {
            if k < script.len() - 1 {
                assert(may_follow_change(script[k], script[k + 1]));
            }
        }
    }
}

/// A script continued over the pairs of an alignment stays in order,
/// whatever the items are.
pub proof fn lemma_matched_upto_in_order(
    start: Seq<Diff>,
    pairs: Seq<(int, int)>,
    k: nat,
    mid_source: int,
    mid_result: int,
)
    requires
        in_order(start),
        ends_with_output(start),
        is_alignment(pairs, mid_source, mid_result),
        k <= pairs.len(),
        source_len(start) + mid_source <= usize::MAX,
        mid_result <= usize::MAX,
    ensures
        in_order(matched_upto(start, pairs, k)),
        ends_with_output(matched_upto(start, pairs, k)),
        source_len(matched_upto(start, pairs, k)) == source_len(start) + cursor(pairs, k as int).0,
    decreases k,
{
    if k > 0 {
        let before = matched_upto(start, pairs, (k - 1) as nat);
        let from = cursor(pairs, k - 1);
        let to = pairs[k - 1];
        lemma_matched_upto_in_order(start, pairs, (k - 1) as nat, mid_source, mid_result);
        if k > 1 {
            assert(pairs[k - 2].0 < pairs[k - 1].0 && pairs[k - 2].1 < pairs[k - 1].1);
        }
        lemma_with_gap_in_order(before, from, to);
        lemma_with_match_in_order(with_gap(before, from, to));
    }
}

/// The assembled script is in order, whatever the items are: none of its
/// elements is empty, behind an `Insert` only an `Output` follows, and never
/// a `Delete` behind a `Delete`.
pub proof fn lemma_assemble_in_order(
    prefix: int,
    suffix: int,
    pairs: Seq<(int, int)>,
    mid_source: int,
    mid_result: int,
)
    requires
        0 <= prefix,
        0 <= suffix,
        0 <= mid_source,
        0 <= mid_result,
        prefix + mid_source + suffix <= usize::MAX,
        prefix + mid_result + suffix <= usize::MAX,
        is_alignment(pairs, mid_source, mid_result),
    ensures
        in_order(assemble(prefix, suffix, pairs, mid_source, mid_result)),
{
    let none = Seq::<Diff>::empty();
    let start = if prefix > 0 {
        seq![Diff::Output(prefix as usize)]
    } else {
        none
    };
    if prefix > 0 {
        assert(start == none.push(Diff::Output(prefix as usize)));
        lemma_len_push(none, Diff::Output(prefix as usize));
    }
    lemma_matched_upto_in_order(start, pairs, pairs.len(), mid_source, mid_result);
    let matched = matched_upto(start, pairs, pairs.len());
    let from = cursor(pairs, pairs.len() as int);
    if pairs.len() > 0 {
        assert(pairs[pairs.len() - 1].0 < mid_source && pairs[pairs.len() - 1].1 < mid_result);
    }
    lemma_with_gap_in_order(matched, from, (mid_source, mid_result));
    let middle = with_gap(matched, from, (mid_source, mid_result));
    let whole = assemble(prefix, suffix, pairs, mid_source, mid_result);
    if suffix > 0 {
        assert forall|k: int| 0 <= k < whole.len() - 1 implies may_follow_change(
            #[trigger] whole[k],
            whole[k + 1],
        ) by {
            if k < middle.len() - 1 {
                assert(may_follow_change(middle[k], middle[k + 1]));
            }
        }
    }
}

} // verus!
