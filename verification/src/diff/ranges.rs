//! The difference of two lists of lines, with each element written as the
//! range of lines that it covers.

use super::lines::{diff_script, lemma_diff_script_of_texts, lines};
use super::render::lemma_len_take;
use super::script::{
    covers, deletes_come_first, is_canonical, kept_len, rebuilds, result_len, source_len,
};
use crate::text::chars::AsText;
use crate::text::join_lines::texts_of;
use crate::text::line::{holds_texts, to_lines, Line};
use vstd::prelude::*;

verus! {

/// One element of a diff, as a range of lines. The bounds are indexes, the
/// first included and the second not: into `source` for `Output` and
/// `Delete`, into `result` for `Insert`.
#[derive(Debug, Clone, Copy, PartialEq, Eq, Structural)]
pub enum Diff {
    /// Lines of `source` that are in `result` as well.
    Output(usize, usize),
    /// Lines of `result` that are not in `source`.
    Insert(usize, usize),
    /// Lines of `source` that are not in `result`.
    Delete(usize, usize),
}

/// An element that covers `count` lines, as a range: where it starts is
/// where the elements before it have got to, in `source` for an `Output` or
/// a `Delete`, in `result` for an `Insert`.
pub open spec fn as_range(element: super::lines::Diff, at_source: nat, at_result: nat) -> Diff {
    match element {
        super::lines::Diff::Output(count) => Diff::Output(
            at_source as usize,
            (at_source + count) as usize,
        ),
        super::lines::Diff::Delete(count) => Diff::Delete(
            at_source as usize,
            (at_source + count) as usize,
        ),
        super::lines::Diff::Insert(count) => Diff::Insert(
            at_result as usize,
            (at_result + count) as usize,
        ),
    }
}

/// An edit script with each of its elements written as the range that it
/// covers.
pub open spec fn as_ranges(script: Seq<super::lines::Diff>) -> Seq<Diff>
    decreases script.len(),
{
    if script.len() == 0 {
        Seq::empty()
    } else {
        let before = script.drop_last();
        as_ranges(before).push(as_range(script.last(), source_len(before), result_len(before)))
    }
}

/// A range as the number of lines that it covers.
pub open spec fn as_count(range: Diff) -> super::lines::Diff {
    match range {
        Diff::Output(sta, end) => super::lines::Diff::Output((end - sta) as usize),
        Diff::Delete(sta, end) => super::lines::Diff::Delete((end - sta) as usize),
        Diff::Insert(sta, end) => super::lines::Diff::Insert((end - sta) as usize),
    }
}

/// The edit script that a list of ranges stands for: each range as the
/// number of lines that it covers.
pub open spec fn as_counts(ranges: Seq<Diff>) -> Seq<super::lines::Diff> {
    ranges.map_values(|range: Diff| as_count(range))
}

/// The ranges of a script are as many as its elements, and they stand for
/// the script.
pub proof fn lemma_as_ranges(script: Seq<super::lines::Diff>)
    requires
        source_len(script) <= usize::MAX,
        result_len(script) <= usize::MAX,
    ensures
        as_ranges(script).len() == script.len(),
        as_counts(as_ranges(script)) == script,
    decreases script.len(),
{
    if script.len() > 0 {
        let before = script.drop_last();
        lemma_as_ranges(before);
        let ranges = as_ranges(script);
        assert(ranges.drop_last() == as_ranges(before));
        assert forall|k: int| 0 <= k < script.len() implies as_counts(ranges)[k] == script[k] by {
            if k < before.len() {
                assert(as_counts(as_ranges(before))[k] == before[k]);
                assert(ranges[k] == as_ranges(before)[k]);
            }
        }
        assert(as_counts(ranges) =~= script);
    }
}

/// Computes the difference between two lists of lines, as ranges of lines.
///
/// The result is the script that [`lines`](super::lines::lines) gives for
/// the same lines, each element written as the range that it covers:
/// whichever lists of [`Line`] hold the texts of `source` and `result`, it
/// is the script of theirs. So the
/// ranges follow one another without a gap through all of `source` and all
/// of `result`, none of them is empty, no two `Output` ranges are
/// neighbours, a `Delete` stands before the `Insert` at its place, and the
/// `Output` ranges hold as many lines as the two lists have in common. Two
/// lists with the same lines have the empty diff.
pub fn diff_lines<A, B>(source: &[A], result: &[B]) -> (diff: Vec<Diff>) where A: AsText, B: AsText
    ensures
        forall|source_lines: Seq<Line>, result_lines: Seq<Line>|
            holds_texts(source_lines, texts_of(source@)) && holds_texts(
                result_lines,
                texts_of(result@),
            ) ==> diff@ == as_ranges(#[trigger] diff_script(source_lines, result_lines)),
        exists|source_lines: Seq<Line>, result_lines: Seq<Line>|
            {
                &&& holds_texts(source_lines, texts_of(source@))
                &&& holds_texts(result_lines, texts_of(result@))
                &&& diff@ == as_ranges(#[trigger] diff_script(source_lines, result_lines))
                &&& diff@.len() > 0 ==> rebuilds(as_counts(diff@), source_lines, result_lines)
                &&& diff@.len() > 0 ==> kept_len(as_counts(diff@)) == super::lcs::lcs_len(
                    source_lines,
                    result_lines,
                    0,
                    0,
                )
            },
        diff@ == as_ranges(as_counts(diff@)),
        diff@.len() == 0 <==> texts_of(source@) == texts_of(result@),
        diff@.len() > 0 ==> covers(as_counts(diff@), source@.len(), result@.len()),
        is_canonical(as_counts(diff@)),
        deletes_come_first(as_counts(diff@)),
{
    let source_lines = to_lines(source);
    let result_lines = to_lines(result);
    let script = lines(source_lines.as_slice(), result_lines.as_slice());
    let items = script.items();
    let ghost counts = items@;

    let source_count = source_lines.len();
    let result_count = result_lines.len();
    let mut diff: Vec<Diff> = Vec::new();
    let mut cur_source: usize = 0;
    let mut cur_result: usize = 0;
    let mut at: usize = 0;
    while at < items.len()
        invariant
            at <= items@.len(),
            counts == items@,
            source_len(counts) <= source_count,
            result_len(counts) <= result_count,
            cur_source == source_len(counts.take(at as int)),
            cur_result == result_len(counts.take(at as int)),
            diff@ == as_ranges(counts.take(at as int)),
        decreases items@.len() - at,
    {
        proof {
            let next = counts.take(at + 1);
            lemma_len_take(counts, at + 1);
            assert(next.drop_last() == counts.take(at as int));
            assert(next.last() == counts[at as int]);
            assert(source_len(next) == cur_source + counts[at as int].source_items());
            assert(result_len(next) == cur_result + counts[at as int].result_items());
        }
        match items[at] {
            super::lines::Diff::Output(count) => {
                diff.push(Diff::Output(cur_source, cur_source + count));
                cur_source += count;
                cur_result += count;
            },
            super::lines::Diff::Delete(count) => {
                diff.push(Diff::Delete(cur_source, cur_source + count));
                cur_source += count;
            },
            super::lines::Diff::Insert(count) => {
                diff.push(Diff::Insert(cur_result, cur_result + count));
                cur_result += count;
            },
        }
        at += 1;
    }
    proof {
        assert(counts.take(at as int) == counts);
        lemma_as_ranges(counts);
        assert(counts == diff_script(source_lines@, result_lines@));
        assert forall|first: Seq<Line>, second: Seq<Line>|
            holds_texts(first, texts_of(source@)) && holds_texts(
                second,
                texts_of(result@),
            ) implies diff@ == as_ranges(#[trigger] diff_script(first, second)) by {
            lemma_diff_script_of_texts(
                source_lines@,
                result_lines@,
                first,
                second,
                texts_of(source@),
                texts_of(result@),
            );
        }
        // equal lines are equal texts
        if texts_of(source@) == texts_of(result@) {
            assert forall|k: int|
                0 <= k < source_lines@.len() implies #[trigger] super::lcs::items_match(
                source_lines@,
                result_lines@,
                k,
                k,
            ) by {
                assert(source_lines@[k]@ == texts_of(source@)[k]);
                assert(result_lines@[k]@ == texts_of(result@)[k]);
            }
        }
        if super::lines::same_lists(source_lines@, result_lines@) {
            assert forall|k: int| 0 <= k < source@.len() implies texts_of(source@)[k] == texts_of(
                result@,
            )[k] by {
                assert(super::lcs::items_match(source_lines@, result_lines@, k, k));
            }
            assert(texts_of(source@) =~= texts_of(result@));
        }
    }
    diff
}

} // verus!
