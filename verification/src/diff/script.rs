//! What an edit script means: how much of each list it covers, what it
//! rebuilds, and when it is in canonical form.

use super::lcs::items_match;
use super::lines::Diff;
use vstd::prelude::*;
use vstd::std_specs::cmp::PartialEqSpec;

verus! {

impl Diff {
    /// Number of items the element applies to.
    pub open spec fn count(self) -> nat {
        match self {
            Diff::Output(count) => count as nat,
            Diff::Delete(count) => count as nat,
            Diff::Insert(count) => count as nat,
        }
    }

    /// Number of items that the element keeps.
    pub open spec fn kept_items(self) -> nat {
        match self {
            Diff::Output(count) => count as nat,
            Diff::Delete(_) => 0,
            Diff::Insert(_) => 0,
        }
    }

    /// Number of items of `source` that the element moves past.
    pub open spec fn source_items(self) -> nat {
        match self {
            Diff::Output(count) => count as nat,
            Diff::Delete(count) => count as nat,
            Diff::Insert(_) => 0,
        }
    }

    /// Number of items of `result` that the element moves past.
    pub open spec fn result_items(self) -> nat {
        match self {
            Diff::Output(count) => count as nat,
            Diff::Delete(_) => 0,
            Diff::Insert(count) => count as nat,
        }
    }
}

/// Number of items of `source` that a script walks over: the counts of its
/// `Output` and `Delete` elements added up.
pub open spec fn source_len(script: Seq<Diff>) -> nat
    decreases script.len(),
{
    if script.len() == 0 {
        0
    } else {
        source_len(script.drop_last()) + script.last().source_items()
    }
}

/// Number of items of `result` that a script walks over: the counts of its
/// `Output` and `Insert` elements added up.
pub open spec fn result_len(script: Seq<Diff>) -> nat
    decreases script.len(),
{
    if script.len() == 0 {
        0
    } else {
        result_len(script.drop_last()) + script.last().result_items()
    }
}

/// Number of items that a script keeps: the counts of its `Output` elements
/// added up.
pub open spec fn kept_len(script: Seq<Diff>) -> nat
    decreases script.len(),
{
    if script.len() == 0 {
        0
    } else {
        kept_len(script.drop_last()) + script.last().kept_items()
    }
}

/// The script walks over exactly `n` items of `source` and `m` of `result`.
pub open spec fn covers(script: Seq<Diff>, n: nat, m: nat) -> bool {
    source_len(script) == n && result_len(script) == m
}

/// The script stays inside lists of `n` and `m` items.
pub open spec fn fits(script: Seq<Diff>, n: nat, m: nat) -> bool {
    source_len(script) <= n && result_len(script) <= m
}

/// The list that a script builds out of `source`: kept items are copied from
/// `source`, deleted items are passed over, and inserted items are taken from
/// `result` where the script has got to in it.
pub open spec fn apply<T>(script: Seq<Diff>, source: Seq<T>, result: Seq<T>) -> Seq<T>
    decreases script.len(),
{
    if script.len() == 0 {
        Seq::empty()
    } else {
        let before = script.drop_last();
        let built = apply(before, source, result);
        let at_source = source_len(before) as int;
        let at_result = result_len(before) as int;
        match script.last() {
            Diff::Output(count) => built + source.subrange(at_source, at_source + count),
            Diff::Delete(_) => built,
            Diff::Insert(count) => built + result.subrange(at_result, at_result + count),
        }
    }
}

/// The `count` items of `source` from `at_source` on match, one by one, the
/// items of `result` from `at_result` on.
pub open spec fn run_matches<T: PartialEq>(
    source: Seq<T>,
    result: Seq<T>,
    at_source: int,
    at_result: int,
    count: int,
) -> bool {
    forall|t: int|
        0 <= t < count ==> #[trigger] items_match(source, result, at_source + t, at_result + t)
}

/// Two items between which `==` on `T` sees no difference.
pub open spec fn same_item<T: PartialEq>(kept: T, wanted: T) -> bool {
    kept == wanted || kept.eq_spec(&wanted)
}

/// As far as the script goes, what it builds is `result`, item by item.
pub open spec fn rebuilds_prefix<T: PartialEq>(
    script: Seq<Diff>,
    source: Seq<T>,
    result: Seq<T>,
) -> bool {
    let built = apply(script, source, result);
    &&& built.len() == result_len(script)
    &&& forall|k: int| 0 <= k < built.len() ==> same_item(#[trigger] built[k], result[k])
}

/// Applying the script to `source` gives `result`.
pub open spec fn rebuilds<T: PartialEq>(script: Seq<Diff>, source: Seq<T>, result: Seq<T>) -> bool {
    let built = apply(script, source, result);
    &&& built.len() == result.len()
    &&& forall|k: int| 0 <= k < built.len() ==> same_item(#[trigger] built[k], result[k])
}

/// Whether `next` may stand directly behind `op`: never two elements of one
/// kind in a row, and nothing but an `Output` behind an `Insert`.
pub open spec fn may_follow(op: Diff, next: Diff) -> bool {
    match op {
        Diff::Output(_) => !(next is Output),
        Diff::Delete(_) => !(next is Delete),
        Diff::Insert(_) => next is Output,
    }
}

/// No element is empty, and no two `Output` elements stand side by side.
pub open spec fn is_canonical(script: Seq<Diff>) -> bool {
    &&& forall|k: int| 0 <= k < script.len() ==> (#[trigger] script[k]).count() > 0
    &&& forall|k: int|
        0 <= k < script.len() - 1 ==> !((#[trigger] script[k]) is Output && script[k + 1] is Output)
}

/// Between two `Output` elements the deleted items come before the inserted
/// ones: at most one `Delete`, then at most one `Insert`.
pub open spec fn deletes_come_first(script: Seq<Diff>) -> bool {
    forall|k: int| 0 <= k < script.len() - 1 ==> may_follow(#[trigger] script[k], script[k + 1])
}

/// Whether `next` may stand directly behind `op` as far as deleted and
/// inserted items go: nothing but an `Output` behind an `Insert`, and no
/// `Delete` behind a `Delete`.
pub open spec fn may_follow_change(op: Diff, next: Diff) -> bool {
    match op {
        Diff::Output(_) => true,
        Diff::Delete(_) => !(next is Delete),
        Diff::Insert(_) => next is Output,
    }
}

/// No element is empty, and where items are deleted and inserted at one
/// place, there is one `Delete` and behind it one `Insert`.
pub open spec fn in_order(script: Seq<Diff>) -> bool {
    &&& forall|k: int| 0 <= k < script.len() ==> (#[trigger] script[k]).count() > 0
    &&& forall|k: int|
        0 <= k < script.len() - 1 ==> may_follow_change(#[trigger] script[k], script[k + 1])
}

/// Canonical form and the order of deletions and insertions together.
pub open spec fn well_formed(script: Seq<Diff>) -> bool {
    &&& forall|k: int| 0 <= k < script.len() ==> (#[trigger] script[k]).count() > 0
    &&& deletes_come_first(script)
}

/// A well-formed script is canonical.
pub proof fn lemma_well_formed_is_canonical(script: Seq<Diff>)
    requires
        well_formed(script),
    ensures
        is_canonical(script),
{
    assert forall|k: int| 0 <= k < script.len() - 1 implies !((#[trigger] script[k]) is Output
        && script[k + 1] is Output) by {
        assert(may_follow(script[k], script[k + 1]));
    }
}

/// What one more element adds to the two lengths.
pub proof fn lemma_len_push(script: Seq<Diff>, op: Diff)
    ensures
        source_len(script.push(op)) == source_len(script) + op.source_items(),
        result_len(script.push(op)) == result_len(script) + op.result_items(),
        kept_len(script.push(op)) == kept_len(script) + op.kept_items(),
{
    assert(script.push(op).drop_last() == script);
}

/// What a longer last `Output` adds to the two lengths.
pub proof fn lemma_len_grow(script: Seq<Diff>, count: usize)
    requires
        script.len() > 0,
        script.last() == Diff::Output(count),
        count < usize::MAX,
    ensures
        source_len(script.update(script.len() - 1, Diff::Output((count + 1) as usize)))
            == source_len(script) + 1,
        result_len(script.update(script.len() - 1, Diff::Output((count + 1) as usize)))
            == result_len(script) + 1,
        kept_len(script.update(script.len() - 1, Diff::Output((count + 1) as usize))) == kept_len(
            script,
        ) + 1,
{
    let grown = script.update(script.len() - 1, Diff::Output((count + 1) as usize));
    assert(grown.drop_last() == script.drop_last());
}

/// Each element counts no more items than the whole script walks over.
pub proof fn lemma_last_count_bounded(script: Seq<Diff>)
    requires
        script.len() > 0,
    ensures
        script.last().source_items() <= source_len(script),
        script.last().result_items() <= result_len(script),
{
}

/// A `Delete` behind a script that rebuilds a prefix of `result` changes
/// nothing of what is built.
pub proof fn lemma_rebuilds_delete<T: PartialEq>(
    script: Seq<Diff>,
    source: Seq<T>,
    result: Seq<T>,
    count: usize,
)
    requires
        rebuilds_prefix(script, source, result),
    ensures
        rebuilds_prefix(script.push(Diff::Delete(count)), source, result),
{
    let next = script.push(Diff::Delete(count));
    assert(next.drop_last() == script);
    lemma_len_push(script, Diff::Delete(count));
}

/// An `Insert` behind a script that rebuilds a prefix of `result` rebuilds
/// the longer prefix.
pub proof fn lemma_rebuilds_insert<T: PartialEq>(
    script: Seq<Diff>,
    source: Seq<T>,
    result: Seq<T>,
    count: usize,
)
    requires
        rebuilds_prefix(script, source, result),
        result_len(script) + count <= result.len(),
    ensures
        rebuilds_prefix(script.push(Diff::Insert(count)), source, result),
{
    let next = script.push(Diff::Insert(count));
    assert(next.drop_last() == script);
    lemma_len_push(script, Diff::Insert(count));
    let built = apply(script, source, result);
    let at = result_len(script) as int;
    let after = apply(next, source, result);
    assert(after == built + result.subrange(at, at + count));
    assert forall|k: int| 0 <= k < after.len() implies same_item(
        #[trigger] after[k],
        result[k],
    ) by {
        if k < built.len() {
            assert(after[k] == built[k]);
        } else {
            assert(after[k] == result.subrange(at, at + count)[k - at]);
        }
    }
}

/// An `Output` over items that match, behind a script that rebuilds a prefix
/// of `result`, rebuilds the longer prefix.
pub proof fn lemma_rebuilds_output<T: PartialEq>(
    script: Seq<Diff>,
    source: Seq<T>,
    result: Seq<T>,
    count: usize,
)
    requires
        rebuilds_prefix(script, source, result),
        source_len(script) + count <= source.len(),
        result_len(script) + count <= result.len(),
        run_matches(
            source,
            result,
            source_len(script) as int,
            result_len(script) as int,
            count as int,
        ),
    ensures
        rebuilds_prefix(script.push(Diff::Output(count)), source, result),
{
    let next = script.push(Diff::Output(count));
    assert(next.drop_last() == script);
    lemma_len_push(script, Diff::Output(count));
    let built = apply(script, source, result);
    let at_source = source_len(script) as int;
    let at_result = result_len(script) as int;
    let after = apply(next, source, result);
    assert(after == built + source.subrange(at_source, at_source + count));
    assert forall|k: int| 0 <= k < after.len() implies same_item(
        #[trigger] after[k],
        result[k],
    ) by {
        if k < built.len() {
            assert(after[k] == built[k]);
        } else {
            let t = k - at_result;
            assert(after[k] == source.subrange(at_source, at_source + count)[t]);
            assert(items_match(source, result, at_source + t, at_result + t));
        }
    }
}

/// A last `Output` made one longer, over one more pair of matching items,
/// rebuilds one more item of `result`.
pub proof fn lemma_rebuilds_grow<T: PartialEq>(
    script: Seq<Diff>,
    source: Seq<T>,
    result: Seq<T>,
    count: usize,
)
    requires
        script.len() > 0,
        script.last() == Diff::Output(count),
        count < usize::MAX,
        rebuilds_prefix(script, source, result),
        source_len(script) < source.len(),
        result_len(script) < result.len(),
        items_match(source, result, source_len(script) as int, result_len(script) as int),
    ensures
        rebuilds_prefix(
            script.update(script.len() - 1, Diff::Output((count + 1) as usize)),
            source,
            result,
        ),
{
    let before = script.drop_last();
    let grown = script.update(script.len() - 1, Diff::Output((count + 1) as usize));
    assert(grown.drop_last() == before);
    lemma_len_grow(script, count);
    let head = apply(before, source, result);
    let at_source = source_len(before) as int;
    let at_result = result_len(before) as int;
    let built = apply(script, source, result);
    let after = apply(grown, source, result);
    assert(built == head + source.subrange(at_source, at_source + count));
    assert(after == head + source.subrange(at_source, at_source + count + 1));
    assert forall|k: int| 0 <= k < after.len() implies same_item(
        #[trigger] after[k],
        result[k],
    ) by {
        if k < built.len() {
            assert(after[k] == built[k]);
        } else {
            assert(after[k] == source[at_source + count]);
            assert(items_match(source, result, at_source + count, at_result + count));
        }
    }
}

} // verus!
