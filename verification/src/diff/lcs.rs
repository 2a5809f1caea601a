//! Longest common subsequence of two sequences.
//!
//! The items are only ever compared with `==`. Every statement about which
//! items are equal is made through [`items_match`], and holds for item types
//! whose `==` computes what their `eq_spec` says: the integers, for one, and
//! [`Line`](crate::text::Line) for text.

use vstd::prelude::*;
use vstd::std_specs::cmp::PartialEqSpec;

verus! {

/// Whether item `i` of `a` equals item `j` of `b` in the sense of `T`'s `==`.
pub open spec fn items_match<T: PartialEq>(a: Seq<T>, b: Seq<T>, i: int, j: int) -> bool {
    a[i].eq_spec(&b[j])
}

/// The index pairs of `pairs` lie inside an `n` by `m` grid and both
/// components grow strictly from one pair to the next.
pub open spec fn is_alignment(pairs: Seq<(int, int)>, n: int, m: int) -> bool {
    &&& forall|k: int|
        0 <= k < pairs.len() ==> 0 <= (#[trigger] pairs[k]).0 < n && 0 <= pairs[k].1 < m
    &&& forall|k: int, l: int|
        0 <= k < l < pairs.len() ==> (#[trigger] pairs[k]).0 < (#[trigger] pairs[l]).0
            && pairs[k].1 < pairs[l].1
}

/// `pairs` selects a common subsequence of `a` and `b`: it is an alignment
/// and every pair joins two equal items.
pub open spec fn is_common_subsequence<T: PartialEq>(
    a: Seq<T>,
    b: Seq<T>,
    pairs: Seq<(int, int)>,
) -> bool {
    &&& is_alignment(pairs, a.len() as int, b.len() as int)
    &&& forall|k: int|
        0 <= k < pairs.len() ==> items_match(a, b, (#[trigger] pairs[k]).0, pairs[k].1)
}

/// No pair of `pairs` lies before row `i` or before column `j`.
pub open spec fn starts_at(pairs: Seq<(int, int)>, i: int, j: int) -> bool {
    forall|k: int| 0 <= k < pairs.len() ==> i <= (#[trigger] pairs[k]).0 && j <= pairs[k].1
}

/// Length of a longest common subsequence of the suffixes `a[i..]` and
/// `b[j..]`.
pub open spec fn lcs_len<T: PartialEq>(a: Seq<T>, b: Seq<T>, i: int, j: int) -> nat
    decreases a.len() - i + b.len() - j,
{
    if i < 0 || j < 0 || i >= a.len() || j >= b.len() {
        0
    } else if items_match(a, b, i, j) {
        1 + lcs_len(a, b, i + 1, j + 1)
    } else if lcs_len(a, b, i + 1, j) > lcs_len(a, b, i, j + 1) {
        lcs_len(a, b, i + 1, j)
    } else {
        lcs_len(a, b, i, j + 1)
    }
}

/// The alignment reported for the suffixes `a[i..]` and `b[j..]`.
///
/// Equal items at `(i, j)` are always paired. Otherwise the walk skips
/// `a[i]` only where that leaves a strictly longer common subsequence than
/// skipping `b[j]` does, so on a tie it is the item of `b` that is passed
/// over.
pub open spec fn lcs_pairs<T: PartialEq>(a: Seq<T>, b: Seq<T>, i: int, j: int) -> Seq<(int, int)>
    decreases a.len() - i + b.len() - j,
{
    if i < 0 || j < 0 || i >= a.len() || j >= b.len() {
        Seq::empty()
    } else if items_match(a, b, i, j) {
        seq![(i, j)] + lcs_pairs(a, b, i + 1, j + 1)
    } else if lcs_len(a, b, i + 1, j) > lcs_len(a, b, i, j + 1) {
        lcs_pairs(a, b, i + 1, j)
    } else {
        lcs_pairs(a, b, i, j + 1)
    }
}

/// The index pairs of a vector as mathematical integers.
pub open spec fn index_pairs(v: Seq<(usize, usize)>) -> Seq<(int, int)> {
    v.map_values(|p: (usize, usize)| (p.0 as int, p.1 as int))
}

/// The reported alignment of two suffixes is a common subsequence that lies
/// inside them, and it has the length that [`lcs_len`] gives.
pub proof fn lemma_lcs_pairs_valid<T: PartialEq>(a: Seq<T>, b: Seq<T>, i: int, j: int)
    requires
        0 <= i,
        0 <= j,
    ensures
        is_common_subsequence(a, b, lcs_pairs(a, b, i, j)),
        starts_at(lcs_pairs(a, b, i, j), i, j),
        lcs_pairs(a, b, i, j).len() == lcs_len(a, b, i, j),
    decreases a.len() - i + b.len() - j,
{
    if i < a.len() && j < b.len() {
        if items_match(a, b, i, j) {
            lemma_lcs_pairs_valid(a, b, i + 1, j + 1);
            let rest = lcs_pairs(a, b, i + 1, j + 1);
            let all = lcs_pairs(a, b, i, j);
            assert(all == seq![(i, j)] + rest);
            assert forall|k: int| 0 <= k < all.len() implies i <= (#[trigger] all[k]).0 < a.len()
                && j <= all[k].1 < b.len() && items_match(a, b, all[k].0, all[k].1) by {
                if k > 0 {
                    assert(all[k] == rest[k - 1]);
                }
            }
            assert forall|k: int, l: int| 0 <= k < l < all.len() implies (#[trigger] all[k]).0 < (
            #[trigger] all[l]).0 && all[k].1 < all[l].1 by {
                assert(all[l] == rest[l - 1]);
                if k > 0 {
                    assert(all[k] == rest[k - 1]);
                }
            }
        } else if lcs_len(a, b, i + 1, j) > lcs_len(a, b, i, j + 1) {
            lemma_lcs_pairs_valid(a, b, i + 1, j);
        } else {
            lemma_lcs_pairs_valid(a, b, i, j + 1);
        }
    }
}

/// No common subsequence of the suffixes `a[i..]` and `b[j..]` has more
/// pairs than [`lcs_len`] says.
pub proof fn lemma_lcs_len_is_maximal<T: PartialEq>(
    a: Seq<T>,
    b: Seq<T>,
    i: int,
    j: int,
    other: Seq<(int, int)>,
)
    requires
        0 <= i,
        0 <= j,
        is_common_subsequence(a, b, other),
        starts_at(other, i, j),
    ensures
        other.len() <= lcs_len(a, b, i, j),
    decreases a.len() - i + b.len() - j,
{
    if other.len() > 0 {
        let first = other[0];
        assert(i <= first.0 < a.len() && j <= first.1 < b.len());
        if items_match(a, b, i, j) {
            let rest = other.drop_first();
            assert forall|k: int| 0 <= k < rest.len() implies i + 1 <= (#[trigger] rest[k]).0
                && j + 1 <= rest[k].1 by {
                assert(rest[k] == other[k + 1]);
            }
            assert(is_common_subsequence(a, b, rest)) by {
                assert forall|k: int| 0 <= k < rest.len() implies 0 <= (#[trigger] rest[k]).0
                    < a.len() && 0 <= rest[k].1 < b.len() && items_match(
                    a,
                    b,
                    rest[k].0,
                    rest[k].1,
                ) by {
                    assert(rest[k] == other[k + 1]);
                }
                assert forall|k: int, l: int| 0 <= k < l < rest.len() implies (
                #[trigger] rest[k]).0 < (#[trigger] rest[l]).0 && rest[k].1 < rest[l].1 by {
                    assert(rest[k] == other[k + 1]);
                    assert(rest[l] == other[l + 1]);
                }
            }
            lemma_lcs_len_is_maximal(a, b, i + 1, j + 1, rest);
        } else if first.0 > i {
            assert forall|k: int| 0 <= k < other.len() implies i + 1 <= (#[trigger] other[k]).0 by {
                if k > 0 {
                    assert(other[0].0 < other[k].0);
                }
            }
            lemma_lcs_len_is_maximal(a, b, i + 1, j, other);
        } else {
            assert(first.1 > j);
            assert forall|k: int| 0 <= k < other.len() implies j + 1 <= (#[trigger] other[k]).1 by {
                if k > 0 {
                    assert(other[0].1 < other[k].1);
                }
            }
            lemma_lcs_len_is_maximal(a, b, i, j + 1, other);
        }
    }
}

/// The alignment reported for two sequences is a longest common subsequence
/// of them: it is a common subsequence, and no common subsequence is longer.
pub proof fn lemma_lcs_is_longest<T: PartialEq>(a: Seq<T>, b: Seq<T>, other: Seq<(int, int)>)
    requires
        is_common_subsequence(a, b, other),
    ensures
        is_common_subsequence(a, b, lcs_pairs(a, b, 0, 0)),
        other.len() <= lcs_pairs(a, b, 0, 0).len(),
{
    lemma_lcs_pairs_valid(a, b, 0, 0);
    lemma_lcs_len_is_maximal(a, b, 0, 0, other);
}

/// Leaving out the first `p` items of both lists moves the suffixes along:
/// the suffixes from `i + p` and `j + p` of the whole lists are the suffixes
/// from `i` and `j` of what is left.
pub proof fn lemma_lcs_len_shift<T: PartialEq>(a: Seq<T>, b: Seq<T>, p: int, i: int, j: int)
    requires
        0 <= p <= a.len(),
        p <= b.len(),
        0 <= i,
        0 <= j,
    ensures
        lcs_len(a, b, i + p, j + p) == lcs_len(
            a.subrange(p, a.len() as int),
            b.subrange(p, b.len() as int),
            i,
            j,
        ),
    decreases a.len() - i + b.len() - j,
{
    let rest_a = a.subrange(p, a.len() as int);
    let rest_b = b.subrange(p, b.len() as int);
    if i < rest_a.len() && j < rest_b.len() {
        assert(rest_a[i] == a[i + p]);
        assert(rest_b[j] == b[j + p]);
        lemma_lcs_len_shift(a, b, p, i + 1, j + 1);
        lemma_lcs_len_shift(a, b, p, i + 1, j);
        lemma_lcs_len_shift(a, b, p, i, j + 1);
    }
}

/// Along a common prefix each pair of matching items adds one to the length:
/// from item `t` of the prefix on there are `p - t` more items in common
/// than behind the prefix.
pub proof fn lemma_lcs_len_along_prefix<T: PartialEq>(a: Seq<T>, b: Seq<T>, p: int, t: int)
    requires
        0 <= t <= p <= a.len(),
        p <= b.len(),
        forall|k: int| 0 <= k < p ==> #[trigger] items_match(a, b, k, k),
    ensures
        lcs_len(a, b, t, t) == (p - t) + lcs_len(a, b, p, p),
    decreases p - t,
{
    if t < p {
        assert(items_match(a, b, t, t));
        lemma_lcs_len_along_prefix(a, b, p, t + 1);
    }
}

/// A common prefix belongs to a longest common subsequence: two lists whose
/// first `p` items match one by one have `p` more items in common than what
/// is left of them.
pub proof fn lemma_lcs_len_without_prefix<T: PartialEq>(a: Seq<T>, b: Seq<T>, p: int)
    requires
        0 <= p <= a.len(),
        p <= b.len(),
        forall|t: int| 0 <= t < p ==> #[trigger] items_match(a, b, t, t),
    ensures
        lcs_len(a, b, 0, 0) == p + lcs_len(
            a.subrange(p, a.len() as int),
            b.subrange(p, b.len() as int),
            0,
            0,
        ),
{
    lemma_lcs_len_shift(a, b, p, 0, 0);
    lemma_lcs_len_along_prefix(a, b, p, 0);
}

/// A matching pair of last items belongs to a longest common subsequence:
/// two lists whose last items match have one more item in common than the
/// lists without them.
pub proof fn lemma_lcs_len_without_last<T: PartialEq>(a: Seq<T>, b: Seq<T>, i: int, j: int)
    requires
        0 <= i < a.len(),
        0 <= j < b.len(),
        items_match(a, b, a.len() - 1, b.len() - 1),
    ensures
        lcs_len(a, b, i, j) == lcs_len(a.drop_last(), b.drop_last(), i, j) + 1,
{
    let short_a = a.drop_last();
    let short_b = b.drop_last();
    let last = (a.len() - 1, b.len() - 1);

    // one more pair behind the longest common subsequence of the shorter
    // lists is a common subsequence of the whole lists
    let shorter = lcs_pairs(short_a, short_b, i, j);
    lemma_lcs_pairs_valid(short_a, short_b, i, j);
    let longer = shorter.push(last);
    assert(is_common_subsequence(a, b, longer) && starts_at(longer, i, j)) by {
        assert forall|k: int| 0 <= k < longer.len() implies i <= (#[trigger] longer[k]).0 < a.len()
            && j <= longer[k].1 < b.len() && items_match(a, b, longer[k].0, longer[k].1) by {
            if k < shorter.len() {
                assert(longer[k] == shorter[k]);
                assert(items_match(short_a, short_b, shorter[k].0, shorter[k].1));
                assert(short_a[shorter[k].0] == a[shorter[k].0]);
                assert(short_b[shorter[k].1] == b[shorter[k].1]);
            }
        }
        assert forall|k: int, l: int| 0 <= k < l < longer.len() implies (#[trigger] longer[k]).0
            < (#[trigger] longer[l]).0 && longer[k].1 < longer[l].1 by {
            assert(longer[k] == shorter[k]);
            if l < shorter.len() {
                assert(longer[l] == shorter[l]);
            }
        }
    }
    lemma_lcs_len_is_maximal(a, b, i, j, longer);

    // the longest common subsequence of the whole lists, without its last
    // pair, is a common subsequence of the shorter lists
    let whole = lcs_pairs(a, b, i, j);
    lemma_lcs_pairs_valid(a, b, i, j);
    if whole.len() > 0 {
        let most = whole.drop_last();
        assert(is_common_subsequence(short_a, short_b, most) && starts_at(most, i, j)) by {
            assert forall|k: int| 0 <= k < most.len() implies i <= (#[trigger] most[k]).0
                < short_a.len() && j <= most[k].1 < short_b.len() && items_match(
                short_a,
                short_b,
                most[k].0,
                most[k].1,
            ) by {
                assert(most[k] == whole[k]);
                assert(whole[k].0 < whole[whole.len() - 1].0);
                assert(whole[k].1 < whole[whole.len() - 1].1);
                assert(items_match(a, b, whole[k].0, whole[k].1));
                assert(short_a[most[k].0] == a[most[k].0]);
                assert(short_b[most[k].1] == b[most[k].1]);
            }
            assert forall|k: int, l: int| 0 <= k < l < most.len() implies (#[trigger] most[k]).0
                < (#[trigger] most[l]).0 && most[k].1 < most[l].1 by {
                assert(most[k] == whole[k]);
                assert(most[l] == whole[l]);
            }
        }
        lemma_lcs_len_is_maximal(short_a, short_b, i, j, most);
    }
}

/// A common suffix belongs to a longest common subsequence: two lists whose
/// last `s` items match one by one have `s` more items in common than the
/// lists without them.
pub proof fn lemma_lcs_len_without_suffix<T: PartialEq>(a: Seq<T>, b: Seq<T>, s: int)
    requires
        0 <= s <= a.len(),
        s <= b.len(),
        forall|t: int|
            0 <= t < s ==> #[trigger] items_match(a, b, a.len() - 1 - t, b.len() - 1 - t),
    ensures
        lcs_len(a, b, 0, 0) == lcs_len(
            a.subrange(0, a.len() - s),
            b.subrange(0, b.len() - s),
            0,
            0,
        ) + s,
    decreases s,
{
    if s == 0 {
        assert(a.subrange(0, a.len() as int) == a);
        assert(b.subrange(0, b.len() as int) == b);
    } else {
        let short_a = a.drop_last();
        let short_b = b.drop_last();
        assert(items_match(a, b, a.len() - 1 - 0, b.len() - 1 - 0));
        lemma_lcs_len_without_last(a, b, 0, 0);
        assert forall|t: int| 0 <= t < s - 1 implies #[trigger] items_match(
            short_a,
            short_b,
            short_a.len() - 1 - t,
            short_b.len() - 1 - t,
        ) by {
            assert(items_match(a, b, a.len() - 1 - (t + 1), b.len() - 1 - (t + 1)));
            assert(short_a[short_a.len() - 1 - t] == a[a.len() - 1 - (t + 1)]);
            assert(short_b[short_b.len() - 1 - t] == b[b.len() - 1 - (t + 1)]);
        }
        lemma_lcs_len_without_suffix(short_a, short_b, s - 1);
        assert(short_a.subrange(0, short_a.len() - (s - 1)) == a.subrange(0, a.len() - s));
        assert(short_b.subrange(0, short_b.len() - (s - 1)) == b.subrange(0, b.len() - s));
    }
}

/// Between the items of `a` and `b` the same pairs match as between the
/// items of `c` and `d`, which are as many.
pub open spec fn same_matches<T: PartialEq, U: PartialEq>(
    a: Seq<T>,
    b: Seq<T>,
    c: Seq<U>,
    d: Seq<U>,
) -> bool {
    &&& a.len() == c.len()
    &&& b.len() == d.len()
    &&& forall|i: int, j: int|
        0 <= i < a.len() && 0 <= j < b.len() ==> #[trigger] items_match(a, b, i, j) == items_match(
            c,
            d,
            i,
            j,
        )
}

/// The longest common subsequence goes by which items match and by nothing
/// else of the items: lists between which the same pairs match have the same
/// alignment.
pub proof fn lemma_lcs_by_matches<T: PartialEq, U: PartialEq>(
    a: Seq<T>,
    b: Seq<T>,
    c: Seq<U>,
    d: Seq<U>,
    i: int,
    j: int,
)
    requires
        same_matches(a, b, c, d),
        0 <= i,
        0 <= j,
    ensures
        lcs_len(a, b, i, j) == lcs_len(c, d, i, j),
        lcs_pairs(a, b, i, j) == lcs_pairs(c, d, i, j),
    decreases a.len() - i + b.len() - j,
{
    if i < a.len() && j < b.len() {
        assert(items_match(a, b, i, j) == items_match(c, d, i, j));
        lemma_lcs_by_matches(a, b, c, d, i + 1, j + 1);
        lemma_lcs_by_matches(a, b, c, d, i + 1, j);
        lemma_lcs_by_matches(a, b, c, d, i, j + 1);
    }
}

/// A row of `len` zeros.
fn zeros(len: usize) -> (row: Vec<usize>)
    ensures
        row@.len() == len,
        forall|j: int| 0 <= j < len ==> row@[j] == 0,
{
    let mut row: Vec<usize> = Vec::new();
    while row.len() < len
        invariant
            row@.len() <= len,
            forall|j: int| 0 <= j < row@.len() ==> row@[j] == 0,
        decreases len - row@.len(),
    {
        row.push(0);
    }
    row
}

/// Row `i` of the table holds, from column `from` on, values that fit the
/// remaining items of `a`, and the lengths that [`lcs_len`] gives wherever
/// `==` on `T` can be relied on.
spec fn row_filled<T: PartialEq>(a: Seq<T>, b: Seq<T>, row: Seq<usize>, i: int, from: int) -> bool {
    &&& row.len() == b.len()
    &&& forall|j: int|
        from <= j < b.len() ==> (#[trigger] row[j]) <= a.len() - i && (T::obeys_eq_spec()
            ==> row[j] == lcs_len(a, b, i, j))
}

/// The table has a row for each item of `a`, and its rows from `from` on are
/// filled.
spec fn table_filled<T: PartialEq>(
    a: Seq<T>,
    b: Seq<T>,
    table: Seq<Vec<usize>>,
    from: int,
) -> bool {
    &&& table.len() == a.len()
    &&& forall|i: int| from <= i < a.len() ==> row_filled(a, b, (#[trigger] table[i])@, i, 0)
}

/// The LCS length between each suffix of A and B: `table[i][j]` is the
/// length for `A[i..]` and `B[j..]`.
fn suffix_lengths<T>(list_a: &[T], list_b: &[T]) -> (table: Vec<Vec<usize>>) where T: PartialEq
    requires
        list_a@.len() > 0,
        list_b@.len() > 0,
    ensures
        table_filled(list_a@, list_b@, table@, 0),
{
    let n = list_a.len();
    let m = list_b.len();
    let mut table: Vec<Vec<usize>> = Vec::new();
    while table.len() < n
        invariant
            table@.len() <= n,
        decreases n - table@.len(),
    {
        table.push(Vec::new());
    }

    let last_a = n - 1;
    let last_b = m - 1;

    let mut i = n;
    while i > 0
        invariant
            i <= n == list_a@.len(),
            m == list_b@.len(),
            last_a == n - 1,
            last_b == m - 1,
            table_filled(list_a@, list_b@, table@, i as int),
        decreases i,
    {
        i -= 1;
        let mut row = zeros(m);
        let mut j = m;
        while j > 0
            invariant
                j <= m == list_b@.len(),
                i < n == list_a@.len(),
                last_a == n - 1,
                last_b == m - 1,
                table_filled(list_a@, list_b@, table@, i + 1),
                row_filled(list_a@, list_b@, row@, i as int, j as int),
            decreases j,
        {
            j -= 1;
            proof {
                if i < last_a {
                    assert(row_filled(list_a@, list_b@, table@[i + 1]@, i + 1, 0));
                }
            }
            let items_are_equal = list_a[i] == list_b[j];
            let value = if items_are_equal {
                let not_at_the_end = i < last_a && j < last_b;
                let suffix_len = if not_at_the_end {
                    table[i + 1][j + 1]
                } else {
                    0
                };
                1 + suffix_len
            } else {
                let len_skipping_a = if i < last_a {
                    table[i + 1][j]
                } else {
                    0
                };
                let len_skipping_b = if j < last_b {
                    row[j + 1]
                } else {
                    0
                };
                if len_skipping_a > len_skipping_b {
                    len_skipping_a
                } else {
                    len_skipping_b
                }
            };
            proof {
                if T::obeys_eq_spec() {
                    // what the neighbours hold, with 0 behind the last row
                    // and the last column
                    let (a, b) = (list_a@, list_b@);
                    assert(items_are_equal == items_match(a, b, i as int, j as int));
                    assert(lcs_len(a, b, i + 1, j + 1) == if i < last_a && j < last_b {
                        table@[i + 1]@[j + 1]
                    } else {
                        0
                    });
                    assert(lcs_len(a, b, i + 1, j as int) == if i < last_a {
                        table@[i + 1]@[j as int]
                    } else {
                        0
                    });
                    assert(lcs_len(a, b, i as int, j + 1) == if j < last_b {
                        row@[j + 1]
                    } else {
                        0
                    });
                    assert(value == lcs_len(a, b, i as int, j as int));
                }
            }
            row.set(j, value);
        }
        table.set(i, row);
    }
    table
}

/// Returns the longest common subsequence between the two input slices.
///
/// The sequence is returned as a vector of tuples containing the indexes
/// of common items between both inputs.
pub fn lcs<T>(list_a: &[T], list_b: &[T]) -> (pairs: Vec<(usize, usize)>) where T: PartialEq
    ensures
        is_alignment(index_pairs(pairs@), list_a@.len() as int, list_b@.len() as int),
        list_a@.len() == 0 || list_b@.len() == 0 ==> pairs@.len() == 0,
        T::obeys_eq_spec() ==> index_pairs(pairs@) == lcs_pairs(list_a@, list_b@, 0, 0),
        T::obeys_eq_spec() ==> is_common_subsequence(list_a@, list_b@, index_pairs(pairs@)),
        T::obeys_eq_spec() ==> pairs@.len() == lcs_len(list_a@, list_b@, 0, 0),
{
    if list_a.len() == 0 || list_b.len() == 0 {
        return Vec::new();
    }
    // First we compute the LCS length between each suffix of A and B.

    let max_len_for_suffixes = suffix_lengths(list_a, list_b);

    let ghost a = list_a@;
    let ghost b = list_b@;
    let last_a = list_a.len() - 1;
    let last_b = list_b.len() - 1;

    // We computed the LCS length for all combinations of suffixes between A
    // and B. Now we use that to build the actual LCS by using the computed
    // lengths to decide which elements to take when we have a choice.
    let mut longest_sequence: Vec<(usize, usize)> = Vec::new();

    // Iterate both lists until we reach the end of either list. When items
    // between the lists differ, we use the computed LCS length matrix to
    // decide whether the best solution skips an item from A or B.
    let mut ia: usize = 0;
    let mut ib: usize = 0;
    while ia < list_a.len() && ib < list_b.len()
        invariant
            ia <= a.len(),
            ib <= b.len(),
            a == list_a@,
            b == list_b@,
            last_a == a.len() - 1,
            last_b == b.len() - 1,
            table_filled(a, b, max_len_for_suffixes@, 0),
            is_alignment(index_pairs(longest_sequence@), ia as int, ib as int),
            T::obeys_eq_spec() ==> index_pairs(longest_sequence@) + lcs_pairs(
                a,
                b,
                ia as int,
                ib as int,
            ) == lcs_pairs(a, b, 0, 0),
        decreases (a.len() - ia) + (b.len() - ib),
    {
        let ghost before = index_pairs(longest_sequence@);
        if list_a[ia] == list_b[ib] {
            longest_sequence.push((ia, ib));
            proof {
                let after = index_pairs(longest_sequence@);
                assert(after == before.push((ia as int, ib as int)));
                assert(after + lcs_pairs(a, b, ia + 1, ib + 1) == before + (seq![
                    (ia as int, ib as int),
                ] + lcs_pairs(a, b, ia + 1, ib + 1)));
            }
            ia += 1;
            ib += 1;
        } else {
            let not_at_the_end = ia < last_a && ib < last_b;
            if not_at_the_end {
                proof {
                    assert(row_filled(a, b, max_len_for_suffixes@[ia as int]@, ia as int, 0));
                    assert(row_filled(a, b, max_len_for_suffixes@[ia + 1]@, ia + 1, 0));
                }
                let len_skipping_a = max_len_for_suffixes[ia + 1][ib];
                let len_skipping_b = max_len_for_suffixes[ia][ib + 1];
                if len_skipping_a > len_skipping_b {
                    ia += 1;
                } else {
                    ib += 1;
                }
            } else {
                // when we reach the last item of either list, just iterate the
                // other until we have a match or exhausted both lists
                let remaining_items_are_from_a = ia < last_a;
                if remaining_items_are_from_a {
                    proof {
                        // Nothing of B lies behind `ib`: either more of A
                        // matches this last item of B, or nothing is left to
                        // match at all.
                        lemma_lcs_pairs_valid(a, b, ia + 1, ib as int);
                        assert(lcs_pairs(a, b, ia as int, ib + 1) == Seq::<(int, int)>::empty());
                    }
                    ia += 1;
                } else {
                    ib += 1;
                }
            }
        }
    }

    proof {
        assert(index_pairs(longest_sequence@) + lcs_pairs(a, b, ia as int, ib as int)
            == index_pairs(longest_sequence@));
        lemma_lcs_pairs_valid(a, b, 0, 0);
    }
    longest_sequence
}

} // verus!
