//! An edit script as text: one line for each item, marked as kept, removed
//! or added.

use super::lines::Diff;
use super::script::{fits, result_len, source_len};
use crate::text::chars::AsText;
use crate::text::join_lines::{joined, texts_of};
use std::fmt::Display;
use vstd::prelude::*;
use vstd::string::to_string_from_display_ensures;

verus! {

/// The lines with `mark` put before each of them.
pub open spec fn marked(mark: char, lines: Seq<Seq<char>>) -> Seq<Seq<char>> {
    lines.map_values(|line: Seq<char>| seq![mark] + line)
}

/// The lines of the report on a script: the items that an `Output` keeps
/// behind a space, the items that a `Delete` removes behind `-`, the items
/// that an `Insert` adds behind `+`, in the order of the script.
pub open spec fn report_lines(
    script: Seq<Diff>,
    source: Seq<Seq<char>>,
    result: Seq<Seq<char>>,
) -> Seq<Seq<char>>
    decreases script.len(),
{
    if script.len() == 0 {
        Seq::empty()
    } else {
        let before = script.drop_last();
        let written = report_lines(before, source, result);
        let at_source = source_len(before) as int;
        let at_result = result_len(before) as int;
        match script.last() {
            Diff::Output(count) => written + marked(
                ' ',
                source.subrange(at_source, at_source + count),
            ),
            Diff::Delete(count) => written + marked(
                '-',
                source.subrange(at_source, at_source + count),
            ),
            Diff::Insert(count) => written + marked(
                '+',
                result.subrange(at_result, at_result + count),
            ),
        }
    }
}

/// The report on a script: its lines joined by line breaks, with no line
/// break at the end.
pub open spec fn report(script: Seq<Diff>, source: Seq<Seq<char>>, result: Seq<Seq<char>>) -> Seq<
    char,
> {
    joined(report_lines(script, source, result))
}

/// `texts` holds, item by item, a text that `Display` gave for the item of
/// `items`.
pub open spec fn shows<T: Display>(items: Seq<T>, texts: Seq<String>) -> bool {
    &&& texts.len() == items.len()
    &&& forall|k: int|
        0 <= k < items.len() ==> to_string_from_display_ensures::<T>(
            &items[k],
            #[trigger] texts[k],
        )
}

/// The first elements of a script walk over no more than the whole script.
pub proof fn lemma_len_take(script: Seq<Diff>, upto: int)
    requires
        0 <= upto <= script.len(),
    ensures
        source_len(script.take(upto)) <= source_len(script),
        result_len(script.take(upto)) <= result_len(script),
    decreases script.len() - upto,
{
    if upto < script.len() {
        lemma_len_take(script, upto + 1);
        assert(script.take(upto + 1).drop_last() == script.take(upto));
    } else {
        assert(script.take(upto) == script);
    }
}

/// One more line behind the lines joined so far.
pub proof fn lemma_joined_push(lines: Seq<Seq<char>>, line: Seq<char>)
    ensures
        joined(lines.push(line)) == if lines.len() == 0 {
            line
        } else {
            joined(lines) + seq!['\n'] + line
        },
{
    assert(lines.push(line).drop_last() == lines);
}

/// Writes the lines `lines[sta..end]` behind what `out` holds already, each
/// on a line of its own and behind `mark`.
fn write_lines<S: AsText>(
    out: &mut String,
    has_some_output: bool,
    mark: char,
    lines: &[S],
    sta: usize,
    end: usize,
    Ghost(written): Ghost<Seq<Seq<char>>>,
) -> (has_output: bool)
    requires
        sta <= end <= lines@.len(),
        old(out)@ == joined(written),
        has_some_output == (written.len() > 0),
    ensures
        final(out)@ == joined(
            written + marked(mark, texts_of(lines@).subrange(sta as int, end as int)),
        ),
        has_output == ((written + marked(
            mark,
            texts_of(lines@).subrange(sta as int, end as int),
        )).len() > 0),
{
    let ghost all = texts_of(lines@);
    let mut has_some_output = has_some_output;
    let mut x = sta;
    proof {
        assert(written + marked(mark, all.subrange(sta as int, sta as int)) == written);
    }
    while x < end
        invariant
            sta <= x <= end <= lines@.len(),
            all == texts_of(lines@),
            out@ == joined(written + marked(mark, all.subrange(sta as int, x as int))),
            has_some_output == ((written + marked(mark, all.subrange(sta as int, x as int))).len()
                > 0),
        decreases end - x,
    {
        let ghost before = written + marked(mark, all.subrange(sta as int, x as int));
        if has_some_output {
            out.push('\n');
        } else {
            has_some_output = true;
        }
        out.push(mark);
        out.append(lines[x].as_text());
        proof {
            let line = seq![mark] + all[x as int];
            lemma_joined_push(before, line);
            assert(written + marked(mark, all.subrange(sta as int, x + 1)) == before.push(line));
        }
        x += 1;
    }
    has_some_output
}

/// Writes an edit script as text, with the items of `source` and `result`
/// that it speaks of.
///
/// Each item stands on a line of its own: behind a space if it is in both
/// lists, behind `-` if it is only in `source`, behind `+` if it is only in
/// `result`.
pub fn render<S: AsText>(items: &[Diff], source: &[S], result: &[S]) -> (text: String)
    requires
        fits(items@, source@.len(), result@.len()),
    ensures
        text@ == report(items@, texts_of(source@), texts_of(result@)),
{
    let ghost source_text = texts_of(source@);
    let ghost result_text = texts_of(result@);
    let mut text = String::new();
    let mut has_some_output = false;
    let mut cur_offset_source: usize = 0;
    let mut cur_offset_result: usize = 0;
    let source_count = source.len();
    let result_count = result.len();
    let mut at: usize = 0;
    while at < items.len()
        invariant
            at <= items@.len(),
            fits(items@, source@.len(), result@.len()),
            source_count == source@.len(),
            result_count == result@.len(),
            source_text == texts_of(source@),
            result_text == texts_of(result@),
            cur_offset_source == source_len(items@.take(at as int)),
            cur_offset_result == result_len(items@.take(at as int)),
            text@ == joined(report_lines(items@.take(at as int), source_text, result_text)),
            has_some_output == (report_lines(
                items@.take(at as int),
                source_text,
                result_text,
            ).len() > 0),
        decreases items@.len() - at,
    {
        let ghost written = report_lines(items@.take(at as int), source_text, result_text);
        proof {
            let next = items@.take(at + 1);
            lemma_len_take(items@, at + 1);
            assert(next.drop_last() == items@.take(at as int));
            assert(next.last() == items@[at as int]);
            assert(source_len(next) == cur_offset_source + items@[at as int].source_items());
            assert(result_len(next) == cur_offset_result + items@[at as int].result_items());
        }
        match items[at] {
            Diff::Output(count) => {
                let sta = cur_offset_source;
                let end = sta + count;
                cur_offset_source += count;
                cur_offset_result += count;
                has_some_output = write_lines(
                    &mut text,
                    has_some_output,
                    ' ',
                    source,
                    sta,
                    end,
                    Ghost(written),
                );
            },
            Diff::Insert(count) => {
                let sta = cur_offset_result;
                let end = sta + count;
                cur_offset_result += count;
                has_some_output = write_lines(
                    &mut text,
                    has_some_output,
                    '+',
                    result,
                    sta,
                    end,
                    Ghost(written),
                );
            },
            Diff::Delete(count) => {
                let sta = cur_offset_source;
                let end = sta + count;
                cur_offset_source += count;
                has_some_output = write_lines(
                    &mut text,
                    has_some_output,
                    '-',
                    source,
                    sta,
                    end,
                    Ghost(written),
                );
            },
        }
        at += 1;
    }
    proof {
        assert(items@.take(at as int) == items@);
    }
    text
}

/// The text that `Display` gives for each item of a list.
pub fn display_all<T: Display>(items: &[T]) -> (texts: Vec<String>)
    ensures
        shows(items@, texts@),
{
    let mut texts: Vec<String> = Vec::new();
    let mut at: usize = 0;
    while at < items.len()
        invariant
            at <= items@.len(),
            texts@.len() == at,
            forall|k: int|
                0 <= k < at ==> to_string_from_display_ensures::<T>(
                    &items@[k],
                    #[trigger] texts@[k],
                ),
        decreases items@.len() - at,
    {
        texts.push(items[at].to_string());
        at += 1;
    }
    texts
}

} // verus!
