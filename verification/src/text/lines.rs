//! Splitting a text into lines and removing white space that carries no
//! meaning.

use super::chars::{char_is_whitespace, from_chars, is_whitespace, to_chars, AsText};
use super::join_lines::texts_of;
use vstd::prelude::*;

verus! {

/// Whether a character ends a line: a line feed or a carriage return.
pub open spec fn is_line_break(c: char) -> bool {
    c == '\n' || c == '\r'
}

/// Where the next line starts behind the line break at `at`: a carriage
/// return and a line feed directly behind it count as one break.
pub open spec fn after_break(text: Seq<char>, at: int) -> int {
    if text[at] == '\r' && at + 1 < text.len() && text[at + 1] == '\n' {
        at + 2
    } else {
        at + 1
    }
}

/// The lines of `text` from the line that starts at `from` on, where that
/// line is known to have no break before `at`.
///
/// A text that ends in a line break has no empty line behind that break.
pub open spec fn lines_from(text: Seq<char>, from: int, at: int) -> Seq<Seq<char>>
    decreases text.len() - at,
{
    if at < 0 || at >= text.len() {
        if 0 <= from < text.len() {
            seq![text.subrange(from, text.len() as int)]
        } else {
            Seq::empty()
        }
    } else if is_line_break(text[at]) {
        seq![text.subrange(from, at)] + lines_from(
            text,
            after_break(text, at),
            after_break(text, at),
        )
    } else {
        lines_from(text, from, at + 1)
    }
}

/// The lines of a text. Lines end at `"\n"`, `"\r"` or `"\r\n"`.
pub open spec fn split_lines(text: Seq<char>) -> Seq<Seq<char>> {
    lines_from(text, 0, 0)
}

/// Length of `text[..upto]` without the white space at its end.
pub open spec fn trimmed_len(text: Seq<char>, upto: int) -> int
    decreases upto,
{
    if 0 < upto <= text.len() && is_whitespace(text[upto - 1]) {
        trimmed_len(text, upto - 1)
    } else {
        upto
    }
}

/// The text without the white space at its end.
pub open spec fn trim_end(text: Seq<char>) -> Seq<char> {
    text.take(trimmed_len(text, text.len() as int))
}

/// Index of the first line at or behind `from` that is not empty, or the
/// number of lines where there is none.
pub open spec fn content_start(lines: Seq<Seq<char>>, from: int) -> int
    decreases lines.len() - from,
{
    if 0 <= from < lines.len() && lines[from].len() == 0 {
        content_start(lines, from + 1)
    } else {
        from
    }
}

/// Number of lines that are left of `lines[..upto]` once the empty lines at
/// its end are gone.
pub open spec fn content_end(lines: Seq<Seq<char>>, upto: int) -> int
    decreases upto,
{
    if 0 < upto <= lines.len() && lines[upto - 1].len() == 0 {
        content_end(lines, upto - 1)
    } else {
        upto
    }
}

/// The lines without the empty lines at the front.
pub open spec fn skip_leading_empty(lines: Seq<Seq<char>>) -> Seq<Seq<char>> {
    lines.skip(content_start(lines, 0))
}

/// The lines without the empty lines at the end.
pub open spec fn drop_trailing_empty(lines: Seq<Seq<char>>) -> Seq<Seq<char>> {
    lines.take(content_end(lines, lines.len() as int))
}

/// The lines with the white space at the end of each line removed, and
/// without the blank lines at the front and at the end. Blank lines in the
/// middle stay, as empty lines.
pub open spec fn trimmed_lines(lines: Seq<Seq<char>>) -> Seq<Seq<char>> {
    drop_trailing_empty(skip_leading_empty(lines.map_values(|line: Seq<char>| trim_end(line))))
}

/// [`content_start`] stays inside the lines, passes over empty lines only
/// and stops at a line that is not empty.
pub proof fn lemma_content_start(lines: Seq<Seq<char>>, from: int)
    requires
        0 <= from <= lines.len(),
    ensures
        from <= content_start(lines, from) <= lines.len(),
        forall|k: int| from <= k < content_start(lines, from) ==> (#[trigger] lines[k]).len() == 0,
        content_start(lines, from) < lines.len() ==> lines[content_start(lines, from)].len() > 0,
    decreases lines.len() - from,
{
    if from < lines.len() && lines[from].len() == 0 {
        lemma_content_start(lines, from + 1);
    }
}

/// [`content_end`] stays inside the lines, passes over empty lines only and
/// stops behind a line that is not empty.
pub proof fn lemma_content_end(lines: Seq<Seq<char>>, upto: int)
    requires
        0 <= upto <= lines.len(),
    ensures
        0 <= content_end(lines, upto) <= upto,
        forall|k: int| content_end(lines, upto) <= k < upto ==> (#[trigger] lines[k]).len() == 0,
        content_end(lines, upto) > 0 ==> lines[content_end(lines, upto) - 1].len() > 0,
    decreases upto,
{
    if 0 < upto && lines[upto - 1].len() == 0 {
        lemma_content_end(lines, upto - 1);
    }
}

/// A line that is not empty lies before [`content_end`].
pub proof fn lemma_content_before_end(lines: Seq<Seq<char>>, upto: int, at: int)
    requires
        0 <= at < upto <= lines.len(),
        lines[at].len() > 0,
    ensures
        at < content_end(lines, upto),
    decreases upto,
{
    if lines[upto - 1].len() == 0 {
        lemma_content_before_end(lines, upto - 1, at);
    }
}

/// Where only empty lines follow, [`content_end`] has been reached.
pub proof fn lemma_content_end_reached(lines: Seq<Seq<char>>, upto: int, from: int)
    requires
        0 <= from <= upto <= lines.len(),
        forall|k: int| from <= k < upto ==> (#[trigger] lines[k]).len() == 0,
    ensures
        content_end(lines, upto) <= from,
    decreases upto,
{
    if from < upto {
        assert(lines[upto - 1].len() == 0);
        lemma_content_end_reached(lines, upto - 1, from);
    } else {
        lemma_content_end(lines, upto);
    }
}

/// Removes the white space at the end of a line.
pub fn trim_line_end(line: &str) -> (trimmed: String)
    ensures
        trimmed@ == trim_end(line@),
{
    let chars = to_chars(line);
    let mut end = chars.len();
    while end > 0 && char_is_whitespace(chars[end - 1])
        invariant
            end <= chars@.len(),
            trimmed_len(chars@, end as int) == trimmed_len(chars@, chars@.len() as int),
        decreases end,
    {
        end -= 1;
    }
    from_chars(chars.as_slice(), 0, end)
}

/// Iterate over each line in the input text. This differs from Rust library
/// implementation in which it considers a lone `\r` as a line break.
pub struct LinesIterator {
    input_text: Vec<char>,
    cursor_pos: usize,
}

impl LinesIterator {
    /// The cursor never leaves the text.
    #[verifier::type_invariant]
    spec fn cursor_inside(&self) -> bool {
        self.cursor_pos <= self.input_text@.len()
    }

    /// The lines that are still to come.
    pub closed spec fn remaining(&self) -> Seq<Seq<char>> {
        lines_from(self.input_text@, self.cursor_pos as int, self.cursor_pos as int)
    }

    /// Starts at the first line of `input`.
    pub fn new(input: &str) -> (lines: LinesIterator)
        ensures
            lines.remaining() == split_lines(input@),
    {
        LinesIterator { input_text: to_chars(input), cursor_pos: 0 }
    }

    /// Hands out the next line, without its line break, and moves behind it.
    pub fn next(&mut self) -> (line: Option<String>)
        ensures
            old(self).remaining().len() == 0 ==> line is None && final(self).remaining() == old(
                self,
            ).remaining(),
            old(self).remaining().len() > 0 ==> line is Some && line->0@ == old(
                self,
            ).remaining()[0] && final(self).remaining() == old(self).remaining().drop_first(),
    {
        proof {
            use_type_invariant(&*self);
        }
        let len = self.input_text.len();
        let start = self.cursor_pos;
        if start >= len {
            return None;
        }
        let ghost text = self.input_text@;
        let mut next_line_break_offset = start;
        while next_line_break_offset < len && self.input_text[next_line_break_offset] != '\n'
            && self.input_text[next_line_break_offset] != '\r'
            invariant
                start <= next_line_break_offset <= len,
                len == text.len(),
                text == self.input_text@,
                self.cursor_pos == start,
                lines_from(text, start as int, next_line_break_offset as int) == lines_from(
                    text,
                    start as int,
                    start as int,
                ),
            decreases len - next_line_break_offset,
        {
            next_line_break_offset += 1;
        }
        let current_line = from_chars(self.input_text.as_slice(), start, next_line_break_offset);
        if next_line_break_offset < len {
            let last_character_index = len - 1;
            let is_carriage_return = self.input_text[next_line_break_offset] == '\r';
            let is_crlf_sequence = is_carriage_return && next_line_break_offset
                < last_character_index && self.input_text[next_line_break_offset + 1] == '\n';
            let next_cursor_offset = if is_crlf_sequence {
                next_line_break_offset + 2
            } else {
                next_line_break_offset + 1
            };
            self.cursor_pos = next_cursor_offset;
            proof {
                let rest = lines_from(text, next_cursor_offset as int, next_cursor_offset as int);
                assert(old(self).remaining() == seq![current_line@] + rest);
                assert((seq![current_line@] + rest).drop_first() == rest);
            }
        } else {
            self.cursor_pos = len;
            proof {
                assert(old(self).remaining() == seq![current_line@]);
                assert(seq![current_line@].drop_first() == Seq::<Seq<char>>::empty());
            }
        }
        Some(current_line)
    }
}

/// An iterator over a sequence of strings that skips empty strings from the
/// end of the iteration.
///
/// # Implementation note
///
/// This is meant to be used by [`lines`] and [`trim_lines`]. Since those are
/// expected to trim line ends, we only bother with empty strings in this
/// implementation.
pub struct TrimEndIterator {
    inner: Vec<String>,
    next_index: usize,
    empty_string_run_count: usize,
    next_non_empty_string: Option<String>,
}

impl TrimEndIterator {
    /// The strings that the iterator reads from.
    pub closed spec fn input(&self) -> Seq<Seq<char>> {
        texts_of(self.inner@)
    }

    /// The state in which the iterator rests between two calls: a string
    /// that is held back is the one read last, the empty strings counted lie
    /// directly before it, and without such a string either no empty string
    /// is counted or the input is used up.
    pub closed spec fn wf(&self) -> bool {
        let read = self.next_index as int;
        let run = self.empty_string_run_count as int;
        &&& read <= self.inner@.len()
        &&& match self.next_non_empty_string {
            Some(held_back) => {
                &&& run + 1 <= read
                &&& held_back@ == self.input()[read - 1]
                &&& held_back@.len() > 0
                &&& forall|k: int|
                    read - 1 - run <= k < read - 1 ==> (#[trigger] self.input()[k]).len() == 0
            },
            None => run == 0 || read == self.inner@.len(),
        }
    }

    /// Index of the string that is handed out next, if any is left.
    pub closed spec fn position(&self) -> int {
        if self.next_non_empty_string is Some {
            self.next_index - 1 - self.empty_string_run_count
        } else {
            self.next_index as int
        }
    }

    /// The strings that are still to come.
    pub closed spec fn remaining(&self) -> Seq<Seq<char>> {
        let end = content_end(self.input(), self.input().len() as int);
        if 0 <= self.position() < end {
            self.input().subrange(self.position(), end)
        } else {
            Seq::empty()
        }
    }

    /// An iterator that hands out the strings of `inner` but for the empty
    /// strings at its end.
    pub fn wrap(inner: Vec<String>) -> (trimmed: Self)
        ensures
            trimmed.wf(),
            trimmed.input() == texts_of(inner@),
            trimmed.remaining() == drop_trailing_empty(texts_of(inner@)),
    {
        proof {
            lemma_content_end(texts_of(inner@), inner@.len() as int);
        }
        TrimEndIterator {
            inner,
            next_index: 0,
            empty_string_run_count: 0,
            next_non_empty_string: None,
        }
    }

    /// Hands out the next string. Empty strings are held back until a string
    /// that is not empty shows that they do not stand at the end.
    pub fn next(&mut self) -> (item: Option<String>)
        requires
            old(self).wf(),
        ensures
            final(self).wf(),
            final(self).input() == old(self).input(),
            old(self).remaining().len() == 0 ==> item is None && final(self).remaining().len()
                == 0,
            old(self).remaining().len() > 0 ==> item is Some && item->0@ == old(
                self,
            ).remaining()[0] && final(self).remaining() == old(self).remaining().drop_first(),
    {
        let ghost all = self.input();
        let ghost end = content_end(all, all.len() as int);
        let ghost from = self.position();
        proof {
            lemma_content_end(all, all.len() as int);
        }
        loop
            invariant
                all == self.input(),
                self.inner@ == old(self).inner@,
                end == content_end(all, all.len() as int),
                0 <= end <= all.len(),
                all.len() == self.inner@.len(),
                from == old(self).position(),
                0 <= from,
                self.next_index <= self.inner@.len(),
                self.next_non_empty_string matches Some(held_back) ==> {
                    &&& self.next_index - 1 - self.empty_string_run_count == from
                    &&& held_back@ == all[self.next_index - 1]
                    &&& held_back@.len() > 0
                    &&& forall|k: int|
                        from <= k < self.next_index - 1 ==> (#[trigger] all[k]).len() == 0
                },
                self.next_non_empty_string is None ==> {
                    &&& from <= self.next_index
                    &&& forall|k: int|
                        from <= k < self.next_index ==> (#[trigger] all[k]).len() == 0
                    &&& from < self.next_index ==> self.empty_string_run_count == self.next_index
                        - from
                    &&& from == self.next_index ==> self.empty_string_run_count == 0
                        || self.next_index == self.inner@.len()
                },
            decreases
                    self.inner@.len() - self.next_index + (if self.next_non_empty_string is Some {
                        0int
                    } else {
                        1int
                    }),
        {
            if self.next_non_empty_string.is_some() {
                proof {
                    lemma_content_before_end(all, all.len() as int, self.next_index - 1);
                    assert(all.subrange(from, end).drop_first() == all.subrange(from + 1, end));
                }
                // we want to remove only trailing empty strings, so we keep
                // runs of empty strings in the middle intact
                if self.empty_string_run_count > 0 {
                    self.empty_string_run_count -= 1;
                    let empty = String::new();
                    proof {
                        assert(all[from].len() == 0);
                        assert(empty@ == all[from]);
                    }
                    return Some(empty);
                }
                return self.next_non_empty_string.take();
            }
            if self.next_index < self.inner.len() {
                let next = self.inner[self.next_index].clone();
                assert(next@ == all[self.next_index as int]);
                self.next_index += 1;
                if !next.as_str().is_empty() {
                    // we can't return this directly because there may have
                    // been a run of empty strings before it that we need to
                    // return
                    self.next_non_empty_string = Some(next);
                } else {
                    self.empty_string_run_count += 1;
                }
            } else {
                proof {
                    lemma_content_end_reached(all, all.len() as int, from);
                }
                return None;
            }
        }
    }
}

/// Removes extra space from a sequence of lines.
///
/// The lines that are returned:
///
/// - Have no leading or trailing blank lines. A blank line is either an
///   empty string or a string containing only spaces.
/// - Have the end of all lines trimmed.
pub fn trim_lines<S: AsText>(input: &[S]) -> (output: Vec<String>)
    ensures
        texts_of(output@) == trimmed_lines(texts_of(input@)),
{
    let ghost trimmed = texts_of(input@).map_values(|line: Seq<char>| trim_end(line));
    let mut without_lead: Vec<String> = Vec::new();
    let mut at: usize = 0;
    while at < input.len()
        invariant
            at <= input@.len(),
            trimmed == texts_of(input@).map_values(|line: Seq<char>| trim_end(line)),
            without_lead@.len() == 0 ==> content_start(trimmed, at as int) == content_start(
                trimmed,
                0,
            ),
            without_lead@.len() > 0 ==> content_start(trimmed, 0) < at && texts_of(without_lead@)
                == trimmed.subrange(content_start(trimmed, 0), at as int),
        decreases input@.len() - at,
    {
        let line = trim_line_end(input[at].as_text());
        proof {
            assert(line@ == trimmed[at as int]);
            lemma_content_start(trimmed, 0);
        }
        if without_lead.len() > 0 || !line.as_str().is_empty() {
            let ghost before = texts_of(without_lead@);
            without_lead.push(line);
            proof {
                assert(texts_of(without_lead@) == before.push(line@));
            }
        }
        at += 1;
    }

    // note that this only handles empty strings, so we need to make sure
    // lines are already trimmed before they go through this iterator
    proof {
        lemma_content_start(trimmed, 0);
        assert(texts_of(without_lead@) == skip_leading_empty(trimmed));
    }
    let mut rest = TrimEndIterator::wrap(without_lead);
    let ghost all = rest.remaining();
    let mut output: Vec<String> = Vec::new();
    loop
        invariant
            rest.wf(),
            texts_of(output@) + rest.remaining() == all,
        ensures
            texts_of(output@) == all,
        decreases rest.remaining().len(),
    {
        let ghost before = texts_of(output@);
        let ghost left = rest.remaining();
        match rest.next() {
            Some(line) => {
                output.push(line);
                proof {
                    assert(texts_of(output@) == before.push(line@));
                    assert(before.push(left[0]) + left.drop_first() == before + left);
                }
            },
            None => {
                proof {
                    assert(before + left == before);
                }
                break ;
            },
        }
    }
    output
}

/// Splits the input string into lines and cleans up excess whitespace
/// using [`trim_lines`].
///
/// The supported line separators are `"\n"`, `"\r"`, and `"\r\n"`.
pub fn lines(input: &str) -> (output: Vec<String>)
    ensures
        texts_of(output@) == trimmed_lines(split_lines(input@)),
{
    // we can't simply use the default `lines()` here because of the `\r`
    let mut split = LinesIterator::new(input);
    let ghost all = split.remaining();
    let mut raw: Vec<String> = Vec::new();
    loop
        invariant
            texts_of(raw@) + split.remaining() == all,
        ensures
            texts_of(raw@) == all,
        decreases split.remaining().len(),
    {
        let ghost before = texts_of(raw@);
        let ghost left = split.remaining();
        match split.next() {
            Some(line) => {
                raw.push(line);
                proof {
                    assert(texts_of(raw@) == before.push(line@));
                    assert(before.push(left[0]) + left.drop_first() == before + left);
                }
            },
            None => {
                proof {
                    assert(before + left == before);
                }
                break ;
            },
        }
    }
    trim_lines(raw.as_slice())
}

} // verus!
