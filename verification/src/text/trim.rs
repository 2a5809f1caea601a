//! Cleaning up a text that was written as an indented literal.

use super::chars::{char_is_whitespace, from_chars, is_whitespace, to_chars};
use super::join_lines::{join_lines, joined, texts_of};
use super::lines::{lines, split_lines, trimmed_lines};
use vstd::prelude::*;

verus! {

/// Where the white space ends that starts at `from`.
pub open spec fn indent_end(line: Seq<char>, from: int) -> int
    decreases line.len() - from,
{
    if 0 <= from < line.len() && is_whitespace(line[from]) {
        indent_end(line, from + 1)
    } else {
        from
    }
}

/// The white space at the front of a line.
pub open spec fn indent_of(line: Seq<char>) -> Seq<char> {
    line.take(indent_end(line, 0))
}

/// The line without `indent` at its front. A line that does not start with
/// `indent` stays as it is.
pub open spec fn without_indent(line: Seq<char>, indent: Seq<char>) -> Seq<char> {
    if indent.is_prefix_of(line) {
        line.skip(indent.len() as int)
    } else {
        line
    }
}

/// The trimmed lines of `input` without the indentation of the first of
/// them, joined by line breaks.
pub open spec fn trimmed_text(input: Seq<char>) -> Seq<char> {
    let lines = trimmed_lines(split_lines(input));
    if lines.len() == 0 {
        Seq::empty()
    } else {
        joined(lines.map_values(|line: Seq<char>| without_indent(line, indent_of(lines[0]))))
    }
}

/// Removes the first `indent_length` characters of `first` from the front of
/// `line`, if the line starts with them.
fn strip_indent(line: &str, first: &[char], indent_length: usize) -> (stripped: String)
    requires
        indent_length <= first@.len(),
    ensures
        stripped@ == without_indent(line@, first@.take(indent_length as int)),
{
    let chars = to_chars(line);
    let ghost indent = first@.take(indent_length as int);
    let mut matched: usize = 0;
    if chars.len() >= indent_length {
        while matched < indent_length && chars[matched] == first[matched]
            invariant
                matched <= indent_length <= chars@.len(),
                indent_length <= first@.len(),
                indent == first@.take(indent_length as int),
                forall|k: int| 0 <= k < matched ==> chars@[k] == indent[k],
            decreases indent_length - matched,
        {
            matched += 1;
        }
    }
    if chars.len() >= indent_length && matched == indent_length {
        proof {
            assert(indent =~= chars@.subrange(0, indent.len() as int));
        }
        from_chars(chars.as_slice(), indent_length, chars.len())
    } else {
        proof {
            if indent.is_prefix_of(chars@) {
                assert(chars@.subrange(0, indent.len() as int)[matched as int]
                    == indent[matched as int]);
            }
            assert(chars@.subrange(0, chars@.len() as int) == chars@);
        }
        from_chars(chars.as_slice(), 0, chars.len())
    }
}

/// Removes extra whitespace, excess leading indentation, and normalizes line
/// breaks from the input string.
///
/// This will pass the input through [`lines`] and then strip excess leading
/// indentation from the lines before joining then again using `"\n"` as a
/// separator.
///
/// The _excess leading indentation_ is defined by the first non-blank line
/// in the input. Any indentation on that line will also be removed from the
/// prefix of all other lines.
///
/// The main purpose of this method is to generate clean strings from literal
/// strings defined in the source code.
pub fn trim(input: &str) -> (output: String)
    ensures
        output@ == trimmed_text(input@),
{
    let lines = lines(input);
    if lines.len() == 0 {
        return String::new();
    }
    let first = to_chars(lines[0].as_str());
    let mut indent_length: usize = 0;
    while indent_length < first.len() && char_is_whitespace(first[indent_length])
        invariant
            indent_length <= first@.len(),
            indent_end(first@, indent_length as int) == indent_end(first@, 0),
        decreases first@.len() - indent_length,
    {
        indent_length += 1;
    }
    let ghost all = texts_of(lines@);
    let ghost indent = indent_of(all[0]);
    let ghost wanted = all.map_values(|line: Seq<char>| without_indent(line, indent));
    let mut stripped: Vec<String> = Vec::new();
    let mut at: usize = 0;
    while at < lines.len()
        invariant
            at <= lines@.len(),
            indent_length <= first@.len(),
            all == texts_of(lines@),
            indent == first@.take(indent_length as int),
            wanted == all.map_values(|line: Seq<char>| without_indent(line, indent)),
            texts_of(stripped@) == wanted.take(at as int),
        decreases lines@.len() - at,
    {
        let ghost before = texts_of(stripped@);
        let line = strip_indent(lines[at].as_str(), first.as_slice(), indent_length);
        stripped.push(line);
        proof {
            assert(texts_of(stripped@) == before.push(line@));
            assert(line@ == wanted[at as int]);
            assert(wanted.take(at + 1) == wanted.take(at as int).push(wanted[at as int]));
        }
        at += 1;
    }
    proof {
        assert(wanted.take(at as int) == wanted);
    }
    join_lines(stripped.as_slice())
}

} // verus!
