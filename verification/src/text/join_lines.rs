//! Joining lines into one text.

use super::chars::AsText;
use vstd::prelude::*;

verus! {

/// The lines one after the other, with a line break between each two.
pub open spec fn joined(lines: Seq<Seq<char>>) -> Seq<char>
    decreases lines.len(),
{
    if lines.len() == 0 {
        Seq::empty()
    } else if lines.len() == 1 {
        lines[0]
    } else {
        joined(lines.drop_last()) + seq!['\n'] + lines.last()
    }
}

/// The texts of a list of strings.
pub open spec fn texts_of<S: AsText>(lines: Seq<S>) -> Seq<Seq<char>> {
    lines.map_values(|line: S| line.text())
}

/// Joins a sequence of strings into a single string separate by line breaks.
pub fn join_lines<S: AsText>(lines: &[S]) -> (text: String)
    ensures
        text@ == joined(texts_of(lines@)),
{
    let mut text = String::new();
    let mut at: usize = 0;
    while at < lines.len()
        invariant
            at <= lines@.len(),
            text@ == joined(texts_of(lines@).take(at as int)),
        decreases lines@.len() - at,
    {
        if at > 0 {
            text.push('\n');
        }
        text.append(lines[at].as_text());
        proof {
            let all = texts_of(lines@);
            assert(all.take(at + 1).drop_last() == all.take(at as int));
            assert(all.take(at + 1).last() == lines@[at as int].text());
        }
        at += 1;
    }
    proof {
        assert(texts_of(lines@).take(at as int) == texts_of(lines@));
    }
    text
}

} // verus!
