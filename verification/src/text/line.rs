//! A line of text as an item that can be compared.

use super::chars::AsText;
use super::join_lines::texts_of;
use vstd::prelude::*;
use vstd::std_specs::cmp::PartialEqSpecImpl;

verus! {

/// A line of text. Two lines are equal exactly if they hold the same
/// characters.
///
/// Lists of lines are lists whose items are known to compare as their texts
/// do, which is what the statements about the difference of two lists rest
/// on.
#[derive(Debug, Clone)]
pub struct Line {
    text: String,
}

impl View for Line {
    type V = Seq<char>;

    closed spec fn view(&self) -> Seq<char> {
        self.text@
    }
}

impl PartialEq for Line {
    fn eq(&self, other: &Line) -> (equal: bool) {
        self.text == other.text
    }
}

impl PartialEqSpecImpl for Line {
    open spec fn obeys_eq_spec() -> bool {
        true
    }

    open spec fn eq_spec(&self, other: &Line) -> bool {
        self@ == other@
    }
}

impl AsText for Line {
    open spec fn text(&self) -> Seq<char> {
        self@
    }

    fn as_text(&self) -> (text: &str) {
        self.text.as_str()
    }
}

impl Line {
    /// The line that holds `text`.
    pub fn new(text: String) -> (line: Line)
        ensures
            line@ == text@,
    {
        Line { text }
    }

    /// The text of the line.
    pub fn into_string(self) -> (text: String)
        ensures
            text@ == self@,
    {
        self.text
    }
}

/// `lines` holds the texts `texts`, line by line.
pub open spec fn holds_texts(lines: Seq<Line>, texts: Seq<Seq<char>>) -> bool {
    &&& lines.len() == texts.len()
    &&& forall|k: int| 0 <= k < lines.len() ==> (#[trigger] lines[k])@ == texts[k]
}

/// Each text as a line.
///
/// This is the way for lists of text into [`crate::diff::lines`]: of lines
/// it is known what `==` computes, of `String` and `&str` it is not.
pub fn to_lines<S: AsText>(texts: &[S]) -> (lines: Vec<Line>)
    ensures
        holds_texts(lines@, texts_of(texts@)),
{
    let mut lines: Vec<Line> = Vec::new();
    let mut at: usize = 0;
    while at < texts.len()
        invariant
            at <= texts@.len(),
            holds_texts(lines@, texts_of(texts@).take(at as int)),
        decreases texts@.len() - at,
    {
        lines.push(Line::new(String::from_str(texts[at].as_text())));
        at += 1;
    }
    proof {
        assert(texts_of(texts@).take(at as int) == texts_of(texts@));
    }
    lines
}

} // verus!
