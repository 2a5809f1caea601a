//! What is written about a run of test cases.

use super::run::{failures, TestResult, TestResultView, TestRun};
use crate::diff::lines::{diff_script, lemma_diff_script_of_texts, lines};
use crate::diff::render::{render, report};
use crate::text::join_lines::texts_of;
use crate::text::line::{holds_texts, to_lines, Line};
use vstd::prelude::*;

verus! {

/// The decimal digit for a number below ten.
pub open spec fn digit_of(n: nat) -> char {
    if n == 0 {
        '0'
    } else if n == 1 {
        '1'
    } else if n == 2 {
        '2'
    } else if n == 3 {
        '3'
    } else if n == 4 {
        '4'
    } else if n == 5 {
        '5'
    } else if n == 6 {
        '6'
    } else if n == 7 {
        '7'
    } else if n == 8 {
        '8'
    } else {
        '9'
    }
}

/// A number in decimal digits, without leading zeros.
pub open spec fn decimal_of(n: nat) -> Seq<char>
    decreases n,
{
    if n < 10 {
        seq![digit_of(n)]
    } else {
        decimal_of(n / 10).push(digit_of(n % 10))
    }
}

/// The line that says how a test case ended.
pub open spec fn status_line_of(result: TestResultView) -> Seq<char> {
    if result.success {
        "passed: "@ + result.name
    } else {
        "failed: "@ + result.name
    }
}

/// What is written about a test case that failed, before the difference
/// between its output and the expected output: that its output did not match
/// the valid file, or that there was no valid file and one was made from the
/// output.
pub open spec fn failure_notice_of(result: TestResultView) -> Seq<char> {
    if result.expect is Some {
        "\n=> `"@ + result.name + "` output did not match `"@ + result.valid_file + "`:"@
    } else {
        "\n=> `"@ + result.valid_file + "` for test `"@ + result.name + "` not found\n"@
            + ".. created `"@ + result.valid_file + ".new` with the current test output"@
    }
}

/// The names of the given test cases, each on a line of its own behind
/// `"- "`.
pub open spec fn name_list_of(results: Seq<TestResultView>) -> Seq<char>
    decreases results.len(),
{
    if results.len() == 0 {
        Seq::empty()
    } else {
        name_list_of(results.drop_last()) + "- "@ + results.last().name + "\n"@
    }
}

/// The list of the test cases that failed, under its heading.
pub open spec fn failure_summary_of(results: Seq<TestResultView>) -> Seq<char> {
    "\n===== Failed tests =====\n\n"@ + name_list_of(failures(results))
}

/// What a run with `failed_count` failed test cases ends with: nothing if
/// all went well, else the number of test cases that failed.
pub open spec fn failure_message_of(failed_count: nat) -> Option<Seq<char>> {
    if failed_count == 0 {
        None
    } else {
        Some(
            decimal_of(failed_count) + " test case"@ + if failed_count != 1 {
                "s"@
            } else {
                Seq::empty()
            } + " failed"@,
        )
    }
}

/// The decimal digit for a number below ten.
fn digit(n: usize) -> (c: char)
    requires
        n < 10,
    ensures
        c == digit_of(n as nat),
{
    if n == 0 {
        '0'
    } else if n == 1 {
        '1'
    } else if n == 2 {
        '2'
    } else if n == 3 {
        '3'
    } else if n == 4 {
        '4'
    } else if n == 5 {
        '5'
    } else if n == 6 {
        '6'
    } else if n == 7 {
        '7'
    } else if n == 8 {
        '8'
    } else {
        '9'
    }
}

/// A number in decimal digits.
pub fn decimal(n: usize) -> (text: String)
    ensures
        text@ == decimal_of(n as nat),
    decreases n,
{
    if n < 10 {
        let mut text = String::new();
        text.push(digit(n));
        text
    } else {
        let mut text = decimal(n / 10);
        text.push(digit(n % 10));
        text
    }
}

impl TestResult {
    /// The line that says how the test case ended: `passed` or `failed`,
    /// and its name.
    pub fn status_line(&self) -> (line: String)
        ensures
            line@ == status_line_of(self@),
    {
        let mut line = if self.success() {
            String::from_str("passed: ")
        } else {
            String::from_str("failed: ")
        };
        line.append(self.name());
        line
    }

    /// What is to be written about the failed test case before the
    /// difference between its output and the expected output.
    pub fn failure_notice(&self) -> (notice: String)
        ensures
            notice@ == failure_notice_of(self@),
    {
        let mut notice = String::from_str("\n=> `");
        if self.expect().is_some() {
            notice.append(self.name());
            notice.append("` output did not match `");
            notice.append(self.valid_file());
            notice.append("`:");
        } else {
            notice.append(self.valid_file());
            notice.append("` for test `");
            notice.append(self.name());
            notice.append("` not found\n");
            notice.append(".. created `");
            notice.append(self.valid_file());
            notice.append(".new` with the current test output");
        }
        notice
    }
}

impl TestResult {
    /// The difference between the actual output of the test case and the
    /// expected output, as text: the way from the actual lines to the
    /// expected lines. There is none where no expected output was found.
    pub fn difference(&self) -> (text: Option<String>)
        ensures
            match self@.expect {
                Some(expected) => text is Some && (exists|actual: Seq<Line>, wanted: Seq<Line>|
                    {
                        &&& holds_texts(actual, self@.actual)
                        &&& holds_texts(wanted, expected)
                        &&& text->0@ == report(
                            #[trigger] diff_script(actual, wanted),
                            self@.actual,
                            expected,
                        )
                    }) && (forall|actual: Seq<Line>, wanted: Seq<Line>|
                    holds_texts(actual, self@.actual) && holds_texts(wanted, expected) ==> text->0@
                        == report(#[trigger] diff_script(actual, wanted), self@.actual, expected)),
                None => text is None,
            },
    {
        match self.expect() {
            Some(expected) => {
                let actual = self.actual();
                let actual_lines = to_lines(actual.as_slice());
                let expected_lines = to_lines(expected.as_slice());
                let diff = lines(actual_lines.as_slice(), expected_lines.as_slice());
                let items = diff.items();
                let text = render(items.as_slice(), actual.as_slice(), expected.as_slice());
                proof {
                    assert(items@ == diff_script(actual_lines@, expected_lines@));
                    assert forall|first: Seq<Line>, second: Seq<Line>|
                        holds_texts(first, texts_of(actual@)) && holds_texts(
                            second,
                            texts_of(expected@),
                        ) implies text@ == report(
                        #[trigger] diff_script(first, second),
                        texts_of(actual@),
                        texts_of(expected@),
                    ) by {
                        lemma_diff_script_of_texts(
                            actual_lines@,
                            expected_lines@,
                            first,
                            second,
                            texts_of(actual@),
                            texts_of(expected@),
                        );
                    }
                }
                Some(text)
            },
            None => None,
        }
    }
}

impl TestRun {
    /// The list of the test cases that failed, under its heading.
    pub fn failure_summary(&self) -> (summary: String)
        ensures
            summary@ == failure_summary_of(self@),
    {
        let failed = self.failed();
        let ghost all = failures(self@);
        let mut summary = String::from_str("\n===== Failed tests =====\n\n");
        let mut at: usize = 0;
        while at < failed.len()
            invariant
                at <= failed@.len(),
                all == super::run::shown(failed@),
                summary@ == "\n===== Failed tests =====\n\n"@ + name_list_of(all.take(at as int)),
            decreases failed@.len() - at,
        {
            proof {
                assert(all.take(at + 1).drop_last() == all.take(at as int));
                assert(all.take(at + 1).last() == failed@[at as int]@);
            }
            summary.append("- ");
            summary.append(failed[at].name());
            summary.append("\n");
            at += 1;
        }
        proof {
            assert(all.take(at as int) == all);
        }
        summary
    }

    /// What the run ends with if a test case failed: the number of test
    /// cases that failed.
    pub fn failure_message(&self) -> (message: Option<String>)
        ensures
            match failure_message_of(failures(self@).len()) {
                Some(text) => message is Some && message->0@ == text,
                None => message is None,
            },
    {
        let failed_count = self.failed().len();
        if failed_count > 0 {
            let mut message = decimal(failed_count);
            message.append(" test case");
            if failed_count != 1 {
                message.append("s");
            }
            message.append(" failed");
            Some(message)
        } else {
            None
        }
    }
}

} // verus!
