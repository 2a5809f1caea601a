//! Test cases and how they ended.

use crate::text::join_lines::{join_lines, joined, texts_of};
use crate::text::lines::{lines, split_lines, trimmed_lines};
use vstd::prelude::*;

verus! {

/// The input of a test case.
pub struct TestInput {
    name: String,
    path: String,
    text: String,
}

/// What a [`TestInput`] holds, as texts.
pub struct TestInputView {
    pub name: Seq<char>,
    pub path: Seq<char>,
    pub text: Seq<char>,
}

impl View for TestInput {
    type V = TestInputView;

    closed spec fn view(&self) -> TestInputView {
        TestInputView { name: self.name@, path: self.path@, text: self.text@ }
    }
}

impl TestInput {
    /// The test case called `name`, whose input file lies at `path` and
    /// holds `text`.
    pub fn new(name: String, path: String, text: String) -> (input: TestInput)
        ensures
            input@ == (TestInputView { name: name@, path: path@, text: text@ }),
    {
        TestInput { name, path, text }
    }

    /// The test case name. This is the input file name, without the base
    /// path.
    pub fn name(&self) -> (name: &str)
        ensures
            name@ == self@.name,
    {
        self.name.as_str()
    }

    /// Path of the input file.
    pub fn path(&self) -> (path: &str)
        ensures
            path@ == self@.path,
    {
        self.path.as_str()
    }

    /// What the input file holds.
    pub fn text(&self) -> (text: String)
        ensures
            text@ == self@.text,
    {
        self.text.clone()
    }
}

/// How a test case ended.
#[derive(Debug, Clone)]
pub struct TestResult {
    success: bool,
    /// The test case name. This is the input file name, without the base path.
    name: String,
    /// Name for the valid file containing the expected test output.
    valid_file: String,
    /// Expected test output from the valid file. This will be `None` if the
    /// test failed because the valid file was not found.
    expect: Option<Vec<String>>,
    /// Actual output form the test callback.
    actual: Vec<String>,
}

/// What a [`TestResult`] holds, with its texts as sequences.
pub struct TestResultView {
    pub success: bool,
    pub name: Seq<char>,
    pub valid_file: Seq<char>,
    pub expect: Option<Seq<Seq<char>>>,
    pub actual: Seq<Seq<char>>,
}

impl View for TestResult {
    type V = TestResultView;

    closed spec fn view(&self) -> TestResultView {
        TestResultView {
            success: self.success,
            name: self.name@,
            valid_file: self.valid_file@,
            expect: match self.expect {
                Some(lines) => Some(texts_of(lines@)),
                None => None,
            },
            actual: texts_of(self.actual@),
        }
    }
}

/// The text of a file as the tests read it: its lines without the white
/// space at their ends and without blank lines at the front and at the end.
pub open spec fn clean_lines(text: Seq<char>) -> Seq<Seq<char>> {
    trimmed_lines(split_lines(text))
}

/// How the test case `name` ended that gave `output` where the file
/// `valid_file` holds `valid`, or where there is no such file.
///
/// Both texts are read as lines, with the white space that carries no
/// meaning removed. The test case succeeded if the file is there and the
/// lines, joined again, are the same text.
pub open spec fn judged(
    name: Seq<char>,
    valid_file: Seq<char>,
    output: Seq<char>,
    valid: Option<Seq<char>>,
) -> TestResultView {
    TestResultView {
        success: match valid {
            Some(valid) => joined(clean_lines(output)) == joined(clean_lines(valid)),
            None => false,
        },
        name,
        valid_file,
        expect: match valid {
            Some(valid) => Some(clean_lines(valid)),
            None => None,
        },
        actual: clean_lines(output),
    }
}

impl TestResult {
    /// Compares what a test case gave with what its valid file holds.
    ///
    /// `output_text` is the output of the test case called `name`.
    /// `valid_text` is what the file `valid_file` holds, or `None` if there
    /// is no such file, in which case the test case has failed.
    pub fn from_output(
        name: String,
        valid_file: String,
        output_text: &str,
        valid_text: Option<&str>,
    ) -> (result: TestResult)
        ensures
            result@ == judged(name@, valid_file@, output_text@, match valid_text {
                Some(text) => Some(text@),
                None => None,
            }),
    {
        let output_lines = lines(output_text);

        let mut test_succeeded = true;

        let expected_lines = match valid_text {
            Some(raw_text) => {
                let expected_lines = lines(raw_text);
                let expected_text = join_lines(expected_lines.as_slice());
                let actual_text = join_lines(output_lines.as_slice());
                if !(actual_text == expected_text) {
                    test_succeeded = false;
                }
                Some(expected_lines)
            },
            None => {
                test_succeeded = false;

                // there is no expected lines in this case, since the valid
                // file was not found
                None
            },
        };

        TestResult {
            success: test_succeeded,
            name,
            valid_file,
            expect: expected_lines,
            actual: output_lines,
        }
    }

    /// Whether the test case gave the expected output.
    pub fn success(&self) -> (success: bool)
        ensures
            success == self@.success,
    {
        self.success
    }

    /// The test case name. This is the input file name, without the base
    /// path.
    pub fn name(&self) -> (name: &str)
        ensures
            name@ == self@.name,
    {
        self.name.as_str()
    }

    /// Name for the valid file containing the expected test output.
    pub fn valid_file(&self) -> (valid_file: &str)
        ensures
            valid_file@ == self@.valid_file,
    {
        self.valid_file.as_str()
    }

    /// Expected test output from the valid file. This will be `None` if the
    /// test failed because the valid file was not found.
    pub fn expect(&self) -> (expect: Option<&Vec<String>>)
        ensures
            match expect {
                Some(lines) => self@.expect == Some(texts_of(lines@)),
                None => self@.expect is None,
            },
    {
        self.expect.as_ref()
    }

    /// Actual output form the test callback.
    pub fn actual(&self) -> (actual: &Vec<String>)
        ensures
            texts_of(actual@) == self@.actual,
    {
        &self.actual
    }
}

/// The outcome of all test cases of a run.
pub struct TestRun {
    results: Vec<TestResult>,
}

/// The results that are failures, in their order.
pub open spec fn failures(results: Seq<TestResultView>) -> Seq<TestResultView>
    decreases results.len(),
{
    if results.len() == 0 {
        Seq::empty()
    } else if results.last().success {
        failures(results.drop_last())
    } else {
        failures(results.drop_last()).push(results.last())
    }
}

/// The views of a list of references to results.
pub open spec fn shown(results: Seq<&TestResult>) -> Seq<TestResultView> {
    results.map_values(|result: &TestResult| result@)
}

impl View for TestRun {
    type V = Seq<TestResultView>;

    closed spec fn view(&self) -> Seq<TestResultView> {
        self.results@.map_values(|result: TestResult| result@)
    }
}

impl TestRun {
    /// A run in which no test case has ended yet.
    pub fn new() -> (run: TestRun)
        ensures
            run@ == Seq::<TestResultView>::empty(),
    {
        TestRun { results: Vec::new() }
    }

    /// Adds the outcome of one more test case.
    pub fn push(&mut self, result: TestResult)
        ensures
            final(self)@ == old(self)@.push(result@),
    {
        self.results.push(result);
    }

    /// Whether every test case of the run succeeded.
    pub fn success(&self) -> (success: bool)
        ensures
            success == forall|k: int| 0 <= k < self@.len() ==> (#[trigger] self@[k]).success,
    {
        let mut at: usize = 0;
        while at < self.results.len()
            invariant
                at <= self.results@.len(),
                forall|k: int| 0 <= k < at ==> (#[trigger] self@[k]).success,
            decreases self.results@.len() - at,
        {
            if !self.results[at].success {
                assert(!self@[at as int].success);
                return false;
            }
            at += 1;
        }
        true
    }

    /// The outcome of each test case, in the order in which they ran.
    pub fn all(&self) -> (results: Vec<&TestResult>)
        ensures
            shown(results@) == self@,
    {
        let mut results: Vec<&TestResult> = Vec::new();
        let mut at: usize = 0;
        while at < self.results.len()
            invariant
                at <= self.results@.len(),
                shown(results@) == self@.take(at as int),
            decreases self.results@.len() - at,
        {
            let ghost before = shown(results@);
            results.push(&self.results[at]);
            proof {
                assert(shown(results@) == before.push(self@[at as int]));
                assert(self@.take(at + 1) == self@.take(at as int).push(self@[at as int]));
            }
            at += 1;
        }
        proof {
            assert(self@.take(at as int) == self@);
        }
        results
    }

    /// The outcome of the test cases that failed, in the order in which they
    /// ran.
    pub fn failed(&self) -> (results: Vec<&TestResult>)
        ensures
            shown(results@) == failures(self@),
    {
        let mut results: Vec<&TestResult> = Vec::new();
        let mut at: usize = 0;
        while at < self.results.len()
            invariant
                at <= self.results@.len(),
                shown(results@) == failures(self@.take(at as int)),
            decreases self.results@.len() - at,
        {
            let ghost before = shown(results@);
            proof {
                assert(self@.take(at + 1).drop_last() == self@.take(at as int));
                assert(self@.take(at + 1).last() == self@[at as int]);
            }
            if !self.results[at].success {
                results.push(&self.results[at]);
                proof {
                    assert(shown(results@) == before.push(self@[at as int]));
                }
            }
            at += 1;
        }
        proof {
            assert(self@.take(at as int) == self@);
        }
        results
    }
}

} // verus!
