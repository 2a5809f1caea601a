use tux::testdata::names::{entry_name, is_input_file, new_valid_file_name, valid_file_name};
use tux::testdata::report::decimal;
use tux::testdata::scan::{Entry, InputScan, Located};
use tux::testdata::{TestInput, TestResult, TestRun};

fn result_for(name: &str, output: &str, valid: Option<&str>) -> TestResult {
    let valid_file = valid_file_name(name);
    TestResult::from_output(name.to_string(), valid_file, output, valid)
}

fn entry(dir: &str, file_name: &str, is_dir: bool) -> Entry {
    Entry {
        file_name: file_name.to_string(),
        path: format!("{}/{}", dir, file_name),
        is_dir,
    }
}

fn names(list: &[Located]) -> Vec<String> {
    list.iter().map(|x| x.name.clone()).collect()
}

#[test]
fn input_file_has_the_extension_input() {
    assert!(is_input_file("some.input"));
    assert!(is_input_file("a.b.input"));
    assert!(!is_input_file("some.valid"));
    assert!(!is_input_file("some.input.bak"));
    assert!(!is_input_file("input"));
    assert!(!is_input_file("some.inputs"));
    assert!(!is_input_file(""));
}

#[test]
fn hidden_file_without_other_dot_has_no_extension() {
    assert!(!is_input_file(".input"));
    assert!(is_input_file(".hidden.input"));
    assert!(!is_input_file(".."));
}

#[test]
fn valid_file_has_the_name_of_the_input_file() {
    assert_eq!(valid_file_name("test.input"), "test.valid");
    assert_eq!(valid_file_name("a.b.input"), "a.b.valid");
    assert_eq!(valid_file_name("no_extension"), "no_extension.valid");
    assert_eq!(valid_file_name(".hidden"), ".hidden.valid");
}

#[test]
fn new_valid_file_has_the_name_of_the_valid_file() {
    assert_eq!(new_valid_file_name("test.valid"), "test.valid.new");
    assert_eq!(
        new_valid_file_name(&valid_file_name("some.input")),
        "some.valid.new"
    );
}

#[test]
fn entry_name_joins_directory_and_file() {
    assert_eq!(entry_name("", "a.input"), "a.input");
    assert_eq!(entry_name("a2", "sub"), "a2/sub");
    assert_eq!(entry_name("a2/sub", "file.input"), "a2/sub/file.input");
}

#[test]
fn test_input_hands_out_what_it_holds() {
    let input = TestInput::new(
        "sub/some.input".to_string(),
        "/data/sub/some.input".to_string(),
        "the input".to_string(),
    );
    assert_eq!(input.name(), "sub/some.input");
    assert_eq!(input.path(), "/data/sub/some.input");
    assert_eq!(input.text(), "the input");
}

#[test]
fn result_fails_if_output_is_missing() {
    let res = result_for("test.input", "some input", None);
    assert!(!res.success());
    assert_eq!(res.name(), "test.input");
    assert_eq!(res.valid_file(), "test.valid");
    assert!(res.expect().is_none());
    assert_eq!(res.actual(), &vec!["some input"]);
}

#[test]
fn result_fails_if_output_is_different() {
    let res = result_for("test.input", "some input", Some("some output"));
    assert!(!res.success());
    assert_eq!(res.expect(), Some(&vec!["some output".to_string()]));
    assert_eq!(res.actual(), &vec!["some input"]);
}

#[test]
fn result_succeeds_if_output_is_the_same() {
    let res = result_for("test.input", "123\nabc", Some("123\nabc"));
    assert!(res.success());
    assert_eq!(res.expect(), Some(&vec!["123".to_string(), "abc".to_string()]));
}

#[test]
fn result_trims_expected_output() {
    let res = result_for(
        "test.input",
        "line 1\nline 2\nline 3",
        Some("\n\nline 1\nline 2  \nline 3\n\n"),
    );
    assert!(res.success());
}

#[test]
fn result_trims_actual_output() {
    let res = result_for("test.input", "\n\nfirst\ntrim end:  \nlast\n\n", Some("first\ntrim end:\nlast"));
    assert!(res.success());
    assert_eq!(res.actual(), &vec!["first", "trim end:", "last"]);
}

#[test]
fn result_ignores_line_break_differences() {
    assert!(result_for("a.input", "c\nb\na", Some("c\r\nb\r\na")).success());
    assert!(result_for("b.input", "c\r\nb\r\na", Some("c\nb\na")).success());
    assert!(result_for("c.input", "c\rb\ra", Some("c\nb\na\n")).success());
}

#[test]
fn result_does_not_ignore_indentation_of_first_line() {
    let res = result_for("test.input", "value", Some("  value"));
    assert!(!res.success());
}

#[test]
fn result_of_empty_output_and_empty_valid_file_succeeds() {
    assert!(result_for("test.input", "", Some("")).success());
    assert!(result_for("test.input", "\n \n", Some("")).success());
    assert!(!result_for("test.input", "", None).success());
}

#[test]
fn run_without_test_cases_succeeds() {
    let run = TestRun::new();
    assert!(run.success());
    assert!(run.all().len() == 0);
    assert!(run.failed().len() == 0);
}

#[test]
fn run_has_an_item_for_each_case() {
    let mut run = TestRun::new();
    run.push(result_for("a.input", "a", Some("a")));
    run.push(result_for("b.input", "b", Some("b")));
    run.push(result_for("sub/some.input", "some", Some("some")));

    assert!(run.success());
    assert_eq!(run.all().len(), 3);
    assert_eq!(run.all()[0].name(), "a.input");
    assert_eq!(run.all()[1].name(), "b.input");
    assert_eq!(run.all()[2].name(), "sub/some.input");
    assert_eq!(run.failed().len(), 0);
}

#[test]
fn run_fails_if_an_output_does_not_match() {
    let mut run = TestRun::new();
    run.push(result_for("a.input", "valid 1", Some("valid 1")));
    run.push(result_for("b.input", "this should fail", Some("invalid output for the test")));
    run.push(result_for("c.input", "valid 2", Some("valid 2")));
    run.push(result_for("d.input", "no valid file", None));

    assert!(!run.success());
    assert!(run.all().len() == 4);
    assert!(run.all()[0].success());
    assert!(!run.all()[1].success());
    assert!(run.all()[2].success());
    assert!(!run.all()[3].success());

    let failed = run.failed();
    assert_eq!(failed.len(), 2);
    assert_eq!(failed[0].name(), "b.input");
    assert_eq!(failed[1].name(), "d.input");
}

#[test]
fn scan_starts_at_the_root() {
    let mut scan = InputScan::new("/data".to_string());
    let root = scan.next_directory().unwrap();
    assert_eq!(root.name, "");
    assert_eq!(root.path, "/data");
    assert!(scan.next_directory().is_none());
    assert!(scan.into_inputs().is_empty());
}

#[test]
fn scan_takes_entries_in_the_order_of_their_names() {
    let mut scan = InputScan::new("/data".to_string());
    let root = scan.next_directory().unwrap();
    scan.visit(
        &root.name,
        vec![
            entry("/data", "c.input", false),
            entry("/data", "a.input", false),
            entry("/data", "b.valid", false),
            entry("/data", "b.input", false),
            entry("/data", "B.input", false),
        ],
    );
    assert!(scan.next_directory().is_none());
    let found = scan.into_inputs();
    assert_eq!(names(&found), vec!["B.input", "a.input", "b.input", "c.input"]);
    assert_eq!(found[1].path, "/data/a.input");
}

#[test]
fn scan_recurses_into_subdirectories() {
    let mut scan = InputScan::new("/data".to_string());
    let mut read = Vec::new();
    while let Some(dir) = scan.next_directory() {
        read.push(dir.name.clone());
        let entries = match dir.name.as_str() {
            "" => vec![
                entry(&dir.path, "a3.input", false),
                entry(&dir.path, "a2", true),
                entry(&dir.path, "a1.input", false),
                entry(&dir.path, "a1", true),
                entry(&dir.path, "a2.input", false),
                entry(&dir.path, "a1.valid", false),
            ],
            "a1" => vec![entry(&dir.path, "b.input", false), entry(&dir.path, "a.input", false)],
            "a2" => vec![
                entry(&dir.path, "sub", true),
                entry(&dir.path, "b.input", false),
                entry(&dir.path, "a.input", false),
            ],
            "a2/sub" => vec![entry(&dir.path, "file.input", false)],
            other => panic!("no such directory: {}", other),
        };
        scan.visit(&dir.name, entries);
    }
    assert_eq!(read, vec!["", "a1", "a2", "a2/sub"]);
    let found = scan.into_inputs();
    assert_eq!(
        names(&found),
        vec![
            "a1.input",
            "a2.input",
            "a3.input",
            "a1/a.input",
            "a1/b.input",
            "a2/a.input",
            "a2/b.input",
            "a2/sub/file.input",
        ]
    );
    assert_eq!(found[7].path, "/data/a2/sub/file.input");
}

#[test]
fn scan_keeps_the_order_of_sorted_entries() {
    let mut scan = InputScan::new("/data".to_string());
    let root = scan.next_directory().unwrap();
    let entries = vec![entry("/data", "z.input", false), entry("/data", "y.input", false)];
    scan.visit_sorted(&root.name, &entries);
    assert_eq!(names(&scan.into_inputs()), vec!["z.input", "y.input"]);
}

#[test]
fn scan_does_not_take_a_directory_for_a_test_case() {
    let mut scan = InputScan::new("/data".to_string());
    let root = scan.next_directory().unwrap();
    scan.visit(&root.name, vec![entry("/data", "dir.input", true)]);
    let dir = scan.next_directory().unwrap();
    assert_eq!(dir.name, "dir.input");
    assert!(scan.into_inputs().is_empty());
}

#[test]
fn status_line_names_the_test_case() {
    assert_eq!(
        result_for("a.input", "x", Some("x")).status_line(),
        "passed: a.input"
    );
    assert_eq!(
        result_for("sub/b.input", "x", Some("y")).status_line(),
        "failed: sub/b.input"
    );
}

#[test]
fn failure_notice_of_output_that_does_not_match() {
    assert_eq!(
        result_for("test1.input", "x", Some("y")).failure_notice(),
        "\n=> `test1.input` output did not match `test1.valid`:"
    );
}

#[test]
fn failure_notice_of_missing_valid_file() {
    assert_eq!(
        result_for("test.input", "x", None).failure_notice(),
        "\n=> `test.valid` for test `test.input` not found\n.. created `test.valid.new` with the current test output"
    );
}

#[test]
fn failure_summary_lists_failed_test_cases() {
    let mut run = TestRun::new();
    run.push(result_for("pass.input", "", Some("")));
    run.push(result_for("fail.input", "", Some("this will fail")));
    run.push(result_for("other.input", "", None));
    assert_eq!(
        run.failure_summary(),
        "\n===== Failed tests =====\n\n- fail.input\n- other.input\n"
    );
}

#[test]
fn failure_message_counts_failed_test_cases() {
    let mut run = TestRun::new();
    assert_eq!(run.failure_message(), None);
    run.push(result_for("pass.input", "", Some("")));
    assert_eq!(run.failure_message(), None);
    run.push(result_for("fail.input", "", Some("this will fail")));
    assert_eq!(run.failure_message(), Some("1 test case failed".to_string()));
    for _ in 0..11 {
        run.push(result_for("fail.input", "", None));
    }
    assert_eq!(run.failure_message(), Some("12 test cases failed".to_string()));
}

#[test]
fn decimal_writes_numbers_without_leading_zeros() {
    assert_eq!(decimal(0), "0");
    assert_eq!(decimal(7), "7");
    assert_eq!(decimal(10), "10");
    assert_eq!(decimal(909), "909");
    assert_eq!(decimal(1234567890), "1234567890");
    assert_eq!(decimal(usize::MAX), usize::MAX.to_string());
}

#[test]
fn difference_leads_from_actual_to_expected_output() {
    let res = result_for(
        "test1.input",
        "test line A\ntest line 2\ntest line 3\ntest line B\ntest line 6\ntest line 8\ntest line 9\ntest line C",
        Some("test line 1\ntest line 2\ntest line 3\ntest line 4\ntest line 5\ntest line 6\ntest line 7\ntest line 8\ntest line 9"),
    );
    assert!(!res.success());
    let expected = vec![
        "-test line A",
        "+test line 1",
        " test line 2",
        " test line 3",
        "-test line B",
        "+test line 4",
        "+test line 5",
        " test line 6",
        "+test line 7",
        " test line 8",
        " test line 9",
        "-test line C",
    ];
    assert_eq!(res.difference(), Some(expected.join("\n")));
}

#[test]
fn difference_of_a_test_case_without_valid_file_is_none() {
    assert_eq!(result_for("test.input", "some output", None).difference(), None);
}

#[test]
fn difference_of_matching_output_is_empty() {
    assert_eq!(
        result_for("test.input", "a\nb", Some("a\r\nb\n")).difference(),
        Some(String::new())
    );
}
