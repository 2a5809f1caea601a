use tux::exec::{bin_path, process_complaint};

fn path(parts: &[&str]) -> Vec<String> {
    parts.iter().map(|x| x.to_string()).collect()
}

#[test]
fn process_that_ended_well_gives_no_complaint() {
    assert_eq!(process_complaint(true, "exit status: 0", ""), None);
}

#[test]
fn process_with_error_output_is_complained_about() {
    assert_eq!(
        process_complaint(true, "exit status: 0", "some error output\n"),
        Some("executable generated error output: some error output\n".to_string())
    );
}

#[test]
fn process_with_non_zero_exit_code_is_complained_about() {
    assert_eq!(
        process_complaint(false, "exit status: 123", ""),
        Some("executable exited with error (exit status: 123)".to_string())
    );
}

#[test]
fn failed_process_is_complained_about_with_its_error_output() {
    assert_eq!(
        process_complaint(false, "exit status: 1", "oops"),
        Some("executable exited with error (exit status: 1) and error output: oops".to_string())
    );
}

#[test]
fn bin_path_lies_beside_the_test_executable() {
    let exe = path(&["/", "project", "target", "debug", "some_test-0123"]);
    assert_eq!(
        bin_path(exe, "bin_simple"),
        path(&["/", "project", "target", "debug", "bin_simple"])
    );
}

#[test]
fn bin_path_lies_above_the_deps_directory() {
    let exe = path(&["/", "project", "target", "debug", "deps", "some_test-0123"]);
    assert_eq!(
        bin_path(exe, "bin_simple"),
        path(&["/", "project", "target", "debug", "bin_simple"])
    );
}

#[test]
fn bin_path_leaves_only_one_deps_directory() {
    let exe = path(&["deps", "deps", "test"]);
    assert_eq!(bin_path(exe, "bin"), path(&["deps", "bin"]));
}

#[test]
fn bin_path_of_an_empty_path_is_the_name() {
    assert_eq!(bin_path(Vec::new(), "bin"), path(&["bin"]));
    assert_eq!(bin_path(path(&["test"]), "bin"), path(&["bin"]));
    assert_eq!(bin_path(path(&["deps"]), "bin"), path(&["bin"]));
}
