use tux::temp::{file_path, path_if_inside};

#[test]
fn file_path_of_a_file_at_the_root() {
    assert_eq!(
        file_path("/tmp/dir", "some_file.txt"),
        Some("/tmp/dir/some_file.txt".to_string())
    );
}

#[test]
fn file_path_of_a_file_in_a_sub_directory() {
    assert_eq!(
        file_path("/tmp/dir", "sub/a/b/simple_file.txt"),
        Some("/tmp/dir/sub/a/b/simple_file.txt".to_string())
    );
}

#[test]
fn file_path_is_normalized() {
    assert_eq!(
        file_path("/tmp/dir", "./sub//x/../file.txt"),
        Some("/tmp/dir/sub/file.txt".to_string())
    );
}

#[test]
fn file_path_does_not_leave_the_directory() {
    assert_eq!(file_path("/tmp/dir", "sub/../../test_file.txt"), None);
    assert_eq!(file_path("/tmp/dir", "../dir2/file.txt"), None);
    assert_eq!(file_path("/tmp/dir", "/etc/file.txt"), None);
}

#[test]
fn file_path_compares_whole_components() {
    // `/tmp/dir2` starts with the text `/tmp/dir` but does not lie inside it
    assert_eq!(file_path("/tmp/dir", "../dir2"), None);
    assert_eq!(file_path("/tmp/dir", "../dir/x"), Some("/tmp/dir/x".to_string()));
}

#[test]
fn path_if_inside_hands_on_what_lies_inside() {
    assert_eq!(
        path_if_inside("/a/b".to_string(), true),
        Some("/a/b".to_string())
    );
    assert_eq!(path_if_inside("/a/b".to_string(), false), None);
}
