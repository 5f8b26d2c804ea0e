use starship_daemon::path::{path_eq, path_string};

#[test]
fn trailing_separator_names_the_same_path() {
    assert!(path_eq("C:\\a\\", "C:\\a"));
    assert!(path_eq("C:\\a", "C:/a"));
}

#[test]
fn current_dir_components_are_skipped() {
    assert!(path_eq("a/./b", "a/b"));
    assert!(path_eq("a//b", "a/b"));
    assert!(!path_eq("./a", "a"));
}

#[test]
fn different_paths_differ() {
    assert!(!path_eq("a/b", "a/c"));
    assert!(!path_eq("/a", "a"));
    assert!(!path_eq("a/b", "a"));
    assert!(!path_eq("a/../b", "b"));
}
#[test]
fn one_spelling_per_path() {
    assert_eq!(path_string("C:\\a\\b\\"), "C:/a/b");
    assert_eq!(path_string("C:/a/./b"), "C:/a/b");
    assert_eq!(path_string("\\a"), "/a");
    assert_eq!(path_string("./a"), "./a");
    assert_eq!(path_string(""), "");
    assert_eq!(path_string("/"), "/");
}
