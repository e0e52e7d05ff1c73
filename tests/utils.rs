use css_mod::paths::{join_paths, resolve_module_file_path};

#[test]
fn basic() {
    assert_eq!(join_paths("a/b/c", "d"), "a/b/d");
    assert_eq!(join_paths("a/b/", "d"), "a/b/d");
    assert_eq!(join_paths("a/b/", "c/d"), "a/b/c/d");
}

#[test]
fn two_dot_normalization() {
    assert_eq!(join_paths("a/b/", "../d"), "a/d");
    assert_eq!(join_paths("a/b/c", "../d"), "a/d");
    assert_eq!(join_paths("a/b/c", "../../d"), "d");
    assert_eq!(join_paths("a/b/c", "../../../d"), "d");
}

#[test]
fn exceptions() {
    // doesn't normalize one dot
    assert_eq!(join_paths("a/./b/c", "./d"), "a/./b/./d");

    // doesn't normalize two dots not at the beginning of rhs
    assert_eq!(join_paths("a/../b/", "c/../d"), "a/../b/c/../d");

    // doesn't work with back slash separators
    assert_eq!(join_paths("a\\b\\c", "d"), "d");
    assert_eq!(join_paths("a/b/c", "..\\d"), "a/b/..\\d");
}

#[test]
fn host_separators_are_normalized_on_windows_hosts() {
    assert_eq!(resolve_module_file_path("src\\ui\\app.rs", "../app.css", true), "src/app.css");
    assert_eq!(resolve_module_file_path("src\\ui\\app.rs", "../app.css", false), "app.css");
    assert_eq!(resolve_module_file_path("src/ui/app.rs", "app.css", false), "src/ui/app.css");
}
