use vacuum::record::path::{native_string, normalize_relative};

#[test]
fn relative_paths_are_normalized_to_forward_slashes() {
    let path = "nested\\inner/file.csv";
    assert_eq!(normalize_relative(path), "nested/inner/file.csv");
}

#[test]
fn native_paths_preserve_os_representation() {
    let path = "a/b/c.txt";
    assert_eq!(native_string(path), path);
}

#[test]
fn normalizing_leaves_forward_slashes_and_other_characters_alone() {
    assert_eq!(normalize_relative(""), "");
    assert_eq!(normalize_relative("plain.txt"), "plain.txt");
    assert_eq!(normalize_relative("a/b/c"), "a/b/c");
    assert_eq!(normalize_relative("\\"), "/");
    assert_eq!(normalize_relative("\\\\server\\share"), "//server/share");
    assert_eq!(normalize_relative("d\u{e9}j\u{e0}\\vu"), "d\u{e9}j\u{e0}/vu");
}

#[test]
fn normalizing_twice_changes_nothing_more() {
    let once = normalize_relative("a\\b\\c.txt");
    let twice = normalize_relative(&once);
    assert_eq!(once, twice);
    assert!(!once.contains('\\'));
}

#[test]
fn native_string_keeps_backslashes() {
    assert_eq!(native_string("a\\b"), "a\\b");
    assert_eq!(native_string(""), "");
}
