//! Paths and what is left of them below a root.

use carrick::paths::{lies_under, normalize_protocol_file, path_components, strip_root};

#[test]
fn a_path_below_a_root_keeps_its_spelling() {
    assert_eq!(strip_root("/repo/src/./a.ts", "/repo"), "src/./a.ts");
    assert_eq!(strip_root("/repo//src//a.ts", "/repo/"), "src//a.ts");
    assert_eq!(strip_root("./repo/./x//y/.", "./repo"), "x//y");
    assert_eq!(strip_root("/repo/src/../a.ts", "/repo"), "src/../a.ts");
    assert_eq!(strip_root("/repo", "/repo/."), "");
}

#[test]
fn a_path_keeps_its_head_below_the_empty_root() {
    assert_eq!(strip_root("//a//", ""), "//a");
    assert_eq!(strip_root("./a/", ""), "./a");
    assert_eq!(strip_root("a/./", ""), "a");
    assert_eq!(strip_root("/", ""), "/");
    assert_eq!(strip_root(".", ""), ".");
    assert_eq!(strip_root("", ""), "");
}

#[test]
fn a_leading_dot_is_a_component() {
    assert!(!lies_under("./repo/a", "repo"));
    assert_eq!(strip_root("./repo/a", "repo"), "./repo/a");
    assert!(!lies_under("/repo/a", "repo"));
    assert!(!lies_under("/repository/a", "/repo"));
    assert!(lies_under("repo/./a", "repo"));
    assert_eq!(path_components("./a/./b/"), vec![".", "a", "b"]);
    assert_eq!(path_components("/a//.."), vec!["/", "a", ".."]);
    assert_eq!(path_components(".a"), vec![".a"]);
    assert!(path_components("").is_empty());
    assert_eq!(normalize_protocol_file("./a/./b"), "a/b");
    assert_eq!(normalize_protocol_file("//a/./b/"), "/a/b");
}
