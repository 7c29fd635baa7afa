//! Which files of a service are looked at.

use carrick::file_finder::{
    add_files, classify_file, extension, find_files, has_test_dir, is_test_path, FileKind,
};

fn paths(root: &str, relative: &[&str]) -> Vec<String> {
    relative.iter().map(|p| format!("{}/{}", root, p)).collect()
}

fn found(root: &str, relative: &[&str]) -> (Vec<String>, Option<String>, Option<String>) {
    find_files(root, &paths(root, relative), &vec![])
}

#[test]
fn find_files_skips_test_sources() {
    let root = "/tmp/repo";
    let (files, config, package) = found(
        root,
        &["src/app.ts", "__tests__/app.spec.ts", "carrick.json", "package.json"],
    );
    assert_eq!(files, vec!["/tmp/repo/src/app.ts".to_string()]);
    assert_eq!(config, Some("/tmp/repo/carrick.json".to_string()));
    assert_eq!(package, Some("/tmp/repo/package.json".to_string()));
}

#[test]
fn find_files_skips_suffixes_and_fixture_dirs() {
    let root = "/tmp/repo";
    let (files, config, package) = found(
        root,
        &[
            "services/handler.tsx",
            "services/handler.test.tsx",
            "fixtures/seeds/seed.ts",
            "carrick.json",
            "package.json",
        ],
    );
    assert_eq!(files, vec!["/tmp/repo/services/handler.tsx".to_string()]);
    assert_eq!(config, Some("/tmp/repo/carrick.json".to_string()));
    assert_eq!(package, Some("/tmp/repo/package.json".to_string()));
}

#[test]
fn find_files_allows_root_dir_matching_test_pattern() {
    // A root that is itself named like a directory of tests.
    let root = "/tmp/repo/fixtures";
    let (files, config, package) = found(root, &["src/app.ts", "carrick.json", "package.json"]);
    assert_eq!(files, vec!["/tmp/repo/fixtures/src/app.ts".to_string()]);
    assert_eq!(config, Some("/tmp/repo/fixtures/carrick.json".to_string()));
    assert_eq!(package, Some("/tmp/repo/fixtures/package.json".to_string()));
}

#[test]
fn the_last_configuration_and_manifest_count() {
    let (files, config, package) = found(
        "r",
        &["carrick.json", "package.json", "a/carrick.json", "a/package.json"],
    );
    assert!(files.is_empty());
    assert_eq!(config.as_deref(), Some("r/a/carrick.json"));
    assert_eq!(package.as_deref(), Some("r/a/package.json"));
}

#[test]
fn ignored_files_are_nothing_at_all() {
    let ignored = vec!["node_modules".to_string()];
    let files = paths("r", &["node_modules/x/package.json", "src/a.js"]);
    let (sources, config, package) = find_files("r", &files, &ignored);
    assert_eq!(sources, vec!["r/src/a.js".to_string()]);
    assert!(config.is_none());
    assert!(package.is_none());
}

#[test]
fn extensions_count_whatever_their_case() {
    let none = vec![];
    assert_eq!(classify_file("r/a.TSX", "r", &none), FileKind::Source);
    assert_eq!(classify_file("r/a.Js", "r", &none), FileKind::Source);
    assert_eq!(classify_file("r/a.mjs", "r", &none), FileKind::Skipped);
    assert_eq!(classify_file("r/README", "r", &none), FileKind::Skipped);
    assert_eq!(classify_file("r/.ts", "r", &none), FileKind::Skipped);
    assert_eq!(extension("a/b.test.ts").as_deref(), Some("ts"));
    assert_eq!(extension("a/.env"), None);
    assert_eq!(extension("a.b/c"), None);
}

#[test]
fn tests_are_told_by_directory_and_suffix() {
    assert!(has_test_dir("r/Tests/a.ts", "r"));
    assert!(has_test_dir("r/a/__mocks__/b/c.ts", "r"));
    assert!(!has_test_dir("tests/r/a.ts", "tests/r"));
    // A path outside the root is judged by its suffix alone.
    assert!(!has_test_dir("other/tests/a.ts", "r"));
    assert!(is_test_path("other/a.Spec.TS", "r"));
    assert!(!is_test_path("r/contest.ts", "r"));
}

#[test]
fn included_files_are_added_once() {
    let texts = |list: &[&str]| list.iter().map(|s| s.to_string()).collect::<Vec<String>>();
    assert_eq!(
        add_files(texts(&["b", "a"]), &texts(&["c", "a", "c"])),
        texts(&["b", "a", "c"])
    );
    assert_eq!(add_files(vec![], &texts(&["a"])), texts(&["a"]));
    assert_eq!(add_files(texts(&["a"]), &vec![]), texts(&["a"]));
}

#[test]
fn a_root_or_a_dot_has_no_file_name() {
    assert!(extension("/").is_none());
    assert!(extension(".").is_none());
    assert!(extension("..").is_none());
    assert_eq!(extension("./a.ts").as_deref(), Some("ts"));
}
