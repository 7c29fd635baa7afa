use carrick::cloud_storage::CloudRepoData;
use carrick::file_analysis::{
    DataCallResult, EndpointResult, FileAnalysisResult, FileResult, MountResult,
};
use carrick::framework_detector::DetectionResult;
use carrick::hashing::hash_file_content;
use carrick::incremental::{
    can_use_incremental, diff_failure_warning, files_to_analyze, fill_cache,
    hash_workspace_package_jsons, merge_file_results, normalize_file_results_keys,
    parse_changed_files, plan_guidance, strip_diagnostic_fields, GuidancePlan, CACHE_VERSION,
};
use carrick::packages::Packages;

fn make_file_result(endpoints: Vec<&str>, data_calls: Vec<&str>) -> FileAnalysisResult {
    FileAnalysisResult {
        graphql_consumer_locates: vec![],
        mounts: vec![],
        endpoints: endpoints
            .into_iter()
            .map(|path| EndpointResult {
                candidate_id: "cand_123".to_string(),
                line_number: 10,
                owner_node: "app".to_string(),
                method: "GET".to_string(),
                path: path.to_string(),
                handler_name: "handler".to_string(),
                pattern_matched: "app.get(...)".to_string(),
                call_expression_span_start: Some(100),
                call_expression_span_end: Some(200),
                payload_expression_text: Some("req.body".to_string()),
                payload_expression_line: Some(11),
                response_expression_text: Some("res.json(data)".to_string()),
                response_expression_line: Some(12),
                emission_style: None,
                primary_type_symbol: None,
                type_import_source: None,
            })
            .collect(),
        data_calls: data_calls
            .into_iter()
            .map(|target| DataCallResult {
                call_kind: None,
                candidate_id: "cand_456".to_string(),
                line_number: 20,
                target: target.to_string(),
                method: Some("GET".to_string()),
                pattern_matched: "fetch(...)".to_string(),
                call_expression_span_start: Some(300),
                call_expression_span_end: Some(400),
                call_expression_text: Some("fetch('/api')".to_string()),
                call_expression_line: Some(21),
                payload_expression_text: Some("body".to_string()),
                payload_expression_line: Some(22),
                primary_type_symbol: None,
                type_import_source: None,
            })
            .collect(),
        graphql_operations: vec![],
        pubsub_operations: vec![],
    }
}

fn file(path: &str, endpoint: &str) -> FileResult {
    FileResult { path: path.to_string(), result: make_file_result(vec![endpoint], vec![]) }
}

fn find<'a>(results: &'a Vec<FileResult>, path: &str) -> Option<&'a FileAnalysisResult> {
    results.iter().find(|r| r.path == path).map(|r| &r.result)
}

fn texts(list: &[&str]) -> Vec<String> {
    list.iter().map(|s| s.to_string()).collect()
}

#[test]
fn test_hash_file_content_deterministic() {
    let hash1 = hash_file_content("hello world");
    let hash2 = hash_file_content("hello world");
    assert_eq!(hash1, hash2);

    let hash3 = hash_file_content("different content");
    assert_ne!(hash1, hash3);
}

#[test]
fn hash_of_a_known_text() {
    assert_eq!(
        hash_file_content("hello world"),
        "b94d27b9934d3e08a52e52d7da7dabfac484efe37a5380ee9088f7ace2efcde9"
    );
    assert_eq!(hash_file_content("").len(), 64);
}

#[test]
fn test_normalize_file_results_keys_absolute_path() {
    let results = vec![
        file("/home/user/repo/src/app.ts", "/api/users"),
        file("/home/user/repo/src/routes.ts", "/api/posts"),
    ];

    let normalized = normalize_file_results_keys(results, "/home/user/repo");

    assert!(find(&normalized, "src/app.ts").is_some());
    assert!(find(&normalized, "src/routes.ts").is_some());
    assert_eq!(normalized.len(), 2);
}

#[test]
fn test_normalize_file_results_keys_dot_prefix() {
    let normalized =
        normalize_file_results_keys(vec![file("./src/app.ts", "/api/users")], ".");

    assert!(find(&normalized, "src/app.ts").is_some());
}

#[test]
fn test_normalize_file_results_keys_already_relative() {
    let normalized =
        normalize_file_results_keys(vec![file("src/app.ts", "/api/users")], "/some/other/path");

    // Key doesn't match prefix, should be kept as-is
    assert!(find(&normalized, "src/app.ts").is_some());
}

#[test]
fn colliding_keys_leave_one_result() {
    let results = vec![file("./a.ts", "/old"), file("a.ts", "/new"), file("/r/a.ts", "/newest")];
    let normalized = normalize_file_results_keys(results, "/r/");
    assert_eq!(normalized.len(), 1);
    assert_eq!(find(&normalized, "a.ts").unwrap().endpoints[0].path, "/newest");
}

#[test]
fn test_strip_diagnostic_fields() {
    let mut result = make_file_result(vec!["/api/users"], vec!["/api/posts"]);
    result.mounts.push(MountResult {
        line_number: 5,
        parent_node: "app".to_string(),
        child_node: "router".to_string(),
        mount_path: "/api".to_string(),
        import_source: Some("./routes".to_string()),
        pattern_matched: "app.use('/api', router)".to_string(),
    });
    let mut results = vec![FileResult { path: "src/app.ts".to_string(), result }];

    strip_diagnostic_fields(&mut results);

    let result = find(&results, "src/app.ts").unwrap();

    // Endpoint diagnostic fields should be cleared
    assert_eq!(result.endpoints[0].candidate_id, "");
    assert_eq!(result.endpoints[0].pattern_matched, "");
    assert!(result.endpoints[0].payload_expression_text.is_none());
    // The response expression text is load-bearing for cached replays.
    assert_eq!(
        result.endpoints[0].response_expression_text.as_deref(),
        Some("res.json(data)")
    );
    // Non-diagnostic fields should be preserved
    assert_eq!(result.endpoints[0].path, "/api/users");
    assert_eq!(result.endpoints[0].method, "GET");
    assert_eq!(result.endpoints[0].handler_name, "handler");
    assert_eq!(result.endpoints[0].line_number, 10);

    // Data call diagnostic fields should be cleared
    assert_eq!(result.data_calls[0].candidate_id, "");
    assert_eq!(result.data_calls[0].pattern_matched, "");
    assert!(result.data_calls[0].call_expression_text.is_none());
    assert!(result.data_calls[0].payload_expression_text.is_none());
    // Non-diagnostic fields preserved
    assert_eq!(result.data_calls[0].target, "/api/posts");

    // Mount diagnostic fields should be cleared
    assert_eq!(result.mounts[0].pattern_matched, "");
    // Non-diagnostic fields preserved
    assert_eq!(result.mounts[0].mount_path, "/api");
    assert_eq!(result.mounts[0].parent_node, "app");
}

#[test]
fn test_file_results_merge_handles_deletes_and_additions() {
    // Previous run had files A, B, C; the current run discovers A, B, D
    // (C deleted, D new), and B has changed.
    let prev_results =
        vec![file("src/a.ts", "/api/a"), file("src/b.ts", "/api/b"), file("src/c.ts", "/api/c")];
    let files = texts(&["/repo/src/a.ts", "./src/b.ts", "src/d.ts"]);
    let changed = texts(&["src/b.ts"]);

    assert_eq!(
        files_to_analyze(&files, &changed, &prev_results, "/repo"),
        texts(&["./src/b.ts", "src/d.ts"])
    );

    let new_results = vec![file("src/b.ts", "/api/b_v2"), file("src/d.ts", "/api/d")];
    let merged = merge_file_results(prev_results, new_results, &files, &changed, "/repo");

    assert_eq!(merged.len(), 3, "Should have A (cached), B (fresh), D (new)");
    assert!(find(&merged, "src/a.ts").is_some(), "A should be cached");
    assert!(find(&merged, "src/b.ts").is_some(), "B should be fresh");
    assert!(find(&merged, "src/d.ts").is_some(), "D should be new");
    assert!(find(&merged, "src/c.ts").is_none(), "C should be deleted");

    // A should have old data
    assert_eq!(find(&merged, "src/a.ts").unwrap().endpoints[0].path, "/api/a");
    // B should have new data
    assert_eq!(find(&merged, "src/b.ts").unwrap().endpoints[0].path, "/api/b_v2");
    // D should have new data
    assert_eq!(find(&merged, "src/d.ts").unwrap().endpoints[0].path, "/api/d");
}

#[test]
fn a_changed_file_does_not_keep_its_cached_result() {
    let merged = merge_file_results(
        vec![file("a.ts", "/a"), file("b.ts", "/b")],
        vec![],
        &texts(&["a.ts", "b.ts"]),
        &texts(&["b.ts"]),
        "/repo",
    );
    assert_eq!(merged.len(), 1);
    assert!(find(&merged, "a.ts").is_some());
}

#[test]
fn only_changed_sources_are_listed() {
    let stdout = "app.ts\nnew.tsx\r\nreadme.md\n\nlib/x.js\nMakefile\n.ts\ny.jsx";
    assert_eq!(
        parse_changed_files(stdout),
        texts(&["app.ts", "new.tsx", "lib/x.js", "y.jsx"])
    );
    assert!(parse_changed_files("").is_empty());
}

#[test]
fn a_failed_diff_says_why() {
    assert!(diff_failure_warning(true, "abc", "x").contains("shallow clone"));
    assert_eq!(
        diff_failure_warning(false, "abc", " fatal: bad object \n"),
        "Incremental mode unavailable: git diff against abc failed (fatal: bad object). Falling back to full analysis."
    );
}

#[test]
fn the_cache_is_used_only_if_it_is_of_this_version() {
    assert!(!can_use_incremental(None));
    let mut data = CloudRepoData::bare("r", None, "c");
    assert!(!can_use_incremental(Some(&data)));
    data.file_results = Some(vec![]);
    assert!(!can_use_incremental(Some(&data)));
    data.cache_version = Some(CACHE_VERSION - 1);
    assert!(!can_use_incremental(Some(&data)));
    data.cache_version = Some(CACHE_VERSION);
    assert!(can_use_incremental(Some(&data)));
}

#[test]
fn what_a_run_caches_the_next_run_uses() {
    let mut data = CloudRepoData::bare("r", None, "c");
    fill_cache(
        &mut data,
        vec![file("a.ts", "/a")],
        DetectionResult {
            frameworks: texts(&["express"]),
            data_fetchers: vec![],
            messaging_clients: vec![],
            notes: String::new(),
        },
        "guidance".to_string(),
        None,
        "hash".to_string(),
    );
    assert!(can_use_incremental(Some(&data)));
    assert_eq!(plan_guidance(&data, "hash"), GuidancePlan::ReuseWithoutRules);
    assert_eq!(plan_guidance(&data, "other"), GuidancePlan::Renew);
    data.cached_extraction_config = Some("{}".to_string());
    assert_eq!(plan_guidance(&data, "hash"), GuidancePlan::Reuse);
    data.cached_guidance = None;
    assert_eq!(plan_guidance(&data, "hash"), GuidancePlan::Renew);
    assert_eq!(data.repo_name, "r");
}

#[test]
fn the_workspace_hash_covers_every_manifest() {
    let mut packages = Packages::empty();
    packages.source_paths = texts(&["/repo/packages/b/package.json", "/repo/package.json"]);
    let contents = vec![Some("{\"b\":1}".to_string()), Some("{}".to_string())];
    let hash = hash_workspace_package_jsons(&packages, &contents, "/repo");
    assert_eq!(
        hash,
        hash_file_content("package.json\0{}\0packages/b/package.json\0{\"b\":1}\0")
    );
    // The order in which the manifests are found does not matter.
    let mut swapped = Packages::empty();
    swapped.source_paths = texts(&["/repo/package.json", "/repo/packages/b/package.json"]);
    let contents = vec![Some("{}".to_string()), Some("{\"b\":1}".to_string())];
    assert_eq!(hash_workspace_package_jsons(&swapped, &contents, "/repo"), hash);
    // A change in a workspace member changes it.
    let contents = vec![Some("{}".to_string()), Some("{\"b\":2}".to_string())];
    assert_ne!(hash_workspace_package_jsons(&swapped, &contents, "/repo"), hash);
}

#[test]
fn manifests_in_the_same_place_are_ordered_by_their_paths() {
    let mut packages = Packages::empty();
    packages.source_paths = texts(&["repo/a", "a"]);
    let contents = vec![Some("1".to_string()), Some("2".to_string())];
    let hash = hash_workspace_package_jsons(&packages, &contents, "repo");
    assert_eq!(hash, hash_file_content("a\x002\0a\x001\0"));
    packages.source_paths = texts(&["a", "repo/a"]);
    let contents = vec![Some("2".to_string()), Some("1".to_string())];
    assert_eq!(hash_workspace_package_jsons(&packages, &contents, "repo"), hash);
}

#[test]
fn the_hash_does_not_depend_on_the_order_of_listing() {
    let list = |paths: &[&str]| {
        let mut packages = Packages::empty();
        packages.source_paths = texts(paths);
        let contents = paths.iter().map(|p| Some(format!("<{}>", p))).collect();
        hash_workspace_package_jsons(&packages, &contents, "/repo")
    };
    let hash = list(&["/repo/a", "/repo/./b", "/other/c"]);
    assert_eq!(hash, hash_file_content("/other/c\0</other/c>\0a\0</repo/a>\0b\0</repo/./b>\0"));
    assert_eq!(list(&["/other/c", "/repo/./b", "/repo/a"]), hash);
}
