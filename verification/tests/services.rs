use carrick::cloud_data::{merge_serialized_packages, relativize_function_definition_paths};
use carrick::cloud_storage::{FunctionCallRef, FunctionDefinition};
use carrick::config::{
    load_packages_for_service, require_sources, resolve_services, service_graphql_roots,
    service_ignore_patterns, service_scan_root, sidecar_scope, Config, DeclaredPaths,
    FoundManifest,
};
use carrick::packages::Packages;

fn service(directory: &str, includes: &[&str]) -> Config {
    Config {
        service_name: Some("api".to_string()),
        directory: Some(directory.to_string()),
        includes: includes.iter().map(|s| s.to_string()).collect(),
        ..Config::default()
    }
}

#[test]
fn service_scan_root_joins_declared_directory() {
    let flat = Config::default();
    assert_eq!(service_scan_root("/repo", &flat), "/repo");

    let service = Config { directory: Some("apps/web".to_string()), ..Config::default() };
    assert_eq!(service_scan_root("/repo", &service), "/repo/apps/web");
}

#[test]
fn cloud_projection_relativizes_function_paths() {
    let repo_path = "/home/runner/work/acme/acme";
    let mut defs = vec![
        FunctionDefinition {
            name: "handler".to_string(),
            file_path: "/home/runner/work/acme/acme/src/api/handler.ts".to_string(),
            is_exported: true,
            line_number: 3,
            intent: Some("handles the thing".to_string()),
            calls: vec![FunctionCallRef {
                name: "helper".to_string(),
                file_path: "/home/runner/work/acme/acme/src/lib/helper.ts".to_string(),
                line_number: 9,
            }],
            signature: Some(
                "(req: import(\"/home/runner/work/acme/acme/src/types\").Req) => void".to_string(),
            ),
            intent_input_hash: None,
        },
        // A path outside the repo root is left as-is.
        FunctionDefinition {
            name: "external".to_string(),
            file_path: "/opt/other/place.ts".to_string(),
            is_exported: true,
            line_number: 1,
            intent: None,
            calls: vec![],
            signature: None,
            intent_input_hash: None,
        },
    ];

    relativize_function_definition_paths(&mut defs, repo_path);

    assert_eq!(defs[0].file_path, "src/api/handler.ts");
    assert_eq!(defs[0].calls[0].file_path, "src/lib/helper.ts");
    assert_eq!(
        defs[0].signature.as_deref(),
        Some("(req: import(\"src/types\").Req) => void"),
    );
    assert_eq!(defs[1].file_path, "/opt/other/place.ts");
}

#[test]
fn resolve_services_without_config_defaults_to_single_service() {
    let services = resolve_services("/repo", None, &vec![]).unwrap();
    assert_eq!(services.len(), 1);
    assert!(services[0].directory.is_none());
}

#[test]
fn an_empty_declaration_is_a_single_service() {
    let services = resolve_services("/repo", Some(Ok(vec![])), &vec![]).unwrap();
    assert_eq!(services.len(), 1);
    assert!(services[0].service_name.is_none());
}

#[test]
fn resolve_services_rejects_malformed_config() {
    let err = resolve_services("/repo", Some(Err("expected value".to_string())), &vec![])
        .unwrap_err();
    assert!(err.contains("Failed to parse"), "expected parse error, got: {err}");
    assert_eq!(
        err,
        "Failed to parse /repo/carrick.json: expected value. Fix the config or delete it to scan the repo as a single zero-config service."
    );
}

#[test]
fn resolve_services_rejects_missing_service_directory() {
    let err = resolve_services(
        "/repo",
        Some(Ok(vec![service("does-not-exist", &[])])),
        &vec![DeclaredPaths { directory: false, includes: vec![] }],
    )
    .unwrap_err();
    assert!(
        err.contains("does-not-exist") && err.contains("does not exist"),
        "expected missing-directory error, got: {err}"
    );
    assert_eq!(
        err,
        "Service 'api' in /repo/carrick.json declares directory 'does-not-exist', which does not exist under '/repo'"
    );
}

#[test]
fn resolve_services_rejects_missing_include_path() {
    let err = resolve_services(
        "/repo",
        Some(Ok(vec![service("svc", &["shared"])])),
        &vec![DeclaredPaths { directory: true, includes: vec![false] }],
    )
    .unwrap_err();
    assert!(err.contains("include path 'shared'"), "expected missing-include error, got: {err}");
}

#[test]
fn resolve_services_accepts_valid_service_paths() {
    let services = resolve_services(
        "/repo",
        Some(Ok(vec![service("svc", &["shared"])])),
        &vec![DeclaredPaths { directory: true, includes: vec![true] }],
    )
    .unwrap();
    assert_eq!(services.len(), 1);
    assert_eq!(services[0].directory.as_deref(), Some("svc"));
}

#[test]
fn the_first_wrong_service_is_reported() {
    let err = resolve_services(
        "/repo",
        Some(Ok(vec![service("a", &["x", "y"]), service("b", &[])])),
        &vec![
            DeclaredPaths { directory: true, includes: vec![true, false] },
            DeclaredPaths { directory: false, includes: vec![] },
        ],
    )
    .unwrap_err();
    assert!(err.contains("include path 'y'"));
}

#[test]
fn load_packages_rejects_malformed_package_json() {
    let found = FoundManifest {
        path: "/repo/package.json".to_string(),
        read: Err("key must be a string".to_string()),
    };
    let err = load_packages_for_service(Some(found), vec![]).unwrap_err();
    assert!(err.contains("Failed to parse"), "expected parse error, got: {err}");
    assert_eq!(err, "Failed to parse /repo/package.json: key must be a string");
}

#[test]
fn load_packages_missing_package_json_defaults_to_empty() {
    let packages = load_packages_for_service(None, vec!["own".to_string()]).unwrap();
    assert!(packages.merged_dependencies.is_empty());
    assert_eq!(packages.internal_names, vec!["own".to_string()]);
}

#[test]
fn discovery_rejects_service_with_no_source_files() {
    let err = require_sources(&vec![], &Config::default(), "/repo").unwrap_err();
    assert!(err.contains("No JS/TS source files"), "expected empty-scan error, got: {err}");
    assert_eq!(
        err,
        "No JS/TS source files found under repository root in '/repo'. Check the scan path and the directory/include entries in carrick.json."
    );
    let err = require_sources(&vec![], &service("svc", &[]), "/repo").unwrap_err();
    assert!(err.contains("service directory 'svc'"));
    assert!(require_sources(&vec!["a.ts".to_string()], &Config::default(), "/repo").is_ok());
}

#[test]
fn schema_roots_are_the_root_and_what_is_included() {
    assert_eq!(
        service_graphql_roots("/repo", &service("svc", &["shared", "/abs"])),
        vec!["/repo/svc".to_string(), "/repo/shared".to_string(), "/abs".to_string()]
    );
    assert_eq!(service_graphql_roots("/repo", &Config::default()), vec!["/repo".to_string()]);
}

#[test]
fn the_bundled_checker_is_skipped_only_for_the_whole_repository() {
    let whole = service_ignore_patterns(&Config::default());
    assert_eq!(whole, vec!["node_modules", "dist", "build", ".next", "ts_check"]);
    let declared = service_ignore_patterns(&service("ts_check", &[]));
    assert!(!declared.contains(&"ts_check".to_string()));
}

#[test]
fn the_sidecar_is_scoped_only_to_part_of_a_repository() {
    assert!(sidecar_scope("/repo", &Config::default()).is_none());
    let scope = sidecar_scope("/repo", &service("svc", &[])).unwrap();
    assert_eq!(scope.root, "/repo/svc");
    assert_eq!(scope.label, "api");
    let only_tsconfig =
        Config { tsconfig: Some("tsconfig.app.json".to_string()), ..Config::default() };
    let scope = sidecar_scope("/repo", &only_tsconfig).unwrap();
    assert_eq!(scope.root, "/repo");
    assert_eq!(scope.label, "(root)");
    assert_eq!(scope.tsconfig.as_deref(), Some("tsconfig.app.json"));
}

#[test]
fn test_merge_serialized_data() {
    let merged = merge_serialized_packages(vec![None]);
    assert!(merged.package_jsons.is_empty());
    assert!(merge_serialized_packages(vec![]).merged_dependencies.is_empty());
    let mut first = Packages::empty();
    first.internal_names.push("first".to_string());
    let mut second = Packages::empty();
    second.internal_names.push("second".to_string());
    let merged = merge_serialized_packages(vec![None, Some(first), Some(second)]);
    assert_eq!(merged.internal_names, vec!["first".to_string()]);
}
