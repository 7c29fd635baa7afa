//! Anchors, pairs and verdicts across services.

use carrick::cloud_data::{
    aliases_wanted, apply_type_resolution,
    build_cloud_data_from_mount_graph, complete_bundle, resolve_per_endpoint_definitions,
    set_type_manifest, ResolutionOutcome,
};
use carrick::cloud_storage::{
    CaptureStubArtifact, CloudRepoData, InferKind, ManifestRole, ManifestTypeKind,
    ManifestTypeState, TypeEvidence, TypeManifestEntry, CAPTURE_ARTIFACT_VERSION,
};
use carrick::mount_graph::{MountEdge, MountGraph};
use carrick::naming::{sanitize, unique_stems};
use carrick::operation::{GraphqlOperationKind, OperationKey, SocketDirection};
use carrick::packages::Packages;
use carrick::sorting::{sort_by_key, sort_distinct};
use carrick::type_compat_v2::{
    build_check_pairs, check_outcomes, derive_capture_anchors, is_param, join_identity,
    match_score, normalize_match_path, paths_match, plan_stubs, probing_specs, repo_relative,
    BuiltPair,
};
use carrick::type_sidecar::{
    CaptureAnchor, CheckReply, CheckVerdict, InferRequestItem, InferredType, InlineAlias,
    ProbeProtocol, ProbeTypeKind, ResolvedDefinition, SymbolRequest, TypeResolutionResult,
    VerdictBucket,
};

fn entry(key: OperationKey, role: ManifestRole, alias: &str) -> TypeManifestEntry {
    TypeManifestEntry {
        key,
        role,
        type_kind: ManifestTypeKind::Response,
        type_alias: alias.to_string(),
        file_path: "src/a.ts".to_string(),
        line_number: 7,
        is_explicit: true,
        type_state: ManifestTypeState::Explicit,
        evidence: TypeEvidence {
            file_path: "src/a.ts".to_string(),
            span_start: None,
            span_end: None,
            line_number: 7,
            infer_kind: InferKind::CallResult,
            is_explicit: true,
            type_state: ManifestTypeState::Explicit,
        },
        resolved_definition: None,
        expanded_definition: None,
        primary_type_symbol: None,
    }
}

fn stub(version: u32) -> CaptureStubArtifact {
    CaptureStubArtifact {
        artifact_version: version,
        package_name: "stub".to_string(),
        ts_version: "5.0.0".to_string(),
        bare_checkout: false,
        files: vec![],
    }
}

fn service(name: &str, entries: Vec<TypeManifestEntry>) -> CloudRepoData {
    let mut data = CloudRepoData::bare(name, None, "hash");
    data.type_manifest = Some(entries);
    data.capture_stub = Some(stub(CAPTURE_ARTIFACT_VERSION));
    data
}

fn producer(path: &str, alias: &str) -> TypeManifestEntry {
    entry(OperationKey::http("GET", path), ManifestRole::Producer, alias)
}

fn consumer(path: &str, alias: &str) -> TypeManifestEntry {
    entry(OperationKey::http("get", path), ManifestRole::Consumer, alias)
}

fn keys(pairs: &Vec<BuiltPair>) -> Vec<&str> {
    pairs.iter().map(|p| p.spec.pair_key.as_str()).collect()
}

fn symbol_request(name: &str, file: &str, alias: Option<&str>, depth: Option<u32>) -> SymbolRequest {
    SymbolRequest {
        symbol_name: name.to_string(),
        source_file: file.to_string(),
        alias: alias.map(|s| s.to_string()),
        array_depth: depth,
    }
}

fn infer_request(alias: &str, line: u32, expression_line: Option<u32>) -> InferRequestItem {
    InferRequestItem {
        file_path: "/repo/src/b.ts".to_string(),
        line_number: line,
        span_start: Some(3),
        span_end: Some(9),
        expression_text: Some("await f()".to_string()),
        expression_line,
        infer_kind: InferKind::CallResult,
        param_name: None,
        alias: Some(alias.to_string()),
    }
}

fn inline(alias: &str, text: &str) -> InlineAlias {
    InlineAlias { alias: alias.to_string(), type_text: text.to_string() }
}

fn verdict(key: &str, bucket: VerdictBucket) -> CheckVerdict {
    CheckVerdict {
        pair_key: key.to_string(),
        bucket,
        gate: Some("G1".to_string()),
        diagnostic: Some("why".to_string()),
    }
}

#[test]
fn paths_are_taken_relative_to_the_repository() {
    assert_eq!(repo_relative("/repo/src/a.ts", "/repo/"), "src/a.ts");
    assert_eq!(repo_relative("/repository/a.ts", "/repo"), "/repository/a.ts");
    assert_eq!(repo_relative("./src/a.ts", "."), "src/a.ts");
    assert_eq!(repo_relative("src/a.ts", ""), "src/a.ts");
}

#[test]
fn an_alias_has_one_anchor_and_symbols_come_first() {
    let anchors = derive_capture_anchors(
        &vec![
            symbol_request("User", "/repo/src/a.ts", Some("A"), Some(1)),
            symbol_request("Other", "/repo/src/a.ts", Some("A"), None),
            symbol_request("NoAlias", "/repo/src/a.ts", None, None),
            symbol_request("Flat", "/repo/src/a.ts", Some("F"), Some(0)),
        ],
        &vec![infer_request("A", 4, None), infer_request("B", 4, Some(0)), infer_request("C", 0, Some(6))],
        &vec![inline("B", "string"), inline("D", "  "), inline("E", "number")],
        "/repo",
    );
    let aliases: Vec<&str> = anchors.iter().map(|a| a.alias().as_str()).collect();
    assert_eq!(aliases, vec!["A", "F", "B", "C", "E"]);
    assert!(matches!(
        &anchors[0],
        CaptureAnchor::Symbol { symbol_name, source_file, array_depth: Some(1), .. }
            if symbol_name == "User" && source_file == "src/a.ts"
    ));
    assert!(matches!(&anchors[1], CaptureAnchor::Symbol { array_depth: None, .. }));
    assert!(matches!(&anchors[2], CaptureAnchor::Infer { line_number: Some(4), span_start: Some(3), .. }));
    assert!(matches!(&anchors[3], CaptureAnchor::Infer { line_number: Some(6), .. }));
    assert!(matches!(&anchors[4], CaptureAnchor::Literal { type_text, .. } if type_text == "number"));
}

#[test]
fn routes_match_across_parameter_syntaxes() {
    assert_eq!(normalize_match_path("Users//{id}/"), "/users/:param");
    assert_eq!(normalize_match_path(""), "/");
    assert!(is_param(":id") && is_param("{id}") && is_param("[id]") && is_param("x${id}"));
    assert!(!is_param("id") && !is_param(""));
    assert!(paths_match("/users/:id", "/Users/[userId]/"));
    assert!(paths_match("/users/:id", "/users/me"));
    assert!(paths_match("/users/me", "/users/:id"));
    assert!(!paths_match("/users/:id", "/users"));
    assert!(!paths_match("/users/:id", "/orders/1"));
    assert_eq!(match_score("/users/me", "/users/me"), 100);
    assert_eq!(match_score("/users/:id", "/users/{id}"), 95);
    assert_eq!(match_score("/users/:id", "/users/me"), 90);
}

#[test]
fn operations_are_joined_by_method_and_identity() {
    let joined = |key: OperationKey| join_identity(&key);
    assert_eq!(joined(OperationKey::http("get", "/a")), ("GET".to_string(), "/a".to_string()));
    assert_eq!(
        joined(OperationKey::graphql(GraphqlOperationKind::Query, "me")).0,
        "GRAPHQL".to_string()
    );
    assert_eq!(
        joined(OperationKey::socket("tick", SocketDirection::ServerToClient)).0,
        "SOCKET".to_string()
    );
    assert_eq!(
        joined(OperationKey::pubsub("orders")),
        ("PUBSUB".to_string(), "orders".to_string())
    );
}

#[test]
fn the_most_specific_producer_is_paired() {
    let repos = vec![
        service("api", vec![producer("/users/:id", "P1"), producer("/users/me", "P2")]),
        service("web", vec![consumer("/users/me", "C1"), consumer("/users/${x}", "C2")]),
    ];
    let pairs = build_check_pairs(&repos);
    assert_eq!(keys(&pairs), vec!["api/P1~web/C2", "api/P2~web/C1"]);
    assert_eq!(pairs[1].spec.protocol, ProbeProtocol::Http);
    assert_eq!(pairs[1].spec.type_kind, ProbeTypeKind::Response);
    assert_eq!(pairs[1].consumer_line, 7);
    assert_eq!(pairs[1].pseudo_method, "GET");
    assert!(pairs[1].pre_verdict.is_none());
}

#[test]
fn a_service_is_not_its_own_consumer() {
    let repos = vec![service("api", vec![producer("/a", "P"), consumer("/a", "C")])];
    assert!(build_check_pairs(&repos).is_empty());
}

#[test]
fn pairs_come_once_and_in_the_order_of_their_keys() {
    let repos = vec![
        service("web", vec![consumer("/a", "C"), consumer("/a", "C"), consumer("/a", "B")]),
        service("api", vec![producer("/a", "P")]),
    ];
    assert_eq!(keys(&build_check_pairs(&repos)), vec!["api/P~web/B", "api/P~web/C"]);
}

#[test]
fn topics_are_probed_in_both_directions() {
    let repos = vec![
        service("a", vec![entry(OperationKey::pubsub("t"), ManifestRole::Producer, "P")]),
        service("b", vec![entry(OperationKey::pubsub("t"), ManifestRole::Consumer, "C")]),
        service("c", vec![entry(OperationKey::pubsub("u"), ManifestRole::Consumer, "C")]),
    ];
    let pairs = build_check_pairs(&repos);
    assert_eq!(keys(&pairs), vec!["a/P~b/C"]);
    assert_eq!(pairs[0].spec.type_kind, ProbeTypeKind::Both);
}

#[test]
fn pairs_without_surface_or_type_are_decided_beforehand() {
    let reason = |repos: &Vec<CloudRepoData>| match &build_check_pairs(repos)[0].pre_verdict {
        Some((bucket, reason)) => {
            assert_eq!(*bucket, VerdictBucket::Unverifiable);
            reason.clone()
        }
        None => String::new(),
    };
    let mut repos = vec![
        service("api", vec![producer("/a", "P")]),
        service("web", vec![consumer("/a", "C")]),
    ];
    assert_eq!(reason(&repos), "");
    repos[1].type_manifest = Some(vec![{
        let mut e = consumer("/a", "C");
        e.type_state = ManifestTypeState::Unknown;
        e
    }]);
    assert_eq!(reason(&repos), "consumer type was not resolved at capture time");
    repos[1].capture_stub = Some(stub(CAPTURE_ARTIFACT_VERSION + 1));
    assert_eq!(
        reason(&repos),
        "consumer service 'web' has no v2 type surface (older scan or capture degraded) — re-scan it"
    );
    repos[0].capture_stub = None;
    assert_eq!(
        reason(&repos),
        "producer service 'api' has no v2 type surface (older scan or capture degraded) — re-scan it"
    );
    assert!(probing_specs(&build_check_pairs(&repos)).is_empty());
}

#[test]
fn verdicts_are_joined_to_their_pairs() {
    let mut old = service("old", vec![consumer("/a", "C")]);
    old.capture_stub = None;
    let repos = vec![
        service("api", vec![producer("/a", "P"), producer("/b", "Q")]),
        service("web", vec![consumer("/a", "C"), consumer("/b", "D")]),
        old,
    ];
    let pairs = build_check_pairs(&repos);
    let probes = probing_specs(&pairs);
    assert_eq!(probes.len(), 2);
    let reply = CheckReply::Verdicts(vec![
        verdict("api/P~web/C", VerdictBucket::Incompatible),
        verdict("api/P~web/C", VerdictBucket::Compatible),
    ]);
    let outcomes = check_outcomes(&pairs, &reply);
    let shown: Vec<(&str, VerdictBucket, Option<&str>)> = outcomes
        .iter()
        .map(|o| (o.pair_key.as_str(), o.bucket, o.diagnostic.as_deref()))
        .collect();
    assert_eq!(
        shown,
        vec![
            (
                "api/P~old/C",
                VerdictBucket::Unverifiable,
                Some("consumer service 'old' has no v2 type surface (older scan or capture degraded) — re-scan it")
            ),
            ("api/P~web/C", VerdictBucket::Compatible, Some("why")),
            (
                "api/Q~web/D",
                VerdictBucket::Unverifiable,
                Some("the check returned no verdict for this pair")
            ),
        ]
    );
    let failed = check_outcomes(&pairs, &CheckReply::Failed("timeout".to_string()));
    assert_eq!(failed[1].bucket, VerdictBucket::Unverifiable);
    assert_eq!(failed[1].diagnostic.as_deref(), Some("type check did not run: timeout"));
    assert!(failed[1].gate.is_none());
}

#[test]
fn only_current_surfaces_are_laid_out() {
    let mut stale = service("stale", vec![]);
    stale.capture_stub = Some(stub(CAPTURE_ARTIFACT_VERSION + 1));
    let repos = vec![service("@acme/api", vec![]), stale, service("@acme/api", vec![])];
    let plan = plan_stubs(&repos, "/tmp/stubs");
    assert_eq!(plan.len(), 2);
    assert_eq!((plan[0].position, plan[1].position), (0, 2));
    assert_eq!(plan[0].service_name, "@acme/api");
    assert_ne!(plan[0].stub_dir, plan[1].stub_dir);
    assert!(plan[0].stub_dir.starts_with("/tmp/stubs/"));
}

#[test]
fn names_are_made_safe_and_unique() {
    assert_eq!(sanitize("@acme/api\\v1"), "@acme_api_v1");
    let stems = unique_stems(&vec!["a".to_string(), "b".to_string(), "a".to_string()]);
    assert_eq!(stems[0], "a");
    assert_eq!(stems[1], "b");
    assert_eq!(stems[2], "a_1");
}

#[test]
fn texts_are_sorted_and_kept_once() {
    let items = vec!["b".to_string(), "a".to_string(), "b".to_string(), "B".to_string()];
    assert_eq!(
        sort_distinct(items),
        vec!["B".to_string(), "a".to_string(), "b".to_string()]
    );
    let pairs = build_check_pairs(&vec![
        service("web", vec![consumer("/a", "C"), consumer("/a", "B")]),
        service("api", vec![producer("/a", "P")]),
    ]);
    assert_eq!(keys(&sort_by_key(pairs)), vec!["api/P~web/B", "api/P~web/C"]);
}

#[test]
fn a_record_takes_its_name_from_the_configuration() {
    let mount = MountEdge {
        parent: "app".to_string(),
        child: "router".to_string(),
        path_prefix: "/api".to_string(),
    };
    let graph = MountGraph { endpoints: vec![], data_calls: vec![], mounts: vec![mount] };
    let record = |config: Option<&str>| {
        build_cloud_data_from_mount_graph(
            "repo",
            "/repo",
            graph.clone(),
            (vec![], vec![]),
            config.map(|s| s.to_string()),
            None,
            Packages::empty(),
            vec![],
            "2026-01-02T03:04:05Z",
            "abc",
        )
    };
    assert_eq!(record(Some("{\"serviceName\":\"orders\"}")).service_name.as_deref(), Some("orders"));
    assert!(record(Some("{\"serviceName\":7}")).service_name.is_none());
    assert!(record(Some("not json")).service_name.is_none());
    assert!(record(None).service_name.is_none());
    assert_eq!(record(None).service_id(), "repo");
    assert_eq!(record(None).commit_hash, "abc");
    assert_eq!(record(None).last_updated, "2026-01-02T03:04:05Z");
    assert_eq!(record(None).mount_graph.expect("a graph").mounts[0].path_prefix, "/api");
    assert_eq!(record(None).mounts[0].prefix, "/api");
}

#[test]
fn resolution_says_why_it_did_not_run() {
    let status = |outcome: ResolutionOutcome, configured: bool| {
        let mut data = service("s", vec![]);
        apply_type_resolution(&mut data, &outcome, configured);
        data.type_extraction_status
    };
    let resolved = || ResolutionOutcome::Resolved(TypeResolutionResult {
        dts_content: Some("export type A = string;".to_string()),
        explicit_manifest: vec![],
        inferred_types: vec![],
    });
    assert_eq!(
        status(ResolutionOutcome::Unavailable, true).as_deref(),
        Some("type extraction skipped: sidecar unavailable (not found, failed to start, or failed to initialize)")
    );
    assert_eq!(
        status(ResolutionOutcome::NotReady("late".to_string()), true).as_deref(),
        Some("type extraction skipped: sidecar not ready: late")
    );
    assert_eq!(
        status(ResolutionOutcome::Failed("crash".to_string()), true).as_deref(),
        Some("type resolution failed: crash")
    );
    assert!(status(resolved(), true).is_none());
    assert!(status(resolved(), false).is_some());
}

#[test]
fn a_resolved_record_has_its_bundle_completed() {
    let mut unknown = consumer("/a", "Known");
    unknown.type_state = ManifestTypeState::Unknown;
    unknown.is_explicit = false;
    let mut data = service("s", vec![unknown, consumer("/b", "Missing")]);
    apply_type_resolution(
        &mut data,
        &ResolutionOutcome::Resolved(TypeResolutionResult {
            dts_content: Some("export type Known = { id: string };\n".to_string()),
            explicit_manifest: vec![],
            inferred_types: vec![InferredType {
                alias: "Known".to_string(),
                type_string: "{ id: string }".to_string(),
                is_explicit: false,
                primary_type_symbol: Some("KnownType".to_string()),
            }],
        }),
        true,
    );
    complete_bundle(&mut data);
    let bundle = data.bundled_types.clone().expect("a bundle");
    assert!(bundle.starts_with("export type Known = { id: string };\n"));
    assert!(bundle.contains("export type Missing = unknown;"));

    let wanted = aliases_wanted(&data);
    assert!(wanted.contains(&"Known".to_string()));
    resolve_per_endpoint_definitions(
        &mut data,
        &vec![ResolvedDefinition {
            type_alias: "Known".to_string(),
            definition: "KnownType".to_string(),
            expanded: "{ id: string }".to_string(),
        }],
    );
    let entries = data.type_manifest.as_ref().expect("a manifest");
    assert_eq!(entries[0].type_state, ManifestTypeState::Implicit);
    assert_eq!(entries[0].resolved_definition.as_deref(), Some("KnownType"));
    assert_eq!(entries[0].expanded_definition.as_deref(), Some("{ id: string }"));
    assert!(entries[1].resolved_definition.is_none());
    data.bundled_types = None;
    assert!(aliases_wanted(&data).is_empty());
}

#[test]
fn an_empty_manifest_is_not_set() {
    let mut data = CloudRepoData::bare("r", None, "h");
    set_type_manifest(&mut data, vec![]);
    assert!(data.type_manifest.is_none());
    set_type_manifest(&mut data, vec![producer("/a", "P")]);
    assert_eq!(data.type_manifest.map(|m| m.len()), Some(1));
}

#[test]
fn a_number_that_is_taken_is_not_given_again() {
    let texts = |list: &[&str]| list.iter().map(|s| s.to_string()).collect::<Vec<String>>();
    assert_eq!(unique_stems(&texts(&["a", "a", "a_1"])), texts(&["a", "a_2", "a_1"]));
    assert_eq!(unique_stems(&texts(&["a_1", "a", "a", "a"])), texts(&["a_1", "a", "a_2", "a_3"]));
}

#[test]
fn the_order_of_the_services_does_not_change_the_pairs() {
    let list = |order: &[usize]| {
        order
            .iter()
            .map(|i| match i {
                0 => service("api", vec![producer("/a/:id", "P"), producer("/b", "Q")]),
                1 => service("web", vec![consumer("/a/1", "C"), consumer("/b", "D")]),
                _ => service("old", vec![producer("/a/1", "R"), consumer("/b", "E")]),
            })
            .collect::<Vec<CloudRepoData>>()
    };
    let first = build_check_pairs(&list(&[0, 1, 2]));
    assert_eq!(keys(&first), vec!["api/Q~old/E", "api/Q~web/D", "old/R~web/C"]);
    for order in [[0, 2, 1], [1, 0, 2], [1, 2, 0], [2, 0, 1], [2, 1, 0]] {
        assert_eq!(keys(&build_check_pairs(&list(&order))), keys(&first));
    }
}

#[test]
fn a_normalized_path_is_normalized() {
    for (path, normal) in [
        ("Users//{id}/", "/users/:param"),
        ("", "/"),
        ("///", "/"),
        ("/a/[b]/${c}x/:d", "/a/:param/:param/:param"),
        ("a//b///c", "/a/b/c"),
        ("/AZ@[Z`z/É", "/az@[z`z/é"),
    ] {
        assert_eq!(normalize_match_path(path), normal);
        assert_eq!(normalize_match_path(normal), normal);
    }
}
