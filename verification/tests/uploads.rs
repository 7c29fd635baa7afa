use carrick::analyzer::MatchedEdge;
use carrick::cloud_storage::{ApiEndpointDetails, CloudRepoData, TypeReference};
use carrick::file_analysis::{FileAnalysisResult, FileResult};
use carrick::findings::EndpointRef;
use carrick::incremental::CACHE_VERSION;
use carrick::operation::{GraphqlOperationKind, OperationKey, SocketDirection};
use carrick::pr_delta::{
    flatten_manifests, had_prior_index, pr_delta_of_run, previous_record, retain_other_repos,
};
use carrick::run_context::{
    head_sha_from_event, log_range, pr_number, run_id, should_upload_data, RunEnvironment,
    MAX_LOG_BYTES,
};
use carrick::upload::{
    attach_compat_verdicts, dropped_caches_warning, enforce_payload_size_limit,
    hard_limit_warning, plan_upload, strip_ast_nodes, upload_failure, UploadPlan,
    LAMBDA_HARD_LIMIT_BYTES, MAX_PAYLOAD_BYTES,
};

fn environment() -> RunEnvironment {
    RunEnvironment {
        output_json: false,
        local_storage: false,
        event_name: None,
        ref_name: None,
        run_id: None,
    }
}

fn on_ref(name: &str) -> RunEnvironment {
    RunEnvironment { ref_name: Some(name.to_string()), ..environment() }
}

fn type_reference(alias: &str) -> TypeReference {
    TypeReference {
        file_path: "test.ts".to_string(),
        type_ann: None,
        start_position: 0,
        composite_type_string: alias.to_string(),
        alias: alias.to_string(),
    }
}

fn endpoint(key: OperationKey) -> ApiEndpointDetails {
    ApiEndpointDetails {
        owner: Some("test_app".to_string()),
        key,
        params: vec![],
        request_body: None,
        response_body: None,
        handler_name: Some("testHandler".to_string()),
        request_type: Some(type_reference("TestType")),
        response_type: Some(type_reference("ResponseType")),
        file_path: "test.js".to_string(),
        repo_name: None,
        service_name: None,
        provenance: None,
    }
}

fn service(repo: &str, name: Option<&str>, keys: Vec<OperationKey>) -> CloudRepoData {
    let mut data = CloudRepoData::bare(repo, name.map(|s| s.to_string()), "test-hash");
    data.endpoints = keys.into_iter().map(endpoint).collect();
    data
}

fn with_cache(repo: &str) -> CloudRepoData {
    let mut data = CloudRepoData::bare(repo, None, "test-hash");
    data.cache_version = Some(CACHE_VERSION);
    data.file_results = Some(vec![FileResult {
        path: "src/app.ts".to_string(),
        result: FileAnalysisResult::empty(),
    }]);
    data
}

fn edge(consumer: &str, compatible: Option<bool>) -> MatchedEdge {
    MatchedEdge {
        producer_repo: "producer-svc".to_string(),
        producer_key: "http|GET|/api/orders/:id".to_string(),
        consumer_repo: consumer.to_string(),
        consumer_key: "http|GET|/api/orders/:id".to_string(),
        consumer_location: Some("src/client.ts".to_string()),
        match_score_bits: 1.0f64.to_bits(),
        type_compatible: compatible,
        mismatch_reason: Some("y".repeat(400)),
    }
}

fn shown(refs: &Vec<EndpointRef>) -> Vec<String> {
    refs.iter()
        .map(|r| format!("{} {} {:?}", r.method, r.path, r.service))
        .collect()
}

#[test]
fn test_ast_stripping_removes_nodes() {
    let mut data = service("express-single", None, vec![OperationKey::http("GET", "/test")]);
    data.calls = vec![endpoint(OperationKey::http("GET", "/test"))];

    let stripped = strip_ast_nodes(data);

    assert!(stripped.endpoints[0].request_type.is_none());
    assert!(stripped.endpoints[0].response_type.is_none());
    assert!(stripped.calls[0].request_type.is_none());
    assert!(stripped.calls[0].response_type.is_none());
    assert_eq!(stripped.endpoints[0].handler_name.as_deref(), Some("testHandler"));
    assert_eq!(stripped.repo_name, "express-single");
}

#[test]
fn test_payload_size_guard_drops_file_results_when_too_large() {
    let mut data = strip_ast_nodes(with_cache("express-single"));
    assert!(enforce_payload_size_limit(&mut data, Some(30_000_000)));
    assert!(
        data.file_results.is_none(),
        "file_results should be dropped when payload exceeds 5MB"
    );
}

#[test]
fn test_payload_size_guard_keeps_small_file_results() {
    let mut data = strip_ast_nodes(with_cache("express-single"));
    assert!(!enforce_payload_size_limit(&mut data, Some(1_000)));
    assert!(
        data.file_results.is_some(),
        "file_results should be preserved when payload is small"
    );
    // A payload at the limit, or of unknown size, keeps its caches.
    assert!(!enforce_payload_size_limit(&mut data, Some(MAX_PAYLOAD_BYTES)));
    assert!(!enforce_payload_size_limit(&mut data, None));
    assert!(data.file_results.is_some());
}

#[test]
fn test_payload_size_guard_reapplied_after_verdict_attachment() {
    let mut payloads = vec![strip_ast_nodes(with_cache("consumer-svc"))];
    assert!(!enforce_payload_size_limit(&mut payloads[0], Some(MAX_PAYLOAD_BYTES - 200)));
    assert!(payloads[0].file_results.is_some());

    attach_compat_verdicts(&mut payloads, &vec![edge("consumer-svc", Some(false))]);

    // The verdicts push the payload over the cap.
    assert!(enforce_payload_size_limit(&mut payloads[0], Some(MAX_PAYLOAD_BYTES + 300)));
    assert!(payloads[0].file_results.is_none(), "the bulky caches are what gets dropped");
    assert!(
        payloads[0].compat_verdicts.as_ref().is_some_and(|v| v.len() == 1),
        "the tiny verdicts are kept"
    );
}

#[test]
fn verdicts_go_to_the_consumer_and_only_where_something_was_checked() {
    let mut payloads = vec![
        service("mono", Some("web"), vec![]),
        service("mono", Some("api"), vec![]),
        CloudRepoData::bare("solo", None, "c"),
    ];
    attach_compat_verdicts(
        &mut payloads,
        &vec![edge("web", Some(true)), edge("web", None), edge("solo", Some(false)), edge("mono", Some(true))],
    );
    let web = payloads[0].compat_verdicts.as_ref().unwrap();
    assert_eq!(web.len(), 1);
    assert!(web[0].type_compatible);
    assert!(payloads[1].compat_verdicts.is_none());
    assert!(!payloads[2].compat_verdicts.as_ref().unwrap()[0].type_compatible);
}

#[test]
fn size_warnings_name_the_sizes() {
    assert!(dropped_caches_warning(6_000_000)
        .starts_with("Payload size 5859KB exceeds 5120KB limit, dropping file_results cache"));
    assert!(hard_limit_warning(None).is_none());
    assert!(hard_limit_warning(Some(LAMBDA_HARD_LIMIT_BYTES)).is_none());
    assert!(hard_limit_warning(Some(LAMBDA_HARD_LIMIT_BYTES + 1))
        .unwrap()
        .contains("still 6144KB after dropping caches, which exceeds the cloud's 6144KB"));
}

#[test]
fn upload_is_planned_by_run_and_index() {
    assert_eq!(plan_upload(false, 1, true), UploadPlan::NotAllowed);
    assert_eq!(plan_upload(true, 2, false), UploadPlan::Unsupported);
    assert_eq!(plan_upload(true, 2, true), UploadPlan::Upload);
    assert_eq!(plan_upload(true, 1, false), UploadPlan::Upload);
}

#[test]
fn a_failed_upload_names_what_was_written() {
    let payloads = vec![
        service("mono", Some("web"), vec![]),
        service("mono", Some("api"), vec![]),
        CloudRepoData::bare("solo", None, "c"),
    ];
    assert_eq!(
        upload_failure(&payloads, 1, "timeout"),
        "Failed to upload repo data: timeout. Uploaded: [web]; not uploaded: [api, solo]. The index is mixed-generation for this repo until a successful re-run."
    );
    assert!(upload_failure(&payloads, 0, "x").contains("Uploaded: [];"));
}

#[test]
fn only_the_main_branch_writes_to_the_index() {
    assert!(should_upload_data(&environment()));
    assert!(should_upload_data(&on_ref("refs/heads/main")));
    assert!(should_upload_data(&on_ref("refs/heads/master")));
    assert!(!should_upload_data(&on_ref("refs/heads/feature")));
    assert!(!should_upload_data(&on_ref("refs/pull/12/merge")));
    assert!(should_upload_data(&on_ref("refs/tags/v1")));
    let pr = RunEnvironment { event_name: Some("pull_request".to_string()), ..environment() };
    assert!(!should_upload_data(&pr));
    let local = RunEnvironment { local_storage: true, ..pr };
    assert!(should_upload_data(&local));
    let eval = RunEnvironment { output_json: true, ..local };
    assert!(!should_upload_data(&eval));
}

#[test]
fn the_pull_request_is_read_off_the_reference() {
    assert_eq!(pr_number(&on_ref("refs/pull/123/merge")), Some(123));
    assert_eq!(pr_number(&on_ref("refs/pull/7")), Some(7));
    assert_eq!(pr_number(&on_ref("refs/pull/x/merge")), None);
    assert_eq!(pr_number(&on_ref("refs/heads/main")), None);
    assert_eq!(pr_number(&environment()), None);
}

#[test]
fn an_empty_run_id_is_none() {
    assert_eq!(run_id(&environment()), None);
    let empty = RunEnvironment { run_id: Some(String::new()), ..environment() };
    assert_eq!(run_id(&empty), None);
    let some = RunEnvironment { run_id: Some("42".to_string()), ..environment() };
    assert_eq!(run_id(&some).as_deref(), Some("42"));
}

#[test]
fn the_head_commit_is_read_off_the_event() {
    let event = r#"{"pull_request":{"number":1,"head":{"ref":"x","sha":"abc123"}}}"#;
    assert_eq!(head_sha_from_event(event).as_deref(), Some("abc123"));
    assert_eq!(head_sha_from_event(r#"{"pull_request":{"head":{"sha":1}}}"#), None);
    assert_eq!(head_sha_from_event(r#"{"push":{}}"#), None);
    assert_eq!(head_sha_from_event("not json"), None);
}

#[test]
fn the_log_of_a_run_is_capped() {
    assert_eq!(log_range(100, Some(40)), (40, 60));
    assert_eq!(log_range(100, None), (0, 100));
    assert_eq!(log_range(MAX_LOG_BYTES + 10, Some(3)), (10, MAX_LOG_BYTES));
    assert_eq!(log_range(MAX_LOG_BYTES + 10, Some(50)), (50, MAX_LOG_BYTES - 40));
    assert_eq!(log_range(0, None), (0, 0));
}

#[test]
fn the_delta_compares_services_with_the_index() {
    let indexed = vec![
        service(
            "mono",
            Some("web"),
            vec![OperationKey::http("GET", "/a"), OperationKey::http("GET", "/old")],
        ),
        service("other", None, vec![OperationKey::http("GET", "/b")]),
    ];
    let current = vec![
        service(
            "mono",
            Some("web"),
            vec![
                OperationKey::http("GET", "/a"),
                OperationKey::http("POST", "/b"),
                OperationKey::http("POST", "/b"),
            ],
        ),
        // The same route in another service is new.
        service("mono", Some("api"), vec![OperationKey::http("GET", "/a")]),
        service("mono", None, vec![OperationKey::http("GET", "/a")]),
    ];
    let delta = pr_delta_of_run(true, &indexed, "mono", &current).unwrap();
    assert_eq!(
        shown(&delta.new_endpoints),
        vec!["GET /a None", "GET /a Some(\"api\")", "POST /b Some(\"web\")"]
    );
    assert_eq!(shown(&delta.removed_endpoints), vec!["GET /old Some(\"web\")"]);
    // Outside of a pull request, or without a baseline, there is nothing to
    // compare with.
    assert!(pr_delta_of_run(false, &indexed, "mono", &current).is_none());
    assert!(pr_delta_of_run(true, &indexed, "unknown", &current).is_none());
}

#[test]
fn an_unchanged_repository_has_an_empty_delta() {
    let keys = || vec![OperationKey::http("GET", "/a"), OperationKey::pubsub("orders")];
    let indexed = vec![service("r", None, keys())];
    let mut reversed = keys();
    reversed.reverse();
    let delta = pr_delta_of_run(true, &indexed, "r", &vec![service("r", None, reversed)]).unwrap();
    assert!(delta.is_empty());
}

#[test]
fn operations_are_shown_by_protocol() {
    let label = |key: OperationKey| key.display_labels();
    assert_eq!(label(OperationKey::http("GET", "/a")), ("GET".to_string(), "/a".to_string()));
    assert_eq!(
        label(OperationKey::graphql(GraphqlOperationKind::Query, "user")),
        ("query".to_string(), "user".to_string())
    );
    assert_eq!(
        label(OperationKey::socket("ping", SocketDirection::ClientToServer)),
        ("CLIENT->SERVER".to_string(), "ping".to_string())
    );
    assert_eq!(
        label(OperationKey::pubsub("orders")),
        ("pubsub".to_string(), "orders".to_string())
    );
}

#[test]
fn the_repository_is_found_among_the_records() {
    let repos = vec![
        service("a", None, vec![]),
        service("mono", Some("web"), vec![]),
        service("mono", Some("api"), vec![]),
    ];
    assert!(had_prior_index(&repos, "mono"));
    assert!(!had_prior_index(&repos, "b"));
    let api = Some("api".to_string());
    assert_eq!(previous_record(&repos, "mono", &api, false), Some(2));
    assert_eq!(previous_record(&repos, "mono", &api, true), None);
    assert_eq!(previous_record(&repos, "mono", &None, false), None);
    assert_eq!(previous_record(&repos, "a", &None, false), Some(0));
    assert!(flatten_manifests(&repos, &vec![]).is_empty());
    let others = retain_other_repos(repos, "mono");
    assert_eq!(others.len(), 1);
    assert_eq!(others[0].repo_name, "a");
}
