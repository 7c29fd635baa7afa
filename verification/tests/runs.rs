//! The course of runs.

use carrick::analyzer::ApiAnalysisResult;
use carrick::cloud_data::index_service;
use carrick::cloud_storage::CloudRepoData;
use carrick::engine::{pr_result, Event, Run, RunSettings, Step, QUOTA_MESSAGE};
use carrick::file_analysis::{FileAnalysisResult, FileResult, PubsubOperation};
use carrick::findings::{Finding, PrDelta, Topology};
use carrick::incremental::{plan_analysis, AnalysisPlan, CACHE_VERSION};
use carrick::mount_graph::MountGraph;
use carrick::operation::{OperationKey, PubsubRole, SocketDirection};
use carrick::protocol::{GraphqlExtraction, ProtocolExtractions, SocketExtraction, SocketOp};
use carrick::run_context::RunEnvironment;
use carrick::type_requests::collect_protocol_requests;

fn environment(ref_name: Option<&str>, output_json: bool) -> RunEnvironment {
    RunEnvironment {
        output_json,
        local_storage: false,
        event_name: None,
        ref_name: ref_name.map(|s| s.to_string()),
        run_id: Some("77".to_string()),
    }
}

fn on_main() -> RunSettings {
    RunSettings::new(&environment(Some("refs/heads/main"), false), false)
}

fn on_pull_request() -> RunSettings {
    RunSettings::new(&environment(Some("refs/pull/12/merge"), false), false)
}

fn evaluation() -> RunSettings {
    RunSettings::new(&environment(Some("refs/heads/main"), true), true)
}

/// The steps of a run of two services in which the given step fails.
fn steps(settings: &RunSettings, services: usize, failing: Option<Step>) -> (Vec<Step>, Option<String>) {
    let mut run = Run::start();
    let mut taken = vec![];
    while run.step != Step::Stop {
        taken.push(run.step);
        let event = if failing == Some(run.step) {
            Event::Failed("broken".to_string())
        } else {
            match run.step {
                Step::ResolveServices => Event::Services(services),
                Step::CheckQuota => Event::Quota { exhausted: false },
                _ => Event::Done,
            }
        };
        run = run.next(event, settings);
    }
    (taken, run.error)
}

const START: [Step; 3] = [Step::CheckHealth, Step::Download, Step::ResolveServices];

fn from_start(rest: &[Step]) -> Vec<Step> {
    let mut all = START.to_vec();
    all.extend_from_slice(rest);
    all
}

#[test]
fn a_run_on_the_main_branch_uploads_with_verdicts() {
    let (taken, error) = steps(&on_main(), 1, None);
    assert_eq!(
        taken,
        from_start(&[
            Step::AnalyzeService(0),
            Step::CheckQuota,
            Step::Compare,
            Step::Upload { with_verdicts: true },
            Step::PrintReport,
            Step::UploadLogs,
        ])
    );
    assert!(error.is_none());
}

#[test]
fn several_services_are_uploaded_only_where_they_can_be_told_apart() {
    let (taken, _) = steps(&on_main(), 2, None);
    assert!(taken.contains(&Step::AnalyzeService(1)));
    assert!(!taken.contains(&Step::Upload { with_verdicts: true }));
    let able = RunSettings::new(&environment(None, false), true);
    let (taken, _) = steps(&able, 2, None);
    assert!(taken.contains(&Step::Upload { with_verdicts: true }));
}

#[test]
fn a_pull_request_posts_its_result_and_uploads_nothing() {
    let (taken, _) = steps(&on_pull_request(), 1, None);
    assert_eq!(
        taken[5..],
        [Step::Compare, Step::PrintReport, Step::PostResult, Step::UploadLogs]
    );
}

#[test]
fn an_evaluation_only_prints_its_projection() {
    let (taken, _) = steps(&evaluation(), 1, None);
    assert_eq!(taken[5..], [Step::Compare, Step::PrintProjection, Step::UploadLogs]);
}

#[test]
fn failures_end_the_run_with_its_log_written() {
    let (taken, error) = steps(&on_main(), 1, Some(Step::CheckHealth));
    assert_eq!(taken, vec![Step::CheckHealth, Step::UploadLogs]);
    assert_eq!(error.as_deref(), Some("Failed to connect to Carrick Cloud: broken"));
    let (_, error) = steps(&on_main(), 1, Some(Step::Download));
    assert_eq!(error.as_deref(), Some("Failed to download cross-repo data: broken"));
    for step in [
        Step::ResolveServices,
        Step::AnalyzeService(0),
        Step::Compare,
        Step::Upload { with_verdicts: true },
    ] {
        let (taken, error) = steps(&on_main(), 1, Some(step));
        assert_eq!(taken[taken.len() - 1], Step::UploadLogs);
        assert!(!taken.contains(&Step::PrintReport));
        assert_eq!(error.as_deref(), Some("broken"));
    }
}

#[test]
fn a_failed_comparison_still_uploads_without_verdicts() {
    let (taken, error) = steps(&on_main(), 1, Some(Step::Compare));
    assert_eq!(
        taken[5..],
        [Step::Compare, Step::Upload { with_verdicts: false }, Step::UploadLogs]
    );
    assert_eq!(error.as_deref(), Some("broken"));
    let (taken, _) = steps(&on_pull_request(), 1, Some(Step::Compare));
    assert_eq!(taken[5..], [Step::Compare, Step::UploadLogs]);
}

#[test]
fn failed_posts_and_logs_do_not_fail_the_run() {
    let (_, error) = steps(&on_pull_request(), 1, Some(Step::PostResult));
    assert!(error.is_none());
    let (_, error) = steps(&on_main(), 1, Some(Step::UploadLogs));
    assert!(error.is_none());
}

#[test]
fn an_exhausted_quota_stops_before_the_upload() {
    let mut run = Run { step: Step::CheckQuota, services: 1, error: None };
    run = run.next(Event::Quota { exhausted: true }, &on_main());
    assert_eq!(run.step, Step::UploadLogs);
    assert_eq!(run.error.as_deref(), Some(QUOTA_MESSAGE));
}

#[test]
fn what_cannot_come_of_a_step_changes_nothing() {
    let run = Run::start().next(Event::Services(3), &on_main());
    assert_eq!(run.step, Step::CheckHealth);
    assert_eq!(run.services, 0);
}

#[test]
fn a_pull_request_gets_the_result() {
    let topology = Topology {
        repo_name: "api".to_string(),
        local_service_count: 1,
        peer_repo_count: 2,
    };
    let mut result =
        ApiAnalysisResult::with_findings(vec![Finding::orphaned_endpoint("GET", "/a", None)]);
    result.verified_endpoints = vec![
        ("GET".to_string(), "/b".to_string()),
        ("POST".to_string(), "/c".to_string()),
    ];
    result.verified_provenance = vec!["test".to_string()];
    result.graphql_operations_indexed = true;
    let delta = PrDelta { new_endpoints: vec![], removed_endpoints: vec![] };
    let event = Some("{\"pull_request\":{\"head\":{\"sha\":\"abc\"}}}".to_string());
    let env = environment(Some("refs/pull/12/merge"), false);
    let payload = pr_result(&env, &event, &topology, &result, Some(&delta)).expect("a payload");
    assert_eq!(payload.repo, "api");
    assert_eq!(payload.pr_number, 12);
    assert_eq!(payload.head_sha.as_deref(), Some("abc"));
    assert_eq!(payload.run_id.as_deref(), Some("77"));
    assert_eq!(payload.stats.endpoints, 0);
    assert_eq!(payload.findings.len(), 1);
    assert_eq!(payload.verified.len(), 2);
    assert_eq!(payload.verified[0].method, "GET");
    assert_eq!(payload.verified[0].path, "/b");
    assert_eq!(payload.verified[0].provenance.as_deref(), Some("test"));
    assert_eq!(payload.verified[1].path, "/c");
    assert!(payload.verified[1].provenance.is_none());
    assert!(payload.graphql.operations_indexed);
    assert!(payload.delta.is_some());

    let env = environment(Some("refs/heads/main"), false);
    assert!(pr_result(&env, &event, &topology, &result, None).is_none());
}

#[test]
fn an_analysis_is_incremental_only_with_cache_and_diff() {
    let files = vec!["/repo/a.ts".to_string(), "/repo/b.ts".to_string()];
    let changed = Some(vec!["b.ts".to_string()]);
    let mut data = CloudRepoData::bare("r", None, "c");
    data.file_results = Some(vec![FileResult {
        path: "a.ts".to_string(),
        result: FileAnalysisResult::empty(),
    }]);
    assert!(matches!(plan_analysis(None, &changed, &files, "/repo"), AnalysisPlan::Full));
    assert!(matches!(plan_analysis(Some(&data), &changed, &files, "/repo"), AnalysisPlan::Full));
    data.cache_version = Some(CACHE_VERSION);
    assert!(matches!(plan_analysis(Some(&data), &None, &files, "/repo"), AnalysisPlan::Full));
    match plan_analysis(Some(&data), &changed, &files, "/repo") {
        AnalysisPlan::Incremental { to_analyze } => {
            assert_eq!(to_analyze, vec!["/repo/b.ts".to_string()]);
        }
        AnalysisPlan::Full => panic!("the cache can be used"),
    }
}

fn extractions() -> ProtocolExtractions {
    ProtocolExtractions {
        graphql: GraphqlExtraction { producers: vec![], consumers: vec![] },
        sockets: SocketExtraction {
            listeners: vec![SocketOp {
                key: OperationKey::socket("tick", SocketDirection::ClientToServer),
                file_path: "src/socket.ts".to_string(),
                line: 12,
                payload_type_symbol: Some("Tick".to_string()),
                payload_type_source: None,
            }],
            emitters: vec![],
        },
    }
}

fn results() -> Vec<FileResult> {
    let located = |topic: &str, symbol: Option<&str>, text: Option<&str>| PubsubOperation {
        topic: topic.to_string(),
        role: Some(PubsubRole::Subscriber),
        line_number: 4,
        primary_type_symbol: symbol.map(|s| s.to_string()),
        type_import_source: None,
        broker: None,
        payload_expression_text: text.map(|s| s.to_string()),
        payload_expression_line: Some(5),
    };
    vec![FileResult {
        path: "src/worker.ts".to_string(),
        result: FileAnalysisResult {
            pubsub_operations: vec![
                located("named", Some("Job"), None),
                located("inferred", None, Some("job")),
            ],
            ..FileAnalysisResult::empty()
        },
    }]
}

#[test]
fn protocols_reach_the_record_and_its_manifest() {
    let graph = MountGraph { endpoints: vec![], data_calls: vec![], mounts: vec![] };
    let mut data = CloudRepoData::bare("r", None, "c");
    index_service(&mut data, &graph, &results(), &extractions(), "/repo");
    assert_eq!(data.endpoints.len(), 3);
    assert!(data.calls.is_empty());
    let manifest = data.type_manifest.as_ref().expect("a manifest");
    assert_eq!(manifest.len(), 3);

    let mut bare = CloudRepoData::bare("r", None, "c");
    let nothing = ProtocolExtractions {
        graphql: GraphqlExtraction { producers: vec![], consumers: vec![] },
        sockets: SocketExtraction { listeners: vec![], emitters: vec![] },
    };
    index_service(&mut bare, &graph, &vec![], &nothing, "/repo");
    assert!(bare.type_manifest.is_none());
}

#[test]
fn requests_of_all_protocols_come_together() {
    let requests = collect_protocol_requests(&extractions(), &results(), "/repo");
    let symbols: Vec<&str> = requests.explicit.iter().map(|r| r.symbol_name.as_str()).collect();
    assert_eq!(symbols, vec!["Tick", "Job"]);
    assert_eq!(requests.infer.len(), 1);
    assert_eq!(requests.infer[0].param_name.as_deref(), Some("job"));
}
