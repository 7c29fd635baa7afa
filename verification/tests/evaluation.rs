use carrick::analyzer::{
    ApiAnalysisResult, ConflictSeverity, DependencyConflict, MatchedEdge, RepoPackageInfo,
};
use carrick::cloud_storage::{
    ApiEndpointDetails, InferKind, ManifestRole, ManifestTypeKind, ManifestTypeState,
    TypeEvidence, TypeManifestEntry,
};
use carrick::eval_output::{
    conflict_severity_string, is_self_loop_op, project_key, same_source_file, split_location,
    EvalProjection,
};
use carrick::operation::{GraphqlOperationKind, OperationKey, SocketDirection};

fn manifest_entry(
    key: OperationKey,
    role: ManifestRole,
    type_state: ManifestTypeState,
    is_explicit: bool,
    resolved: Option<&str>,
    primary_type_symbol: Option<&str>,
) -> TypeManifestEntry {
    manifest_entry_at(
        key,
        role,
        ManifestTypeKind::Response,
        "Endpoint_abc_Response",
        "src/orders.ts",
        12,
        type_state,
        is_explicit,
        resolved,
        primary_type_symbol,
    )
}

fn manifest_entry_at(
    key: OperationKey,
    role: ManifestRole,
    type_kind: ManifestTypeKind,
    type_alias: &str,
    file_path: &str,
    line_number: u32,
    type_state: ManifestTypeState,
    is_explicit: bool,
    resolved: Option<&str>,
    primary_type_symbol: Option<&str>,
) -> TypeManifestEntry {
    TypeManifestEntry {
        key,
        role,
        type_kind,
        type_alias: type_alias.to_string(),
        file_path: file_path.to_string(),
        line_number,
        is_explicit,
        type_state,
        evidence: TypeEvidence {
            file_path: file_path.to_string(),
            span_start: None,
            span_end: None,
            line_number,
            infer_kind: match type_kind {
                ManifestTypeKind::Request => InferKind::RequestBody,
                ManifestTypeKind::Response => InferKind::ResponseBody,
            },
            is_explicit,
            type_state,
        },
        resolved_definition: resolved.map(String::from),
        expanded_definition: None,
        primary_type_symbol: primary_type_symbol.map(String::from),
    }
}

fn endpoint(method: &str, path: &str, file_line: &str) -> ApiEndpointDetails {
    ApiEndpointDetails {
        owner: None,
        key: OperationKey::http(method, path),
        params: vec![],
        request_body: None,
        response_body: None,
        handler_name: Some("getOrder".to_string()),
        request_type: None,
        response_type: None,
        file_path: file_line.to_string(),
        repo_name: None,
        service_name: None,
        provenance: None,
    }
}

fn pubsub_op(topic: &str, file_line: &str, repo: &str) -> ApiEndpointDetails {
    ApiEndpointDetails {
        owner: None,
        key: OperationKey::pubsub(topic),
        params: vec![],
        request_body: None,
        response_body: None,
        handler_name: None,
        request_type: None,
        response_type: None,
        file_path: file_line.to_string(),
        repo_name: Some(repo.to_string()),
        service_name: None,
        provenance: None,
    }
}

#[test]
fn intra_repo_pubsub_self_loop_dropped_from_projection() {
    let result = ApiAnalysisResult {
        endpoints: vec![
            pubsub_op(
                "__dlq.retry",
                "orders-engine/src/kafka/dlq.ts:26",
                "orders-engine",
            ),
            pubsub_op(
                "order.placed",
                "billing-svc/src/consume.ts:4",
                "billing-svc",
            ),
            pubsub_op(
                "user.registered",
                "orders-engine/src/consume.ts:9",
                "orders-engine",
            ),
        ],
        calls: vec![
            pubsub_op(
                "__dlq.retry",
                "orders-engine/src/kafka/dlq.ts:19",
                "orders-engine",
            ),
            pubsub_op(
                "order.placed",
                "orders-engine/src/producer.ts:7",
                "orders-engine",
            ),
        ],
        findings: vec![],
        dependency_conflicts: vec![],
        verified_endpoints: vec![],
        verified_provenance: vec![],
        detected_graphql_libraries: vec![],
        graphql_operations_indexed: false,
        cross_repo_matches: vec![],
    };

    let projection = EvalProjection::from_results(&result, &vec![]);
    let endpoint_keys: Vec<&str> = projection
        .endpoints
        .iter()
        .map(|o| o.key.as_str())
        .collect();
    let call_keys: Vec<&str> = projection.calls.iter().map(|o| o.key.as_str()).collect();

    assert!(
        !endpoint_keys.contains(&"pubsub|__dlq.retry"),
        "self-loop endpoint must be dropped, got {endpoint_keys:?}"
    );
    assert!(
        !call_keys.contains(&"pubsub|__dlq.retry"),
        "self-loop call must be dropped, got {call_keys:?}"
    );
    assert!(endpoint_keys.contains(&"pubsub|order.placed"));
    assert!(call_keys.contains(&"pubsub|order.placed"));
    assert!(endpoint_keys.contains(&"pubsub|user.registered"));
}

#[test]
fn unattributed_op_on_self_loop_key_survives() {
    let result = ApiAnalysisResult {
        endpoints: vec![
            pubsub_op(
                "__dlq.retry",
                "orders-engine/src/kafka/dlq.ts:26",
                "orders-engine",
            ),
            ApiEndpointDetails {
                repo_name: None,
                ..pubsub_op("__dlq.retry", "unknown/src/consume.ts:3", "ignored")
            },
        ],
        calls: vec![
            pubsub_op(
                "__dlq.retry",
                "orders-engine/src/kafka/dlq.ts:19",
                "orders-engine",
            ),
        ],
        findings: vec![],
        dependency_conflicts: vec![],
        verified_endpoints: vec![],
        verified_provenance: vec![],
        detected_graphql_libraries: vec![],
        graphql_operations_indexed: false,
        cross_repo_matches: vec![],
    };

    let projection = EvalProjection::from_results(&result, &vec![]);
    let surviving: Vec<(&str, &str)> = projection
        .endpoints
        .iter()
        .map(|o| (o.key.as_str(), o.file.as_str()))
        .collect();
    assert_eq!(
        surviving,
        vec![("pubsub|__dlq.retry", "unknown/src/consume.ts")],
        "only the unattributed op survives; attributed self-loop ops are dropped"
    );
    assert!(
        projection.calls.is_empty(),
        "attributed self-loop call must be dropped, got {:?}",
        projection.calls.iter().map(|o| &o.key).collect::<Vec<_>>()
    );
}

#[test]
fn projection_serializes_full_cross_repo_shape() {
    let producer_key = OperationKey::http("GET", "/orders/:param");
    let endpoints = vec![endpoint("GET", "/orders/:param", "src/orders.ts:12")];

    let matches = vec![
        MatchedEdge {
            producer_repo: "orders-monorepo".to_string(),
            producer_key: producer_key.canonical(),
            consumer_repo: "payments-svc".to_string(),
            consumer_key: "http|GET|/orders/:param".to_string(),
            consumer_location: Some("payments-svc/src/orders-client.ts:18".to_string()),
            match_score_bits: 1.0f64.to_bits(),
            type_compatible: Some(true),
            mismatch_reason: None,
        },
        MatchedEdge {
            producer_repo: "orders-monorepo".to_string(),
            producer_key: producer_key.canonical(),
            consumer_repo: "web-frontend".to_string(),
            consumer_key: "http|GET|/orders/:param".to_string(),
            consumer_location: Some("web-frontend/src/orders.ts:42".to_string()),
            match_score_bits: 1.0f64.to_bits(),
            type_compatible: Some(false),
            mismatch_reason: Some("id: number vs string".to_string()),
        },
        MatchedEdge {
            producer_repo: "orders-monorepo".to_string(),
            producer_key: "http|POST|/payments".to_string(),
            consumer_repo: "web-frontend".to_string(),
            consumer_key: "http|POST|/payments".to_string(),
            consumer_location: Some("web-frontend/src/payments.ts:7".to_string()),
            match_score_bits: 1.0f64.to_bits(),
            type_compatible: None,
            mismatch_reason: None,
        },
    ];

    let deps = vec![DependencyConflict {
        package_name: "zod".to_string(),
        repos: vec![
            RepoPackageInfo {
                repo_name: "web-frontend".to_string(),
                version: "3.23.0".to_string(),
                source_path: "web-frontend/package.json".to_string(),
            },
            RepoPackageInfo {
                repo_name: "payments-svc".to_string(),
                version: "3.22.0".to_string(),
                source_path: "payments-svc/package.json".to_string(),
            },
        ],
        severity: ConflictSeverity::Warning,
    }];

    let result = ApiAnalysisResult {
        endpoints,
        calls: vec![],
        findings: vec![],
        dependency_conflicts: deps,
        verified_endpoints: vec![],
        verified_provenance: vec![],
        detected_graphql_libraries: vec![],
        graphql_operations_indexed: false,
        cross_repo_matches: matches,
    };

    let manifest = vec![manifest_entry(
        producer_key,
        ManifestRole::Producer,
        ManifestTypeState::Explicit,
        true,
        Some("{ id: number; amountCents: number }"),
        Some("OrderResponse"),
    )];

    let projection = EvalProjection::from_results(&result, &manifest);

    let cms = &projection.cross_repo_matches;
    assert_eq!(cms.len(), 3);

    let compatible = &cms[0];
    assert_eq!(compatible.producer_repo, "orders-monorepo");
    assert_eq!(compatible.producer_key, "http|GET|/orders/:param");
    assert_eq!(compatible.consumer_repo, "payments-svc");
    assert_eq!(f64::from_bits(compatible.match_score_bits), 1.0);
    assert_eq!(compatible.type_compatible, Some(true));
    assert!(compatible.mismatch_reason.is_none());

    let incompatible = &cms[1];
    assert_eq!(incompatible.type_compatible, Some(false));
    assert_eq!(incompatible.mismatch_reason.as_deref(), Some("id: number vs string"));

    let not_evaluated = &cms[2];
    assert!(
        not_evaluated.type_compatible.is_none(),
        "type_compatible: None must be omitted from JSON, got {:?}",
        not_evaluated
    );
    assert!(not_evaluated.mismatch_reason.is_none());

    let op = &projection.endpoints[0];
    assert_eq!(op.key, "http|GET|/orders/:param");
    assert_eq!(op.type_state.as_deref(), Some("Explicit"));
    assert_eq!(op.is_explicit, Some(true));
    assert_eq!(
        op.resolved_definition.as_deref(),
        Some("{ id: number; amountCents: number }")
    );
    assert_eq!(op.type_alias.as_deref(), Some("Endpoint_abc_Response"));
    assert_eq!(op.primary_type_symbol.as_deref(), Some("OrderResponse"));
    assert!(op.expanded_definition.is_none());

    let dc = &projection.dependency_conflicts[0];
    assert_eq!(dc.package, "zod");
    assert_eq!(dc.versions, vec!["3.22.0".to_string(), "3.23.0".to_string()]);
    assert_eq!(dc.severity, "warning");
}

#[test]
fn op_without_manifest_omits_type_fields() {
    let result = ApiAnalysisResult {
        endpoints: vec![endpoint("GET", "/api/v1/status", "src/status.ts:3")],
        calls: vec![],
        findings: vec![],
        dependency_conflicts: vec![],
        verified_endpoints: vec![],
        verified_provenance: vec![],
        detected_graphql_libraries: vec![],
        graphql_operations_indexed: false,
        cross_repo_matches: vec![],
    };

    let projection = EvalProjection::from_results(&result, &vec![]);
    let op = &projection.endpoints[0];

    assert!(op.type_alias.is_none());
    assert!(op.type_state.is_none());
    assert!(op.resolved_definition.is_none());
    assert!(op.expanded_definition.is_none());
    assert!(op.is_explicit.is_none());
    assert!(op.primary_type_symbol.is_none());
    assert_eq!(projection.cross_repo_matches.len(), 0);
    assert_eq!(projection.dependency_conflicts.len(), 0);
}

#[test]
fn socket_keyed_manifest_entry_surfaces_on_eval_op() {

    let socket_key = OperationKey::socket("payment:settled", SocketDirection::ServerToClient);
    let call = ApiEndpointDetails {
        owner: None,
        key: socket_key.clone(),
        params: vec![],
        request_body: None,
        response_body: None,
        handler_name: None,
        request_type: None,
        response_type: None,
        file_path: "src/socket.ts:12".to_string(),
        repo_name: None,
        service_name: None,
        provenance: None,
    };

    let result = ApiAnalysisResult {
        endpoints: vec![],
        calls: vec![call],
        findings: vec![],
        dependency_conflicts: vec![],
        verified_endpoints: vec![],
        verified_provenance: vec![],
        detected_graphql_libraries: vec![],
        graphql_operations_indexed: false,
        cross_repo_matches: vec![],
    };

    let manifest = vec![manifest_entry(
        socket_key,
        ManifestRole::Consumer,
        ManifestTypeState::Explicit,
        true,
        Some("{ id: string; amountCents: number }"),
        Some("Payment"),
    )];

    let projection = EvalProjection::from_results(&result, &manifest);
    let op = &projection.calls[0];

    assert_eq!(op.key, "socket|SERVER->CLIENT|payment:settled");
    assert_eq!(op.protocol, "socket");
    assert!(op.method.is_none());
    assert_eq!(op.path.as_deref(), Some("payment:settled"));
    assert_eq!(op.type_state.as_deref(), Some("Explicit"));
    assert_eq!(op.primary_type_symbol.as_deref(), Some("Payment"));
    assert_eq!(
        op.resolved_definition.as_deref(),
        Some("{ id: string; amountCents: number }")
    );
}

#[test]
fn shared_key_producer_and_consumer_keep_own_manifest_fields() {
    let shared_key = OperationKey::http("GET", "/orders/:param");

    let result = ApiAnalysisResult {
        endpoints: vec![endpoint("GET", "/orders/:param", "src/orders.ts:12")],
        calls: vec![ApiEndpointDetails {
            owner: None,
            key: shared_key.clone(),
            params: vec![],
            request_body: None,
            response_body: None,
            handler_name: Some("fetchOrder".to_string()),
            request_type: None,
            response_type: None,
            file_path: "web/src/orders.ts:7".to_string(),
            repo_name: None,
            service_name: None,
            provenance: None,
        }],
        findings: vec![],
        dependency_conflicts: vec![],
        verified_endpoints: vec![],
        verified_provenance: vec![],
        detected_graphql_libraries: vec![],
        graphql_operations_indexed: false,
        cross_repo_matches: vec![],
    };

    let manifest = vec![
        manifest_entry(
            shared_key.clone(),
            ManifestRole::Producer,
            ManifestTypeState::Explicit,
            true,
            Some("{ id: number; amountCents: number }"),
            Some("Order"),
        ),
        manifest_entry(
            shared_key,
            ManifestRole::Consumer,
            ManifestTypeState::Implicit,
            false,
            Some("{ id: number }"),
            Some("OrderView"),
        ),
    ];

    let projection = EvalProjection::from_results(&result, &manifest);

    let endpoint_op = &projection.endpoints[0];
    let call_op = &projection.calls[0];

    assert_eq!(endpoint_op.key, "http|GET|/orders/:param");
    assert_eq!(call_op.key, "http|GET|/orders/:param");

    assert_eq!(endpoint_op.primary_type_symbol.as_deref(), Some("Order"));
    assert_eq!(
        endpoint_op.resolved_definition.as_deref(),
        Some("{ id: number; amountCents: number }")
    );
    assert_eq!(endpoint_op.type_state.as_deref(), Some("Explicit"));
    assert_eq!(endpoint_op.is_explicit, Some(true));

    assert_eq!(call_op.primary_type_symbol.as_deref(), Some("OrderView"));
    assert_eq!(call_op.resolved_definition.as_deref(), Some("{ id: number }"));
    assert_eq!(call_op.type_state.as_deref(), Some("Implicit"));
    assert_eq!(call_op.is_explicit, Some(false));
}

#[test]
fn response_entry_wins_over_request_entry_for_op_fields() {
    let key = OperationKey::http("POST", "/payments");
    let result = ApiAnalysisResult {
        endpoints: vec![endpoint("POST", "/payments", "src/payments.ts:30")],
        calls: vec![],
        findings: vec![],
        dependency_conflicts: vec![],
        verified_endpoints: vec![],
        verified_provenance: vec![],
        detected_graphql_libraries: vec![],
        graphql_operations_indexed: false,
        cross_repo_matches: vec![],
    };
    let manifest = vec![
        manifest_entry_at(
            key.clone(),
            ManifestRole::Producer,
            ManifestTypeKind::Request,
            "Endpoint_req_Request",
            "src/payments.ts",
            30,
            ManifestTypeState::Explicit,
            true,
            Some("{ orderId: number; amountCents: number }"),
            None,
        ),
        manifest_entry_at(
            key,
            ManifestRole::Producer,
            ManifestTypeKind::Response,
            "Endpoint_res_Response",
            "src/payments.ts",
            35,
            ManifestTypeState::Explicit,
            true,
            Some("{ id: string; orderId: number; status: string }"),
            Some("Payment"),
        ),
    ];

    let projection = EvalProjection::from_results(&result, &manifest);
    let op = &projection.endpoints[0];

    assert_eq!(op.type_alias.as_deref(), Some("Endpoint_res_Response"));
    assert_eq!(
        op.resolved_definition.as_deref(),
        Some("{ id: string; orderId: number; status: string }")
    );
    assert_eq!(op.primary_type_symbol.as_deref(), Some("Payment"));
}

#[test]
fn request_only_op_still_surfaces_request_definition() {
    let key = OperationKey::http("POST", "/billing/charge");
    let call = ApiEndpointDetails {
        owner: None,
        key: key.clone(),
        params: vec![],
        request_body: None,
        response_body: None,
        handler_name: None,
        request_type: None,
        response_type: None,
        file_path: "src/billing.client.ts:19".to_string(),
        repo_name: None,
        service_name: None,
        provenance: None,
    };
    let result = ApiAnalysisResult {
        endpoints: vec![],
        calls: vec![call],
        findings: vec![],
        dependency_conflicts: vec![],
        verified_endpoints: vec![],
        verified_provenance: vec![],
        detected_graphql_libraries: vec![],
        graphql_operations_indexed: false,
        cross_repo_matches: vec![],
    };
    let manifest = vec![manifest_entry_at(
        key,
        ManifestRole::Consumer,
        ManifestTypeKind::Request,
        "Endpoint_req_Request_Callabc",
        "src/billing.client.ts",
        19,
        ManifestTypeState::Implicit,
        false,
        Some("{ paymentId: string; amountCents: number }"),
        None,
    )];

    let projection = EvalProjection::from_results(&result, &manifest);
    let op = &projection.calls[0];

    assert_eq!(
        op.resolved_definition.as_deref(),
        Some("{ paymentId: string; amountCents: number }")
    );
    assert_eq!(op.type_state.as_deref(), Some("Implicit"));
}

#[test]
fn fan_in_consumer_calls_join_their_own_site_records() {
    let key = OperationKey::pubsub("order.placed");
    let call_at = |file_line: &str| ApiEndpointDetails {
        owner: None,
        key: key.clone(),
        params: vec![],
        request_body: None,
        response_body: None,
        handler_name: None,
        request_type: None,
        response_type: None,
        file_path: file_line.to_string(),
        repo_name: None,
        service_name: None,
        provenance: None,
    };
    let result = ApiAnalysisResult {
        endpoints: vec![],
        calls: vec![
            call_at("/scan/billing-svc/src/kafka/producer.ts:15"),
            call_at("/scan/orders-engine/src/kafka/producer.ts:22"),
        ],
        findings: vec![],
        dependency_conflicts: vec![],
        verified_endpoints: vec![],
        verified_provenance: vec![],
        detected_graphql_libraries: vec![],
        graphql_operations_indexed: false,
        cross_repo_matches: vec![],
    };
    let manifest = vec![
        manifest_entry_at(
            key.clone(),
            ManifestRole::Consumer,
            ManifestTypeKind::Response,
            "Endpoint_x_Response_Callbilling",
            "billing-svc/src/kafka/producer.ts",
            15,
            ManifestTypeState::Explicit,
            true,
            Some("{ id: string; total: number }"),
            Some("OrderPlaced"),
        ),
        manifest_entry_at(
            key,
            ManifestRole::Consumer,
            ManifestTypeKind::Response,
            "Endpoint_x_Response_Callorders",
            "orders-engine/src/kafka/producer.ts",
            22,
            ManifestTypeState::Explicit,
            true,
            Some("{ id: string; total: { amountCents: number } }"),
            Some("OrderPlaced"),
        ),
    ];

    let projection = EvalProjection::from_results(&result, &manifest);
    let calls = &projection.calls;

    assert_eq!(calls[0].type_alias.as_deref(), Some("Endpoint_x_Response_Callbilling"));
    assert_eq!(
        calls[0].resolved_definition.as_deref(),
        Some("{ id: string; total: number }")
    );
    assert_eq!(calls[1].type_alias.as_deref(), Some("Endpoint_x_Response_Callorders"));
    assert_eq!(
        calls[1].resolved_definition.as_deref(),
        Some("{ id: string; total: { amountCents: number } }")
    );
}

#[test]
fn files_are_the_same_up_to_a_leading_part() {
    assert!(same_source_file("/scan/svc/src/a.ts", "svc/src/a.ts"));
    assert!(same_source_file("svc/src/a.ts", "/scan/svc/src/a.ts"));
    assert!(same_source_file("C:\\scan\\a.ts", "a.ts"));
    assert!(!same_source_file("/scan/xa.ts", "a.ts"));
    assert!(!same_source_file("", ""));
}

#[test]
fn locations_are_split_at_the_line() {
    assert_eq!(split_location("src/a.ts:12"), ("src/a.ts".to_string(), 12));
    assert_eq!(split_location("src/a.ts"), ("src/a.ts".to_string(), 0));
    assert_eq!(split_location("src/a.ts:x"), ("src/a.ts:x".to_string(), 0));
    assert_eq!(split_location("C:\\a.ts:7"), ("C:\\a.ts".to_string(), 7));
    assert_eq!(split_location("a:99999999999"), ("a".to_string(), 0));
}

#[test]
fn keys_are_projected_by_protocol() {
    let (protocol, method, path) =
        project_key(&OperationKey::graphql(GraphqlOperationKind::Query, "user"));
    assert_eq!((protocol.as_str(), method, path.as_deref()), ("graphql", None, Some("user")));
    let (protocol, method, path) = project_key(&OperationKey::http("GET", "/a"));
    assert_eq!(
        (protocol.as_str(), method.as_deref(), path.as_deref()),
        ("http", Some("GET"), Some("/a"))
    );
    assert_eq!(conflict_severity_string(&ConflictSeverity::Critical), "critical");
    assert_eq!(conflict_severity_string(&ConflictSeverity::Info), "info");
}

#[test]
fn an_http_operation_is_never_a_loop() {
    let mut here = endpoint("GET", "/a", "a.ts:1");
    here.repo_name = Some("r".to_string());
    let mut there = endpoint("GET", "/a", "b.ts:1");
    there.repo_name = Some("r".to_string());
    let endpoints = vec![here];
    let calls = vec![there];
    assert!(!is_self_loop_op(&endpoints[0], &endpoints, &calls));
    let endpoints = vec![pubsub_op("t", "a.ts:1", "r")];
    let calls = vec![pubsub_op("t", "b.ts:1", "r")];
    assert!(is_self_loop_op(&endpoints[0], &endpoints, &calls));
}
