use std::collections::HashSet;

use carrick::cloud_storage::{
    ApiEndpointDetails, CloudRepoData, InferKind, ManifestRole, ManifestTypeKind,
    ManifestTypeState, TypeEvidence, TypeManifestEntry,
};
use carrick::file_analysis::{
    FileAnalysisResult, FileResult, GraphqlConsumerLocate, GraphqlOperation, PubsubOperation,
};
use carrick::mount_graph::{DataFetchingCall, MatchEvidence, MountGraph, ResolvedEndpoint};
use carrick::operation::{GraphqlOperationKind, OperationKey, PubsubRole, SocketDirection};
use carrick::protocol::{
    append_deterministic_protocol_operations, append_protocol_manifest_entries,
    append_pubsub_manifest_entries, fold_graphql_transport_calls,
    merge_graphql_consumer_locations, merge_graphql_resolver_locations, GraphqlExtraction,
    GraphqlOp, ProtocolExtractions, SocketExtraction, SocketOp,
};
use carrick::type_check::{
    append_missing_aliases, bundle_file_stems, bundle_files, dts_alias_is_trivially_unknown,
    dts_defines_alias, manifest_entries_of_role,
};
use carrick::type_manifest::{
    build_manifest_type_alias, build_type_manifest_entries, enrich_manifest_with_type_resolution,
};
use carrick::type_requests::{
    collect_graphql_producer_infer_requests, collect_graphql_type_requests,
    collect_pubsub_infer_requests, collect_pubsub_type_requests, collect_socket_type_requests,
};
use carrick::type_sidecar::{InferredType, TypeResolutionResult};

const MISSING_ALIAS_MARKER: &str = "// carrick:missing-alias";

fn new_graph() -> MountGraph {
    MountGraph { endpoints: vec![], data_calls: vec![], mounts: vec![] }
}

fn no_sockets() -> SocketExtraction {
    SocketExtraction { listeners: vec![], emitters: vec![] }
}

fn no_graphql() -> GraphqlExtraction {
    GraphqlExtraction { producers: vec![], consumers: vec![] }
}

fn put(results: &mut Vec<FileResult>, path: String, result: FileAnalysisResult) {
    results.push(FileResult { path, result });
}

fn consumer_entry(type_alias: &str) -> TypeManifestEntry {
    let evidence = TypeEvidence {
        file_path: "lib/api.ts".to_string(),
        span_start: None,
        span_end: None,
        line_number: 5,
        infer_kind: InferKind::CallResult,
        is_explicit: false,
        type_state: ManifestTypeState::Unknown,
    };
    TypeManifestEntry {
        key: OperationKey::http("GET", "/orders/:id"),
        role: ManifestRole::Consumer,
        type_kind: ManifestTypeKind::Response,
        type_alias: type_alias.to_string(),
        file_path: "lib/api.ts".to_string(),
        line_number: 5,
        is_explicit: false,
        type_state: ManifestTypeState::Unknown,
        evidence,
        resolved_definition: None,
        expanded_definition: None,
        primary_type_symbol: None,
    }
}

fn empty_resolution() -> TypeResolutionResult {
    TypeResolutionResult {
        dts_content: None,
        explicit_manifest: vec![],
        inferred_types: vec![],
    }
}

#[test]
fn enrich_promotes_resolved_consumer_shape() {
    let mut manifest = vec![consumer_entry("OrderView")];
    let mut resolution = empty_resolution();
    resolution.inferred_types.push(InferredType {
        alias: "OrderView".to_string(),
        type_string: "{ id: string; currency: string }".to_string(),
        is_explicit: false,
        primary_type_symbol: None,

    });

    enrich_manifest_with_type_resolution(&mut manifest, &resolution, &None);

    assert_eq!(manifest[0].type_state, ManifestTypeState::Implicit);
}

#[test]
fn enrich_keeps_unknown_resolution_unknown() {
    let mut manifest = vec![consumer_entry("OrderView")];
    let mut resolution = empty_resolution();
    resolution.inferred_types.push(InferredType {
        alias: "OrderView".to_string(),
        type_string: "unknown".to_string(),
        is_explicit: false,
        primary_type_symbol: None,

    });

    enrich_manifest_with_type_resolution(&mut manifest, &resolution, &None);

    assert_eq!(manifest[0].type_state, ManifestTypeState::Unknown);
}

fn inferred_with_symbol(symbol: &str) -> InferredType {
    InferredType {
        alias: "OrderView".to_string(),
        type_string: "{ id: string; currency: string }".to_string(),
        is_explicit: false,
        primary_type_symbol: Some(symbol.to_string()),

    }
}

#[test]
fn enrich_fills_anchor_from_inferred_symbol_when_llm_none() {
    let mut manifest = vec![consumer_entry("OrderView")];
    assert_eq!(manifest[0].primary_type_symbol, None);

    let mut resolution = empty_resolution();
    resolution
        .inferred_types
        .push(inferred_with_symbol("OrderView"));

    enrich_manifest_with_type_resolution(&mut manifest, &resolution, &None);

    assert_eq!(
        manifest[0].primary_type_symbol.as_deref(),
        Some("OrderView"),
        "anchor must be filled from the inferred symbol when the LLM left it None"
    );
}

#[test]
fn enrich_does_not_override_existing_llm_anchor() {
    let mut manifest = vec![consumer_entry("OrderView")];
    manifest[0].primary_type_symbol = Some("Payment".to_string());

    let mut resolution = empty_resolution();
    resolution
        .inferred_types
        .push(inferred_with_symbol("OrderView"));

    enrich_manifest_with_type_resolution(&mut manifest, &resolution, &None);

    assert_eq!(
        manifest[0].primary_type_symbol.as_deref(),
        Some("Payment"),
        "an existing LLM anchor must never be regressed by the inferred symbol"
    );
}

#[test]
fn enrich_downgrades_trivially_unknown_dts_alias() {
    let mut manifest = vec![consumer_entry("OrderView")];
    let resolution = empty_resolution();
    let dts = format!("export type OrderView = unknown; {MISSING_ALIAS_MARKER}\n");

    enrich_manifest_with_type_resolution(&mut manifest, &resolution, &Some(dts));

    assert_eq!(manifest[0].type_state, ManifestTypeState::Unknown);
}

#[test]
fn enrich_does_not_downgrade_developer_authored_unknown() {
    let mut manifest = vec![consumer_entry("OrderView")];
    let resolution = empty_resolution();
    let bare = "export type OrderView = unknown;\n";

    enrich_manifest_with_type_resolution(&mut manifest, &resolution, &Some(bare.to_string()));

    assert_ne!(
        manifest[0].type_state,
        ManifestTypeState::Unknown,
        "a developer-authored `type X = unknown` must not be downgraded to Unknown"
    );

    for form in [
        "export type OrderView = unknown;\n",
        "type OrderView = unknown;\n",
        "export type OrderView<T> = unknown;\n",
        "export declare type OrderView = unknown;\n",
        "export type OrderView = unknown; // genuinely unknown\n",
    ] {
        assert!(
            !dts_alias_is_trivially_unknown(form, "OrderView"),
            "developer-authored form must not match the placeholder marker: {form:?}"
        );
    }

    let tagged = format!("export type OrderView = unknown; {MISSING_ALIAS_MARKER}\n");
    assert!(
        dts_alias_is_trivially_unknown(&tagged, "OrderView"),
        "the Carrick-injected marker form must match the placeholder gate"
    );
}

#[test]
fn append_missing_aliases_injects_unknown_placeholder() {
    let manifest = vec![consumer_entry("OrderView"), consumer_entry("Payment")];
    let dts = "export interface Payment { id: string }\n".to_string();

    let out = append_missing_aliases(dts, Some(&manifest));

    assert!(
        out.contains(&format!(
            "export type OrderView = unknown; {MISSING_ALIAS_MARKER}"
        )),
        "missing alias should be injected as a marked placeholder, got: {out}"
    );
    assert!(
        !out.contains("export type Payment = unknown"),
        "an already-defined alias must not be overwritten, got: {out}"
    );
    assert!(
        dts_alias_is_trivially_unknown(&out, "OrderView"),
        "the injected marker must be detected by the placeholder gate, got: {out}"
    );
}

fn socket_op(
    event: &str,
    direction: SocketDirection,
    symbol: Option<&str>,
    source: Option<&str>,
) -> SocketOp {
    SocketOp {
        key: OperationKey::socket(event, direction),
        file_path: String::from("src/socket.ts"),
        line: 12,
        payload_type_symbol: symbol.map(String::from),
        payload_type_source: source.map(String::from),
    }
}

fn graphql_op(
    kind: GraphqlOperationKind,
    field: &str,
    anchor: Option<&str>,
) -> GraphqlOp {
    GraphqlOp {
        key: OperationKey::graphql(kind, field),
        file_path: String::from("src/schema.graphql"),
        line: 3,
        primary_type_symbol: anchor.map(String::from),
        payload_type_symbol: None,
        payload_type_source: None,
        resolver_file: None,
        resolver_line: None,
        response_type_symbol: None,
        response_type_source: None,
        consumer_located_type_symbol: None,
        consumer_located_type_source: None,
    }
}

fn graphql_consumer_op(
    field: &str,
    payload_symbol: Option<&str>,
    payload_source: Option<&str>,
) -> GraphqlOp {
    GraphqlOp {
        key: OperationKey::graphql(GraphqlOperationKind::Query, field),
        file_path: String::from("web-frontend/lib/graphql.ts"),
        line: 76,
        primary_type_symbol: None,
        payload_type_symbol: payload_symbol.map(String::from),
        payload_type_source: payload_source.map(String::from),
        resolver_file: None,
        resolver_line: None,
        response_type_symbol: None,
        response_type_source: None,
        consumer_located_type_symbol: None,
        consumer_located_type_source: None,
    }
}

fn transport_call(target: &str, file_location: &str) -> DataFetchingCall {
    DataFetchingCall {
        method: "POST".to_string(),
        target_url: target.to_string(),
        canonical_path: target.to_string(),
        client: "fetch(".to_string(),
        file_location: file_location.to_string(),
        call_kind: None,
        is_probable_url: true,
    }
}

#[test]
fn fold_drops_graphql_transport_calls_only() {
    let mut mount_graph = new_graph();
    mount_graph.data_calls = vec![
        transport_call("${SUPPORT_GQL_URL}/graphql", "src/gql.ts:25"),
        transport_call("/api/tickets", "src/gql.ts:30"),
        transport_call("${ORDERS_API}/orders", "src/orders.ts:12"),
    ];
    let graphql = GraphqlExtraction {
        producers: vec![],
        consumers: vec![graphql_consumer_op_at(
            GraphqlOperationKind::Mutation,
            "escalateTicket",
            "src/gql.ts",
            None,
        )],
    };

    fold_graphql_transport_calls(&mut mount_graph, &graphql);

    let targets: Vec<&str> = mount_graph
        .data_calls
        .iter()
        .map(|c| c.target_url.as_str())
        .collect();
    assert_eq!(targets, vec!["/api/tickets", "${ORDERS_API}/orders"]);
}

#[test]
fn fold_reads_raw_target_not_stripped_canonical() {
    let mut mount_graph = new_graph();
    mount_graph.data_calls = vec![DataFetchingCall {
        method: "POST".to_string(),
        target_url: "`${SUPPORT_GQL_URL}/graphql`".to_string(),
        canonical_path: "/graphql".to_string(),
        client: "fetch(".to_string(),
        file_location: "src/gql.ts:25".to_string(),
        call_kind: None,
        is_probable_url: true,
    }];
    let graphql = GraphqlExtraction {
        producers: vec![],
        consumers: vec![graphql_consumer_op_at(
            GraphqlOperationKind::Mutation,
            "escalateTicket",
            "src/gql.ts",
            None,
        )],
    };

    fold_graphql_transport_calls(&mut mount_graph, &graphql);

    assert!(
        mount_graph.data_calls.is_empty(),
        "internal-stripped canonical must still fold via the raw target"
    );
}

#[test]
fn fold_joins_dot_prefixed_walk_paths() {
    let mut mount_graph = new_graph();
    mount_graph.data_calls = vec![transport_call(
        "https://support.example.com/graphql",
        "src/gql.ts:25",
    )];
    let graphql = GraphqlExtraction {
        producers: vec![],
        consumers: vec![graphql_consumer_op_at(
            GraphqlOperationKind::Query,
            "ticket",
            "./src/gql.ts",
            None,
        )],
    };

    fold_graphql_transport_calls(&mut mount_graph, &graphql);

    assert!(
        mount_graph.data_calls.is_empty(),
        "absolute-URL transport in a ./-walked gql-consumer file must fold"
    );
}

#[test]
fn fold_ignores_producer_only_extractions() {
    let mut mount_graph = new_graph();
    mount_graph.data_calls = vec![transport_call("${SOME_API}/things", "src/schema.ts:5")];
    let graphql = GraphqlExtraction {
        producers: vec![graphql_op(
            GraphqlOperationKind::Query,
            "order",
            Some("Order"),
        )],
        consumers: vec![],
    };

    fold_graphql_transport_calls(&mut mount_graph, &graphql);

    assert_eq!(mount_graph.data_calls.len(), 1);
}

fn graphql_consumer_op_at(
    kind: GraphqlOperationKind,
    field: &str,
    file_path: &str,
    payload_symbol: Option<&str>,
) -> GraphqlOp {
    GraphqlOp {
        key: OperationKey::graphql(kind, field),
        file_path: String::from(file_path),
        line: 10,
        primary_type_symbol: None,
        payload_type_symbol: payload_symbol.map(String::from),
        payload_type_source: None,
        resolver_file: None,
        resolver_line: None,
        response_type_symbol: None,
        response_type_source: None,
        consumer_located_type_symbol: None,
        consumer_located_type_source: None,
    }
}

fn pubsub_op(
    topic: &str,
    role: PubsubRole,
    symbol: Option<&str>,
    source: Option<&str>,
) -> PubsubOperation {
    PubsubOperation {
        topic: topic.to_string(),
        role: Some(role),
        line_number: 14,
        primary_type_symbol: symbol.map(String::from),
        type_import_source: source.map(String::from),
        broker: Some("redis".to_string()),
        payload_expression_text: None,
        payload_expression_line: None,
    }
}

#[test]
fn merge_graphql_resolver_locations_joins_llm_op_onto_sdl_producer() {

    let mut graphql = GraphqlExtraction {
        producers: vec![
            graphql_op(GraphqlOperationKind::Query, "order", Some("Order")),
            graphql_op(GraphqlOperationKind::Query, "orders", Some("[Order!]!")),
        ],
        consumers: vec![],
    };

    let mut file_results: Vec<FileResult> = Vec::new();
    put(&mut file_results, 
        "packages/gateway/src/orders.resolver.ts".to_string(),
        FileAnalysisResult {
            graphql_consumer_locates: vec![],
            mounts: vec![],
            endpoints: vec![],
            data_calls: vec![],
            graphql_operations: vec![
                GraphqlOperation {
                    kind: GraphqlOperationKind::Query,
                    field: "order".to_string(),
                    resolver_function: Some("resolveOrder".to_string()),
                    resolver_line: Some(38),
                    primary_type_symbol: Some("ApiResponse".to_string()),
                    type_import_source: None,
                    backing_type_symbol: Some("Order".to_string()),
                    backing_type_source: None,
                },
                GraphqlOperation {
                    kind: GraphqlOperationKind::Mutation,
                    field: "createOrder".to_string(),
                    resolver_function: Some("createOrder".to_string()),
                    resolver_line: Some(7),
                    primary_type_symbol: None,
                    type_import_source: None,
                    backing_type_symbol: None,
                    backing_type_source: None,
                },
            ],
            pubsub_operations: vec![],
        },
    );

    merge_graphql_resolver_locations(&mut graphql, &file_results);

    let order = graphql
        .producers
        .iter()
        .find(|op| op.key.canonical() == "graphql|query|order")
        .expect("order producer");
    assert_eq!(
        order.resolver_file,
        Some(String::from("packages/gateway/src/orders.resolver.ts")),
        "the resolver file must come from the file_results key"
    );
    assert_eq!(order.resolver_line, Some(38));
    assert_eq!(order.primary_type_symbol.as_deref(), Some("Order"));
    assert_eq!(order.response_type_symbol, None);

    let orders = graphql
        .producers
        .iter()
        .find(|op| op.key.canonical() == "graphql|query|orders")
        .expect("orders producer");
    assert_eq!(orders.resolver_file, None);
    assert_eq!(orders.resolver_line, None);
    assert_eq!(orders.response_type_symbol, None);

    assert!(
        !graphql
            .producers
            .iter()
            .any(|op| op.key.canonical() == "graphql|mutation|createOrder"),
        "an LLM op with no matching SDL producer must not create a producer"
    );
}

#[test]
fn merge_graphql_type_locate_for_resolverless_field() {

    let mut graphql = GraphqlExtraction {
        producers: vec![graphql_op(
            GraphqlOperationKind::Query,
            "orders",
            Some("[Order!]!"),
        )],
        consumers: vec![],
    };

    let mut file_results: Vec<FileResult> = Vec::new();
    put(&mut file_results, 
        "packages/gateway/src/orders.resolver.ts".to_string(),
        FileAnalysisResult {
            graphql_consumer_locates: vec![],
            mounts: vec![],
            endpoints: vec![],
            data_calls: vec![],
            graphql_operations: vec![GraphqlOperation {
                kind: GraphqlOperationKind::Query,
                field: "orders".to_string(),
                resolver_function: None,
                resolver_line: None,
                primary_type_symbol: None,
                type_import_source: None,
                backing_type_symbol: Some("Order".to_string()),
                backing_type_source: None,
            }],
            pubsub_operations: vec![],
        },
    );

    merge_graphql_resolver_locations(&mut graphql, &file_results);

    let orders = graphql
        .producers
        .iter()
        .find(|op| op.key.canonical() == "graphql|query|orders")
        .expect("orders producer");
    assert_eq!(
        orders.resolver_file,
        Some(String::from("packages/gateway/src/orders.resolver.ts")),
        "the file the entry came from is still recorded"
    );
    assert_eq!(orders.resolver_line, None);
    assert_eq!(orders.response_type_symbol.as_deref(), Some("Order"));
    assert_eq!(orders.response_type_source, None);
    assert_eq!(orders.primary_type_symbol.as_deref(), Some("[Order!]!"));
}

#[test]
fn merge_graphql_whitespace_only_resolver_function_is_treated_as_absent() {

    let mut graphql = GraphqlExtraction {
        producers: vec![graphql_op(
            GraphqlOperationKind::Query,
            "orders",
            Some("[Order!]!"),
        )],
        consumers: vec![],
    };

    let mut file_results: Vec<FileResult> = Vec::new();
    put(&mut file_results, 
        "packages/gateway/src/orders.resolver.ts".to_string(),
        FileAnalysisResult {
            graphql_consumer_locates: vec![],
            mounts: vec![],
            endpoints: vec![],
            data_calls: vec![],
            graphql_operations: vec![GraphqlOperation {
                kind: GraphqlOperationKind::Query,
                field: "orders".to_string(),
                resolver_function: Some("  ".to_string()),
                resolver_line: Some(38),
                primary_type_symbol: None,
                type_import_source: None,
                backing_type_symbol: Some("Order".to_string()),
                backing_type_source: None,
            }],
            pubsub_operations: vec![],
        },
    );

    merge_graphql_resolver_locations(&mut graphql, &file_results);

    let orders = graphql
        .producers
        .iter()
        .find(|op| op.key.canonical() == "graphql|query|orders")
        .expect("orders producer");
    assert_eq!(orders.resolver_line, None);
    assert_eq!(orders.response_type_symbol.as_deref(), Some("Order"));
}

#[test]
fn merge_graphql_unusable_resolver_line_falls_back_to_backing_type() {

    let mut graphql = GraphqlExtraction {
        producers: vec![
            graphql_op(GraphqlOperationKind::Query, "order", Some("Order")),
            graphql_op(GraphqlOperationKind::Query, "orders", Some("[Order!]!")),
        ],
        consumers: vec![],
    };

    let mut file_results: Vec<FileResult> = Vec::new();
    put(&mut file_results, 
        "packages/gateway/src/orders.resolver.ts".to_string(),
        FileAnalysisResult {
            graphql_consumer_locates: vec![],
            mounts: vec![],
            endpoints: vec![],
            data_calls: vec![],
            graphql_operations: vec![
                GraphqlOperation {
                    kind: GraphqlOperationKind::Query,
                    field: "order".to_string(),
                    resolver_function: Some("resolveOrder".to_string()),
                    resolver_line: None,
                    primary_type_symbol: None,
                    type_import_source: None,
                    backing_type_symbol: Some("Order".to_string()),
                    backing_type_source: None,
                },
                GraphqlOperation {
                    kind: GraphqlOperationKind::Query,
                    field: "orders".to_string(),
                    resolver_function: Some("resolveOrders".to_string()),
                    resolver_line: Some(0),
                    primary_type_symbol: None,
                    type_import_source: None,
                    backing_type_symbol: Some("Order".to_string()),
                    backing_type_source: None,
                },
            ],
            pubsub_operations: vec![],
        },
    );

    merge_graphql_resolver_locations(&mut graphql, &file_results);

    for field in ["order", "orders"] {
        let producer = graphql
            .producers
            .iter()
            .find(|op| op.key.canonical() == format!("graphql|query|{field}"))
            .expect("producer");
        assert_eq!(
            producer.resolver_line, None,
            "{field}: an unusable resolver_line must stay None"
        );
        assert_eq!(
            producer.response_type_symbol.as_deref(),
            Some("Order"),
            "{field}: the backing-type fallback must fire when the \
             resolver line is unusable"
        );
    }

    assert!(
        collect_graphql_producer_infer_requests(&graphql)
            .is_empty(),
        "no resolver line means no FunctionReturn infer request"
    );
    let requests = collect_graphql_type_requests(&graphql);
    assert_eq!(
        requests.len(),
        2,
        "each producer must emit a backing-type SymbolRequest, got: {:?}",
        requests
    );
}

#[test]
fn merge_graphql_consumer_locations_never_overrides_explicit_generic() {

    let anchored = graphql_consumer_op_at(
        GraphqlOperationKind::Query,
        "order",
        "web-frontend/lib/graphql.ts",
        Some("OrderView"),
    );
    let mut graphql = GraphqlExtraction {
        producers: vec![],
        consumers: vec![anchored],
    };

    let mut file_results: Vec<FileResult> = Vec::new();
    put(&mut file_results, 
        "web-frontend/lib/graphql.ts".to_string(),
        FileAnalysisResult {
            graphql_consumer_locates: vec![GraphqlConsumerLocate {
                kind: GraphqlOperationKind::Query,
                field: "order".to_string(),
                result_type_symbol: "StrayType".to_string(),
                result_type_source: None,
            }],
            ..FileAnalysisResult::empty()
        },
    );

    merge_graphql_consumer_locations(&mut graphql, &file_results);

    let order = &graphql.consumers[0];
    assert_eq!(
        order.payload_type_symbol.as_deref(),
        Some("OrderView"),
        "the explicit call-site anchor must be untouched"
    );
    assert_eq!(
        order.consumer_located_type_symbol, None,
        "a stray locate entry must NEVER populate the fallback when the op \
         is already anchored"
    );
}

#[test]
fn merge_graphql_consumer_locations_scopes_fan_in_per_file() {

    let consumer_a = graphql_consumer_op_at(
        GraphqlOperationKind::Subscription,
        "orderUpdated",
        "web-frontend/lib/graphql.ts",
        None,
    );
    let consumer_b = graphql_consumer_op_at(
        GraphqlOperationKind::Subscription,
        "orderUpdated",
        "admin-dashboard/lib/graphql.ts",
        None,
    );
    let mut graphql = GraphqlExtraction {
        producers: vec![],
        consumers: vec![consumer_a, consumer_b],
    };

    let mut file_results: Vec<FileResult> = Vec::new();
    put(&mut file_results, 
        "web-frontend/lib/graphql.ts".to_string(),
        FileAnalysisResult {
            graphql_consumer_locates: vec![GraphqlConsumerLocate {
                kind: GraphqlOperationKind::Subscription,
                field: "orderUpdated".to_string(),
                result_type_symbol: "OrderUpdate".to_string(),
                result_type_source: None,
            }],
            ..FileAnalysisResult::empty()
        },
    );
    put(&mut file_results, 
        "admin-dashboard/lib/graphql.ts".to_string(),
        FileAnalysisResult {
            graphql_consumer_locates: vec![GraphqlConsumerLocate {
                kind: GraphqlOperationKind::Subscription,
                field: "orderUpdated".to_string(),
                result_type_symbol: "AdminOrderUpdate".to_string(),
                result_type_source: None,
            }],
            ..FileAnalysisResult::empty()
        },
    );

    merge_graphql_consumer_locations(&mut graphql, &file_results);

    let web = graphql
        .consumers
        .iter()
        .find(|op| op.file_path == "web-frontend/lib/graphql.ts")
        .expect("web-frontend consumer");
    assert_eq!(
        web.consumer_located_type_symbol.as_deref(),
        Some("OrderUpdate"),
        "web-frontend must get its OWN located type"
    );
    let admin = graphql
        .consumers
        .iter()
        .find(|op| op.file_path == "admin-dashboard/lib/graphql.ts")
        .expect("admin-dashboard consumer");
    assert_eq!(
        admin.consumer_located_type_symbol.as_deref(),
        Some("AdminOrderUpdate"),
        "admin-dashboard must get its OWN located type, not web-frontend's"
    );
}

#[test]
fn merge_graphql_consumer_locations_ignores_unmatched_locate_entry() {

    let consumer = graphql_consumer_op_at(
        GraphqlOperationKind::Query,
        "order",
        "web-frontend/lib/graphql.ts",
        None,
    );
    let mut graphql = GraphqlExtraction {
        producers: vec![],
        consumers: vec![consumer],
    };

    let mut file_results: Vec<FileResult> = Vec::new();
    put(&mut file_results, 
        "web-frontend/lib/graphql.ts".to_string(),
        FileAnalysisResult {
            graphql_consumer_locates: vec![GraphqlConsumerLocate {
                kind: GraphqlOperationKind::Mutation,
                field: "refundOrder".to_string(),
                result_type_symbol: "RefundReceipt".to_string(),
                result_type_source: None,
            }],
            ..FileAnalysisResult::empty()
        },
    );

    merge_graphql_consumer_locations(&mut graphql, &file_results);

    assert_eq!(graphql.consumers.len(), 1, "no new consumer op was created");
    assert_eq!(
        graphql.consumers[0].consumer_located_type_symbol, None,
        "the unrelated `order` consumer must not pick up the unmatched entry"
    );
}

#[test]
fn protocol_manifest_entries_anchor_sockets_and_graphql_producers() {

    let extractions = ProtocolExtractions {
        graphql: GraphqlExtraction {
            producers: vec![graphql_op(
                GraphqlOperationKind::Query,
                "order",
                Some("Order"),
            )],
            consumers: vec![graphql_op(GraphqlOperationKind::Query, "order", None)],
        },
        sockets: SocketExtraction {
            listeners: vec![],
            emitters: vec![socket_op(
                "payment:settled",
                SocketDirection::ServerToClient,
                Some("Payment"),
                Some("./types/payment"),
            )],
        },
    };

    let mut entries = Vec::new();
    append_protocol_manifest_entries(&mut entries, &extractions);

    let socket_entry = entries
        .iter()
        .find(|e| e.key.canonical() == "socket|SERVER->CLIENT|payment:settled")
        .expect("socket manifest entry");
    assert_eq!(socket_entry.role, ManifestRole::Consumer);
    assert_eq!(socket_entry.type_kind, ManifestTypeKind::Response);
    assert_eq!(socket_entry.primary_type_symbol.as_deref(), Some("Payment"));
    assert_eq!(
        entries
            .iter()
            .filter(|e| e.key.canonical() == "socket|SERVER->CLIENT|payment:settled")
            .count(),
        1
    );

    let graphql_producer = entries
        .iter()
        .find(|e| {
            e.key.canonical() == "graphql|query|order" && e.role == ManifestRole::Producer
        })
        .expect("graphql producer manifest entry");
    assert_eq!(
        graphql_producer.primary_type_symbol.as_deref(),
        Some("Order"),
        "the SDL producer anchor must be the field's SDL type expression"
    );
    assert!(
        !graphql_producer.type_alias.is_empty(),
        "graphql op must get a stable type_alias"
    );
    assert_eq!(graphql_producer.type_state, ManifestTypeState::Unknown);

    let graphql_consumer = entries
        .iter()
        .find(|e| {
            e.key.canonical() == "graphql|query|order" && e.role == ManifestRole::Consumer
        })
        .expect("graphql consumer manifest entry");
    assert_eq!(graphql_consumer.primary_type_symbol, None);
}

#[test]
fn socket_symbol_request_alias_matches_manifest_alias() {

    let emitter = socket_op(
        "payment:settled",
        SocketDirection::ServerToClient,
        Some("Payment"),
        Some("./types/payment"),
    );
    let emitter_key = emitter.key.clone();
    let extractions = ProtocolExtractions {
        graphql: no_graphql(),
        sockets: SocketExtraction {
            listeners: vec![],
            emitters: vec![emitter],
        },
    };

    let mut entries = Vec::new();
    append_protocol_manifest_entries(&mut entries, &extractions);
    let manifest_alias = entries
        .iter()
        .find(|e| e.key.canonical() == "socket|SERVER->CLIENT|payment:settled")
        .map(|e| e.type_alias.clone())
        .expect("socket manifest entry");

    let requests = collect_socket_type_requests(&extractions.sockets);
    let request = requests
        .iter()
        .find(|r| r.symbol_name == "Payment")
        .expect("socket SymbolRequest");

    assert_eq!(
        request.alias.as_deref(),
        Some(manifest_alias.as_str()),
        "SymbolRequest.alias must byte-match the manifest entry's alias \
         (both build_manifest_type_alias(key, Consumer, Response)) or the \
         enrich-join silently breaks"
    );
    let expected = build_manifest_type_alias(
        &emitter_key,
        ManifestRole::Consumer,
        ManifestTypeKind::Response,
    );
    assert_eq!(manifest_alias, expected);
    assert_eq!(request.alias.as_deref(), Some(expected.as_str()));
}

#[test]
fn pubsub_symbol_request_alias_matches_manifest_alias() {

    let mut file_results: Vec<FileResult> = Vec::new();
    put(&mut file_results, 
        "web-dashboard/lib/realtime.ts".to_string(),
        FileAnalysisResult {
            pubsub_operations: vec![pubsub_op(
                "metrics.page_view",
                PubsubRole::Subscriber,
                Some("PageView"),
                Some("./types/metrics"),
            )],
            ..FileAnalysisResult::empty()
        },
    );

    let mut entries = Vec::new();
    append_pubsub_manifest_entries(
        &mut entries,
        &file_results,
        &no_sockets(),
        ".",
    );
    let manifest_alias = entries
        .iter()
        .find(|e| e.key.canonical() == "pubsub|metrics.page_view")
        .map(|e| e.type_alias.clone())
        .expect("pubsub manifest entry");

    let requests = collect_pubsub_type_requests(&file_results, ".");
    let request = requests
        .iter()
        .find(|r| r.symbol_name == "PageView")
        .expect("pubsub SymbolRequest");

    assert_eq!(
        request.alias.as_deref(),
        Some(manifest_alias.as_str()),
        "pubsub SymbolRequest.alias must byte-match the manifest entry's alias \
         or the resolution enrich-join silently breaks"
    );
    let expected = build_manifest_type_alias(
        &OperationKey::pubsub("metrics.page_view"),
        ManifestRole::Producer,
        ManifestTypeKind::Response,
    );
    assert_eq!(manifest_alias, expected);
    assert_eq!(request.alias.as_deref(), Some(expected.as_str()));
}

#[test]
fn pubsub_fan_in_publishers_get_distinct_consumer_aliases() {

    let mut file_results: Vec<FileResult> = Vec::new();
    put(&mut file_results, 
        "orders-engine/src/publish.ts".to_string(),
        FileAnalysisResult {
            pubsub_operations: vec![pubsub_op(
                "order.placed",
                PubsubRole::Publisher,
                Some("OrderPlaced"),
                Some("./types/order"),
            )],
            ..FileAnalysisResult::empty()
        },
    );
    put(&mut file_results, 
        "billing-svc/src/emit.ts".to_string(),
        FileAnalysisResult {
            pubsub_operations: vec![pubsub_op(
                "order.placed",
                PubsubRole::Publisher,
                Some("OrderPlaced"),
                Some("./types/order"),
            )],
            ..FileAnalysisResult::empty()
        },
    );

    let mut entries = Vec::new();
    append_pubsub_manifest_entries(
        &mut entries,
        &file_results,
        &no_sockets(),
        ".",
    );
    let manifest_aliases: HashSet<String> = entries
        .iter()
        .filter(|e| e.key.canonical() == "pubsub|order.placed")
        .map(|e| e.type_alias.clone())
        .collect();
    assert_eq!(
        manifest_aliases.len(),
        2,
        "two fan-in publishers must yield two DISTINCT consumer aliases, not \
         one collided alias (which masks one payload type in ts_check)"
    );

    let requests = collect_pubsub_type_requests(&file_results, ".");
    let request_aliases: HashSet<String> =
        requests.iter().filter_map(|r| r.alias.clone()).collect();
    assert_eq!(
        request_aliases, manifest_aliases,
        "each publisher's SymbolRequest alias must byte-match its manifest \
         entry's alias across the fan-in set"
    );
}

#[test]
fn pubsub_infer_request_alias_matches_manifest_alias() {

    let locator_op = |topic: &str, role: PubsubRole, line: i32, text: &str| {
        PubsubOperation {
            topic: topic.to_string(),
            role: Some(role),
            line_number: line,
            primary_type_symbol: None,
            type_import_source: None,
            broker: None,
            payload_expression_text: Some(text.to_string()),
            payload_expression_line: Some(line),
        }
    };

    let mut file_results: Vec<FileResult> = Vec::new();
    put(&mut file_results, 
        "relay/src/relay.ts".to_string(),
        FileAnalysisResult {
            pubsub_operations: vec![locator_op(
                "itemArchived",
                PubsubRole::Subscriber,
                13,
                "{ time, item }",
            )],
            ..FileAnalysisResult::empty()
        },
    );
    put(&mut file_results, 
        "dispatch/src/dispatch.ts".to_string(),
        FileAnalysisResult {
            pubsub_operations: vec![
                locator_op("itemArchived", PubsubRole::Publisher, 9, "event"),
                PubsubOperation {
                    topic: "orders.placed".to_string(),
                    role: Some(PubsubRole::Publisher),
                    line_number: 30,
                    primary_type_symbol: Some("OrderPlaced".to_string()),
                    type_import_source: None,
                    broker: None,
                    payload_expression_text: Some("order".to_string()),
                    payload_expression_line: Some(30),
                },
                locator_op(
                    "records.reindex",
                    PubsubRole::Publisher,
                    41,
                    "{ id, job: \"records.reindex\", payload: { resourceId } }",
                ),
            ],
            ..FileAnalysisResult::empty()
        },
    );

    let mut entries = Vec::new();
    append_pubsub_manifest_entries(
        &mut entries,
        &file_results,
        &no_sockets(),
        ".",
    );
    let manifest_aliases: Vec<(ManifestRole, String)> = entries
        .iter()
        .filter(|e| e.key.canonical() == "pubsub|itemArchived")
        .map(|e| (e.role, e.type_alias.clone()))
        .collect();

    let requests = collect_pubsub_infer_requests(&file_results, ".");

    assert_eq!(requests.len(), 3, "requests: {requests:?}");
    assert!(
        requests
            .iter()
            .any(|r| r.expression_text.as_deref() == Some("order")),
        "an op with a primary_type_symbol and a usable locator must ALSO \
         emit an infer request so the sidecar can arbitrate the anchors"
    );
    assert!(
        !requests.iter().any(|r| r
            .expression_text
            .as_deref()
            .is_some_and(|t| t.contains("records.reindex"))),
        "a locator containing the op's topic literal is an envelope copy \
         and must be dropped, not resolved"
    );

    let subscriber = requests
        .iter()
        .find(|r| r.infer_kind == InferKind::FunctionParam)
        .expect("subscriber infer request");
    assert_eq!(subscriber.param_name.as_deref(), Some("{ time, item }"));
    assert_eq!(
        subscriber.alias.as_deref(),
        manifest_aliases.iter().find(|(r, _)| *r == ManifestRole::Producer).map(|(_, s)| s.as_str()),
        "subscriber infer alias must byte-match the Producer manifest alias"
    );

    let publisher = requests
        .iter()
        .find(|r| r.infer_kind == InferKind::Expression)
        .expect("publisher infer request");
    assert_eq!(publisher.expression_text.as_deref(), Some("event"));
    assert_eq!(
        publisher.alias.as_deref(),
        manifest_aliases.iter().find(|(r, _)| *r == ManifestRole::Consumer).map(|(_, s)| s.as_str()),
        "publisher infer alias must byte-match the Consumer manifest alias \
         (same build_call_site_id over the same path/line/key)"
    );
}

#[test]
fn pubsub_publisher_locator_defaults_expression_line_to_op_line() {

    let mut file_results: Vec<FileResult> = Vec::new();
    put(&mut file_results, 
        "dispatch/src/dispatch.ts".to_string(),
        FileAnalysisResult {
            pubsub_operations: vec![PubsubOperation {
                topic: "itemArchived".to_string(),
                role: Some(PubsubRole::Publisher),
                line_number: 9,
                primary_type_symbol: None,
                type_import_source: None,
                broker: None,
                payload_expression_text: Some("event".to_string()),
                payload_expression_line: None,
            }],
            ..FileAnalysisResult::empty()
        },
    );

    let requests = collect_pubsub_infer_requests(&file_results, ".");
    assert_eq!(requests.len(), 1);
    let request = &requests[0];
    assert_eq!(request.infer_kind, InferKind::Expression);
    assert_eq!(
        request.expression_line,
        Some(9),
        "a missing payload_expression_line must default to the op's line, \
         not fall through to an unanchored file-wide search"
    );
}

#[test]
fn pubsub_ops_reach_cloud_data_and_manifest_with_payload_anchor() {

    let mut file_results: Vec<FileResult> = Vec::new();
    put(&mut file_results, 
        "metrics-service/src/consumer.ts".to_string(),
        FileAnalysisResult {
            pubsub_operations: vec![pubsub_op(
                "metrics.page_view",
                PubsubRole::Subscriber,
                Some("PageView"),
                Some("./types/page-view"),
            )],
            ..FileAnalysisResult::empty()
        },
    );
    put(&mut file_results, 
        "web-frontend/src/track.ts".to_string(),
        FileAnalysisResult {
            pubsub_operations: vec![pubsub_op(
                "metrics.page_view",
                PubsubRole::Publisher,
                Some("PageView"),
                Some("./types/page-view"),
            )],
            ..FileAnalysisResult::empty()
        },
    );

    let extractions = ProtocolExtractions { graphql: no_graphql(), sockets: no_sockets() };
    let mut endpoints: Vec<ApiEndpointDetails> = Vec::new();
    let mut calls: Vec<ApiEndpointDetails> = Vec::new();
    append_deterministic_protocol_operations(
        &mut endpoints,
        &mut calls,
        &extractions,
        &file_results,
    );
    assert_eq!(
        endpoints
            .iter()
            .filter(|e| e.key.canonical() == "pubsub|metrics.page_view")
            .count(),
        1,
        "the subscriber must register as a producer endpoint"
    );
    assert_eq!(
        calls
            .iter()
            .filter(|c| c.key.canonical() == "pubsub|metrics.page_view")
            .count(),
        1,
        "the publisher must register as a consumer call"
    );

    let mut entries = Vec::new();
    append_pubsub_manifest_entries(
        &mut entries,
        &file_results,
        &no_sockets(),
        ".",
    );

    let producer = entries
        .iter()
        .find(|e| {
            e.key.canonical() == "pubsub|metrics.page_view" && e.role == ManifestRole::Producer
        })
        .expect("subscriber pub/sub op must emit a Producer manifest entry");
    assert_eq!(producer.type_kind, ManifestTypeKind::Response);
    assert_eq!(producer.primary_type_symbol.as_deref(), Some("PageView"));
    assert_eq!(producer.type_state, ManifestTypeState::Unknown);
    assert!(
        !producer.type_alias.is_empty(),
        "pub/sub op must get a stable type_alias"
    );

    let consumer = entries
        .iter()
        .find(|e| {
            e.key.canonical() == "pubsub|metrics.page_view" && e.role == ManifestRole::Consumer
        })
        .expect("publisher pub/sub op must emit a Consumer manifest entry");
    assert_eq!(consumer.primary_type_symbol.as_deref(), Some("PageView"));

    assert_eq!(
        entries
            .iter()
            .filter(|e| e.key.canonical() == "pubsub|metrics.page_view")
            .count(),
        2
    );
}

#[test]
fn pubsub_op_folded_when_same_file_socket_twin_present() {

    let emit_file = "payments-svc/realtime/server.ts";
    let publish_file = "payments-svc/events/orders.ts";

    let extractions = ProtocolExtractions {
        graphql: no_graphql(),
        sockets: SocketExtraction {
            listeners: vec![],
            emitters: vec![SocketOp {
                key: OperationKey::socket("payment:settled", SocketDirection::ServerToClient),
                file_path: format!("./{emit_file}"),
                line: 28,
                payload_type_symbol: Some("Payment".to_string()),
                payload_type_source: Some("../src/types".to_string()),
            }],
        },
    };

    let mut file_results: Vec<FileResult> = Vec::new();
    put(&mut file_results, 
        emit_file.to_string(),
        FileAnalysisResult {
            pubsub_operations: vec![pubsub_op(
                "payment:settled",
                PubsubRole::Publisher,
                Some("Payment"),
                Some("../src/types"),
            )],
            ..FileAnalysisResult::empty()
        },
    );
    put(&mut file_results, 
        publish_file.to_string(),
        FileAnalysisResult {
            pubsub_operations: vec![pubsub_op(
                "orders.created",
                PubsubRole::Publisher,
                Some("OrderCreated"),
                Some("./types/order"),
            )],
            ..FileAnalysisResult::empty()
        },
    );

    let mut endpoints: Vec<ApiEndpointDetails> = Vec::new();
    let mut calls: Vec<ApiEndpointDetails> = Vec::new();
    append_deterministic_protocol_operations(
        &mut endpoints,
        &mut calls,
        &extractions,
        &file_results,
    );

    assert_eq!(
        calls
            .iter()
            .filter(|c| c.key.canonical() == "socket|SERVER->CLIENT|payment:settled")
            .count(),
        1,
        "the deterministic socket emitter must be indexed as a call"
    );
    assert_eq!(
        calls
            .iter()
            .filter(|c| c.key.canonical() == "pubsub|payment:settled")
            .count(),
        0,
        "the same-file socket-twin pub/sub op must be folded, not double-indexed"
    );
    assert_eq!(
        calls
            .iter()
            .filter(|c| c.key.canonical() == "pubsub|orders.created")
            .count(),
        1,
        "a real pub/sub op with no same-file socket twin must survive"
    );

    let mut entries = Vec::new();
    append_pubsub_manifest_entries(&mut entries, &file_results, &extractions.sockets, ".");
    assert_eq!(
        entries
            .iter()
            .filter(|e| e.key.canonical() == "pubsub|payment:settled")
            .count(),
        0,
        "folded pub/sub op must leave no orphan manifest anchor"
    );
    assert_eq!(
        entries
            .iter()
            .filter(|e| e.key.canonical() == "pubsub|orders.created")
            .count(),
        1,
        "the real pub/sub op must still anchor a manifest entry"
    );
}

#[test]
fn pubsub_op_without_payload_symbol_still_anchors_and_no_role_skips() {

    let mut file_results: Vec<FileResult> = Vec::new();
    put(&mut file_results, 
        "svc/src/handlers.ts".to_string(),
        FileAnalysisResult {
            pubsub_operations: vec![
                pubsub_op("orders.created", PubsubRole::Subscriber, None, None),
                PubsubOperation {
                    topic: "orders.shipped".to_string(),
                    role: None,
                    line_number: 9,
                    primary_type_symbol: Some("Shipment".to_string()),
                    type_import_source: None,
                    broker: None,
                    payload_expression_text: None,
                    payload_expression_line: None,
                },
            ],
            ..FileAnalysisResult::empty()
        },
    );

    let mut entries = Vec::new();
    append_pubsub_manifest_entries(
        &mut entries,
        &file_results,
        &no_sockets(),
        ".",
    );

    let untyped = entries
        .iter()
        .find(|e| e.key.canonical() == "pubsub|orders.created")
        .expect("untyped subscriber still emits a manifest entry");
    assert_eq!(untyped.role, ManifestRole::Producer);
    assert_eq!(untyped.primary_type_symbol, None);

    assert!(
        !entries
            .iter()
            .any(|e| e.key.canonical() == "pubsub|orders.shipped"),
        "a pub/sub op with no role must emit no manifest entry"
    );
}

#[test]
fn graphql_symbol_request_alias_matches_manifest_alias() {
    let consumer = graphql_consumer_op("order", Some("OrderView"), Some("./types"));
    let consumer_key = consumer.key.clone();
    let extractions = ProtocolExtractions {
        graphql: GraphqlExtraction {
            producers: vec![],
            consumers: vec![consumer],
        },
        sockets: no_sockets(),
    };

    let mut entries = Vec::new();
    append_protocol_manifest_entries(&mut entries, &extractions);
    let manifest_entry = entries
        .iter()
        .find(|e| {
            e.key.canonical() == "graphql|query|order" && e.role == ManifestRole::Consumer
        })
        .expect("graphql consumer manifest entry");
    assert_eq!(
        manifest_entry.primary_type_symbol.as_deref(),
        Some("OrderView"),
        "consumer entry must carry the request<T> anchor, not the SDL None"
    );
    let manifest_alias = manifest_entry.type_alias.clone();

    let requests = collect_graphql_type_requests(&extractions.graphql);
    let request = requests
        .iter()
        .find(|r| r.symbol_name == "OrderView")
        .expect("graphql SymbolRequest");

    assert_eq!(
        request.alias.as_deref(),
        Some(manifest_alias.as_str()),
        "SymbolRequest.alias must byte-match the manifest entry's alias \
         (both build_manifest_type_alias(key, Consumer, Response)) or the \
         enrich-join silently breaks"
    );
    let expected = build_manifest_type_alias(
        &consumer_key,
        ManifestRole::Consumer,
        ManifestTypeKind::Response,
    );
    assert_eq!(manifest_alias, expected);
    assert_eq!(request.alias.as_deref(), Some(expected.as_str()));
}

#[test]
fn collect_graphql_type_requests_falls_back_to_located_type_only_when_unanchored() {

    let mut located_only = graphql_consumer_op_at(
        GraphqlOperationKind::Subscription,
        "orderUpdated",
        "web-frontend/lib/graphql.ts",
        None,
    );
    located_only.consumer_located_type_symbol = Some("OrderUpdate".to_string());

    let mut both = graphql_consumer_op("order", Some("OrderView"), Some("./types"));
    both.consumer_located_type_symbol = Some("StrayType".to_string());

    let neither = graphql_consumer_op_at(
        GraphqlOperationKind::Query,
        "unanchored",
        "web-frontend/lib/graphql.ts",
        None,
    );

    let extraction = GraphqlExtraction {
        producers: vec![],
        consumers: vec![located_only, both, neither],
    };

    let requests = collect_graphql_type_requests(&extraction);

    assert!(
        requests.iter().any(|r| r.symbol_name == "OrderUpdate"),
        "the located type must bundle when there is no call-site anchor, got: {:?}",
        requests
    );
    assert!(
        requests.iter().any(|r| r.symbol_name == "OrderView"),
        "the call-site anchor must still bundle, got: {:?}",
        requests
    );
    assert!(
        !requests.iter().any(|r| r.symbol_name == "StrayType"),
        "a stray located type on an already-anchored op must NEVER bundle, got: {:?}",
        requests
    );
    assert_eq!(
        requests.len(),
        2,
        "exactly two requests (OrderUpdate + OrderView) — the fully-unanchored \
         op produces none, got: {:?}",
        requests
    );
}

#[test]
fn graphql_producer_infer_request_alias_matches_manifest_alias() {

    let mut producer = graphql_op(GraphqlOperationKind::Query, "order", Some("Order"));
    producer.resolver_file = Some(String::from("packages/gateway/src/orders.resolver.ts"));
    producer.resolver_line = Some(38);

    let producer_key = producer.key.clone();
    let extractions = ProtocolExtractions {
        graphql: GraphqlExtraction {
            producers: vec![producer],
            consumers: vec![],
        },
        sockets: no_sockets(),
    };

    let mut entries = Vec::new();
    append_protocol_manifest_entries(&mut entries, &extractions);
    let manifest_entry = entries
        .iter()
        .find(|e| {
            e.key.canonical() == "graphql|query|order" && e.role == ManifestRole::Producer
        })
        .expect("graphql producer manifest entry");
    let manifest_alias = manifest_entry.type_alias.clone();

    let infer = collect_graphql_producer_infer_requests(&extractions.graphql);
    assert_eq!(infer.len(), 1, "exactly one producer infer request");
    let request = &infer[0];

    assert_eq!(
        request.alias.as_deref(),
        Some(manifest_alias.as_str()),
        "InferRequestItem.alias must byte-match the producer manifest entry's \
         alias (both build_manifest_type_alias(key, Producer, Response)) or the \
         expanded resolver-return type never joins back and the entry stays Unknown"
    );
    let expected = build_manifest_type_alias(
        &producer_key,
        ManifestRole::Producer,
        ManifestTypeKind::Response,
    );
    assert_eq!(manifest_alias, expected);
    assert_eq!(request.alias.as_deref(), Some(expected.as_str()));

    assert_eq!(request.infer_kind, InferKind::FunctionReturn);
    assert_eq!(request.line_number, 38);
    assert!(
        request
            .file_path
            .ends_with("packages/gateway/src/orders.resolver.ts"),
        "infer file must be the resolver file, got: {}",
        request.file_path
    );

    let bare = ProtocolExtractions {
        graphql: GraphqlExtraction {
            producers: vec![graphql_op(
                GraphqlOperationKind::Query,
                "order",
                Some("Order"),
            )],
            consumers: vec![],
        },
        sockets: no_sockets(),
    };
    assert!(
        collect_graphql_producer_infer_requests(&bare.graphql)
            .is_empty(),
        "an SDL producer with no merged resolver location produces no infer request"
    );
}

fn entry_with_state(
    key: OperationKey,
    role: ManifestRole,
    alias: &str,
    type_state: ManifestTypeState,
    primary_type_symbol: Option<&str>,
) -> TypeManifestEntry {
    let is_explicit = type_state == ManifestTypeState::Explicit;
    TypeManifestEntry {
        key,
        role,
        type_kind: ManifestTypeKind::Response,
        type_alias: alias.to_string(),
        file_path: "src/x.ts".to_string(),
        line_number: 1,
        is_explicit,
        type_state,
        evidence: TypeEvidence {
            file_path: "src/x.ts".to_string(),
            span_start: None,
            span_end: None,
            line_number: 1,
            infer_kind: InferKind::ResponseBody,
            is_explicit,
            type_state,
        },
        resolved_definition: None,
        expanded_definition: None,
        primary_type_symbol: primary_type_symbol.map(str::to_string),
    }
}

fn repo_with_manifest(repo_name: &str, manifest: Vec<TypeManifestEntry>) -> CloudRepoData {
    let mut data = CloudRepoData::bare(repo_name, None, "test-hash");
    data.type_manifest = Some(manifest);
    data
}

#[test]
fn write_manifest_files_emits_http_socket_and_all_graphql() {
    let entry = |key: OperationKey, alias: &str| {
        entry_with_state(key, ManifestRole::Producer, alias, ManifestTypeState::Explicit, None)
    };
    let manifest = vec![
        entry(OperationKey::http("GET", "/orders/:id"), "OrderResponse"),
        entry(
            OperationKey::graphql(GraphqlOperationKind::Query, "order"),
            "OrderQueryResult",
        ),
        // An unresolved entry is kept: without it the edge would look
        // compatible.
        entry_with_state(
            OperationKey::graphql(GraphqlOperationKind::Subscription, "orderUpdated"),
            ManifestRole::Producer,
            "OrderUpdatedUnknown",
            ManifestTypeState::Unknown,
            None,
        ),
        entry(
            OperationKey::socket("order.created", SocketDirection::ServerToClient),
            "OrderCreatedEvent",
        ),
    ];
    let repos = vec![repo_with_manifest("orders-svc", manifest)];

    let producers = manifest_entries_of_role(&repos, ManifestRole::Producer);
    assert_eq!(
        producers.len(),
        4,
        "HTTP + socket + both graphql producers reach the manifest; the \
         Unknown graphql entry is kept, not dropped"
    );
    assert!(producers.iter().any(|e| e.key.canonical().starts_with("http|")));
    assert!(producers.iter().any(|e| e.key.canonical().starts_with("socket|")));
    let graphql_entries: Vec<_> =
        producers.iter().filter(|e| e.key.canonical().starts_with("graphql|")).collect();
    assert_eq!(graphql_entries.len(), 2);
    assert!(graphql_entries.iter().any(|e| e.type_alias == "OrderQueryResult"));
    assert!(graphql_entries.iter().any(|e| e.type_state == ManifestTypeState::Unknown));
    assert!(manifest_entries_of_role(&repos, ManifestRole::Consumer).is_empty());
}

#[test]
fn write_manifest_files_keeps_unresolved_graphql_consumer() {
    let consumer = |field: &str, alias: &str, state: ManifestTypeState, symbol: Option<&str>| {
        entry_with_state(
            OperationKey::graphql(GraphqlOperationKind::Subscription, field),
            ManifestRole::Consumer,
            alias,
            state,
            symbol,
        )
    };
    let manifest = vec![
        consumer("orderUpdated", "Endpoint_unknown_Response", ManifestTypeState::Unknown, None),
        consumer("orderPromoted", "Endpoint_promoted_Response", ManifestTypeState::Implicit, None),
        consumer(
            "orderResolved",
            "Endpoint_resolved_Response",
            ManifestTypeState::Implicit,
            Some("OrderView"),
        ),
    ];
    let repos = vec![repo_with_manifest("web-frontend", manifest)];

    let consumers = manifest_entries_of_role(&repos, ManifestRole::Consumer);
    assert_eq!(consumers.len(), 3, "all graphql consumers reach the manifest");
    assert!(
        consumers.iter().any(|e| e.type_alias == "Endpoint_resolved_Response"),
        "the genuinely-resolved consumer is kept"
    );
    assert!(
        consumers.iter().any(|e| e.type_state == ManifestTypeState::Unknown),
        "the Unknown consumer is kept (unverifiable, not dropped)"
    );
    assert!(
        consumers.iter().any(|e| e.primary_type_symbol.is_none()),
        "the anchorless consumer is kept (unverifiable, not dropped)"
    );
}

fn repo_with_bundle(
    repo_name: &str,
    service_name: Option<&str>,
    bundled_types: &str,
) -> CloudRepoData {
    let mut data =
        CloudRepoData::bare(repo_name, service_name.map(str::to_string), "test-hash");
    data.bundled_types = Some(bundled_types.to_string());
    data
}

#[test]
fn bundle_file_stems_are_unique_per_service_in_a_monorepo() {
    let repos = vec![
        repo_with_bundle("orders-monorepo", Some("orders-pkg"), "// a"),
        repo_with_bundle("orders-monorepo", Some("gateway"), "// b"),
        // A path separator must not escape the output directory.
        repo_with_bundle("orders-monorepo", Some("scope/pkg"), "// c"),
        // Without a service name both fall back to the repository's.
        repo_with_bundle("other-repo", None, "// d"),
        repo_with_bundle("other-repo", None, "// e"),
    ];

    let stems = bundle_file_stems(&repos);

    assert_eq!(
        stems,
        vec![
            "orders-pkg".to_string(),
            "gateway".to_string(),
            "scope_pkg".to_string(),
            "other-repo".to_string(),
            "other-repo_1".to_string(),
        ]
    );
    let unique: HashSet<&String> = stems.iter().collect();
    assert_eq!(
        unique.len(),
        stems.len(),
        "every service must get a distinct bundle stem so no write clobbers another"
    );
}

#[test]
fn monorepo_producer_explicit_type_survives_into_bundle() {
    let orders_alias = "Endpoint_5d19c4207b67a294_Response";
    let orders_bundle = format!(
        "export type {orders_alias} = {{ id: number; amountCents: number; currency: string }};\n"
    );
    let gateway_alias = "Endpoint_aaaaaaaaaaaaaaaa_Response";
    let gateway_bundle = format!("export type {gateway_alias} = {{ status: string }};\n");

    let repos = vec![
        repo_with_bundle("orders-monorepo", Some("orders-pkg"), &orders_bundle),
        repo_with_bundle("orders-monorepo", Some("gateway"), &gateway_bundle),
        CloudRepoData::bare("without-types", None, "c"),
    ];

    let files = bundle_files(&repos);
    assert_eq!(files.len(), 2, "each service must get its own bundle file, not share one");
    assert_eq!(files[0].name, "orders-pkg_types.d.ts");
    assert_eq!(files[1].name, "gateway_types.d.ts");
    let combined = format!("{}\n{}\n", files[0].content, files[1].content);

    assert!(
        combined.contains(&format!(
            "export type {orders_alias} = {{ id: number; amountCents: number; currency: string }}"
        )),
        "the orders-pkg producer's explicit Order shape must survive into the bundle, got:\n{combined}"
    );
    assert!(
        !combined.contains(&format!("export type {orders_alias} = unknown")),
        "the producer alias must resolve to its real members, not a dangling = unknown placeholder"
    );
    assert!(
        combined.contains(&format!("export type {gateway_alias} = {{ status: string }}")),
        "the gateway sibling's types must coexist in its own bundle file"
    );
}

fn call(method: &str, path: &str, target: &str, location: &str) -> DataFetchingCall {
    DataFetchingCall {
        method: method.to_string(),
        canonical_path: path.to_string(),
        target_url: target.to_string(),
        client: "fetch".to_string(),
        file_location: location.to_string(),
        call_kind: None,
        is_probable_url: true,
    }
}

fn endpoint(path: &str, location: &str, evidence: MatchEvidence) -> ResolvedEndpoint {
    ResolvedEndpoint {
        method: "GET".to_string(),
        path: path.to_string(),
        full_path: path.to_string(),
        handler: None,
        owner: "app".to_string(),
        file_location: location.to_string(),
        evidence,
        provenance: None,
    }
}

#[test]
fn test_consumer_manifest_paths_strip_env_var_base_urls() {
    // The canonical path is computed where the call is found; the manifest
    // takes it as it stands, never the raw target.
    let calls = vec![
        call(
            "GET",
            "/api/users/:userId",
            "`${USER_SERVICE_URL}/api/users/${order.userId}`",
            "src/orders.ts:42",
        ),
        call(
            "GET",
            "/api/notifications/status",
            "`${NOTIFICATION_SERVICE_URL}/api/notifications/status`",
            "src/notify.ts:7",
        ),
    ];
    let entries = build_type_manifest_entries(&vec![], &calls, ".");
    let consumer_paths: Vec<&str> = entries
        .iter()
        .filter(|e| e.role == ManifestRole::Consumer)
        .filter_map(|e| e.key.as_http().map(|(_, path)| path.as_str()))
        .collect();
    assert!(!consumer_paths.is_empty(), "consumer entries expected");
    for path in &consumer_paths {
        assert!(
            !path.contains("_SERVICE_URL"),
            "env-var base URL leaked into consumer manifest path: {}",
            path
        );
    }
    assert!(
        consumer_paths.contains(&"/api/users/:userId"),
        "expected normalized user-service path, got {:?}",
        consumer_paths
    );
    assert!(
        consumer_paths.contains(&"/api/notifications/status"),
        "expected normalized notification path, got {:?}",
        consumer_paths
    );
}

#[test]
fn test_duplicate_producer_keys_yield_one_manifest_entry() {
    let endpoints = vec![
        endpoint("/api/orders/:id", "src/routes/orders.ts:11", MatchEvidence::RouteDefinition),
        endpoint("/api/orders/:id", "src/routes/orders.ts:42", MatchEvidence::RouteDefinition),
    ];
    let entries = build_type_manifest_entries(&endpoints, &vec![], ".");

    let producer_aliases: Vec<&str> = entries
        .iter()
        .filter(|e| e.role == ManifestRole::Producer)
        .map(|e| e.type_alias.as_str())
        .collect();
    let unique: HashSet<&&str> = producer_aliases.iter().collect();
    assert_eq!(
        producer_aliases.len(),
        unique.len(),
        "same-key producers must not share a manifest alias: {:?}",
        producer_aliases
    );
    assert_eq!(
        producer_aliases.len(),
        1,
        "duplicate same-key producer must be dropped, leaving one entry: {:?}",
        producer_aliases
    );
    let survivor = entries
        .iter()
        .find(|e| e.role == ManifestRole::Producer)
        .expect("one producer entry expected");
    assert_eq!(survivor.file_path, "src/routes/orders.ts");
    assert_eq!(survivor.line_number, 11);
}

#[test]
fn test_call_site_evidence_endpoint_emits_no_producer_manifest_entries() {
    let mut twin =
        endpoint("/v2/widgets", "operations/create-widget.ts:14", MatchEvidence::CallSite);
    twin.method = "POST".to_string();
    let calls =
        vec![call("POST", "/v2/widgets", "/v2/widgets", "operations/create-widget.ts:14")];

    let entries = build_type_manifest_entries(&vec![twin], &calls, ".");

    assert!(
        entries.iter().all(|e| e.role != ManifestRole::Producer),
        "call-site evidence must not produce Producer manifest entries"
    );
    assert!(
        entries.iter().any(|e| e.role == ManifestRole::Consumer),
        "the twin call's Consumer entries are still emitted"
    );
}

#[test]
fn aliases_are_defined_by_types_and_interfaces() {
    let dts = "export interface Payment { id: string }\nexport type Order<T> = T;\n";
    assert!(dts_defines_alias(dts, "Payment"));
    assert!(dts_defines_alias(dts, "Order"));
    assert!(!dts_defines_alias(dts, "Pay"));
    assert!(!dts_defines_alias(dts, "O.der"));
}

#[test]
fn missing_aliases_are_appended_once() {
    let manifest = vec![consumer_entry("OrderView"), consumer_entry("Payment")];
    let once = append_missing_aliases("type Payment = number".to_string(), Some(&manifest));
    assert_eq!(
        once,
        format!("type Payment = number\nexport type OrderView = unknown; {MISSING_ALIAS_MARKER}\n")
    );
    assert_eq!(append_missing_aliases(once.clone(), Some(&manifest)), once);
    assert_eq!(append_missing_aliases("x".to_string(), None), "x");
    assert_eq!(append_missing_aliases("x".to_string(), Some(&vec![])), "x");
}

#[test]
fn an_alias_at_the_end_of_the_bundle_stays_declared() {
    let manifest = vec![consumer_entry("OrderView"), consumer_entry("Payment")];
    let once = append_missing_aliases("interface Payment".to_string(), Some(&manifest));
    assert_eq!(
        once,
        format!("interface Payment\nexport type OrderView = unknown; {MISSING_ALIAS_MARKER}\n")
    );
    assert!(dts_defines_alias(&once, "OrderView"));
    assert!(dts_defines_alias(&once, "Payment"));
    assert!(!dts_defines_alias(&once, "Order"));
    let alone = vec![consumer_entry("OrderView")];
    assert_eq!(append_missing_aliases("interface Payment".to_string(), Some(&alone)), once);
}
