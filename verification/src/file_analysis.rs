//! What the analysis of one source file yields.

use vstd::prelude::*;

use crate::operation::{GraphqlOperationKind, PubsubRole};

verus! {

/// An endpoint found in a file.
#[derive(Clone, Debug)]
pub struct EndpointResult {
    pub candidate_id: String,
    pub line_number: i32,
    pub owner_node: String,
    pub method: String,
    pub path: String,
    pub handler_name: String,
    pub pattern_matched: String,
    pub call_expression_span_start: Option<u32>,
    pub call_expression_span_end: Option<u32>,
    pub payload_expression_text: Option<String>,
    pub payload_expression_line: Option<i32>,
    pub response_expression_text: Option<String>,
    pub response_expression_line: Option<i32>,
    pub emission_style: Option<String>,
    pub primary_type_symbol: Option<String>,
    pub type_import_source: Option<String>,
}

/// An outgoing data call found in a file.
#[derive(Clone, Debug)]
pub struct DataCallResult {
    pub call_kind: Option<String>,
    pub candidate_id: String,
    pub line_number: i32,
    pub target: String,
    pub method: Option<String>,
    pub pattern_matched: String,
    pub call_expression_span_start: Option<u32>,
    pub call_expression_span_end: Option<u32>,
    pub call_expression_text: Option<String>,
    pub call_expression_line: Option<i32>,
    pub payload_expression_text: Option<String>,
    pub payload_expression_line: Option<i32>,
    pub primary_type_symbol: Option<String>,
    pub type_import_source: Option<String>,
}

/// A router mount found in a file.
#[derive(Clone, Debug)]
pub struct MountResult {
    pub line_number: i32,
    pub parent_node: String,
    pub child_node: String,
    pub mount_path: String,
    pub import_source: Option<String>,
    pub pattern_matched: String,
}

/// A resolver located for a GraphQL schema field.
#[derive(Clone, Debug)]
pub struct GraphqlOperation {
    pub kind: GraphqlOperationKind,
    pub field: String,
    pub resolver_function: Option<String>,
    pub resolver_line: Option<i32>,
    pub primary_type_symbol: Option<String>,
    pub type_import_source: Option<String>,
    pub backing_type_symbol: Option<String>,
    pub backing_type_source: Option<String>,
}

/// A result type located for a GraphQL document.
#[derive(Clone, Debug)]
pub struct GraphqlConsumerLocate {
    pub kind: GraphqlOperationKind,
    pub field: String,
    pub result_type_symbol: String,
    pub result_type_source: Option<String>,
}

/// A publish or a subscription found in a file.
#[derive(Clone, Debug)]
pub struct PubsubOperation {
    pub topic: String,
    pub role: Option<PubsubRole>,
    pub line_number: i32,
    pub primary_type_symbol: Option<String>,
    pub type_import_source: Option<String>,
    pub broker: Option<String>,
    pub payload_expression_text: Option<String>,
    pub payload_expression_line: Option<i32>,
}

/// Everything found in one file.
#[derive(Clone, Debug)]
pub struct FileAnalysisResult {
    pub mounts: Vec<MountResult>,
    pub endpoints: Vec<EndpointResult>,
    pub data_calls: Vec<DataCallResult>,
    pub graphql_operations: Vec<GraphqlOperation>,
    pub graphql_consumer_locates: Vec<GraphqlConsumerLocate>,
    pub pubsub_operations: Vec<PubsubOperation>,
}

impl FileAnalysisResult {
    /// A result with nothing in it.
    pub fn empty() -> (r: Self)
        ensures
            r.mounts@.len() == 0,
            r.endpoints@.len() == 0,
            r.data_calls@.len() == 0,
            r.graphql_operations@.len() == 0,
            r.graphql_consumer_locates@.len() == 0,
            r.pubsub_operations@.len() == 0,
    {
        FileAnalysisResult {
            mounts: Vec::new(),
            endpoints: Vec::new(),
            data_calls: Vec::new(),
            graphql_operations: Vec::new(),
            graphql_consumer_locates: Vec::new(),
            pubsub_operations: Vec::new(),
        }
    }
}

/// The result of one file, under the file's path.
#[derive(Clone, Debug)]
pub struct FileResult {
    pub path: String,
    pub result: FileAnalysisResult,
}

} // verus!
