//! The result of the cross-repository analysis.

use vstd::prelude::*;

use crate::cloud_storage::ApiEndpointDetails;
use crate::findings::Finding;

verus! {

/// How serious a dependency conflict is.
#[derive(Clone, Copy, PartialEq, Eq, Structural, Debug)]
pub enum ConflictSeverity {
    Critical,
    Warning,
    Info,
}

/// A repository that uses a package at a version.
#[derive(Debug)]
pub struct RepoPackageInfo {
    pub repo_name: String,
    pub version: String,
    pub source_path: String,
}

/// A package that repositories use at different versions.
#[derive(Debug)]
pub struct DependencyConflict {
    pub package_name: String,
    pub repos: Vec<RepoPackageInfo>,
    pub severity: ConflictSeverity,
}

/// A producer and a consumer that were matched.
#[derive(Debug)]
pub struct MatchedEdge {
    pub producer_repo: String,
    pub producer_key: String,
    pub consumer_repo: String,
    pub consumer_key: String,
    pub consumer_location: Option<String>,
    /// The score's floating-point representation, bit for bit.
    pub match_score_bits: u64,
    pub type_compatible: Option<bool>,
    pub mismatch_reason: Option<String>,
}

/// Everything that the analysis yields.
#[derive(Debug)]
pub struct ApiAnalysisResult {
    pub endpoints: Vec<ApiEndpointDetails>,
    pub calls: Vec<ApiEndpointDetails>,
    pub findings: Vec<Finding>,
    pub dependency_conflicts: Vec<DependencyConflict>,
    pub verified_endpoints: Vec<(String, String)>,
    /// What the source of each verified endpoint was classified as, in the same
    /// order.
    pub verified_provenance: Vec<String>,
    pub detected_graphql_libraries: Vec<String>,
    pub graphql_operations_indexed: bool,
    pub cross_repo_matches: Vec<MatchedEdge>,
}

impl ApiAnalysisResult {
    /// A result with nothing but findings.
    pub fn with_findings(findings: Vec<Finding>) -> (r: Self)
        ensures
            r.findings == findings,
            r.endpoints@.len() == 0,
            r.calls@.len() == 0,
            r.dependency_conflicts@.len() == 0,
            r.verified_endpoints@.len() == 0,
            r.verified_provenance@.len() == 0,
            r.detected_graphql_libraries@.len() == 0,
            !r.graphql_operations_indexed,
            r.cross_repo_matches@.len() == 0,
    {
        ApiAnalysisResult {
            endpoints: Vec::new(),
            calls: Vec::new(),
            findings,
            dependency_conflicts: Vec::new(),
            verified_endpoints: Vec::new(),
            verified_provenance: Vec::new(),
            detected_graphql_libraries: Vec::new(),
            graphql_operations_indexed: false,
            cross_repo_matches: Vec::new(),
        }
    }
}

} // verus!
