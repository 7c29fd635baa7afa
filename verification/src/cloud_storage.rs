//! The records that are exchanged with the index: one per analysed service.

use vstd::prelude::*;

use crate::file_analysis::FileResult;
use crate::framework_detector::DetectionResult;
use crate::mount_graph::MountGraph;
use crate::operation::OperationKey;
use crate::packages::Packages;
use crate::{operation, text};

verus! {

/// The version of the capture artifact that this build reads and writes.
pub const CAPTURE_ARTIFACT_VERSION: u32 = 1;

/// Which side of a contract a manifest entry is on.
#[derive(Clone, Copy, PartialEq, Eq, Structural, Debug)]
pub enum ManifestRole {
    Producer,
    Consumer,
}

/// Whether a manifest entry types a request or a response.
#[derive(Clone, Copy, PartialEq, Eq, Structural, Debug)]
pub enum ManifestTypeKind {
    Request,
    Response,
}

/// How far a manifest entry's type was resolved.
#[derive(Clone, Copy, PartialEq, Eq, Structural, Debug)]
pub enum ManifestTypeState {
    Explicit,
    Implicit,
    Unknown,
}

/// What an inference looks at.
#[derive(Clone, Copy, PartialEq, Eq, Structural, Debug)]
pub enum InferKind {
    CallResult,
    ResponseBody,
    RequestBody,
    FunctionReturn,
    FunctionParam,
    Expression,
}

/// Where the type of a manifest entry was seen.
#[derive(Debug)]
pub struct TypeEvidence {
    pub file_path: String,
    pub span_start: Option<u32>,
    pub span_end: Option<u32>,
    pub line_number: u32,
    pub infer_kind: InferKind,
    pub is_explicit: bool,
    pub type_state: ManifestTypeState,
}

/// One typed side of an operation.
#[derive(Debug)]
pub struct TypeManifestEntry {
    pub key: OperationKey,
    pub role: ManifestRole,
    pub type_kind: ManifestTypeKind,
    pub type_alias: String,
    pub file_path: String,
    pub line_number: u32,
    pub is_explicit: bool,
    pub type_state: ManifestTypeState,
    pub evidence: TypeEvidence,
    pub resolved_definition: Option<String>,
    pub expanded_definition: Option<String>,
    pub primary_type_symbol: Option<String>,
}

impl Clone for TypeEvidence {
    fn clone(&self) -> (r: Self)
        ensures
            r == *self,
    {
        TypeEvidence {
            file_path: self.file_path.clone(),
            span_start: self.span_start,
            span_end: self.span_end,
            line_number: self.line_number,
            infer_kind: self.infer_kind,
            is_explicit: self.is_explicit,
            type_state: self.type_state,
        }
    }
}

impl Clone for TypeManifestEntry {
    fn clone(&self) -> (r: Self)
        ensures
            r == *self,
    {
        TypeManifestEntry {
            key: self.key.clone(),
            role: self.role,
            type_kind: self.type_kind,
            type_alias: self.type_alias.clone(),
            file_path: self.file_path.clone(),
            line_number: self.line_number,
            is_explicit: self.is_explicit,
            type_state: self.type_state,
            evidence: self.evidence.clone(),
            resolved_definition: text::copy_opt(&self.resolved_definition),
            expanded_definition: text::copy_opt(&self.expanded_definition),
            primary_type_symbol: text::copy_opt(&self.primary_type_symbol),
        }
    }
}

/// The model of a [`TypeEvidence`].
pub struct EvidenceModel {
    pub file_path: Seq<char>,
    pub span_start: Option<u32>,
    pub span_end: Option<u32>,
    pub line_number: u32,
    pub infer_kind: InferKind,
    pub is_explicit: bool,
    pub type_state: ManifestTypeState,
}

/// The model of a [`TypeManifestEntry`].
pub struct EntryModel {
    pub key: operation::KeyModel,
    pub role: ManifestRole,
    pub type_kind: ManifestTypeKind,
    pub type_alias: Seq<char>,
    pub file_path: Seq<char>,
    pub line_number: u32,
    pub is_explicit: bool,
    pub type_state: ManifestTypeState,
    pub evidence: EvidenceModel,
    pub resolved_definition: Option<Seq<char>>,
    pub expanded_definition: Option<Seq<char>>,
    pub primary_type_symbol: Option<Seq<char>>,
}

impl DeepView for TypeManifestEntry {
    type V = EntryModel;

    open spec fn deep_view(&self) -> EntryModel {
        EntryModel {
            key: self.key@,
            role: self.role,
            type_kind: self.type_kind,
            type_alias: self.type_alias@,
            file_path: self.file_path@,
            line_number: self.line_number,
            is_explicit: self.is_explicit,
            type_state: self.type_state,
            evidence: EvidenceModel {
                file_path: self.evidence.file_path@,
                span_start: self.evidence.span_start,
                span_end: self.evidence.span_end,
                line_number: self.evidence.line_number,
                infer_kind: self.evidence.infer_kind,
                is_explicit: self.evidence.is_explicit,
                type_state: self.evidence.type_state,
            },
            resolved_definition: self.resolved_definition.deep_view(),
            expanded_definition: self.expanded_definition.deep_view(),
            primary_type_symbol: self.primary_type_symbol.deep_view(),
        }
    }
}

/// One file of a captured stub package.
#[derive(Clone, Debug)]
pub struct StubFile {
    pub path: String,
    pub content: String,
}

/// The captured type surface of a service.
#[derive(Clone, Debug)]
pub struct CaptureStubArtifact {
    pub artifact_version: u32,
    pub package_name: String,
    pub ts_version: String,
    pub bare_checkout: bool,
    pub files: Vec<StubFile>,
}

/// A type referred to by an endpoint.
#[derive(Clone, Debug)]
pub struct TypeReference {
    pub file_path: String,
    pub type_ann: Option<String>,
    pub start_position: usize,
    pub composite_type_string: String,
    pub alias: String,
}

/// An endpoint or a call, as the index holds it.
#[derive(Clone, Debug)]
pub struct ApiEndpointDetails {
    pub owner: Option<String>,
    pub key: OperationKey,
    pub params: Vec<String>,
    pub request_body: Option<String>,
    pub response_body: Option<String>,
    pub handler_name: Option<String>,
    pub request_type: Option<TypeReference>,
    pub response_type: Option<TypeReference>,
    /// `file:line`
    pub file_path: String,
    pub repo_name: Option<String>,
    pub service_name: Option<String>,
    /// What the source of the operation was classified as.
    pub provenance: Option<String>,
}

/// A router mounted on an application.
#[derive(Clone, Debug)]
pub struct Mount {
    pub parent: String,
    pub child: String,
    pub prefix: String,
}

/// A call made inside a function.
#[derive(Clone, Debug)]
pub struct FunctionCallRef {
    pub name: String,
    pub file_path: String,
    pub line_number: u32,
}

/// A function found in the sources.
#[derive(Clone, Debug)]
pub struct FunctionDefinition {
    pub name: String,
    pub file_path: String,
    pub line_number: u32,
    pub is_exported: bool,
    pub intent: Option<String>,
    pub intent_input_hash: Option<String>,
    pub calls: Vec<FunctionCallRef>,
    pub signature: Option<String>,
}

/// The verdict of a type check on one edge.
#[derive(Clone, Debug)]
pub struct CompatVerdict {
    pub producer_key: String,
    pub consumer_key: String,
    pub consumer_location: Option<String>,
    pub type_compatible: bool,
    pub mismatch_reason: Option<String>,
}

/// One analysed service.
#[derive(Clone, Debug)]
pub struct CloudRepoData {
    pub repo_name: String,
    pub service_name: Option<String>,
    pub endpoints: Vec<ApiEndpointDetails>,
    pub calls: Vec<ApiEndpointDetails>,
    pub mounts: Vec<Mount>,
    pub function_definitions: Vec<FunctionDefinition>,
    pub config_json: Option<String>,
    pub package_json: Option<String>,
    pub packages: Option<Packages>,
    /// When the service was analysed, as RFC 3339 writes a time.
    pub last_updated: String,
    pub commit_hash: String,
    pub mount_graph: Option<MountGraph>,
    pub bundled_types: Option<String>,
    pub type_manifest: Option<Vec<TypeManifestEntry>>,
    pub file_results: Option<Vec<FileResult>>,
    pub cached_detection: Option<DetectionResult>,
    pub cached_guidance: Option<String>,
    pub cached_extraction_config: Option<String>,
    pub package_json_hash: Option<String>,
    pub cache_version: Option<u32>,
    pub type_extraction_status: Option<String>,
    pub compat_verdicts: Option<Vec<CompatVerdict>>,
    pub capture_stub: Option<CaptureStubArtifact>,
}

/// The name by which a service is attributed: its own, else its repository's.
pub open spec fn service_id_spec(repo: CloudRepoData) -> Seq<char> {
    match repo.service_name {
        Some(s) => s@,
        None => repo.repo_name@,
    }
}

impl CloudRepoData {
    /// A record that carries only the names and the commit, with no time.
    pub fn bare(repo_name: &str, service_name: Option<String>, commit_hash: &str) -> (r: Self)
        ensures
            r.repo_name@ == repo_name@,
            r.service_name == service_name,
            r.commit_hash@ == commit_hash@,
            r.endpoints@.len() == 0,
            r.calls@.len() == 0,
            r.mounts@.len() == 0,
            r.function_definitions@.len() == 0,
            r.config_json is None,
            r.package_json is None,
            r.packages is None,
            r.last_updated@.len() == 0,
            r.mount_graph is None,
            r.bundled_types is None,
            r.type_manifest is None,
            r.file_results is None,
            r.cached_detection is None,
            r.cached_guidance is None,
            r.cached_extraction_config is None,
            r.package_json_hash is None,
            r.cache_version is None,
            r.type_extraction_status is None,
            r.compat_verdicts is None,
            r.capture_stub is None,
    {
        CloudRepoData {
            repo_name: text::owned(repo_name),
            service_name,
            endpoints: Vec::new(),
            calls: Vec::new(),
            mounts: Vec::new(),
            function_definitions: Vec::new(),
            config_json: None,
            package_json: None,
            packages: None,
            last_updated: String::new(),
            commit_hash: text::owned(commit_hash),
            mount_graph: None,
            bundled_types: None,
            type_manifest: None,
            file_results: None,
            cached_detection: None,
            cached_guidance: None,
            cached_extraction_config: None,
            package_json_hash: None,
            cache_version: None,
            type_extraction_status: None,
            compat_verdicts: None,
            capture_stub: None,
        }
    }

    /// The name by which the service is attributed.
    pub fn service_id(&self) -> (r: &str)
        ensures
            r@ == service_id_spec(*self),
    {
        match &self.service_name {
            Some(s) => s.as_str(),
            None => self.repo_name.as_str(),
        }
    }
}

} // verus!
