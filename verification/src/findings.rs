//! What an analysis finds, and the setting in which it is reported.

use vstd::prelude::*;

use crate::sorting::{Keyed, SortKey};
use crate::{sorting, text};

verus! {

/// A package at a version, in a repository.
#[derive(Debug)]
pub struct PackageVersionRef {
    pub repo: String,
    pub version: String,
    pub source: String,
}

/// Something found by the analysis.
#[derive(Debug)]
pub enum Finding {
    TypeMismatch {
        method: String,
        path: String,
        service: Option<String>,
        call_sites: Vec<String>,
        producer_type: String,
        consumer_type: String,
        detail: String,
    },
    MethodMismatch {
        method: String,
        path: String,
        service: Option<String>,
        call_sites: Vec<String>,
        expected_method: String,
    },
    MissingEndpoint {
        method: String,
        path: String,
        service: Option<String>,
        call_sites: Vec<String>,
    },
    OrphanedEndpoint { method: String, path: String, service: Option<String> },
    EnvVarCall { method: String, path: String, env_var: String, call_sites: Vec<String> },
    DependencyConflict {
        package_name: String,
        tier: String,
        versions: Vec<PackageVersionRef>,
    },
}

impl Finding {
    /// A consumer's type that does not fit the producer's.
    pub fn type_mismatch(
        method: &str,
        path: &str,
        service: Option<String>,
        call_sites: Vec<String>,
        producer_type: &str,
        consumer_type: &str,
        detail: &str,
    ) -> (r: Self)
        ensures
            r is TypeMismatch,
            r->TypeMismatch_method@ == method@,
            r->TypeMismatch_path@ == path@,
            r->TypeMismatch_service == service,
            r->TypeMismatch_call_sites == call_sites,
            r->producer_type@ == producer_type@,
            r->consumer_type@ == consumer_type@,
            r->detail@ == detail@,
    {
        Finding::TypeMismatch {
            method: text::owned(method),
            path: text::owned(path),
            service,
            call_sites,
            producer_type: text::owned(producer_type),
            consumer_type: text::owned(consumer_type),
            detail: text::owned(detail),
        }
    }

    /// A call with a method that the producer does not serve.
    pub fn method_mismatch(
        method: &str,
        path: &str,
        service: Option<String>,
        call_sites: Vec<String>,
        expected_method: &str,
    ) -> (r: Self)
        ensures
            r is MethodMismatch,
            r->MethodMismatch_method@ == method@,
            r->MethodMismatch_path@ == path@,
            r->MethodMismatch_service == service,
            r->MethodMismatch_call_sites == call_sites,
            r->expected_method@ == expected_method@,
    {
        Finding::MethodMismatch {
            method: text::owned(method),
            path: text::owned(path),
            service,
            call_sites,
            expected_method: text::owned(expected_method),
        }
    }

    /// A call without a producer.
    pub fn missing_endpoint(
        method: &str,
        path: &str,
        service: Option<String>,
        call_sites: Vec<String>,
    ) -> (r: Self)
        ensures
            r is MissingEndpoint,
            r->MissingEndpoint_method@ == method@,
            r->MissingEndpoint_path@ == path@,
            r->MissingEndpoint_service == service,
            r->MissingEndpoint_call_sites == call_sites,
    {
        Finding::MissingEndpoint {
            method: text::owned(method),
            path: text::owned(path),
            service,
            call_sites,
        }
    }

    /// A producer without a consumer.
    pub fn orphaned_endpoint(method: &str, path: &str, service: Option<String>) -> (r: Self)
        ensures
            r is OrphanedEndpoint,
            r->OrphanedEndpoint_method@ == method@,
            r->OrphanedEndpoint_path@ == path@,
            r->OrphanedEndpoint_service == service,
    {
        Finding::OrphanedEndpoint { method: text::owned(method), path: text::owned(path), service }
    }

    /// A call whose address comes from an environment variable.
    pub fn env_var_call(method: &str, path: &str, env_var: &str, call_sites: Vec<String>) -> (r:
        Self)
        ensures
            r is EnvVarCall,
            r->EnvVarCall_method@ == method@,
            r->EnvVarCall_path@ == path@,
            r->env_var@ == env_var@,
            r->EnvVarCall_call_sites == call_sites,
    {
        Finding::EnvVarCall {
            method: text::owned(method),
            path: text::owned(path),
            env_var: text::owned(env_var),
            call_sites,
        }
    }

    /// A package at different versions.
    pub fn dependency_conflict(
        package_name: &str,
        tier: &str,
        versions: Vec<PackageVersionRef>,
    ) -> (r: Self)
        ensures
            r is DependencyConflict,
            r->package_name@ == package_name@,
            r->tier@ == tier@,
            r->versions == versions,
    {
        Finding::DependencyConflict {
            package_name: text::owned(package_name),
            tier: text::owned(tier),
            versions,
        }
    }
}

/// The services that an analysis looked at.
#[derive(Debug)]
pub struct Topology {
    pub repo_name: String,
    pub local_service_count: usize,
    pub peer_repo_count: usize,
}

/// An operation of a service.
#[derive(Debug)]
pub struct EndpointRef {
    pub method: String,
    pub path: String,
    pub service: Option<String>,
}

/// The model of an [`EndpointRef`].
pub struct EndpointRefModel {
    pub method: Seq<char>,
    pub path: Seq<char>,
    pub service: Option<Seq<char>>,
}

impl DeepView for EndpointRef {
    type V = EndpointRefModel;

    open spec fn deep_view(&self) -> EndpointRefModel {
        EndpointRefModel {
            method: self.method@,
            path: self.path@,
            service: self.service.deep_view(),
        }
    }
}

/// A text that orders services as they are ordered: none before any.
pub open spec fn service_rank(service: Option<Seq<char>>) -> Seq<char> {
    match service {
        Some(s) => "1"@ + s,
        None => "0"@,
    }
}

impl Keyed for EndpointRefModel {
    open spec fn sort_key(&self) -> Seq<Seq<char>> {
        seq![self.method, self.path, service_rank(self.service)]
    }
}

impl Keyed for EndpointRef {
    open spec fn sort_key(&self) -> Seq<Seq<char>> {
        seq![self.method@, self.path@, service_rank(self.service.deep_view())]
    }
}

fn rank_service(service: &Option<String>) -> (r: String)
    ensures
        r@ == service_rank(service.deep_view()),
{
    match service {
        Some(s) => text::cat2("1", s),
        None => text::owned("0"),
    }
}

impl SortKey for EndpointRef {
    fn key_at_most(&self, other: &Self) -> (r: bool) {
        sorting::three_texts_at_most(
            &self.method,
            &self.path,
            &rank_service(&self.service),
            &other.method,
            &other.path,
            &rank_service(&other.service),
        )
    }
}

/// What a change adds to and takes from the indexed operations.
#[derive(Debug)]
pub struct PrDelta {
    pub new_endpoints: Vec<EndpointRef>,
    pub removed_endpoints: Vec<EndpointRef>,
}

impl PrDelta {
    /// Whether nothing changed.
    pub fn is_empty(&self) -> (r: bool)
        ensures
            r == (self.new_endpoints@.len() == 0 && self.removed_endpoints@.len() == 0),
    {
        self.new_endpoints.len() == 0 && self.removed_endpoints.len() == 0
    }
}

/// How much an analysis looked at.
#[derive(Clone, Copy, Debug)]
pub struct ScanStats {
    pub endpoints: usize,
    pub calls: usize,
}

/// What is known of GraphQL in the analysed services.
#[derive(Debug)]
pub struct GraphqlStatus<'a> {
    pub libraries: &'a Vec<String>,
    pub operations_indexed: bool,
}

/// An endpoint that was found to fit, with what its source was classified as.
#[derive(Clone, Debug)]
pub struct VerifiedEndpoint {
    pub method: String,
    pub path: String,
    pub provenance: Option<String>,
}

/// What is posted to a pull request.
#[derive(Debug)]
pub struct PrResultPayload<'a> {
    pub repo: &'a str,
    pub pr_number: u64,
    pub head_sha: Option<String>,
    pub run_id: Option<String>,
    pub topology: &'a Topology,
    pub stats: ScanStats,
    pub findings: &'a Vec<Finding>,
    pub delta: Option<&'a PrDelta>,
    /// The endpoints that were found to fit.
    pub verified: Vec<VerifiedEndpoint>,
    pub graphql: GraphqlStatus<'a>,
}

} // verus!
