//! The resolved routes of a service and the calls that it makes.

use vstd::prelude::*;

verus! {

/// What an endpoint was read off.
#[derive(Clone, Copy, PartialEq, Eq, Structural, Debug)]
pub enum MatchEvidence {
    RouteDefinition,
    CallSite,
}

/// An endpoint with its full path.
#[derive(Clone, Debug)]
pub struct ResolvedEndpoint {
    pub method: String,
    pub path: String,
    pub full_path: String,
    pub handler: Option<String>,
    pub owner: String,
    pub file_location: String,
    pub evidence: MatchEvidence,
    /// What the source of the route was classified as.
    pub provenance: Option<String>,
}

/// An outgoing call.
#[derive(Clone, Debug)]
pub struct DataFetchingCall {
    pub method: String,
    pub canonical_path: String,
    pub target_url: String,
    pub client: String,
    pub file_location: String,
    pub call_kind: Option<String>,
    /// Whether the target looks like a URL at all.
    pub is_probable_url: bool,
}

/// A router mounted under a prefix.
#[derive(Clone, Debug)]
pub struct MountEdge {
    pub parent: String,
    pub child: String,
    pub path_prefix: String,
}

/// The routes, calls and mounts of a service.
#[derive(Clone, Debug)]
pub struct MountGraph {
    pub endpoints: Vec<ResolvedEndpoint>,
    pub data_calls: Vec<DataFetchingCall>,
    pub mounts: Vec<MountEdge>,
}

/// Whether a path segment is a parameter: `:id`, `{id}`, `<id>` or `[id]`, with
/// an optional `?` behind it.
pub open spec fn is_param_segment_spec(seg: Seq<char>) -> bool {
    let s = if seg.len() > 0 && seg.last() == '?' {
        seg.drop_last()
    } else {
        seg
    };
    ||| (s.len() > 0 && s[0] == ':')
    ||| (s.len() > 0 && s[0] == '{' && s.last() == '}')
    ||| (s.len() > 0 && s[0] == '<' && s.last() == '>')
    ||| (s.len() > 0 && s[0] == '[' && s.last() == ']')
}

/// Whether a path segment is a parameter.
pub fn is_param_segment(seg: &str) -> (r: bool)
    ensures
        r == is_param_segment_spec(seg@),
{
    let v = crate::text::chars_of(seg);
    let mut n: usize = v.len();
    if n > 0 && v[n - 1] == '?' {
        n -= 1;
    }
    if n == 0 {
        return false;
    }
    let first = v[0];
    let last = v[n - 1];
    first == ':' || (first == '{' && last == '}') || (first == '<' && last == '>') || (first == '['
        && last == ']')
}

} // verus!
