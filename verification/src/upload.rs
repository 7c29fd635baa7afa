//! What is written to the index: whether, what of a record, and what is said
//! when it fails.

use vstd::prelude::*;

use crate::analyzer::MatchedEdge;
use crate::cloud_storage::{ApiEndpointDetails, CloudRepoData, CompatVerdict};
use crate::{cloud_storage, text};

verus! {

/// Whether the records of a run are written to the index.
#[derive(Clone, Copy, PartialEq, Eq, Structural, Debug)]
pub enum UploadPlan {
    Upload,
    /// The run may not write.
    NotAllowed,
    /// The index cannot tell the services of one repository apart.
    Unsupported,
}

/// Whether the records of a run are written to the index: only if the run may,
/// and several services only if the index can tell them apart.
pub fn plan_upload(should_upload: bool, service_count: usize, supports_multi_service: bool) -> (r:
    UploadPlan)
    ensures
        r == (if !should_upload {
            UploadPlan::NotAllowed
        } else if service_count > 1 && !supports_multi_service {
            UploadPlan::Unsupported
        } else {
            UploadPlan::Upload
        }),
{
    if !should_upload {
        UploadPlan::NotAllowed
    } else if service_count > 1 && !supports_multi_service {
        UploadPlan::Unsupported
    } else {
        UploadPlan::Upload
    }
}

// ---------------------------------------------------------------------------
// The payload
// ---------------------------------------------------------------------------

/// An operation without its types.
pub open spec fn without_types(d: ApiEndpointDetails) -> ApiEndpointDetails {
    ApiEndpointDetails { request_type: None, response_type: None, ..d }
}

fn strip_types(operations: &mut Vec<ApiEndpointDetails>)
    ensures
        final(operations)@ == old(operations)@.map_values(
            |d: ApiEndpointDetails| without_types(d),
        ),
{
    let ghost before = operations@;
    let mut i: usize = 0;
    while i < operations.len()
        invariant
            i <= operations@.len(),
            before == old(operations)@,
            operations@.len() == before.len(),
            forall|k: int| 0 <= k < i ==> #[trigger] operations@[k] == without_types(before[k]),
            forall|k: int| i <= k < before.len() ==> #[trigger] operations@[k] == before[k],
        decreases operations@.len() - i,
    {
        let operation = &mut operations[i];
        operation.request_type = None;
        operation.response_type = None;
        i += 1;
    }
    assert(operations@ =~= before.map_values(|d: ApiEndpointDetails| without_types(d)));
}

/// Takes the syntax nodes out of a record, which are of no use to others.
pub fn strip_ast_nodes(data: CloudRepoData) -> (r: CloudRepoData)
    ensures
        r.endpoints@ == data.endpoints@.map_values(|d: ApiEndpointDetails| without_types(d)),
        r.calls@ == data.calls@.map_values(|d: ApiEndpointDetails| without_types(d)),
        r == (CloudRepoData { endpoints: r.endpoints, calls: r.calls, ..data }),
{
    let mut data = data;
    strip_types(&mut data.endpoints);
    strip_types(&mut data.calls);
    data
}

/// The size above which a payload loses its caches, in bytes.
pub const MAX_PAYLOAD_BYTES: usize = 5_242_880;

/// The size above which a payload is refused, in bytes.
pub const LAMBDA_HARD_LIMIT_BYTES: usize = 6_291_456;

/// Whether a payload of that size loses its caches. A payload whose size is not
/// known keeps them.
pub open spec fn is_too_large(serialized_len: Option<usize>) -> bool {
    serialized_len matches Some(n) && n > MAX_PAYLOAD_BYTES
}

/// A record without the caches of the incremental analysis.
pub open spec fn without_caches(data: CloudRepoData) -> CloudRepoData {
    CloudRepoData { file_results: None, cached_detection: None, cached_guidance: None, ..data }
}

/// Takes the caches out of a record whose serialized form is too large; says
/// whether it did.
pub fn enforce_payload_size_limit(data: &mut CloudRepoData, serialized_len: Option<usize>) -> (r:
    bool)
    ensures
        r == is_too_large(serialized_len),
        *final(data) == (if is_too_large(serialized_len) {
            without_caches(*old(data))
        } else {
            *old(data)
        }),
{
    let too_large = match serialized_len {
        Some(n) => n > MAX_PAYLOAD_BYTES,
        None => false,
    };
    if too_large {
        data.file_results = None;
        data.cached_detection = None;
        data.cached_guidance = None;
    }
    too_large
}

/// What is said of a payload that lost its caches.
pub fn dropped_caches_warning(serialized_len: usize) -> (r: String)
    ensures
        r@ == "Payload size "@ + text::decimal((serialized_len / 1024) as nat) + "KB exceeds "@
            + text::decimal((MAX_PAYLOAD_BYTES / 1024) as nat)
            + "KB limit, dropping file_results cache for this upload — the next scan cannot run incrementally and will re-analyze every file"@,
{
    text::cat5(
        "Payload size ",
        &text::decimal_text((serialized_len / 1024) as u64),
        "KB exceeds ",
        &text::decimal_text((MAX_PAYLOAD_BYTES / 1024) as u64),
        "KB limit, dropping file_results cache for this upload — the next scan cannot run incrementally and will re-analyze every file",
    )
}

/// What is said of a payload that is too large even without its caches.
pub fn hard_limit_warning(reserialized_len: Option<usize>) -> (r: Option<String>)
    ensures
        r.deep_view() == (match reserialized_len {
            Some(n) => if n > LAMBDA_HARD_LIMIT_BYTES {
                Some(
                    "Payload is still "@ + text::decimal((n / 1024) as nat)
                        + "KB after dropping caches, which exceeds the cloud's "@ + text::decimal(
                        (LAMBDA_HARD_LIMIT_BYTES / 1024) as nat,
                    )
                        + "KB request limit — the upload will likely be rejected. Consider splitting the repo into services via carrick.json."@,
                )
            } else {
                None
            },
            None => None,
        }),
{
    match reserialized_len {
        Some(n) => {
            if n > LAMBDA_HARD_LIMIT_BYTES {
                Some(
                    text::cat5(
                        "Payload is still ",
                        &text::decimal_text((n / 1024) as u64),
                        "KB after dropping caches, which exceeds the cloud's ",
                        &text::decimal_text((LAMBDA_HARD_LIMIT_BYTES / 1024) as u64),
                        "KB request limit — the upload will likely be rejected. Consider splitting the repo into services via carrick.json.",
                    ),
                )
            } else {
                None
            }
        },
        None => None,
    }
}

/// Whatever the size, a payload keeps its operations, its types and its
/// verdicts: only the caches go.
pub proof fn law_only_caches_are_dropped(data: CloudRepoData)
    ensures
        without_caches(data).endpoints == data.endpoints,
        without_caches(data).calls == data.calls,
        without_caches(data).compat_verdicts == data.compat_verdicts,
        without_caches(data).type_manifest == data.type_manifest,
        without_caches(data).bundled_types == data.bundled_types,
        without_caches(data).file_results is None,
{
}

// ---------------------------------------------------------------------------
// Verdicts
// ---------------------------------------------------------------------------

/// Whether an edge is one that the record's calls consume, and was checked.
pub open spec fn is_verdict_for(edge: MatchedEdge, data: CloudRepoData) -> bool {
    edge.consumer_repo@ == cloud_storage::service_id_spec(data) && edge.type_compatible is Some
}

/// Whether a verdict is that of the edge.
pub open spec fn is_verdict_of(verdict: CompatVerdict, edge: MatchedEdge) -> bool {
    &&& verdict.producer_key == edge.producer_key
    &&& verdict.consumer_key == edge.consumer_key
    &&& verdict.consumer_location == edge.consumer_location
    &&& Some(verdict.type_compatible) == edge.type_compatible
    &&& verdict.mismatch_reason == edge.mismatch_reason
}

/// The edges that a record gets verdicts for, in their order.
pub open spec fn checked_edges(edges: Seq<MatchedEdge>, data: CloudRepoData) -> Seq<MatchedEdge>
    decreases edges.len(),
{
    if edges.len() == 0 {
        Seq::empty()
    } else {
        let before = checked_edges(edges.drop_last(), data);
        if is_verdict_for(edges.last(), data) {
            before.push(edges.last())
        } else {
            before
        }
    }
}

/// Whether the verdicts are those of the edges, one for one.
pub open spec fn are_verdicts_of(verdicts: Seq<CompatVerdict>, edges: Seq<MatchedEdge>) -> bool {
    verdicts.len() == edges.len() && forall|i: int|
        0 <= i < verdicts.len() ==> is_verdict_of(#[trigger] verdicts[i], edges[i])
}

/// A record with the verdicts of the type check for the edges that its calls
/// consume; an edge that was not checked has none.
pub open spec fn has_verdicts(
    before: CloudRepoData,
    after: CloudRepoData,
    edges: Seq<MatchedEdge>,
) -> bool {
    let checked = checked_edges(edges, before);
    &&& if checked.len() == 0 {
        after.compat_verdicts == before.compat_verdicts
    } else {
        after.compat_verdicts matches Some(verdicts) && are_verdicts_of(verdicts@, checked)
    }
    &&& after == (CloudRepoData { compat_verdicts: after.compat_verdicts, ..before })
}

fn collect_verdicts(data: &CloudRepoData, edges: &Vec<MatchedEdge>) -> (r: Vec<CompatVerdict>)
    ensures
        are_verdicts_of(r@, checked_edges(edges@, *data)),
{
    let mut verdicts: Vec<CompatVerdict> = Vec::new();
    let mut i: usize = 0;
    while i < edges.len()
        invariant
            i <= edges@.len(),
            are_verdicts_of(verdicts@, checked_edges(edges@.take(i as int), *data)),
        decreases edges@.len() - i,
    {
        assert(edges@.take(i + 1).drop_last() =~= edges@.take(i as int));
        let edge = &edges[i];
        if text::same_text(&edge.consumer_repo, data.service_id()) {
            if let Some(compatible) = edge.type_compatible {
                verdicts.push(
                    CompatVerdict {
                        producer_key: edge.producer_key.clone(),
                        consumer_key: edge.consumer_key.clone(),
                        consumer_location: text::copy_opt(&edge.consumer_location),
                        type_compatible: compatible,
                        mismatch_reason: text::copy_opt(&edge.mismatch_reason),
                    },
                );
            }
        }
        i += 1;
    }
    assert(edges@.take(i as int) =~= edges@);
    verdicts
}

/// Gives each record the verdicts of the type check for the edges that its
/// calls consume.
pub fn attach_compat_verdicts(payloads: &mut Vec<CloudRepoData>, edges: &Vec<MatchedEdge>)
    ensures
        final(payloads)@.len() == old(payloads)@.len(),
        forall|i: int|
            0 <= i < old(payloads)@.len() ==> has_verdicts(
                #[trigger] old(payloads)@[i],
                final(payloads)@[i],
                edges@,
            ),
{
    let ghost before = payloads@;
    let mut i: usize = 0;
    while i < payloads.len()
        invariant
            i <= payloads@.len(),
            before == old(payloads)@,
            payloads@.len() == before.len(),
            forall|k: int|
                0 <= k < i ==> has_verdicts(#[trigger] before[k], payloads@[k], edges@),
            forall|k: int| i <= k < before.len() ==> #[trigger] payloads@[k] == before[k],
        decreases payloads@.len() - i,
    {
        let verdicts = collect_verdicts(&payloads[i], edges);
        if verdicts.len() > 0 {
            let payload = &mut payloads[i];
            payload.compat_verdicts = Some(verdicts);
        }
        i += 1;
    }
}

// ---------------------------------------------------------------------------
// Failure
// ---------------------------------------------------------------------------

/// The names of the services in a part of the payloads.
pub open spec fn service_names(payloads: Seq<CloudRepoData>) -> Seq<Seq<char>> {
    payloads.map_values(|d: CloudRepoData| cloud_storage::service_id_spec(d))
}

fn list_service_names(payloads: &Vec<CloudRepoData>, from: usize, to: usize) -> (r: Vec<String>)
    requires
        from <= to <= payloads@.len(),
    ensures
        r.deep_view() == service_names(payloads@.subrange(from as int, to as int)),
{
    let ghost part = payloads@.subrange(from as int, to as int);
    let ghost names = service_names(part);
    let mut out: Vec<String> = Vec::new();
    assert(out.deep_view() =~= names.take(0));
    let mut i: usize = from;
    while i < to
        invariant
            from <= i <= to <= payloads@.len(),
            part == payloads@.subrange(from as int, to as int),
            names == service_names(part),
            out.deep_view() == names.take(i - from),
        decreases to - i,
    {
        assert(part[i - from] == payloads@[i as int]);
        text::push_deep(&mut out, text::owned(payloads[i].service_id()));
        i += 1;
        assert(out.deep_view() =~= names.take(i - from));
    }
    assert(names.take(i - from) =~= names);
    out
}

/// What is said when the upload of one payload fails: which services were
/// written, and which were not.
pub fn upload_failure(payloads: &Vec<CloudRepoData>, failed: usize, error: &str) -> (r: String)
    requires
        failed < payloads@.len(),
    ensures
        r@ == "Failed to upload repo data: "@ + error@ + ". Uploaded: ["@ + text::join_spec(
            service_names(payloads@.take(failed as int)),
            ", "@,
        ) + "]; not uploaded: ["@ + text::join_spec(
            service_names(payloads@.skip(failed as int)),
            ", "@,
        ) + "]. The index is mixed-generation for this repo until a successful re-run."@,
{
    let uploaded = list_service_names(payloads, 0, failed);
    let not_uploaded = list_service_names(payloads, failed, payloads.len());
    assert(payloads@.subrange(0, failed as int) =~= payloads@.take(failed as int));
    assert(payloads@.subrange(failed as int, payloads@.len() as int) =~= payloads@.skip(
        failed as int,
    ));
    text::cat7(
        "Failed to upload repo data: ",
        error,
        ". Uploaded: [",
        &text::join(&uploaded, ", "),
        "]; not uploaded: [",
        &text::join(&not_uploaded, ", "),
        "]. The index is mixed-generation for this repo until a successful re-run.",
    )
}

} // verus!
