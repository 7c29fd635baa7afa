//! What holds of the records that services are indexed by.

use vstd::prelude::*;

use crate::cloud_data::ResolutionOutcome;
use crate::cloud_storage::{
    ApiEndpointDetails, CloudRepoData, FunctionDefinition, Mount, TypeManifestEntry,
};
use crate::file_analysis::FileResult;
use crate::gemini_service::{AsyncCallContext, Call, ExtractionPlan, GeminiCallResponse};
use crate::mount_graph::MountEdge;
use crate::packages::Packages;
use crate::protocol::OpSite;
use crate::{cloud_data, gemini_service, incremental, manifest_laws, protocol, report_laws};
use crate::{pr_delta, text, upload};

verus! {

// ---------------------------------------------------------------------------
// Operations and mounts
// ---------------------------------------------------------------------------

/// The operations that are added stand behind those that were there, one for each
/// site, with the site's key and place; what was there stays.
pub proof fn law_added_operations(
    before: Seq<ApiEndpointDetails>,
    after: Seq<ApiEndpointDetails>,
    sites: Seq<OpSite>,
)
    requires
        protocol::extended_by(before, after, sites),
    ensures
        after.len() == before.len() + sites.len(),
        forall|i: int| 0 <= i < before.len() ==> #[trigger] after[i] == before[i],
        forall|i: int|
            0 <= i < sites.len() ==> {
                &&& after[before.len() + i].key@ == (#[trigger] sites[i]).key
                &&& after[before.len() + i].file_path@ == sites[i].file_path + ":"@ + text::decimal(
                    sites[i].line as nat,
                )
                &&& after[before.len() + i].handler_name is None
            },
{
    let more = after.skip(before.len() as int);
    assert(before =~= after.subrange(0, before.len() as int));
    assert forall|i: int| 0 <= i < before.len() implies #[trigger] after[i] == before[i] by {
        assert(after.subrange(0, before.len() as int)[i] == before[i]);
    }
    assert forall|i: int| 0 <= i < sites.len() implies {
        &&& after[before.len() + i].key@ == (#[trigger] sites[i]).key
        &&& after[before.len() + i].file_path@ == sites[i].file_path + ":"@ + text::decimal(
            sites[i].line as nat,
        )
        &&& after[before.len() + i].handler_name is None
    } by {
        assert(more[i] == after[before.len() + i]);
        assert(protocol::is_details_of(more[i], sites[i]));
    }
}

/// A mount has the parent, the child and the prefix of its edge, each in its own
/// place.
pub proof fn law_mounts(mounts: Seq<Mount>, edges: Seq<MountEdge>, i: int)
    requires
        cloud_data::mounts_of(mounts, edges),
        0 <= i < edges.len(),
    ensures
        mounts.len() == edges.len(),
        mounts[i].parent@ == edges[i].parent@,
        mounts[i].child@ == edges[i].child@,
        mounts[i].prefix@ == edges[i].path_prefix@,
{
}

/// A function that another calls in the repository is known by its path from the
/// root; one from elsewhere keeps its path.
pub proof fn law_called_functions(
    before: FunctionDefinition,
    after: FunctionDefinition,
    repo: Seq<char>,
    i: int,
    rest: Seq<char>,
)
    requires
        repo.len() > 0,
        repo[repo.len() - 1] != '/',
        cloud_data::definition_relativized(before, after, repo),
        0 <= i < before.calls@.len(),
    ensures
        after.calls@.len() == before.calls@.len(),
        before.calls@[i].file_path@ == repo + "/"@ + rest ==> after.calls@[i].file_path@ == rest,
        !(repo + "/"@).is_prefix_of(before.calls@[i].file_path@) ==> after.calls@[i].file_path@
            == before.calls@[i].file_path@,
{
    let none = Seq::<char>::empty();
    crate::run_laws::law_one_slash(repo, none);
    assert(repo + none =~= repo);
    let prefix = repo + "/"@;
    assert(cloud_data::call_relativized(before.calls@[i], after.calls@[i], prefix));
    if before.calls@[i].file_path@ == repo + "/"@ + rest {
        let s = before.calls@[i].file_path@;
        assert(prefix =~= s.subrange(0, prefix.len() as int));
        assert(s.skip(prefix.len() as int) =~= rest);
    }
}

// ---------------------------------------------------------------------------
// Resolution
// ---------------------------------------------------------------------------

/// A run says what kept types from being resolved, in the words of what failed,
/// and nothing where all was resolved.
pub proof fn law_resolution_status(outcome: ResolutionOutcome, has_extraction_config: bool)
    ensures
        ({
            let r = cloud_data::resolution_status(outcome, has_extraction_config);
            &&& r is None <==> outcome is Resolved && has_extraction_config
            &&& outcome matches ResolutionOutcome::NotReady(e) ==> report_laws::holds(r->0, e@)
            &&& outcome matches ResolutionOutcome::Failed(e) ==> report_laws::holds(r->0, e@)
        }),
{
    let none = Seq::<char>::empty();
    match outcome {
        ResolutionOutcome::NotReady(e) => {
            let lead = "type extraction skipped: sidecar not ready: "@;
            assert(lead + e@ =~= (lead + e@) + none);
        },
        ResolutionOutcome::Failed(e) => {
            let lead = "type resolution failed: "@;
            assert(lead + e@ =~= (lead + e@) + none);
        },
        _ => {},
    }
}

/// Where types were resolved each entry is enriched by them, in its place; where
/// they were not the manifest stays.
pub proof fn law_resolved_manifest(
    manifest: Option<Vec<TypeManifestEntry>>,
    outcome: ResolutionOutcome,
    i: int,
)
    requires
        manifest matches Some(entries) && 0 <= i < entries@.len(),
    ensures
        ({
            let before = manifest->0@;
            let after = cloud_data::resolved_manifest(manifest, outcome)->0;
            &&& cloud_data::resolved_manifest(manifest, outcome) is Some
            &&& after.len() == before.len()
            &&& outcome matches ResolutionOutcome::Resolved(resolution)
                ==> manifest_laws::is_enriched(
                before[i],
                after[i],
                resolution,
                resolution.dts_content.deep_view(),
            )
            &&& !(outcome is Resolved) ==> after[i] == before[i]
        }),
{
    if let ResolutionOutcome::Resolved(resolution) = outcome {
        manifest_laws::law_enrichment(
            manifest->0@[i],
            resolution,
            resolution.dts_content.deep_view(),
        );
    }
}

/// Definitions are asked for only where there are both a bundle and a manifest,
/// and of just the aliases that have a type.
pub proof fn law_wanted_aliases(data: CloudRepoData, alias: Seq<char>)
    ensures
        text::among(alias, cloud_data::wanted_aliases(data)) <==> data.bundled_types is Some && (
        data.type_manifest matches Some(entries) && manifest_laws::is_resolved_alias(
            entries@,
            alias,
        )),
{
    if let Some(entries) = data.type_manifest {
        manifest_laws::law_aliases_of_typed_entries(entries@);
    }
}

/// The packages are the first that could be read.
pub proof fn law_first_packages(
    before: Seq<Option<Packages>>,
    packages: Packages,
    after: Seq<Option<Packages>>,
)
    requires
        forall|i: int| 0 <= i < before.len() ==> (#[trigger] before[i]) is None,
    ensures
        cloud_data::first_packages(before.push(Some(packages)) + after) == Some(packages),
        cloud_data::first_packages(before) is None,
    decreases before.len(),
{
    let all = before.push(Some(packages)) + after;
    if before.len() == 0 {
        assert(all[0] == Some(packages));
    } else {
        assert(before[0] is None);
        assert(all[0] == before[0]);
        let rest = before.skip(1);
        assert forall|i: int| 0 <= i < rest.len() implies (#[trigger] rest[i]) is None by {
            assert(before[i + 1] == rest[i]);
        }
        law_first_packages(rest, packages, after);
        assert(all.skip(1) =~= rest.push(Some(packages)) + after);
    }
}

// ---------------------------------------------------------------------------
// Payloads
// ---------------------------------------------------------------------------

/// A payload loses its caches exactly where it is known to be over the limit; the
/// caches are what an incremental run reads, and all else stays.
pub proof fn law_large_payloads(data: CloudRepoData, size: Option<usize>)
    ensures
        upload::is_too_large(size) <==> (size matches Some(n) && n > upload::MAX_PAYLOAD_BYTES),
        !incremental::has_usable_cache(upload::without_caches(data)),
        upload::without_caches(data).cached_detection is None,
        upload::without_caches(data).cached_guidance is None,
        upload::without_caches(data).mounts == data.mounts,
        upload::without_caches(data).function_definitions == data.function_definitions,
        upload::without_caches(data).repo_name == data.repo_name,
        upload::without_caches(data).service_name == data.service_name,
{
}

/// An operation is sent without its types, and with all else.
pub proof fn law_sent_operations(d: ApiEndpointDetails)
    ensures
        upload::without_types(d).request_type is None,
        upload::without_types(d).response_type is None,
        upload::without_types(d).key == d.key,
        upload::without_types(d).file_path == d.file_path,
        upload::without_types(d).handler_name == d.handler_name,
        upload::without_types(d).request_body == d.request_body,
        upload::without_types(d).response_body == d.response_body,
        upload::without_types(d).repo_name == d.repo_name,
        upload::without_types(d).service_name == d.service_name,
{
}

// ---------------------------------------------------------------------------
// Calls that a model found
// ---------------------------------------------------------------------------

/// A call is what the model found: its route, its method in capitals, its request
/// and its types, the request's and the response's each in its own place, in the
/// file of the function in the same place.
pub proof fn law_found_calls(
    calls: Seq<Call>,
    found: Seq<GeminiCallResponse>,
    contexts: Seq<AsyncCallContext>,
    i: int,
)
    requires
        gemini_service::are_calls_of(calls, found, contexts),
        0 <= i < found.len(),
    ensures
        calls.len() == found.len(),
        calls[i].route@ == found[i].route@,
        calls[i].method@ == text::uppercase_text(found[i].method@),
        calls[i].request == found[i].request_body,
        match (found[i].request_type_info, calls[i].request_type) {
            (Some(info), Some(t)) => t.alias == info.alias && t.composite_type_string
                == info.composite_type_string && t.file_path == info.file_path && t.start_position
                == info.start_position,
            (None, None) => true,
            _ => false,
        },
        match (found[i].response_type_info, calls[i].response_type) {
            (Some(info), Some(t)) => t.alias == info.alias && t.composite_type_string
                == info.composite_type_string && t.file_path == info.file_path && t.start_position
                == info.start_position,
            (None, None) => true,
            _ => false,
        },
        i < contexts.len() ==> calls[i].call_file@ == contexts[i].file@,
        i >= contexts.len() ==> calls[i].call_file@.len() == 0,
{
    assert(gemini_service::is_call_of(
        calls[i],
        found[i],
        gemini_service::context_file(contexts, i),
    ));
}

/// The first reading that could be read counts.
pub proof fn law_first_reading(
    before: Seq<Option<Vec<GeminiCallResponse>>>,
    reading: Vec<GeminiCallResponse>,
    after: Seq<Option<Vec<GeminiCallResponse>>>,
)
    requires
        forall|i: int| 0 <= i < before.len() ==> (#[trigger] before[i]) is None,
    ensures
        gemini_service::first_read(before.push(Some(reading)) + after) == Some(reading),
        gemini_service::first_read(before) is None,
    decreases before.len(),
{
    let all = before.push(Some(reading)) + after;
    if before.len() == 0 {
        assert(all[0] == Some(reading));
    } else {
        assert(before[0] is None);
        assert(all[0] == before[0]);
        let rest = before.skip(1);
        assert forall|i: int| 0 <= i < rest.len() implies (#[trigger] rest[i]) is None by {
            assert(before[i + 1] == rest[i]);
        }
        law_first_reading(rest, reading, after);
        assert(all.skip(1) =~= rest.push(Some(reading)) + after);
    }
}

/// The model is asked exactly where it is not mocked, asking is not switched off,
/// and there is something to ask about.
pub proof fn law_when_the_model_is_asked(
    mock_all: bool,
    disabled: bool,
    calls: Seq<AsyncCallContext>,
)
    ensures
        gemini_service::extraction_plan(mock_all, disabled, calls) is Ask <==> !mock_all
            && !disabled && calls.len() > 0,
        gemini_service::extraction_plan(mock_all, disabled, calls) matches ExtractionPlan::Ask {
            large,
        } ==> (large <==> gemini_service::total_size(calls) > gemini_service::MAX_REASONABLE_SIZE),
{
}

/// The size of the sources is that of all of them together.
pub proof fn law_size_of_sources(calls: Seq<AsyncCallContext>, call: AsyncCallContext)
    ensures
        gemini_service::total_size(calls.push(call)) == gemini_service::total_size(calls)
            + gemini_service::byte_len(call.function_source@),
        gemini_service::total_size(Seq::empty()) == 0,
{
    assert(calls.push(call).drop_last() =~= calls);
}

/// A cached result keeps all that is found of an endpoint, a call and a mount but
/// what only diagnosis needs.
pub proof fn law_cached_results(before: Seq<FileResult>, after: Seq<FileResult>, i: int, j: int)
    requires
        incremental::results_stripped(before, after),
        0 <= i < before.len(),
    ensures
        after.len() == before.len(),
        after[i].path@ == before[i].path@,
        0 <= j < before[i].result.endpoints@.len() ==> ({
            let a = before[i].result.endpoints@[j];
            let b = after[i].result.endpoints@[j];
            &&& b.method == a.method && b.path == a.path && b.owner_node == a.owner_node
            &&& b.handler_name == a.handler_name && b.line_number == a.line_number
            &&& b.primary_type_symbol == a.primary_type_symbol
            &&& b.type_import_source == a.type_import_source
        }),
        0 <= j < before[i].result.data_calls@.len() ==> ({
            let a = before[i].result.data_calls@[j];
            let b = after[i].result.data_calls@[j];
            &&& b.method == a.method && b.target == a.target && b.call_kind == a.call_kind
            &&& b.line_number == a.line_number
            &&& b.primary_type_symbol == a.primary_type_symbol
            &&& b.type_import_source == a.type_import_source
        }),
        0 <= j < before[i].result.mounts@.len() ==> ({
            let a = before[i].result.mounts@[j];
            let b = after[i].result.mounts@[j];
            &&& b.parent_node == a.parent_node && b.child_node == a.child_node
            &&& b.mount_path == a.mount_path && b.line_number == a.line_number
            &&& b.import_source == a.import_source
        }),
{
    assert(incremental::result_stripped(before[i].result, after[i].result));
    if 0 <= j < before[i].result.endpoints@.len() {
        assert(incremental::endpoint_stripped(
            before[i].result.endpoints@[j],
            after[i].result.endpoints@[j],
        ));
    }
    if 0 <= j < before[i].result.data_calls@.len() {
        assert(incremental::data_call_stripped(
            before[i].result.data_calls@[j],
            after[i].result.data_calls@[j],
        ));
    }
    if 0 <= j < before[i].result.mounts@.len() {
        assert(incremental::mount_stripped(
            before[i].result.mounts@[j],
            after[i].result.mounts@[j],
        ));
    }
}

/// The entries of the records are those of their manifests, one record after
/// another.
pub proof fn law_all_entries(repos: Seq<CloudRepoData>, repo: CloudRepoData)
    ensures
        repo.type_manifest matches Some(entries) ==> pr_delta::all_manifest_entries(
            repos.push(repo),
        ) == pr_delta::all_manifest_entries(repos) + entries@,
        repo.type_manifest is None ==> pr_delta::all_manifest_entries(repos.push(repo))
            == pr_delta::all_manifest_entries(repos),
{
    assert(repos.push(repo).drop_last() =~= repos);
    let before = pr_delta::all_manifest_entries(repos);
    assert(before + Seq::<TypeManifestEntry>::empty() =~= before);
}

} // verus!
