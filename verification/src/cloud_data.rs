//! The record of an analysed service: how it is put together, and what type
//! resolution adds to it.

use vstd::prelude::*;

use crate::cloud_storage::{
    ApiEndpointDetails, CloudRepoData, FunctionCallRef, FunctionDefinition, Mount,
    TypeManifestEntry,
};
use crate::file_analysis::FileResult;
use crate::mount_graph::{MountEdge, MountGraph};
use crate::packages::Packages;
use crate::protocol::ProtocolExtractions;
use crate::type_sidecar::{ResolvedDefinition, TypeResolutionResult};
use crate::{cloud_storage, json_text, paths, protocol, sorting, text, type_check, type_manifest};

verus! {

// ---------------------------------------------------------------------------
// Paths of functions
// ---------------------------------------------------------------------------

/// The repository's root with exactly one slash behind it.
pub open spec fn single_slash_prefix(repo_path: Seq<char>) -> Seq<char> {
    text::trim_end_char_spec(repo_path, '/') + "/"@
}

/// Whether a call refers to the same function by a path from the root.
pub open spec fn call_relativized(
    before: FunctionCallRef,
    after: FunctionCallRef,
    prefix: Seq<char>,
) -> bool {
    &&& after.file_path@ == match text::strip_prefix_spec(before.file_path@, prefix) {
        Some(rest) => rest,
        None => before.file_path@,
    }
    &&& after == (FunctionCallRef { file_path: after.file_path, ..before })
}

/// Whether a function is the same with paths from the root: its file, those of
/// the functions that it calls, and those inside its signature.
pub open spec fn definition_relativized(
    before: FunctionDefinition,
    after: FunctionDefinition,
    repo_path: Seq<char>,
) -> bool {
    let prefix = single_slash_prefix(repo_path);
    &&& after.file_path@ == paths::relative_to(before.file_path@, repo_path)
    &&& after.calls@.len() == before.calls@.len()
    &&& forall|i: int|
        0 <= i < before.calls@.len() ==> call_relativized(
            #[trigger] before.calls@[i],
            after.calls@[i],
            prefix,
        )
    &&& after.signature.deep_view() == match before.signature {
        Some(s) => Some(text::replace_text_from(s@, prefix, ""@, 0)),
        None => None,
    }
    &&& after == (FunctionDefinition {
        file_path: after.file_path,
        calls: after.calls,
        signature: after.signature,
        ..before
    })
}

fn relativize_calls(calls: &mut Vec<FunctionCallRef>, prefix: &str)
    ensures
        final(calls)@.len() == old(calls)@.len(),
        forall|i: int|
            0 <= i < old(calls)@.len() ==> call_relativized(
                #[trigger] old(calls)@[i],
                final(calls)@[i],
                prefix@,
            ),
{
    let ghost before = calls@;
    let mut i: usize = 0;
    while i < calls.len()
        invariant
            i <= calls@.len(),
            before == old(calls)@,
            calls@.len() == before.len(),
            forall|k: int|
                0 <= k < i ==> call_relativized(#[trigger] before[k], calls@[k], prefix@),
            forall|k: int| i <= k < before.len() ==> #[trigger] calls@[k] == before[k],
        decreases calls@.len() - i,
    {
        let call = &mut calls[i];
        if let Some(rest) = text::strip_prefix(&call.file_path, prefix) {
            call.file_path = rest;
        }
        i += 1;
    }
}

/// Puts paths from the repository's root into functions, as far as they lie
/// under it: whoever reads the index has no other root.
pub fn relativize_function_definition_paths(
    function_definitions: &mut Vec<FunctionDefinition>,
    repo_path: &str,
)
    ensures
        final(function_definitions)@.len() == old(function_definitions)@.len(),
        forall|i: int|
            0 <= i < old(function_definitions)@.len() ==> definition_relativized(
                #[trigger] old(function_definitions)@[i],
                final(function_definitions)@[i],
                repo_path@,
            ),
{
    let prefix = text::cat2(&text::trim_end_char(repo_path, '/'), "/");
    proof {
        reveal_strlit("/");
        assert(prefix@.len() > 0);
    }
    let ghost before = function_definitions@;
    let mut i: usize = 0;
    while i < function_definitions.len()
        invariant
            i <= function_definitions@.len(),
            before == old(function_definitions)@,
            function_definitions@.len() == before.len(),
            prefix@ == single_slash_prefix(repo_path@),
            prefix@.len() > 0,
            forall|k: int|
                0 <= k < i ==> definition_relativized(
                    #[trigger] before[k],
                    function_definitions@[k],
                    repo_path@,
                ),
            forall|k: int|
                i <= k < before.len() ==> #[trigger] function_definitions@[k] == before[k],
        decreases function_definitions@.len() - i,
    {
        let definition = &mut function_definitions[i];
        definition.file_path = paths::strip_root(&definition.file_path, repo_path);
        relativize_calls(&mut definition.calls, &prefix);
        let signature = match &definition.signature {
            Some(s) => Some(text::replace_text(s, &prefix, "")),
            None => None,
        };
        definition.signature = signature;
        i += 1;
    }
}

/// A path that does not lie under the root stays as it is.
pub proof fn law_paths_outside_stay(
    before: FunctionDefinition,
    after: FunctionDefinition,
    repo_path: Seq<char>,
)
    requires
        definition_relativized(before, after, repo_path),
        !paths::is_under(before.file_path@, repo_path),
    ensures
        after.file_path@ == before.file_path@,
{
}

// ---------------------------------------------------------------------------
// The record
// ---------------------------------------------------------------------------

/// Whether the mounts are those of the graph.
pub open spec fn mounts_of(mounts: Seq<Mount>, edges: Seq<MountEdge>) -> bool {
    mounts.len() == edges.len() && forall|i: int|
        0 <= i < mounts.len() ==> (#[trigger] mounts[i]).parent == edges[i].parent
            && mounts[i].child == edges[i].child && mounts[i].prefix == edges[i].path_prefix
}

fn copy_mounts(edges: &Vec<MountEdge>) -> (r: Vec<Mount>)
    ensures
        mounts_of(r@, edges@),
{
    let mut out: Vec<Mount> = Vec::new();
    let mut i: usize = 0;
    while i < edges.len()
        invariant
            i <= edges@.len(),
            mounts_of(out@, edges@.take(i as int)),
        decreases edges@.len() - i,
    {
        out.push(
            Mount {
                parent: edges[i].parent.clone(),
                child: edges[i].child.clone(),
                prefix: edges[i].path_prefix.clone(),
            },
        );
        i += 1;
    }
    assert(edges@.take(i as int) =~= edges@);
    out
}

/// The name of a service in its configuration.
pub open spec fn configured_name(config_json: Option<Seq<char>>) -> Option<Seq<char>> {
    match config_json {
        Some(json) => json_text::json_text_at(json, "/serviceName"@),
        None => None,
    }
}

/// The record of a service with its operations and the graph they were read
/// off, before anything is resolved or cached. `last_updated` is the time of
/// the analysis.
pub fn build_cloud_data_from_mount_graph(
    repo_name: &str,
    repo_path: &str,
    mount_graph: MountGraph,
    operations: (Vec<ApiEndpointDetails>, Vec<ApiEndpointDetails>),
    config_json: Option<String>,
    package_json: Option<String>,
    packages: Packages,
    function_definitions: Vec<FunctionDefinition>,
    last_updated: &str,
    commit_hash: &str,
) -> (r: CloudRepoData)
    ensures
        r.repo_name@ == repo_name@,
        r.service_name.deep_view() == configured_name(config_json.deep_view()),
        r.endpoints == operations.0,
        r.calls == operations.1,
        mounts_of(r.mounts@, mount_graph.mounts@),
        r.function_definitions@.len() == function_definitions@.len(),
        forall|i: int|
            0 <= i < function_definitions@.len() ==> definition_relativized(
                #[trigger] function_definitions@[i],
                r.function_definitions@[i],
                repo_path@,
            ),
        r.config_json == config_json,
        r.package_json == package_json,
        r.packages == Some(packages),
        r.last_updated@ == last_updated@,
        r.commit_hash@ == commit_hash@,
        r.mount_graph == Some(mount_graph),
        r.bundled_types is None,
        r.type_manifest is None,
        r.file_results is None,
        r.cached_detection is None,
        r.cached_guidance is None,
        r.cached_extraction_config is None,
        r.package_json_hash is None,
        r.cache_version is None,
        r.type_extraction_status is None,
        r.compat_verdicts is None,
        r.capture_stub is None,
{
    let mut definitions = function_definitions;
    relativize_function_definition_paths(&mut definitions, repo_path);
    let service_name = match &config_json {
        Some(json) => json_text::string_at(json, "/serviceName"),
        None => None,
    };
    let mut data = CloudRepoData::bare(repo_name, service_name, commit_hash);
    data.endpoints = operations.0;
    data.calls = operations.1;
    data.mounts = copy_mounts(&mount_graph.mounts);
    data.function_definitions = definitions;
    data.config_json = config_json;
    data.package_json = package_json;
    data.packages = Some(packages);
    data.last_updated = text::owned(last_updated);
    data.mount_graph = Some(mount_graph);
    data
}

/// Whether the entries are those of a service's routes and calls.
pub open spec fn is_built(
    built: Seq<TypeManifestEntry>,
    mount_graph: MountGraph,
    repo_path: Seq<char>,
) -> bool {
    sorting::models(built) == type_manifest::producer_entries(
        type_manifest::producer_sites(mount_graph.endpoints@),
    ) + type_manifest::consumer_entries(mount_graph.data_calls@, repo_path)
}

/// The type manifest of a service whose routes and calls have the entries.
pub open spec fn manifest_of(
    built: Seq<TypeManifestEntry>,
    file_results: Seq<FileResult>,
    extractions: ProtocolExtractions,
    repo_path: Seq<char>,
) -> Seq<cloud_storage::EntryModel> {
    sorting::models(
        built.map_values(|e: TypeManifestEntry| type_manifest::stamped(e, file_results)),
    ) + protocol::protocol_entries(extractions) + protocol::pubsub_entries(
        sorting::sorted_by_key(file_results),
        extractions.sockets,
        repo_path,
    )
}

/// The entries of a service's type manifest: those of its routes and calls,
/// stamped with the symbols that the files show, and those of its other
/// protocols.
pub fn assemble_type_manifest(
    mount_graph: &MountGraph,
    file_results: &Vec<FileResult>,
    extractions: &ProtocolExtractions,
    repo_path: &str,
) -> (r: Vec<TypeManifestEntry>)
    ensures
        exists|built: Seq<TypeManifestEntry>|
            #![trigger sorting::models(built)]
            is_built(built, *mount_graph, repo_path@) && r.deep_view() == manifest_of(
                built,
                file_results@,
                *extractions,
                repo_path@,
            ),
{
    let mut entries = type_manifest::build_type_manifest_entries(
        &mount_graph.endpoints,
        &mount_graph.data_calls,
        repo_path,
    );
    let ghost built = entries@;
    assert(sorting::models(built) =~= entries.deep_view());
    type_manifest::stamp_manifest_anchor_symbols(&mut entries, file_results);
    assert(entries.deep_view() =~= sorting::models(
        built.map_values(|e: TypeManifestEntry| type_manifest::stamped(e, file_results@)),
    ));
    protocol::append_protocol_manifest_entries(&mut entries, extractions);
    protocol::append_pubsub_manifest_entries(
        &mut entries,
        file_results,
        &extractions.sockets,
        repo_path,
    );
    entries
}

/// Gives a record its type manifest, unless that is empty.
pub fn set_type_manifest(data: &mut CloudRepoData, entries: Vec<TypeManifestEntry>)
    ensures
        *final(data) == (if entries@.len() == 0 {
            *old(data)
        } else {
            CloudRepoData { type_manifest: Some(entries), ..*old(data) }
        }),
{
    if entries.len() > 0 {
        data.type_manifest = Some(entries);
    }
}

/// Whether a record was extended by a service's protocols and given its type
/// manifest, unless that is empty, and is otherwise the same.
pub open spec fn is_indexed(
    before: CloudRepoData,
    after: CloudRepoData,
    file_results: Seq<FileResult>,
    extractions: ProtocolExtractions,
    manifest: Seq<cloud_storage::EntryModel>,
) -> bool {
    &&& protocol::extended_by(
        before.endpoints@,
        after.endpoints@,
        protocol::endpoint_sites(extractions, file_results),
    )
    &&& protocol::extended_by(
        before.calls@,
        after.calls@,
        protocol::call_sites(extractions, file_results),
    )
    &&& if manifest.len() == 0 {
        after.type_manifest == before.type_manifest
    } else {
        after.type_manifest matches Some(entries) && entries.deep_view() == manifest
    }
    &&& after == (CloudRepoData {
        endpoints: after.endpoints,
        calls: after.calls,
        type_manifest: after.type_manifest,
        ..before
    })
}

/// Adds the operations of a service's protocols to its record, and gives it
/// the type manifest.
pub fn index_service(
    data: &mut CloudRepoData,
    mount_graph: &MountGraph,
    file_results: &Vec<FileResult>,
    extractions: &ProtocolExtractions,
    repo_path: &str,
)
    ensures
        exists|built: Seq<TypeManifestEntry>|
            #![trigger sorting::models(built)]
            is_built(built, *mount_graph, repo_path@) && is_indexed(
                *old(data),
                *final(data),
                file_results@,
                *extractions,
                manifest_of(built, file_results@, *extractions, repo_path@),
            ),
{
    protocol::append_deterministic_protocol_operations(
        &mut data.endpoints,
        &mut data.calls,
        extractions,
        file_results,
    );
    let entries = assemble_type_manifest(mount_graph, file_results, extractions, repo_path);
    assert(entries.deep_view().len() == entries@.len());
    set_type_manifest(data, entries);
}

// ---------------------------------------------------------------------------
// Type resolution
// ---------------------------------------------------------------------------

/// How type resolution went.
#[derive(Debug)]
pub enum ResolutionOutcome {
    /// There is no sidecar.
    Unavailable,
    /// The sidecar did not become ready.
    NotReady(String),
    /// The sidecar failed.
    Failed(String),
    /// Types were resolved.
    Resolved(TypeResolutionResult),
}

/// What is said of a run that could not resolve types, or only in part.
pub open spec fn resolution_status(
    outcome: ResolutionOutcome,
    has_extraction_config: bool,
) -> Option<Seq<char>> {
    match outcome {
        ResolutionOutcome::Unavailable => Some(
            "type extraction skipped: sidecar unavailable (not found, failed to start, or failed to initialize)"@,
        ),
        ResolutionOutcome::NotReady(e) => Some(
            "type extraction skipped: sidecar not ready: "@ + e@,
        ),
        ResolutionOutcome::Failed(e) => Some("type resolution failed: "@ + e@),
        ResolutionOutcome::Resolved(_) => if has_extraction_config {
            None
        } else {
            Some(
                "machinery unwrapping disabled this run: extraction-config generation failed; wrapper types (e.g. AxiosResponse<T>) may surface in the type manifest"@,
            )
        },
    }
}

fn make_status(outcome: &ResolutionOutcome, has_extraction_config: bool) -> (r: Option<String>)
    ensures
        r.deep_view() == resolution_status(*outcome, has_extraction_config),
{
    match outcome {
        ResolutionOutcome::Unavailable => Some(
            text::owned(
                "type extraction skipped: sidecar unavailable (not found, failed to start, or failed to initialize)",
            ),
        ),
        ResolutionOutcome::NotReady(e) => Some(
            text::cat2("type extraction skipped: sidecar not ready: ", e),
        ),
        ResolutionOutcome::Failed(e) => Some(text::cat2("type resolution failed: ", e)),
        ResolutionOutcome::Resolved(_) => {
            if has_extraction_config {
                None
            } else {
                Some(
                    text::owned(
                        "machinery unwrapping disabled this run: extraction-config generation failed; wrapper types (e.g. AxiosResponse<T>) may surface in the type manifest",
                    ),
                )
            }
        },
    }
}

/// The manifest of a record after resolution: enriched where types were
/// resolved.
pub open spec fn resolved_manifest(
    manifest: Option<Vec<TypeManifestEntry>>,
    outcome: ResolutionOutcome,
) -> Option<Seq<TypeManifestEntry>> {
    match manifest {
        Some(entries) => match outcome {
            ResolutionOutcome::Resolved(resolution) => Some(
                entries@.map_values(
                    |e: TypeManifestEntry|
                        type_manifest::enriched(
                            e,
                            resolution,
                            resolution.dts_content.deep_view(),
                        ),
                ),
            ),
            _ => Some(entries@),
        },
        None => None,
    }
}

/// The entries of a manifest that is there.
pub open spec fn entries_of(manifest: Option<Vec<TypeManifestEntry>>) -> Option<
    Seq<TypeManifestEntry>,
> {
    match manifest {
        Some(entries) => Some(entries@),
        None => None,
    }
}

/// Puts the outcome of type resolution into a record: the bundle, the enriched
/// manifest, and what is to be said of it.
pub fn apply_type_resolution(
    data: &mut CloudRepoData,
    outcome: &ResolutionOutcome,
    has_extraction_config: bool,
)
    ensures
        final(data).type_extraction_status.deep_view() == (match resolution_status(
            *outcome,
            has_extraction_config,
        ) {
            Some(status) => Some(status),
            None => old(data).type_extraction_status.deep_view(),
        }),
        final(data).bundled_types.deep_view() == (match *outcome {
            ResolutionOutcome::Resolved(resolution) => resolution.dts_content.deep_view(),
            _ => old(data).bundled_types.deep_view(),
        }),
        entries_of(final(data).type_manifest) == resolved_manifest(
            old(data).type_manifest,
            *outcome,
        ),
        *final(data) == (CloudRepoData {
            type_extraction_status: final(data).type_extraction_status,
            bundled_types: final(data).bundled_types,
            type_manifest: final(data).type_manifest,
            ..*old(data)
        }),
{
    if let ResolutionOutcome::Resolved(resolution) = outcome {
        data.bundled_types = text::copy_opt(&resolution.dts_content);
        match data.type_manifest.take() {
            Some(entries) => {
                let mut entries = entries;
                type_manifest::enrich_manifest_with_type_resolution(
                    &mut entries,
                    resolution,
                    &resolution.dts_content,
                );
                data.type_manifest = Some(entries);
            },
            None => {},
        }
    }
    let status = make_status(outcome, has_extraction_config);
    if status.is_some() {
        data.type_extraction_status = status;
    }
}

/// Completes the bundle of a record with a placeholder for each alias of its
/// manifest that it lacks.
pub fn complete_bundle(data: &mut CloudRepoData)
    ensures
        final(data).bundled_types.deep_view() == (match old(data).bundled_types {
            Some(content) => Some(
                match old(data).type_manifest {
                    Some(entries) => type_check::with_missing_aliases(content@, entries@),
                    None => content@,
                },
            ),
            None => None,
        }),
        *final(data) == (CloudRepoData {
            bundled_types: final(data).bundled_types,
            ..*old(data)
        }),
{
    let content = match data.bundled_types.take() {
        Some(content) => content,
        None => {
            return ;
        },
    };
    let updated = type_check::append_missing_aliases(content, data.type_manifest.as_ref());
    data.bundled_types = Some(updated);
}

/// The aliases whose definitions the compiler is asked for: those of the
/// manifest that have a type. Nothing is asked without a bundle and a manifest.
pub open spec fn wanted_aliases(data: CloudRepoData) -> Seq<Seq<char>> {
    match (data.bundled_types, data.type_manifest) {
        (Some(_), Some(entries)) => type_manifest::resolved_aliases(entries@),
        _ => Seq::empty(),
    }
}

/// The aliases whose definitions the compiler is asked for.
pub fn aliases_wanted(data: &CloudRepoData) -> (r: Vec<String>)
    ensures
        r.deep_view() == wanted_aliases(*data),
{
    match (&data.bundled_types, &data.type_manifest) {
        (Some(_), Some(entries)) => type_manifest::aliases_to_resolve(entries),
        _ => {
            let none: Vec<String> = Vec::new();
            assert(none.deep_view() =~= Seq::empty());
            none
        },
    }
}

/// Puts the definitions that the compiler gave into the manifest of a record.
pub fn resolve_per_endpoint_definitions(
    data: &mut CloudRepoData,
    definitions: &Vec<ResolvedDefinition>,
)
    ensures
        entries_of(final(data).type_manifest) == (match old(data).type_manifest {
            Some(entries) => Some(
                entries@.map_values(
                    |e: TypeManifestEntry| type_manifest::defined(e, definitions@),
                ),
            ),
            None => None,
        }),
        *final(data) == (CloudRepoData {
            type_manifest: final(data).type_manifest,
            ..*old(data)
        }),
{
    match data.type_manifest.take() {
        Some(entries) => {
            let mut entries = entries;
            type_manifest::apply_definitions(&mut entries, definitions);
            data.type_manifest = Some(entries);
        },
        None => {},
    }
}

// ---------------------------------------------------------------------------
// Across repositories
// ---------------------------------------------------------------------------

/// The first packages that could be read.
pub open spec fn first_packages(read: Seq<Option<Packages>>) -> Option<Packages>
    decreases read.len(),
{
    if read.len() == 0 {
        None
    } else if read[0] is Some {
        read[0]
    } else {
        first_packages(read.skip(1))
    }
}

/// The packages for the cross-repository analysis: the first that could be
/// read, or none.
pub fn merge_serialized_packages(read: Vec<Option<Packages>>) -> (r: Packages)
    ensures
        match first_packages(read@) {
            Some(packages) => r == packages,
            None => r.package_jsons@.len() == 0 && r.source_paths@.len() == 0
                && r.internal_names@.len() == 0 && r.merged_dependencies@.len() == 0,
        },
{
    let ghost all = read@;
    assert(all.skip(0) =~= all);
    for packages in it: read
        invariant
            it.seq() == all,
            all == read@,
            first_packages(all) == first_packages(all.skip(it.index())),
    {
        assert(all.skip(it.index()).skip(1) =~= all.skip(it.index() + 1));
        if let Some(packages) = packages {
            return packages;
        }
    }
    Packages::empty()
}

} // verus!
