//! The type manifest: one entry for each typed side of an operation.

use vstd::prelude::*;

use crate::cloud_storage::{
    InferKind, ManifestRole, ManifestTypeKind, ManifestTypeState, TypeEvidence, TypeManifestEntry,
};
use crate::file_analysis::{DataCallResult, EndpointResult, FileAnalysisResult, FileResult};
use crate::mount_graph::{DataFetchingCall, MatchEvidence, ResolvedEndpoint};
use crate::operation::OperationKey;
use crate::type_sidecar::{ExplicitType, InferredType, ResolvedDefinition, TypeResolutionResult};
use crate::{cloud_storage, hashing, manifest_laws, operation, text, type_check, type_compat_v2};

verus! {

// ---------------------------------------------------------------------------
// Names
// ---------------------------------------------------------------------------

/// The methods that are HTTP methods.
pub open spec fn http_method(method: Seq<char>) -> bool {
    ||| method == "GET"@
    ||| method == "POST"@
    ||| method == "PUT"@
    ||| method == "DELETE"@
    ||| method == "PATCH"@
    ||| method == "HEAD"@
    ||| method == "OPTIONS"@
}

/// Whether a method in capital letters is an HTTP method.
pub fn is_http_method(method: &str) -> (r: bool)
    ensures
        r == http_method(method@),
{
    text::same_text(method, "GET") || text::same_text(method, "POST") || text::same_text(
        method,
        "PUT",
    ) || text::same_text(method, "DELETE") || text::same_text(method, "PATCH") || text::same_text(
        method,
        "HEAD",
    ) || text::same_text(method, "OPTIONS")
}

/// A method without white space round it, in capital letters.
pub open spec fn normalized_method(method: Seq<char>) -> Seq<char> {
    text::uppercase_text(text::trim_spec(method))
}

/// A method without white space round it, in capital letters.
pub fn normalize_manifest_method(method: &str) -> (r: String)
    ensures
        r@ == normalized_method(method@),
{
    text::to_uppercase(&text::trim(method))
}

/// The file and the line of a `file:line`. A line that is missing, zero or no
/// number counts as the first.
pub open spec fn file_location_spec(location: Seq<char>) -> (Seq<char>, u32) {
    match text::rsplit_once_spec(location, ':') {
        Some((file, line)) => match text::parse_unsigned_spec(line, u32::MAX as u64) {
            Some(n) if n > 0 => (file, n as u32),
            _ => (file, 1),
        },
        None => (location, 1),
    }
}

/// The file and the line of a `file:line`.
pub fn parse_file_location(location: &str) -> (r: (String, u32))
    ensures
        (r.0@, r.1) == file_location_spec(location@),
        r.1 >= 1,
{
    match text::rsplit_once(location, ':') {
        Some((file, line)) => match text::parse_unsigned(&line, u32::MAX as u64) {
            Some(n) => if n > 0 {
                (file, n as u32)
            } else {
                (file, 1)
            },
            None => (file, 1),
        },
        None => (text::owned(location), 1),
    }
}

/// The label of a role.
pub open spec fn role_label(role: ManifestRole) -> Seq<char> {
    match role {
        ManifestRole::Producer => "producer"@,
        ManifestRole::Consumer => "consumer"@,
    }
}

/// The label of a kind.
pub open spec fn kind_label(kind: ManifestTypeKind) -> Seq<char> {
    match kind {
        ManifestTypeKind::Request => "Request"@,
        ManifestTypeKind::Response => "Response"@,
    }
}

/// The first sixteen digits of a content hash.
pub open spec fn short_hash(content: Seq<char>) -> Seq<char> {
    hashing::sha256_hex_of(content).take(16)
}

fn hash16(content: &str) -> (r: String)
    ensures
        r@ == short_hash(content@),
{
    let full = text::chars_of(&hashing::hash_file_content(content));
    let r = text::text_range(&full, 0, 16);
    assert(r@ =~= full@.take(16));
    r
}

/// The alias under which one side of an operation is typed: the operation and
/// the role as a hash, the kind, and the call site where there is one.
pub open spec fn type_alias_spec(
    key: operation::KeyModel,
    role: ManifestRole,
    kind: ManifestTypeKind,
    call_id: Option<Seq<char>>,
) -> Seq<char> {
    let plain = "Endpoint_"@ + short_hash(
        operation::canonical_spec(key) + "|"@ + role_label(role),
    ) + "_"@ + kind_label(kind);
    match call_id {
        Some(id) => plain + "_Call"@ + id,
        None => plain,
    }
}

/// The alias of one side of an operation, without a call site.
pub fn build_manifest_type_alias(
    key: &OperationKey,
    role: ManifestRole,
    kind: ManifestTypeKind,
) -> (r: String)
    ensures
        r@ == type_alias_spec(key@, role, kind, None),
{
    let role_text = match role {
        ManifestRole::Producer => "producer",
        ManifestRole::Consumer => "consumer",
    };
    let kind_text = match kind {
        ManifestTypeKind::Request => "Request",
        ManifestTypeKind::Response => "Response",
    };
    let identity = text::cat3(&key.canonical(), "|", role_text);
    text::cat4("Endpoint_", &hash16(&identity), "_", kind_text)
}

/// The alias of one side of an operation, with a call site where one is given.
pub fn build_manifest_type_alias_with_call_id(
    key: &OperationKey,
    role: ManifestRole,
    kind: ManifestTypeKind,
    call_id: &Option<String>,
) -> (r: String)
    ensures
        r@ == type_alias_spec(key@, role, kind, call_id.deep_view()),
{
    let plain = build_manifest_type_alias(key, role, kind);
    match call_id {
        Some(id) => text::cat3(&plain, "_Call", id),
        None => plain,
    }
}

/// The identity of a call site: its file relative to the repository, its line
/// and its operation, as a hash.
pub open spec fn call_site_spec(
    file_path: Seq<char>,
    line: u32,
    key: operation::KeyModel,
    repo_root: Seq<char>,
) -> Seq<char> {
    short_hash(
        type_compat_v2::repo_relative_spec(file_path, repo_root) + ":"@ + text::decimal(
            line as nat,
        ) + "|"@ + operation::canonical_spec(key),
    )
}

/// The identity of a call site.
pub fn build_call_site_id(
    file_path: &str,
    line: u32,
    key: &OperationKey,
    repo_root: &str,
) -> (r: String)
    ensures
        r@ == call_site_spec(file_path@, line, key@, repo_root@),
{
    let relative = type_compat_v2::repo_relative(file_path, repo_root);
    let number = text::decimal_text(line as u64);
    let identity = text::cat5(&relative, ":", &number, "|", &key.canonical());
    hash16(&identity)
}

/// What is inferred for an entry.
pub open spec fn infer_kind_spec(role: ManifestRole, kind: ManifestTypeKind) -> InferKind {
    match (role, kind) {
        (ManifestRole::Consumer, ManifestTypeKind::Response) => InferKind::CallResult,
        (ManifestRole::Producer, ManifestTypeKind::Response) => InferKind::ResponseBody,
        (_, ManifestTypeKind::Request) => InferKind::RequestBody,
    }
}

/// What is inferred for an entry.
pub fn infer_kind_for_manifest(role: ManifestRole, kind: ManifestTypeKind) -> (r: InferKind)
    ensures
        r == infer_kind_spec(role, kind),
{
    match (role, kind) {
        (ManifestRole::Consumer, ManifestTypeKind::Response) => InferKind::CallResult,
        (_, ManifestTypeKind::Response) => InferKind::ResponseBody,
        (_, ManifestTypeKind::Request) => InferKind::RequestBody,
    }
}

// ---------------------------------------------------------------------------
// Entries
// ---------------------------------------------------------------------------

/// An entry whose type is not resolved yet.
pub open spec fn fresh_entry(
    key: operation::KeyModel,
    role: ManifestRole,
    kind: ManifestTypeKind,
    file_path: Seq<char>,
    line_number: u32,
    symbol: Option<Seq<char>>,
    call_id: Option<Seq<char>>,
) -> cloud_storage::EntryModel {
    cloud_storage::EntryModel {
        key,
        role,
        type_kind: kind,
        type_alias: type_alias_spec(key, role, kind, call_id),
        file_path,
        line_number,
        is_explicit: false,
        type_state: ManifestTypeState::Unknown,
        evidence: cloud_storage::EvidenceModel {
            file_path,
            span_start: None,
            span_end: None,
            line_number,
            infer_kind: infer_kind_spec(role, kind),
            is_explicit: false,
            type_state: ManifestTypeState::Unknown,
        },
        resolved_definition: None,
        expanded_definition: None,
        primary_type_symbol: symbol,
    }
}

fn new_entry(
    key: &OperationKey,
    role: ManifestRole,
    kind: ManifestTypeKind,
    file_path: &str,
    line_number: u32,
    symbol: Option<String>,
    call_id: &Option<String>,
) -> (r: TypeManifestEntry)
    ensures
        r.deep_view() == fresh_entry(
            key@,
            role,
            kind,
            file_path@,
            line_number,
            symbol.deep_view(),
            call_id.deep_view(),
        ),
{
    TypeManifestEntry {
        key: key.clone(),
        role,
        type_kind: kind,
        type_alias: build_manifest_type_alias_with_call_id(key, role, kind, call_id),
        file_path: text::owned(file_path),
        line_number,
        is_explicit: false,
        type_state: ManifestTypeState::Unknown,
        evidence: TypeEvidence {
            file_path: text::owned(file_path),
            span_start: None,
            span_end: None,
            line_number,
            infer_kind: infer_kind_for_manifest(role, kind),
            is_explicit: false,
            type_state: ManifestTypeState::Unknown,
        },
        resolved_definition: None,
        expanded_definition: None,
        primary_type_symbol: symbol,
    }
}

/// Whether an operation of this role has no request body: a producer of one of
/// the methods that never carry one.
pub open spec fn skips_request(key: operation::KeyModel, role: ManifestRole) -> bool {
    role == ManifestRole::Producer && match key {
        operation::KeyModel::Http { method, .. } => method == "GET"@ || method == "HEAD"@ || method
            == "OPTIONS"@,
        _ => false,
    }
}

/// The entries of an HTTP operation: the request, where there can be one, and
/// the response.
pub open spec fn pair_entries(
    key: operation::KeyModel,
    role: ManifestRole,
    file_path: Seq<char>,
    line_number: u32,
    call_id: Option<Seq<char>>,
) -> Seq<cloud_storage::EntryModel> {
    let response = fresh_entry(
        key,
        role,
        ManifestTypeKind::Response,
        file_path,
        line_number,
        None,
        call_id,
    );
    if skips_request(key, role) {
        seq![response]
    } else {
        seq![
            fresh_entry(
                key,
                role,
                ManifestTypeKind::Request,
                file_path,
                line_number,
                None,
                call_id,
            ),
            response,
        ]
    }
}

/// Adds the entries of an HTTP operation.
pub fn add_manifest_pair(
    entries: &mut Vec<TypeManifestEntry>,
    key: &OperationKey,
    role: ManifestRole,
    file_path: &str,
    line_number: u32,
    call_id: &Option<String>,
)
    ensures
        final(entries).deep_view() == old(entries).deep_view() + pair_entries(
            key@,
            role,
            file_path@,
            line_number,
            call_id.deep_view(),
        ),
{
    let ghost before = entries.deep_view();
    let skip = role == ManifestRole::Producer && match key.as_http() {
        Some((method, _)) => text::same_text(method, "GET") || text::same_text(method, "HEAD")
            || text::same_text(method, "OPTIONS"),
        None => false,
    };
    if !skip {
        let request = new_entry(
            key,
            role,
            ManifestTypeKind::Request,
            file_path,
            line_number,
            None,
            call_id,
        );
        text::push_deep(entries, request);
    }
    let response = new_entry(
        key,
        role,
        ManifestTypeKind::Response,
        file_path,
        line_number,
        None,
        call_id,
    );
    text::push_deep(entries, response);
    assert(entries.deep_view() =~= before + pair_entries(
        key@,
        role,
        file_path@,
        line_number,
        call_id.deep_view(),
    ));
}

/// Adds the single response entry of an operation of another protocol.
pub fn add_protocol_manifest_entry(
    entries: &mut Vec<TypeManifestEntry>,
    key: &OperationKey,
    role: ManifestRole,
    file_path: &str,
    line_number: u32,
    symbol: Option<String>,
    call_id: &Option<String>,
)
    ensures
        final(entries).deep_view() == old(entries).deep_view().push(
            fresh_entry(
                key@,
                role,
                ManifestTypeKind::Response,
                file_path@,
                line_number,
                symbol.deep_view(),
                call_id.deep_view(),
            ),
        ),
{
    let entry = new_entry(
        key,
        role,
        ManifestTypeKind::Response,
        file_path,
        line_number,
        symbol,
        call_id,
    );
    text::push_deep(entries, entry);
}

/// Where an HTTP operation is declared or called.
pub struct Site {
    pub key: operation::KeyModel,
    pub file_path: Seq<char>,
    pub line_number: u32,
}

/// The operation that an endpoint with this method declares; `None` where it
/// anchors no producer types.
pub open spec fn producer_key_spec(
    endpoint: ResolvedEndpoint,
    method: Seq<char>,
) -> Option<operation::KeyModel> {
    if http_method(method) && endpoint.evidence != MatchEvidence::CallSite
        && endpoint.full_path@.len() > 0 && endpoint.full_path@[0] == '/' {
        Some(operation::KeyModel::Http { method, path: endpoint.full_path@ })
    } else {
        None
    }
}

/// The operation that an endpoint with this method declares.
pub fn producer_key(endpoint: &ResolvedEndpoint, method: &str) -> (r: Option<OperationKey>)
    ensures
        match r {
            Some(k) => producer_key_spec(*endpoint, method@) == Some(k@),
            None => producer_key_spec(*endpoint, method@) is None,
        },
{
    if !is_http_method(method) || endpoint.evidence == MatchEvidence::CallSite
        || !text::starts_with_char(&endpoint.full_path, '/') {
        None
    } else {
        Some(OperationKey::http(method, &endpoint.full_path))
    }
}

/// The operation that a call with this method makes; `None` where the call
/// anchors no types.
pub open spec fn consumer_key_spec(
    call: DataFetchingCall,
    method: Seq<char>,
) -> Option<operation::KeyModel> {
    if call.is_probable_url && http_method(method) && call.canonical_path@.len() > 0
        && call.canonical_path@[0] == '/' {
        Some(operation::KeyModel::Http { method, path: call.canonical_path@ })
    } else {
        None
    }
}

/// The operation that a call with this method makes.
pub fn consumer_key(call: &DataFetchingCall, method: &str) -> (r: Option<OperationKey>)
    ensures
        match r {
            Some(k) => consumer_key_spec(*call, method@) == Some(k@),
            None => consumer_key_spec(*call, method@) is None,
        },
{
    if !call.is_probable_url || !is_http_method(method) || !text::starts_with_char(
        &call.canonical_path,
        '/',
    ) {
        None
    } else {
        Some(OperationKey::http(method, &call.canonical_path))
    }
}

/// Whether one of the sites declares the operation.
pub open spec fn site_known(sites: Seq<Site>, key: operation::KeyModel) -> bool {
    exists|i: int| 0 <= i < sites.len() && (#[trigger] sites[i]).key == key
}

/// The declarations that anchor producer types: the first of each operation.
pub open spec fn producer_sites(endpoints: Seq<ResolvedEndpoint>) -> Seq<Site>
    decreases endpoints.len(),
{
    if endpoints.len() == 0 {
        Seq::empty()
    } else {
        let before = producer_sites(endpoints.drop_last());
        let e = endpoints.last();
        let at = file_location_spec(e.file_location@);
        match producer_key_spec(e, normalized_method(e.method@)) {
            Some(key) if !site_known(before, key) => before.push(
                Site { key, file_path: at.0, line_number: at.1 },
            ),
            _ => before,
        }
    }
}

/// The entries of the producer sites.
pub open spec fn producer_entries(sites: Seq<Site>) -> Seq<cloud_storage::EntryModel>
    decreases sites.len(),
{
    if sites.len() == 0 {
        Seq::empty()
    } else {
        let s = sites.last();
        producer_entries(sites.drop_last()) + pair_entries(
            s.key,
            ManifestRole::Producer,
            s.file_path,
            s.line_number,
            None,
        )
    }
}

/// The entries of the calls, each with its call site.
pub open spec fn consumer_entries(calls: Seq<DataFetchingCall>, repo_root: Seq<char>) -> Seq<
    cloud_storage::EntryModel,
>
    decreases calls.len(),
{
    if calls.len() == 0 {
        Seq::empty()
    } else {
        let before = consumer_entries(calls.drop_last(), repo_root);
        let c = calls.last();
        let at = file_location_spec(c.file_location@);
        match consumer_key_spec(c, normalized_method(c.method@)) {
            Some(key) => before + pair_entries(
                key,
                ManifestRole::Consumer,
                at.0,
                at.1,
                Some(call_site_spec(at.0, at.1, key, repo_root)),
            ),
            None => before,
        }
    }
}

/// Builds the manifest entries of the HTTP operations: the first declaration
/// of each endpoint, and every call to a bare route.
pub fn build_type_manifest_entries(
    endpoints: &Vec<ResolvedEndpoint>,
    calls: &Vec<DataFetchingCall>,
    repo_root: &str,
) -> (r: Vec<TypeManifestEntry>)
    ensures
        r.deep_view() == producer_entries(producer_sites(endpoints@)) + consumer_entries(
            calls@,
            repo_root@,
        ),
        manifest_laws::is_manifest_of(r.deep_view(), endpoints@, calls@, repo_root@),
{
    let mut entries: Vec<TypeManifestEntry> = Vec::new();
    let mut seen: Vec<OperationKey> = Vec::new();
    let mut i: usize = 0;
    assert(entries.deep_view() =~= Seq::empty());
    while i < endpoints.len()
        invariant
            i <= endpoints@.len(),
            seen@.len() == producer_sites(endpoints@.take(i as int)).len(),
            forall|k: int|
                0 <= k < seen@.len() ==> (#[trigger] seen@[k])@ == producer_sites(
                    endpoints@.take(i as int),
                )[k].key,
            entries.deep_view() == producer_entries(producer_sites(endpoints@.take(i as int))),
        decreases endpoints@.len() - i,
    {
        let endpoint = &endpoints[i];
        let ghost before = producer_sites(endpoints@.take(i as int));
        let ghost after = producer_sites(endpoints@.take(i + 1));
        assert(endpoints@.take(i + 1).drop_last() =~= endpoints@.take(i as int));
        let method = normalize_manifest_method(&endpoint.method);
        if let Some(key) = producer_key(endpoint, &method) {
            let known = key_known(&seen, &key);
            proof {
                if known {
                    let k = choose|k: int| 0 <= k < seen@.len() && (#[trigger] seen@[k])@ == key@;
                    assert(before[k].key == key@);
                } else if site_known(before, key@) {
                    let k = choose|k: int| 0 <= k < before.len() && (#[trigger] before[k]).key
                        == key@;
                    assert(seen@[k]@ == key@);
                }
            }
            if !known {
                let (file_path, line_number) = parse_file_location(&endpoint.file_location);
                add_manifest_pair(
                    &mut entries,
                    &key,
                    ManifestRole::Producer,
                    &file_path,
                    line_number,
                    &None,
                );
                assert(after.drop_last() =~= before);
                seen.push(key);
            }
        }
        i += 1;
    }
    assert(endpoints@.take(i as int) =~= endpoints@);
    let ghost producers = entries.deep_view();
    let mut j: usize = 0;
    assert(producers + consumer_entries(calls@.take(0), repo_root@) =~= producers);
    while j < calls.len()
        invariant
            j <= calls@.len(),
            entries.deep_view() == producers + consumer_entries(
                calls@.take(j as int),
                repo_root@,
            ),
        decreases calls@.len() - j,
    {
        let call = &calls[j];
        let ghost so_far = consumer_entries(calls@.take(j as int), repo_root@);
        assert(calls@.take(j + 1).drop_last() =~= calls@.take(j as int));
        let (file_path, line_number) = parse_file_location(&call.file_location);
        let method = normalize_manifest_method(&call.method);
        if let Some(key) = consumer_key(call, &method) {
            let call_id = build_call_site_id(&file_path, line_number, &key, repo_root);
            let ghost added = pair_entries(
                key@,
                ManifestRole::Consumer,
                file_path@,
                line_number,
                Some(call_id@),
            );
            add_manifest_pair(
                &mut entries,
                &key,
                ManifestRole::Consumer,
                &file_path,
                line_number,
                &Some(call_id),
            );
            assert(producers + so_far + added =~= producers + (so_far + added));
        }
        j += 1;
    }
    assert(calls@.take(j as int) =~= calls@);
    proof {
        manifest_laws::law_manifest_entries(endpoints@, calls@, repo_root@);
    }
    entries
}

fn key_known(seen: &Vec<OperationKey>, key: &OperationKey) -> (r: bool)
    ensures
        r == exists|k: int| 0 <= k < seen@.len() && (#[trigger] seen@[k])@ == key@,
{
    let mut i: usize = 0;
    while i < seen.len()
        invariant
            i <= seen@.len(),
            forall|k: int| 0 <= k < i ==> (#[trigger] seen@[k])@ != key@,
        decreases seen@.len() - i,
    {
        if seen[i].same(key) {
            assert(seen@[i as int]@ == key@);
            return true;
        }
        i += 1;
    }
    false
}

/// No two producer sites declare the same operation, so no two producer
/// entries of one kind share an alias by declaring one operation twice.
pub proof fn law_producer_sites_unique(endpoints: Seq<ResolvedEndpoint>)
    ensures
        forall|i: int, j: int|
            0 <= i < j < producer_sites(endpoints).len() ==> (#[trigger] producer_sites(
                endpoints,
            )[i]).key != (#[trigger] producer_sites(endpoints)[j]).key,
    decreases endpoints.len(),
{
    if endpoints.len() > 0 {
        law_producer_sites_unique(endpoints.drop_last());
        let before = producer_sites(endpoints.drop_last());
        let after = producer_sites(endpoints);
        assert forall|i: int, j: int| 0 <= i < j < after.len() implies (#[trigger] after[i]).key
            != (#[trigger] after[j]).key by {
            assert(before[i] == after[i]);
            if j < before.len() {
                assert(before[j] == after[j]);
            }
        }
    }
}

// ---------------------------------------------------------------------------
// Anchors
// ---------------------------------------------------------------------------

/// A reported line as a manifest line: a line that is not positive counts as
/// the first.
pub open spec fn anchor_line(line: i32) -> u32 {
    if line <= 0 {
        1
    } else {
        line as u32
    }
}

fn normalize_line(line: i32) -> (r: u32)
    ensures
        r == anchor_line(line),
{
    if line <= 0 {
        1
    } else {
        line as u32
    }
}

/// The symbol of the first endpoint on the line that has one.
pub open spec fn endpoint_symbol(endpoints: Seq<EndpointResult>, line: u32) -> Option<String>
    decreases endpoints.len(),
{
    if endpoints.len() == 0 {
        None
    } else if endpoints[0].primary_type_symbol is Some && anchor_line(endpoints[0].line_number)
        == line {
        endpoints[0].primary_type_symbol
    } else {
        endpoint_symbol(endpoints.skip(1), line)
    }
}

/// The symbol of the first call on the line that has one.
pub open spec fn call_symbol(calls: Seq<DataCallResult>, line: u32) -> Option<String>
    decreases calls.len(),
{
    if calls.len() == 0 {
        None
    } else if calls[0].primary_type_symbol is Some && anchor_line(calls[0].line_number) == line {
        calls[0].primary_type_symbol
    } else {
        call_symbol(calls.skip(1), line)
    }
}

/// The symbol that a file's result gives for a line: an endpoint's before a
/// call's.
pub open spec fn file_symbol(result: FileAnalysisResult, line: u32) -> Option<String> {
    match endpoint_symbol(result.endpoints@, line) {
        Some(s) => Some(s),
        None => call_symbol(result.data_calls@, line),
    }
}

/// The symbol that the results give for a line of a file.
pub open spec fn symbol_at(results: Seq<FileResult>, file: Seq<char>, line: u32) -> Option<String>
    decreases results.len(),
{
    if results.len() == 0 {
        None
    } else if results[0].path@ == file && file_symbol(results[0].result, line) is Some {
        file_symbol(results[0].result, line)
    } else {
        symbol_at(results.skip(1), file, line)
    }
}

fn find_endpoint_symbol<'a>(endpoints: &'a Vec<EndpointResult>, line: u32) -> (r: Option<
    &'a String,
>)
    ensures
        match r {
            Some(s) => endpoint_symbol(endpoints@, line) == Some(*s),
            None => endpoint_symbol(endpoints@, line) is None,
        },
{
    let mut i: usize = 0;
    assert(endpoints@.skip(0) =~= endpoints@);
    while i < endpoints.len()
        invariant
            i <= endpoints@.len(),
            endpoint_symbol(endpoints@, line) == endpoint_symbol(endpoints@.skip(i as int), line),
        decreases endpoints@.len() - i,
    {
        assert(endpoints@.skip(i as int).skip(1) =~= endpoints@.skip(i + 1));
        if let Some(s) = &endpoints[i].primary_type_symbol {
            if normalize_line(endpoints[i].line_number) == line {
                return Some(s);
            }
        }
        i += 1;
    }
    None
}

fn find_call_symbol<'a>(calls: &'a Vec<DataCallResult>, line: u32) -> (r: Option<&'a String>)
    ensures
        match r {
            Some(s) => call_symbol(calls@, line) == Some(*s),
            None => call_symbol(calls@, line) is None,
        },
{
    let mut i: usize = 0;
    assert(calls@.skip(0) =~= calls@);
    while i < calls.len()
        invariant
            i <= calls@.len(),
            call_symbol(calls@, line) == call_symbol(calls@.skip(i as int), line),
        decreases calls@.len() - i,
    {
        assert(calls@.skip(i as int).skip(1) =~= calls@.skip(i + 1));
        if let Some(s) = &calls[i].primary_type_symbol {
            if normalize_line(calls[i].line_number) == line {
                return Some(s);
            }
        }
        i += 1;
    }
    None
}

fn find_symbol<'a>(results: &'a Vec<FileResult>, file: &str, line: u32) -> (r: Option<&'a String>)
    ensures
        match r {
            Some(s) => symbol_at(results@, file@, line) == Some(*s),
            None => symbol_at(results@, file@, line) is None,
        },
{
    let mut i: usize = 0;
    assert(results@.skip(0) =~= results@);
    while i < results.len()
        invariant
            i <= results@.len(),
            symbol_at(results@, file@, line) == symbol_at(
                results@.skip(i as int),
                file@,
                line,
            ),
        decreases results@.len() - i,
    {
        assert(results@.skip(i as int).skip(1) =~= results@.skip(i + 1));
        if text::same_text(&results[i].path, file) {
            match find_endpoint_symbol(&results[i].result.endpoints, line) {
                Some(s) => {
                    return Some(s);
                },
                None => {},
            }
            match find_call_symbol(&results[i].result.data_calls, line) {
                Some(s) => {
                    return Some(s);
                },
                None => {},
            }
        }
        i += 1;
    }
    None
}

/// An entry with the symbol that the results give for its file and line.
pub open spec fn stamped(entry: TypeManifestEntry, results: Seq<FileResult>) -> TypeManifestEntry {
    match symbol_at(results, entry.file_path@, entry.line_number) {
        Some(symbol) => TypeManifestEntry { primary_type_symbol: Some(symbol), ..entry },
        None => entry,
    }
}

/// Stamps the symbols that were found in the files onto the manifest entries of
/// the same file and line. The first symbol of a line wins.
pub fn stamp_manifest_anchor_symbols(
    manifest: &mut Vec<TypeManifestEntry>,
    file_results: &Vec<FileResult>,
)
    ensures
        final(manifest)@ == old(manifest)@.map_values(
            |e: TypeManifestEntry| stamped(e, file_results@),
        ),
{
    let ghost before = manifest@;
    let mut i: usize = 0;
    while i < manifest.len()
        invariant
            i <= manifest@.len(),
            manifest@.len() == before.len(),
            forall|k: int| 0 <= k < i ==> #[trigger] manifest@[k] == stamped(
                before[k],
                file_results@,
            ),
            forall|k: int| i <= k < before.len() ==> #[trigger] manifest@[k] == before[k],
        decreases manifest@.len() - i,
    {
        let entry = &mut manifest[i];
        let found = find_symbol(file_results, &entry.file_path, entry.line_number);
        if let Some(symbol) = found {
            entry.primary_type_symbol = Some(symbol.clone());
        }
        i += 1;
    }
    assert(manifest@ =~= before.map_values(|e: TypeManifestEntry| stamped(e, file_results@)));
}

// ---------------------------------------------------------------------------
// Resolution
// ---------------------------------------------------------------------------

/// The last explicit type of an alias.
pub open spec fn explicit_type(types: Seq<ExplicitType>, alias: Seq<char>) -> Option<ExplicitType>
    decreases types.len(),
{
    if types.len() == 0 {
        None
    } else if types.last().alias@ == alias {
        Some(types.last())
    } else {
        explicit_type(types.drop_last(), alias)
    }
}

/// The first inferred type of an alias.
pub open spec fn inferred_type(types: Seq<InferredType>, alias: Seq<char>) -> Option<InferredType>
    decreases types.len(),
{
    if types.len() == 0 {
        None
    } else if types[0].alias@ == alias {
        Some(types[0])
    } else {
        inferred_type(types.skip(1), alias)
    }
}

/// The first symbol that the inferred types give for an alias.
pub open spec fn inferred_symbol(types: Seq<InferredType>, alias: Seq<char>) -> Option<String>
    decreases types.len(),
{
    if types.len() == 0 {
        None
    } else if types[0].alias@ == alias && types[0].primary_type_symbol is Some {
        types[0].primary_type_symbol
    } else {
        inferred_symbol(types.skip(1), alias)
    }
}

/// What an alias resolves to, and whether explicitly: an explicit type wins
/// over an inferred one.
pub open spec fn resolved_type(resolution: TypeResolutionResult, alias: Seq<char>) -> Option<
    (Seq<char>, bool),
> {
    match explicit_type(resolution.explicit_manifest@, alias) {
        Some(t) => Some((t.type_string@, true)),
        None => match inferred_type(resolution.inferred_types@, alias) {
            Some(t) => Some((t.type_string@, t.is_explicit)),
            None => None,
        },
    }
}

/// Whether a type text says nothing of a shape.
pub open spec fn shapeless(type_string: Seq<char>) -> bool {
    text::trim_spec(type_string) == "unknown"@ || text::trim_spec(type_string) == "any"@
        || type_string.len() == 0
}

/// An entry in a state, with what its evidence says of it.
pub open spec fn in_state(
    entry: TypeManifestEntry,
    is_explicit: bool,
    state: ManifestTypeState,
) -> TypeManifestEntry {
    TypeManifestEntry {
        is_explicit,
        type_state: state,
        evidence: TypeEvidence { is_explicit, type_state: state, ..entry.evidence },
        ..entry
    }
}

/// An entry after resolution, given what its alias resolves to, the symbol that
/// was inferred for it, and whether the bundle declares the alias or carries
/// its placeholder.
pub open spec fn enriched_with(
    entry: TypeManifestEntry,
    resolved: Option<(Seq<char>, bool)>,
    symbol: Option<String>,
    declared: bool,
    placeholder: bool,
) -> TypeManifestEntry {
    let anchored = if entry.primary_type_symbol is None && symbol is Some {
        TypeManifestEntry { primary_type_symbol: symbol, ..entry }
    } else {
        entry
    };
    match resolved {
        Some((type_string, is_explicit)) => if shapeless(type_string) || placeholder {
            in_state(anchored, false, ManifestTypeState::Unknown)
        } else if is_explicit {
            in_state(anchored, true, ManifestTypeState::Explicit)
        } else {
            in_state(anchored, false, ManifestTypeState::Implicit)
        },
        None => if placeholder {
            in_state(anchored, false, ManifestTypeState::Unknown)
        } else if declared {
            TypeManifestEntry {
                type_state: ManifestTypeState::Implicit,
                evidence: TypeEvidence {
                    type_state: ManifestTypeState::Implicit,
                    ..anchored.evidence
                },
                ..anchored
            }
        } else {
            anchored
        },
    }
}

/// An entry after resolution, given the bundle.
pub open spec fn enriched(
    entry: TypeManifestEntry,
    resolution: TypeResolutionResult,
    dts: Option<Seq<char>>,
) -> TypeManifestEntry {
    let alias = entry.type_alias@;
    enriched_with(
        entry,
        resolved_type(resolution, alias),
        inferred_symbol(resolution.inferred_types@, alias),
        dts matches Some(d) && type_check::defines_alias(d, alias),
        dts matches Some(d) && type_check::trivially_unknown(d, alias),
    )
}

fn find_explicit<'a>(types: &'a Vec<ExplicitType>, alias: &str) -> (r: Option<&'a ExplicitType>)
    ensures
        match r {
            Some(t) => explicit_type(types@, alias@) == Some(*t),
            None => explicit_type(types@, alias@) is None,
        },
{
    let mut i: usize = types.len();
    assert(types@.take(i as int) =~= types@);
    while i > 0
        invariant
            i <= types@.len(),
            explicit_type(types@, alias@) == explicit_type(types@.take(i as int), alias@),
        decreases i,
    {
        assert(types@.take(i as int).drop_last() =~= types@.take(i - 1));
        if text::same_text(&types[i - 1].alias, alias) {
            return Some(&types[i - 1]);
        }
        i -= 1;
    }
    None
}

fn find_inferred<'a>(types: &'a Vec<InferredType>, alias: &str) -> (r: Option<&'a InferredType>)
    ensures
        match r {
            Some(t) => inferred_type(types@, alias@) == Some(*t),
            None => inferred_type(types@, alias@) is None,
        },
{
    let mut i: usize = 0;
    assert(types@.skip(0) =~= types@);
    while i < types.len()
        invariant
            i <= types@.len(),
            inferred_type(types@, alias@) == inferred_type(types@.skip(i as int), alias@),
        decreases types@.len() - i,
    {
        assert(types@.skip(i as int).skip(1) =~= types@.skip(i + 1));
        if text::same_text(&types[i].alias, alias) {
            return Some(&types[i]);
        }
        i += 1;
    }
    None
}

fn find_inferred_symbol<'a>(types: &'a Vec<InferredType>, alias: &str) -> (r: Option<&'a String>)
    ensures
        match r {
            Some(s) => inferred_symbol(types@, alias@) == Some(*s),
            None => inferred_symbol(types@, alias@) is None,
        },
{
    let mut i: usize = 0;
    assert(types@.skip(0) =~= types@);
    while i < types.len()
        invariant
            i <= types@.len(),
            inferred_symbol(types@, alias@) == inferred_symbol(types@.skip(i as int), alias@),
        decreases types@.len() - i,
    {
        assert(types@.skip(i as int).skip(1) =~= types@.skip(i + 1));
        if text::same_text(&types[i].alias, alias) {
            if let Some(s) = &types[i].primary_type_symbol {
                return Some(s);
            }
        }
        i += 1;
    }
    None
}

fn set_state(entry: &mut TypeManifestEntry, is_explicit: bool, state: ManifestTypeState)
    ensures
        *final(entry) == in_state(*old(entry), is_explicit, state),
{
    entry.is_explicit = is_explicit;
    entry.type_state = state;
    entry.evidence.is_explicit = is_explicit;
    entry.evidence.type_state = state;
}

/// Updates one entry with what is known of its alias: the anchor is filled only
/// where there is none; a shapeless type or a placeholder makes the entry
/// unknown; a declared alias that was not resolved makes it implicit.
pub fn enrich_entry(
    entry: &mut TypeManifestEntry,
    resolved: Option<(&String, bool)>,
    symbol: Option<&String>,
    declared: bool,
    placeholder: bool,
)
    ensures
        *final(entry) == enriched_with(
            *old(entry),
            match resolved {
                Some((t, x)) => Some((t@, x)),
                None => None,
            },
            match symbol {
                Some(s) => Some(*s),
                None => None,
            },
            declared,
            placeholder,
        ),
{
    if entry.primary_type_symbol.is_none() {
        if let Some(s) = symbol {
            entry.primary_type_symbol = Some(s.clone());
        }
    }
    match resolved {
        Some((type_string, is_explicit)) => {
            let trimmed = text::trim(type_string);
            if text::same_text(&trimmed, "unknown") || text::same_text(&trimmed, "any")
                || type_string.as_str().is_empty() || placeholder {
                set_state(entry, false, ManifestTypeState::Unknown);
            } else if is_explicit {
                set_state(entry, true, ManifestTypeState::Explicit);
            } else {
                set_state(entry, false, ManifestTypeState::Implicit);
            }
        },
        None => {
            if placeholder {
                set_state(entry, false, ManifestTypeState::Unknown);
            } else if declared {
                entry.type_state = ManifestTypeState::Implicit;
                entry.evidence.type_state = ManifestTypeState::Implicit;
            }
        },
    }
}

/// Updates the state and the anchor of every manifest entry from the result of
/// type resolution and the bundled declarations.
pub fn enrich_manifest_with_type_resolution(
    manifest: &mut Vec<TypeManifestEntry>,
    resolution: &TypeResolutionResult,
    bundled_dts: &Option<String>,
)
    ensures
        final(manifest)@ == old(manifest)@.map_values(
            |e: TypeManifestEntry| enriched(e, *resolution, bundled_dts.deep_view()),
        ),
        forall|i: int|
            0 <= i < old(manifest)@.len() ==> manifest_laws::is_enriched(
                #[trigger] old(manifest)@[i],
                final(manifest)@[i],
                *resolution,
                bundled_dts.deep_view(),
            ),
{
    let ghost before = manifest@;
    let mut i: usize = 0;
    while i < manifest.len()
        invariant
            i <= manifest@.len(),
            manifest@.len() == before.len(),
            forall|k: int|
                0 <= k < i ==> #[trigger] manifest@[k] == enriched(
                    before[k],
                    *resolution,
                    bundled_dts.deep_view(),
                ),
            forall|k: int| i <= k < before.len() ==> #[trigger] manifest@[k] == before[k],
        decreases manifest@.len() - i,
    {
        let entry = &mut manifest[i];
        let alias = entry.type_alias.clone();
        let (declared, placeholder) = match bundled_dts {
            Some(dts) => (
                type_check::dts_defines_alias(dts, &alias),
                type_check::dts_alias_is_trivially_unknown(dts, &alias),
            ),
            None => (false, false),
        };
        let resolved = match find_explicit(&resolution.explicit_manifest, &alias) {
            Some(t) => Some((&t.type_string, true)),
            None => match find_inferred(&resolution.inferred_types, &alias) {
                Some(t) => Some((&t.type_string, t.is_explicit)),
                None => None,
            },
        };
        let symbol = find_inferred_symbol(&resolution.inferred_types, &alias);
        enrich_entry(entry, resolved, symbol, declared, placeholder);
        i += 1;
    }
    assert(manifest@ =~= before.map_values(
        |e: TypeManifestEntry| enriched(e, *resolution, bundled_dts.deep_view()),
    ));
    assert forall|i: int| 0 <= i < before.len() implies manifest_laws::is_enriched(
        #[trigger] before[i],
        manifest@[i],
        *resolution,
        bundled_dts.deep_view(),
    ) by {
        manifest_laws::law_enrichment(before[i], *resolution, bundled_dts.deep_view());
    }
}

/// Enrichment never replaces an anchor that an entry has.
pub proof fn law_enrichment_keeps_anchor(
    entry: TypeManifestEntry,
    resolution: TypeResolutionResult,
    dts: Option<Seq<char>>,
)
    requires
        entry.primary_type_symbol is Some,
    ensures
        enriched(entry, resolution, dts).primary_type_symbol == entry.primary_type_symbol,
{
}

/// Enrichment keeps what an entry is about: operation, role, kind, alias and
/// place.
pub proof fn law_enrichment_keeps_identity(
    entry: TypeManifestEntry,
    resolution: TypeResolutionResult,
    dts: Option<Seq<char>>,
)
    ensures
        ({
            let e = enriched(entry, resolution, dts);
            &&& e.key == entry.key
            &&& e.role == entry.role
            &&& e.type_kind == entry.type_kind
            &&& e.type_alias == entry.type_alias
            &&& e.file_path == entry.file_path
            &&& e.line_number == entry.line_number
        }),
{
}

/// A type without a shape never reads as resolved: whatever else is known, the
/// entry is unknown.
pub proof fn law_shapeless_is_unknown(
    entry: TypeManifestEntry,
    resolution: TypeResolutionResult,
    dts: Option<Seq<char>>,
)
    requires
        resolved_type(resolution, entry.type_alias@) matches Some((t, _)) && (shapeless(t) || (
        dts matches Some(d) && type_check::trivially_unknown(d, entry.type_alias@))),
    ensures
        enriched(entry, resolution, dts).type_state == ManifestTypeState::Unknown,
        !enriched(entry, resolution, dts).is_explicit,
{
}

// ---------------------------------------------------------------------------
// Definitions
// ---------------------------------------------------------------------------

/// The aliases of the resolved entries, each once.
pub open spec fn resolved_aliases(manifest: Seq<TypeManifestEntry>) -> Seq<Seq<char>>
    decreases manifest.len(),
{
    if manifest.len() == 0 {
        Seq::empty()
    } else {
        let before = resolved_aliases(manifest.drop_last());
        let e = manifest.last();
        if e.type_state == ManifestTypeState::Unknown || text::among(e.type_alias@, before) {
            before
        } else {
            before.push(e.type_alias@)
        }
    }
}

/// The aliases whose definitions are asked for: those of the resolved entries.
pub fn aliases_to_resolve(manifest: &Vec<TypeManifestEntry>) -> (r: Vec<String>)
    ensures
        r.deep_view() == resolved_aliases(manifest@),
{
    let mut out: Vec<String> = Vec::new();
    assert(out.deep_view() =~= Seq::empty());
    let mut i: usize = 0;
    while i < manifest.len()
        invariant
            i <= manifest@.len(),
            out.deep_view() == resolved_aliases(manifest@.take(i as int)),
        decreases manifest@.len() - i,
    {
        assert(manifest@.take(i + 1).drop_last() =~= manifest@.take(i as int));
        if manifest[i].type_state != ManifestTypeState::Unknown && !text::is_among(
            &manifest[i].type_alias,
            &out,
        ) {
            text::push_deep(&mut out, manifest[i].type_alias.clone());
        }
        i += 1;
    }
    assert(manifest@.take(i as int) =~= manifest@);
    out
}

/// The last definition of an alias.
pub open spec fn definition_of(
    definitions: Seq<ResolvedDefinition>,
    alias: Seq<char>,
) -> Option<ResolvedDefinition>
    decreases definitions.len(),
{
    if definitions.len() == 0 {
        None
    } else if definitions.last().type_alias@ == alias {
        Some(definitions.last())
    } else {
        definition_of(definitions.drop_last(), alias)
    }
}

/// An entry with its definitions.
pub open spec fn defined(
    entry: TypeManifestEntry,
    definitions: Seq<ResolvedDefinition>,
) -> TypeManifestEntry {
    match definition_of(definitions, entry.type_alias@) {
        Some(d) => TypeManifestEntry {
            resolved_definition: Some(d.definition),
            expanded_definition: Some(d.expanded),
            ..entry
        },
        None => entry,
    }
}

fn find_definition<'a>(definitions: &'a Vec<ResolvedDefinition>, alias: &str) -> (r: Option<
    &'a ResolvedDefinition,
>)
    ensures
        match r {
            Some(d) => definition_of(definitions@, alias@) == Some(*d),
            None => definition_of(definitions@, alias@) is None,
        },
{
    let mut i: usize = definitions.len();
    assert(definitions@.take(i as int) =~= definitions@);
    while i > 0
        invariant
            i <= definitions@.len(),
            definition_of(definitions@, alias@) == definition_of(
                definitions@.take(i as int),
                alias@,
            ),
        decreases i,
    {
        assert(definitions@.take(i as int).drop_last() =~= definitions@.take(i - 1));
        if text::same_text(&definitions[i - 1].type_alias, alias) {
            return Some(&definitions[i - 1]);
        }
        i -= 1;
    }
    None
}

/// Puts the definitions that the compiler printed onto the entries of their
/// aliases. Entries without one keep what they have.
pub fn apply_definitions(
    manifest: &mut Vec<TypeManifestEntry>,
    definitions: &Vec<ResolvedDefinition>,
)
    ensures
        final(manifest)@ == old(manifest)@.map_values(
            |e: TypeManifestEntry| defined(e, definitions@),
        ),
{
    let ghost before = manifest@;
    let mut i: usize = 0;
    while i < manifest.len()
        invariant
            i <= manifest@.len(),
            manifest@.len() == before.len(),
            forall|k: int| 0 <= k < i ==> #[trigger] manifest@[k] == defined(
                before[k],
                definitions@,
            ),
            forall|k: int| i <= k < before.len() ==> #[trigger] manifest@[k] == before[k],
        decreases manifest@.len() - i,
    {
        let entry = &mut manifest[i];
        let found = find_definition(definitions, &entry.type_alias);
        if let Some(d) = found {
            entry.resolved_definition = Some(d.definition.clone());
            entry.expanded_definition = Some(d.expanded.clone());
        }
        i += 1;
    }
    assert(manifest@ =~= before.map_values(|e: TypeManifestEntry| defined(e, definitions@)));
}

} // verus!
