//! The operations of the protocols other than HTTP: GraphQL, Socket.IO and
//! pub/sub.

use vstd::prelude::*;

use crate::cloud_storage::{ApiEndpointDetails, CloudRepoData, ManifestRole, TypeManifestEntry};
use crate::file_analysis::{FileResult, GraphqlConsumerLocate, GraphqlOperation, PubsubOperation};
use crate::mount_graph::{DataFetchingCall, MountGraph};
use crate::operation::{OperationKey, PubsubRole};
use crate::sorting::{Keyed, SortKey};
use crate::{cloud_storage, operation, paths, sorting, text, type_manifest};

verus! {

/// A GraphQL root field, of a schema or of a document.
#[derive(Debug)]
pub struct GraphqlOp {
    pub key: OperationKey,
    pub file_path: String,
    pub line: u32,
    pub primary_type_symbol: Option<String>,
    pub payload_type_symbol: Option<String>,
    pub payload_type_source: Option<String>,
    pub resolver_file: Option<String>,
    pub resolver_line: Option<u32>,
    pub response_type_symbol: Option<String>,
    pub response_type_source: Option<String>,
    pub consumer_located_type_symbol: Option<String>,
    pub consumer_located_type_source: Option<String>,
}

/// A Socket.IO listener or emitter.
#[derive(Debug)]
pub struct SocketOp {
    pub key: OperationKey,
    pub file_path: String,
    pub line: u32,
    pub payload_type_symbol: Option<String>,
    pub payload_type_source: Option<String>,
}

/// The GraphQL operations of a service.
#[derive(Debug)]
pub struct GraphqlExtraction {
    pub producers: Vec<GraphqlOp>,
    pub consumers: Vec<GraphqlOp>,
}

/// The Socket.IO operations of a service.
#[derive(Debug)]
pub struct SocketExtraction {
    pub listeners: Vec<SocketOp>,
    pub emitters: Vec<SocketOp>,
}

/// The operations that were extracted without a model.
#[derive(Debug)]
pub struct ProtocolExtractions {
    pub graphql: GraphqlExtraction,
    pub sockets: SocketExtraction,
}

// ---------------------------------------------------------------------------
// Transport calls
// ---------------------------------------------------------------------------

/// Whether a character is one of the three quotes.
pub open spec fn is_quote(c: char) -> bool {
    c == '`' || c == '"' || c == '\''
}

/// A text without the quotes at its beginning.
pub open spec fn unquoted_start(s: Seq<char>) -> Seq<char>
    decreases s.len(),
{
    if s.len() > 0 && is_quote(s[0]) {
        unquoted_start(s.skip(1))
    } else {
        s
    }
}

/// A text without the quotes at its end.
pub open spec fn unquoted_end(s: Seq<char>) -> Seq<char>
    decreases s.len(),
{
    if s.len() > 0 && is_quote(s.last()) {
        unquoted_end(s.drop_last())
    } else {
        s
    }
}

fn trim_quotes(s: &str) -> (r: String)
    ensures
        r@ == unquoted_end(unquoted_start(s@)),
{
    let v = text::chars_of(s);
    let mut i: usize = 0;
    assert(v@.skip(0) =~= v@);
    while i < v.len() && (v[i] == '`' || v[i] == '"' || v[i] == '\'')
        invariant
            i <= v@.len(),
            unquoted_start(v@) == unquoted_start(v@.skip(i as int)),
        decreases v@.len() - i,
    {
        assert(v@.skip(i as int).skip(1) =~= v@.skip(i + 1));
        i += 1;
    }
    let ghost t = v@.skip(i as int);
    let mut j: usize = v.len();
    assert(t.take(j - i) =~= t);
    while j > i && (v[j - 1] == '`' || v[j - 1] == '"' || v[j - 1] == '\'')
        invariant
            i <= j <= v@.len(),
            t == v@.skip(i as int),
            unquoted_end(t) == unquoted_end(t.take(j - i)),
        decreases j,
    {
        assert(t.take(j - i).drop_last() =~= t.take(j - i - 1));
        assert(t.take(j - i).last() == v@[j - 1]);
        j -= 1;
    }
    let r = text::text_range(&v, i, j);
    assert(r@ =~= t.take(j - i));
    proof {
        if j > i {
            assert(t.take(j - i).last() == v@[j - 1]);
        }
    }
    r
}

/// Whether a raw target is the address of a client: an environment variable in
/// it, or a full URL.
pub open spec fn transport_shape(target: Seq<char>) -> bool {
    let raw = unquoted_end(unquoted_start(target));
    ||| text::has_text(raw, "${"@)
    ||| text::has_text(raw, "process.env."@)
    ||| "http://"@.is_prefix_of(raw)
    ||| "https://"@.is_prefix_of(raw)
}

/// Whether a raw target is the address of a client.
pub fn is_transport_shape(target: &str) -> (r: bool)
    ensures
        r == transport_shape(target@),
{
    let raw = trim_quotes(target);
    text::contains_text(&raw, "${") || text::contains_text(&raw, "process.env.")
        || text::starts_with(&raw, "http://") || text::starts_with(&raw, "https://")
}

/// Whether a file holds one of the operations.
pub open spec fn file_consumes(consumers: Seq<GraphqlOp>, file: Seq<char>) -> bool {
    exists|i: int|
        0 <= i < consumers.len() && paths::plain_path((#[trigger] consumers[i]).file_path@)
            == paths::plain_path(file)
}

/// Whether a call is the transport of the GraphQL documents in its file.
pub open spec fn is_transport_call(call: DataFetchingCall, consumers: Seq<GraphqlOp>) -> bool {
    transport_shape(call.target_url@) && match text::rsplit_once_spec(call.file_location@, ':') {
        Some((file, _)) => file_consumes(consumers, file),
        None => false,
    }
}

fn consumes(consumers: &Vec<GraphqlOp>, file: &str) -> (r: bool)
    ensures
        r == file_consumes(consumers@, file@),
{
    let plain = paths::normalize_protocol_file(file);
    let mut i: usize = 0;
    while i < consumers.len()
        invariant
            i <= consumers@.len(),
            plain@ == paths::plain_path(file@),
            forall|k: int|
                0 <= k < i ==> paths::plain_path((#[trigger] consumers@[k]).file_path@)
                    != paths::plain_path(file@),
        decreases consumers@.len() - i,
    {
        if text::same_text(&paths::normalize_protocol_file(&consumers[i].file_path), &plain) {
            assert(file_consumes(consumers@, file@));
            return true;
        }
        i += 1;
    }
    false
}

/// Drops the calls that only carry the GraphQL documents of their own file: a
/// contract is indexed once. Calls to a plain relative path stay, and so do
/// calls in files without documents.
pub fn fold_graphql_transport_calls(graph: &mut MountGraph, graphql: &GraphqlExtraction)
    ensures
        final(graph).data_calls@ == old(graph).data_calls@.filter(
            |c: DataFetchingCall| !is_transport_call(c, graphql.consumers@),
        ),
        final(graph).endpoints == old(graph).endpoints,
        final(graph).mounts == old(graph).mounts,
{
    let ghost all = graph.data_calls@;
    let ghost pred = |c: DataFetchingCall| !is_transport_call(c, graphql.consumers@);
    let mut calls: Vec<DataFetchingCall> = Vec::new();
    std::mem::swap(&mut calls, &mut graph.data_calls);
    let mut i: usize = 0;
    let ghost mut k: int = 0;
    proof {
        reveal(Seq::filter);
    }
    assert(calls@ =~= all.take(0).filter(pred) + all.skip(0));
    while i < calls.len()
        invariant
            0 <= k <= all.len(),
            pred == (|c: DataFetchingCall| !is_transport_call(c, graphql.consumers@)),
            i == all.take(k).filter(pred).len(),
            calls@ == all.take(k).filter(pred) + all.skip(k),
        decreases all.len() - k,
    {
        let ghost kept = all.take(k).filter(pred);
        proof {
            reveal(Seq::filter);
            assert(all.take(k + 1).drop_last() =~= all.take(k));
        }
        assert(calls@[i as int] == all[k]);
        let call = &calls[i];
        let folded = is_transport_shape(&call.target_url) && match text::rsplit_once(
            &call.file_location,
            ':',
        ) {
            Some((file, _line)) => consumes(&graphql.consumers, &file),
            None => false,
        };
        if folded {
            calls.remove(i);
            assert(calls@ =~= kept + all.skip(k + 1));
        } else {
            i += 1;
            assert(calls@ =~= kept.push(all[k]) + all.skip(k + 1));
        }
        proof {
            k = k + 1;
        }
    }
    assert(k == all.len());
    assert(all.take(k) =~= all);
    assert(calls@ =~= all.filter(pred));
    graph.data_calls = calls;
}

/// Without GraphQL documents no call is dropped.
pub proof fn law_no_documents_no_fold(call: DataFetchingCall)
    ensures
        !is_transport_call(call, Seq::empty()),
{
}

// ---------------------------------------------------------------------------
// Socket twins
// ---------------------------------------------------------------------------

/// Whether an operation is about the event, in the file.
pub open spec fn is_twin(op: SocketOp, file: Seq<char>, topic: Seq<char>) -> bool {
    paths::plain_path(op.file_path@) == paths::plain_path(file) && match op.key@ {
        operation::KeyModel::Socket { event, .. } => event == topic,
        _ => false,
    }
}

/// Whether one of the operations is about the event, in the file.
pub open spec fn any_twin(ops: Seq<SocketOp>, file: Seq<char>, topic: Seq<char>) -> bool {
    exists|i: int| 0 <= i < ops.len() && is_twin(#[trigger] ops[i], file, topic)
}

/// Whether the socket scan already has an operation on the topic in the file.
pub open spec fn socket_twin(sockets: SocketExtraction, file: Seq<char>, topic: Seq<char>) -> bool {
    any_twin(sockets.listeners@, file, topic) || any_twin(sockets.emitters@, file, topic)
}

fn find_twin(ops: &Vec<SocketOp>, file: &str, topic: &str) -> (r: bool)
    ensures
        r == any_twin(ops@, file@, topic@),
{
    let plain = paths::normalize_protocol_file(file);
    let mut i: usize = 0;
    while i < ops.len()
        invariant
            i <= ops@.len(),
            plain@ == paths::plain_path(file@),
            forall|k: int| 0 <= k < i ==> !is_twin(#[trigger] ops@[k], file@, topic@),
        decreases ops@.len() - i,
    {
        if let Some(event) = ops[i].key.socket_event() {
            if text::same_text(event, topic) && text::same_text(
                &paths::normalize_protocol_file(&ops[i].file_path),
                &plain,
            ) {
                assert(is_twin(ops@[i as int], file@, topic@));
                return true;
            }
        }
        i += 1;
    }
    false
}

/// Whether the socket scan already has an operation on the topic in the file:
/// the same site seen twice.
pub fn has_socket_twin(sockets: &SocketExtraction, file: &str, topic: &str) -> (r: bool)
    ensures
        r == socket_twin(*sockets, file@, topic@),
{
    find_twin(&sockets.listeners, file, topic) || find_twin(&sockets.emitters, file, topic)
}

// ---------------------------------------------------------------------------
// Indexing
// ---------------------------------------------------------------------------

/// An operation and where it stands.
pub struct OpSite {
    pub key: operation::KeyModel,
    pub file_path: Seq<char>,
    pub line: u32,
}

/// Whether the details are those of an operation that is known by its site
/// alone.
pub open spec fn is_details_of(details: ApiEndpointDetails, site: OpSite) -> bool {
    &&& details.owner is None
    &&& details.key@ == site.key
    &&& details.params@.len() == 0
    &&& details.request_body is None
    &&& details.response_body is None
    &&& details.handler_name is None
    &&& details.request_type is None
    &&& details.response_type is None
    &&& details.file_path@ == site.file_path + ":"@ + text::decimal(site.line as nat)
    &&& details.repo_name is None
    &&& details.service_name is None
    &&& details.provenance is None
}

/// Whether the details are those of the sites, one for one.
pub open spec fn are_details_of(details: Seq<ApiEndpointDetails>, sites: Seq<OpSite>) -> bool {
    &&& details.len() == sites.len()
    &&& forall|i: int|
        0 <= i < sites.len() ==> is_details_of(#[trigger] details[i], #[trigger] sites[i])
}

/// Whether a list was extended by the details of the sites.
pub open spec fn extended_by(
    before: Seq<ApiEndpointDetails>,
    after: Seq<ApiEndpointDetails>,
    sites: Seq<OpSite>,
) -> bool {
    &&& before.is_prefix_of(after)
    &&& are_details_of(after.skip(before.len() as int), sites)
}

fn push_details(
    list: &mut Vec<ApiEndpointDetails>,
    key: &OperationKey,
    file_path: &str,
    line: u32,
    Ghost(start): Ghost<Seq<ApiEndpointDetails>>,
    Ghost(sites): Ghost<Seq<OpSite>>,
)
    requires
        extended_by(start, old(list)@, sites),
    ensures
        extended_by(
            start,
            final(list)@,
            sites.push(OpSite { key: key@, file_path: file_path@, line }),
        ),
{
    let ghost before = list@;
    let number = text::decimal_text(line as u64);
    let details = ApiEndpointDetails {
        owner: None,
        key: key.clone(),
        params: Vec::new(),
        request_body: None,
        response_body: None,
        handler_name: None,
        request_type: None,
        response_type: None,
        file_path: text::cat3(file_path, ":", &number),
        repo_name: None,
        service_name: None,
        provenance: None,
    };
    list.push(details);
    let ghost n: int = start.len() as int;
    assert(start =~= list@.subrange(0, n)) by {
        assert(start =~= before.subrange(0, n));
    }
    let ghost more = sites.push(OpSite { key: key@, file_path: file_path@, line });
    let ghost tail = list@.skip(n);
    assert(tail =~= before.skip(n).push(details));
    assert forall|i: int| 0 <= i < more.len() implies is_details_of(
        #[trigger] tail[i],
        #[trigger] more[i],
    ) by {
        if i < sites.len() {
            assert(tail[i] == before.skip(n)[i]);
            assert(more[i] == sites[i]);
        }
    }
}

/// The site of a GraphQL operation.
pub open spec fn graphql_site(op: GraphqlOp) -> OpSite {
    OpSite { key: op.key@, file_path: op.file_path@, line: op.line }
}

/// The site of a socket operation.
pub open spec fn socket_site(op: SocketOp) -> OpSite {
    OpSite { key: op.key@, file_path: op.file_path@, line: op.line }
}

fn push_graphql(
    list: &mut Vec<ApiEndpointDetails>,
    ops: &Vec<GraphqlOp>,
    Ghost(start): Ghost<Seq<ApiEndpointDetails>>,
    Ghost(sites): Ghost<Seq<OpSite>>,
)
    requires
        extended_by(start, old(list)@, sites),
    ensures
        extended_by(
            start,
            final(list)@,
            sites + ops@.map_values(|op: GraphqlOp| graphql_site(op)),
        ),
{
    let ghost all = ops@.map_values(|op: GraphqlOp| graphql_site(op));
    let mut i: usize = 0;
    assert(sites + all.take(0) =~= sites);
    while i < ops.len()
        invariant
            i <= ops@.len(),
            all == ops@.map_values(|op: GraphqlOp| graphql_site(op)),
            extended_by(start, list@, sites + all.take(i as int)),
        decreases ops@.len() - i,
    {
        push_details(
            list,
            &ops[i].key,
            &ops[i].file_path,
            ops[i].line,
            Ghost(start),
            Ghost(sites + all.take(i as int)),
        );
        assert((sites + all.take(i as int)).push(all[i as int]) =~= sites + all.take(i + 1));
        i += 1;
    }
    assert(all.take(i as int) =~= all);
}

fn push_sockets(
    list: &mut Vec<ApiEndpointDetails>,
    ops: &Vec<SocketOp>,
    Ghost(start): Ghost<Seq<ApiEndpointDetails>>,
    Ghost(sites): Ghost<Seq<OpSite>>,
)
    requires
        extended_by(start, old(list)@, sites),
    ensures
        extended_by(
            start,
            final(list)@,
            sites + ops@.map_values(|op: SocketOp| socket_site(op)),
        ),
{
    let ghost all = ops@.map_values(|op: SocketOp| socket_site(op));
    let mut i: usize = 0;
    assert(sites + all.take(0) =~= sites);
    while i < ops.len()
        invariant
            i <= ops@.len(),
            all == ops@.map_values(|op: SocketOp| socket_site(op)),
            extended_by(start, list@, sites + all.take(i as int)),
        decreases ops@.len() - i,
    {
        push_details(
            list,
            &ops[i].key,
            &ops[i].file_path,
            ops[i].line,
            Ghost(start),
            Ghost(sites + all.take(i as int)),
        );
        assert((sites + all.take(i as int)).push(all[i as int]) =~= sites + all.take(i + 1));
        i += 1;
    }
    assert(all.take(i as int) =~= all);
}

/// A file's result, borrowed.
pub struct FileRef<'a> {
    pub file: &'a FileResult,
}

impl<'a> DeepView for FileRef<'a> {
    type V = FileResult;

    open spec fn deep_view(&self) -> FileResult {
        *self.file
    }
}

impl Keyed for FileResult {
    open spec fn sort_key(&self) -> Seq<Seq<char>> {
        seq![self.path@]
    }
}

impl<'a> Keyed for FileRef<'a> {
    open spec fn sort_key(&self) -> Seq<Seq<char>> {
        seq![self.file.path@]
    }
}

impl<'a> SortKey for FileRef<'a> {
    fn key_at_most(&self, other: &Self) -> (r: bool) {
        sorting::one_text_at_most(self.file.path.as_str(), other.file.path.as_str())
    }
}

/// The results in the order of their paths.
pub fn by_path<'a>(file_results: &'a Vec<FileResult>) -> (r: Vec<FileRef<'a>>)
    ensures
        r.deep_view() == sorting::sorted_by_key(file_results@),
{
    let mut refs: Vec<FileRef<'a>> = Vec::new();
    let mut i: usize = 0;
    while i < file_results.len()
        invariant
            i <= file_results@.len(),
            sorting::models(refs@) == file_results@.take(i as int),
        decreases file_results@.len() - i,
    {
        let ghost before = refs@;
        refs.push(FileRef { file: &file_results[i] });
        i += 1;
        assert(sorting::models(refs@) =~= file_results@.take(i as int)) by {
            assert(sorting::models(refs@) =~= sorting::models(before).push(
                file_results@[i - 1],
            ));
        }
    }
    assert(file_results@.take(i as int) =~= file_results@);
    proof {
        sorting::lemma_sorted_models::<FileResult, FileRef>(refs@);
    }
    let r = sorting::sort_by_key(refs);
    assert(r.deep_view() =~= sorting::models(r@));
    r
}

/// The line of a reported operation: a negative line counts as none.
pub open spec fn reported_line(line: i32) -> u32 {
    if line < 0 {
        0
    } else {
        line as u32
    }
}

fn report_line(line: i32) -> (r: u32)
    ensures
        r == reported_line(line),
{
    if line < 0 {
        0
    } else {
        line as u32
    }
}

/// Whether an operation of a file is indexed on the side of the role.
pub open spec fn on_side(
    op: PubsubOperation,
    path: Seq<char>,
    sockets: SocketExtraction,
    role: PubsubRole,
) -> bool {
    op.role == Some(role) && !socket_twin(sockets, path, op.topic@)
}

/// The sites of one role in a file.
pub open spec fn file_pubsub_sites(
    ops: Seq<PubsubOperation>,
    path: Seq<char>,
    sockets: SocketExtraction,
    role: PubsubRole,
) -> Seq<OpSite>
    decreases ops.len(),
{
    if ops.len() == 0 {
        Seq::empty()
    } else {
        let before = file_pubsub_sites(ops.drop_last(), path, sockets, role);
        let op = ops.last();
        if on_side(op, path, sockets, role) {
            before.push(
                OpSite {
                    key: operation::KeyModel::Pubsub { topic: op.topic@ },
                    file_path: path,
                    line: reported_line(op.line_number),
                },
            )
        } else {
            before
        }
    }
}

/// The sites of one role over all files, in the given order.
pub open spec fn pubsub_sites(
    files: Seq<FileResult>,
    sockets: SocketExtraction,
    role: PubsubRole,
) -> Seq<OpSite>
    decreases files.len(),
{
    if files.len() == 0 {
        Seq::empty()
    } else {
        let f = files.last();
        pubsub_sites(files.drop_last(), sockets, role) + file_pubsub_sites(
            f.result.pubsub_operations@,
            f.path@,
            sockets,
            role,
        )
    }
}

fn push_pubsub(
    list: &mut Vec<ApiEndpointDetails>,
    file_results: &Vec<FileResult>,
    sockets: &SocketExtraction,
    role: PubsubRole,
    Ghost(start): Ghost<Seq<ApiEndpointDetails>>,
    Ghost(sites): Ghost<Seq<OpSite>>,
)
    requires
        extended_by(start, old(list)@, sites),
    ensures
        extended_by(
            start,
            final(list)@,
            sites + pubsub_sites(sorting::sorted_by_key(file_results@), *sockets, role),
        ),
{
    let files = by_path(file_results);
    let ghost f = files.deep_view();
    let mut i: usize = 0;
    assert(sites + pubsub_sites(f.take(0), *sockets, role) =~= sites);
    while i < files.len()
        invariant
            i <= files@.len(),
            f == files.deep_view(),
            extended_by(
                start,
                list@,
                sites + pubsub_sites(f.take(i as int), *sockets, role),
            ),
        decreases files@.len() - i,
    {
        let file = files[i].file;
        let path = &file.path;
        let ops = &file.result.pubsub_operations;
        let ghost before = sites + pubsub_sites(f.take(i as int), *sockets, role);
        assert(f.take(i + 1).drop_last() =~= f.take(i as int));
        assert(f[i as int] == files@[i as int].deep_view());
        let mut j: usize = 0;
        assert(before + file_pubsub_sites(ops@.take(0), path@, *sockets, role) =~= before);
        while j < ops.len()
            invariant
                j <= ops@.len(),
                extended_by(
                    start,
                    list@,
                    before + file_pubsub_sites(ops@.take(j as int), path@, *sockets, role),
                ),
            decreases ops@.len() - j,
        {
            let op = &ops[j];
            let ghost so_far = file_pubsub_sites(ops@.take(j as int), path@, *sockets, role);
            assert(ops@.take(j + 1).drop_last() =~= ops@.take(j as int));
            let matches_role = match op.role {
                Some(r) => r == role,
                None => false,
            };
            if matches_role && !has_socket_twin(sockets, path, &op.topic) {
                let key = OperationKey::pubsub(&op.topic);
                let line = report_line(op.line_number);
                push_details(list, &key, path, line, Ghost(start), Ghost(before + so_far));
                let ghost site = OpSite { key: key@, file_path: path@, line };
                assert((before + so_far).push(site) =~= before + so_far.push(site));
            }
            j += 1;
        }
        assert(ops@.take(j as int) =~= ops@);
        let ghost added = file_pubsub_sites(ops@, path@, *sockets, role);
        assert(before + added =~= sites + (pubsub_sites(f.take(i as int), *sockets, role)
            + added));
        i += 1;
    }
    assert(f.take(i as int) =~= f);
}

/// The sites that are indexed as endpoints: schema fields, listeners and
/// subscribers.
pub open spec fn endpoint_sites(
    extractions: ProtocolExtractions,
    file_results: Seq<FileResult>,
) -> Seq<OpSite> {
    extractions.graphql.producers@.map_values(|op: GraphqlOp| graphql_site(op))
        + extractions.sockets.listeners@.map_values(|op: SocketOp| socket_site(op)) + pubsub_sites(
        sorting::sorted_by_key(file_results),
        extractions.sockets,
        PubsubRole::Subscriber,
    )
}

/// The sites that are indexed as calls: documents, emitters and publishers.
pub open spec fn call_sites(
    extractions: ProtocolExtractions,
    file_results: Seq<FileResult>,
) -> Seq<OpSite> {
    extractions.graphql.consumers@.map_values(|op: GraphqlOp| graphql_site(op))
        + extractions.sockets.emitters@.map_values(|op: SocketOp| socket_site(op)) + pubsub_sites(
        sorting::sorted_by_key(file_results),
        extractions.sockets,
        PubsubRole::Publisher,
    )
}

/// Appends the operations of the other protocols to a service's index data.
/// A pub/sub operation that the socket scan has in the same file, or that has
/// no role, is left out.
pub fn append_deterministic_protocol_operations(
    endpoints: &mut Vec<ApiEndpointDetails>,
    calls: &mut Vec<ApiEndpointDetails>,
    extractions: &ProtocolExtractions,
    file_results: &Vec<FileResult>,
)
    ensures
        extended_by(
            old(endpoints)@,
            final(endpoints)@,
            endpoint_sites(*extractions, file_results@),
        ),
        extended_by(old(calls)@, final(calls)@, call_sites(*extractions, file_results@)),
{
    let ghost e = endpoints@;
    let ghost c = calls@;
    assert(e.subrange(0, e.len() as int) =~= e);
    assert(c.subrange(0, c.len() as int) =~= c);
    let ghost producers = extractions.graphql.producers@.map_values(
        |op: GraphqlOp| graphql_site(op),
    );
    let ghost listeners = extractions.sockets.listeners@.map_values(
        |op: SocketOp| socket_site(op),
    );
    let ghost consumers = extractions.graphql.consumers@.map_values(
        |op: GraphqlOp| graphql_site(op),
    );
    let ghost emitters = extractions.sockets.emitters@.map_values(|op: SocketOp| socket_site(op));
    push_graphql(endpoints, &extractions.graphql.producers, Ghost(e), Ghost(Seq::empty()));
    assert(Seq::<OpSite>::empty() + producers =~= producers);
    push_sockets(endpoints, &extractions.sockets.listeners, Ghost(e), Ghost(producers));
    push_pubsub(
        endpoints,
        file_results,
        &extractions.sockets,
        PubsubRole::Subscriber,
        Ghost(e),
        Ghost(producers + listeners),
    );
    push_graphql(calls, &extractions.graphql.consumers, Ghost(c), Ghost(Seq::empty()));
    assert(Seq::<OpSite>::empty() + consumers =~= consumers);
    push_sockets(calls, &extractions.sockets.emitters, Ghost(c), Ghost(consumers));
    push_pubsub(
        calls,
        file_results,
        &extractions.sockets,
        PubsubRole::Publisher,
        Ghost(c),
        Ghost(consumers + emitters),
    );
}

// ---------------------------------------------------------------------------
// Joining the file analysis onto the schema
// ---------------------------------------------------------------------------

/// The last operation with the key, by position; -1 where there is none.
pub open spec fn position_of_key(ops: Seq<GraphqlOp>, key: Seq<char>) -> int
    decreases ops.len(),
{
    if ops.len() == 0 {
        -1
    } else if operation::canonical_spec(ops.last().key@) == key {
        ops.len() - 1
    } else {
        position_of_key(ops.drop_last(), key)
    }
}

/// The last operation with the key in the file, by position; -1 where there is
/// none.
pub open spec fn position_in_file(ops: Seq<GraphqlOp>, file: Seq<char>, key: Seq<char>) -> int
    decreases ops.len(),
{
    if ops.len() == 0 {
        -1
    } else if ops.last().file_path@ == file && operation::canonical_spec(ops.last().key@) == key {
        ops.len() - 1
    } else {
        position_in_file(ops.drop_last(), file, key)
    }
}

fn find_key(ops: &Vec<GraphqlOp>, key: &str) -> (r: Option<usize>)
    ensures
        match r {
            Some(i) => i < ops@.len() && position_of_key(ops@, key@) == i,
            None => position_of_key(ops@, key@) == -1,
        },
{
    let mut i: usize = ops.len();
    assert(ops@.take(i as int) =~= ops@);
    while i > 0
        invariant
            i <= ops@.len(),
            position_of_key(ops@, key@) == position_of_key(ops@.take(i as int), key@),
        decreases i,
    {
        assert(ops@.take(i as int).drop_last() =~= ops@.take(i - 1));
        if text::same_text(&ops[i - 1].key.canonical(), key) {
            return Some(i - 1);
        }
        i -= 1;
    }
    None
}

fn find_key_in_file(ops: &Vec<GraphqlOp>, file: &str, key: &str) -> (r: Option<usize>)
    ensures
        match r {
            Some(i) => i < ops@.len() && position_in_file(ops@, file@, key@) == i,
            None => position_in_file(ops@, file@, key@) == -1,
        },
{
    let mut i: usize = ops.len();
    assert(ops@.take(i as int) =~= ops@);
    while i > 0
        invariant
            i <= ops@.len(),
            position_in_file(ops@, file@, key@) == position_in_file(
                ops@.take(i as int),
                file@,
                key@,
            ),
        decreases i,
    {
        assert(ops@.take(i as int).drop_last() =~= ops@.take(i - 1));
        if text::same_text(&ops[i - 1].file_path, file) && text::same_text(
            &ops[i - 1].key.canonical(),
            key,
        ) {
            return Some(i - 1);
        }
        i -= 1;
    }
    None
}

/// The line of a located resolver: it needs a name that is not blank and a
/// line that is positive.
pub open spec fn resolver_line_of(op: GraphqlOperation) -> Option<u32> {
    match (op.resolver_function, op.resolver_line) {
        (Some(f), Some(line)) => if text::trim_spec(f@).len() > 0 && line > 0 {
            Some(line as u32)
        } else {
            None
        },
        _ => None,
    }
}

fn usable_resolver_line(op: &GraphqlOperation) -> (r: Option<u32>)
    ensures
        r == resolver_line_of(*op),
{
    match (&op.resolver_function, op.resolver_line) {
        (Some(f), Some(line)) => if !text::trim(f).as_str().is_empty() && line > 0 {
            Some(line as u32)
        } else {
            None
        },
        _ => None,
    }
}

/// A schema field with what was located for it: the resolver's place, or the
/// backing type where no resolver can be located.
pub open spec fn with_resolver(producer: GraphqlOp, path: String, op: GraphqlOperation) -> GraphqlOp {
    let placed = GraphqlOp { resolver_file: Some(path), ..producer };
    match resolver_line_of(op) {
        Some(line) => GraphqlOp { resolver_line: Some(line), ..placed },
        None => match op.backing_type_symbol {
            Some(symbol) => GraphqlOp {
                response_type_symbol: Some(symbol),
                response_type_source: op.backing_type_source,
                ..placed
            },
            None => placed,
        },
    }
}

/// The schema fields after one located operation.
pub open spec fn with_located(
    producers: Seq<GraphqlOp>,
    path: String,
    op: GraphqlOperation,
) -> Seq<GraphqlOp> {
    let key = operation::canonical_spec(
        operation::KeyModel::Graphql { kind: op.kind, field: op.field@ },
    );
    let i = position_of_key(producers, key);
    if i >= 0 {
        producers.update(i, with_resolver(producers[i], path, op))
    } else {
        producers
    }
}

/// The schema fields after the located operations of one file.
pub open spec fn with_file_located(
    producers: Seq<GraphqlOp>,
    path: String,
    ops: Seq<GraphqlOperation>,
) -> Seq<GraphqlOp>
    decreases ops.len(),
{
    if ops.len() == 0 {
        producers
    } else {
        with_located(with_file_located(producers, path, ops.drop_last()), path, ops.last())
    }
}

/// The schema fields after the located operations of all files.
pub open spec fn with_all_located(producers: Seq<GraphqlOp>, files: Seq<FileResult>) -> Seq<
    GraphqlOp,
>
    decreases files.len(),
{
    if files.len() == 0 {
        producers
    } else {
        with_file_located(
            with_all_located(producers, files.drop_last()),
            files.last().path,
            files.last().result.graphql_operations@,
        )
    }
}

/// Joins the resolvers that were located in the files onto the schema fields
/// with the same operation. An operation that the schema does not have is
/// ignored. Documents are left as they are.
pub fn merge_graphql_resolver_locations(
    graphql: &mut GraphqlExtraction,
    file_results: &Vec<FileResult>,
)
    ensures
        final(graphql).producers@ == with_all_located(old(graphql).producers@, file_results@),
        final(graphql).consumers == old(graphql).consumers,
{
    let ghost start = graphql.producers@;
    let ghost consumers = graphql.consumers;
    let mut i: usize = 0;
    while i < file_results.len()
        invariant
            i <= file_results@.len(),
            graphql.consumers == consumers,
            graphql.producers@ == with_all_located(start, file_results@.take(i as int)),
        decreases file_results@.len() - i,
    {
        let file = &file_results[i];
        let ops = &file.result.graphql_operations;
        let ghost before = graphql.producers@;
        assert(file_results@.take(i + 1).drop_last() =~= file_results@.take(i as int));
        let mut j: usize = 0;
        while j < ops.len()
            invariant
                j <= ops@.len(),
                graphql.consumers == consumers,
                *ops == file.result.graphql_operations,
                graphql.producers@ == with_file_located(before, file.path, ops@.take(j as int)),
            decreases ops@.len() - j,
        {
            assert(ops@.take(j + 1).drop_last() =~= ops@.take(j as int));
            let op = &ops[j];
            let ghost so_far = graphql.producers@;
            let key = OperationKey::graphql(op.kind, &op.field).canonical();
            if let Some(idx) = find_key(&graphql.producers, &key) {
                let line = usable_resolver_line(op);
                let producer = &mut graphql.producers[idx];
                producer.resolver_file = Some(file.path.clone());
                if line.is_some() {
                    producer.resolver_line = line;
                } else {
                    if let Some(symbol) = &op.backing_type_symbol {
                        producer.response_type_symbol = Some(symbol.clone());
                        producer.response_type_source = text::copy_opt(&op.backing_type_source);
                    }
                }
                assert(graphql.producers@ =~= with_located(so_far, file.path, *op));
            }
            j += 1;
        }
        assert(ops@.take(j as int) =~= ops@);
        i += 1;
    }
    assert(file_results@.take(i as int) =~= file_results@);
}

/// A document with the type that was located for it, unless it has one from
/// its call site.
pub open spec fn with_located_type(consumer: GraphqlOp, locate: GraphqlConsumerLocate) -> GraphqlOp {
    if consumer.payload_type_symbol is Some {
        consumer
    } else {
        GraphqlOp {
            consumer_located_type_symbol: Some(locate.result_type_symbol),
            consumer_located_type_source: locate.result_type_source,
            ..consumer
        }
    }
}

/// The documents after one located type of a file.
pub open spec fn with_locate(
    consumers: Seq<GraphqlOp>,
    path: Seq<char>,
    locate: GraphqlConsumerLocate,
) -> Seq<GraphqlOp> {
    let key = operation::canonical_spec(
        operation::KeyModel::Graphql { kind: locate.kind, field: locate.field@ },
    );
    let i = position_in_file(consumers, path, key);
    if i >= 0 {
        consumers.update(i, with_located_type(consumers[i], locate))
    } else {
        consumers
    }
}

/// The documents after the located types of one file.
pub open spec fn with_file_locates(
    consumers: Seq<GraphqlOp>,
    path: Seq<char>,
    locates: Seq<GraphqlConsumerLocate>,
) -> Seq<GraphqlOp>
    decreases locates.len(),
{
    if locates.len() == 0 {
        consumers
    } else {
        with_locate(with_file_locates(consumers, path, locates.drop_last()), path, locates.last())
    }
}

/// The documents after the located types of all files.
pub open spec fn with_all_locates(consumers: Seq<GraphqlOp>, files: Seq<FileResult>) -> Seq<
    GraphqlOp,
>
    decreases files.len(),
{
    if files.len() == 0 {
        consumers
    } else {
        with_file_locates(
            with_all_locates(consumers, files.drop_last()),
            files.last().path@,
            files.last().result.graphql_consumer_locates@,
        )
    }
}

/// Joins the result types that were located in the files onto the documents of
/// the same file and operation. A document that has a type from its call site
/// keeps it. Schema fields are left as they are.
pub fn merge_graphql_consumer_locations(
    graphql: &mut GraphqlExtraction,
    file_results: &Vec<FileResult>,
)
    ensures
        final(graphql).consumers@ == with_all_locates(old(graphql).consumers@, file_results@),
        final(graphql).producers == old(graphql).producers,
{
    let ghost start = graphql.consumers@;
    let ghost producers = graphql.producers;
    let mut i: usize = 0;
    while i < file_results.len()
        invariant
            i <= file_results@.len(),
            graphql.producers == producers,
            graphql.consumers@ == with_all_locates(start, file_results@.take(i as int)),
        decreases file_results@.len() - i,
    {
        let file = &file_results[i];
        let locates = &file.result.graphql_consumer_locates;
        let ghost before = graphql.consumers@;
        assert(file_results@.take(i + 1).drop_last() =~= file_results@.take(i as int));
        let mut j: usize = 0;
        while j < locates.len()
            invariant
                j <= locates@.len(),
                graphql.producers == producers,
                *locates == file.result.graphql_consumer_locates,
                graphql.consumers@ == with_file_locates(
                    before,
                    file.path@,
                    locates@.take(j as int),
                ),
            decreases locates@.len() - j,
        {
            assert(locates@.take(j + 1).drop_last() =~= locates@.take(j as int));
            let locate = &locates[j];
            let ghost so_far = graphql.consumers@;
            let key = OperationKey::graphql(locate.kind, &locate.field).canonical();
            if let Some(idx) = find_key_in_file(&graphql.consumers, &file.path, &key) {
                let consumer = &mut graphql.consumers[idx];
                if consumer.payload_type_symbol.is_none() {
                    consumer.consumer_located_type_symbol = Some(
                        locate.result_type_symbol.clone(),
                    );
                    consumer.consumer_located_type_source = text::copy_opt(
                        &locate.result_type_source,
                    );
                }
                assert(graphql.consumers@ =~= with_locate(so_far, file.path@, *locate));
            }
            j += 1;
        }
        assert(locates@.take(j as int) =~= locates@);
        i += 1;
    }
    assert(file_results@.take(i as int) =~= file_results@);
}

proof fn lemma_file_locates_keep(
    consumers: Seq<GraphqlOp>,
    path: Seq<char>,
    locates: Seq<GraphqlConsumerLocate>,
    k: int,
)
    requires
        0 <= k < consumers.len(),
        consumers[k].payload_type_symbol is Some || consumers[k].file_path@ != path,
    ensures
        with_file_locates(consumers, path, locates).len() == consumers.len(),
        with_file_locates(consumers, path, locates)[k] == consumers[k],
    decreases locates.len(),
{
    if locates.len() > 0 {
        lemma_file_locates_keep(consumers, path, locates.drop_last(), k);
        let before = with_file_locates(consumers, path, locates.drop_last());
        let l = locates.last();
        let key = operation::canonical_spec(
            operation::KeyModel::Graphql { kind: l.kind, field: l.field@ },
        );
        lemma_position_in_file(before, path, key);
    }
}

proof fn lemma_position_in_file(ops: Seq<GraphqlOp>, file: Seq<char>, key: Seq<char>)
    ensures
        -1 <= position_in_file(ops, file, key) < ops.len(),
        position_in_file(ops, file, key) >= 0 ==> ops[position_in_file(ops, file, key)].file_path@
            == file,
    decreases ops.len(),
{
    if ops.len() > 0 {
        lemma_position_in_file(ops.drop_last(), file, key);
    }
}

/// A document that carries a type from its call site is never changed by what
/// was located in the files, and no document is changed by another file.
pub proof fn law_anchored_document_unchanged(
    consumers: Seq<GraphqlOp>,
    files: Seq<FileResult>,
    k: int,
)
    requires
        0 <= k < consumers.len(),
        consumers[k].payload_type_symbol is Some || forall|i: int|
            0 <= i < files.len() ==> (#[trigger] files[i]).path@ != consumers[k].file_path@,
    ensures
        with_all_locates(consumers, files).len() == consumers.len(),
        with_all_locates(consumers, files)[k] == consumers[k],
    decreases files.len(),
{
    if files.len() > 0 {
        let front = files.drop_last();
        assert(consumers[k].payload_type_symbol is None ==> forall|i: int|
            0 <= i < front.len() ==> (#[trigger] front[i]).path@ != consumers[k].file_path@) by {
            assert forall|i: int|
                0 <= i < front.len() && consumers[k].payload_type_symbol is None implies (
            #[trigger] front[i]).path@ != consumers[k].file_path@ by {
                assert(front[i] == files[i]);
            }
        }
        law_anchored_document_unchanged(consumers, front, k);
        assert(files[files.len() - 1] == files.last());
        lemma_file_locates_keep(
            with_all_locates(consumers, front),
            files.last().path@,
            files.last().result.graphql_consumer_locates@,
            k,
        );
    }
}

// ---------------------------------------------------------------------------
// Manifest entries
// ---------------------------------------------------------------------------

/// The entry of a schema field.
pub open spec fn producer_field_entry(op: GraphqlOp) -> cloud_storage::EntryModel {
    type_manifest::fresh_entry(
        op.key@,
        ManifestRole::Producer,
        cloud_storage::ManifestTypeKind::Response,
        op.file_path@,
        op.line,
        op.primary_type_symbol.deep_view(),
        None,
    )
}

/// The type of a document: from its call site, else the located one.
pub open spec fn document_symbol(op: GraphqlOp) -> Option<Seq<char>> {
    match op.payload_type_symbol {
        Some(s) => Some(s@),
        None => op.consumer_located_type_symbol.deep_view(),
    }
}

/// The entry of a document.
pub open spec fn document_entry(op: GraphqlOp) -> cloud_storage::EntryModel {
    type_manifest::fresh_entry(
        op.key@,
        ManifestRole::Consumer,
        cloud_storage::ManifestTypeKind::Response,
        op.file_path@,
        op.line,
        document_symbol(op),
        None,
    )
}

/// The entry of a socket operation.
pub open spec fn socket_entry(op: SocketOp, role: ManifestRole) -> cloud_storage::EntryModel {
    type_manifest::fresh_entry(
        op.key@,
        role,
        cloud_storage::ManifestTypeKind::Response,
        op.file_path@,
        op.line,
        op.payload_type_symbol.deep_view(),
        None,
    )
}

/// The entries of the extracted operations.
pub open spec fn protocol_entries(extractions: ProtocolExtractions) -> Seq<
    cloud_storage::EntryModel,
> {
    extractions.graphql.producers@.map_values(|op: GraphqlOp| producer_field_entry(op))
        + extractions.graphql.consumers@.map_values(|op: GraphqlOp| document_entry(op))
        + extractions.sockets.listeners@.map_values(
        |op: SocketOp| socket_entry(op, ManifestRole::Producer),
    ) + extractions.sockets.emitters@.map_values(
        |op: SocketOp| socket_entry(op, ManifestRole::Consumer),
    )
}

fn add_graphql_entries(entries: &mut Vec<TypeManifestEntry>, ops: &Vec<GraphqlOp>, produced: bool)
    ensures
        final(entries).deep_view() == old(entries).deep_view() + ops@.map_values(
            |op: GraphqlOp|
                if produced {
                    producer_field_entry(op)
                } else {
                    document_entry(op)
                },
        ),
{
    let ghost before = entries.deep_view();
    let ghost all = ops@.map_values(
        |op: GraphqlOp|
            if produced {
                producer_field_entry(op)
            } else {
                document_entry(op)
            },
    );
    let mut i: usize = 0;
    assert(before + all.take(0) =~= before);
    while i < ops.len()
        invariant
            i <= ops@.len(),
            all == ops@.map_values(
                |op: GraphqlOp|
                    if produced {
                        producer_field_entry(op)
                    } else {
                        document_entry(op)
                    },
            ),
            entries.deep_view() == before + all.take(i as int),
        decreases ops@.len() - i,
    {
        let op = &ops[i];
        let (role, symbol) = if produced {
            (ManifestRole::Producer, text::copy_opt(&op.primary_type_symbol))
        } else {
            (
                ManifestRole::Consumer,
                match &op.payload_type_symbol {
                    Some(s) => Some(s.clone()),
                    None => text::copy_opt(&op.consumer_located_type_symbol),
                },
            )
        };
        type_manifest::add_protocol_manifest_entry(
            entries,
            &op.key,
            role,
            &op.file_path,
            op.line,
            symbol,
            &None,
        );
        i += 1;
        assert(entries.deep_view() =~= before + all.take(i as int));
    }
    assert(all.take(i as int) =~= all);
}

fn add_socket_entries(
    entries: &mut Vec<TypeManifestEntry>,
    ops: &Vec<SocketOp>,
    role: ManifestRole,
)
    ensures
        final(entries).deep_view() == old(entries).deep_view() + ops@.map_values(
            |op: SocketOp| socket_entry(op, role),
        ),
{
    let ghost before = entries.deep_view();
    let ghost all = ops@.map_values(|op: SocketOp| socket_entry(op, role));
    let mut i: usize = 0;
    assert(before + all.take(0) =~= before);
    while i < ops.len()
        invariant
            i <= ops@.len(),
            all == ops@.map_values(|op: SocketOp| socket_entry(op, role)),
            entries.deep_view() == before + all.take(i as int),
        decreases ops@.len() - i,
    {
        let op = &ops[i];
        type_manifest::add_protocol_manifest_entry(
            entries,
            &op.key,
            role,
            &op.file_path,
            op.line,
            text::copy_opt(&op.payload_type_symbol),
            &None,
        );
        i += 1;
        assert(entries.deep_view() =~= before + all.take(i as int));
    }
    assert(all.take(i as int) =~= all);
}

/// Adds one response entry for each extracted operation.
pub fn append_protocol_manifest_entries(
    entries: &mut Vec<TypeManifestEntry>,
    extractions: &ProtocolExtractions,
)
    ensures
        final(entries).deep_view() == old(entries).deep_view() + protocol_entries(*extractions),
{
    let ghost before = entries.deep_view();
    add_graphql_entries(entries, &extractions.graphql.producers, true);
    let ghost a = extractions.graphql.producers@.map_values(
        |op: GraphqlOp| producer_field_entry(op),
    );
    assert(entries.deep_view() =~= before + a);
    add_graphql_entries(entries, &extractions.graphql.consumers, false);
    let ghost b = extractions.graphql.consumers@.map_values(|op: GraphqlOp| document_entry(op));
    assert(entries.deep_view() =~= before + a + b);
    add_socket_entries(entries, &extractions.sockets.listeners, ManifestRole::Producer);
    add_socket_entries(entries, &extractions.sockets.emitters, ManifestRole::Consumer);
    assert(entries.deep_view() =~= before + protocol_entries(*extractions));
}

/// The manifest line of a pub/sub operation: at least the first.
pub open spec fn pubsub_line(line: i32) -> u32 {
    if line < 1 {
        1
    } else {
        line as u32
    }
}

/// The role of a pub/sub operation in the manifest: a subscriber handles, so it
/// produces the contract; a publisher consumes it.
pub open spec fn manifest_role(role: PubsubRole) -> ManifestRole {
    match role {
        PubsubRole::Subscriber => ManifestRole::Producer,
        PubsubRole::Publisher => ManifestRole::Consumer,
    }
}

/// The call site by which a publisher's alias is told from other publishers';
/// none for a subscriber.
pub open spec fn pubsub_call_id(
    op: PubsubOperation,
    role: PubsubRole,
    path: Seq<char>,
    repo_root: Seq<char>,
) -> Option<Seq<char>> {
    match role {
        PubsubRole::Subscriber => None,
        PubsubRole::Publisher => Some(
            type_manifest::call_site_spec(
                path,
                pubsub_line(op.line_number),
                operation::KeyModel::Pubsub { topic: op.topic@ },
                repo_root,
            ),
        ),
    }
}

/// The entry of a pub/sub operation; none where it has no role or the socket
/// scan has it.
pub open spec fn pubsub_entry(
    op: PubsubOperation,
    path: Seq<char>,
    sockets: SocketExtraction,
    repo_root: Seq<char>,
) -> Option<cloud_storage::EntryModel> {
    if socket_twin(sockets, path, op.topic@) {
        None
    } else {
        match op.role {
            Some(role) => Some(
                type_manifest::fresh_entry(
                    operation::KeyModel::Pubsub { topic: op.topic@ },
                    manifest_role(role),
                    cloud_storage::ManifestTypeKind::Response,
                    path,
                    pubsub_line(op.line_number),
                    op.primary_type_symbol.deep_view(),
                    pubsub_call_id(op, role, path, repo_root),
                ),
            ),
            None => None,
        }
    }
}

/// The entries of the pub/sub operations of a file.
pub open spec fn file_pubsub_entries(
    ops: Seq<PubsubOperation>,
    path: Seq<char>,
    sockets: SocketExtraction,
    repo_root: Seq<char>,
) -> Seq<cloud_storage::EntryModel>
    decreases ops.len(),
{
    if ops.len() == 0 {
        Seq::empty()
    } else {
        let before = file_pubsub_entries(ops.drop_last(), path, sockets, repo_root);
        match pubsub_entry(ops.last(), path, sockets, repo_root) {
            Some(e) => before.push(e),
            None => before,
        }
    }
}

/// The entries of the pub/sub operations of all files.
pub open spec fn pubsub_entries(
    files: Seq<FileResult>,
    sockets: SocketExtraction,
    repo_root: Seq<char>,
) -> Seq<cloud_storage::EntryModel>
    decreases files.len(),
{
    if files.len() == 0 {
        Seq::empty()
    } else {
        let f = files.last();
        pubsub_entries(files.drop_last(), sockets, repo_root) + file_pubsub_entries(
            f.result.pubsub_operations@,
            f.path@,
            sockets,
            repo_root,
        )
    }
}

fn clamp_line(line: i32) -> (r: u32)
    ensures
        r == pubsub_line(line),
{
    if line < 1 {
        1
    } else {
        line as u32
    }
}

/// Adds one response entry for each pub/sub operation, in the order of the
/// files' paths.
pub fn append_pubsub_manifest_entries(
    entries: &mut Vec<TypeManifestEntry>,
    file_results: &Vec<FileResult>,
    sockets: &SocketExtraction,
    repo_root: &str,
)
    ensures
        final(entries).deep_view() == old(entries).deep_view() + pubsub_entries(
            sorting::sorted_by_key(file_results@),
            *sockets,
            repo_root@,
        ),
{
    let files = by_path(file_results);
    let ghost f = files.deep_view();
    let ghost start = entries.deep_view();
    let mut i: usize = 0;
    assert(start + pubsub_entries(f.take(0), *sockets, repo_root@) =~= start);
    while i < files.len()
        invariant
            i <= files@.len(),
            f == files.deep_view(),
            entries.deep_view() == start + pubsub_entries(
                f.take(i as int),
                *sockets,
                repo_root@,
            ),
        decreases files@.len() - i,
    {
        let file = files[i].file;
        let path = &file.path;
        let ops = &file.result.pubsub_operations;
        let ghost before = entries.deep_view();
        assert(f.take(i + 1).drop_last() =~= f.take(i as int));
        assert(f[i as int] == files@[i as int].deep_view());
        let mut j: usize = 0;
        assert(before + file_pubsub_entries(ops@.take(0), path@, *sockets, repo_root@) =~= before);
        while j < ops.len()
            invariant
                j <= ops@.len(),
                entries.deep_view() == before + file_pubsub_entries(
                    ops@.take(j as int),
                    path@,
                    *sockets,
                    repo_root@,
                ),
            decreases ops@.len() - j,
        {
            let op = &ops[j];
            let ghost so_far = file_pubsub_entries(
                ops@.take(j as int),
                path@,
                *sockets,
                repo_root@,
            );
            assert(ops@.take(j + 1).drop_last() =~= ops@.take(j as int));
            if !has_socket_twin(sockets, path, &op.topic) {
                if let Some(role) = op.role {
                    let key = OperationKey::pubsub(&op.topic);
                    let line = clamp_line(op.line_number);
                    let (side, call_id) = match role {
                        PubsubRole::Subscriber => (ManifestRole::Producer, None),
                        PubsubRole::Publisher => (
                            ManifestRole::Consumer,
                            Some(type_manifest::build_call_site_id(path, line, &key, repo_root)),
                        ),
                    };
                    type_manifest::add_protocol_manifest_entry(
                        entries,
                        &key,
                        side,
                        path,
                        line,
                        text::copy_opt(&op.primary_type_symbol),
                        &call_id,
                    );
                    let ghost e = pubsub_entry(*op, path@, *sockets, repo_root@)->0;
                    assert((before + so_far).push(e) =~= before + so_far.push(e));
                }
            }
            j += 1;
        }
        assert(ops@.take(j as int) =~= ops@);
        let ghost added = file_pubsub_entries(ops@, path@, *sockets, repo_root@);
        assert(before + added =~= start + (pubsub_entries(f.take(i as int), *sockets, repo_root@)
            + added));
        i += 1;
    }
    assert(f.take(i as int) =~= f);
}

/// An operation that the socket scan has in the same file is neither indexed
/// nor given a manifest entry.
pub proof fn law_twin_is_folded(
    op: PubsubOperation,
    path: Seq<char>,
    sockets: SocketExtraction,
    repo_root: Seq<char>,
)
    requires
        socket_twin(sockets, path, op.topic@),
    ensures
        !on_side(op, path, sockets, PubsubRole::Subscriber),
        !on_side(op, path, sockets, PubsubRole::Publisher),
        pubsub_entry(op, path, sockets, repo_root) is None,
{
}

/// A pub/sub operation is indexed on one side exactly where it has a manifest
/// entry: no anchor without an operation, no operation without an anchor.
pub proof fn law_indexed_iff_anchored(
    op: PubsubOperation,
    path: Seq<char>,
    sockets: SocketExtraction,
    repo_root: Seq<char>,
)
    ensures
        (on_side(op, path, sockets, PubsubRole::Subscriber) || on_side(
            op,
            path,
            sockets,
            PubsubRole::Publisher,
        )) == (pubsub_entry(op, path, sockets, repo_root) is Some),
{
}

} // verus!
