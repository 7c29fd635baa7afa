//! What holds of the operations of the other protocols: GraphQL, sockets and
//! pub/sub.

use vstd::prelude::*;

use crate::cloud_storage::{EntryModel, ManifestRole, ManifestTypeKind, ManifestTypeState};
use crate::file_analysis::{
    FileResult, GraphqlConsumerLocate, GraphqlOperation, PubsubOperation,
};
use crate::mount_graph::DataFetchingCall;
use crate::operation::{KeyModel, PubsubRole};
use crate::protocol::{GraphqlOp, OpSite, ProtocolExtractions, SocketExtraction, SocketOp};
use crate::{env_laws, operation, paths, protocol, sorting, text};

verus! {

// ---------------------------------------------------------------------------
// Transport calls
// ---------------------------------------------------------------------------

proof fn lemma_unquoted_end(rest: Seq<char>, quotes: Seq<char>)
    requires
        env_laws::is_quotes(quotes),
        rest.len() > 0,
        rest[rest.len() - 1] != '`' && rest[rest.len() - 1] != '"' && rest[rest.len() - 1] != '\'',
    ensures
        protocol::unquoted_end(rest + quotes) == rest,
    decreases quotes.len(),
{
    if quotes.len() == 0 {
        assert(rest + quotes =~= rest);
    } else {
        assert((rest + quotes).last() == quotes[quotes.len() - 1]);
        assert((rest + quotes).drop_last() =~= rest + quotes.drop_last());
        assert forall|i: int| 0 <= i < quotes.drop_last().len() implies (
        #[trigger] quotes.drop_last()[i]) == '`' || quotes.drop_last()[i] == '"'
            || quotes.drop_last()[i] == '\'' by {
            assert(quotes[i] == quotes.drop_last()[i]);
        }
        lemma_unquoted_end(rest, quotes.drop_last());
    }
}

/// Whether a text has no quote at either end.
pub open spec fn is_bare(s: Seq<char>) -> bool {
    &&& s.len() > 0
    &&& s[0] != '`' && s[0] != '"' && s[0] != '\''
    &&& s[s.len() - 1] != '`' && s[s.len() - 1] != '"' && s[s.len() - 1] != '\''
}

/// Whether a text is the address of a client: it begins as a URL, or a variable
/// is put into it.
pub open spec fn is_address(s: Seq<char>) -> bool {
    ||| exists|rest: Seq<char>| s == #[trigger] ("http://"@ + rest)
    ||| exists|rest: Seq<char>| s == #[trigger] ("https://"@ + rest)
    ||| exists|a: Seq<char>, b: Seq<char>| s == #[trigger] (a + "${"@ + b)
    ||| exists|a: Seq<char>, b: Seq<char>| s == #[trigger] (a + "process.env."@ + b)
}

proof fn lemma_has_text(s: Seq<char>, p: Seq<char>)
    ensures
        text::has_text(s, p) <==> exists|a: Seq<char>, b: Seq<char>| s == #[trigger] (a + p + b),
{
    if text::has_text(s, p) {
        let i = choose|i: int| #[trigger] text::stands_at(s, p, i);
        let a = s.take(i);
        let b = s.skip(i + p.len());
        assert(s =~= a + p + b);
    }
    if exists|a: Seq<char>, b: Seq<char>| s == #[trigger] (a + p + b) {
        let (a, b) = choose|a: Seq<char>, b: Seq<char>| s == #[trigger] (a + p + b);
        assert(s.subrange(a.len() as int, (a.len() + p.len()) as int) =~= p);
        assert(text::stands_at(s, p, a.len() as int));
    }
}

proof fn lemma_begins(s: Seq<char>, p: Seq<char>)
    ensures
        p.is_prefix_of(s) <==> exists|rest: Seq<char>| s == #[trigger] (p + rest),
{
    if p.is_prefix_of(s) {
        assert(p =~= s.subrange(0, p.len() as int));
        assert(s =~= p + s.skip(p.len() as int));
    }
    if exists|rest: Seq<char>| s == #[trigger] (p + rest) {
        let rest = choose|rest: Seq<char>| s == #[trigger] (p + rest);
        assert(p =~= s.subrange(0, p.len() as int));
    }
}

/// A call is folded into the documents of its file exactly where its target,
/// without its quotes, is the address of a client, and one of the documents
/// stands in the same file.
pub proof fn law_transport_calls(
    call: DataFetchingCall,
    consumers: Seq<GraphqlOp>,
    before: Seq<char>,
    target: Seq<char>,
    after: Seq<char>,
    file: Seq<char>,
    line: Seq<char>,
)
    requires
        env_laws::is_quotes(before),
        is_bare(target),
        env_laws::is_quotes(after),
        call.target_url@ == before + target + after,
        call.file_location@ == file + ":"@ + line,
        !line.contains(':'),
    ensures
        protocol::is_transport_call(call, consumers) <==> is_address(target) && exists|i: int|
            0 <= i < consumers.len() && paths::plain_path((#[trigger] consumers[i]).file_path@)
                == paths::plain_path(file),
{
    reveal_strlit(":");
    assert(before + target + after =~= before + (target + after));
    env_laws::lemma_unquoted_start(before, target + after);
    lemma_unquoted_end(target, after);
    lemma_has_text(target, "${"@);
    lemma_has_text(target, "process.env."@);
    lemma_begins(target, "http://"@);
    lemma_begins(target, "https://"@);
    let location = file + ":"@ + line;
    text::lemma_last_index(location, ':');
    let at = text::last_index(location, ':');
    assert(location[file.len() as int] == ':');
    if at > file.len() {
        assert(line[at - file.len() - 1] == location[at]);
        assert(line.contains(line[at - file.len() - 1]));
    }
    assert(location.take(at) =~= file);
}

// ---------------------------------------------------------------------------
// Which side an operation is on
// ---------------------------------------------------------------------------

/// Whether a socket operation of the file is about the event.
pub open spec fn has_event(ops: Seq<SocketOp>, file: Seq<char>, event: Seq<char>) -> bool {
    exists|i: int|
        0 <= i < ops.len() && paths::plain_path((#[trigger] ops[i]).file_path@)
            == paths::plain_path(file) && (ops[i].key@ matches KeyModel::Socket { event: e, .. } && e
            == event)
}

/// Whether a file reports a pub/sub operation of the role that the sockets of the
/// file do not already account for.
pub open spec fn reports(
    file: FileResult,
    sockets: SocketExtraction,
    role: PubsubRole,
    op: PubsubOperation,
) -> bool {
    &&& file.result.pubsub_operations@.contains(op)
    &&& op.role == Some(role)
    &&& !has_event(sockets.listeners@, file.path@, op.topic@)
    &&& !has_event(sockets.emitters@, file.path@, op.topic@)
}

proof fn lemma_twin(sockets: SocketExtraction, file: Seq<char>, topic: Seq<char>)
    ensures
        protocol::socket_twin(sockets, file, topic) <==> has_event(sockets.listeners@, file, topic)
            || has_event(sockets.emitters@, file, topic),
{
    lemma_any_twin(sockets.listeners@, file, topic);
    lemma_any_twin(sockets.emitters@, file, topic);
}

proof fn lemma_any_twin(ops: Seq<SocketOp>, file: Seq<char>, topic: Seq<char>)
    ensures
        protocol::any_twin(ops, file, topic) <==> has_event(ops, file, topic),
{
    if protocol::any_twin(ops, file, topic) {
        let i = choose|i: int| 0 <= i < ops.len() && protocol::is_twin(#[trigger] ops[i], file, topic);
        assert(paths::plain_path(ops[i].file_path@) == paths::plain_path(file));
    }
    if has_event(ops, file, topic) {
        let i = choose|i: int|
            0 <= i < ops.len() && paths::plain_path((#[trigger] ops[i]).file_path@)
                == paths::plain_path(file) && (ops[i].key@ matches KeyModel::Socket { event: e, .. }
                && e == topic);
        assert(protocol::is_twin(ops[i], file, topic));
    }
}

/// Whether a site is that of a reported operation: its topic, its file, and its
/// line unless that is negative.
pub open spec fn is_site_of(site: OpSite, file: FileResult, op: PubsubOperation) -> bool {
    &&& site.key == (KeyModel::Pubsub { topic: op.topic@ })
    &&& site.file_path == file.path@
    &&& site.line == if op.line_number >= 0 {
        op.line_number as int
    } else {
        0
    }
}

/// Whether a site is that of an operation that a file reports.
pub open spec fn is_reported(
    files: Seq<FileResult>,
    sockets: SocketExtraction,
    role: PubsubRole,
    site: OpSite,
) -> bool {
    exists|i: int, op: PubsubOperation|
        0 <= i < files.len() && #[trigger] reports(files[i], sockets, role, op) && is_site_of(
            site,
            files[i],
            op,
        )
}

proof fn lemma_file_sites(
    file: FileResult,
    ops: Seq<PubsubOperation>,
    sockets: SocketExtraction,
    role: PubsubRole,
    site: OpSite,
)
    ensures
        protocol::file_pubsub_sites(ops, file.path@, sockets, role).contains(site)
            <==> exists|op: PubsubOperation| #[trigger]
            ops.contains(op) && protocol::on_side(op, file.path@, sockets, role) && is_site_of(
                site,
                file,
                op,
            ),
    decreases ops.len(),
{
    let r = protocol::file_pubsub_sites(ops, file.path@, sockets, role);
    if ops.len() > 0 {
        let front = ops.drop_last();
        let last = ops.last();
        let before = protocol::file_pubsub_sites(front, file.path@, sockets, role);
        lemma_file_sites(file, front, sockets, role, site);
        assert(ops[ops.len() - 1] == last);
        if before.contains(site) {
            let op = choose|op: PubsubOperation| #[trigger]
                front.contains(op) && protocol::on_side(op, file.path@, sockets, role)
                    && is_site_of(site, file, op);
            let k = choose|k: int| 0 <= k < front.len() && front[k] == op;
            assert(ops[k] == op);
            assert(ops.contains(op));
            let j = choose|j: int| 0 <= j < before.len() && before[j] == site;
            assert(r[j] == site);
        }
        if r.contains(site) {
            let j = choose|j: int| 0 <= j < r.len() && r[j] == site;
            if j < before.len() {
                assert(before[j] == site);
            } else {
                assert(ops.contains(last));
            }
        }
        if exists|op: PubsubOperation| #[trigger]
            ops.contains(op) && protocol::on_side(op, file.path@, sockets, role) && is_site_of(
                site,
                file,
                op,
            ) {
            let op = choose|op: PubsubOperation| #[trigger]
                ops.contains(op) && protocol::on_side(op, file.path@, sockets, role) && is_site_of(
                    site,
                    file,
                    op,
                );
            let k = choose|k: int| 0 <= k < ops.len() && ops[k] == op;
            if k < front.len() {
                assert(front[k] == op);
                assert(front.contains(op));
            } else {
                assert(r[before.len() as int] == site);
            }
        }
    }
}

proof fn lemma_sites(
    files: Seq<FileResult>,
    sockets: SocketExtraction,
    role: PubsubRole,
    site: OpSite,
)
    ensures
        protocol::pubsub_sites(files, sockets, role).contains(site) <==> is_reported(
            files,
            sockets,
            role,
            site,
        ),
    decreases files.len(),
{
    let r = protocol::pubsub_sites(files, sockets, role);
    if files.len() > 0 {
        let front = files.drop_last();
        let f = files.last();
        let ops = f.result.pubsub_operations@;
        let before = protocol::pubsub_sites(front, sockets, role);
        let more = protocol::file_pubsub_sites(ops, f.path@, sockets, role);
        lemma_sites(front, sockets, role, site);
        lemma_file_sites(f, ops, sockets, role, site);
        assert(files[files.len() - 1] == f);
        if r.contains(site) {
            let j = choose|j: int| 0 <= j < r.len() && r[j] == site;
            if j < before.len() {
                assert(before[j] == site);
                let (i, op) = choose|i: int, op: PubsubOperation|
                    0 <= i < front.len() && #[trigger] reports(front[i], sockets, role, op)
                        && is_site_of(site, front[i], op);
                assert(reports(files[i], sockets, role, op));
            } else {
                assert(more[j - before.len()] == site);
                let op = choose|op: PubsubOperation| #[trigger]
                    ops.contains(op) && protocol::on_side(op, f.path@, sockets, role)
                        && is_site_of(site, f, op);
                lemma_twin(sockets, f.path@, op.topic@);
                assert(reports(files[files.len() - 1], sockets, role, op));
            }
        }
        if is_reported(files, sockets, role, site) {
            let (i, op) = choose|i: int, op: PubsubOperation|
                0 <= i < files.len() && #[trigger] reports(files[i], sockets, role, op)
                    && is_site_of(site, files[i], op);
            if i < front.len() {
                assert(reports(front[i], sockets, role, op));
                let j = choose|j: int| 0 <= j < before.len() && before[j] == site;
                assert(r[j] == site);
            } else {
                lemma_twin(sockets, f.path@, op.topic@);
                assert(ops.contains(op));
                let j = choose|j: int| 0 <= j < more.len() && more[j] == site;
                assert(r[before.len() + j] == site);
            }
        }
    }
}

proof fn lemma_reported_sorted(
    files: Seq<FileResult>,
    sockets: SocketExtraction,
    role: PubsubRole,
    site: OpSite,
)
    ensures
        is_reported(sorting::sorted_by_key(files), sockets, role, site) <==> is_reported(
            files,
            sockets,
            role,
            site,
        ),
{
    let sorted = sorting::sorted_by_key(files);
    sorting::lemma_sorted_by_key(files);
    files.to_multiset_ensures();
    sorted.to_multiset_ensures();
    if is_reported(sorted, sockets, role, site) {
        let (i, op) = choose|i: int, op: PubsubOperation|
            0 <= i < sorted.len() && #[trigger] reports(sorted[i], sockets, role, op) && is_site_of(
                site,
                sorted[i],
                op,
            );
        assert(sorted.contains(sorted[i]));
        assert(sorted.to_multiset().count(sorted[i]) > 0);
        assert(files.to_multiset().count(sorted[i]) > 0);
        let k = choose|k: int| 0 <= k < files.len() && files[k] == sorted[i];
        assert(reports(files[k], sockets, role, op));
    }
    if is_reported(files, sockets, role, site) {
        let (i, op) = choose|i: int, op: PubsubOperation|
            0 <= i < files.len() && #[trigger] reports(files[i], sockets, role, op) && is_site_of(
                site,
                files[i],
                op,
            );
        assert(files.contains(files[i]));
        assert(files.to_multiset().count(files[i]) > 0);
        assert(sorted.to_multiset().count(files[i]) > 0);
        let k = choose|k: int| 0 <= k < sorted.len() && sorted[k] == files[i];
        assert(reports(sorted[k], sockets, role, op));
    }
}

/// Whether a site is that of one of the GraphQL operations.
pub open spec fn is_graphql(ops: Seq<GraphqlOp>, site: OpSite) -> bool {
    exists|i: int|
        0 <= i < ops.len() && (#[trigger] ops[i]).key@ == site.key && ops[i].file_path@
            == site.file_path && ops[i].line == site.line
}

/// Whether a site is that of one of the socket operations.
pub open spec fn is_socket(ops: Seq<SocketOp>, site: OpSite) -> bool {
    exists|i: int|
        0 <= i < ops.len() && (#[trigger] ops[i]).key@ == site.key && ops[i].file_path@
            == site.file_path && ops[i].line == site.line
}

proof fn lemma_graphql_sites(ops: Seq<GraphqlOp>, site: OpSite)
    ensures
        ops.map_values(|op: GraphqlOp| protocol::graphql_site(op)).contains(site) <==> is_graphql(
            ops,
            site,
        ),
{
    let r = ops.map_values(|op: GraphqlOp| protocol::graphql_site(op));
    if r.contains(site) {
        let i = choose|i: int| 0 <= i < r.len() && r[i] == site;
        assert(ops[i].key@ == site.key);
    }
    if is_graphql(ops, site) {
        let i = choose|i: int|
            0 <= i < ops.len() && (#[trigger] ops[i]).key@ == site.key && ops[i].file_path@
                == site.file_path && ops[i].line == site.line;
        assert(r[i] == site);
    }
}

proof fn lemma_socket_sites(ops: Seq<SocketOp>, site: OpSite)
    ensures
        ops.map_values(|op: SocketOp| protocol::socket_site(op)).contains(site) <==> is_socket(
            ops,
            site,
        ),
{
    let r = ops.map_values(|op: SocketOp| protocol::socket_site(op));
    if r.contains(site) {
        let i = choose|i: int| 0 <= i < r.len() && r[i] == site;
        assert(ops[i].key@ == site.key);
    }
    if is_socket(ops, site) {
        let i = choose|i: int|
            0 <= i < ops.len() && (#[trigger] ops[i]).key@ == site.key && ops[i].file_path@
                == site.file_path && ops[i].line == site.line;
        assert(r[i] == site);
    }
}

proof fn lemma_three<A>(a: Seq<A>, b: Seq<A>, c: Seq<A>, x: A)
    ensures
        (a + b + c).contains(x) <==> a.contains(x) || b.contains(x) || c.contains(x),
{
    let all = a + b + c;
    if all.contains(x) {
        let i = choose|i: int| 0 <= i < all.len() && all[i] == x;
        if i < a.len() {
            assert(a[i] == x);
        } else if i < a.len() + b.len() {
            assert(b[i - a.len()] == x);
        } else {
            assert(c[i - a.len() - b.len()] == x);
        }
    }
    if a.contains(x) {
        let i = choose|i: int| 0 <= i < a.len() && a[i] == x;
        assert(all[i] == x);
    }
    if b.contains(x) {
        let i = choose|i: int| 0 <= i < b.len() && b[i] == x;
        assert(all[a.len() + i] == x);
    }
    if c.contains(x) {
        let i = choose|i: int| 0 <= i < c.len() && c[i] == x;
        assert(all[a.len() + b.len() + i] == x);
    }
}

/// Schema fields, listeners and subscribers are endpoints, and nothing else of
/// these protocols is; documents, emitters and publishers are calls.
pub proof fn law_sides(x: ProtocolExtractions, files: Seq<FileResult>, site: OpSite)
    ensures
        protocol::endpoint_sites(x, files).contains(site) <==> is_graphql(
            x.graphql.producers@,
            site,
        ) || is_socket(x.sockets.listeners@, site) || is_reported(
            files,
            x.sockets,
            PubsubRole::Subscriber,
            site,
        ),
        protocol::call_sites(x, files).contains(site) <==> is_graphql(x.graphql.consumers@, site)
            || is_socket(x.sockets.emitters@, site) || is_reported(
            files,
            x.sockets,
            PubsubRole::Publisher,
            site,
        ),
{
    let sorted = sorting::sorted_by_key(files);
    lemma_graphql_sites(x.graphql.producers@, site);
    lemma_graphql_sites(x.graphql.consumers@, site);
    lemma_socket_sites(x.sockets.listeners@, site);
    lemma_socket_sites(x.sockets.emitters@, site);
    lemma_sites(sorted, x.sockets, PubsubRole::Subscriber, site);
    lemma_sites(sorted, x.sockets, PubsubRole::Publisher, site);
    lemma_reported_sorted(files, x.sockets, PubsubRole::Subscriber, site);
    lemma_reported_sorted(files, x.sockets, PubsubRole::Publisher, site);
    lemma_three(
        x.graphql.producers@.map_values(|op: GraphqlOp| protocol::graphql_site(op)),
        x.sockets.listeners@.map_values(|op: SocketOp| protocol::socket_site(op)),
        protocol::pubsub_sites(sorted, x.sockets, PubsubRole::Subscriber),
        site,
    );
    lemma_three(
        x.graphql.consumers@.map_values(|op: GraphqlOp| protocol::graphql_site(op)),
        x.sockets.emitters@.map_values(|op: SocketOp| protocol::socket_site(op)),
        protocol::pubsub_sites(sorted, x.sockets, PubsubRole::Publisher),
        site,
    );
}

// ---------------------------------------------------------------------------
// Manifest entries
// ---------------------------------------------------------------------------

/// Whether an entry is that of a side of an operation, at a place and with a
/// type: of the response, and not resolved yet.
pub open spec fn is_entry(
    e: EntryModel,
    key: KeyModel,
    role: ManifestRole,
    file: Seq<char>,
    line: int,
    symbol: Option<Seq<char>>,
) -> bool {
    &&& e.key == key
    &&& e.role == role
    &&& e.type_kind == ManifestTypeKind::Response
    &&& e.file_path == file
    &&& e.line_number == line
    &&& e.primary_type_symbol == symbol
    &&& e.evidence.file_path == file
    &&& e.evidence.line_number == line
    &&& e.type_state == ManifestTypeState::Unknown
    &&& e.evidence.type_state == ManifestTypeState::Unknown
    &&& !e.is_explicit
    &&& e.resolved_definition is None
    &&& e.expanded_definition is None
}

/// The type of a document: that of its call site comes before the located one.
pub open spec fn is_type_of(op: GraphqlOp, symbol: Option<Seq<char>>) -> bool {
    if op.payload_type_symbol is Some {
        symbol == op.payload_type_symbol.deep_view()
    } else {
        symbol == op.consumer_located_type_symbol.deep_view()
    }
}

/// The manifest has an entry for every schema field and every listener, as a
/// producer, and for every document and every emitter, as a consumer, and no
/// other.
pub proof fn law_protocol_entries(x: ProtocolExtractions)
    ensures
        ({
            let r = protocol::protocol_entries(x);
            let p = x.graphql.producers@;
            let c = x.graphql.consumers@;
            let l = x.sockets.listeners@;
            let e = x.sockets.emitters@;
            &&& r.len() == p.len() + c.len() + l.len() + e.len()
            &&& forall|i: int|
                0 <= i < p.len() ==> is_entry(
                    #[trigger] r[i],
                    p[i].key@,
                    ManifestRole::Producer,
                    p[i].file_path@,
                    p[i].line as int,
                    p[i].primary_type_symbol.deep_view(),
                )
            &&& forall|i: int, symbol: Option<Seq<char>>|
                0 <= i < c.len() && #[trigger] is_type_of(c[i], symbol) ==> is_entry(
                    r[p.len() + i],
                    c[i].key@,
                    ManifestRole::Consumer,
                    c[i].file_path@,
                    c[i].line as int,
                    symbol,
                )
            &&& forall|i: int|
                0 <= i < l.len() ==> is_entry(
                    r[p.len() + c.len() + i],
                    (#[trigger] l[i]).key@,
                    ManifestRole::Producer,
                    l[i].file_path@,
                    l[i].line as int,
                    l[i].payload_type_symbol.deep_view(),
                )
            &&& forall|i: int|
                0 <= i < e.len() ==> is_entry(
                    r[p.len() + c.len() + l.len() + i],
                    (#[trigger] e[i]).key@,
                    ManifestRole::Consumer,
                    e[i].file_path@,
                    e[i].line as int,
                    e[i].payload_type_symbol.deep_view(),
                )
        }),
{
}

/// A pub/sub operation that is indexed has an entry at its line, the first where
/// it has none: as a producer for a subscriber, as a consumer for a publisher.
pub proof fn law_pubsub_entry(
    file: FileResult,
    op: PubsubOperation,
    sockets: SocketExtraction,
    repo_root: Seq<char>,
    role: PubsubRole,
)
    requires
        reports(file, sockets, role, op),
    ensures
        protocol::pubsub_entry(op, file.path@, sockets, repo_root) is Some,
        is_entry(
            protocol::pubsub_entry(op, file.path@, sockets, repo_root)->0,
            KeyModel::Pubsub { topic: op.topic@ },
            if role == PubsubRole::Subscriber {
                ManifestRole::Producer
            } else {
                ManifestRole::Consumer
            },
            file.path@,
            if op.line_number >= 1 {
                op.line_number as int
            } else {
                1
            },
            op.primary_type_symbol.deep_view(),
        ),
{
    lemma_twin(sockets, file.path@, op.topic@);
}

// ---------------------------------------------------------------------------
// Located resolvers
// ---------------------------------------------------------------------------

proof fn lemma_position(ops: Seq<GraphqlOp>, key: Seq<char>)
    ensures
        -1 <= protocol::position_of_key(ops, key) < ops.len(),
        protocol::position_of_key(ops, key) >= 0 ==> operation::canonical_spec(
            ops[protocol::position_of_key(ops, key)].key@,
        ) == key,
        forall|j: int|
            protocol::position_of_key(ops, key) < j < ops.len() ==> operation::canonical_spec(
                (#[trigger] ops[j]).key@,
            ) != key,
    decreases ops.len(),
{
    if ops.len() > 0 && operation::canonical_spec(ops.last().key@) != key {
        let front = ops.drop_last();
        lemma_position(front, key);
        assert forall|j: int|
            protocol::position_of_key(ops, key) < j < ops.len() implies operation::canonical_spec(
            (#[trigger] ops[j]).key@,
        ) != key by {
            if j < front.len() {
                assert(front[j] == ops[j]);
            }
        }
        let i = protocol::position_of_key(front, key);
        if i >= 0 {
            assert(front[i] == ops[i]);
        }
    }
}

/// Whether a located operation names the resolver and its line.
pub open spec fn names_resolver(op: GraphqlOperation) -> bool {
    op.resolver_function matches Some(f) && text::trim_spec(f@).len() > 0 && (
    op.resolver_line matches Some(line) && line > 0)
}

/// Whether a schema field was given what was located for it: the file, and the
/// resolver's line where it is named, else the type behind it where there is one.
/// What identifies the field stays.
pub open spec fn is_located(
    before: GraphqlOp,
    after: GraphqlOp,
    path: String,
    op: GraphqlOperation,
) -> bool {
    &&& after.key == before.key
    &&& after.file_path == before.file_path
    &&& after.line == before.line
    &&& after.primary_type_symbol == before.primary_type_symbol
    &&& after.resolver_file == Some(path)
    &&& names_resolver(op) ==> after.resolver_line is Some && after.resolver_line->0
        == op.resolver_line->0 && after.response_type_symbol == before.response_type_symbol
        && after.response_type_source == before.response_type_source
    &&& !names_resolver(op) ==> after.resolver_line == before.resolver_line
    &&& !names_resolver(op) && op.backing_type_symbol is Some ==> after.response_type_symbol
        == op.backing_type_symbol && after.response_type_source == op.backing_type_source
    &&& !names_resolver(op) && op.backing_type_symbol is None ==> after.response_type_symbol
        == before.response_type_symbol && after.response_type_source == before.response_type_source
}

/// A located operation reaches the schema field of its own kind and name, the last
/// where there are several, and no other; without such a field it changes
/// nothing.
pub proof fn law_resolver_goes_to_its_field(
    producers: Seq<GraphqlOp>,
    path: String,
    op: GraphqlOperation,
)
    ensures
        ({
            let after = protocol::with_located(producers, path, op);
            let key = KeyModel::Graphql { kind: op.kind, field: op.field@ };
            &&& after.len() == producers.len()
            &&& forall|i: int|
                0 <= i < producers.len() && (#[trigger] producers[i]).key@ != key ==> after[i]
                    == producers[i]
            &&& forall|i: int|
                0 <= i < producers.len() && (#[trigger] producers[i]).key@ == key && (forall|j: int|
                    i < j < producers.len() ==> (#[trigger] producers[j]).key@ != key) ==> is_located(
                    producers[i],
                    after[i],
                    path,
                    op,
                )
        }),
{
    let key = KeyModel::Graphql { kind: op.kind, field: op.field@ };
    let text_key = operation::canonical_spec(key);
    lemma_position(producers, text_key);
    let at = protocol::position_of_key(producers, text_key);
    if at >= 0 {
        lemma_same_text(producers[at].key@, key);
    }
    assert forall|i: int|
        0 <= i < producers.len() && (#[trigger] producers[i]).key@ == key && (forall|j: int|
            i < j < producers.len() ==> (#[trigger] producers[j]).key@ != key) implies is_located(
        producers[i],
        protocol::with_located(producers, path, op)[i],
        path,
        op,
    ) by {
        if at < i {
            assert(operation::canonical_spec(producers[i].key@) != text_key);
        } else if at > i {
            assert(producers[at].key@ != key);
        }
    }
}

/// A text form that is that of a GraphQL operation is of no other operation.
proof fn lemma_same_text(a: KeyModel, b: KeyModel)
    requires
        b is Graphql,
        operation::canonical_spec(a) == operation::canonical_spec(b),
    ensures
        a == b,
{
    reveal_strlit("http|");
    reveal_strlit("socket|");
    reveal_strlit("graphql|");
    reveal_strlit("pubsub|");
    let x = operation::canonical_spec(a);
    assert(operation::canonical_spec(b)[0] == 'g');
    if let KeyModel::Http { method, path } = a {
        assert(x =~= "http|"@ + (method + "|"@ + path));
        assert(x[0] == 'h');
    }
    crate::delta_laws::law_text_form_tells_apart(a, b);
}

/// Whatever is located, a schema field stays the field that it is.
pub proof fn law_fields_stay(producers: Seq<GraphqlOp>, files: Seq<FileResult>, k: int)
    requires
        0 <= k < producers.len(),
    ensures
        protocol::with_all_located(producers, files).len() == producers.len(),
        is_same_field(producers[k], protocol::with_all_located(producers, files)[k]),
        (forall|i: int, j: int|
            0 <= i < files.len() && 0 <= j < files[i].result.graphql_operations@.len()
                ==> !#[trigger] is_located_at(files, i, j, producers[k].key@))
            ==> protocol::with_all_located(producers, files)[k] == producers[k],
    decreases files.len(),
{
    if files.len() > 0 {
        let front = files.drop_last();
        let last = files.last();
        let n = files.len() - 1;
        let before = protocol::with_all_located(producers, front);
        law_fields_stay(producers, front, k);
        lemma_file_fields_stay(before, last.path, last.result.graphql_operations@, k);
        if forall|i: int, j: int|
            0 <= i < files.len() && 0 <= j < files[i].result.graphql_operations@.len()
                ==> !#[trigger] is_located_at(files, i, j, producers[k].key@) {
            assert forall|i: int, j: int|
                0 <= i < front.len() && 0 <= j
                    < front[i].result.graphql_operations@.len() implies !#[trigger] is_located_at(
                front,
                i,
                j,
                producers[k].key@,
            ) by {
                assert(!is_located_at(files, i, j, producers[k].key@));
            }
            let ops = last.result.graphql_operations@;
            assert forall|j: int| 0 <= j < ops.len() implies !is_key_of(
                #[trigger] ops[j],
                before[k].key@,
            ) by {
                assert(!is_located_at(files, n, j, producers[k].key@));
            }
        }
    }
}

/// Whether a located operation has the key.
pub open spec fn is_key_of(op: GraphqlOperation, key: KeyModel) -> bool {
    key == (KeyModel::Graphql { kind: op.kind, field: op.field@ })
}

/// Whether the located operation in the place has the key.
pub open spec fn is_located_at(files: Seq<FileResult>, i: int, j: int, key: KeyModel) -> bool {
    is_key_of(files[i].result.graphql_operations@[j], key)
}

/// Whether two are the same field of a schema.
pub open spec fn is_same_field(a: GraphqlOp, b: GraphqlOp) -> bool {
    &&& a.key == b.key
    &&& a.file_path == b.file_path
    &&& a.line == b.line
    &&& a.primary_type_symbol == b.primary_type_symbol
}

proof fn lemma_file_fields_stay(
    producers: Seq<GraphqlOp>,
    path: String,
    ops: Seq<GraphqlOperation>,
    k: int,
)
    requires
        0 <= k < producers.len(),
    ensures
        protocol::with_file_located(producers, path, ops).len() == producers.len(),
        is_same_field(producers[k], protocol::with_file_located(producers, path, ops)[k]),
        (forall|j: int| 0 <= j < ops.len() ==> !is_key_of(#[trigger] ops[j], producers[k].key@))
            ==> protocol::with_file_located(producers, path, ops)[k] == producers[k],
    decreases ops.len(),
{
    if ops.len() > 0 {
        let front = ops.drop_last();
        let op = ops.last();
        let before = protocol::with_file_located(producers, path, front);
        lemma_file_fields_stay(producers, path, front, k);
        law_resolver_goes_to_its_field(before, path, op);
        let key = KeyModel::Graphql { kind: op.kind, field: op.field@ };
        lemma_position(before, operation::canonical_spec(key));
        if forall|j: int| 0 <= j < ops.len() ==> !is_key_of(#[trigger] ops[j], producers[k].key@) {
            assert forall|j: int| 0 <= j < front.len() implies !is_key_of(
                #[trigger] front[j],
                producers[k].key@,
            ) by {
                assert(ops[j] == front[j]);
            }
            assert(!is_key_of(ops[ops.len() - 1], producers[k].key@));
        }
    }
}

proof fn lemma_position_in_file(ops: Seq<GraphqlOp>, file: Seq<char>, key: Seq<char>)
    ensures
        -1 <= protocol::position_in_file(ops, file, key) < ops.len(),
        protocol::position_in_file(ops, file, key) >= 0 ==> operation::canonical_spec(
            ops[protocol::position_in_file(ops, file, key)].key@,
        ) == key && ops[protocol::position_in_file(ops, file, key)].file_path@ == file,
        forall|j: int|
            protocol::position_in_file(ops, file, key) < j < ops.len() ==> operation::canonical_spec(
                (#[trigger] ops[j]).key@,
            ) != key || ops[j].file_path@ != file,
    decreases ops.len(),
{
    if ops.len() > 0 && !(operation::canonical_spec(ops.last().key@) == key
        && ops.last().file_path@ == file) {
        let front = ops.drop_last();
        lemma_position_in_file(front, file, key);
        assert forall|j: int|
            protocol::position_in_file(ops, file, key) < j
                < ops.len() implies operation::canonical_spec((#[trigger] ops[j]).key@) != key
            || ops[j].file_path@ != file by {
            if j < front.len() {
                assert(front[j] == ops[j]);
            }
        }
        let i = protocol::position_in_file(front, file, key);
        if i >= 0 {
            assert(front[i] == ops[i]);
        }
    }
}

/// Whether a document is of the file and the operation.
pub open spec fn is_document(op: GraphqlOp, path: Seq<char>, key: KeyModel) -> bool {
    op.file_path@ == path && op.key@ == key
}

/// A located type reaches the document of its own operation in its own file, the
/// last where there are several, unless that has a type from its call site; no
/// other document changes.
pub proof fn law_type_goes_to_its_document(
    consumers: Seq<GraphqlOp>,
    path: Seq<char>,
    locate: GraphqlConsumerLocate,
    i: int,
)
    requires
        0 <= i < consumers.len(),
    ensures
        ({
            let after = protocol::with_locate(consumers, path, locate);
            let key = KeyModel::Graphql { kind: locate.kind, field: locate.field@ };
            let is_last = is_document(consumers[i], path, key) && forall|j: int|
                i < j < consumers.len() ==> !is_document(#[trigger] consumers[j], path, key);
            &&& after.len() == consumers.len()
            &&& is_same_field(consumers[i], after[i])
            &&& after[i].payload_type_symbol == consumers[i].payload_type_symbol
            &&& !is_last ==> after[i] == consumers[i]
            &&& consumers[i].payload_type_symbol is Some ==> after[i] == consumers[i]
            &&& is_last && consumers[i].payload_type_symbol is None
                ==> after[i].consumer_located_type_symbol == Some(locate.result_type_symbol)
                && after[i].consumer_located_type_source == locate.result_type_source
        }),
{
    let key = KeyModel::Graphql { kind: locate.kind, field: locate.field@ };
    let text_key = operation::canonical_spec(key);
    lemma_position_in_file(consumers, path, text_key);
    let at = protocol::position_in_file(consumers, path, text_key);
    if at >= 0 {
        lemma_same_text(consumers[at].key@, key);
        assert forall|j: int| at < j < consumers.len() implies !is_document(
            #[trigger] consumers[j],
            path,
            key,
        ) by {
            assert(operation::canonical_spec(consumers[j].key@) != text_key
                || consumers[j].file_path@ != path);
        }
    }
    if is_document(consumers[i], path, key) {
        assert(at >= i);
        if at > i {
            assert(is_document(consumers[at], path, key));
        }
    }
}

/// The located types of a file are taken in one after another.
pub proof fn law_types_one_by_one(
    consumers: Seq<GraphqlOp>,
    path: Seq<char>,
    locates: Seq<GraphqlConsumerLocate>,
    locate: GraphqlConsumerLocate,
)
    ensures
        protocol::with_file_locates(consumers, path, locates.push(locate)) == protocol::with_locate(
            protocol::with_file_locates(consumers, path, locates),
            path,
            locate,
        ),
        protocol::with_file_locates(consumers, path, Seq::empty()) == consumers,
{
    assert(locates.push(locate).drop_last() =~= locates);
}

/// A file's pub/sub operations have their entries in the manifest, and nothing
/// else of the file has.
pub proof fn law_pubsub_entries(
    ops: Seq<PubsubOperation>,
    op: PubsubOperation,
    path: Seq<char>,
    sockets: SocketExtraction,
    repo_root: Seq<char>,
)
    ensures
        protocol::file_pubsub_entries(ops.push(op), path, sockets, repo_root)
            == match protocol::pubsub_entry(op, path, sockets, repo_root) {
            Some(e) => protocol::file_pubsub_entries(ops, path, sockets, repo_root).push(e),
            None => protocol::file_pubsub_entries(ops, path, sockets, repo_root),
        },
        op.role is None ==> protocol::pubsub_entry(op, path, sockets, repo_root) is None,
        has_event(sockets.listeners@, path, op.topic@) || has_event(
            sockets.emitters@,
            path,
            op.topic@,
        ) ==> protocol::pubsub_entry(op, path, sockets, repo_root) is None,
{
    assert(ops.push(op).drop_last() =~= ops);
    lemma_twin(sockets, path, op.topic@);
}

} // verus!
