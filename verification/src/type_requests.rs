//! The types that are asked for on behalf of the operations of the protocols
//! other than HTTP. Each request carries the alias of the operation's manifest
//! entry, by which the answer is joined back.

use vstd::prelude::*;

use crate::cloud_storage::{InferKind, ManifestRole, ManifestTypeKind};
use crate::file_analysis::{FileResult, PubsubOperation};
use crate::operation::{OperationKey, PubsubRole};
use crate::protocol::{
    GraphqlExtraction, GraphqlOp, ProtocolExtractions, SocketExtraction, SocketOp,
};
use crate::type_sidecar::{InferRequestItem, SymbolRequest};
use crate::{operation, protocol, sorting, text, type_manifest};

verus! {

/// The model of a [`SymbolRequest`].
pub struct SymbolModel {
    pub symbol_name: Seq<char>,
    pub source_file: Seq<char>,
    pub alias: Option<Seq<char>>,
    pub array_depth: Option<u32>,
}

impl DeepView for SymbolRequest {
    type V = SymbolModel;

    open spec fn deep_view(&self) -> SymbolModel {
        SymbolModel {
            symbol_name: self.symbol_name@,
            source_file: self.source_file@,
            alias: self.alias.deep_view(),
            array_depth: self.array_depth,
        }
    }
}

/// The model of an [`InferRequestItem`].
pub struct InferModel {
    pub file_path: Seq<char>,
    pub line_number: u32,
    pub span_start: Option<u32>,
    pub span_end: Option<u32>,
    pub expression_text: Option<Seq<char>>,
    pub expression_line: Option<u32>,
    pub infer_kind: InferKind,
    pub param_name: Option<Seq<char>>,
    pub alias: Option<Seq<char>>,
}

impl DeepView for InferRequestItem {
    type V = InferModel;

    open spec fn deep_view(&self) -> InferModel {
        InferModel {
            file_path: self.file_path@,
            line_number: self.line_number,
            span_start: self.span_start,
            span_end: self.span_end,
            expression_text: self.expression_text.deep_view(),
            expression_line: self.expression_line,
            infer_kind: self.infer_kind,
            param_name: self.param_name.deep_view(),
            alias: self.alias.deep_view(),
        }
    }
}

/// The values that are there.
pub open spec fn present<M>(s: Seq<Option<M>>) -> Seq<M>
    decreases s.len(),
{
    if s.len() == 0 {
        Seq::empty()
    } else {
        match s.last() {
            Some(x) => present(s.drop_last()).push(x),
            None => present(s.drop_last()),
        }
    }
}

fn push_present<T: DeepView>(v: &mut Vec<T>, x: Option<T>, Ghost(s): Ghost<Seq<Option<T::V>>>)
    requires
        old(v).deep_view() == present(s),
    ensures
        final(v).deep_view() == present(s.push(x.deep_view())),
{
    assert(s.push(x.deep_view()).drop_last() =~= s);
    if let Some(y) = x {
        text::push_deep(v, y);
    }
}

/// A request for a named type under the plain alias of an operation's side.
pub open spec fn plain_request(
    symbol: Option<String>,
    source: Option<String>,
    file: Seq<char>,
    key: operation::KeyModel,
    role: ManifestRole,
) -> Option<SymbolModel> {
    match symbol {
        Some(s) => Some(
            SymbolModel {
                symbol_name: s@,
                source_file: match source {
                    Some(f) => f@,
                    None => file,
                },
                alias: Some(
                    type_manifest::type_alias_spec(key, role, ManifestTypeKind::Response, None),
                ),
                array_depth: None,
            },
        ),
        None => None,
    }
}

fn request_plain(
    symbol: &Option<String>,
    source: &Option<String>,
    file: &str,
    key: &OperationKey,
    role: ManifestRole,
) -> (r: Option<SymbolRequest>)
    ensures
        r.deep_view() == plain_request(*symbol, *source, file@, key@, role),
{
    match symbol {
        Some(s) => Some(
            SymbolRequest {
                symbol_name: s.clone(),
                source_file: text::or_else_text(source, file),
                alias: Some(
                    type_manifest::build_manifest_type_alias(key, role, ManifestTypeKind::Response),
                ),
                array_depth: None,
            },
        ),
        None => None,
    }
}

/// The request of a socket operation.
pub open spec fn socket_request(op: SocketOp, role: ManifestRole) -> Option<SymbolModel> {
    plain_request(op.payload_type_symbol, op.payload_type_source, op.file_path@, op.key@, role)
}

/// The requests of the socket operations that carry a type.
pub fn collect_socket_type_requests(sockets: &SocketExtraction) -> (r: Vec<SymbolRequest>)
    ensures
        r.deep_view() == present(
            sockets.listeners@.map_values(
                |op: SocketOp| socket_request(op, ManifestRole::Producer),
            ) + sockets.emitters@.map_values(
                |op: SocketOp| socket_request(op, ManifestRole::Consumer),
            ),
        ),
{
    let ghost a = sockets.listeners@.map_values(
        |op: SocketOp| socket_request(op, ManifestRole::Producer),
    );
    let ghost b = sockets.emitters@.map_values(
        |op: SocketOp| socket_request(op, ManifestRole::Consumer),
    );
    let mut out: Vec<SymbolRequest> = Vec::new();
    assert(out.deep_view() =~= Seq::empty());
    let mut i: usize = 0;
    while i < sockets.listeners.len()
        invariant
            i <= sockets.listeners@.len(),
            a == sockets.listeners@.map_values(
                |op: SocketOp| socket_request(op, ManifestRole::Producer),
            ),
            out.deep_view() == present(a.take(i as int)),
        decreases sockets.listeners@.len() - i,
    {
        let op = &sockets.listeners[i];
        let request = request_plain(
            &op.payload_type_symbol,
            &op.payload_type_source,
            &op.file_path,
            &op.key,
            ManifestRole::Producer,
        );
        push_present(&mut out, request, Ghost(a.take(i as int)));
        assert(a.take(i as int).push(a[i as int]) =~= a.take(i + 1));
        i += 1;
    }
    assert(a.take(i as int) =~= a);
    let mut j: usize = 0;
    assert(a + b.take(0) =~= a);
    while j < sockets.emitters.len()
        invariant
            j <= sockets.emitters@.len(),
            b == sockets.emitters@.map_values(
                |op: SocketOp| socket_request(op, ManifestRole::Consumer),
            ),
            out.deep_view() == present(a + b.take(j as int)),
        decreases sockets.emitters@.len() - j,
    {
        let op = &sockets.emitters[j];
        let request = request_plain(
            &op.payload_type_symbol,
            &op.payload_type_source,
            &op.file_path,
            &op.key,
            ManifestRole::Consumer,
        );
        push_present(&mut out, request, Ghost(a + b.take(j as int)));
        assert((a + b.take(j as int)).push(b[j as int]) =~= a + b.take(j + 1));
        j += 1;
    }
    assert(b.take(j as int) =~= b);
    out
}

/// The request of a document: for the type of its call site, else for the
/// located one.
pub open spec fn document_request(op: GraphqlOp) -> Option<SymbolModel> {
    match op.payload_type_symbol {
        Some(_) => plain_request(
            op.payload_type_symbol,
            op.payload_type_source,
            op.file_path@,
            op.key@,
            ManifestRole::Consumer,
        ),
        None => plain_request(
            op.consumer_located_type_symbol,
            op.consumer_located_type_source,
            op.file_path@,
            op.key@,
            ManifestRole::Consumer,
        ),
    }
}

/// The request of a schema field that has a backing type.
pub open spec fn backing_request(op: GraphqlOp) -> Option<SymbolModel> {
    plain_request(
        op.response_type_symbol,
        op.response_type_source,
        match op.resolver_file {
            Some(f) => f@,
            None => op.file_path@,
        },
        op.key@,
        ManifestRole::Producer,
    )
}

/// The requests of the documents and of the schema fields with a backing type.
pub fn collect_graphql_type_requests(graphql: &GraphqlExtraction) -> (r: Vec<SymbolRequest>)
    ensures
        r.deep_view() == present(
            graphql.consumers@.map_values(|op: GraphqlOp| document_request(op))
                + graphql.producers@.map_values(|op: GraphqlOp| backing_request(op)),
        ),
{
    let ghost a = graphql.consumers@.map_values(|op: GraphqlOp| document_request(op));
    let ghost b = graphql.producers@.map_values(|op: GraphqlOp| backing_request(op));
    let mut out: Vec<SymbolRequest> = Vec::new();
    assert(out.deep_view() =~= Seq::empty());
    let mut i: usize = 0;
    while i < graphql.consumers.len()
        invariant
            i <= graphql.consumers@.len(),
            a == graphql.consumers@.map_values(|op: GraphqlOp| document_request(op)),
            out.deep_view() == present(a.take(i as int)),
        decreases graphql.consumers@.len() - i,
    {
        let op = &graphql.consumers[i];
        let request = if op.payload_type_symbol.is_some() {
            request_plain(
                &op.payload_type_symbol,
                &op.payload_type_source,
                &op.file_path,
                &op.key,
                ManifestRole::Consumer,
            )
        } else {
            request_plain(
                &op.consumer_located_type_symbol,
                &op.consumer_located_type_source,
                &op.file_path,
                &op.key,
                ManifestRole::Consumer,
            )
        };
        push_present(&mut out, request, Ghost(a.take(i as int)));
        assert(a.take(i as int).push(a[i as int]) =~= a.take(i + 1));
        i += 1;
    }
    assert(a.take(i as int) =~= a);
    let mut j: usize = 0;
    assert(a + b.take(0) =~= a);
    while j < graphql.producers.len()
        invariant
            j <= graphql.producers@.len(),
            b == graphql.producers@.map_values(|op: GraphqlOp| backing_request(op)),
            out.deep_view() == present(a + b.take(j as int)),
        decreases graphql.producers@.len() - j,
    {
        let op = &graphql.producers[j];
        let file = text::or_else_text(&op.resolver_file, &op.file_path);
        let request = request_plain(
            &op.response_type_symbol,
            &op.response_type_source,
            &file,
            &op.key,
            ManifestRole::Producer,
        );
        push_present(&mut out, request, Ghost(a + b.take(j as int)));
        assert((a + b.take(j as int)).push(b[j as int]) =~= a + b.take(j + 1));
        j += 1;
    }
    assert(b.take(j as int) =~= b);
    out
}

/// The inference of a located resolver's return type.
pub open spec fn resolver_request(op: GraphqlOp) -> Option<InferModel> {
    match (op.resolver_file, op.resolver_line) {
        (Some(file), Some(line)) => Some(
            InferModel {
                file_path: file@,
                line_number: line,
                span_start: None,
                span_end: None,
                expression_text: None,
                expression_line: None,
                infer_kind: InferKind::FunctionReturn,
                param_name: None,
                alias: Some(
                    type_manifest::type_alias_spec(
                        op.key@,
                        ManifestRole::Producer,
                        ManifestTypeKind::Response,
                        None,
                    ),
                ),
            },
        ),
        _ => None,
    }
}

/// The inferences of the located resolvers' return types.
pub fn collect_graphql_producer_infer_requests(graphql: &GraphqlExtraction) -> (r: Vec<
    InferRequestItem,
>)
    ensures
        r.deep_view() == present(
            graphql.producers@.map_values(|op: GraphqlOp| resolver_request(op)),
        ),
{
    let ghost a = graphql.producers@.map_values(|op: GraphqlOp| resolver_request(op));
    let mut out: Vec<InferRequestItem> = Vec::new();
    assert(out.deep_view() =~= Seq::empty());
    let mut i: usize = 0;
    while i < graphql.producers.len()
        invariant
            i <= graphql.producers@.len(),
            a == graphql.producers@.map_values(|op: GraphqlOp| resolver_request(op)),
            out.deep_view() == present(a.take(i as int)),
        decreases graphql.producers@.len() - i,
    {
        let op = &graphql.producers[i];
        let request = match (&op.resolver_file, op.resolver_line) {
            (Some(file), Some(line)) => Some(
                InferRequestItem {
                    file_path: file.clone(),
                    line_number: line,
                    span_start: None,
                    span_end: None,
                    expression_text: None,
                    expression_line: None,
                    infer_kind: InferKind::FunctionReturn,
                    param_name: None,
                    alias: Some(
                        type_manifest::build_manifest_type_alias(
                            &op.key,
                            ManifestRole::Producer,
                            ManifestTypeKind::Response,
                        ),
                    ),
                },
            ),
            _ => None,
        };
        push_present(&mut out, request, Ghost(a.take(i as int)));
        assert(a.take(i as int).push(a[i as int]) =~= a.take(i + 1));
        i += 1;
    }
    assert(a.take(i as int) =~= a);
    out
}

/// The alias of a pub/sub operation's manifest entry.
pub open spec fn pubsub_alias(
    op: PubsubOperation,
    role: PubsubRole,
    path: Seq<char>,
    repo_root: Seq<char>,
) -> Seq<char> {
    type_manifest::type_alias_spec(
        operation::KeyModel::Pubsub { topic: op.topic@ },
        protocol::manifest_role(role),
        ManifestTypeKind::Response,
        protocol::pubsub_call_id(op, role, path, repo_root),
    )
}

fn alias_of_pubsub(op: &PubsubOperation, role: PubsubRole, path: &str, repo_root: &str) -> (r:
    String)
    ensures
        r@ == pubsub_alias(*op, role, path@, repo_root@),
{
    let key = OperationKey::pubsub(&op.topic);
    match role {
        PubsubRole::Subscriber => type_manifest::build_manifest_type_alias(
            &key,
            ManifestRole::Producer,
            ManifestTypeKind::Response,
        ),
        PubsubRole::Publisher => {
            let line: u32 = if op.line_number < 1 { 1 } else { op.line_number as u32 };
            let call_id = type_manifest::build_call_site_id(path, line, &key, repo_root);
            type_manifest::build_manifest_type_alias_with_call_id(
                &key,
                ManifestRole::Consumer,
                ManifestTypeKind::Response,
                &Some(call_id),
            )
        },
    }
}

/// The request for the named payload type of a pub/sub operation.
pub open spec fn pubsub_request(
    op: PubsubOperation,
    path: Seq<char>,
    repo_root: Seq<char>,
) -> Option<SymbolModel> {
    match (op.role, op.primary_type_symbol) {
        (Some(role), Some(symbol)) => Some(
            SymbolModel {
                symbol_name: symbol@,
                source_file: match op.type_import_source {
                    Some(f) => f@,
                    None => path,
                },
                alias: Some(pubsub_alias(op, role, path, repo_root)),
                array_depth: None,
            },
        ),
        _ => None,
    }
}

/// Whether the text by which a payload is located can be used: there is one,
/// and it is not a copy of the envelope, which would name the topic.
pub open spec fn usable_locator(op: PubsubOperation) -> bool {
    match op.payload_expression_text {
        Some(t) => text::trim_spec(t@).len() > 0 && !text::has_text(t@, op.topic@),
        None => false,
    }
}

/// The inference of the payload type of a pub/sub operation: the handler's
/// parameter for a subscriber, the sent expression for a publisher.
pub open spec fn pubsub_inference(
    op: PubsubOperation,
    path: Seq<char>,
    repo_root: Seq<char>,
) -> Option<InferModel> {
    match op.role {
        Some(role) if usable_locator(op) => {
            let line = protocol::pubsub_line(op.line_number);
            let locator = op.payload_expression_text.deep_view();
            let locator_line = match op.payload_expression_line {
                Some(l) if l > 0 => l as u32,
                _ => line,
            };
            Some(
                InferModel {
                    file_path: path,
                    line_number: line,
                    span_start: None,
                    span_end: None,
                    expression_text: if role == PubsubRole::Publisher {
                        locator
                    } else {
                        None
                    },
                    expression_line: Some(locator_line),
                    infer_kind: if role == PubsubRole::Publisher {
                        InferKind::Expression
                    } else {
                        InferKind::FunctionParam
                    },
                    param_name: if role == PubsubRole::Publisher {
                        None
                    } else {
                        locator
                    },
                    alias: Some(pubsub_alias(op, role, path, repo_root)),
                },
            )
        },
        _ => None,
    }
}

fn request_pubsub(op: &PubsubOperation, path: &str, repo_root: &str) -> (r: Option<SymbolRequest>)
    ensures
        r.deep_view() == pubsub_request(*op, path@, repo_root@),
{
    match (op.role, &op.primary_type_symbol) {
        (Some(role), Some(symbol)) => Some(
            SymbolRequest {
                symbol_name: symbol.clone(),
                source_file: text::or_else_text(&op.type_import_source, path),
                alias: Some(alias_of_pubsub(op, role, path, repo_root)),
                array_depth: None,
            },
        ),
        _ => None,
    }
}

fn infer_pubsub(op: &PubsubOperation, path: &str, repo_root: &str) -> (r: Option<InferRequestItem>)
    ensures
        r.deep_view() == pubsub_inference(*op, path@, repo_root@),
{
    let role = match op.role {
        Some(role) => role,
        None => {
            return None;
        },
    };
    let locator = match &op.payload_expression_text {
        Some(t) => t,
        None => {
            return None;
        },
    };
    if text::trim(locator).as_str().is_empty() || text::contains_text(locator, &op.topic) {
        return None;
    }
    let line: u32 = if op.line_number < 1 { 1 } else { op.line_number as u32 };
    let locator_line: u32 = match op.payload_expression_line {
        Some(l) => if l > 0 { l as u32 } else { line },
        None => line,
    };
    let (infer_kind, expression_text, param_name) = match role {
        PubsubRole::Publisher => (InferKind::Expression, Some(locator.clone()), None),
        PubsubRole::Subscriber => (InferKind::FunctionParam, None, Some(locator.clone())),
    };
    Some(
        InferRequestItem {
            file_path: text::owned(path),
            line_number: line,
            span_start: None,
            span_end: None,
            expression_text,
            expression_line: Some(locator_line),
            infer_kind,
            param_name,
            alias: Some(alias_of_pubsub(op, role, path, repo_root)),
        },
    )
}

/// The candidates of the files, one for each operation.
pub open spec fn pubsub_requests(files: Seq<FileResult>, repo_root: Seq<char>) -> Seq<
    Option<SymbolModel>,
>
    decreases files.len(),
{
    if files.len() == 0 {
        Seq::empty()
    } else {
        let f = files.last();
        pubsub_requests(files.drop_last(), repo_root) + f.result.pubsub_operations@.map_values(
            |op: PubsubOperation| pubsub_request(op, f.path@, repo_root),
        )
    }
}

/// The candidates of the files, one for each operation.
pub open spec fn pubsub_inferences(files: Seq<FileResult>, repo_root: Seq<char>) -> Seq<
    Option<InferModel>,
>
    decreases files.len(),
{
    if files.len() == 0 {
        Seq::empty()
    } else {
        let f = files.last();
        pubsub_inferences(files.drop_last(), repo_root) + f.result.pubsub_operations@.map_values(
            |op: PubsubOperation| pubsub_inference(op, f.path@, repo_root),
        )
    }
}

/// The requests for the named payload types of the pub/sub operations, in the
/// order of the files' paths.
pub fn collect_pubsub_type_requests(file_results: &Vec<FileResult>, repo_root: &str) -> (r: Vec<
    SymbolRequest,
>)
    ensures
        r.deep_view() == present(
            pubsub_requests(sorting::sorted_by_key(file_results@), repo_root@),
        ),
{
    let files = protocol::by_path(file_results);
    let ghost f = files.deep_view();
    let mut out: Vec<SymbolRequest> = Vec::new();
    assert(out.deep_view() =~= Seq::empty());
    let mut i: usize = 0;
    while i < files.len()
        invariant
            i <= files@.len(),
            f == files.deep_view(),
            out.deep_view() == present(pubsub_requests(f.take(i as int), repo_root@)),
        decreases files@.len() - i,
    {
        let file = files[i].file;
        let ops = &file.result.pubsub_operations;
        assert(f.take(i + 1).drop_last() =~= f.take(i as int));
        assert(f[i as int] == files@[i as int].deep_view());
        let ghost before = pubsub_requests(f.take(i as int), repo_root@);
        let ghost all = ops@.map_values(
            |op: PubsubOperation| pubsub_request(op, file.path@, repo_root@),
        );
        let mut j: usize = 0;
        assert(before + all.take(0) =~= before);
        while j < ops.len()
            invariant
                j <= ops@.len(),
                all == ops@.map_values(
                    |op: PubsubOperation| pubsub_request(op, file.path@, repo_root@),
                ),
                out.deep_view() == present(before + all.take(j as int)),
            decreases ops@.len() - j,
        {
            let request = request_pubsub(&ops[j], &file.path, repo_root);
            push_present(&mut out, request, Ghost(before + all.take(j as int)));
            assert((before + all.take(j as int)).push(all[j as int]) =~= before + all.take(j + 1));
            j += 1;
        }
        assert(all.take(j as int) =~= all);
        i += 1;
    }
    assert(f.take(i as int) =~= f);
    out
}

/// The inferences of the payload types of the pub/sub operations, in the order
/// of the files' paths.
pub fn collect_pubsub_infer_requests(file_results: &Vec<FileResult>, repo_root: &str) -> (r: Vec<
    InferRequestItem,
>)
    ensures
        r.deep_view() == present(
            pubsub_inferences(sorting::sorted_by_key(file_results@), repo_root@),
        ),
{
    let files = protocol::by_path(file_results);
    let ghost f = files.deep_view();
    let mut out: Vec<InferRequestItem> = Vec::new();
    assert(out.deep_view() =~= Seq::empty());
    let mut i: usize = 0;
    while i < files.len()
        invariant
            i <= files@.len(),
            f == files.deep_view(),
            out.deep_view() == present(pubsub_inferences(f.take(i as int), repo_root@)),
        decreases files@.len() - i,
    {
        let file = files[i].file;
        let ops = &file.result.pubsub_operations;
        assert(f.take(i + 1).drop_last() =~= f.take(i as int));
        assert(f[i as int] == files@[i as int].deep_view());
        let ghost before = pubsub_inferences(f.take(i as int), repo_root@);
        let ghost all = ops@.map_values(
            |op: PubsubOperation| pubsub_inference(op, file.path@, repo_root@),
        );
        let mut j: usize = 0;
        assert(before + all.take(0) =~= before);
        while j < ops.len()
            invariant
                j <= ops@.len(),
                all == ops@.map_values(
                    |op: PubsubOperation| pubsub_inference(op, file.path@, repo_root@),
                ),
                out.deep_view() == present(before + all.take(j as int)),
            decreases ops@.len() - j,
        {
            let request = infer_pubsub(&ops[j], &file.path, repo_root);
            push_present(&mut out, request, Ghost(before + all.take(j as int)));
            assert((before + all.take(j as int)).push(all[j as int]) =~= before + all.take(j + 1));
            j += 1;
        }
        assert(all.take(j as int) =~= all);
        i += 1;
    }
    assert(f.take(i as int) =~= f);
    out
}

/// What is asked about the operations of a service's protocols besides HTTP.
pub struct ProtocolRequests {
    /// The named types.
    pub explicit: Vec<SymbolRequest>,
    /// The types of expressions.
    pub infer: Vec<InferRequestItem>,
}

/// Collects what is asked about the operations of a service's protocols: the
/// named types of sockets, GraphQL and topics, and the types of the expressions
/// of resolvers and topics.
pub fn collect_protocol_requests(
    extractions: &ProtocolExtractions,
    file_results: &Vec<FileResult>,
    repo_root: &str,
) -> (r: ProtocolRequests)
    ensures
        r.explicit.deep_view() == present(
            extractions.sockets.listeners@.map_values(
                |op: SocketOp| socket_request(op, ManifestRole::Producer),
            ) + extractions.sockets.emitters@.map_values(
                |op: SocketOp| socket_request(op, ManifestRole::Consumer),
            ),
        ) + present(
            extractions.graphql.consumers@.map_values(|op: GraphqlOp| document_request(op))
                + extractions.graphql.producers@.map_values(|op: GraphqlOp| backing_request(op)),
        ) + present(pubsub_requests(sorting::sorted_by_key(file_results@), repo_root@)),
        r.infer.deep_view() == present(
            extractions.graphql.producers@.map_values(|op: GraphqlOp| resolver_request(op)),
        ) + present(pubsub_inferences(sorting::sorted_by_key(file_results@), repo_root@)),
{
    let mut explicit = collect_socket_type_requests(&extractions.sockets);
    let mut graphql = collect_graphql_type_requests(&extractions.graphql);
    let mut pubsub = collect_pubsub_type_requests(file_results, repo_root);
    let ghost a = explicit.deep_view();
    let ghost b = graphql.deep_view();
    let ghost c = pubsub.deep_view();
    explicit.append(&mut graphql);
    assert(explicit.deep_view() =~= a + b);
    explicit.append(&mut pubsub);
    assert(explicit.deep_view() =~= a + b + c);
    let mut infer = collect_graphql_producer_infer_requests(&extractions.graphql);
    let mut located = collect_pubsub_infer_requests(file_results, repo_root);
    let ghost d = infer.deep_view();
    let ghost e = located.deep_view();
    infer.append(&mut located);
    assert(infer.deep_view() =~= d + e);
    ProtocolRequests { explicit, infer }
}

/// Every request carries the alias of the manifest entry of its operation, so
/// that what is resolved joins back to the entry.
pub proof fn law_requests_join_the_manifest(
    socket: protocol::SocketOp,
    role: ManifestRole,
    graphql: GraphqlOp,
    op: PubsubOperation,
    path: Seq<char>,
    sockets: SocketExtraction,
    repo_root: Seq<char>,
)
    ensures
        socket_request(socket, role) matches Some(r) ==> r.alias == Some(
            protocol::socket_entry(socket, role).type_alias,
        ),
        document_request(graphql) matches Some(r) ==> r.alias == Some(
            protocol::document_entry(graphql).type_alias,
        ),
        backing_request(graphql) matches Some(r) ==> r.alias == Some(
            protocol::producer_field_entry(graphql).type_alias,
        ),
        resolver_request(graphql) matches Some(r) ==> r.alias == Some(
            protocol::producer_field_entry(graphql).type_alias,
        ),
        pubsub_request(op, path, repo_root) matches Some(r) ==> (protocol::pubsub_entry(
            op,
            path,
            sockets,
            repo_root,
        ) matches Some(e) ==> r.alias == Some(e.type_alias)),
        pubsub_inference(op, path, repo_root) matches Some(r) ==> (protocol::pubsub_entry(
            op,
            path,
            sockets,
            repo_root,
        ) matches Some(e) ==> r.alias == Some(e.type_alias)),
{
}

} // verus!
