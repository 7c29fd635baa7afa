//! What holds of the types that are asked for and of where they are captured.

use vstd::prelude::*;

use crate::cloud_storage::{CloudRepoData, InferKind, ManifestRole, ManifestTypeKind};
use crate::file_analysis::PubsubOperation;
use crate::operation::PubsubRole;
use crate::protocol::GraphqlOp;
use crate::type_compat_v2::StubPlan;
use crate::type_requests::{InferModel, SymbolModel};
use crate::type_sidecar::{AnchorModel, InferRequestItem, InlineAlias, SymbolRequest};
use crate::{paths, routing_laws, text, type_compat_v2, type_manifest, type_requests};

verus! {

// ---------------------------------------------------------------------------
// Paths from the root
// ---------------------------------------------------------------------------

/// A file below the root is known by what follows the root, however many slashes
/// the root ends with; a leading `./` does not count.
pub proof fn law_file_below_the_root(root: Seq<char>, slashes: Seq<char>, rest: Seq<char>)
    requires
        root.len() > 0,
        root != "."@,
        root[root.len() - 1] != '/',
        forall|i: int| 0 <= i < slashes.len() ==> #[trigger] slashes[i] == '/',
        !"./"@.is_prefix_of(rest),
    ensures
        type_compat_v2::repo_relative_spec(root + "/"@ + rest, root + slashes) == rest,
        type_compat_v2::repo_relative_spec(root + "/"@ + ("./"@ + rest), root + slashes) == rest,
{
    reveal_strlit("/");
    routing_laws::lemma_trim_slashes(root, slashes);
    let tail = "./"@ + rest;
    lemma_stripped(root, rest);
    lemma_stripped(root, tail);
    assert("./"@ =~= tail.subrange(0, "./"@.len() as int));
    assert(tail.skip("./"@.len() as int) =~= rest);
}

proof fn lemma_stripped(root: Seq<char>, rest: Seq<char>)
    ensures
        text::strip_prefix_spec(root + "/"@ + rest, root) == Some("/"@ + rest),
        text::strip_prefix_spec("/"@ + rest, "/"@) == Some(rest),
{
    let s = root + "/"@ + rest;
    assert(root =~= s.subrange(0, root.len() as int));
    assert(s.skip(root.len() as int) =~= "/"@ + rest);
    let t = "/"@ + rest;
    assert("/"@ =~= t.subrange(0, "/"@.len() as int));
    assert(t.skip("/"@.len() as int) =~= rest);
}

/// A file that is not below the root keeps its path.
pub proof fn law_file_elsewhere(root: Seq<char>, file: Seq<char>)
    requires
        root.len() > 0,
        root[root.len() - 1] != '/',
        !(root + "/"@).is_prefix_of(file),
        !"./"@.is_prefix_of(file),
    ensures
        type_compat_v2::repo_relative_spec(file, root) == file,
{
    let none = Seq::<char>::empty();
    routing_laws::lemma_trim_slashes(root, none);
    assert(root + none =~= root);
    if root.is_prefix_of(file) {
        let rest = file.skip(root.len() as int);
        assert(root =~= file.subrange(0, root.len() as int));
        if "/"@.is_prefix_of(rest) {
            let n = (root.len() + "/"@.len()) as int;
            assert("/"@ =~= rest.subrange(0, "/"@.len() as int));
            assert(root + "/"@ =~= file.subrange(0, n));
        }
    }
}

// ---------------------------------------------------------------------------
// Anchors
// ---------------------------------------------------------------------------

/// A request for a symbol asks under its alias for that symbol, in its file.
pub proof fn law_symbol_anchor(request: SymbolRequest, repo_root: Seq<char>)
    ensures
        match type_compat_v2::symbol_candidate(request, repo_root) {
            Some(AnchorModel::Symbol { alias, symbol_name, source_file, array_depth, .. }) => {
                &&& request.alias matches Some(a) && alias == a@
                &&& symbol_name == request.symbol_name@
                &&& source_file == type_compat_v2::repo_relative_spec(
                    request.source_file@,
                    repo_root,
                )
                &&& array_depth matches Some(d) ==> d > 0 && request.array_depth == Some(d)
                &&& array_depth is None ==> (request.array_depth matches Some(d) ==> d == 0)
            },
            Some(_) => false,
            None => request.alias is None,
        },
{
}

/// A request to infer a type asks under its alias for the place: the line of the
/// expression before the line of the request, and neither where it is not known.
pub proof fn law_infer_anchor(request: InferRequestItem, repo_root: Seq<char>)
    ensures
        match type_compat_v2::infer_candidate(request, repo_root) {
            Some(
                AnchorModel::Infer {
                    alias,
                    source_file,
                    span_start,
                    span_end,
                    line_number,
                    expression_text,
                    ..
                },
            ) => {
                &&& request.alias matches Some(a) && alias == a@
                &&& source_file == type_compat_v2::repo_relative_spec(request.file_path@, repo_root)
                &&& span_start == request.span_start
                &&& span_end == request.span_end
                &&& expression_text == request.expression_text.deep_view()
                &&& (request.expression_line matches Some(l) && l > 0) ==> line_number
                    == request.expression_line
                &&& !(request.expression_line matches Some(l) && l > 0) && request.line_number > 0
                    ==> line_number == Some(request.line_number)
                &&& !(request.expression_line matches Some(l) && l > 0) && request.line_number == 0
                    ==> line_number is None
            },
            Some(_) => false,
            None => request.alias is None,
        },
{
}

/// A literal type asks under its alias for its own text, unless it is blank.
pub proof fn law_literal_anchor(inline: InlineAlias)
    ensures
        match type_compat_v2::inline_candidate(inline) {
            Some(AnchorModel::Literal { alias, type_text, .. }) => alias == inline.alias@
                && type_text == inline.type_text@ && text::trim_spec(inline.type_text@).len() > 0,
            Some(_) => false,
            None => text::trim_spec(inline.type_text@).len() == 0,
        },
{
}

/// A symbol is asked for before an inference, and an inference before a literal.
pub proof fn law_order_of_anchors(
    explicit: Seq<SymbolRequest>,
    infer: Seq<InferRequestItem>,
    inline_aliases: Seq<InlineAlias>,
    repo_root: Seq<char>,
)
    ensures
        ({
            let r = type_compat_v2::anchor_candidates(explicit, infer, inline_aliases, repo_root);
            let n = explicit.len();
            let m = n + infer.len();
            &&& r.len() == m + inline_aliases.len()
            &&& forall|i: int|
                0 <= i < n ==> #[trigger] r[i] == type_compat_v2::symbol_candidate(
                    explicit[i],
                    repo_root,
                )
            &&& forall|i: int|
                n <= i < m ==> #[trigger] r[i] == type_compat_v2::infer_candidate(
                    infer[i - n],
                    repo_root,
                )
            &&& forall|i: int|
                m <= i < r.len() ==> #[trigger] r[i] == type_compat_v2::inline_candidate(
                    inline_aliases[i - m],
                )
        }),
{
}

// ---------------------------------------------------------------------------
// Requests
// ---------------------------------------------------------------------------

/// A type is asked for by its name, in the file that it is imported from, else in
/// the file of the operation; without a name nothing is asked.
pub proof fn law_named_request(
    symbol: Option<String>,
    source: Option<String>,
    file: Seq<char>,
    key: crate::operation::KeyModel,
    role: ManifestRole,
)
    ensures
        match type_requests::plain_request(symbol, source, file, key, role) {
            Some(SymbolModel { symbol_name, source_file, alias, array_depth }) => {
                &&& symbol matches Some(s) && symbol_name == s@
                &&& source matches Some(f) ==> source_file == f@
                &&& source is None ==> source_file == file
                &&& alias == Some(
                    type_manifest::type_alias_spec(key, role, ManifestTypeKind::Response, None),
                )
                &&& array_depth is None
            },
            None => symbol is None,
        },
{
}

/// The return type of a located resolver is inferred at its own file and line;
/// without either nothing is asked.
pub proof fn law_resolver_request(op: GraphqlOp)
    ensures
        match type_requests::resolver_request(op) {
            Some(r) => {
                &&& op.resolver_file matches Some(f) && r.file_path == f@
                &&& op.resolver_line matches Some(l) && r.line_number == l
                &&& r.infer_kind == InferKind::FunctionReturn
                &&& r.span_start is None && r.span_end is None
                &&& r.expression_text is None && r.param_name is None
            },
            None => op.resolver_file is None || op.resolver_line is None,
        },
{
}

/// Whether the text of a payload locates it: it is not blank and does not hold
/// the topic.
pub open spec fn locates(op: PubsubOperation) -> bool {
    op.payload_expression_text matches Some(t) && text::trim_spec(t@).len() > 0 && !text::has_text(
        t@,
        op.topic@,
    )
}

/// The payload of a publisher is inferred from the expression that is sent, that
/// of a subscriber from the parameter of its handler, at the line of the payload
/// where it is known.
pub proof fn law_payload_inference(op: PubsubOperation, path: Seq<char>, repo_root: Seq<char>)
    ensures
        match type_requests::pubsub_inference(op, path, repo_root) {
            Some(r) => is_payload_of(r, op, path),
            None => op.role is None || !locates(op),
        },
{
}

/// Whether an inference is that of the payload of an operation.
pub open spec fn is_payload_of(r: InferModel, op: PubsubOperation, path: Seq<char>) -> bool {
    &&& locates(op)
    &&& r.file_path == path
    &&& r.line_number == if op.line_number >= 1 {
        op.line_number as int
    } else {
        1
    }
    &&& (op.payload_expression_line matches Some(l) && l > 0) ==> (r.expression_line matches Some(m)
        && m == op.payload_expression_line->0)
    &&& !(op.payload_expression_line matches Some(l) && l > 0) ==> r.expression_line == Some(
        r.line_number,
    )
    &&& op.role == Some(PubsubRole::Publisher) ==> r.infer_kind == InferKind::Expression
        && r.expression_text == op.payload_expression_text.deep_view() && r.param_name is None
    &&& op.role == Some(PubsubRole::Subscriber) ==> r.infer_kind == InferKind::FunctionParam
        && r.param_name == op.payload_expression_text.deep_view() && r.expression_text is None
    &&& op.role is Some
}

/// The values that are there are all kept, in their order, and nothing else is.
pub proof fn law_present<M>(before: Seq<Option<M>>, x: Option<M>)
    ensures
        type_requests::present(before.push(x)) == match x {
            Some(v) => type_requests::present(before).push(v),
            None => type_requests::present(before),
        },
        type_requests::present(Seq::<Option<M>>::empty()).len() == 0,
{
    assert(before.push(x).drop_last() =~= before);
}

// ---------------------------------------------------------------------------
// Stubs
// ---------------------------------------------------------------------------

/// Whether a place is among the positions.
pub open spec fn is_position(positions: Seq<int>, i: int) -> bool {
    exists|k: int| 0 <= k < positions.len() && #[trigger] positions[k] == i
}

/// Every service with a captured surface of this version is laid out, and no
/// other is.
pub proof fn law_stub_positions(repos: Seq<CloudRepoData>, i: int)
    ensures
        is_position(type_compat_v2::stub_positions(repos), i) <==> 0 <= i < repos.len()
            && type_compat_v2::has_surface(repos[i]),
    decreases repos.len(),
{
    let r = type_compat_v2::stub_positions(repos);
    if repos.len() > 0 {
        let front = repos.drop_last();
        let before = type_compat_v2::stub_positions(front);
        let n = repos.len() - 1;
        law_stub_positions(front, i);
        if is_position(before, i) {
            let k = choose|k: int| 0 <= k < before.len() && #[trigger] before[k] == i;
            assert(r[k] == i);
        }
        if is_position(r, i) {
            let k = choose|k: int| 0 <= k < r.len() && #[trigger] r[k] == i;
            if k < before.len() {
                assert(before[k] == i);
            }
        }
        if i == n && type_compat_v2::has_surface(repos[i]) {
            assert(r[before.len() as int] == i);
        }
    }
}

/// A stub is laid out under the root for the service it is of.
pub proof fn law_stub_of_its_service(
    plan: Seq<StubPlan>,
    repos: Seq<CloudRepoData>,
    dest_root: Seq<char>,
    i: int,
)
    requires
        type_compat_v2::is_stub_plan(plan, repos, dest_root),
        0 <= i < plan.len(),
    ensures
        match repos[plan[i].position as int].service_name {
            Some(name) => plan[i].service_name@ == name@,
            None => plan[i].service_name@ == repos[plan[i].position as int].repo_name@,
        },
        exists|stem: Seq<char>|
            plan[i].stub_dir@ == #[trigger] paths::joined_path(dest_root, stem),
{
    assert(plan[i].position == type_compat_v2::stub_positions(repos)[i]);
}

} // verus!
