//! What holds of the projection that an evaluation prints.

use vstd::prelude::*;

use crate::analyzer::{DependencyConflict, MatchedEdge, RepoPackageInfo};
use crate::cloud_storage::{
    ApiEndpointDetails, ManifestRole, ManifestTypeKind, ManifestTypeState, TypeManifestEntry,
};
use crate::eval_output::{EvalOpModel, SiteModel, Wanted};
use crate::operation::KeyModel;
use crate::{eval_output, operation, sorting, text, text_laws};

verus! {

// ---------------------------------------------------------------------------
// Files and lines
// ---------------------------------------------------------------------------

/// Whether one path is the other behind some directories.
pub open spec fn is_behind(long: Seq<char>, short: Seq<char>) -> bool {
    exists|dirs: Seq<char>| long == #[trigger] (dirs + "/"@) + short || long == (dirs + "\\"@) + short
}

/// Two paths are of the same file exactly where they are equal, or one is the
/// other behind some directories; an empty path is of none.
pub proof fn law_same_file(a: Seq<char>, b: Seq<char>)
    ensures
        eval_output::same_file(a, b) <==> a.len() > 0 && b.len() > 0 && (a == b || is_behind(a, b)
            || is_behind(b, a)),
{
    lemma_behind(a, b);
    lemma_behind(b, a);
}

proof fn lemma_behind(long: Seq<char>, short: Seq<char>)
    ensures
        eval_output::aligned_suffix(long, short) == is_behind(long, short),
{
    reveal_strlit("/");
    reveal_strlit("\\");
    if eval_output::aligned_suffix(long, short) {
        let n = long.len() - short.len();
        let dirs = long.take(n - 1);
        assert(short =~= long.subrange(n, long.len() as int));
        if long[n - 1] == '/' {
            assert(long =~= (dirs + "/"@) + short);
        } else {
            assert(long =~= (dirs + "\\"@) + short);
            assert((dirs + "/"@).len() == dirs.len() + 1);
        }
    }
    if is_behind(long, short) {
        let dirs = choose|dirs: Seq<char>|
            long == #[trigger] (dirs + "/"@) + short || long == (dirs + "\\"@) + short;
        assert(short =~= long.subrange(long.len() - short.len(), long.len() as int));
        assert(long[dirs.len() as int] == '/' || long[dirs.len() as int] == '\\');
    }
}

/// A file and a line are read back from the location that names them.
pub proof fn law_location_read_back(file: Seq<char>, line: u32)
    ensures
        eval_output::location_spec(file + ":"@ + text::decimal(line as nat)) == (file, line),
{
    reveal_strlit(":");
    let number = text::decimal(line as nat);
    let location = file + ":"@ + number;
    text_laws::law_decimal_read_back(line as nat);
    text::lemma_last_index(location, ':');
    let i = text::last_index(location, ':');
    assert(location[file.len() as int] == ':');
    if i > file.len() {
        assert(location[i] == number[i - file.len() - 1]);
    }
    assert(i == file.len());
    assert(location.take(i) =~= file);
    assert(location.skip(i + 1) =~= number);
    assert('0' <= number[0] <= '9');
}

/// A location without a colon is a file, and its line is not known.
pub proof fn law_location_without_line(location: Seq<char>)
    requires
        !location.contains(':'),
    ensures
        eval_output::location_spec(location) == (location, 0u32),
{
    text::lemma_last_index(location, ':');
    if text::last_index(location, ':') >= 0 {
        assert(location.contains(location[text::last_index(location, ':')]));
    }
}

// ---------------------------------------------------------------------------
// The entry of an operation
// ---------------------------------------------------------------------------

/// How far an entry is from a line.
pub open spec fn distance(e: TypeManifestEntry, line: u32) -> nat {
    if e.line_number < line {
        (line - e.line_number) as nat
    } else {
        (e.line_number - line) as nat
    }
}

/// Whether the entry in the place is the first of the nearest that are wanted.
pub open spec fn is_nearest(
    entries: Seq<TypeManifestEntry>,
    site: SiteModel,
    wanted: Wanted,
    line: u32,
    i: int,
) -> bool {
    &&& 0 <= i < entries.len()
    &&& is_eligible(entries[i], site, wanted)
    &&& forall|j: int|
        0 <= j < entries.len() && is_eligible(#[trigger] entries[j], site, wanted) ==> distance(
            entries[i],
            line,
        ) <= distance(entries[j], line)
    &&& forall|j: int|
        0 <= j < i && is_eligible(#[trigger] entries[j], site, wanted) ==> distance(
            entries[i],
            line,
        ) < distance(entries[j], line)
}

/// Whether an entry is of the operation and the role, in the file where the site
/// is confined to one, and of the wanted kind with a definition.
pub open spec fn is_eligible(e: TypeManifestEntry, site: SiteModel, wanted: Wanted) -> bool {
    &&& operation::canonical_spec(e.key@) == site.key
    &&& e.role == site.role
    &&& site.restricted ==> eval_output::same_file(e.file_path@, site.file)
    &&& wanted == Wanted::DefinedResponse ==> e.type_kind == ManifestTypeKind::Response && (
    e.resolved_definition is Some || e.expanded_definition is Some)
    &&& wanted == Wanted::DefinedRequest ==> e.type_kind == ManifestTypeKind::Request && (
    e.resolved_definition is Some || e.expanded_definition is Some)
}

/// The entry that is picked is the first of the nearest to the line, and one is
/// picked wherever there is one.
pub proof fn law_nearest(
    entries: Seq<TypeManifestEntry>,
    site: SiteModel,
    wanted: Wanted,
    line: u32,
)
    ensures
        match eval_output::nearest(entries, site, wanted, line) {
            Some(e) => exists|i: int| #[trigger]
                is_nearest(entries, site, wanted, line, i) && entries[i] == e,
            None => forall|j: int|
                0 <= j < entries.len() ==> !is_eligible(#[trigger] entries[j], site, wanted),
        },
    decreases entries.len(),
{
    if entries.len() > 0 {
        let front = entries.drop_last();
        let n = entries.len() - 1;
        let last = entries.last();
        law_nearest(front, site, wanted, line);
        assert(is_eligible(last, site, wanted) == (eval_output::at_site(last, site)
            && eval_output::is_wanted(last, wanted)));
        match eval_output::nearest(front, site, wanted, line) {
            Some(b) => {
                let i = choose|i: int| #[trigger]
                    is_nearest(front, site, wanted, line, i) && front[i] == b;
                let at = if is_eligible(last, site, wanted) && distance(last, line) < distance(
                    b,
                    line,
                ) {
                    n
                } else {
                    i
                };
                assert forall|j: int|
                    0 <= j < entries.len() && is_eligible(
                        #[trigger] entries[j],
                        site,
                        wanted,
                    ) implies distance(entries[at], line) <= distance(entries[j], line) by {
                    if j < n {
                        assert(front[j] == entries[j]);
                    }
                }
                assert forall|j: int|
                    0 <= j < at && is_eligible(#[trigger] entries[j], site, wanted) implies distance(
                    entries[at],
                    line,
                ) < distance(entries[j], line) by {
                    assert(front[j] == entries[j]);
                }
                assert(entries[i] == front[i]);
                assert(is_nearest(entries, site, wanted, line, at));
            },
            None => {
                if is_eligible(last, site, wanted) {
                    assert forall|j: int|
                        0 <= j < entries.len() && is_eligible(
                            #[trigger] entries[j],
                            site,
                            wanted,
                        ) implies j == n by {
                        if j < n {
                            assert(front[j] == entries[j]);
                        }
                    }
                    assert(is_nearest(entries, site, wanted, line, n));
                } else {
                    assert forall|j: int| 0 <= j < entries.len() implies !is_eligible(
                        #[trigger] entries[j],
                        site,
                        wanted,
                    ) by {
                        if j < n {
                            assert(front[j] == entries[j]);
                        }
                    }
                }
            },
        }
    }
}

/// Whether some entry is eligible.
pub open spec fn some_eligible(
    entries: Seq<TypeManifestEntry>,
    site: SiteModel,
    wanted: Wanted,
) -> bool {
    exists|j: int| 0 <= j < entries.len() && is_eligible(#[trigger] entries[j], site, wanted)
}

/// The best that the entries have: a response with a definition, else a request
/// with one, else any.
pub open spec fn most_wanted(entries: Seq<TypeManifestEntry>, site: SiteModel) -> Wanted {
    if some_eligible(entries, site, Wanted::DefinedResponse) {
        Wanted::DefinedResponse
    } else if some_eligible(entries, site, Wanted::DefinedRequest) {
        Wanted::DefinedRequest
    } else {
        Wanted::Any
    }
}

/// A response with a definition comes before a request with one, and that before
/// any other entry.
pub proof fn law_response_before_request(
    entries: Seq<TypeManifestEntry>,
    site: SiteModel,
    line: u32,
)
    ensures
        match eval_output::chosen_entry(entries, site, line) {
            Some(e) => exists|i: int| #[trigger]
                is_nearest(entries, site, most_wanted(entries, site), line, i) && entries[i] == e,
            None => !some_eligible(entries, site, Wanted::Any),
        },
{
    law_nearest(entries, site, Wanted::DefinedResponse, line);
    law_nearest(entries, site, Wanted::DefinedRequest, line);
    law_nearest(entries, site, Wanted::Any, line);
    if let Some(e) = eval_output::nearest(entries, site, Wanted::DefinedResponse, line) {
        let i = choose|i: int| #[trigger]
            is_nearest(entries, site, Wanted::DefinedResponse, line, i) && entries[i] == e;
        assert(is_eligible(entries[i], site, Wanted::DefinedResponse));
    }
    if let Some(e) = eval_output::nearest(entries, site, Wanted::DefinedRequest, line) {
        let i = choose|i: int| #[trigger]
            is_nearest(entries, site, Wanted::DefinedRequest, line, i) && entries[i] == e;
        assert(is_eligible(entries[i], site, Wanted::DefinedRequest));
    }
}

/// A site is confined to the operation's file exactly where an entry of the
/// operation stands in it.
pub proof fn law_confined_to_the_file(
    entries: Seq<TypeManifestEntry>,
    key: Seq<char>,
    role: ManifestRole,
    file: Seq<char>,
)
    ensures
        ({
            let site = eval_output::site_of(entries, key, role, file);
            &&& site.key == key && site.role == role && site.file == file
            &&& site.restricted <==> exists|i: int|
                0 <= i < entries.len() && (#[trigger] entries[i]).role == role
                    && operation::canonical_spec(entries[i].key@) == key && eval_output::same_file(
                    entries[i].file_path@,
                    file,
                )
        }),
{
    if eval_output::any_in_file(entries, key, role, file) {
        let i = choose|i: int|
            0 <= i < entries.len() && eval_output::in_slot(#[trigger] entries[i], key, role)
                && eval_output::same_file(entries[i].file_path@, file);
        assert(entries[i].role == role);
    }
    if exists|i: int|
        0 <= i < entries.len() && (#[trigger] entries[i]).role == role && operation::canonical_spec(
            entries[i].key@,
        ) == key && eval_output::same_file(entries[i].file_path@, file) {
        let i = choose|i: int|
            0 <= i < entries.len() && (#[trigger] entries[i]).role == role
                && operation::canonical_spec(entries[i].key@) == key && eval_output::same_file(
                entries[i].file_path@,
                file,
            );
        assert(eval_output::in_slot(entries[i], key, role));
    }
}

// ---------------------------------------------------------------------------
// The projection
// ---------------------------------------------------------------------------

/// Whether a projected operation has the protocol, the method and the name of its
/// key.
pub open spec fn shows_key(op: EvalOpModel, key: KeyModel) -> bool {
    match key {
        KeyModel::Http { method, path } => op.protocol == "http"@ && op.method == Some(method)
            && op.path == Some(path) && op.key == "http|"@ + method + "|"@ + path,
        KeyModel::Graphql { field, .. } => op.protocol == "graphql"@ && op.method is None && op.path
            == Some(field),
        KeyModel::Socket { event, .. } => op.protocol == "socket"@ && op.method is None && op.path
            == Some(event),
        KeyModel::Pubsub { topic } => op.protocol == "pubsub"@ && op.method is None && op.path
            == Some(topic) && op.key == "pubsub|"@ + topic,
    }
}

/// Whether a projected operation has the type of an entry, each thing in its own
/// place.
pub open spec fn shows_type(op: EvalOpModel, e: TypeManifestEntry) -> bool {
    &&& op.type_alias == Some(e.type_alias@)
    &&& op.resolved_definition == e.resolved_definition.deep_view()
    &&& op.expanded_definition == e.expanded_definition.deep_view()
    &&& op.is_explicit == Some(e.is_explicit)
    &&& op.type_state == Some(
        if e.type_state == ManifestTypeState::Explicit {
            "Explicit"@
        } else if e.type_state == ManifestTypeState::Implicit {
            "Implicit"@
        } else {
            "Unknown"@
        },
    )
    &&& e.primary_type_symbol is Some ==> op.primary_type_symbol
        == e.primary_type_symbol.deep_view()
}

/// A projected operation shows its key, its place, its handler and its types, and
/// the type of the entry that is chosen for it.
pub proof fn law_projected_operation(
    d: ApiEndpointDetails,
    entries: Seq<TypeManifestEntry>,
    role: ManifestRole,
    file: Seq<char>,
    line: u32,
)
    requires
        d.file_path@ == file + ":"@ + text::decimal(line as nat),
    ensures
        ({
            let op = eval_output::eval_op_spec(d, entries, role);
            let site = eval_output::site_of(entries, operation::canonical_spec(d.key@), role, file);
            &&& shows_key(op, d.key@)
            &&& op.file == file
            &&& op.line == line
            &&& op.handler == d.handler_name.deep_view()
            &&& d.request_type matches Some(t) ==> op.request_type == Some(
                t.composite_type_string@,
            )
            &&& d.response_type matches Some(t) ==> op.response_type == Some(
                t.composite_type_string@,
            )
            &&& d.request_type is None ==> op.request_type is None
            &&& d.response_type is None ==> op.response_type is None
            &&& match eval_output::chosen_entry(entries, site, line) {
                Some(e) => shows_type(op, e),
                None => op.type_alias is None && op.type_state is None && op.resolved_definition
                    is None && op.expanded_definition is None && op.is_explicit is None
                    && op.primary_type_symbol is None,
            }
        }),
{
    law_location_read_back(file, line);
}

/// Whether an operation of a protocol other than HTTP is attributed and has the
/// same text form.
pub open spec fn counts(d: ApiEndpointDetails, key: Seq<char>) -> bool {
    &&& !(d.key@ is Http)
    &&& operation::canonical_spec(d.key@) == key
    &&& d.service_name is Some || d.repo_name is Some
}

/// The name of the service, or else of the repository, of an operation.
pub open spec fn is_owner(d: ApiEndpointDetails, owner: Seq<char>) -> bool {
    match d.service_name {
        Some(s) => s@ == owner,
        None => d.repo_name matches Some(s) && s@ == owner,
    }
}

/// Whether one of the operations counts.
pub open spec fn some_counts(ops: Seq<ApiEndpointDetails>, key: Seq<char>) -> bool {
    exists|i: int| 0 <= i < ops.len() && counts(#[trigger] ops[i], key)
}

/// Whether all the operations that count are of the owner.
pub open spec fn all_owned(ops: Seq<ApiEndpointDetails>, key: Seq<char>, owner: Seq<char>) -> bool {
    forall|i: int| 0 <= i < ops.len() && counts(#[trigger] ops[i], key) ==> is_owner(ops[i], owner)
}

/// An operation is left out exactly where its owner both produces and consumes
/// it, and nobody else does either.
pub proof fn law_loops(
    d: ApiEndpointDetails,
    endpoints: Seq<ApiEndpointDetails>,
    calls: Seq<ApiEndpointDetails>,
    owner: Seq<char>,
)
    requires
        is_owner(d, owner),
    ensures
        ({
            let key = operation::canonical_spec(d.key@);
            eval_output::is_self_loop(d, endpoints, calls) <==> some_counts(endpoints, key)
                && some_counts(calls, key) && all_owned(endpoints, key, owner) && all_owned(
                calls,
                key,
                owner,
            )
        }),
{
    let key = operation::canonical_spec(d.key@);
    lemma_counts(endpoints, key, owner);
    lemma_counts(calls, key, owner);
}

proof fn lemma_counts(ops: Seq<ApiEndpointDetails>, key: Seq<char>, owner: Seq<char>)
    ensures
        eval_output::some_vote(ops, key) == some_counts(ops, key),
        eval_output::votes_only_for(ops, key, owner) == all_owned(ops, key, owner),
{
    if eval_output::some_vote(ops, key) {
        let i = choose|i: int| 0 <= i < ops.len() && eval_output::votes(#[trigger] ops[i], key);
        assert(counts(ops[i], key));
    }
    if some_counts(ops, key) {
        let i = choose|i: int| 0 <= i < ops.len() && counts(#[trigger] ops[i], key);
        assert(eval_output::votes(ops[i], key));
    }
    if eval_output::votes_only_for(ops, key, owner) {
        assert forall|i: int| 0 <= i < ops.len() && counts(#[trigger] ops[i], key) implies is_owner(
            ops[i],
            owner,
        ) by {
            assert(eval_output::votes(ops[i], key));
        }
    }
    if all_owned(ops, key, owner) {
        assert forall|i: int|
            0 <= i < ops.len() && eval_output::votes(
                #[trigger] ops[i],
                key,
            ) implies eval_output::attribution(ops[i]) == Some(owner) by {
            assert(counts(ops[i], key));
        }
    }
}

/// What is printed of a side are its operations without the loops, in their
/// order.
pub proof fn law_projected_side(
    ops: Seq<ApiEndpointDetails>,
    endpoints: Seq<ApiEndpointDetails>,
    calls: Seq<ApiEndpointDetails>,
    manifest: Seq<TypeManifestEntry>,
    role: ManifestRole,
)
    ensures
        eval_output::projected_ops(ops, endpoints, calls, manifest, role) == ops.filter(
            |d: ApiEndpointDetails| !eval_output::is_self_loop(d, endpoints, calls),
        ).map_values(|d: ApiEndpointDetails| eval_output::eval_op_spec(d, manifest, role)),
    decreases ops.len(),
{
    reveal(Seq::filter);
    let keep = |d: ApiEndpointDetails| !eval_output::is_self_loop(d, endpoints, calls);
    let show = |d: ApiEndpointDetails| eval_output::eval_op_spec(d, manifest, role);
    if ops.len() > 0 {
        let front = ops.drop_last();
        law_projected_side(front, endpoints, calls, manifest, role);
        let kept = front.filter(keep);
        if keep(ops.last()) {
            assert(ops.filter(keep) == kept.push(ops.last()));
            assert(kept.push(ops.last()).map_values(show) =~= kept.map_values(show).push(
                show(ops.last()),
            ));
        }
    } else {
        assert(ops.filter(keep).map_values(show) =~= Seq::empty());
    }
}

// ---------------------------------------------------------------------------
// Matches and conflicts
// ---------------------------------------------------------------------------

/// A match shows the producer and the consumer of its edge, each in its own
/// place, and what was found of the two.
pub proof fn law_projected_match(m: MatchedEdge)
    ensures
        ({
            let r = eval_output::match_spec(m);
            &&& r.producer_repo == m.producer_repo@
            &&& r.consumer_repo == m.consumer_repo@
            &&& r.producer_key == m.producer_key@
            &&& r.consumer_key == m.consumer_key@
            &&& r.type_compatible == m.type_compatible
            &&& m.mismatch_reason matches Some(reason) ==> r.mismatch_reason == Some(reason@)
            &&& m.mismatch_reason is None ==> r.mismatch_reason is None
        }),
{
}

/// A conflict shows its package, each version that a repository has once, in
/// order, and how severe it is.
pub proof fn law_projected_conflict(c: DependencyConflict, version: Seq<char>)
    ensures
        ({
            let r = eval_output::conflict_spec(c);
            &&& r.package == c.package_name@
            &&& r.versions.no_duplicates()
            &&& sorting::keys_ordered(r.versions)
            &&& r.versions.contains(version) <==> exists|i: int|
                0 <= i < c.repos@.len() && (#[trigger] c.repos@[i]).version@ == version
            &&& c.severity is Critical ==> r.severity == "critical"@
            &&& c.severity is Warning ==> r.severity == "warning"@
            &&& c.severity is Info ==> r.severity == "info"@
        }),
{
    let versions = c.repos@.map_values(|r: RepoPackageInfo| r.version@);
    sorting::law_distinct_texts(versions);
    let r = eval_output::conflict_spec(c).versions;
    assert(r.contains(version) <==> versions.contains(version));
    if versions.contains(version) {
        let i = choose|i: int| 0 <= i < versions.len() && versions[i] == version;
        assert(c.repos@[i].version@ == version);
    }
    if exists|i: int| 0 <= i < c.repos@.len() && (#[trigger] c.repos@[i]).version@ == version {
        let i = choose|i: int|
            0 <= i < c.repos@.len() && (#[trigger] c.repos@[i]).version@ == version;
        assert(versions[i] == version);
    }
}

/// Whether the entry in the place is the first of the site that names a symbol.
pub open spec fn names_first(entries: Seq<TypeManifestEntry>, site: SiteModel, i: int) -> bool {
    &&& 0 <= i < entries.len()
    &&& is_eligible(entries[i], site, Wanted::Any)
    &&& entries[i].primary_type_symbol is Some
    &&& forall|j: int|
        0 <= j < i && is_eligible(#[trigger] entries[j], site, Wanted::Any)
            ==> entries[j].primary_type_symbol is None
}

/// The symbol of a site is the first that one of its entries names.
pub proof fn law_symbol_of_a_site(entries: Seq<TypeManifestEntry>, site: SiteModel, i: int)
    requires
        names_first(entries, site, i),
    ensures
        eval_output::site_symbol(entries, site) == entries[i].primary_type_symbol,
    decreases entries.len(),
{
    let front = entries.drop_last();
    if i < front.len() {
        assert forall|j: int|
            0 <= j < i && is_eligible(
                #[trigger] front[j],
                site,
                Wanted::Any,
            ) implies front[j].primary_type_symbol is None by {
            assert(entries[j] == front[j]);
        }
        assert(front[i] == entries[i]);
        law_symbol_of_a_site(front, site, i);
    } else {
        assert forall|j: int|
            0 <= j < front.len() && is_eligible(
                #[trigger] front[j],
                site,
                Wanted::Any,
            ) implies front[j].primary_type_symbol is None by {
            assert(entries[j] == front[j]);
        }
        lemma_no_symbol(front, site);
        assert(is_eligible(entries[i], site, Wanted::Any));
    }
}

proof fn lemma_no_symbol(entries: Seq<TypeManifestEntry>, site: SiteModel)
    requires
        forall|j: int|
            0 <= j < entries.len() && is_eligible(#[trigger] entries[j], site, Wanted::Any)
                ==> entries[j].primary_type_symbol is None,
    ensures
        eval_output::site_symbol(entries, site) is None,
    decreases entries.len(),
{
    if entries.len() > 0 {
        let front = entries.drop_last();
        assert forall|j: int|
            0 <= j < front.len() && is_eligible(
                #[trigger] front[j],
                site,
                Wanted::Any,
            ) implies front[j].primary_type_symbol is None by {
            assert(entries[j] == front[j]);
        }
        lemma_no_symbol(front, site);
        let last = entries[entries.len() - 1];
        if eval_output::at_site(last, site) {
            assert(is_eligible(last, site, Wanted::Any));
        }
    }
}

} // verus!
