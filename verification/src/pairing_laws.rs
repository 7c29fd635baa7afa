//! What holds of the pairs that are checked and of what comes of the check.

use vstd::prelude::*;

use crate::cloud_storage::{
    CloudRepoData, ManifestRole, ManifestTypeKind, ManifestTypeState, TypeManifestEntry,
    CAPTURE_ARTIFACT_VERSION,
};
use crate::operation::{GraphqlOperationKind, KeyModel, SocketDirection};
use crate::sorting::Keyed;
use crate::type_compat_v2::{BuiltPair, PairModel, SideModel};
use crate::type_sidecar::{
    CheckReply, CheckVerdict, PairCheckOutcome, ProbeProtocol, ProbeTypeKind, VerdictBucket,
};
use crate::{sorting, text, type_compat_v2};

verus! {

// ---------------------------------------------------------------------------
// Which routes match
// ---------------------------------------------------------------------------

/// The route of the segments: each behind a slash.
pub open spec fn route_of(segments: Seq<Seq<char>>) -> Seq<char> {
    text::join_spec(seq![Seq::<char>::empty()] + segments, "/"@)
}

/// Whether the text can be a segment of a route in ASCII.
pub open spec fn is_segment(s: Seq<char>) -> bool {
    s.len() > 0 && !s.contains('/') && text::is_ascii_text(s)
}

/// Whether a segment stands for any value: `:id`, `{id}`, `[id]`, or with an
/// interpolation in it.
pub open spec fn is_any(s: Seq<char>) -> bool {
    ||| s[0] == ':'
    ||| s[0] == '{' && s[s.len() - 1] == '}'
    ||| s[0] == '[' && s[s.len() - 1] == ']'
    ||| exists|i: int| 0 <= i < s.len() - 1 && #[trigger] s[i] == '$' && s[i + 1] == '{'
}

proof fn lemma_interpolated(s: Seq<char>)
    ensures
        text::has_text(s, "${"@) <==> exists|i: int|
            0 <= i < s.len() - 1 && #[trigger] s[i] == '$' && s[i + 1] == '{',
{
    reveal_strlit("${");
    let p = "${"@;
    text::lemma_find_from(s, p, 0);
    if exists|i: int| 0 <= i < s.len() - 1 && #[trigger] s[i] == '$' && s[i + 1] == '{' {
        let i = choose|i: int| 0 <= i < s.len() - 1 && #[trigger] s[i] == '$' && s[i + 1] == '{';
        assert(s.subrange(i, i + 2) =~= p);
        assert(text::stands_at(s, p, i));
    }
    if text::has_text(s, p) {
        let i = text::find_from(s, p, 0)->0;
        assert(s.subrange(i, i + 2) == p);
        assert(s[i] == s.subrange(i, i + 2)[0]);
        assert(s[i + 1] == s.subrange(i, i + 2)[1]);
    }
}

proof fn lemma_lowered_segment(s: Seq<char>)
    requires
        is_segment(s),
    ensures
        is_segment(text::lowercase_text(s)),
        type_compat_v2::is_param_syntax(text::lowercase_text(s)) == is_any(s),
        type_compat_v2::is_param_syntax(text::lowercase_text(s)) ==> type_compat_v2::match_segment(
            text::lowercase_text(s),
        ) == ":param"@,
        !type_compat_v2::is_param_syntax(text::lowercase_text(s)) ==> text::lowercase_text(s)[0]
            != ':',
{
    let l = text::lowercase_text(s);
    assert(l =~= s.map_values(|c: char| text::ascii_lower(c)));
    assert forall|i: int| 0 <= i < s.len() implies #[trigger] l[i] == text::ascii_lower(s[i]) && l[i] as u32
        <= 127 && (l[i] == '/' <==> s[i] == '/') && (l[i] == ':' <==> s[i] == ':') && (l[i] == '{'
        <==> s[i] == '{') && (l[i] == '}' <==> s[i] == '}') && (l[i] == '[' <==> s[i] == '[') && (
    l[i] == ']' <==> s[i] == ']') && (l[i] == '$' <==> s[i] == '$') by {
        assert(s[i] as u32 <= 127);
    }
    assert forall|i: int| 0 <= i < l.len() implies l[i] != '/' by {
        assert(s.contains(s[i]));
    }
    lemma_interpolated(l);
    if exists|i: int| 0 <= i < s.len() - 1 && #[trigger] s[i] == '$' && s[i + 1] == '{' {
        let i = choose|i: int| 0 <= i < s.len() - 1 && #[trigger] s[i] == '$' && s[i + 1] == '{';
        assert(l[i] == '$' && l[i + 1] == '{');
    }
    if exists|i: int| 0 <= i < l.len() - 1 && #[trigger] l[i] == '$' && l[i + 1] == '{' {
        let i = choose|i: int| 0 <= i < l.len() - 1 && #[trigger] l[i] == '$' && l[i + 1] == '{';
        assert(s[i] == '$' && s[i + 1] == '{');
    }
    assert(l[l.len() - 1] == l.last());
}

proof fn lemma_lowered_route(segments: Seq<Seq<char>>)
    requires
        segments.len() > 0,
        forall|i: int| 0 <= i < segments.len() ==> is_segment(#[trigger] segments[i]),
    ensures
        text::is_ascii_text(route_of(segments)),
        text::lowercase_text(route_of(segments)) == route_of(
            segments.map_values(|s: Seq<char>| text::lowercase_text(s)),
        ),
    decreases segments.len(),
{
    reveal_strlit("/");
    assert("/"@ =~= seq!['/']);
    let lowered = segments.map_values(|s: Seq<char>| text::lowercase_text(s));
    let none = Seq::<char>::empty();
    let all = seq![none] + segments;
    let low = seq![none] + lowered;
    let front = segments.drop_last();
    let last = segments.last();
    assert(is_segment(segments[segments.len() - 1]));
    assert(all.drop_last() =~= seq![none] + front);
    assert(low.drop_last() =~= seq![none] + front.map_values(
        |s: Seq<char>| text::lowercase_text(s),
    ));
    let before = route_of(front);
    if front.len() == 0 {
        assert(front =~= Seq::empty());
        assert(all.drop_last() =~= seq![none]);
        assert(low.drop_last() =~= seq![none]);
        assert(before =~= none);
        assert(route_of(front.map_values(|s: Seq<char>| text::lowercase_text(s))) =~= none);
    } else {
        assert forall|i: int| 0 <= i < front.len() implies is_segment(#[trigger] front[i]) by {
            assert(front[i] == segments[i]);
        }
        lemma_lowered_route(front);
    }
    let r = route_of(segments);
    assert(r =~= before + "/"@ + last);
    assert(text::is_ascii_text(r));
    assert(text::lowercase_text(r) =~= text::ascii_lower_text(before) + "/"@
        + text::ascii_lower_text(last));
    assert(low.last() == text::lowercase_text(last));
    assert(route_of(lowered) =~= text::join_spec(low.drop_last(), "/"@) + "/"@ + low.last());
}

proof fn lemma_route_segments(segments: Seq<Seq<char>>)
    requires
        segments.len() > 0,
        forall|i: int| 0 <= i < segments.len() ==> is_segment(#[trigger] segments[i]),
    ensures
        text::split_spec(type_compat_v2::normalized_path(route_of(segments)), '/') == seq![
            Seq::<char>::empty(),
        ] + segments.map_values(
            |s: Seq<char>| type_compat_v2::match_segment(text::lowercase_text(s)),
        ),
{
    reveal_strlit("/");
    reveal_strlit("${");
    assert("/"@ =~= seq!['/']);
    let none = Seq::<char>::empty();
    let lowered = segments.map_values(|s: Seq<char>| text::lowercase_text(s));
    let all = seq![none] + lowered;
    let route = route_of(lowered);
    lemma_lowered_route(segments);
    assert forall|i: int| 0 <= i < all.len() implies !(#[trigger] all[i]).contains('/') && (i > 0
        ==> all[i].len() > 0) by {
        if i > 0 {
            assert(all[i] == text::lowercase_text(segments[i - 1]));
            lemma_lowered_segment(segments[i - 1]);
        }
    }
    type_compat_v2::lemma_join_path(all);
    assert(all.last() == all[all.len() - 1]);
    assert(route.len() > 1 ==> route.last() != '/');
    assert(type_compat_v2::without_trailing_slashes(route) == route);
    type_compat_v2::lemma_slashes_stay(route);
    text::lemma_split_join(all, '/');
    type_compat_v2::law_match_segments(route);
    type_compat_v2::lemma_match_segment(none);
    let found = type_compat_v2::match_segments(route);
    assert(found =~= seq![none] + segments.map_values(
        |s: Seq<char>| type_compat_v2::match_segment(text::lowercase_text(s)),
    ));
}

proof fn lemma_same_letters(a: Seq<char>, b: Seq<char>)
    requires
        text::is_ascii_text(a),
        text::is_ascii_text(b),
    ensures
        text::lowercase_text(a) == text::lowercase_text(b) <==> text::same_ignoring_ascii_case(a, b),
{
    let la = text::ascii_lower_text(a);
    let lb = text::ascii_lower_text(b);
    let ua = a.map_values(|c: char| text::ascii_upper(c));
    let ub = b.map_values(|c: char| text::ascii_upper(c));
    if la == lb {
        assert(la.len() == lb.len());
        assert forall|i: int| 0 <= i < a.len() implies ua[i] == ub[i] by {
            assert(la[i] == lb[i]);
            assert(a[i] as u32 <= 127 && b[i] as u32 <= 127);
        }
        assert(ua =~= ub);
    }
    if ua == ub {
        assert(ua.len() == ub.len());
        assert forall|i: int| 0 <= i < a.len() implies la[i] == lb[i] by {
            assert(ua[i] == ub[i]);
            assert(a[i] as u32 <= 127 && b[i] as u32 <= 127);
        }
        assert(la =~= lb);
    }
}

/// Two routes match exactly where they have as many segments, and in each place
/// the same text up to the case of letters, or on either side a segment that
/// stands for any value.
pub proof fn law_routes_match_by_segments(a: Seq<Seq<char>>, b: Seq<Seq<char>>)
    requires
        a.len() > 0,
        b.len() > 0,
        forall|i: int| 0 <= i < a.len() ==> is_segment(#[trigger] a[i]),
        forall|i: int| 0 <= i < b.len() ==> is_segment(#[trigger] b[i]),
    ensures
        type_compat_v2::paths_match_spec(route_of(a), route_of(b)) <==> a.len() == b.len()
            && forall|i: int|
            0 <= i < a.len() ==> text::same_ignoring_ascii_case(#[trigger] a[i], #[trigger] b[i])
                || is_any(a[i]) || is_any(b[i]),
{
    reveal_strlit(":param");
    let na = type_compat_v2::normalized_path(route_of(a));
    let nb = type_compat_v2::normalized_path(route_of(b));
    let sa = text::split_spec(na, '/');
    let sb = text::split_spec(nb, '/');
    lemma_route_segments(a);
    lemma_route_segments(b);
    assert forall|i: int| 0 <= i < a.len() && i < b.len() implies (
    type_compat_v2::segments_match(sa[i + 1], sb[i + 1]) <==> (text::same_ignoring_ascii_case(
        #[trigger] a[i],
        #[trigger] b[i],
    ) || is_any(a[i]) || is_any(b[i]))) by {
        assert(sa[i + 1] == type_compat_v2::match_segment(text::lowercase_text(a[i])));
        assert(sb[i + 1] == type_compat_v2::match_segment(text::lowercase_text(b[i])));
        lemma_lowered_segment(a[i]);
        lemma_lowered_segment(b[i]);
        lemma_same_letters(a[i], b[i]);
    }
    if type_compat_v2::paths_match_spec(route_of(a), route_of(b)) {
        assert(sa.len() == sb.len());
        assert forall|i: int| 0 <= i < a.len() implies text::same_ignoring_ascii_case(
            #[trigger] a[i],
            #[trigger] b[i],
        ) || is_any(a[i]) || is_any(b[i]) by {
            assert(type_compat_v2::segments_match(sa[i + 1], sb[i + 1]));
        }
    }
    if a.len() == b.len() && forall|i: int|
        0 <= i < a.len() ==> text::same_ignoring_ascii_case(#[trigger] a[i], #[trigger] b[i])
            || is_any(a[i]) || is_any(b[i]) {
        assert forall|i: int| 0 <= i < sa.len() implies type_compat_v2::segments_match(
            #[trigger] sa[i],
            #[trigger] sb[i],
        ) by {
            if i > 0 {
                assert(text::same_ignoring_ascii_case(a[i - 1], b[i - 1]) || is_any(a[i - 1])
                    || is_any(b[i - 1]));
            }
        }
    }
}

// ---------------------------------------------------------------------------
// Which entries are joined
// ---------------------------------------------------------------------------

/// The name that a record's entries are attributed to.
pub open spec fn service_of(repo: CloudRepoData) -> Seq<char> {
    match repo.service_name {
        Some(name) => name@,
        None => repo.repo_name@,
    }
}

/// Whether a record carries a captured surface that this build can read.
pub open spec fn is_captured(repo: CloudRepoData) -> bool {
    repo.capture_stub is Some && repo.capture_stub->0.artifact_version == CAPTURE_ARTIFACT_VERSION
}

/// The place of a manifest entry: that of its record, and its own in the record's
/// manifest.
pub struct Place {
    pub repo: int,
    pub entry: int,
}

/// Whether an entry of the role stands in the place.
pub open spec fn stands(repos: Seq<CloudRepoData>, at: Place, role: ManifestRole) -> bool {
    &&& 0 <= at.repo < repos.len()
    &&& repos[at.repo].type_manifest is Some
    &&& 0 <= at.entry < repos[at.repo].type_manifest->0@.len()
    &&& entry_at(repos, at).role == role
}

/// The entry in the place.
pub open spec fn entry_at(repos: Seq<CloudRepoData>, at: Place) -> TypeManifestEntry {
    repos[at.repo].type_manifest->0@[at.entry]
}

/// Whether the consumer's operation is the producer's: the same kind of body,
/// and over HTTP the same method and a route that matches, otherwise the very
/// same operation.
pub open spec fn is_called(producer: TypeManifestEntry, consumer: TypeManifestEntry) -> bool {
    &&& producer.type_kind == consumer.type_kind
    &&& match (producer.key@, consumer.key@) {
        (KeyModel::Http { method: pm, path: pp }, KeyModel::Http { method: cm, path: cp }) => {
            &&& text::same_ignoring_ascii_case(pm, cm)
            &&& type_compat_v2::paths_match_spec(pp, cp)
        },
        (p, c) => p == c,
    }
}

/// Whether the two places hold a producer and a consumer of different services,
/// the one called by the other.
pub open spec fn is_edge(repos: Seq<CloudRepoData>, producer: Place, consumer: Place) -> bool {
    &&& stands(repos, producer, ManifestRole::Producer)
    &&& stands(repos, consumer, ManifestRole::Consumer)
    &&& service_of(repos[producer.repo]) != service_of(repos[consumer.repo])
    &&& is_called(entry_at(repos, producer), entry_at(repos, consumer))
}

/// How closely the producer's route fits the consumer's: letter for letter, up
/// to how parameters and case are written, or by a parameter.
pub open spec fn closeness(producer: TypeManifestEntry, consumer: TypeManifestEntry) -> int {
    match (producer.key@, consumer.key@) {
        (KeyModel::Http { path: pp, .. }, KeyModel::Http { path: cp, .. }) => if pp == cp {
            2
        } else if type_compat_v2::normalized_path(pp) == type_compat_v2::normalized_path(cp) {
            1
        } else {
            0
        },
        _ => 2,
    }
}

/// Whether no producer that the consumer calls fits it more closely.
pub open spec fn is_closest(repos: Seq<CloudRepoData>, producer: Place, consumer: Place) -> bool {
    &&& is_edge(repos, producer, consumer)
    &&& forall|other: Place| #[trigger]
        is_edge(repos, other, consumer) ==> closeness(
            entry_at(repos, other),
            entry_at(repos, consumer),
        ) <= closeness(entry_at(repos, producer), entry_at(repos, consumer))
}

/// The key of the pair of two entries.
pub open spec fn key_of(repos: Seq<CloudRepoData>, producer: Place, consumer: Place) -> Seq<char> {
    service_of(repos[producer.repo]) + "/"@ + entry_at(repos, producer).type_alias@ + "~"@
        + service_of(repos[consumer.repo]) + "/"@ + entry_at(repos, consumer).type_alias@
}

/// Whether the pair names both sides, each with its own service, alias and place.
pub open spec fn names_sides(
    repos: Seq<CloudRepoData>,
    pair: PairModel,
    producer: Place,
    consumer: Place,
) -> bool {
    let p = entry_at(repos, producer);
    let c = entry_at(repos, consumer);
    &&& pair.spec.pair_key == key_of(repos, producer, consumer)
    &&& pair.producer_service == service_of(repos[producer.repo])
    &&& pair.consumer_service == service_of(repos[consumer.repo])
    &&& pair.producer_alias == p.type_alias@
    &&& pair.consumer_alias == c.type_alias@
    &&& pair.consumer_file == c.file_path@
    &&& pair.consumer_line == c.line_number
    &&& pair.type_kind == p.type_kind
    &&& pair.type_kind == c.type_kind
    &&& pair.spec.producer.0 == pair.producer_service
    &&& pair.spec.producer.1 == pair.producer_alias
    &&& pair.spec.consumer.0 == pair.consumer_service
    &&& pair.spec.consumer.1 == pair.consumer_alias
}

/// Whether the pair is probed under the protocol of the producer's operation,
/// and joined by what the operation is called there.
pub open spec fn names_operation(pair: PairModel, key: KeyModel) -> bool {
    let kind = if pair.type_kind == ManifestTypeKind::Request {
        ProbeTypeKind::Request
    } else {
        ProbeTypeKind::Response
    };
    match key {
        KeyModel::Http { method, path } => {
            &&& pair.spec.protocol == ProbeProtocol::Http
            &&& pair.spec.type_kind == kind
            &&& pair.pseudo_method == text::uppercase_text(method)
            &&& pair.identity == path
        },
        KeyModel::Graphql { kind: root, field } => {
            &&& pair.spec.protocol == ProbeProtocol::Graphql
            &&& pair.spec.type_kind == kind
            &&& pair.pseudo_method == "GRAPHQL"@
            &&& root == GraphqlOperationKind::Query ==> pair.identity == "query"@ + "|"@ + field
            &&& root == GraphqlOperationKind::Mutation ==> pair.identity == "mutation"@ + "|"@
                + field
            &&& root == GraphqlOperationKind::Subscription ==> pair.identity == "subscription"@
                + "|"@ + field
        },
        KeyModel::Socket { event, direction } => {
            &&& pair.spec.protocol == ProbeProtocol::Socket
            &&& pair.spec.type_kind == ProbeTypeKind::Both
            &&& pair.pseudo_method == "SOCKET"@
            &&& direction == SocketDirection::ServerToClient ==> pair.identity
                == "SERVER->CLIENT"@ + "|"@ + event
            &&& direction == SocketDirection::ClientToServer ==> pair.identity
                == "CLIENT->SERVER"@ + "|"@ + event
        },
        KeyModel::Pubsub { topic } => {
            &&& pair.spec.protocol == ProbeProtocol::Pubsub
            &&& pair.spec.type_kind == ProbeTypeKind::Both
            &&& pair.pseudo_method == "PUBSUB"@
            &&& pair.identity == topic
        },
    }
}

/// Whether the pair is left to the probe exactly where both sides have a surface
/// and a type, and is unverifiable from the start otherwise, with the side that
/// is to blame.
pub open spec fn is_prejudged(
    repos: Seq<CloudRepoData>,
    pair: PairModel,
    producer: Place,
    consumer: Place,
) -> bool {
    let p = entry_at(repos, producer);
    let c = entry_at(repos, consumer);
    let surfaces = is_captured(repos[producer.repo]) && is_captured(repos[consumer.repo]);
    let typed = p.type_state != ManifestTypeState::Unknown && c.type_state
        != ManifestTypeState::Unknown;
    &&& (pair.pre_verdict is None) == (surfaces && typed)
    &&& pair.pre_verdict matches Some((bucket, reason)) ==> {
        &&& bucket == VerdictBucket::Unverifiable
        &&& !is_captured(repos[producer.repo]) ==> reason == "producer service '"@
            + pair.producer_service
            + "' has no v2 type surface (older scan or capture degraded) — re-scan it"@
        &&& is_captured(repos[producer.repo]) && !is_captured(repos[consumer.repo]) ==> reason
            == "consumer service '"@ + pair.consumer_service
            + "' has no v2 type surface (older scan or capture degraded) — re-scan it"@
        &&& surfaces && p.type_state == ManifestTypeState::Unknown ==> reason
            == "producer type was not resolved at capture time"@
        &&& surfaces && p.type_state != ManifestTypeState::Unknown ==> reason
            == "consumer type was not resolved at capture time"@
    }
}

/// Whether the pair joins the two entries: the producer is one of the closest
/// that the consumer calls.
pub open spec fn joins(
    repos: Seq<CloudRepoData>,
    pair: PairModel,
    producer: Place,
    consumer: Place,
) -> bool {
    &&& is_closest(repos, producer, consumer)
    &&& names_sides(repos, pair, producer, consumer)
    &&& names_operation(pair, entry_at(repos, producer).key@)
    &&& is_prejudged(repos, pair, producer, consumer)
}

/// Whether the pair joins two entries of the records.
pub open spec fn joins_entries(repos: Seq<CloudRepoData>, pair: PairModel) -> bool {
    exists|producer: Place, consumer: Place| #[trigger] joins(repos, pair, producer, consumer)
}

/// Whether one of the pairs has the key.
pub open spec fn has_pair(pairs: Seq<PairModel>, key: Seq<char>) -> bool {
    exists|i: int| 0 <= i < pairs.len() && (#[trigger] pairs[i]).spec.pair_key == key
}

/// Whether the pairs are those of the records: each joins a consumer with one of
/// the closest producers that it calls, each such producer has a pair with the
/// consumer, and every consumer that calls a producer of another service has a
/// pair.
pub open spec fn are_pairs_of(pairs: Seq<PairModel>, repos: Seq<CloudRepoData>) -> bool {
    &&& forall|i: int| 0 <= i < pairs.len() ==> joins_entries(repos, #[trigger] pairs[i])
    &&& forall|producer: Place, consumer: Place| #[trigger]
        is_closest(repos, producer, consumer) ==> has_pair(pairs, key_of(repos, producer, consumer))
    &&& forall|producer: Place, consumer: Place| #[trigger]
        is_edge(repos, producer, consumer) ==> exists|best: Place| #[trigger]
            is_closest(repos, best, consumer)
}

proof fn lemma_side_is_an_entry(
    entries: Seq<TypeManifestEntry>,
    service_id: Seq<char>,
    surface: bool,
    role: ManifestRole,
    side: SideModel,
)
    ensures
        type_compat_v2::sides_of(entries, service_id, surface, role).contains(side)
            <==> side.service_id == service_id && side.has_surface == surface && exists|i: int|
            0 <= i < entries.len() && (#[trigger] entries[i]) == side.entry && entries[i].role
                == role,
    decreases entries.len(),
{
    let all = type_compat_v2::sides_of(entries, service_id, surface, role);
    if entries.len() > 0 {
        let front = entries.drop_last();
        let before = type_compat_v2::sides_of(front, service_id, surface, role);
        lemma_side_is_an_entry(front, service_id, surface, role, side);
        if all.contains(side) {
            let k = choose|k: int| 0 <= k < all.len() && all[k] == side;
            if k < before.len() {
                assert(before[k] == side);
                let i = choose|i: int|
                    0 <= i < front.len() && (#[trigger] front[i]) == side.entry && front[i].role
                        == role;
                assert(entries[i] == side.entry);
            } else {
                assert(entries[entries.len() - 1] == side.entry);
            }
        }
        if side.service_id == service_id && side.has_surface == surface && exists|i: int|
            0 <= i < entries.len() && (#[trigger] entries[i]) == side.entry && entries[i].role
                == role {
            let i = choose|i: int|
                0 <= i < entries.len() && (#[trigger] entries[i]) == side.entry && entries[i].role
                    == role;
            if i < front.len() {
                assert(front[i] == side.entry);
                let k = choose|k: int| 0 <= k < before.len() && before[k] == side;
                assert(all[k] == side);
            } else {
                assert(all[before.len() as int] == side);
            }
        }
    }
}

/// Whether the side is that of the entry in the place.
pub open spec fn is_side(repos: Seq<CloudRepoData>, at: Place, side: SideModel) -> bool {
    &&& side.service_id == service_of(repos[at.repo])
    &&& side.has_surface == is_captured(repos[at.repo])
    &&& side.entry == entry_at(repos, at)
}

proof fn lemma_place_of(repos: Seq<CloudRepoData>, role: ManifestRole, side: SideModel) -> (at: Place)
    requires
        type_compat_v2::all_sides(repos, role).contains(side),
    ensures
        stands(repos, at, role),
        is_side(repos, at, side),
{
    type_compat_v2::lemma_side_is_of_a_repo(repos, role, side);
    let r = choose|r: int|
        0 <= r < repos.len() && type_compat_v2::repo_sides(#[trigger] repos[r], role).contains(side);
    let entries = repos[r].type_manifest->0@;
    lemma_side_is_an_entry(entries, service_of(repos[r]), is_captured(repos[r]), role, side);
    let i = choose|i: int|
        0 <= i < entries.len() && (#[trigger] entries[i]) == side.entry && entries[i].role == role;
    Place { repo: r, entry: i }
}

proof fn lemma_side_at(repos: Seq<CloudRepoData>, role: ManifestRole, at: Place) -> (side: SideModel)
    requires
        stands(repos, at, role),
    ensures
        type_compat_v2::all_sides(repos, role).contains(side),
        is_side(repos, at, side),
{
    let side = SideModel {
        service_id: service_of(repos[at.repo]),
        has_surface: is_captured(repos[at.repo]),
        entry: entry_at(repos, at),
    };
    let entries = repos[at.repo].type_manifest->0@;
    assert(entries[at.entry] == side.entry);
    lemma_side_is_an_entry(
        entries,
        service_of(repos[at.repo]),
        is_captured(repos[at.repo]),
        role,
        side,
    );
    assert(type_compat_v2::repo_sides(repos[at.repo], role).contains(side));
    type_compat_v2::lemma_side_is_of_a_repo(repos, role, side);
    side
}

proof fn lemma_score(producer: SideModel, consumer: SideModel)
    ensures
        type_compat_v2::pair_score(producer, consumer) is Some <==> producer.service_id
            != consumer.service_id && is_called(producer.entry, consumer.entry),
        type_compat_v2::pair_score(producer, consumer) matches Some(s) ==> s == (if closeness(
            producer.entry,
            consumer.entry,
        ) == 2 {
            100u8
        } else if closeness(producer.entry, consumer.entry) == 1 {
            95u8
        } else {
            90u8
        }),
        0 <= closeness(producer.entry, consumer.entry) <= 2,
{
}

proof fn lemma_best_is_closest(
    repos: Seq<CloudRepoData>,
    producer: SideModel,
    consumer: SideModel,
    p: Place,
    c: Place,
)
    requires
        type_compat_v2::all_sides(repos, ManifestRole::Producer).contains(producer),
        stands(repos, p, ManifestRole::Producer),
        stands(repos, c, ManifestRole::Consumer),
        is_side(repos, p, producer),
        is_side(repos, c, consumer),
    ensures
        is_closest(repos, p, c) <==> type_compat_v2::is_paired(
            producer,
            type_compat_v2::best_score(
                type_compat_v2::all_sides(repos, ManifestRole::Producer),
                consumer,
            ),
            consumer,
        ),
{
    let producers = type_compat_v2::all_sides(repos, ManifestRole::Producer);
    let best = type_compat_v2::best_score(producers, consumer);
    type_compat_v2::law_best_score(producers, consumer);
    lemma_score(producer, consumer);
    if type_compat_v2::is_paired(producer, best, consumer) {
        assert forall|other: Place| #[trigger] is_edge(repos, other, c) implies closeness(
            entry_at(repos, other),
            entry_at(repos, c),
        ) <= closeness(entry_at(repos, p), entry_at(repos, c)) by {
            let side = lemma_side_at(repos, ManifestRole::Producer, other);
            lemma_score(side, consumer);
            let k = choose|k: int| 0 <= k < producers.len() && producers[k] == side;
            assert(type_compat_v2::pair_score(producers[k], consumer) is Some);
        }
    }
    if is_closest(repos, p, c) {
        let m = choose|m: int| 0 <= m < producers.len() && producers[m] == producer;
        assert(type_compat_v2::pair_score(producers[m], consumer) is Some);
        let k = choose|k: int|
            0 <= k < producers.len() && type_compat_v2::pair_score(
                #[trigger] producers[k],
                consumer,
            ) == best;
        assert(producers.contains(producers[k]));
        let other = lemma_place_of(repos, ManifestRole::Producer, producers[k]);
        lemma_score(producers[k], consumer);
        assert(is_edge(repos, other, c));
    }
}

proof fn lemma_pair_joins(
    repos: Seq<CloudRepoData>,
    producer: SideModel,
    consumer: SideModel,
    p: Place,
    c: Place,
)
    requires
        is_closest(repos, p, c),
        is_side(repos, p, producer),
        is_side(repos, c, consumer),
    ensures
        joins(repos, type_compat_v2::pair_model(producer, consumer), p, c),
{
}

proof fn lemma_pair_is_of_entries(repos: Seq<CloudRepoData>, i: int)
    requires
        0 <= i < type_compat_v2::check_pairs(repos).len(),
    ensures
        joins_entries(repos, type_compat_v2::check_pairs(repos)[i]),
{
    let producers = type_compat_v2::all_sides(repos, ManifestRole::Producer);
    let consumers = type_compat_v2::all_sides(repos, ManifestRole::Consumer);
    let unsorted = type_compat_v2::pairs_of(producers, consumers);
    let pair = type_compat_v2::check_pairs(repos)[i];
    sorting::lemma_distinct_come_from(unsorted);
    assert(unsorted.contains(pair));
    type_compat_v2::lemma_pair_is_of_a_consumer(producers, consumers, pair);
    let y = choose|y: int|
        0 <= y < consumers.len() && type_compat_v2::pairs_with(
            producers,
            type_compat_v2::best_score(producers, consumers[y]),
            #[trigger] consumers[y],
        ).contains(pair);
    let consumer = consumers[y];
    let best = type_compat_v2::best_score(producers, consumer);
    type_compat_v2::lemma_pair_with_a_producer(producers, best, consumer, pair);
    let x = choose|x: int|
        0 <= x < producers.len() && type_compat_v2::is_paired(
            #[trigger] producers[x],
            best,
            consumer,
        ) && pair == type_compat_v2::pair_model(producers[x], consumer);
    assert(consumers.contains(consumer));
    assert(producers.contains(producers[x]));
    let p = lemma_place_of(repos, ManifestRole::Producer, producers[x]);
    let c = lemma_place_of(repos, ManifestRole::Consumer, consumer);
    lemma_best_is_closest(repos, producers[x], consumer, p, c);
    lemma_pair_joins(repos, producers[x], consumer, p, c);
}

proof fn lemma_closest_has_pair(repos: Seq<CloudRepoData>, p: Place, c: Place)
    requires
        is_closest(repos, p, c),
    ensures
        has_pair(type_compat_v2::check_pairs(repos), key_of(repos, p, c)),
{
    let producers = type_compat_v2::all_sides(repos, ManifestRole::Producer);
    let consumers = type_compat_v2::all_sides(repos, ManifestRole::Consumer);
    let unsorted = type_compat_v2::pairs_of(producers, consumers);
    let r = type_compat_v2::check_pairs(repos);
    let producer = lemma_side_at(repos, ManifestRole::Producer, p);
    let consumer = lemma_side_at(repos, ManifestRole::Consumer, c);
    lemma_best_is_closest(repos, producer, consumer, p, c);
    let best = type_compat_v2::best_score(producers, consumer);
    let pair = type_compat_v2::pair_model(producer, consumer);
    let x = choose|x: int| 0 <= x < producers.len() && producers[x] == producer;
    let y = choose|y: int| 0 <= y < consumers.len() && consumers[y] == consumer;
    assert(type_compat_v2::is_paired(producers[x], best, consumer));
    type_compat_v2::lemma_pair_with_a_producer(producers, best, consumer, pair);
    assert(type_compat_v2::pairs_with(
        producers,
        type_compat_v2::best_score(producers, consumers[y]),
        consumers[y],
    ).contains(pair));
    type_compat_v2::lemma_pair_is_of_a_consumer(producers, consumers, pair);
    let u = choose|u: int| 0 <= u < unsorted.len() && unsorted[u] == pair;
    lemma_pair_joins(repos, producer, consumer, p, c);
    let key = seq![key_of(repos, p, c)];
    assert(unsorted[u].sort_key() == key);
    assert(sorting::has_key(unsorted, key));
    sorting::lemma_distinct_keys(unsorted);
    assert(sorting::has_key(r, key));
    let k = choose|k: int| 0 <= k < r.len() && (#[trigger] r[k]).sort_key() == key;
    assert(r[k].sort_key()[0] == r[k].spec.pair_key);
    assert(key[0] == key_of(repos, p, c));
}

proof fn lemma_edge_has_closest(repos: Seq<CloudRepoData>, p: Place, c: Place) -> (best: Place)
    requires
        is_edge(repos, p, c),
    ensures
        is_closest(repos, best, c),
{
    let producers = type_compat_v2::all_sides(repos, ManifestRole::Producer);
    let producer = lemma_side_at(repos, ManifestRole::Producer, p);
    let consumer = lemma_side_at(repos, ManifestRole::Consumer, c);
    lemma_score(producer, consumer);
    type_compat_v2::law_best_score(producers, consumer);
    let m = choose|m: int| 0 <= m < producers.len() && producers[m] == producer;
    assert(type_compat_v2::pair_score(producers[m], consumer) is Some);
    let k = choose|k: int|
        0 <= k < producers.len() && type_compat_v2::pair_score(#[trigger] producers[k], consumer)
            == type_compat_v2::best_score(producers, consumer);
    assert(producers.contains(producers[k]));
    let other = lemma_place_of(repos, ManifestRole::Producer, producers[k]);
    lemma_best_is_closest(repos, producers[k], consumer, other, c);
    other
}

/// The pairs that are checked are those of the records: a call is paired with the
/// closest producers of the same method, route and kind of body in other
/// services, with no other, and with each of them.
pub proof fn law_pairs_join_calls_with_producers(repos: Seq<CloudRepoData>)
    ensures
        are_pairs_of(type_compat_v2::check_pairs(repos), repos),
{
    let r = type_compat_v2::check_pairs(repos);
    assert forall|i: int| 0 <= i < r.len() implies joins_entries(repos, #[trigger] r[i]) by {
        lemma_pair_is_of_entries(repos, i);
    }
    assert forall|p: Place, c: Place| #[trigger] is_closest(repos, p, c) implies has_pair(
        r,
        key_of(repos, p, c),
    ) by {
        lemma_closest_has_pair(repos, p, c);
    }
    assert forall|p: Place, c: Place| #[trigger] is_edge(repos, p, c) implies exists|best: Place|
        #[trigger] is_closest(repos, best, c) by {
        let best = lemma_edge_has_closest(repos, p, c);
        assert(is_closest(repos, best, c));
    }
}

// ---------------------------------------------------------------------------
// What comes of the check
// ---------------------------------------------------------------------------

/// Whether the verdict is the last that is given for the key.
pub open spec fn is_last_verdict(verdicts: Seq<CheckVerdict>, key: Seq<char>, i: int) -> bool {
    &&& 0 <= i < verdicts.len()
    &&& verdicts[i].pair_key@ == key
    &&& forall|j: int| i < j < verdicts.len() ==> (#[trigger] verdicts[j]).pair_key@ != key
}

/// Whether the outcome says of the pair what is known: what was known before the
/// check, else what the check says last of the pair's key, else that the pair is
/// unverifiable, with the reason.
pub open spec fn says_what_is_known(
    outcome: PairCheckOutcome,
    pair: BuiltPair,
    reply: CheckReply,
) -> bool {
    match pair.pre_verdict {
        Some((bucket, reason)) => {
            &&& outcome.bucket == bucket
            &&& outcome.gate is None
            &&& outcome.diagnostic is Some
            &&& outcome.diagnostic->0@ == reason@
        },
        None => match reply {
            CheckReply::Failed(why) => {
                &&& outcome.bucket == VerdictBucket::Unverifiable
                &&& outcome.gate is None
                &&& outcome.diagnostic is Some
                &&& outcome.diagnostic->0@ == "type check did not run: "@ + why@
            },
            CheckReply::Verdicts(list) => {
                ||| exists|i: int| #[trigger]
                    is_last_verdict(list@, pair.spec.pair_key@, i) && outcome.bucket
                        == list@[i].bucket && outcome.gate.deep_view() == list@[i].gate.deep_view()
                        && outcome.diagnostic.deep_view() == list@[i].diagnostic.deep_view()
                ||| {
                    &&& forall|i: int|
                        0 <= i < list@.len() ==> (#[trigger] list@[i]).pair_key@
                            != pair.spec.pair_key@
                    &&& outcome.bucket == VerdictBucket::Unverifiable
                    &&& outcome.gate is None
                    &&& outcome.diagnostic is Some
                    &&& outcome.diagnostic->0@ == "the check returned no verdict for this pair"@
                }
            },
        },
    }
}

/// Whether the outcome is that of the pair.
pub open spec fn judges(outcome: PairCheckOutcome, pair: BuiltPair, reply: CheckReply) -> bool {
    &&& outcome.pair_key@ == pair.spec.pair_key@
    &&& outcome.pseudo_method@ == pair.pseudo_method@
    &&& outcome.identity@ == pair.identity@
    &&& outcome.consumer_file@ == pair.consumer_file@
    &&& outcome.consumer_line == pair.consumer_line
    &&& outcome.type_kind == pair.type_kind
    &&& outcome.producer_alias@ == pair.producer_alias@
    &&& outcome.consumer_alias@ == pair.consumer_alias@
    &&& outcome.producer_service@ == pair.producer_service@
    &&& outcome.consumer_service@ == pair.consumer_service@
    &&& says_what_is_known(outcome, pair, reply)
}

/// Whether the outcome is that of one of the pairs.
pub open spec fn judges_one(
    outcome: PairCheckOutcome,
    pairs: Seq<BuiltPair>,
    reply: CheckReply,
) -> bool {
    exists|i: int| 0 <= i < pairs.len() && judges(outcome, #[trigger] pairs[i], reply)
}

/// Whether one of the outcomes is that of the pair.
pub open spec fn is_judged(
    outcomes: Seq<PairCheckOutcome>,
    pair: BuiltPair,
    reply: CheckReply,
) -> bool {
    exists|i: int| 0 <= i < outcomes.len() && judges(#[trigger] outcomes[i], pair, reply)
}

/// Whether the outcomes are those of the pairs: one for each, and none besides.
pub open spec fn judge_all(
    outcomes: Seq<PairCheckOutcome>,
    pairs: Seq<BuiltPair>,
    reply: CheckReply,
) -> bool {
    &&& outcomes.len() == pairs.len()
    &&& forall|i: int|
        0 <= i < outcomes.len() ==> judges_one(#[trigger] outcomes[i], pairs, reply)
    &&& forall|i: int| 0 <= i < pairs.len() ==> is_judged(outcomes, #[trigger] pairs[i], reply)
}

proof fn lemma_verdict_for(verdicts: Seq<CheckVerdict>, key: Seq<char>)
    ensures
        match type_compat_v2::verdict_for(verdicts, key) {
            Some(v) => exists|i: int| #[trigger]
                is_last_verdict(verdicts, key, i) && verdicts[i] == v,
            None => forall|i: int|
                0 <= i < verdicts.len() ==> (#[trigger] verdicts[i]).pair_key@ != key,
        },
    decreases verdicts.len(),
{
    if verdicts.len() > 0 {
        let front = verdicts.drop_last();
        lemma_verdict_for(front, key);
        if verdicts.last().pair_key@ == key {
            assert(is_last_verdict(verdicts, key, verdicts.len() - 1));
        } else {
            match type_compat_v2::verdict_for(front, key) {
                Some(v) => {
                    let i = choose|i: int| #[trigger]
                        is_last_verdict(front, key, i) && front[i] == v;
                    assert forall|j: int| i < j < verdicts.len() implies (
                    #[trigger] verdicts[j]).pair_key@ != key by {
                        if j < front.len() {
                            assert(front[j] == verdicts[j]);
                        }
                    }
                    assert(is_last_verdict(verdicts, key, i));
                },
                None => {
                    assert forall|i: int| 0 <= i < verdicts.len() implies (
                    #[trigger] verdicts[i]).pair_key@ != key by {
                        if i < front.len() {
                            assert(front[i] == verdicts[i]);
                        }
                    }
                },
            }
        }
    }
}

/// The positions of the pairs with or without a verdict before the check are
/// those of just these pairs, in ascending order.
pub proof fn law_positions(pairs: Seq<BuiltPair>, probing: bool)
    ensures
        ({
            let p = type_compat_v2::pair_positions(pairs, probing);
            &&& p.len() <= pairs.len()
            &&& forall|k: int|
                0 <= k < p.len() ==> 0 <= #[trigger] p[k] < pairs.len() && (pairs[p[k]].pre_verdict
                    is None) == probing
            &&& forall|k: int, l: int| 0 <= k < l < p.len() ==> #[trigger] p[k] < #[trigger] p[l]
            &&& forall|i: int|
                0 <= i < pairs.len() && ((#[trigger] pairs[i]).pre_verdict is None) == probing
                    ==> p.contains(i)
        }),
    decreases pairs.len(),
{
    if pairs.len() > 0 {
        let front = pairs.drop_last();
        law_positions(front, probing);
        let q = type_compat_v2::pair_positions(front, probing);
        let p = type_compat_v2::pair_positions(pairs, probing);
        assert forall|k: int| 0 <= k < p.len() implies 0 <= #[trigger] p[k] < pairs.len() && (
        pairs[p[k]].pre_verdict is None) == probing by {
            if k < q.len() {
                assert(p[k] == q[k]);
                assert(front[q[k]] == pairs[q[k]]);
            }
        }
        assert forall|k: int, l: int| 0 <= k < l < p.len() implies #[trigger] p[k] < #[trigger] p[l] by {
            assert(p[k] == q[k]);
            if l < q.len() {
                assert(p[l] == q[l]);
            }
        }
        assert forall|i: int|
            0 <= i < pairs.len() && ((#[trigger] pairs[i]).pre_verdict is None)
                == probing implies p.contains(i) by {
            if i < front.len() {
                assert(front[i] == pairs[i]);
                let k = choose|k: int| 0 <= k < q.len() && q[k] == i;
                assert(p[k] == i);
            } else {
                assert(p[q.len() as int] == i);
            }
        }
    }
}

proof fn lemma_position_count(pairs: Seq<BuiltPair>)
    ensures
        type_compat_v2::pair_positions(pairs, true).len() + type_compat_v2::pair_positions(
            pairs,
            false,
        ).len() == pairs.len(),
    decreases pairs.len(),
{
    if pairs.len() > 0 {
        lemma_position_count(pairs.drop_last());
    }
}

/// Every pair gets one outcome, and it says what is known of the pair.
pub proof fn law_every_pair_is_judged(
    unsorted: Seq<PairCheckOutcome>,
    pairs: Seq<BuiltPair>,
    reply: CheckReply,
)
    requires
        type_compat_v2::outcomes_of(
            unsorted,
            pairs,
            type_compat_v2::pair_positions(pairs, false) + type_compat_v2::pair_positions(
                pairs,
                true,
            ),
            reply,
        ),
    ensures
        judge_all(sorting::sorted_by_key(unsorted), pairs, reply),
{
    broadcast use vstd::seq_lib::group_to_multiset_ensures;

    let first = type_compat_v2::pair_positions(pairs, false);
    let second = type_compat_v2::pair_positions(pairs, true);
    let positions = first + second;
    law_positions(pairs, false);
    law_positions(pairs, true);
    lemma_position_count(pairs);
    let r = sorting::sorted_by_key(unsorted);
    sorting::lemma_sorted_by_key(unsorted);
    assert(r.len() == r.to_multiset().len() && unsorted.len() == unsorted.to_multiset().len());
    assert forall|k: int| 0 <= k < positions.len() implies 0 <= #[trigger] positions[k]
        < pairs.len() && judges(unsorted[k], pairs[positions[k]], reply) by {
        if k < first.len() {
            assert(positions[k] == first[k]);
        } else {
            assert(positions[k] == second[k - first.len()]);
        }
        let pair = pairs[positions[k]];
        let v = type_compat_v2::verdict_spec(pair, reply);
        assert(type_compat_v2::is_outcome_of(unsorted[k], pair, v.0, v.1, v.2));
        if let CheckReply::Verdicts(list) = reply {
            lemma_verdict_for(list@, pair.spec.pair_key@);
        }
    }
    assert forall|i: int| 0 <= i < r.len() implies judges_one(#[trigger] r[i], pairs, reply) by {
        assert(r.contains(r[i]));
        assert(r.to_multiset().count(r[i]) > 0);
        assert(unsorted.contains(r[i]));
        let k = choose|k: int| 0 <= k < unsorted.len() && unsorted[k] == r[i];
        assert(judges(unsorted[k], pairs[positions[k]], reply));
    }
    assert forall|i: int| 0 <= i < pairs.len() implies is_judged(r, #[trigger] pairs[i], reply) by {
        let k = if pairs[i].pre_verdict is None {
            assert(second.contains(i));
            first.len() as int + choose|k: int| 0 <= k < second.len() && second[k] == i
        } else {
            assert(first.contains(i));
            choose|k: int| 0 <= k < first.len() && first[k] == i
        };
        assert(positions[k] == i);
        assert(judges(unsorted[k], pairs[i], reply));
        assert(unsorted.contains(unsorted[k]));
        assert(unsorted.to_multiset().count(unsorted[k]) > 0);
        assert(r.contains(unsorted[k]));
        let j = choose|j: int| 0 <= j < r.len() && r[j] == unsorted[k];
        assert(judges(r[j], pairs[i], reply));
    }
}

} // verus!
