//! What holds of the type manifest: which entries it has, and what resolution
//! makes of them.

use vstd::prelude::*;

use crate::cloud_storage::{
    EntryModel, InferKind, ManifestRole, ManifestTypeKind, ManifestTypeState, TypeManifestEntry,
};
use crate::file_analysis::{DataCallResult, EndpointResult, FileResult};
use crate::mount_graph::{DataFetchingCall, MatchEvidence, ResolvedEndpoint};
use crate::operation::KeyModel;
use crate::type_manifest::Site;
use crate::type_sidecar::{ExplicitType, InferredType, ResolvedDefinition, TypeResolutionResult};
use crate::{hashing, operation, text, text_laws, type_check, type_compat_v2, type_manifest};

verus! {

// ---------------------------------------------------------------------------
// Which entries there are
// ---------------------------------------------------------------------------

/// Whether a method may carry a body to the server.
pub open spec fn carries_body(method: Seq<char>) -> bool {
    method == "POST"@ || method == "PUT"@ || method == "PATCH"@ || method == "DELETE"@
}

/// Whether a method never carries a body to the server.
pub open spec fn carries_none(method: Seq<char>) -> bool {
    method == "GET"@ || method == "HEAD"@ || method == "OPTIONS"@
}

/// Whether an endpoint declares a route of the HTTP method in this very file,
/// not merely a call to one.
pub open spec fn declares(e: ResolvedEndpoint, method: Seq<char>) -> bool {
    &&& type_manifest::normalized_method(e.method@) == method
    &&& carries_body(method) || carries_none(method)
    &&& e.evidence == MatchEvidence::RouteDefinition
    &&& e.full_path@.len() > 0
    &&& e.full_path@[0] == '/'
}

/// Whether a call goes to a bare route by the HTTP method.
pub open spec fn calls_route(c: DataFetchingCall, method: Seq<char>) -> bool {
    &&& type_manifest::normalized_method(c.method@) == method
    &&& carries_body(method) || carries_none(method)
    &&& c.is_probable_url
    &&& c.canonical_path@.len() > 0
    &&& c.canonical_path@[0] == '/'
}

/// Whether an entry is one side of the operation.
pub open spec fn is_side(
    entry: EntryModel,
    role: ManifestRole,
    kind: ManifestTypeKind,
    method: Seq<char>,
    path: Seq<char>,
) -> bool {
    entry.role == role && entry.type_kind == kind && entry.key == (KeyModel::Http { method, path })
}

/// Whether an entry has nothing resolved yet and says of itself where it is and
/// what is to be inferred for it.
pub open spec fn is_fresh(entry: EntryModel) -> bool {
    &&& entry.type_state == ManifestTypeState::Unknown
    &&& !entry.is_explicit
    &&& entry.resolved_definition is None
    &&& entry.expanded_definition is None
    &&& entry.primary_type_symbol is None
    &&& entry.evidence.file_path == entry.file_path
    &&& entry.evidence.line_number == entry.line_number
    &&& entry.evidence.span_start is None
    &&& entry.evidence.span_end is None
    &&& entry.evidence.type_state == ManifestTypeState::Unknown
    &&& !entry.evidence.is_explicit
    &&& entry.type_kind == ManifestTypeKind::Request ==> entry.evidence.infer_kind
        == InferKind::RequestBody
    &&& entry.type_kind == ManifestTypeKind::Response && entry.role == ManifestRole::Producer
        ==> entry.evidence.infer_kind == InferKind::ResponseBody
    &&& entry.type_kind == ManifestTypeKind::Response && entry.role == ManifestRole::Consumer
        ==> entry.evidence.infer_kind == InferKind::CallResult
}

/// Whether an entry stands at a location.
pub open spec fn stands_at(entry: EntryModel, location: Seq<char>) -> bool {
    &&& entry.file_path == type_manifest::file_location_spec(location).0
    &&& entry.line_number == type_manifest::file_location_spec(location).1
}

/// The name of a kind of body.
pub open spec fn kind_word(kind: ManifestTypeKind) -> Seq<char> {
    if kind == ManifestTypeKind::Request {
        "Request"@
    } else {
        "Response"@
    }
}

/// The alias of a producer's side: the operation alone decides it.
pub open spec fn producer_alias(kind: ManifestTypeKind, method: Seq<char>, path: Seq<char>) -> Seq<
    char,
> {
    "Endpoint_"@ + hashing::sha256_hex_of("http|"@ + method + "|"@ + path + "|"@ + "producer"@).take(
        16,
    ) + "_"@ + kind_word(kind)
}

/// The alias of a consumer's side: the operation and the place of the call.
pub open spec fn consumer_alias(
    kind: ManifestTypeKind,
    method: Seq<char>,
    path: Seq<char>,
    file_path: Seq<char>,
    line_number: u32,
    repo_root: Seq<char>,
) -> Seq<char> {
    "Endpoint_"@ + hashing::sha256_hex_of("http|"@ + method + "|"@ + path + "|"@ + "consumer"@).take(
        16,
    ) + "_"@ + kind_word(kind) + "_Call"@ + hashing::sha256_hex_of(
        type_compat_v2::repo_relative_spec(file_path, repo_root) + ":"@ + text::decimal(
            line_number as nat,
        ) + "|"@ + "http|"@ + method + "|"@ + path,
    ).take(16)
}

/// Whether the manifest has the producer's side of an operation, once, at the
/// first place that declares it.
pub open spec fn has_producer(
    manifest: Seq<EntryModel>,
    endpoints: Seq<ResolvedEndpoint>,
    kind: ManifestTypeKind,
    method: Seq<char>,
    path: Seq<char>,
) -> bool {
    exists|k: int| #[trigger] is_only_producer(manifest, endpoints, kind, method, path, k)
}

/// Whether the entry in the place is the only one of the producer's side.
pub open spec fn is_only_producer(
    manifest: Seq<EntryModel>,
    endpoints: Seq<ResolvedEndpoint>,
    kind: ManifestTypeKind,
    method: Seq<char>,
    path: Seq<char>,
    k: int,
) -> bool {
    &&& 0 <= k < manifest.len()
    &&& is_side(manifest[k], ManifestRole::Producer, kind, method, path)
    &&& is_fresh(manifest[k])
    &&& manifest[k].type_alias == producer_alias(kind, method, path)
    &&& forall|l: int|
        0 <= l < manifest.len() && is_side(
            #[trigger] manifest[l],
            ManifestRole::Producer,
            kind,
            method,
            path,
        ) ==> l == k
    &&& exists|i: int| #[trigger]
        is_first_declaration(endpoints, method, path, i) && stands_at(
            manifest[k],
            endpoints[i].file_location@,
        )
}

/// Whether the endpoint is the first that declares the operation.
pub open spec fn is_first_declaration(
    endpoints: Seq<ResolvedEndpoint>,
    method: Seq<char>,
    path: Seq<char>,
    i: int,
) -> bool {
    &&& 0 <= i < endpoints.len()
    &&& declares(endpoints[i], method)
    &&& endpoints[i].full_path@ == path
    &&& forall|j: int|
        0 <= j < i ==> !(declares(#[trigger] endpoints[j], method) && endpoints[j].full_path@
            == path)
}

/// Whether the manifest has the side of a call.
pub open spec fn has_consumer(
    manifest: Seq<EntryModel>,
    call: DataFetchingCall,
    kind: ManifestTypeKind,
    method: Seq<char>,
    repo_root: Seq<char>,
) -> bool {
    exists|k: int|
        0 <= k < manifest.len() && is_call_entry(
            #[trigger] manifest[k],
            call,
            kind,
            method,
            repo_root,
        )
}

/// Whether an entry is that of the side of a call.
pub open spec fn is_call_entry(
    entry: EntryModel,
    call: DataFetchingCall,
    kind: ManifestTypeKind,
    method: Seq<char>,
    repo_root: Seq<char>,
) -> bool {
    &&& is_side(entry, ManifestRole::Consumer, kind, method, call.canonical_path@)
    &&& is_fresh(entry)
    &&& stands_at(entry, call.file_location@)
    &&& entry.type_alias == consumer_alias(
        kind,
        method,
        call.canonical_path@,
        entry.file_path,
        entry.line_number,
        repo_root,
    )
}

/// Whether an entry belongs to one of the endpoints or to one of the calls.
pub open spec fn is_accounted_for(
    entry: EntryModel,
    endpoints: Seq<ResolvedEndpoint>,
    calls: Seq<DataFetchingCall>,
    repo_root: Seq<char>,
) -> bool {
    if entry.role == ManifestRole::Producer {
        exists|i: int, method: Seq<char>|
            0 <= i < endpoints.len() && #[trigger] declares(endpoints[i], method) && is_side(
                entry,
                ManifestRole::Producer,
                entry.type_kind,
                method,
                endpoints[i].full_path@,
            ) && (entry.type_kind == ManifestTypeKind::Request ==> carries_body(method))
    } else {
        exists|i: int, method: Seq<char>|
            0 <= i < calls.len() && #[trigger] calls_route(calls[i], method) && is_call_entry(
                entry,
                calls[i],
                entry.type_kind,
                method,
                repo_root,
            )
    }
}

/// Whether the entries are those of the endpoints and calls: of every declared
/// endpoint the response, and the request where its method may carry a body; of
/// every call to a bare route both; and nothing else.
pub open spec fn is_manifest_of(
    manifest: Seq<EntryModel>,
    endpoints: Seq<ResolvedEndpoint>,
    calls: Seq<DataFetchingCall>,
    repo_root: Seq<char>,
) -> bool {
    &&& forall|i: int, method: Seq<char>|
        0 <= i < endpoints.len() && #[trigger] declares(endpoints[i], method) ==> {
            &&& has_producer(
                manifest,
                endpoints,
                ManifestTypeKind::Response,
                method,
                endpoints[i].full_path@,
            )
            &&& carries_body(method) ==> has_producer(
                manifest,
                endpoints,
                ManifestTypeKind::Request,
                method,
                endpoints[i].full_path@,
            )
        }
    &&& forall|i: int, method: Seq<char>|
        0 <= i < calls.len() && #[trigger] calls_route(calls[i], method) ==> {
            &&& has_consumer(manifest, calls[i], ManifestTypeKind::Response, method, repo_root)
            &&& has_consumer(manifest, calls[i], ManifestTypeKind::Request, method, repo_root)
        }
    &&& forall|k: int|
        0 <= k < manifest.len() ==> is_accounted_for(
            #[trigger] manifest[k],
            endpoints,
            calls,
            repo_root,
        )
}

proof fn lemma_method_words()
    ensures
        "GET"@ != "POST"@ && "GET"@ != "PUT"@ && "GET"@ != "PATCH"@ && "GET"@ != "DELETE"@,
        "HEAD"@ != "POST"@ && "HEAD"@ != "PUT"@ && "HEAD"@ != "PATCH"@ && "HEAD"@ != "DELETE"@,
        "OPTIONS"@ != "POST"@ && "OPTIONS"@ != "PUT"@ && "OPTIONS"@ != "PATCH"@ && "OPTIONS"@
            != "DELETE"@,
{
    reveal_strlit("GET");
    reveal_strlit("HEAD");
    reveal_strlit("OPTIONS");
    reveal_strlit("POST");
    reveal_strlit("PUT");
    reveal_strlit("PATCH");
    reveal_strlit("DELETE");
    assert("GET"@[0] == 'G' && "HEAD"@[0] == 'H' && "OPTIONS"@[0] == 'O');
    assert("POST"@[0] == 'P' && "PUT"@[0] == 'P' && "PATCH"@[0] == 'P' && "DELETE"@[0] == 'D');
}

/// Whether the entry is of the producer site.
pub open spec fn is_of_site(entry: EntryModel, s: Site) -> bool {
    &&& entry.role == ManifestRole::Producer
    &&& entry.key == s.key
    &&& entry.file_path == s.file_path
    &&& entry.line_number == s.line_number
    &&& is_fresh(entry)
    &&& s.key matches KeyModel::Http { method, path } ==> {
        &&& entry.type_alias == producer_alias(entry.type_kind, method, path)
        &&& entry.type_kind == ManifestTypeKind::Request ==> !carries_none(method)
    }
}

proof fn lemma_pair_of_site(s: Site)
    ensures
        ({
            let p = type_manifest::pair_entries(
                s.key,
                ManifestRole::Producer,
                s.file_path,
                s.line_number,
                None,
            );
            &&& 1 <= p.len() <= 2
            &&& forall|k: int| 0 <= k < p.len() ==> is_of_site(#[trigger] p[k], s)
            &&& p.last().type_kind == ManifestTypeKind::Response
            &&& p.len() == 2 ==> p[0].type_kind == ManifestTypeKind::Request
            &&& s.key matches KeyModel::Http { method, .. } ==> (p.len() == 1 <==> carries_none(
                method,
            ))
        }),
{
    let p = type_manifest::pair_entries(
        s.key,
        ManifestRole::Producer,
        s.file_path,
        s.line_number,
        None,
    );
    if let KeyModel::Http { method, path } = s.key {
        assert forall|k: int| 0 <= k < p.len() implies is_of_site(#[trigger] p[k], s) by {
            assert("http|"@ + method + "|"@ + path + "|"@ + "producer"@ =~= operation::canonical_spec(
                s.key,
            ) + "|"@ + "producer"@);
        }
    }
}

/// Whether the entry is of one of the sites.
pub open spec fn is_of_a_site(entry: EntryModel, sites: Seq<Site>) -> bool {
    exists|i: int| 0 <= i < sites.len() && is_of_site(entry, #[trigger] sites[i])
}

/// Whether one of the entries is of the site and of the kind.
pub open spec fn has_side(m: Seq<EntryModel>, s: Site, kind: ManifestTypeKind) -> bool {
    exists|k: int| 0 <= k < m.len() && is_of_site(#[trigger] m[k], s) && m[k].type_kind == kind
}

/// Whether a site's method may carry a body.
pub open spec fn has_request(s: Site) -> bool {
    s.key is Http && !carries_none(s.key->Http_method)
}

/// Whether no two entries have the same operation and kind.
pub open spec fn sides_distinct(m: Seq<EntryModel>) -> bool {
    forall|k: int, l: int|
        #![trigger m[k], m[l]]
        0 <= k < l < m.len() && m[k].key == m[l].key ==> m[k].type_kind != m[l].type_kind
}

/// Whether no two sites have the same operation.
pub open spec fn keys_distinct(sites: Seq<Site>) -> bool {
    forall|i: int, j: int|
        #![trigger sites[i], sites[j]]
        0 <= i < j < sites.len() ==> sites[i].key != sites[j].key
}

proof fn lemma_entries_of_sites(sites: Seq<Site>)
    ensures
        forall|k: int|
            0 <= k < type_manifest::producer_entries(sites).len() ==> is_of_a_site(
                #[trigger] type_manifest::producer_entries(sites)[k],
                sites,
            ),
    decreases sites.len(),
{
    let m = type_manifest::producer_entries(sites);
    if sites.len() > 0 {
        let front = sites.drop_last();
        let last = sites.last();
        lemma_entries_of_sites(front);
        lemma_pair_of_site(last);
        let q = type_manifest::producer_entries(front);
        assert forall|k: int| 0 <= k < m.len() implies is_of_a_site(#[trigger] m[k], sites) by {
            if k < q.len() {
                assert(m[k] == q[k]);
                let i = choose|i: int|
                    0 <= i < front.len() && is_of_site(q[k], #[trigger] front[i]);
                assert(is_of_site(m[k], sites[i]));
            } else {
                assert(is_of_site(m[k], sites[sites.len() - 1]));
            }
        }
    }
}

proof fn lemma_sites_have_sides(sites: Seq<Site>)
    ensures
        forall|i: int|
            0 <= i < sites.len() ==> has_side(
                type_manifest::producer_entries(sites),
                #[trigger] sites[i],
                ManifestTypeKind::Response,
            ) && (has_request(sites[i]) ==> has_side(
                type_manifest::producer_entries(sites),
                sites[i],
                ManifestTypeKind::Request,
            )),
    decreases sites.len(),
{
    let m = type_manifest::producer_entries(sites);
    if sites.len() > 0 {
        let front = sites.drop_last();
        let last = sites.last();
        lemma_sites_have_sides(front);
        lemma_pair_of_site(last);
        let q = type_manifest::producer_entries(front);
        let p = type_manifest::pair_entries(
            last.key,
            ManifestRole::Producer,
            last.file_path,
            last.line_number,
            None,
        );
        let n = q.len() as int;
        assert(m =~= q + p);
        assert forall|i: int| 0 <= i < sites.len() implies has_side(
            m,
            #[trigger] sites[i],
            ManifestTypeKind::Response,
        ) && (has_request(sites[i]) ==> has_side(m, sites[i], ManifestTypeKind::Request)) by {
            if i < front.len() {
                assert(front[i] == sites[i]);
                let k = choose|k: int|
                    0 <= k < q.len() && is_of_site(#[trigger] q[k], front[i]) && q[k].type_kind
                        == ManifestTypeKind::Response;
                assert(m[k] == q[k]);
                if has_request(sites[i]) {
                    let l = choose|l: int|
                        0 <= l < q.len() && is_of_site(#[trigger] q[l], front[i]) && q[l].type_kind
                            == ManifestTypeKind::Request;
                    assert(m[l] == q[l]);
                }
            } else {
                assert(m[m.len() - 1] == p[p.len() - 1]);
                assert(is_of_site(p[p.len() - 1], last));
                if has_request(last) {
                    assert(m[n] == p[0]);
                    assert(is_of_site(p[0], last));
                }
            }
        }
    }
}

proof fn lemma_sides_distinct(sites: Seq<Site>)
    requires
        keys_distinct(sites),
    ensures
        sides_distinct(type_manifest::producer_entries(sites)),
    decreases sites.len(),
{
    let m = type_manifest::producer_entries(sites);
    if sites.len() > 0 {
        let front = sites.drop_last();
        let last = sites.last();
        assert(keys_distinct(front)) by {
            assert forall|i: int, j: int|
                #![trigger front[i], front[j]]
                0 <= i < j < front.len() implies front[i].key != front[j].key by {
                assert(sites[i].key != sites[j].key);
            }
        }
        lemma_sides_distinct(front);
        lemma_entries_of_sites(front);
        lemma_pair_of_site(last);
        let q = type_manifest::producer_entries(front);
        let p = type_manifest::pair_entries(
            last.key,
            ManifestRole::Producer,
            last.file_path,
            last.line_number,
            None,
        );
        let n = q.len() as int;
        assert(m =~= q + p);
        assert forall|k: int, l: int|
            #![trigger m[k], m[l]]
            0 <= k < l < m.len() && m[k].key == m[l].key implies m[k].type_kind != m[l].type_kind by {
            if l < n {
                assert(m[k] == q[k] && m[l] == q[l]);
            } else if k >= n {
                assert(m[k] == p[k - n] && m[l] == p[l - n]);
            } else {
                assert(m[k] == q[k] && m[l] == p[l - n]);
                assert(is_of_a_site(q[k], front));
                let i = choose|i: int|
                    0 <= i < front.len() && is_of_site(q[k], #[trigger] front[i]);
                assert(front[i] == sites[i]);
                assert(is_of_site(p[l - n], last));
                assert(sites[i].key != sites[sites.len() - 1].key);
            }
        }
    }
}

/// Whether the endpoint declares what the site is for, as the first that does.
pub open spec fn is_origin(endpoints: Seq<ResolvedEndpoint>, i: int, s: Site) -> bool {
    &&& s.key is Http
    &&& is_first_declaration(endpoints, s.key->Http_method, s.key->Http_path, i)
    &&& s.file_path == type_manifest::file_location_spec(endpoints[i].file_location@).0
    &&& s.line_number == type_manifest::file_location_spec(endpoints[i].file_location@).1
}

/// Whether the site has its origin among the endpoints.
pub open spec fn has_origin(endpoints: Seq<ResolvedEndpoint>, s: Site) -> bool {
    exists|i: int| #[trigger] is_origin(endpoints, i, s)
}

proof fn lemma_declared_sites(endpoints: Seq<ResolvedEndpoint>)
    ensures
        forall|i: int, method: Seq<char>|
            0 <= i < endpoints.len() && #[trigger] declares(endpoints[i], method)
                ==> type_manifest::site_known(
                type_manifest::producer_sites(endpoints),
                KeyModel::Http { method, path: endpoints[i].full_path@ },
            ),
    decreases endpoints.len(),
{
    lemma_method_words();
    if endpoints.len() > 0 {
        let front = endpoints.drop_last();
        let e = endpoints.last();
        lemma_declared_sites(front);
        let before = type_manifest::producer_sites(front);
        let sites = type_manifest::producer_sites(endpoints);
        assert forall|i: int, method: Seq<char>|
            0 <= i < endpoints.len() && #[trigger] declares(
                endpoints[i],
                method,
            ) implies type_manifest::site_known(
            sites,
            KeyModel::Http { method, path: endpoints[i].full_path@ },
        ) by {
            let key = KeyModel::Http { method, path: endpoints[i].full_path@ };
            if i < front.len() {
                assert(front[i] == endpoints[i]);
                assert(declares(front[i], method));
            }
            if type_manifest::site_known(before, key) {
                let k = choose|k: int| 0 <= k < before.len() && (#[trigger] before[k]).key == key;
                assert(sites[k].key == key);
            } else {
                assert(type_manifest::producer_key_spec(e, method) == Some(key));
                assert(sites[before.len() as int].key == key);
            }
        }
    }
}

proof fn lemma_sites_have_origin(endpoints: Seq<ResolvedEndpoint>)
    ensures
        forall|k: int|
            0 <= k < type_manifest::producer_sites(endpoints).len() ==> has_origin(
                endpoints,
                #[trigger] type_manifest::producer_sites(endpoints)[k],
            ),
    decreases endpoints.len(),
{
    lemma_method_words();
    if endpoints.len() > 0 {
        let front = endpoints.drop_last();
        let e = endpoints.last();
        lemma_sites_have_origin(front);
        lemma_declared_sites(front);
        let before = type_manifest::producer_sites(front);
        let sites = type_manifest::producer_sites(endpoints);
        assert forall|k: int| 0 <= k < sites.len() implies has_origin(
            endpoints,
            #[trigger] sites[k],
        ) by {
            if k < before.len() {
                assert(sites[k] == before[k]);
                let i = choose|i: int| #[trigger] is_origin(front, i, before[k]);
                assert(endpoints[i] == front[i]);
                assert forall|j: int| 0 <= j < i implies !(declares(
                    #[trigger] endpoints[j],
                    sites[k].key->Http_method,
                ) && endpoints[j].full_path@ == sites[k].key->Http_path) by {
                    assert(front[j] == endpoints[j]);
                }
                assert(is_origin(endpoints, i, sites[k]));
            } else {
                let n = endpoints.len() - 1;
                let method = type_manifest::normalized_method(e.method@);
                assert(declares(e, method));
                assert forall|j: int| 0 <= j < n implies !(declares(#[trigger] endpoints[j], method)
                    && endpoints[j].full_path@ == e.full_path@) by {
                    assert(front[j] == endpoints[j]);
                    if declares(front[j], method) && front[j].full_path@ == e.full_path@ {
                        assert(type_manifest::site_known(
                            before,
                            KeyModel::Http { method, path: front[j].full_path@ },
                        ));
                    }
                }
                assert(is_origin(endpoints, n, sites[k]));
            }
        }
    }
}

proof fn lemma_call_pair(c: DataFetchingCall, method: Seq<char>, repo_root: Seq<char>)
    requires
        calls_route(c, method),
    ensures
        ({
            let at = type_manifest::file_location_spec(c.file_location@);
            let key = KeyModel::Http { method, path: c.canonical_path@ };
            let p = type_manifest::pair_entries(
                key,
                ManifestRole::Consumer,
                at.0,
                at.1,
                Some(type_manifest::call_site_spec(at.0, at.1, key, repo_root)),
            );
            &&& p.len() == 2
            &&& is_call_entry(p[0], c, ManifestTypeKind::Request, method, repo_root)
            &&& is_call_entry(p[1], c, ManifestTypeKind::Response, method, repo_root)
        }),
{
    let at = type_manifest::file_location_spec(c.file_location@);
    let key = KeyModel::Http { method, path: c.canonical_path@ };
    let p = type_manifest::pair_entries(
        key,
        ManifestRole::Consumer,
        at.0,
        at.1,
        Some(type_manifest::call_site_spec(at.0, at.1, key, repo_root)),
    );
    let canonical = operation::canonical_spec(key);
    let path = c.canonical_path@;
    assert("http|"@ + method + "|"@ + path + "|"@ + "consumer"@ =~= canonical + "|"@ + "consumer"@);
    let relative = type_compat_v2::repo_relative_spec(at.0, repo_root);
    let line = text::decimal(at.1 as nat);
    assert(relative + ":"@ + line + "|"@ + "http|"@ + method + "|"@ + path =~= relative + ":"@ + line
        + "|"@ + canonical);
    assert forall|k: int| 0 <= k < 2 implies (#[trigger] p[k]).type_alias == consumer_alias(
        p[k].type_kind,
        method,
        path,
        at.0,
        at.1,
        repo_root,
    ) by {}
}

proof fn lemma_consumer_entries(calls: Seq<DataFetchingCall>, repo_root: Seq<char>)
    ensures
        ({
            let m = type_manifest::consumer_entries(calls, repo_root);
            &&& forall|k: int|
                0 <= k < m.len() ==> (#[trigger] m[k]).role == ManifestRole::Consumer
                    && is_accounted_for(m[k], Seq::empty(), calls, repo_root)
            &&& forall|i: int, method: Seq<char>|
                0 <= i < calls.len() && #[trigger] calls_route(calls[i], method) ==> {
                    &&& has_consumer(m, calls[i], ManifestTypeKind::Response, method, repo_root)
                    &&& has_consumer(m, calls[i], ManifestTypeKind::Request, method, repo_root)
                }
        }),
    decreases calls.len(),
{
    if calls.len() > 0 {
        let front = calls.drop_last();
        let c = calls.last();
        lemma_consumer_entries(front, repo_root);
        let q = type_manifest::consumer_entries(front, repo_root);
        let m = type_manifest::consumer_entries(calls, repo_root);
        let word = type_manifest::normalized_method(c.method@);
        let key = type_manifest::consumer_key_spec(c, word);
        let n = q.len() as int;
        assert(calls[calls.len() - 1] == c);
        assert(key is Some <==> calls_route(c, word));
        if key is Some {
            lemma_call_pair(c, word, repo_root);
            assert(m.len() == n + 2);
            assert(is_call_entry(m[n], c, ManifestTypeKind::Request, word, repo_root));
            assert(is_call_entry(m[n + 1], c, ManifestTypeKind::Response, word, repo_root));
        }
        assert forall|k: int| 0 <= k < m.len() implies (#[trigger] m[k]).role
            == ManifestRole::Consumer && is_accounted_for(m[k], Seq::empty(), calls, repo_root) by {
            if k < n {
                assert(m[k] == q[k]);
                let (i, method) = choose|i: int, method: Seq<char>|
                    0 <= i < front.len() && #[trigger] calls_route(front[i], method)
                        && is_call_entry(q[k], front[i], q[k].type_kind, method, repo_root);
                assert(calls[i] == front[i]);
                assert(calls_route(calls[i], method));
            } else {
                assert(calls_route(calls[calls.len() - 1], word));
                assert(k == n || k == n + 1);
            }
        }
        assert forall|i: int, method: Seq<char>|
            0 <= i < calls.len() && #[trigger] calls_route(calls[i], method) implies {
            &&& has_consumer(m, calls[i], ManifestTypeKind::Response, method, repo_root)
            &&& has_consumer(m, calls[i], ManifestTypeKind::Request, method, repo_root)
        } by {
            if i < front.len() {
                assert(front[i] == calls[i]);
                assert(calls_route(front[i], method));
                let a = choose|a: int|
                    0 <= a < q.len() && is_call_entry(
                        #[trigger] q[a],
                        front[i],
                        ManifestTypeKind::Response,
                        method,
                        repo_root,
                    );
                let b = choose|b: int|
                    0 <= b < q.len() && is_call_entry(
                        #[trigger] q[b],
                        front[i],
                        ManifestTypeKind::Request,
                        method,
                        repo_root,
                    );
                assert(m[a] == q[a] && m[b] == q[b]);
            } else {
                assert(method == word);
                assert(is_call_entry(m[n + 1], calls[i], ManifestTypeKind::Response, method, repo_root));
            }
        }
    }
}

proof fn lemma_has_producer(
    endpoints: Seq<ResolvedEndpoint>,
    calls: Seq<DataFetchingCall>,
    repo_root: Seq<char>,
    i: int,
    method: Seq<char>,
    kind: ManifestTypeKind,
)
    requires
        0 <= i < endpoints.len(),
        declares(endpoints[i], method),
        kind == ManifestTypeKind::Request ==> carries_body(method),
    ensures
        has_producer(
            type_manifest::producer_entries(type_manifest::producer_sites(endpoints))
                + type_manifest::consumer_entries(calls, repo_root),
            endpoints,
            kind,
            method,
            endpoints[i].full_path@,
        ),
{
    let sites = type_manifest::producer_sites(endpoints);
    let p = type_manifest::producer_entries(sites);
    let c = type_manifest::consumer_entries(calls, repo_root);
    let m = p + c;
    let path = endpoints[i].full_path@;
    let key = KeyModel::Http { method, path };
    lemma_method_words();
    lemma_declared_sites(endpoints);
    lemma_sites_have_origin(endpoints);
    type_manifest::law_producer_sites_unique(endpoints);
    assert(keys_distinct(sites));
    lemma_sites_have_sides(sites);
    lemma_sides_distinct(sites);
    lemma_consumer_entries(calls, repo_root);
    assert(type_manifest::site_known(sites, key));
    let s = choose|s: int| 0 <= s < sites.len() && (#[trigger] sites[s]).key == key;
    assert(has_side(p, sites[s], kind));
    let k = choose|k: int|
        0 <= k < p.len() && is_of_site(#[trigger] p[k], sites[s]) && p[k].type_kind == kind;
    assert(is_of_site(p[k], sites[s]) && p[k].type_kind == kind);
    assert(m[k] == p[k]);
    assert forall|l: int|
        0 <= l < m.len() && is_side(
            #[trigger] m[l],
            ManifestRole::Producer,
            kind,
            method,
            path,
        ) implies l == k by {
        if l < p.len() {
            assert(m[l] == p[l]);
            if l < k {
                assert(p[l].type_kind != p[k].type_kind);
            } else if k < l {
                assert(p[k].type_kind != p[l].type_kind);
            }
        } else {
            assert(m[l] == c[l - p.len()]);
        }
    }
    assert(has_origin(endpoints, sites[s]));
    let o = choose|o: int| #[trigger] is_origin(endpoints, o, sites[s]);
    assert(is_first_declaration(endpoints, method, path, o));
    assert(is_only_producer(m, endpoints, kind, method, path, k));
}

/// The manifest has the response of every declared endpoint, and its request
/// exactly where the method may carry a body; it has both of every call to a bare
/// route; and it has nothing else.
pub proof fn law_manifest_entries(
    endpoints: Seq<ResolvedEndpoint>,
    calls: Seq<DataFetchingCall>,
    repo_root: Seq<char>,
)
    ensures
        is_manifest_of(
            type_manifest::producer_entries(type_manifest::producer_sites(endpoints))
                + type_manifest::consumer_entries(calls, repo_root),
            endpoints,
            calls,
            repo_root,
        ),
{
    let sites = type_manifest::producer_sites(endpoints);
    let p = type_manifest::producer_entries(sites);
    let c = type_manifest::consumer_entries(calls, repo_root);
    let m = p + c;
    lemma_method_words();
    lemma_sites_have_origin(endpoints);
    lemma_entries_of_sites(sites);
    lemma_consumer_entries(calls, repo_root);
    assert forall|i: int, method: Seq<char>|
        0 <= i < endpoints.len() && #[trigger] declares(endpoints[i], method) implies {
        &&& has_producer(
            m,
            endpoints,
            ManifestTypeKind::Response,
            method,
            endpoints[i].full_path@,
        )
        &&& carries_body(method) ==> has_producer(
            m,
            endpoints,
            ManifestTypeKind::Request,
            method,
            endpoints[i].full_path@,
        )
    } by {
        lemma_has_producer(endpoints, calls, repo_root, i, method, ManifestTypeKind::Response);
        if carries_body(method) {
            lemma_has_producer(endpoints, calls, repo_root, i, method, ManifestTypeKind::Request);
        }
    }
    assert forall|i: int, method: Seq<char>|
        0 <= i < calls.len() && #[trigger] calls_route(calls[i], method) implies {
        &&& has_consumer(m, calls[i], ManifestTypeKind::Response, method, repo_root)
        &&& has_consumer(m, calls[i], ManifestTypeKind::Request, method, repo_root)
    } by {
        let a = choose|a: int|
            0 <= a < c.len() && is_call_entry(
                #[trigger] c[a],
                calls[i],
                ManifestTypeKind::Response,
                method,
                repo_root,
            );
        let b = choose|b: int|
            0 <= b < c.len() && is_call_entry(
                #[trigger] c[b],
                calls[i],
                ManifestTypeKind::Request,
                method,
                repo_root,
            );
        assert(m[p.len() + a] == c[a]);
        assert(m[p.len() + b] == c[b]);
    }
    assert forall|k: int| 0 <= k < m.len() implies is_accounted_for(
        #[trigger] m[k],
        endpoints,
        calls,
        repo_root,
    ) by {
        if k < p.len() {
            assert(m[k] == p[k]);
            assert(is_of_a_site(p[k], sites));
            let s = choose|s: int| 0 <= s < sites.len() && is_of_site(p[k], #[trigger] sites[s]);
            assert(has_origin(endpoints, sites[s]));
            let i = choose|i: int| #[trigger] is_origin(endpoints, i, sites[s]);
            assert(declares(endpoints[i], sites[s].key->Http_method));
        } else {
            assert(m[k] == c[k - p.len()]);
            assert(is_accounted_for(c[k - p.len()], Seq::empty(), calls, repo_root));
        }
    }
}

// ---------------------------------------------------------------------------
// Methods and places
// ---------------------------------------------------------------------------

/// White space round a method and the case of its letters do not matter.
pub proof fn law_method_spelling(a: Seq<char>, method: Seq<char>, b: Seq<char>, word: Seq<char>)
    requires
        text_laws::is_blank(a),
        text_laws::is_tight(method),
        text_laws::is_blank(b),
        text::is_ascii_text(method),
        text::same_ignoring_ascii_case(method, word),
        forall|i: int| 0 <= i < word.len() ==> 'A' <= #[trigger] word[i] <= 'Z',
    ensures
        type_manifest::normalized_method(a + method + b) == word,
{
    text_laws::law_trim(a, method, b);
    text_laws::law_ascii_case(method, word);
    let upper = text::uppercase_text(method);
    assert(upper =~= text::ascii_upper_text(method));
    assert forall|i: int| 0 <= i < word.len() implies upper[i] == word[i] by {
        assert('A' <= word[i] <= 'Z');
        assert(method[i] == word[i] || ('a' <= method[i] <= 'z' && method[i] as u32 == word[i] as u32
            + 32) || ('a' <= word[i] <= 'z' && word[i] as u32 == method[i] as u32 + 32));
    }
    assert(upper =~= word);
}

/// A file and a line are read back from the location that names them.
pub proof fn law_location_read_back(file: Seq<char>, line: u32)
    requires
        line > 0,
    ensures
        type_manifest::file_location_spec(file + ":"@ + text::decimal(line as nat)) == (file, line),
{
    reveal_strlit(":");
    let number = text::decimal(line as nat);
    let location = file + ":"@ + number;
    text_laws::law_decimal_read_back(line as nat);
    text::lemma_last_index(location, ':');
    let i = text::last_index(location, ':');
    assert(location[file.len() as int] == ':');
    if i > file.len() {
        assert(location[i] == number[i - file.len() - 1]);
    }
    assert(i == file.len());
    assert(location.take(i) =~= file);
    assert(location.skip(i + 1) =~= number);
}

/// A location that names no line, or none that is a number, stands for the first
/// line.
pub proof fn law_location_without_line(location: Seq<char>)
    requires
        !location.contains(':'),
    ensures
        type_manifest::file_location_spec(location) == (location, 1u32),
{
    text::lemma_last_index(location, ':');
    if text::last_index(location, ':') >= 0 {
        assert(location.contains(location[text::last_index(location, ':')]));
    }
}

// ---------------------------------------------------------------------------
// Anchors
// ---------------------------------------------------------------------------

/// Whether a line that a file's result reports is the line of an entry. A line
/// that is missing counts as the first.
pub open spec fn is_line(reported: i32, line: u32) -> bool {
    if reported > 0 {
        reported == line
    } else {
        line == 1
    }
}

/// Whether a file's result names the symbol for the line, of an endpoint or of a
/// call there.
pub open spec fn names_symbol(result: FileResult, line: u32, symbol: String) -> bool {
    ||| exists|j: int|
        0 <= j < result.result.endpoints@.len() && is_line(
            (#[trigger] result.result.endpoints@[j]).line_number,
            line,
        ) && result.result.endpoints@[j].primary_type_symbol == Some(symbol)
    ||| exists|j: int|
        0 <= j < result.result.data_calls@.len() && is_line(
            (#[trigger] result.result.data_calls@[j]).line_number,
            line,
        ) && result.result.data_calls@[j].primary_type_symbol == Some(symbol)
}

/// Whether one of the results names the symbol for the line of the file.
pub open spec fn is_named(
    results: Seq<FileResult>,
    file: Seq<char>,
    line: u32,
    symbol: String,
) -> bool {
    exists|i: int|
        0 <= i < results.len() && (#[trigger] results[i]).path@ == file && names_symbol(
            results[i],
            line,
            symbol,
        )
}

proof fn lemma_endpoint_symbol(endpoints: Seq<EndpointResult>, line: u32)
    ensures
        match type_manifest::endpoint_symbol(endpoints, line) {
            Some(symbol) => exists|j: int|
                0 <= j < endpoints.len() && is_line((#[trigger] endpoints[j]).line_number, line)
                    && endpoints[j].primary_type_symbol == Some(symbol),
            None => forall|j: int|
                0 <= j < endpoints.len() && is_line((#[trigger] endpoints[j]).line_number, line)
                    ==> endpoints[j].primary_type_symbol is None,
        },
    decreases endpoints.len(),
{
    if endpoints.len() > 0 {
        let rest = endpoints.skip(1);
        lemma_endpoint_symbol(rest, line);
        if endpoints[0].primary_type_symbol is Some && type_manifest::anchor_line(
            endpoints[0].line_number,
        ) == line {
            assert(is_line(endpoints[0].line_number, line));
        } else {
            match type_manifest::endpoint_symbol(rest, line) {
                Some(symbol) => {
                    let j = choose|j: int|
                        0 <= j < rest.len() && is_line((#[trigger] rest[j]).line_number, line)
                            && rest[j].primary_type_symbol == Some(symbol);
                    assert(endpoints[j + 1] == rest[j]);
                },
                None => {
                    assert forall|j: int|
                        0 <= j < endpoints.len() && is_line(
                            (#[trigger] endpoints[j]).line_number,
                            line,
                        ) implies endpoints[j].primary_type_symbol is None by {
                        if j > 0 {
                            assert(rest[j - 1] == endpoints[j]);
                        }
                    }
                },
            }
        }
    }
}

proof fn lemma_call_symbol(calls: Seq<DataCallResult>, line: u32)
    ensures
        match type_manifest::call_symbol(calls, line) {
            Some(symbol) => exists|j: int|
                0 <= j < calls.len() && is_line((#[trigger] calls[j]).line_number, line)
                    && calls[j].primary_type_symbol == Some(symbol),
            None => forall|j: int|
                0 <= j < calls.len() && is_line((#[trigger] calls[j]).line_number, line)
                    ==> calls[j].primary_type_symbol is None,
        },
    decreases calls.len(),
{
    if calls.len() > 0 {
        let rest = calls.skip(1);
        lemma_call_symbol(rest, line);
        if calls[0].primary_type_symbol is Some && type_manifest::anchor_line(calls[0].line_number)
            == line {
            assert(is_line(calls[0].line_number, line));
        } else {
            match type_manifest::call_symbol(rest, line) {
                Some(symbol) => {
                    let j = choose|j: int|
                        0 <= j < rest.len() && is_line((#[trigger] rest[j]).line_number, line)
                            && rest[j].primary_type_symbol == Some(symbol);
                    assert(calls[j + 1] == rest[j]);
                },
                None => {
                    assert forall|j: int|
                        0 <= j < calls.len() && is_line(
                            (#[trigger] calls[j]).line_number,
                            line,
                        ) implies calls[j].primary_type_symbol is None by {
                        if j > 0 {
                            assert(rest[j - 1] == calls[j]);
                        }
                    }
                },
            }
        }
    }
}

proof fn lemma_symbol_at(results: Seq<FileResult>, file: Seq<char>, line: u32)
    ensures
        match type_manifest::symbol_at(results, file, line) {
            Some(symbol) => is_named(results, file, line, symbol),
            None => forall|symbol: String| !#[trigger] is_named(results, file, line, symbol),
        },
    decreases results.len(),
{
    if results.len() > 0 {
        let rest = results.skip(1);
        let first = results[0];
        lemma_symbol_at(rest, file, line);
        lemma_endpoint_symbol(first.result.endpoints@, line);
        lemma_call_symbol(first.result.data_calls@, line);
        match type_manifest::symbol_at(results, file, line) {
            Some(symbol) => {
                if first.path@ == file && type_manifest::file_symbol(first.result, line) is Some {
                    assert(names_symbol(results[0], line, symbol));
                } else {
                    let i = choose|i: int|
                        0 <= i < rest.len() && (#[trigger] rest[i]).path@ == file && names_symbol(
                            rest[i],
                            line,
                            symbol,
                        );
                    assert(results[i + 1] == rest[i]);
                }
            },
            None => {
                assert forall|symbol: String| !#[trigger] is_named(results, file, line, symbol) by {
                    if is_named(results, file, line, symbol) {
                        let i = choose|i: int|
                            0 <= i < results.len() && (#[trigger] results[i]).path@ == file
                                && names_symbol(results[i], line, symbol);
                        if i > 0 {
                            assert(rest[i - 1] == results[i]);
                            assert(is_named(rest, file, line, symbol));
                        }
                    }
                }
            },
        }
    }
}

/// An entry gets the symbol that a result names for its own file and line; where
/// none does it stays as it is. Nothing but the symbol changes.
pub proof fn law_symbols_come_from_the_line(entry: TypeManifestEntry, results: Seq<FileResult>)
    ensures
        ({
            let r = type_manifest::stamped(entry, results);
            &&& r == (TypeManifestEntry { primary_type_symbol: r.primary_type_symbol, ..entry })
            &&& (exists|symbol: String| #[trigger]
                is_named(results, entry.file_path@, entry.line_number, symbol)) ==> (
            r.primary_type_symbol is Some && is_named(
                results,
                entry.file_path@,
                entry.line_number,
                r.primary_type_symbol->0,
            ))
            &&& (forall|symbol: String|
                !#[trigger] is_named(results, entry.file_path@, entry.line_number, symbol))
                ==> r.primary_type_symbol == entry.primary_type_symbol
        }),
{
    lemma_symbol_at(results, entry.file_path@, entry.line_number);
}

// ---------------------------------------------------------------------------
// Resolution
// ---------------------------------------------------------------------------

/// Whether the type is the last explicit one of the alias.
pub open spec fn is_last_explicit(types: Seq<ExplicitType>, alias: Seq<char>, i: int) -> bool {
    &&& 0 <= i < types.len()
    &&& types[i].alias@ == alias
    &&& forall|j: int| i < j < types.len() ==> (#[trigger] types[j]).alias@ != alias
}

/// Whether there is no explicit type of the alias.
pub open spec fn none_explicit(types: Seq<ExplicitType>, alias: Seq<char>) -> bool {
    forall|j: int| 0 <= j < types.len() ==> (#[trigger] types[j]).alias@ != alias
}

/// Whether the type is the first inferred one of the alias.
pub open spec fn is_first_inferred(types: Seq<InferredType>, alias: Seq<char>, i: int) -> bool {
    &&& 0 <= i < types.len()
    &&& types[i].alias@ == alias
    &&& forall|j: int| 0 <= j < i ==> (#[trigger] types[j]).alias@ != alias
}

/// Whether there is no inferred type of the alias.
pub open spec fn none_inferred(types: Seq<InferredType>, alias: Seq<char>) -> bool {
    forall|j: int| 0 <= j < types.len() ==> (#[trigger] types[j]).alias@ != alias
}

/// Whether the inferred type is the first of the alias that names a symbol.
pub open spec fn is_first_named(types: Seq<InferredType>, alias: Seq<char>, i: int) -> bool {
    &&& 0 <= i < types.len()
    &&& types[i].alias@ == alias
    &&& types[i].primary_type_symbol is Some
    &&& forall|j: int|
        0 <= j < i && (#[trigger] types[j]).alias@ == alias ==> types[j].primary_type_symbol is None
}

/// Whether a type text says what the shape is: it is not empty, and not
/// `unknown` or `any`.
pub open spec fn has_shape(type_string: Seq<char>) -> bool {
    &&& type_string.len() > 0
    &&& text::trim_spec(type_string) != "unknown"@
    &&& text::trim_spec(type_string) != "any"@
}

/// Whether an entry and its evidence are in a state.
pub open spec fn is_in_state(
    e: TypeManifestEntry,
    is_explicit: bool,
    state: ManifestTypeState,
) -> bool {
    &&& e.is_explicit == is_explicit
    &&& e.type_state == state
    &&& e.evidence.is_explicit == is_explicit
    &&& e.evidence.type_state == state
}

/// Whether an entry is in the state that a resolved type gives it: unknown where
/// the type has no shape or the bundle only a placeholder, else explicit or
/// implicit as the type is.
pub open spec fn is_resolved(
    e: TypeManifestEntry,
    type_string: Seq<char>,
    is_explicit: bool,
    placeholder: bool,
) -> bool {
    if placeholder || !has_shape(type_string) {
        is_in_state(e, false, ManifestTypeState::Unknown)
    } else if is_explicit {
        is_in_state(e, true, ManifestTypeState::Explicit)
    } else {
        is_in_state(e, false, ManifestTypeState::Implicit)
    }
}

/// Whether an entry's state follows from what is known of its alias: an explicit
/// type before an inferred one, and without either the bundle.
pub open spec fn has_state_of(
    before: TypeManifestEntry,
    after: TypeManifestEntry,
    resolution: TypeResolutionResult,
    declared: bool,
    placeholder: bool,
) -> bool {
    let alias = before.type_alias@;
    let explicit = resolution.explicit_manifest@;
    let inferred = resolution.inferred_types@;
    &&& forall|i: int| #[trigger]
        is_last_explicit(explicit, alias, i) ==> is_resolved(
            after,
            explicit[i].type_string@,
            true,
            placeholder,
        )
    &&& forall|i: int| #[trigger]
        is_first_inferred(inferred, alias, i) && none_explicit(explicit, alias) ==> is_resolved(
            after,
            inferred[i].type_string@,
            inferred[i].is_explicit,
            placeholder,
        )
    &&& none_explicit(explicit, alias) && none_inferred(inferred, alias) ==> {
        &&& placeholder ==> is_in_state(after, false, ManifestTypeState::Unknown)
        &&& !placeholder && declared ==> after.type_state == ManifestTypeState::Implicit
            && after.evidence.type_state == ManifestTypeState::Implicit && after.is_explicit
            == before.is_explicit && after.evidence.is_explicit == before.evidence.is_explicit
        &&& !placeholder && !declared ==> after.type_state == before.type_state
            && after.evidence.type_state == before.evidence.type_state && after.is_explicit
            == before.is_explicit && after.evidence.is_explicit == before.evidence.is_explicit
    }
}

/// Whether an entry keeps its symbol, and without one has the first that is
/// inferred for its alias.
pub open spec fn has_symbol_of(
    before: TypeManifestEntry,
    after: TypeManifestEntry,
    resolution: TypeResolutionResult,
) -> bool {
    let alias = before.type_alias@;
    let inferred = resolution.inferred_types@;
    &&& before.primary_type_symbol is Some ==> after.primary_type_symbol
        == before.primary_type_symbol
    &&& before.primary_type_symbol is None ==> {
        &&& forall|i: int| #[trigger]
            is_first_named(inferred, alias, i) ==> after.primary_type_symbol
                == inferred[i].primary_type_symbol
        &&& after.primary_type_symbol is Some ==> exists|i: int| #[trigger]
            is_first_named(inferred, alias, i)
    }
}

/// Whether an entry is still about the same operation and place.
pub open spec fn is_about_the_same(before: TypeManifestEntry, after: TypeManifestEntry) -> bool {
    &&& after.key == before.key
    &&& after.role == before.role
    &&& after.type_kind == before.type_kind
    &&& after.type_alias == before.type_alias
    &&& after.file_path == before.file_path
    &&& after.line_number == before.line_number
    &&& after.resolved_definition == before.resolved_definition
    &&& after.expanded_definition == before.expanded_definition
    &&& after.evidence.file_path == before.evidence.file_path
    &&& after.evidence.span_start == before.evidence.span_start
    &&& after.evidence.span_end == before.evidence.span_end
    &&& after.evidence.line_number == before.evidence.line_number
    &&& after.evidence.infer_kind == before.evidence.infer_kind
}

/// Whether an entry was enriched by what is known of its alias.
pub open spec fn is_enriched(
    before: TypeManifestEntry,
    after: TypeManifestEntry,
    resolution: TypeResolutionResult,
    dts: Option<Seq<char>>,
) -> bool {
    &&& is_about_the_same(before, after)
    &&& has_symbol_of(before, after, resolution)
    &&& has_state_of(
        before,
        after,
        resolution,
        dts matches Some(d) && type_check::defines_alias(d, before.type_alias@),
        dts matches Some(d) && type_check::trivially_unknown(d, before.type_alias@),
    )
}

proof fn lemma_explicit_type(types: Seq<ExplicitType>, alias: Seq<char>)
    ensures
        match type_manifest::explicit_type(types, alias) {
            Some(t) => !none_explicit(types, alias) && forall|i: int| #[trigger]
                is_last_explicit(types, alias, i) ==> types[i] == t,
            None => none_explicit(types, alias) && forall|i: int|
                !#[trigger] is_last_explicit(types, alias, i),
        },
    decreases types.len(),
{
    if types.len() > 0 {
        let front = types.drop_last();
        lemma_explicit_type(front, alias);
        let n = types.len() - 1;
        if types.last().alias@ == alias {
            assert(types[n].alias@ == alias);
            assert forall|i: int| #[trigger] is_last_explicit(types, alias, i) implies types[i]
                == types.last() by {
                if i < n {
                    assert(types[n].alias@ != alias);
                }
            }
        } else {
            assert forall|i: int| #[trigger] is_last_explicit(types, alias, i) implies i < n
                && is_last_explicit(front, alias, i) && front[i] == types[i] by {
                assert forall|j: int| i < j < front.len() implies (#[trigger] front[j]).alias@
                    != alias by {
                    assert(types[j] == front[j]);
                }
            }
            if type_manifest::explicit_type(front, alias) is Some {
                let j = choose|j: int| 0 <= j < front.len() && (#[trigger] front[j]).alias@ == alias;
                assert(types[j].alias@ == alias);
            } else {
                assert forall|j: int| 0 <= j < types.len() implies (#[trigger] types[j]).alias@
                    != alias by {
                    if j < n {
                        assert(front[j] == types[j]);
                    }
                }
            }
        }
    }
}

proof fn lemma_inferred_type(types: Seq<InferredType>, alias: Seq<char>)
    ensures
        match type_manifest::inferred_type(types, alias) {
            Some(t) => !none_inferred(types, alias) && forall|i: int| #[trigger]
                is_first_inferred(types, alias, i) ==> types[i] == t,
            None => none_inferred(types, alias),
        },
    decreases types.len(),
{
    if types.len() > 0 {
        let rest = types.skip(1);
        lemma_inferred_type(rest, alias);
        if types[0].alias@ == alias {
            assert forall|i: int| #[trigger] is_first_inferred(types, alias, i) implies types[i]
                == types[0] by {
                if i > 0 {
                    assert(types[0].alias@ != alias);
                }
            }
        } else {
            assert forall|i: int| #[trigger] is_first_inferred(types, alias, i) implies i > 0
                && is_first_inferred(rest, alias, i - 1) && rest[i - 1] == types[i] by {
                assert forall|j: int| 0 <= j < i - 1 implies (#[trigger] rest[j]).alias@ != alias by {
                    assert(types[j + 1] == rest[j]);
                }
            }
            if type_manifest::inferred_type(rest, alias) is Some {
                let j = choose|j: int| 0 <= j < rest.len() && (#[trigger] rest[j]).alias@ == alias;
                assert(types[j + 1].alias@ == alias);
            } else {
                assert forall|j: int| 0 <= j < types.len() implies (#[trigger] types[j]).alias@
                    != alias by {
                    if j > 0 {
                        assert(rest[j - 1] == types[j]);
                    }
                }
            }
        }
    }
}

proof fn lemma_inferred_symbol(types: Seq<InferredType>, alias: Seq<char>)
    ensures
        match type_manifest::inferred_symbol(types, alias) {
            Some(s) => exists|i: int| #[trigger]
                is_first_named(types, alias, i) && types[i].primary_type_symbol == Some(s),
            None => forall|i: int| !#[trigger] is_first_named(types, alias, i),
        },
        forall|i: int, j: int| #[trigger]
            is_first_named(types, alias, i) && #[trigger] is_first_named(types, alias, j) ==> i == j,
    decreases types.len(),
{
    assert forall|i: int, j: int| #[trigger]
        is_first_named(types, alias, i) && #[trigger] is_first_named(
            types,
            alias,
            j,
        ) implies i == j by {
        if i < j {
            assert(types[i].alias@ == alias);
        } else if j < i {
            assert(types[j].alias@ == alias);
        }
    }
    if types.len() > 0 {
        let rest = types.skip(1);
        lemma_inferred_symbol(rest, alias);
        if types[0].alias@ == alias && types[0].primary_type_symbol is Some {
            assert(is_first_named(types, alias, 0));
        } else {
            match type_manifest::inferred_symbol(rest, alias) {
                Some(s) => {
                    let i = choose|i: int| #[trigger]
                        is_first_named(rest, alias, i) && rest[i].primary_type_symbol == Some(s);
                    assert(types[i + 1] == rest[i]);
                    assert forall|j: int|
                        0 <= j < i + 1 && (#[trigger] types[j]).alias@
                            == alias implies types[j].primary_type_symbol is None by {
                        if j > 0 {
                            assert(rest[j - 1] == types[j]);
                        }
                    }
                    assert(is_first_named(types, alias, i + 1));
                },
                None => {
                    assert forall|i: int| !#[trigger] is_first_named(types, alias, i) by {
                        if is_first_named(types, alias, i) {
                            assert(i > 0);
                            assert(rest[i - 1] == types[i]);
                            assert forall|j: int|
                                0 <= j < i - 1 && (#[trigger] rest[j]).alias@
                                    == alias implies rest[j].primary_type_symbol is None by {
                                assert(types[j + 1] == rest[j]);
                            }
                            assert(is_first_named(rest, alias, i - 1));
                        }
                    }
                },
            }
        }
    }
}

/// The state of an entry follows from what is known of its alias: an explicit
/// type wins over an inferred one, a type without a shape and a placeholder leave
/// it unknown, and a declared alias without a type is implicit. Its symbol stays,
/// or is the first that is inferred; what it is about stays.
pub proof fn law_enrichment(
    entry: TypeManifestEntry,
    resolution: TypeResolutionResult,
    dts: Option<Seq<char>>,
)
    ensures
        is_enriched(entry, type_manifest::enriched(entry, resolution, dts), resolution, dts),
{
    let alias = entry.type_alias@;
    lemma_explicit_type(resolution.explicit_manifest@, alias);
    lemma_inferred_type(resolution.inferred_types@, alias);
    lemma_inferred_symbol(resolution.inferred_types@, alias);
}

// ---------------------------------------------------------------------------
// Definitions
// ---------------------------------------------------------------------------

/// Whether an alias is one of a resolved entry.
pub open spec fn is_resolved_alias(manifest: Seq<TypeManifestEntry>, alias: Seq<char>) -> bool {
    exists|i: int|
        0 <= i < manifest.len() && (#[trigger] manifest[i]).type_alias@ == alias
            && manifest[i].type_state != ManifestTypeState::Unknown
}

/// Definitions are asked for of just the aliases that have a type, once each.
pub proof fn law_aliases_of_typed_entries(manifest: Seq<TypeManifestEntry>)
    ensures
        type_manifest::resolved_aliases(manifest).no_duplicates(),
        forall|alias: Seq<char>| #[trigger]
            text::among(alias, type_manifest::resolved_aliases(manifest)) <==> is_resolved_alias(
                manifest,
                alias,
            ),
    decreases manifest.len(),
{
    let r = type_manifest::resolved_aliases(manifest);
    if manifest.len() > 0 {
        let front = manifest.drop_last();
        let e = manifest.last();
        law_aliases_of_typed_entries(front);
        let before = type_manifest::resolved_aliases(front);
        assert forall|i: int, j: int| 0 <= i < j < r.len() implies r[i] != r[j] by {
            if j == before.len() {
                assert(before[i] == r[i]);
            }
        }
        assert forall|alias: Seq<char>| #[trigger] text::among(alias, r) <==> is_resolved_alias(
            manifest,
            alias,
        ) by {
            assert(text::among(alias, before) <==> is_resolved_alias(front, alias));
            if text::among(alias, r) {
                let k = choose|k: int| 0 <= k < r.len() && #[trigger] r[k] == alias;
                if k < before.len() {
                    assert(before[k] == alias);
                    assert(is_resolved_alias(front, alias));
                    let i = choose|i: int|
                        0 <= i < front.len() && (#[trigger] front[i]).type_alias@ == alias
                            && front[i].type_state != ManifestTypeState::Unknown;
                    assert(manifest[i] == front[i]);
                } else {
                    assert(manifest[manifest.len() - 1].type_alias@ == alias);
                }
            }
            if is_resolved_alias(manifest, alias) {
                let i = choose|i: int|
                    0 <= i < manifest.len() && (#[trigger] manifest[i]).type_alias@ == alias
                        && manifest[i].type_state != ManifestTypeState::Unknown;
                if i < front.len() {
                    assert(front[i] == manifest[i]);
                }
                if text::among(alias, before) {
                    let k = choose|k: int| 0 <= k < before.len() && #[trigger] before[k] == alias;
                    assert(r[k] == alias);
                } else {
                    assert(r[before.len() as int] == alias);
                }
            }
        }
    }
}

/// Whether the definition is the last one of the alias.
pub open spec fn is_last_definition(
    definitions: Seq<ResolvedDefinition>,
    alias: Seq<char>,
    i: int,
) -> bool {
    &&& 0 <= i < definitions.len()
    &&& definitions[i].type_alias@ == alias
    &&& forall|j: int| i < j < definitions.len() ==> (#[trigger] definitions[j]).type_alias@ != alias
}

proof fn lemma_definition_of(definitions: Seq<ResolvedDefinition>, alias: Seq<char>)
    ensures
        match type_manifest::definition_of(definitions, alias) {
            Some(d) => exists|i: int| #[trigger]
                is_last_definition(definitions, alias, i) && definitions[i] == d,
            None => forall|j: int|
                0 <= j < definitions.len() ==> (#[trigger] definitions[j]).type_alias@ != alias,
        },
    decreases definitions.len(),
{
    if definitions.len() > 0 {
        let front = definitions.drop_last();
        lemma_definition_of(front, alias);
        if definitions.last().type_alias@ == alias {
            assert(is_last_definition(definitions, alias, definitions.len() - 1));
        } else {
            match type_manifest::definition_of(front, alias) {
                Some(d) => {
                    let i = choose|i: int| #[trigger]
                        is_last_definition(front, alias, i) && front[i] == d;
                    assert forall|j: int| i < j < definitions.len() implies (
                    #[trigger] definitions[j]).type_alias@ != alias by {
                        if j < front.len() {
                            assert(front[j] == definitions[j]);
                        }
                    }
                    assert(is_last_definition(definitions, alias, i));
                },
                None => {
                    assert forall|j: int| 0 <= j < definitions.len() implies (
                    #[trigger] definitions[j]).type_alias@ != alias by {
                        if j < front.len() {
                            assert(front[j] == definitions[j]);
                        }
                    }
                },
            }
        }
    }
}

/// An entry gets the definition and the expanded definition that were printed
/// last for its own alias, each in its place; without one it stays as it is.
pub proof fn law_definitions_go_to_their_alias(
    entry: TypeManifestEntry,
    definitions: Seq<ResolvedDefinition>,
)
    ensures
        ({
            let r = type_manifest::defined(entry, definitions);
            &&& forall|i: int| #[trigger]
                is_last_definition(definitions, entry.type_alias@, i) ==> r.resolved_definition
                    == Some(definitions[i].definition) && r.expanded_definition == Some(
                    definitions[i].expanded,
                )
            &&& (forall|j: int|
                0 <= j < definitions.len() ==> (#[trigger] definitions[j]).type_alias@
                    != entry.type_alias@) ==> r == entry
            &&& r == (TypeManifestEntry {
                resolved_definition: r.resolved_definition,
                expanded_definition: r.expanded_definition,
                ..entry
            })
        }),
{
    let alias = entry.type_alias@;
    lemma_definition_of(definitions, alias);
    let r = type_manifest::defined(entry, definitions);
    assert forall|i: int| #[trigger]
        is_last_definition(definitions, alias, i) implies r.resolved_definition == Some(
        definitions[i].definition,
    ) && r.expanded_definition == Some(definitions[i].expanded) by {
        assert(definitions[i].type_alias@ == alias);
        let k = choose|k: int| #[trigger]
            is_last_definition(definitions, alias, k) && definitions[k]
                == type_manifest::definition_of(definitions, alias)->0;
        if i < k {
            assert(definitions[k].type_alias@ == alias);
        } else if k < i {
            assert(definitions[i].type_alias@ == alias);
        }
    }
}

} // verus!
