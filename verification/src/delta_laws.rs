//! What holds of the changes that a pull request makes to the index.

use vstd::prelude::*;

use crate::cloud_storage::{ApiEndpointDetails, CloudRepoData};
use crate::findings::EndpointRefModel;
use crate::operation::{GraphqlOperationKind, KeyModel, SocketDirection};
use crate::pr_delta::IdModel;
use crate::{operation, pr_delta, sorting};

verus! {

/// Whether a record of a service lists the operation.
pub open spec fn lists(repo: CloudRepoData, service: Option<Seq<char>>, key: KeyModel) -> bool {
    repo.service_name.deep_view() == service && exists|j: int|
        0 <= j < repo.endpoints@.len() && (#[trigger] repo.endpoints@[j]).key@ == key
}

/// Whether one of the services serves the operation.
pub open spec fn is_served(
    services: Seq<CloudRepoData>,
    service: Option<Seq<char>>,
    key: KeyModel,
) -> bool {
    exists|i: int| 0 <= i < services.len() && lists(#[trigger] services[i], service, key)
}

/// Whether a service of the repository serves the operation by the index.
pub open spec fn was_served(
    repos: Seq<CloudRepoData>,
    repo_name: Seq<char>,
    service: Option<Seq<char>>,
    key: KeyModel,
) -> bool {
    exists|i: int|
        0 <= i < repos.len() && (#[trigger] repos[i]).repo_name@ == repo_name && lists(
            repos[i],
            service,
            key,
        )
}

/// Whether an operation is shown as a method and a path: by its own for HTTP, by
/// the direction and the event for a socket, by the kind and the field for
/// GraphQL, and as `pubsub` and the topic.
pub open spec fn is_shown_as(key: KeyModel, method: Seq<char>, path: Seq<char>) -> bool {
    match key {
        KeyModel::Http { method: m, path: p } => method == m && path == p,
        KeyModel::Socket { event, direction } => path == event && method == match direction {
            SocketDirection::ServerToClient => "SERVER->CLIENT"@,
            SocketDirection::ClientToServer => "CLIENT->SERVER"@,
        },
        KeyModel::Graphql { kind, field } => path == field && method == match kind {
            GraphqlOperationKind::Query => "query"@,
            GraphqlOperationKind::Mutation => "mutation"@,
            GraphqlOperationKind::Subscription => "subscription"@,
        },
        KeyModel::Pubsub { topic } => method == "pubsub"@ && path == topic,
    }
}

proof fn lemma_with_endpoints(
    ids: Seq<IdModel>,
    service: Option<String>,
    endpoints: Seq<ApiEndpointDetails>,
    id: IdModel,
)
    ensures
        pr_delta::with_endpoints(ids, service, endpoints).contains(id) <==> ids.contains(id) || (
        service.deep_view() == id.service && exists|j: int|
            0 <= j < endpoints.len() && (#[trigger] endpoints[j]).key@ == id.key),
    decreases endpoints.len(),
{
    if endpoints.len() > 0 {
        let front = endpoints.drop_last();
        lemma_with_endpoints(ids, service, front, id);
        let before = pr_delta::with_endpoints(ids, service, front);
        let last = pr_delta::id_of(service, endpoints.last());
        let after = pr_delta::with_id(before, last);
        assert(after.contains(id) <==> before.contains(id) || id == last) by {
            if before.contains(id) {
                let k = choose|k: int| 0 <= k < before.len() && before[k] == id;
                assert(after[k] == id);
            }
            if !before.contains(last) {
                assert(after[before.len() as int] == last);
            }
            if after.contains(id) && id != last {
                let k = choose|k: int| 0 <= k < after.len() && after[k] == id;
                assert(before[k] == id);
            }
        }
        if exists|j: int| 0 <= j < front.len() && (#[trigger] front[j]).key@ == id.key {
            let j = choose|j: int| 0 <= j < front.len() && (#[trigger] front[j]).key@ == id.key;
            assert(endpoints[j].key@ == id.key);
        }
        if id == last {
            assert(endpoints[endpoints.len() - 1].key@ == id.key);
        }
        if exists|j: int| 0 <= j < endpoints.len() && (#[trigger] endpoints[j]).key@ == id.key {
            let j = choose|j: int|
                0 <= j < endpoints.len() && (#[trigger] endpoints[j]).key@ == id.key;
            if j < front.len() {
                assert(front[j].key@ == id.key);
            }
        }
    }
}

/// The operations of the services are just those that one of them lists.
pub proof fn law_served_now(services: Seq<CloudRepoData>, id: IdModel)
    ensures
        pr_delta::served(services).contains(id) <==> is_served(services, id.service, id.key),
    decreases services.len(),
{
    if services.len() > 0 {
        let front = services.drop_last();
        let last = services.last();
        law_served_now(front, id);
        lemma_with_endpoints(
            pr_delta::served(front),
            last.service_name,
            last.endpoints@,
            id,
        );
        if is_served(front, id.service, id.key) {
            let i = choose|i: int|
                0 <= i < front.len() && lists(#[trigger] front[i], id.service, id.key);
            assert(services[i] == front[i]);
        }
        if lists(last, id.service, id.key) {
            assert(lists(services[services.len() - 1], id.service, id.key));
        }
        if is_served(services, id.service, id.key) {
            let i = choose|i: int|
                0 <= i < services.len() && lists(#[trigger] services[i], id.service, id.key);
            if i < front.len() {
                assert(front[i] == services[i]);
            }
        }
    }
}

/// The operations of a repository are just those that one of its own records
/// lists.
pub proof fn law_served_before(repos: Seq<CloudRepoData>, repo_name: Seq<char>, id: IdModel)
    ensures
        pr_delta::served_by(repos, repo_name).contains(id) <==> was_served(
            repos,
            repo_name,
            id.service,
            id.key,
        ),
    decreases repos.len(),
{
    if repos.len() > 0 {
        let front = repos.drop_last();
        let last = repos.last();
        law_served_before(front, repo_name, id);
        lemma_with_endpoints(
            pr_delta::served_by(front, repo_name),
            last.service_name,
            last.endpoints@,
            id,
        );
        if was_served(front, repo_name, id.service, id.key) {
            let i = choose|i: int|
                0 <= i < front.len() && (#[trigger] front[i]).repo_name@ == repo_name && lists(
                    front[i],
                    id.service,
                    id.key,
                );
            assert(repos[i] == front[i]);
        }
        if last.repo_name@ == repo_name && lists(last, id.service, id.key) {
            assert(repos[repos.len() - 1].repo_name@ == repo_name);
        }
        if was_served(repos, repo_name, id.service, id.key) {
            let i = choose|i: int|
                0 <= i < repos.len() && (#[trigger] repos[i]).repo_name@ == repo_name && lists(
                    repos[i],
                    id.service,
                    id.key,
                );
            if i < front.len() {
                assert(front[i] == repos[i]);
            }
        }
    }
}

/// Whether a shown operation is that of one list and not of the other.
pub open spec fn is_only_in(
    e: EndpointRefModel,
    ids: Seq<IdModel>,
    others: Seq<IdModel>,
    id: IdModel,
) -> bool {
    ids.contains(id) && !others.contains(id) && e.service == id.service && is_shown_as(
        id.key,
        e.method,
        e.path,
    )
}

proof fn lemma_shown_without(ids: Seq<IdModel>, others: Seq<IdModel>, e: EndpointRefModel)
    ensures
        pr_delta::shown_without(ids, others).contains(e) <==> exists|id: IdModel| #[trigger]
            is_only_in(e, ids, others, id),
    decreases ids.len(),
{
    let r = pr_delta::shown_without(ids, others);
    if ids.len() > 0 {
        let front = ids.drop_last();
        let last = ids.last();
        let before = pr_delta::shown_without(front, others);
        lemma_shown_without(front, others, e);
        assert(ids[ids.len() - 1] == last);
        if exists|id: IdModel| #[trigger] is_only_in(e, front, others, id) {
            let id = choose|id: IdModel| #[trigger] is_only_in(e, front, others, id);
            let k = choose|k: int| 0 <= k < front.len() && front[k] == id;
            assert(ids[k] == id);
            assert(is_only_in(e, ids, others, id));
        }
        if r.contains(e) {
            let k = choose|k: int| 0 <= k < r.len() && r[k] == e;
            if k < before.len() {
                assert(before[k] == e);
            } else {
                assert(is_only_in(e, ids, others, last));
            }
        }
        if exists|id: IdModel| #[trigger] is_only_in(e, ids, others, id) {
            let id = choose|id: IdModel| #[trigger] is_only_in(e, ids, others, id);
            let k = choose|k: int| 0 <= k < ids.len() && ids[k] == id;
            if k < front.len() {
                assert(front[k] == id);
                assert(is_only_in(e, front, others, id));
                assert(before.contains(e));
                let j = choose|j: int| 0 <= j < before.len() && before[j] == e;
                assert(r[j] == e);
            } else {
                assert(pr_delta::shown(last) == e);
                assert(r[before.len() as int] == e);
            }
        }
    } else {
        assert forall|id: IdModel| !#[trigger] is_only_in(e, ids, others, id) by {}
    }
}

proof fn lemma_sorted_contains<T: sorting::Keyed>(s: Seq<T>, x: T)
    ensures
        sorting::sorted_by_key(s).contains(x) <==> s.contains(x),
{
    sorting::lemma_sorted_by_key(s);
    let r = sorting::sorted_by_key(s);
    s.to_multiset_ensures();
    r.to_multiset_ensures();
    assert(r.to_multiset().count(x) > 0 <==> r.contains(x));
    assert(s.to_multiset().count(x) > 0 <==> s.contains(x));
}

/// Whether an operation that is shown so is served now and was not before.
pub open spec fn is_added(
    repos: Seq<CloudRepoData>,
    repo_name: Seq<char>,
    services: Seq<CloudRepoData>,
    e: EndpointRefModel,
    key: KeyModel,
) -> bool {
    &&& is_shown_as(key, e.method, e.path)
    &&& is_served(services, e.service, key)
    &&& !was_served(repos, repo_name, e.service, key)
}

/// Whether an operation that is shown so was served and is not any more.
pub open spec fn is_removed(
    repos: Seq<CloudRepoData>,
    repo_name: Seq<char>,
    services: Seq<CloudRepoData>,
    e: EndpointRefModel,
    key: KeyModel,
) -> bool {
    &&& is_shown_as(key, e.method, e.path)
    &&& was_served(repos, repo_name, e.service, key)
    &&& !is_served(services, e.service, key)
}

/// What is listed as new is just what is served now and was not served by this
/// repository before; what is listed as removed is just the reverse.
pub proof fn law_delta(
    repos: Seq<CloudRepoData>,
    repo_name: Seq<char>,
    services: Seq<CloudRepoData>,
    e: EndpointRefModel,
)
    ensures
        sorting::sorted_by_key(
            pr_delta::shown_without(
                pr_delta::served(services),
                pr_delta::served_by(repos, repo_name),
            ),
        ).contains(e) <==> exists|key: KeyModel| #[trigger]
            is_added(repos, repo_name, services, e, key),
        sorting::sorted_by_key(
            pr_delta::shown_without(
                pr_delta::served_by(repos, repo_name),
                pr_delta::served(services),
            ),
        ).contains(e) <==> exists|key: KeyModel| #[trigger]
            is_removed(repos, repo_name, services, e, key),
{
    let now = pr_delta::served(services);
    let past = pr_delta::served_by(repos, repo_name);
    lemma_shown_without(now, past, e);
    lemma_shown_without(past, now, e);
    lemma_sorted_contains(pr_delta::shown_without(now, past), e);
    lemma_sorted_contains(pr_delta::shown_without(past, now), e);
    if exists|id: IdModel| #[trigger] is_only_in(e, now, past, id) {
        let id = choose|id: IdModel| #[trigger] is_only_in(e, now, past, id);
        law_served_now(services, id);
        law_served_before(repos, repo_name, id);
        assert(is_added(repos, repo_name, services, e, id.key));
    }
    if exists|id: IdModel| #[trigger] is_only_in(e, past, now, id) {
        let id = choose|id: IdModel| #[trigger] is_only_in(e, past, now, id);
        law_served_now(services, id);
        law_served_before(repos, repo_name, id);
        assert(is_removed(repos, repo_name, services, e, id.key));
    }
    if exists|key: KeyModel| #[trigger] is_added(repos, repo_name, services, e, key) {
        let key = choose|key: KeyModel| #[trigger] is_added(repos, repo_name, services, e, key);
        let id = IdModel { service: e.service, key };
        law_served_now(services, id);
        law_served_before(repos, repo_name, id);
        assert(is_only_in(e, now, past, id));
    }
    if exists|key: KeyModel| #[trigger] is_removed(repos, repo_name, services, e, key) {
        let key = choose|key: KeyModel| #[trigger] is_removed(repos, repo_name, services, e, key);
        let id = IdModel { service: e.service, key };
        law_served_now(services, id);
        law_served_before(repos, repo_name, id);
        assert(is_only_in(e, past, now, id));
    }
}

/// The records of the other repositories are just those under another name, in
/// their order.
pub proof fn law_other_repositories(repos: Seq<CloudRepoData>, repo_name: Seq<char>)
    ensures
        pr_delta::other_repos(repos, repo_name) == repos.filter(
            |repo: CloudRepoData| repo.repo_name@ != repo_name,
        ),
    decreases repos.len(),
{
    reveal(Seq::filter);
    if repos.len() > 0 {
        law_other_repositories(repos.drop_last(), repo_name);
    }
}

/// The text forms of two operations are the same only if the operations are,
/// where a method holds no separator.
pub proof fn law_text_form_tells_apart(a: KeyModel, b: KeyModel)
    requires
        a matches KeyModel::Http { method, .. } ==> !method.contains('|'),
        b matches KeyModel::Http { method, .. } ==> !method.contains('|'),
        operation::canonical_spec(a) == operation::canonical_spec(b),
    ensures
        a == b,
{
    reveal_strlit("http|");
    reveal_strlit("socket|");
    reveal_strlit("graphql|");
    reveal_strlit("pubsub|");
    reveal_strlit("|");
    reveal_strlit("SERVER->CLIENT");
    reveal_strlit("CLIENT->SERVER");
    reveal_strlit("query");
    reveal_strlit("mutation");
    reveal_strlit("subscription");
    let x = operation::canonical_spec(a);
    let y = operation::canonical_spec(b);
    assert(x[0] == y[0]);
    match (a, b) {
        (KeyModel::Http { method: m, path: p }, KeyModel::Http { method: n, path: q }) => {
            assert(x =~= "http|"@ + (m + "|"@ + p));
            assert(y =~= "http|"@ + (n + "|"@ + q));
            assert(x.skip(5) =~= m + "|"@ + p);
            assert(y.skip(5) =~= n + "|"@ + q);
            lemma_first_part(m, p, n, q);
        },
        (KeyModel::Socket { event: e, direction: d }, KeyModel::Socket { event: f, direction: g }) => {
            assert(x[7] == operation::direction_label(d)[0]);
            assert(y[7] == operation::direction_label(g)[0]);
            assert(d == g);
            let k = 7 + operation::direction_label(d).len() as int + 1;
            assert(x.skip(k) =~= e);
            assert(y.skip(k) =~= f);
        },
        (KeyModel::Graphql { kind: k, field: e }, KeyModel::Graphql { kind: l, field: f }) => {
            assert(x[8] == operation::kind_name(k)[0]);
            assert(y[8] == operation::kind_name(l)[0]);
            assert(k == l);
            let n = 8 + operation::kind_name(k).len() as int + 1;
            assert(x.skip(n) =~= e);
            assert(y.skip(n) =~= f);
        },
        (KeyModel::Pubsub { topic: t }, KeyModel::Pubsub { topic: u }) => {
            assert(x.skip(7) =~= t);
            assert(y.skip(7) =~= u);
        },
        _ => {},
    }
}

proof fn lemma_first_part(m: Seq<char>, p: Seq<char>, n: Seq<char>, q: Seq<char>)
    requires
        !m.contains('|'),
        !n.contains('|'),
        m + "|"@ + p == n + "|"@ + q,
    ensures
        m == n,
        p == q,
{
    reveal_strlit("|");
    let x = m + "|"@ + p;
    let y = n + "|"@ + q;
    assert(x[m.len() as int] == '|');
    assert(y[n.len() as int] == '|');
    if m.len() < n.len() {
        assert(n[m.len() as int] == y[m.len() as int]);
        assert(n.contains('|'));
    } else if n.len() < m.len() {
        assert(m[n.len() as int] == x[n.len() as int]);
        assert(m.contains('|'));
    }
    assert(x.take(m.len() as int) =~= m);
    assert(y.take(n.len() as int) =~= n);
    assert(x.skip(m.len() as int + 1) =~= p);
    assert(y.skip(n.len() as int + 1) =~= q);
}

} // verus!
