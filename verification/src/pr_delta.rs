//! What a pull request adds to and takes from the index of its repository.

use vstd::prelude::*;

use crate::cloud_storage::{ApiEndpointDetails, CloudRepoData, TypeManifestEntry};
use crate::findings::{EndpointRef, EndpointRefModel, PrDelta};
use crate::operation::OperationKey;
use crate::{operation, sorting, text};

verus! {

/// An operation of a service. The same route in two services is two
/// operations.
#[derive(Debug)]
pub struct OperationId {
    pub service: Option<String>,
    pub key: OperationKey,
}

/// The model of an [`OperationId`].
pub struct IdModel {
    pub service: Option<Seq<char>>,
    pub key: operation::KeyModel,
}

impl DeepView for OperationId {
    type V = IdModel;

    open spec fn deep_view(&self) -> IdModel {
        IdModel { service: self.service.deep_view(), key: self.key@ }
    }
}

/// The operation of an endpoint.
pub open spec fn id_of(service: Option<String>, endpoint: ApiEndpointDetails) -> IdModel {
    IdModel { service: service.deep_view(), key: endpoint.key@ }
}

/// A list with an operation that it did not hold at its end.
pub open spec fn with_id(ids: Seq<IdModel>, id: IdModel) -> Seq<IdModel> {
    if ids.contains(id) {
        ids
    } else {
        ids.push(id)
    }
}

/// A list with the endpoints of a service.
pub open spec fn with_endpoints(
    ids: Seq<IdModel>,
    service: Option<String>,
    endpoints: Seq<ApiEndpointDetails>,
) -> Seq<IdModel>
    decreases endpoints.len(),
{
    if endpoints.len() == 0 {
        ids
    } else {
        with_id(
            with_endpoints(ids, service, endpoints.drop_last()),
            id_of(service, endpoints.last()),
        )
    }
}

/// The operations that services serve, each once.
pub open spec fn served(services: Seq<CloudRepoData>) -> Seq<IdModel>
    decreases services.len(),
{
    if services.len() == 0 {
        Seq::empty()
    } else {
        let last = services.last();
        with_endpoints(served(services.drop_last()), last.service_name, last.endpoints@)
    }
}

/// The operations that one repository's services serve, each once.
pub open spec fn served_by(repos: Seq<CloudRepoData>, repo_name: Seq<char>) -> Seq<IdModel>
    decreases repos.len(),
{
    if repos.len() == 0 {
        Seq::empty()
    } else {
        let before = served_by(repos.drop_last(), repo_name);
        let last = repos.last();
        if last.repo_name@ == repo_name {
            with_endpoints(before, last.service_name, last.endpoints@)
        } else {
            before
        }
    }
}

fn same_id(id: &OperationId, service: &Option<String>, key: &OperationKey) -> (r: bool)
    ensures
        r == (id.deep_view() == (IdModel { service: service.deep_view(), key: key@ })),
{
    text::same_opt(&id.service, service) && id.key.same(key)
}

fn holds_id(ids: &Vec<OperationId>, service: &Option<String>, key: &OperationKey) -> (r: bool)
    ensures
        r == ids.deep_view().contains(IdModel { service: service.deep_view(), key: key@ }),
{
    let ghost id = IdModel { service: service.deep_view(), key: key@ };
    let ghost all = ids.deep_view();
    let mut i: usize = 0;
    while i < ids.len()
        invariant
            i <= ids@.len(),
            all == ids.deep_view(),
            id == (IdModel { service: service.deep_view(), key: key@ }),
            forall|k: int| 0 <= k < i ==> all[k] != id,
        decreases ids@.len() - i,
    {
        assert(all[i as int] == ids@[i as int].deep_view());
        if same_id(&ids[i], service, key) {
            return true;
        }
        i += 1;
    }
    false
}

fn put_endpoints(
    ids: &mut Vec<OperationId>,
    service: &Option<String>,
    endpoints: &Vec<ApiEndpointDetails>,
)
    ensures
        final(ids).deep_view() == with_endpoints(old(ids).deep_view(), *service, endpoints@),
{
    let ghost start = ids.deep_view();
    let mut i: usize = 0;
    while i < endpoints.len()
        invariant
            i <= endpoints@.len(),
            ids.deep_view() == with_endpoints(start, *service, endpoints@.take(i as int)),
        decreases endpoints@.len() - i,
    {
        assert(endpoints@.take(i + 1).drop_last() =~= endpoints@.take(i as int));
        if !holds_id(ids, service, &endpoints[i].key) {
            text::push_deep(
                ids,
                OperationId { service: text::copy_opt(service), key: endpoints[i].key.clone() },
            );
        }
        i += 1;
    }
    assert(endpoints@.take(i as int) =~= endpoints@);
}

/// The operations that services serve, each once.
pub fn served_operations(services: &Vec<CloudRepoData>) -> (r: Vec<OperationId>)
    ensures
        r.deep_view() == served(services@),
{
    let mut ids: Vec<OperationId> = Vec::new();
    assert(ids.deep_view() =~= Seq::empty());
    let mut i: usize = 0;
    while i < services.len()
        invariant
            i <= services@.len(),
            ids.deep_view() == served(services@.take(i as int)),
        decreases services@.len() - i,
    {
        assert(services@.take(i + 1).drop_last() =~= services@.take(i as int));
        put_endpoints(&mut ids, &services[i].service_name, &services[i].endpoints);
        i += 1;
    }
    assert(services@.take(i as int) =~= services@);
    ids
}

/// The operations that one repository's services serve, each once.
pub fn operations_of_repo(repos: &Vec<CloudRepoData>, repo_name: &str) -> (r: Vec<OperationId>)
    ensures
        r.deep_view() == served_by(repos@, repo_name@),
{
    let mut ids: Vec<OperationId> = Vec::new();
    assert(ids.deep_view() =~= Seq::empty());
    let mut i: usize = 0;
    while i < repos.len()
        invariant
            i <= repos@.len(),
            ids.deep_view() == served_by(repos@.take(i as int), repo_name@),
        decreases repos@.len() - i,
    {
        assert(repos@.take(i + 1).drop_last() =~= repos@.take(i as int));
        if text::same_text(&repos[i].repo_name, repo_name) {
            put_endpoints(&mut ids, &repos[i].service_name, &repos[i].endpoints);
        }
        i += 1;
    }
    assert(repos@.take(i as int) =~= repos@);
    ids
}

/// Whether the repository is in the index already.
pub open spec fn is_indexed(repos: Seq<CloudRepoData>, repo_name: Seq<char>) -> bool {
    exists|i: int| 0 <= i < repos.len() && (#[trigger] repos[i]).repo_name@ == repo_name
}

/// Whether the repository is in the index already, be it without endpoints.
pub fn had_prior_index(repos: &Vec<CloudRepoData>, repo_name: &str) -> (r: bool)
    ensures
        r == is_indexed(repos@, repo_name@),
{
    let mut i: usize = 0;
    while i < repos.len()
        invariant
            i <= repos@.len(),
            forall|k: int| 0 <= k < i ==> (#[trigger] repos@[k]).repo_name@ != repo_name@,
        decreases repos@.len() - i,
    {
        if text::same_text(&repos[i].repo_name, repo_name) {
            return true;
        }
        i += 1;
    }
    false
}

// ---------------------------------------------------------------------------
// The delta
// ---------------------------------------------------------------------------

/// How an operation is shown.
pub open spec fn shown(id: IdModel) -> EndpointRefModel {
    EndpointRefModel {
        method: operation::labels(id.key).0,
        path: operation::labels(id.key).1,
        service: id.service,
    }
}

/// The operations that are not among the others, as they are shown.
pub open spec fn shown_without(ids: Seq<IdModel>, others: Seq<IdModel>) -> Seq<EndpointRefModel>
    decreases ids.len(),
{
    if ids.len() == 0 {
        Seq::empty()
    } else {
        let before = shown_without(ids.drop_last(), others);
        if others.contains(ids.last()) {
            before
        } else {
            before.push(shown(ids.last()))
        }
    }
}

fn show_without(ids: &Vec<OperationId>, others: &Vec<OperationId>) -> (r: Vec<EndpointRef>)
    ensures
        r.deep_view() == sorting::sorted_by_key(shown_without(ids.deep_view(), others.deep_view())),
{
    let ghost all = ids.deep_view();
    let mut out: Vec<EndpointRef> = Vec::new();
    assert(out.deep_view() =~= Seq::empty());
    let mut i: usize = 0;
    while i < ids.len()
        invariant
            i <= ids@.len(),
            all == ids.deep_view(),
            out.deep_view() == shown_without(all.take(i as int), others.deep_view()),
        decreases ids@.len() - i,
    {
        assert(all.take(i + 1).drop_last() =~= all.take(i as int));
        assert(all[i as int] == ids@[i as int].deep_view());
        if !holds_id(others, &ids[i].service, &ids[i].key) {
            let (method, path) = ids[i].key.display_labels();
            text::push_deep(
                &mut out,
                EndpointRef { method, path, service: text::copy_opt(&ids[i].service) },
            );
        }
        i += 1;
    }
    assert(all.take(i as int) =~= all);
    let ghost unsorted = out@;
    let sorted = sorting::sort_by_key(out);
    proof {
        sorting::lemma_sorted_models::<EndpointRefModel, EndpointRef>(unsorted);
        assert(sorting::models(unsorted) =~= shown_without(all, others.deep_view()));
        assert(sorted.deep_view() =~= sorting::models(sorted@));
    }
    sorted
}

/// What a change adds and removes, by method, path and service: the operations
/// served now and not before, and those served before and not now.
pub fn compute_pr_delta(previous: &Vec<OperationId>, current_services: &Vec<CloudRepoData>) -> (r:
    PrDelta)
    ensures
        r.new_endpoints.deep_view() == sorting::sorted_by_key(
            shown_without(served(current_services@), previous.deep_view()),
        ),
        r.removed_endpoints.deep_view() == sorting::sorted_by_key(
            shown_without(previous.deep_view(), served(current_services@)),
        ),
{
    let current = served_operations(current_services);
    PrDelta {
        new_endpoints: show_without(&current, previous),
        removed_endpoints: show_without(previous, &current),
    }
}

/// What a run on a pull request reports as changed. There is nothing to compare
/// with outside of one, nor where the repository is not indexed yet.
pub fn pr_delta_of_run(
    is_pr_run: bool,
    repos: &Vec<CloudRepoData>,
    repo_name: &str,
    current_services: &Vec<CloudRepoData>,
) -> (r: Option<PrDelta>)
    ensures
        r is Some <==> is_pr_run && is_indexed(repos@, repo_name@),
        r matches Some(delta) ==> delta.new_endpoints.deep_view() == sorting::sorted_by_key(
            shown_without(served(current_services@), served_by(repos@, repo_name@)),
        ) && delta.removed_endpoints.deep_view() == sorting::sorted_by_key(
            shown_without(served_by(repos@, repo_name@), served(current_services@)),
        ),
{
    if !is_pr_run || !had_prior_index(repos, repo_name) {
        return None;
    }
    let previous = operations_of_repo(repos, repo_name);
    Some(compute_pr_delta(&previous, current_services))
}

proof fn lemma_shown_without(ids: Seq<IdModel>, others: Seq<IdModel>)
    requires
        forall|id: IdModel| ids.contains(id) ==> others.contains(id),
    ensures
        shown_without(ids, others).len() == 0,
    decreases ids.len(),
{
    if ids.len() > 0 {
        assert(ids.contains(ids[ids.len() - 1]));
        assert forall|id: IdModel| ids.drop_last().contains(id) implies others.contains(id) by {
            let i = choose|i: int| 0 <= i < ids.drop_last().len() && ids.drop_last()[i] == id;
            assert(ids[i] == id);
        }
        lemma_shown_without(ids.drop_last(), others);
    }
}

/// Where the same operations are served as before, in whatever order, nothing
/// is new and nothing is removed.
pub proof fn law_unchanged_operations_no_delta(previous: Seq<IdModel>, current: Seq<IdModel>)
    requires
        forall|id: IdModel| previous.contains(id) <==> current.contains(id),
    ensures
        sorting::sorted_by_key(shown_without(current, previous)).len() == 0,
        sorting::sorted_by_key(shown_without(previous, current)).len() == 0,
{
    lemma_shown_without(current, previous);
    lemma_shown_without(previous, current);
}

/// The order in which the changes are listed does not depend on the order in
/// which they were found: it is that of method, path and service.
pub proof fn law_delta_is_ordered(ids: Seq<IdModel>, others: Seq<IdModel>)
    ensures
        sorting::keys_ordered(sorting::sorted_by_key(shown_without(ids, others))),
        sorting::sorted_by_key(shown_without(ids, others)).to_multiset() == shown_without(
            ids,
            others,
        ).to_multiset(),
{
    sorting::lemma_sorted_by_key(shown_without(ids, others));
}

// ---------------------------------------------------------------------------
// The repository among the others
// ---------------------------------------------------------------------------

/// The records of the other repositories.
pub open spec fn other_repos(repos: Seq<CloudRepoData>, repo_name: Seq<char>) -> Seq<CloudRepoData>
    decreases repos.len(),
{
    if repos.len() == 0 {
        Seq::empty()
    } else {
        let before = other_repos(repos.drop_last(), repo_name);
        if repos.last().repo_name@ == repo_name {
            before
        } else {
            before.push(repos.last())
        }
    }
}

/// Takes out the records of this repository, so that its new ones are used.
pub fn retain_other_repos(repos: Vec<CloudRepoData>, repo_name: &str) -> (r: Vec<CloudRepoData>)
    ensures
        r@ == other_repos(repos@, repo_name@),
{
    let ghost all = repos@;
    let mut out: Vec<CloudRepoData> = Vec::new();
    assert(all.take(0) =~= Seq::empty());
    for repo in it: repos
        invariant
            it.seq() == all,
            out@ == other_repos(all.take(it.index()), repo_name@),
    {
        assert(all.take(it.index() + 1).drop_last() =~= all.take(it.index()));
        assert(all.take(it.index() + 1).last() == all[it.index()]);
        if !text::same_text(&repo.repo_name, repo_name) {
            out.push(repo);
        }
    }
    assert(all.take(all.len() as int) =~= all);
    out
}

/// Whether a record is of the service.
pub open spec fn is_record_of(
    repo: CloudRepoData,
    repo_name: Seq<char>,
    service_name: Option<Seq<char>>,
) -> bool {
    repo.repo_name@ == repo_name && repo.service_name.deep_view() == service_name
}

/// The place of the last record of a service: the first that is of it. No
/// record counts where caching is off.
pub fn previous_record(
    repos: &Vec<CloudRepoData>,
    repo_name: &str,
    service_name: &Option<String>,
    no_cache: bool,
) -> (r: Option<usize>)
    ensures
        match r {
            Some(i) => {
                &&& !no_cache
                &&& i < repos@.len()
                &&& is_record_of(repos@[i as int], repo_name@, service_name.deep_view())
                &&& forall|k: int|
                    0 <= k < i ==> !is_record_of(
                        #[trigger] repos@[k],
                        repo_name@,
                        service_name.deep_view(),
                    )
            },
            None => no_cache || forall|k: int|
                0 <= k < repos@.len() ==> !is_record_of(
                    #[trigger] repos@[k],
                    repo_name@,
                    service_name.deep_view(),
                ),
        },
{
    if no_cache {
        return None;
    }
    let mut i: usize = 0;
    while i < repos.len()
        invariant
            i <= repos@.len(),
            !no_cache,
            forall|k: int|
                0 <= k < i ==> !is_record_of(
                    #[trigger] repos@[k],
                    repo_name@,
                    service_name.deep_view(),
                ),
        decreases repos@.len() - i,
    {
        if text::same_text(&repos[i].repo_name, repo_name) && text::same_opt(
            &repos[i].service_name,
            service_name,
        ) {
            return Some(i);
        }
        i += 1;
    }
    None
}

/// The manifest entries of the records, one record after another.
pub open spec fn all_manifest_entries(repos: Seq<CloudRepoData>) -> Seq<TypeManifestEntry>
    decreases repos.len(),
{
    if repos.len() == 0 {
        Seq::empty()
    } else {
        all_manifest_entries(repos.drop_last()) + match repos.last().type_manifest {
            Some(entries) => entries@,
            None => Seq::empty(),
        }
    }
}

fn copy_manifest_entries(repos: &Vec<CloudRepoData>, out: &mut Vec<TypeManifestEntry>)
    ensures
        final(out)@ == old(out)@ + all_manifest_entries(repos@),
{
    let ghost start = out@;
    let mut i: usize = 0;
    assert(start + Seq::<TypeManifestEntry>::empty() =~= start);
    while i < repos.len()
        invariant
            i <= repos@.len(),
            out@ == start + all_manifest_entries(repos@.take(i as int)),
        decreases repos@.len() - i,
    {
        assert(repos@.take(i + 1).drop_last() =~= repos@.take(i as int));
        let ghost before = out@;
        if let Some(entries) = &repos[i].type_manifest {
            let mut j: usize = 0;
            assert(before + entries@.take(0) =~= before);
            while j < entries.len()
                invariant
                    j <= entries@.len(),
                    out@ == before + entries@.take(j as int),
                decreases entries@.len() - j,
            {
                out.push(entries[j].clone());
                j += 1;
                assert(out@ =~= before + entries@.take(j as int));
            }
            assert(entries@.take(j as int) =~= entries@);
        }
        i += 1;
        assert(out@ =~= start + all_manifest_entries(repos@.take(i as int)));
    }
    assert(repos@.take(i as int) =~= repos@);
}

/// The manifest entries of the other repositories and of this one's services.
pub fn flatten_manifests(others: &Vec<CloudRepoData>, current: &Vec<CloudRepoData>) -> (r: Vec<
    TypeManifestEntry,
>)
    ensures
        r@ == all_manifest_entries(others@) + all_manifest_entries(current@),
{
    let mut out: Vec<TypeManifestEntry> = Vec::new();
    copy_manifest_entries(others, &mut out);
    copy_manifest_entries(current, &mut out);
    assert(out@ =~= all_manifest_entries(others@) + all_manifest_entries(current@));
    out
}

} // verus!
