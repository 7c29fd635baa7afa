//! What holds of a run: what it may write, in which order it goes, and what its
//! records hold.

use vstd::prelude::*;

use crate::analyzer::MatchedEdge;
use crate::cloud_storage::{CloudRepoData, CompatVerdict};
use crate::config::{Config, DeclaredPaths};
use crate::engine::{EventModel, RunModel, RunSettings, Step};
use crate::run_context::RunEnvironment;
use crate::{cloud_data, config, engine, naming, paths, run_context, text, text_laws, upload};

verus! {

// ---------------------------------------------------------------------------
// What a run may write
// ---------------------------------------------------------------------------

proof fn lemma_stripped(prefix: Seq<char>, rest: Seq<char>)
    ensures
        text::strip_prefix_spec(prefix + rest, prefix) == Some(rest),
        prefix.is_prefix_of(prefix + rest),
{
    let s = prefix + rest;
    assert(prefix =~= s.subrange(0, prefix.len() as int));
    assert(s.skip(prefix.len() as int) =~= rest);
}

/// Of the branches, `main` and `master` may be written; of a pull request nothing
/// may; any other reference may be.
pub proof fn law_written_references(rest: Seq<char>, other: Seq<char>)
    requires
        other.len() > 5,
        other[5] != 'h',
        other[5] != 'p',
    ensures
        run_context::ref_may_upload("refs/heads/"@ + rest) <==> rest == "main"@ || rest
            == "master"@,
        !run_context::ref_may_upload("refs/pull/"@ + rest),
        run_context::ref_may_upload(other),
{
    reveal_strlit("refs/heads/");
    reveal_strlit("refs/pull/");
    lemma_stripped("refs/heads/"@, rest);
    lemma_stripped("refs/pull/"@, rest);
    let branch = "refs/heads/"@ + rest;
    if "refs/pull/"@.is_prefix_of(branch) {
        assert(branch.subrange(0, 10)[5] == "refs/pull/"@[5]);
    }
    if "refs/pull/"@.is_prefix_of(other) {
        assert(other.subrange(0, 10)[5] == "refs/pull/"@[5]);
    }
    if "refs/heads/"@.is_prefix_of(other) {
        assert(other.subrange(0, 11)[5] == "refs/heads/"@[5]);
    }
}

/// A run may write exactly where it is no evaluation and either keeps its records
/// locally, or is on no pull request and on a reference that may be written.
pub proof fn law_what_may_be_written(env: RunEnvironment)
    ensures
        run_context::may_upload(env) <==> !env.output_json && (env.local_storage || (
        !(env.event_name matches Some(e) && e@ == "pull_request"@) && (
        env.ref_name matches Some(name) ==> run_context::ref_may_upload(name@)))),
{
}

/// The number of a pull request is read back from its reference.
pub proof fn law_pull_request_number(n: u64, rest: Seq<char>)
    ensures
        run_context::pr_number_of(
            Some("refs/pull/"@ + (text::decimal(n as nat) + "/"@ + rest)),
        ) == Some(n),
{
    reveal_strlit("/");
    let number = text::decimal(n as nat);
    let tail = number + "/"@ + rest;
    lemma_stripped("refs/pull/"@, tail);
    text_laws::law_decimal_read_back(n as nat);
    text::lemma_first_index(tail, '/');
    let at = text::first_index(tail, '/');
    assert(tail[number.len() as int] == '/');
    if at < number.len() {
        assert(number[at] == tail[at]);
    }
    assert(tail.take(at) =~= number);
    assert('0' <= number[0] <= '9');
}

/// What is no reference of a pull request has no number.
pub proof fn law_no_pull_request(name: Seq<char>)
    requires
        !"refs/pull/"@.is_prefix_of(name),
    ensures
        run_context::pr_number_of(Some(name)) is None,
        run_context::pr_number_of(None) is None,
{
}

/// What is kept of a log begins no earlier than the run, holds at most the limit,
/// and leaves out no more than that asks.
pub proof fn law_kept_log(file_len: u64, run_start: Option<u64>)
    ensures
        ({
            let start = run_context::log_start(file_len, run_start);
            let begin = match run_start {
                Some(n) => n as int,
                None => 0,
            };
            &&& start >= begin
            &&& file_len - start <= run_context::MAX_LOG_BYTES
            &&& start == begin || file_len - start == run_context::MAX_LOG_BYTES
        }),
{
}

// ---------------------------------------------------------------------------
// The order of a run
// ---------------------------------------------------------------------------

/// The events of a run in which so many services have been analysed.
pub open spec fn analysed(n: usize, done: nat) -> Seq<EventModel> {
    seq![EventModel::Done, EventModel::Done, EventModel::Services(n)] + Seq::new(
        done,
        |i: int| EventModel::Done,
    )
}

/// After the health check and the download the services are resolved, and then
/// analysed one after another, each once; then the quota is asked.
pub proof fn law_services_in_order(n: usize, done: nat, settings: RunSettings)
    requires
        done <= n,
    ensures
        engine::course(Seq::empty(), settings).step == Step::CheckHealth,
        engine::course(seq![EventModel::Done], settings).step == Step::Download,
        engine::course(seq![EventModel::Done, EventModel::Done], settings).step
            == Step::ResolveServices,
        done < n ==> engine::course(analysed(n, done), settings).step == Step::AnalyzeService(
            done as usize,
        ),
        done == n ==> engine::course(analysed(n, done), settings).step == Step::CheckQuota,
        engine::course(analysed(n, done), settings).services == n,
        engine::course(analysed(n, done), settings).error is None,
    decreases done,
{
    let one = seq![EventModel::Done];
    let two = seq![EventModel::Done, EventModel::Done];
    assert(one.drop_last() =~= Seq::<EventModel>::empty());
    assert(two.drop_last() =~= one);
    reveal_with_fuel(engine::course, 4);
    let events = analysed(n, done);
    if done == 0 {
        assert(events.drop_last() =~= two);
        assert(events.last() == EventModel::Services(n));
    } else {
        law_services_in_order(n, (done - 1) as nat, settings);
        assert(events.drop_last() =~= analysed(n, (done - 1) as nat));
        assert(events.last() == EventModel::Done);
    }
}

/// Whether a run writes its records.
pub open spec fn writes(settings: RunSettings, n: usize) -> bool {
    settings.may_upload && (n <= 1 || settings.supports_multi_service)
}

/// What follows the comparison: in an evaluation the projection alone; else the
/// records are written where they may be, with the verdicts, before the report is
/// printed, and after it the result is posted for a pull request.
pub proof fn law_after_the_comparison(events: Seq<EventModel>, settings: RunSettings)
    requires
        engine::course(events, settings).step == Step::Compare,
    ensures
        ({
            let n = engine::course(events, settings).services;
            let compared = events.push(EventModel::Done);
            let written = compared.push(EventModel::Done);
            let next = engine::course(compared, settings).step;
            &&& settings.evaluation ==> next == Step::PrintProjection
            &&& !settings.evaluation && writes(settings, n) ==> next == (Step::Upload {
                with_verdicts: true,
            }) && engine::course(written, settings).step == Step::PrintReport
            &&& !settings.evaluation && !writes(settings, n) ==> next == Step::PrintReport
        }),
{
    let compared = events.push(EventModel::Done);
    let written = compared.push(EventModel::Done);
    assert(compared.drop_last() =~= events);
    assert(written.drop_last() =~= compared);
}

/// After the report a run on a pull request posts its result and any run writes
/// its log, whether or not the result could be posted; then it stops.
pub proof fn law_after_the_report(
    events: Seq<EventModel>,
    outcome: EventModel,
    settings: RunSettings,
)
    requires
        engine::course(events, settings).step == Step::PrintReport,
        outcome is Done || outcome is Failed,
    ensures
        ({
            let printed = events.push(EventModel::Done);
            let posted = printed.push(outcome);
            &&& settings.pull_request ==> engine::course(printed, settings).step == Step::PostResult
                && engine::course(posted, settings).step == Step::UploadLogs
            &&& !settings.pull_request ==> engine::course(printed, settings).step
                == Step::UploadLogs && engine::course(posted, settings).step == Step::Stop
        }),
{
    let printed = events.push(EventModel::Done);
    let posted = printed.push(outcome);
    assert(printed.drop_last() =~= events);
    assert(posted.drop_last() =~= printed);
}

/// A run stays where it is when it has stopped.
pub proof fn law_stopped_stays(events: Seq<EventModel>, event: EventModel, settings: RunSettings)
    requires
        engine::course(events, settings).step == Step::Stop,
    ensures
        engine::course(events.push(event), settings) == engine::course(events, settings),
{
    assert(events.push(event).drop_last() =~= events);
}

/// A failure before the comparison ends a run but for its log, with what went
/// wrong.
pub proof fn law_early_failure(events: Seq<EventModel>, e: Seq<char>, settings: RunSettings)
    requires
        ({
            let step = engine::course(events, settings).step;
            step == Step::CheckHealth || step == Step::Download || step == Step::ResolveServices
                || step is AnalyzeService
        }),
    ensures
        ({
            let r: RunModel = engine::course(events.push(EventModel::Failed(e)), settings);
            r.step == Step::UploadLogs && (r.error matches Some(said) && e.is_suffix_of(said))
        }),
{
    let all = events.push(EventModel::Failed(e));
    assert(all.drop_last() =~= events);
    let a = "Failed to connect to Carrick Cloud: "@ + e;
    let b = "Failed to download cross-repo data: "@ + e;
    assert(e =~= a.subrange(a.len() - e.len(), a.len() as int));
    assert(e =~= b.subrange(b.len() - e.len(), b.len() as int));
    assert(e =~= e.subrange(0, e.len() as int));
}

// ---------------------------------------------------------------------------
// Verdicts
// ---------------------------------------------------------------------------

/// Whether an edge was checked for a call of the service, or of the repository
/// where the service has no name.
pub open spec fn is_checked_for(edge: MatchedEdge, data: CloudRepoData) -> bool {
    &&& edge.type_compatible is Some
    &&& match data.service_name {
        Some(name) => edge.consumer_repo@ == name@,
        None => edge.consumer_repo@ == data.repo_name@,
    }
}

/// Whether a verdict says of an edge what the edge says, each thing in its own
/// place.
pub open spec fn says_of(verdict: CompatVerdict, edge: MatchedEdge) -> bool {
    &&& edge.type_compatible matches Some(b) && verdict.type_compatible == b
    &&& verdict.producer_key@ == edge.producer_key@
    &&& verdict.consumer_key@ == edge.consumer_key@
    &&& verdict.consumer_location == edge.consumer_location
    &&& verdict.mismatch_reason == edge.mismatch_reason
}

proof fn lemma_checked(edges: Seq<MatchedEdge>, data: CloudRepoData)
    ensures
        upload::checked_edges(edges, data) == edges.filter(
            |edge: MatchedEdge| is_checked_for(edge, data),
        ),
    decreases edges.len(),
{
    reveal(Seq::filter);
    if edges.len() > 0 {
        lemma_checked(edges.drop_last(), data);
    }
}

/// A record has a verdict for just the edges that were checked for its own calls,
/// in their order, and nothing else of it changes.
pub proof fn law_verdicts(before: CloudRepoData, after: CloudRepoData, edges: Seq<MatchedEdge>)
    requires
        upload::has_verdicts(before, after, edges),
    ensures
        ({
            let checked = edges.filter(|edge: MatchedEdge| is_checked_for(edge, before));
            &&& checked.len() == 0 ==> after.compat_verdicts == before.compat_verdicts
            &&& checked.len() > 0 ==> (after.compat_verdicts matches Some(verdicts) && verdicts@.len()
                == checked.len() && forall|i: int|
                0 <= i < checked.len() ==> says_of(#[trigger] verdicts@[i], checked[i]))
            &&& after.endpoints == before.endpoints
            &&& after.calls == before.calls
            &&& after.type_manifest == before.type_manifest
            &&& after.repo_name == before.repo_name
            &&& after.service_name == before.service_name
            &&& after.file_results == before.file_results
        }),
{
    lemma_checked(edges, before);
    let checked = edges.filter(|edge: MatchedEdge| is_checked_for(edge, before));
    if checked.len() > 0 {
        let verdicts = after.compat_verdicts->0@;
        assert forall|i: int| 0 <= i < checked.len() implies says_of(
            #[trigger] verdicts[i],
            checked[i],
        ) by {
            assert(upload::is_verdict_of(verdicts[i], checked[i]));
        }
    }
}

// ---------------------------------------------------------------------------
// Declared services
// ---------------------------------------------------------------------------

/// A declared directory is looked for below the repository, an absolute one where
/// it says; without one the repository is the root.
pub proof fn law_root_of_a_service(repo_path: Seq<char>, service: Config)
    ensures
        service.directory is None ==> config::scan_root(repo_path, service) == repo_path,
        (service.directory matches Some(dir) && (dir@.len() == 0 || dir@[0] != '/')
            && repo_path.len() > 0 && repo_path[repo_path.len() - 1] != '/') ==> config::scan_root(
            repo_path,
            service,
        ) == repo_path + "/"@ + service.directory->0@,
        (service.directory matches Some(dir) && dir@.len() > 0 && dir@[0] == '/')
            ==> config::scan_root(repo_path, service) == service.directory->0@,
{
}

/// Build artefacts are always left out, and the bundled checker just where no
/// directory is declared.
pub proof fn law_left_out(service: Config, pattern: Seq<char>)
    ensures
        config::ignore_patterns(service).contains(pattern) <==> pattern == "node_modules"@ || pattern
            == "dist"@ || pattern == "build"@ || pattern == ".next"@ || (service.directory is None
            && pattern == "ts_check"@),
{
    let r = config::ignore_patterns(service);
    assert(r[0] == "node_modules"@ && r[1] == "dist"@ && r[2] == "build"@ && r[3] == ".next"@);
    if service.directory is None {
        assert(r[4] == "ts_check"@);
    }
}

/// Whether all that a service declares exists.
pub open spec fn all_exist(service: Config, exist: DeclaredPaths) -> bool {
    &&& service.directory is Some ==> exist.directory
    &&& forall|i: int| 0 <= i < service.includes@.len() ==> #[trigger] exist.includes@[i]
}

proof fn lemma_includes(
    service: Config,
    exist: Seq<bool>,
    from: int,
    config_path: Seq<char>,
    repo_path: Seq<char>,
)
    requires
        0 <= from,
    ensures
        config::include_error(service, exist, from, config_path, repo_path) is None
            <==> forall|i: int| from <= i < service.includes@.len() ==> #[trigger] exist[i],
    decreases service.includes@.len() - from,
{
    if from < service.includes@.len() {
        lemma_includes(service, exist, from + 1, config_path, repo_path);
        if exist[from] {
            if forall|i: int| from + 1 <= i < service.includes@.len() ==> #[trigger] exist[i] {
                assert forall|i: int| from <= i < service.includes@.len() implies #[trigger]
                    exist[i] by {}
            }
        }
    }
}

/// The services are accepted exactly where all that they declare exists.
pub proof fn law_accepted_services(
    services: Seq<Config>,
    exist: Seq<DeclaredPaths>,
    from: int,
    config_path: Seq<char>,
    repo_path: Seq<char>,
)
    requires
        0 <= from,
    ensures
        config::first_service_error(services, exist, from, config_path, repo_path) is None
            <==> forall|i: int|
            from <= i < services.len() ==> all_exist(#[trigger] services[i], exist[i]),
    decreases services.len() - from,
{
    if from < services.len() {
        law_accepted_services(services, exist, from + 1, config_path, repo_path);
        lemma_includes(services[from], exist[from].includes@, 0, config_path, repo_path);
        let ok = config::service_error(services[from], exist[from], config_path, repo_path) is None;
        assert(ok == all_exist(services[from], exist[from]));
        if ok && forall|i: int|
            from + 1 <= i < services.len() ==> all_exist(#[trigger] services[i], exist[i]) {
            assert forall|i: int| from <= i < services.len() implies all_exist(
                #[trigger] services[i],
                exist[i],
            ) by {}
        }
    }
}

/// The error names the service, the configuration, what is declared and where it
/// was looked for.
pub proof fn law_error_names_the_path(
    service: Config,
    exist: DeclaredPaths,
    config_path: Seq<char>,
    repo_path: Seq<char>,
    name: String,
    dir: String,
)
    requires
        service.service_name == Some(name),
        service.directory == Some(dir),
        !exist.directory,
    ensures
        config::service_error(service, exist, config_path, repo_path) == Some(
            "Service '"@ + name@ + "' in "@ + config_path + " declares "@ + "directory"@ + " '"@
                + dir@ + "', which does not exist under '"@ + repo_path + "'"@,
        ),
{
}

// ---------------------------------------------------------------------------
// Names of files
// ---------------------------------------------------------------------------

proof fn lemma_replaced(s: Seq<char>, from: char)
    ensures
        text::replace_char_spec(s, from, "_"@).len() == s.len(),
        forall|i: int|
            0 <= i < s.len() ==> #[trigger] text::replace_char_spec(s, from, "_"@)[i] == if s[i]
                == from {
                '_'
            } else {
                s[i]
            },
    decreases s.len(),
{
    reveal_strlit("_");
    if s.len() > 0 {
        lemma_replaced(s.drop_last(), from);
    }
}

/// In the name of a file each separator is an underscore, and all else stays.
pub proof fn law_separators_replaced(name: Seq<char>)
    ensures
        naming::sanitized(name).len() == name.len(),
        forall|i: int|
            0 <= i < name.len() ==> #[trigger] naming::sanitized(name)[i] == if name[i] == '/'
                || name[i] == '\\' {
                '_'
            } else {
                name[i]
            },
{
    lemma_replaced(name, '/');
    lemma_replaced(text::replace_char_spec(name, '/', "_"@), '\\');
}

/// A path is made relative to the repository however many slashes follow the
/// repository's own path.
pub proof fn law_one_slash(repo: Seq<char>, slashes: Seq<char>)
    requires
        repo.len() > 0,
        repo[repo.len() - 1] != '/',
        forall|i: int| 0 <= i < slashes.len() ==> #[trigger] slashes[i] == '/',
    ensures
        cloud_data::single_slash_prefix(repo + slashes) == repo + "/"@,
{
    crate::routing_laws::lemma_trim_slashes(repo, slashes);
}

/// A path joined to a directory lies below it.
pub proof fn law_joined_paths(dir: Seq<char>, path: Seq<char>)
    requires
        path.len() == 0 || path[0] != '/',
    ensures
        dir.len() > 0 && dir[dir.len() - 1] != '/' ==> paths::joined_path(dir, path) == dir + "/"@
            + path,
        dir.len() > 0 && dir[dir.len() - 1] == '/' ==> paths::joined_path(dir, path) == dir + path,
        dir.len() == 0 ==> paths::joined_path(dir, path) == path,
{
    if dir.len() == 0 {
        assert(dir + path =~= path);
    }
}

} // verus!
