//! The course of a run: what is done next, given how it has gone so far.
//!
//! The steps themselves reach outside. Here stand the decisions between them:
//! [`Run::next`] takes what came of a step and gives the step that follows.

use vstd::prelude::*;

use crate::analyzer::ApiAnalysisResult;
use crate::findings::{
    GraphqlStatus, PrDelta, PrResultPayload, ScanStats, Topology, VerifiedEndpoint,
};
use crate::run_context::RunEnvironment;
use crate::upload::UploadPlan;
use crate::{json_text, run_context, text, upload};

verus! {

/// What decides about the course of a run, besides the run itself.
#[derive(Clone, Copy, Debug)]
pub struct RunSettings {
    /// Records may be written to the index.
    pub may_upload: bool,
    /// The run is an evaluation.
    pub evaluation: bool,
    /// The run belongs to a pull request.
    pub pull_request: bool,
    /// The index can tell the services of one repository apart.
    pub supports_multi_service: bool,
}

impl RunSettings {
    /// An evaluation may not write.
    pub open spec fn well_formed(self) -> bool {
        self.evaluation ==> !self.may_upload
    }

    /// The settings of a run in its environment.
    pub fn new(env: &RunEnvironment, supports_multi_service: bool) -> (r: Self)
        ensures
            r.well_formed(),
            r.may_upload == run_context::may_upload(*env),
            r.evaluation == env.output_json,
            r.pull_request == (run_context::pr_number_of(env.ref_name.deep_view()) is Some),
            r.supports_multi_service == supports_multi_service,
    {
        RunSettings {
            may_upload: run_context::should_upload_data(env),
            evaluation: env.output_json,
            pull_request: run_context::pr_number(env).is_some(),
            supports_multi_service,
        }
    }
}

/// A step of a run.
#[derive(Clone, Copy, PartialEq, Eq, Structural, Debug)]
pub enum Step {
    CheckHealth,
    Download,
    ResolveServices,
    /// The service at this place is analysed.
    AnalyzeService(usize),
    /// Whether the quota of the language model was exhausted is asked.
    CheckQuota,
    /// The repositories are compared with each other.
    Compare,
    /// The records are written to the index.
    Upload { with_verdicts: bool },
    /// The result is printed for a machine.
    PrintProjection,
    PrintReport,
    /// The result is posted to the pull request.
    PostResult,
    UploadLogs,
    Stop,
}

/// What came of a step.
#[derive(Debug)]
pub enum Event {
    Done,
    Failed(String),
    /// So many services are declared.
    Services(usize),
    Quota { exhausted: bool },
}

/// The model of an [`Event`].
pub enum EventModel {
    Done,
    Failed(Seq<char>),
    Services(usize),
    Quota { exhausted: bool },
}

impl View for Event {
    type V = EventModel;

    open spec fn view(&self) -> EventModel {
        match *self {
            Event::Done => EventModel::Done,
            Event::Failed(e) => EventModel::Failed(e@),
            Event::Services(n) => EventModel::Services(n),
            Event::Quota { exhausted } => EventModel::Quota { exhausted },
        }
    }
}

/// Where a run stands.
#[derive(Debug)]
pub struct Run {
    /// What is to be done now.
    pub step: Step,
    /// The number of services, once it is known.
    pub services: usize,
    /// Why the run failed, if it did.
    pub error: Option<String>,
}

/// The model of a [`Run`].
pub struct RunModel {
    pub step: Step,
    pub services: usize,
    pub error: Option<Seq<char>>,
}

impl View for Run {
    type V = RunModel;

    open spec fn view(&self) -> RunModel {
        RunModel { step: self.step, services: self.services, error: self.error.deep_view() }
    }
}

/// What is said of a run whose quota was exhausted.
pub const QUOTA_MESSAGE: &'static str = "Carrick Cloud LLM quota was exhausted mid-scan; the analysis is incomplete, so aborting before upload to avoid overwriting the existing index with partial results. Re-run after the quota resets.";

/// A run at its beginning.
pub open spec fn first_run() -> RunModel {
    RunModel { step: Step::CheckHealth, services: 0, error: None }
}

/// A run that has come to a step.
pub open spec fn at(run: RunModel, step: Step) -> RunModel {
    RunModel { step, ..run }
}

/// A run that has failed: its log is still written.
pub open spec fn failed(run: RunModel, error: Seq<char>) -> RunModel {
    RunModel { step: Step::UploadLogs, error: Some(error), ..run }
}

/// Whether the records of a run are written.
pub open spec fn uploads(settings: RunSettings, services: usize) -> bool {
    settings.may_upload && (services > 1 ==> settings.supports_multi_service)
}

/// The step behind the analysis of the first services.
pub open spec fn after_services(analyzed: int, services: usize) -> Step {
    if analyzed < services {
        Step::AnalyzeService(analyzed as usize)
    } else {
        Step::CheckQuota
    }
}

/// Where a run stands after what came of its step. What cannot come of the
/// step changes nothing.
pub open spec fn next_spec(run: RunModel, event: EventModel, settings: RunSettings) -> RunModel {
    match (run.step, event) {
        (Step::CheckHealth, EventModel::Done) => at(run, Step::Download),
        (Step::CheckHealth, EventModel::Failed(e)) => failed(
            run,
            "Failed to connect to Carrick Cloud: "@ + e,
        ),
        (Step::Download, EventModel::Done) => at(run, Step::ResolveServices),
        (Step::Download, EventModel::Failed(e)) => failed(
            run,
            "Failed to download cross-repo data: "@ + e,
        ),
        (Step::ResolveServices, EventModel::Services(n)) => RunModel {
            step: after_services(0, n),
            services: n,
            ..run
        },
        (Step::ResolveServices, EventModel::Failed(e)) => failed(run, e),
        (Step::AnalyzeService(i), EventModel::Done) => at(run, after_services(i + 1, run.services)),
        (Step::AnalyzeService(_), EventModel::Failed(e)) => failed(run, e),
        (Step::CheckQuota, EventModel::Quota { exhausted }) => if exhausted {
            failed(run, QUOTA_MESSAGE@)
        } else {
            at(run, Step::Compare)
        },
        (Step::Compare, EventModel::Done) => if settings.evaluation {
            at(run, Step::PrintProjection)
        } else if uploads(settings, run.services) {
            at(run, Step::Upload { with_verdicts: true })
        } else {
            at(run, Step::PrintReport)
        },
        (Step::Compare, EventModel::Failed(e)) => if uploads(settings, run.services) {
            RunModel { step: Step::Upload { with_verdicts: false }, error: Some(e), ..run }
        } else {
            failed(run, e)
        },
        (Step::Upload { with_verdicts }, EventModel::Done) => if with_verdicts {
            at(run, Step::PrintReport)
        } else {
            at(run, Step::UploadLogs)
        },
        (Step::Upload { .. }, EventModel::Failed(e)) => failed(run, e),
        (Step::PrintProjection, EventModel::Done) => at(run, Step::UploadLogs),
        (Step::PrintProjection, EventModel::Failed(e)) => failed(run, e),
        (Step::PrintReport, EventModel::Done) => if settings.pull_request {
            at(run, Step::PostResult)
        } else {
            at(run, Step::UploadLogs)
        },
        (Step::PostResult, EventModel::Done) => at(run, Step::UploadLogs),
        (Step::PostResult, EventModel::Failed(_)) => at(run, Step::UploadLogs),
        (Step::UploadLogs, EventModel::Done) => at(run, Step::Stop),
        (Step::UploadLogs, EventModel::Failed(_)) => at(run, Step::Stop),
        _ => run,
    }
}

impl Run {
    /// A run at its beginning.
    pub fn start() -> (r: Self)
        ensures
            r@ == first_run(),
    {
        Run { step: Step::CheckHealth, services: 0, error: None }
    }

    fn go_to(self, step: Step) -> (r: Self)
        ensures
            r@ == at(self@, step),
    {
        Run { step, services: self.services, error: self.error }
    }

    fn fail(self, error: String) -> (r: Self)
        ensures
            r@ == failed(self@, error@),
    {
        Run { step: Step::UploadLogs, services: self.services, error: Some(error) }
    }

    fn uploads(&self, settings: &RunSettings) -> (r: bool)
        ensures
            r == uploads(*settings, self.services),
    {
        upload::plan_upload(
            settings.may_upload,
            self.services,
            settings.supports_multi_service,
        ) == UploadPlan::Upload
    }

    /// Where the run stands after what came of its step.
    pub fn next(self, event: Event, settings: &RunSettings) -> (r: Self)
        ensures
            r@ == next_spec(self@, event@, *settings),
    {
        match (self.step, event) {
            (Step::CheckHealth, Event::Done) => self.go_to(Step::Download),
            (Step::CheckHealth, Event::Failed(e)) => {
                let error = text::cat2("Failed to connect to Carrick Cloud: ", &e);
                self.fail(error)
            },
            (Step::Download, Event::Done) => self.go_to(Step::ResolveServices),
            (Step::Download, Event::Failed(e)) => {
                let error = text::cat2("Failed to download cross-repo data: ", &e);
                self.fail(error)
            },
            (Step::ResolveServices, Event::Services(n)) => Run {
                step: if 0 < n {
                    Step::AnalyzeService(0)
                } else {
                    Step::CheckQuota
                },
                services: n,
                error: self.error,
            },
            (Step::ResolveServices, Event::Failed(e)) => self.fail(e),
            (Step::AnalyzeService(i), Event::Done) => {
                let step = if i < self.services && i + 1 < self.services {
                    Step::AnalyzeService(i + 1)
                } else {
                    Step::CheckQuota
                };
                self.go_to(step)
            },
            (Step::AnalyzeService(_), Event::Failed(e)) => self.fail(e),
            (Step::CheckQuota, Event::Quota { exhausted }) => {
                if exhausted {
                    self.fail(text::owned(QUOTA_MESSAGE))
                } else {
                    self.go_to(Step::Compare)
                }
            },
            (Step::Compare, Event::Done) => {
                let step = if settings.evaluation {
                    Step::PrintProjection
                } else if self.uploads(settings) {
                    Step::Upload { with_verdicts: true }
                } else {
                    Step::PrintReport
                };
                self.go_to(step)
            },
            (Step::Compare, Event::Failed(e)) => {
                if self.uploads(settings) {
                    Run {
                        step: Step::Upload { with_verdicts: false },
                        services: self.services,
                        error: Some(e),
                    }
                } else {
                    self.fail(e)
                }
            },
            (Step::Upload { with_verdicts }, Event::Done) => {
                let step = if with_verdicts {
                    Step::PrintReport
                } else {
                    Step::UploadLogs
                };
                self.go_to(step)
            },
            (Step::Upload { .. }, Event::Failed(e)) => self.fail(e),
            (Step::PrintProjection, Event::Done) => self.go_to(Step::UploadLogs),
            (Step::PrintProjection, Event::Failed(e)) => self.fail(e),
            (Step::PrintReport, Event::Done) => {
                let step = if settings.pull_request {
                    Step::PostResult
                } else {
                    Step::UploadLogs
                };
                self.go_to(step)
            },
            (Step::PostResult, Event::Done) => self.go_to(Step::UploadLogs),
            (Step::PostResult, Event::Failed(_)) => self.go_to(Step::UploadLogs),
            (Step::UploadLogs, Event::Done) => self.go_to(Step::Stop),
            (Step::UploadLogs, Event::Failed(_)) => self.go_to(Step::Stop),
            _ => self,
        }
    }
}

// ---------------------------------------------------------------------------
// The whole course
// ---------------------------------------------------------------------------

/// Where a run stands after a sequence of events.
pub open spec fn course(events: Seq<EventModel>, settings: RunSettings) -> RunModel
    decreases events.len(),
{
    if events.len() == 0 {
        first_run()
    } else {
        next_spec(course(events.drop_last(), settings), events.last(), settings)
    }
}

/// Whatever happens, records are written only by a run that may write, and
/// those of several services only where the index can tell them apart.
pub proof fn law_upload_is_permitted(events: Seq<EventModel>, settings: RunSettings)
    ensures
        course(events, settings).step is Upload ==> uploads(
            settings,
            course(events, settings).services,
        ),
    decreases events.len(),
{
    if events.len() > 0 {
        law_upload_is_permitted(events.drop_last(), settings);
    }
}

/// Whatever happens, an evaluation neither writes records nor prints the
/// report nor posts a result.
pub proof fn law_evaluation_only_prints(events: Seq<EventModel>, settings: RunSettings)
    requires
        settings.well_formed(),
        settings.evaluation,
    ensures
        !(course(events, settings).step is Upload),
        course(events, settings).step != Step::PrintReport,
        course(events, settings).step != Step::PostResult,
    decreases events.len(),
{
    if events.len() > 0 {
        law_evaluation_only_prints(events.drop_last(), settings);
    }
}

/// Whatever happens, a result is posted only by a run of a pull request.
pub proof fn law_only_pull_requests_are_posted_to(events: Seq<EventModel>, settings: RunSettings)
    ensures
        course(events, settings).step == Step::PostResult ==> settings.pull_request,
    decreases events.len(),
{
    if events.len() > 0 {
        law_only_pull_requests_are_posted_to(events.drop_last(), settings);
    }
}

/// A run whose quota was exhausted writes no records, whatever comes after, and
/// reports why.
pub proof fn law_partial_results_are_not_uploaded(
    before: Seq<EventModel>,
    after: Seq<EventModel>,
    settings: RunSettings,
)
    requires
        course(before, settings).step == Step::CheckQuota,
    ensures
        ({
            let run = course(
                before.push(EventModel::Quota { exhausted: true }) + after,
                settings,
            );
            &&& run.step == Step::UploadLogs || run.step == Step::Stop
            &&& run.error == Some(QUOTA_MESSAGE@)
        }),
    decreases after.len(),
{
    let quota = before.push(EventModel::Quota { exhausted: true });
    if after.len() == 0 {
        assert(quota + after =~= quota);
        assert(quota.drop_last() =~= before);
    } else {
        law_partial_results_are_not_uploaded(before, after.drop_last(), settings);
        assert((quota + after).drop_last() =~= quota + after.drop_last());
        assert((quota + after).last() == after.last());
    }
}

/// Where the comparison fails, the records are still written if they may be,
/// without verdicts; the run fails all the same.
pub proof fn law_failed_comparison_still_uploads(
    run: RunModel,
    error: Seq<char>,
    settings: RunSettings,
)
    requires
        run.step == Step::Compare,
    ensures
        uploads(settings, run.services) ==> next_spec(
            run,
            EventModel::Failed(error),
            settings,
        ).step == (Step::Upload { with_verdicts: false }),
        next_spec(run, EventModel::Failed(error), settings).error == Some(error),
{
}

/// A failure is never forgotten: a run that has failed fails.
pub proof fn law_failures_are_kept(run: RunModel, event: EventModel, settings: RunSettings)
    requires
        run.error is Some,
    ensures
        next_spec(run, event, settings).error is Some,
{
}

/// A failure of any step but the posting of the result and the writing of the
/// log fails the run.
pub proof fn law_failures_are_reported(run: RunModel, error: Seq<char>, settings: RunSettings)
    requires
        !(run.step == Step::CheckQuota || run.step == Step::PrintReport || run.step
            == Step::PostResult || run.step == Step::UploadLogs || run.step == Step::Stop),
    ensures
        next_spec(run, EventModel::Failed(error), settings).error is Some,
{
}

/// A run never stops without having come to writing its log, failed or not.
pub proof fn law_logs_are_always_uploaded(events: Seq<EventModel>, settings: RunSettings)
    requires
        course(events, settings).step == Step::Stop,
    ensures
        exists|k: int|
            0 <= k < events.len() && course(#[trigger] events.take(k), settings).step
                == Step::UploadLogs,
    decreases events.len(),
{
    assert(events.len() > 0);
    let front = events.drop_last();
    if course(front, settings).step == Step::Stop {
        law_logs_are_always_uploaded(front, settings);
        let k = choose|k: int|
            0 <= k < front.len() && course(#[trigger] front.take(k), settings).step
                == Step::UploadLogs;
        assert(front.take(k) =~= events.take(k));
        assert(course(events.take(k), settings).step == Step::UploadLogs);
    } else {
        assert(events.take(events.len() - 1) =~= front);
        assert(course(events.take(events.len() - 1), settings).step == Step::UploadLogs);
    }
}

/// How many stages are left.
pub open spec fn stages_left(step: Step) -> int {
    match step {
        Step::CheckHealth => 9,
        Step::Download => 8,
        Step::ResolveServices => 7,
        Step::AnalyzeService(_) => 6,
        Step::CheckQuota => 5,
        Step::Compare => 4,
        Step::Upload { .. } => 3,
        Step::PrintProjection => 2,
        Step::PrintReport => 2,
        Step::PostResult => 1,
        Step::UploadLogs => 0,
        Step::Stop => -1,
    }
}

/// How many services are left to analyse.
pub open spec fn services_left(run: RunModel) -> int {
    match run.step {
        Step::AnalyzeService(i) => run.services - i,
        _ => 0,
    }
}

/// A run goes forward: what it makes of an event is nothing, or a later stage,
/// or the next service.
pub proof fn law_runs_go_forward(run: RunModel, event: EventModel, settings: RunSettings)
    requires
        run.step matches Step::AnalyzeService(i) ==> i < run.services,
    ensures
        ({
            let after = next_spec(run, event, settings);
            &&& after.step matches Step::AnalyzeService(i) ==> i < after.services
            &&& {
                ||| after == run
                ||| stages_left(after.step) < stages_left(run.step)
                ||| stages_left(after.step) == stages_left(run.step) && 0 <= services_left(after)
                    < services_left(run)
            }
        }),
{
}

// ---------------------------------------------------------------------------
// The result for a pull request
// ---------------------------------------------------------------------------

/// Whether the entries are the verified endpoints one for one, each with the
/// classification that stands in its place.
pub open spec fn are_verified(
    entries: Seq<VerifiedEndpoint>,
    endpoints: Seq<(String, String)>,
    provenance: Seq<String>,
) -> bool {
    &&& entries.len() == endpoints.len()
    &&& forall|i: int|
        0 <= i < entries.len() ==> {
            &&& (#[trigger] entries[i]).method@ == endpoints[i].0@
            &&& entries[i].path@ == endpoints[i].1@
            &&& entries[i].provenance.deep_view() == (if i < provenance.len() {
                Some(provenance[i]@)
            } else {
                None
            })
        }
}

fn list_verified(endpoints: &Vec<(String, String)>, provenance: &Vec<String>) -> (r: Vec<
    VerifiedEndpoint,
>)
    ensures
        are_verified(r@, endpoints@, provenance@),
{
    let mut out: Vec<VerifiedEndpoint> = Vec::new();
    let mut i: usize = 0;
    while i < endpoints.len()
        invariant
            i <= endpoints@.len(),
            are_verified(out@, endpoints@.take(i as int), provenance@),
        decreases endpoints@.len() - i,
    {
        let classified = if i < provenance.len() {
            Some(provenance[i].clone())
        } else {
            None
        };
        out.push(
            VerifiedEndpoint {
                method: endpoints[i].0.clone(),
                path: endpoints[i].1.clone(),
                provenance: classified,
            },
        );
        i += 1;
    }
    assert(endpoints@.take(i as int) =~= endpoints@);
    out
}

/// What is posted to the pull request of a run; nothing where the run belongs
/// to none. `event` is the description of the event that started the run.
pub fn pr_result<'a>(
    env: &RunEnvironment,
    event: &Option<String>,
    topology: &'a Topology,
    result: &'a ApiAnalysisResult,
    delta: Option<&'a PrDelta>,
) -> (r: Option<PrResultPayload<'a>>)
    ensures
        match (r, run_context::pr_number_of(env.ref_name.deep_view())) {
            (Some(p), Some(number)) => {
                &&& p.repo@ == topology.repo_name@
                &&& p.pr_number == number
                &&& p.head_sha.deep_view() == (match *event {
                    Some(e) => json_text::json_text_at(e@, "/pull_request/head/sha"@),
                    None => None,
                })
                &&& p.run_id.deep_view() == run_context::run_id_of(*env)
                &&& *p.topology == *topology
                &&& p.stats.endpoints == result.endpoints@.len()
                &&& p.stats.calls == result.calls@.len()
                &&& *p.findings == result.findings
                &&& p.delta == delta
                &&& are_verified(
                    p.verified@,
                    result.verified_endpoints@,
                    result.verified_provenance@,
                )
                &&& *p.graphql.libraries == result.detected_graphql_libraries
                &&& p.graphql.operations_indexed == result.graphql_operations_indexed
            },
            (None, None) => true,
            _ => false,
        },
{
    let number = match run_context::pr_number(env) {
        Some(number) => number,
        None => {
            return None;
        },
    };
    let head_sha = match event {
        Some(e) => run_context::head_sha_from_event(e),
        None => None,
    };
    Some(
        PrResultPayload {
            repo: topology.repo_name.as_str(),
            pr_number: number,
            head_sha,
            run_id: run_context::run_id(env),
            topology,
            stats: ScanStats { endpoints: result.endpoints.len(), calls: result.calls.len() },
            findings: &result.findings,
            delta,
            verified: list_verified(&result.verified_endpoints, &result.verified_provenance),
            graphql: GraphqlStatus {
                libraries: &result.detected_graphql_libraries,
                operations_indexed: result.graphql_operations_indexed,
            },
        },
    )
}

} // verus!
