//! The choices the daemon makes around an agent run, taken apart from the
//! store, the supervisor and the event log that surround them: how a retry
//! is settled on a task, what a finished run leads to, which tasks get an
//! agent or a baseline QA run, and when a task awaiting merge counts as
//! merged. Each function takes what the surrounding services reported and
//! returns what they should be told to do. Models are named by their
//! identifiers; times are nanoseconds since the Unix epoch.

use vstd::prelude::*;
use crate::daemon_loop::{RestackRetryState, ready_at, ready_time_fits};
use crate::text::{decimal, str_eq, push_decimal, starts_with, str_starts_with};
use crate::agent_dispatch::TaskType;

verus! {

/// The lifecycle state of a task.
#[derive(Debug, Clone, Copy, PartialEq, Eq, Structural)]
pub enum TaskPhase {
    Chatting,
    Ready,
    Submitting,
    Restacking,
    Running,
    AwaitingMerge,
    Merged,
    Stopped,
}

/// The part of a task that a retry reads and writes.
#[derive(Debug, Clone)]
pub struct RetryTask {
    pub id: String,
    pub retry_count: u32,
    pub max_retries: u32,
    pub preferred_model: Option<String>,
    pub failed_models: Vec<String>,
    pub phase: TaskPhase,
    pub last_failure_reason: Option<String>,
    pub updated_at: i64,
}

/// An event that settling a retry records.
#[derive(Debug, Clone)]
pub enum RetryEvent {
    /// The task has failed; `is_final` when no retry follows.
    TaskFailed { reason: String, is_final: bool },
    /// Retry number `attempt` is scheduled on `model`.
    RetryScheduled { attempt: u32, model: String, reason: String },
    /// The task moves from one model to another.
    ModelFallback { from_model: String, to_model: String, reason: String },
}

/// A [`RetryEvent`] with its strings as character sequences.
pub enum RetryEventView {
    TaskFailed { reason: Seq<char>, is_final: bool },
    RetryScheduled { attempt: u32, model: Seq<char>, reason: Seq<char> },
    ModelFallback { from_model: Seq<char>, to_model: Seq<char>, reason: Seq<char> },
}

impl View for RetryEvent {
    type V = RetryEventView;

    open spec fn view(&self) -> RetryEventView {
        match self {
            RetryEvent::TaskFailed { reason, is_final } => RetryEventView::TaskFailed { reason: reason@, is_final: *is_final },
            RetryEvent::RetryScheduled { attempt, model, reason } => RetryEventView::RetryScheduled { attempt: *attempt, model: model@, reason: reason@ },
            RetryEvent::ModelFallback { from_model, to_model, reason } => RetryEventView::ModelFallback {
                from_model: from_model@,
                to_model: to_model@,
                reason: reason@,
            },
        }
    }
}

/// How settling a retry went: whether the task was given another attempt,
/// whether it must be moved back to chatting, and the events to record.
#[derive(Debug)]
pub struct RetryTransition {
    pub retried: bool,
    pub move_to_chatting: bool,
    pub events: Vec<RetryEvent>,
}

/// The views of a list of events.
pub open spec fn event_views(events: Seq<RetryEvent>) -> Seq<RetryEventView> {
    events.map_values(|e: RetryEvent| e@)
}

/// Whether no model occurs twice.
pub open spec fn distinct_models(models: Seq<Seq<char>>) -> bool {
    forall|i: int, j: int| 0 <= i < j < models.len() ==> models[i] != models[j]
}

/// The reason recorded when the retries are used up.
pub open spec fn exhausted_reason(reason: Seq<char>, count: u32, max: u32) -> Seq<char> {
    reason + " (max retries reached: "@ + decimal(count as nat) + "/"@ + decimal(max as nat) + ")"@
}

/// The failed models after a retry from `prev` to `next`: `prev` is added
/// when it is another model and not yet listed.
pub open spec fn failed_after(failed: Seq<Seq<char>>, prev: Option<Seq<char>>, next: Seq<char>) -> Seq<Seq<char>> {
    match prev {
        Some(p) => if p != next && !failed.contains(p) { failed.push(p) } else { failed },
        None => failed,
    }
}

/// The events of a scheduled retry: the schedule, then a fallback when the
/// model changes.
pub open spec fn retry_events(attempt: u32, prev: Option<Seq<char>>, next: Seq<char>, reason: Seq<char>) -> Seq<RetryEventView> {
    let scheduled = RetryEventView::RetryScheduled { attempt, model: next, reason };
    match prev {
        Some(p) => if p != next {
            seq![scheduled, RetryEventView::ModelFallback { from_model: p, to_model: next, reason }]
        } else {
            seq![scheduled]
        },
        None => seq![scheduled],
    }
}

/// The preferred model as a character sequence.
pub open spec fn opt_view(o: Option<String>) -> Option<Seq<char>> {
    match o {
        Some(s) => Some(s@),
        None => None,
    }
}

fn vec_has_model(v: &Vec<String>, s: &str) -> (res: bool)
    ensures
        res == v.deep_view().contains(s@),
{
    let mut i: usize = 0;
    while i < v.len()
        invariant
            i <= v@.len(),
            forall|j: int| 0 <= j < i ==> v.deep_view()[j] != s@,
        decreases v@.len() - i,
    {
        if str_eq(v[i].as_str(), s) {
            assert(v.deep_view()[i as int] == s@);
            return true;
        }
        i = i + 1;
    }
    false
}

fn exhausted_reason_exec(reason: &str, count: u32, max: u32) -> (res: String)
    ensures
        res@ == exhausted_reason(reason@, count, max),
{
    let mut out = String::from_str(reason);
    out.append(" (max retries reached: ");
    push_decimal(&mut out, count as u64);
    out.append("/");
    push_decimal(&mut out, max as u64);
    out.append(")");
    out
}

/// Settles a retry of `task` onto `next_model` for `reason` at `at`.
///
/// When the task's retries are used up (`retry_count >= max_retries`) it is
/// stopped with `reason` as its last failure, a final failure event is
/// recorded, and no retry follows. Otherwise the retry count goes up by one,
/// the previous model (when it differs from `next_model`) joins the failed
/// models unless already there, `next_model` becomes the preferred model,
/// `reason` the last failure, and a task that is not chatting must be moved
/// back to chatting. A retry is recorded, followed by a fallback event when
/// the model changes.
pub fn apply_retry_transition(task: &mut RetryTask, next_model: &str, reason: &str, at: i64) -> (res: RetryTransition)
    ensures
        res.retried == (old(task).retry_count < old(task).max_retries),
        final(task).id == old(task).id,
        final(task).max_retries == old(task).max_retries,
        opt_view(final(task).last_failure_reason) == Some(reason@),
        !res.retried ==> {
            &&& final(task).phase == TaskPhase::Stopped
            &&& final(task).updated_at == at
            &&& final(task).retry_count == old(task).retry_count
            &&& opt_view(final(task).preferred_model) == opt_view(old(task).preferred_model)
            &&& final(task).failed_models.deep_view() == old(task).failed_models.deep_view()
            &&& !res.move_to_chatting
            &&& event_views(res.events@) == seq![RetryEventView::TaskFailed {
                reason: exhausted_reason(reason@, old(task).retry_count, old(task).max_retries),
                is_final: true,
            }]
        },
        res.retried ==> {
            &&& final(task).retry_count == old(task).retry_count + 1
            &&& opt_view(final(task).preferred_model) == Some(next_model@)
            &&& final(task).failed_models.deep_view() == failed_after(
                old(task).failed_models.deep_view(), opt_view(old(task).preferred_model), next_model@)
            &&& final(task).phase == old(task).phase
            &&& final(task).updated_at == old(task).updated_at
            &&& res.move_to_chatting == (old(task).phase != TaskPhase::Chatting)
            &&& event_views(res.events@) == retry_events(
                final(task).retry_count, opt_view(old(task).preferred_model), next_model@, reason@)
        },
        final(task).retry_count == count_after(old(task).retry_count, old(task).max_retries, 1),
        old(task).retry_count <= old(task).max_retries ==> final(task).retry_count <= final(task).max_retries,
        distinct_models(old(task).failed_models.deep_view()) ==> distinct_models(final(task).failed_models.deep_view()),
{
    proof {
        reveal_with_fuel(count_after, 2);
    }
    let mut events: Vec<RetryEvent> = Vec::new();
    if task.retry_count >= task.max_retries {
        let text = exhausted_reason_exec(reason, task.retry_count, task.max_retries);
        events.push(RetryEvent::TaskFailed { reason: text, is_final: true });
        task.phase = TaskPhase::Stopped;
        task.last_failure_reason = Some(String::from_str(reason));
        task.updated_at = at;
        proof {
            assert(event_views(events@) =~= seq![RetryEventView::TaskFailed {
                reason: exhausted_reason(reason@, old(task).retry_count, old(task).max_retries),
                is_final: true,
            }]);
        }
        return RetryTransition { retried: false, move_to_chatting: false, events };
    }
    task.retry_count = task.retry_count + 1;
    let ghost failed0 = task.failed_models.deep_view();
    let mut fallback_from: Option<String> = None;
    match &task.preferred_model {
        Some(prev) => {
            if !str_eq(prev.as_str(), next_model) {
                fallback_from = Some(prev.clone());
                if !vec_has_model(&task.failed_models, prev.as_str()) {
                    let p = prev.clone();
                    task.failed_models.push(p);
                    proof {
                        assert(task.failed_models.deep_view() =~= failed0.push(prev@));
                    }
                }
            }
        },
        None => {},
    }
    proof {
        if distinct_models(failed0) {
            let f = task.failed_models.deep_view();
            assert forall|i: int, j: int| 0 <= i < j < f.len() implies f[i] != f[j] by {
                if j == failed0.len() {
                    assert(f[j] == old(task).preferred_model.unwrap()@);
                    assert(f[i] == failed0[i]);
                }
            }
        }
    }
    task.preferred_model = Some(String::from_str(next_model));
    task.last_failure_reason = Some(String::from_str(reason));
    let move_to_chatting = task.phase != TaskPhase::Chatting;
    events.push(RetryEvent::RetryScheduled {
        attempt: task.retry_count,
        model: String::from_str(next_model),
        reason: String::from_str(reason),
    });
    match fallback_from {
        Some(prev) => {
            events.push(RetryEvent::ModelFallback {
                from_model: prev,
                to_model: String::from_str(next_model),
                reason: String::from_str(reason),
            });
        },
        None => {},
    }
    proof {
        assert(event_views(events@) =~= retry_events(
            task.retry_count, opt_view(old(task).preferred_model), next_model@, reason@));
    }
    RetryTransition { retried: true, move_to_chatting, events }
}

/// The retry count of a task after `n` retries have been settled on it
/// (see [`apply_retry_transition`]): each settlement below the limit adds
/// one, and a settlement at the limit stops the task and adds nothing.
pub open spec fn count_after(count: u32, max: u32, n: nat) -> u32
    decreases n,
{
    if n == 0 {
        count
    } else if count < max {
        count_after((count + 1) as u32, max, (n - 1) as nat)
    } else {
        count
    }
}

/// However many retries are settled on a task whose count is within its
/// limit, the count never passes the limit, it grows by one per
/// settlement until it reaches the limit, and after `max - count`
/// settlements the next one stops the task instead of retrying it.
pub proof fn lemma_retry_chain_stops(count: u32, max: u32, n: nat)
    requires
        count <= max,
    ensures
        count_after(count, max, n) <= max,
        count_after(count, max, n) == if count + n <= max { (count + n) as u32 } else { max },
        !(count_after(count, max, (max - count) as nat) < max),
    decreases n,
{
    if n > 0 && count < max {
        lemma_retry_chain_stops((count + 1) as u32, max, (n - 1) as nat);
    }
    lemma_count_reaches_limit(count, max);
}

proof fn lemma_count_reaches_limit(count: u32, max: u32)
    requires
        count <= max,
    ensures
        count_after(count, max, (max - count) as nat) == max,
    decreases max - count,
{
    if count < max {
        lemma_count_reaches_limit((count + 1) as u32, max);
    }
}

/// What became of an agent run.
#[derive(Debug, Clone)]
pub struct AgentOutcome {
    pub task_id: String,
    pub model: String,
    pub success: bool,
    pub patch_ready: bool,
    pub needs_human: bool,
}

/// The task's retry policy's verdict on a failed run.
#[derive(Debug, Clone)]
pub struct RetryVerdict {
    pub should_retry: bool,
    pub next_model: Option<String>,
    pub reason: String,
}

/// How a run changes the health record of its model.
#[derive(Debug, Clone, Copy, PartialEq, Eq, Structural)]
pub enum HealthUpdate {
    Success,
    Failure,
    Unchanged,
}

/// What follows a finished run.
#[derive(Debug, Clone)]
pub enum CompletionAction {
    /// Validate the work with a QA run before it is marked ready.
    SpawnValidationQa,
    MarkReady,
    RecordNeedsHuman { reason: String },
    ScheduleRetry { next_model: String, reason: String },
    TaskFailed { reason: String },
}

/// A [`CompletionAction`] with its strings as character sequences.
pub enum CompletionActionView {
    SpawnValidationQa,
    MarkReady,
    RecordNeedsHuman { reason: Seq<char> },
    ScheduleRetry { next_model: Seq<char>, reason: Seq<char> },
    TaskFailed { reason: Seq<char> },
}

impl View for CompletionAction {
    type V = CompletionActionView;

    open spec fn view(&self) -> CompletionActionView {
        match self {
            CompletionAction::SpawnValidationQa => CompletionActionView::SpawnValidationQa,
            CompletionAction::MarkReady => CompletionActionView::MarkReady,
            CompletionAction::RecordNeedsHuman { reason } => CompletionActionView::RecordNeedsHuman { reason: reason@ },
            CompletionAction::ScheduleRetry { next_model, reason } => CompletionActionView::ScheduleRetry {
                next_model: next_model@,
                reason: reason@,
            },
            CompletionAction::TaskFailed { reason } => CompletionActionView::TaskFailed { reason: reason@ },
        }
    }
}

/// The decision on a finished run: the stop reason stored with the run,
/// the change to the model's health, and the action.
#[derive(Debug)]
pub struct CompletionPlan {
    pub stop_reason: String,
    pub health: HealthUpdate,
    pub action: CompletionAction,
}

/// The retry count and limit of the run's task.
#[derive(Debug, Clone, Copy, PartialEq, Eq, Structural)]
pub struct RetryCounts {
    pub retry_count: u32,
    pub max_retries: u32,
}

/// The stop reason stored with a finished run.
pub open spec fn stop_reason_of(o: AgentOutcome) -> Seq<char> {
    if o.patch_ready || o.success {
        "completed"@
    } else if o.needs_human {
        "needs_human"@
    } else {
        "failed"@
    }
}

/// The action for work that is done: a validation QA run when QA is on and
/// a baseline exists, else marking the task ready.
pub open spec fn done_action(skip_qa: bool, baseline_exists: bool) -> CompletionActionView {
    if !skip_qa && baseline_exists {
        CompletionActionView::SpawnValidationQa
    } else {
        CompletionActionView::MarkReady
    }
}

/// The reason given for a scheduled retry.
pub open spec fn retry_reason(counts: RetryCounts, model: Seq<char>) -> Seq<char> {
    "retrying (attempt "@ + decimal(counts.retry_count as nat + 1) + "/"@ + decimal(counts.max_retries as nat) + ") with "@ + model
}

/// The action for a failed run of a task that was found.
pub open spec fn failure_action(counts: RetryCounts, verdict: RetryVerdict, health_pick: Option<Seq<char>>) -> CompletionActionView {
    if verdict.should_retry {
        let next = match health_pick {
            Some(m) => Some(m),
            None => opt_view(verdict.next_model),
        };
        match next {
            Some(m) => CompletionActionView::ScheduleRetry { next_model: m, reason: retry_reason(counts, m) },
            None => CompletionActionView::TaskFailed { reason: verdict.reason@ },
        }
    } else {
        CompletionActionView::TaskFailed { reason: verdict.reason@ }
    }
}

/// The action that follows a finished run.
pub open spec fn completion_action_of(
    o: AgentOutcome,
    skip_qa: bool,
    baseline_exists: bool,
    task: Option<RetryCounts>,
    has_uncommitted: bool,
    verdict: RetryVerdict,
    health_pick: Option<Seq<char>>,
) -> CompletionActionView {
    if o.patch_ready || o.success {
        done_action(skip_qa, baseline_exists)
    } else if o.needs_human {
        CompletionActionView::RecordNeedsHuman { reason: "Agent requested human assistance"@ }
    } else {
        match task {
            Some(c) => if has_uncommitted {
                done_action(skip_qa, baseline_exists)
            } else {
                failure_action(c, verdict, health_pick)
            },
            None => CompletionActionView::TaskFailed { reason: "task not found for retry evaluation"@ },
        }
    }
}

/// The health change after a finished run.
pub open spec fn completion_health_of(o: AgentOutcome, task: Option<RetryCounts>, has_uncommitted: bool) -> HealthUpdate {
    if o.patch_ready || o.success {
        HealthUpdate::Success
    } else if o.needs_human {
        HealthUpdate::Unchanged
    } else if task is Some && has_uncommitted {
        HealthUpdate::Success
    } else {
        HealthUpdate::Failure
    }
}

fn done_action_exec(skip_qa: bool, baseline_exists: bool) -> (res: CompletionAction)
    ensures
        res@ == done_action(skip_qa, baseline_exists),
{
    if !skip_qa && baseline_exists {
        CompletionAction::SpawnValidationQa
    } else {
        CompletionAction::MarkReady
    }
}

fn retry_reason_exec(counts: RetryCounts, model: &str) -> (res: String)
    ensures
        res@ == retry_reason(counts, model@),
{
    let mut out = String::new();
    out.append("retrying (attempt ");
    push_decimal(&mut out, counts.retry_count as u64 + 1);
    out.append("/");
    push_decimal(&mut out, counts.max_retries as u64);
    out.append(") with ");
    out.append(model);
    out
}

/// Decides what follows a finished agent run.
///
/// `skip_qa` and `baseline_exists` say whether a validation QA run applies;
/// `task` holds the retry counts of the run's task, `None` where it could
/// not be found; `has_uncommitted` whether its worktree holds uncommitted
/// changes, which count as finished work when the agent did not say so;
/// `verdict` is the retry policy's verdict and `health_pick` the model that
/// model health prefers for the next attempt, if any.
pub fn plan_completion(
    outcome: &AgentOutcome,
    skip_qa: bool,
    baseline_exists: bool,
    task: Option<RetryCounts>,
    has_uncommitted: bool,
    verdict: &RetryVerdict,
    health_pick: Option<&str>,
) -> (res: CompletionPlan)
    ensures
        res.stop_reason@ == stop_reason_of(*outcome),
        res.health == completion_health_of(*outcome, task, has_uncommitted),
        res.action@ == completion_action_of(*outcome, skip_qa, baseline_exists, task, has_uncommitted, *verdict,
            match health_pick { Some(m) => Some(m@), None => None }),
{
    let stop_reason = if outcome.patch_ready || outcome.success {
        String::from_str("completed")
    } else if outcome.needs_human {
        String::from_str("needs_human")
    } else {
        String::from_str("failed")
    };
    if outcome.patch_ready || outcome.success {
        return CompletionPlan { stop_reason, health: HealthUpdate::Success, action: done_action_exec(skip_qa, baseline_exists) };
    }
    if outcome.needs_human {
        return CompletionPlan {
            stop_reason,
            health: HealthUpdate::Unchanged,
            action: CompletionAction::RecordNeedsHuman { reason: String::from_str("Agent requested human assistance") },
        };
    }
    match task {
        None => CompletionPlan {
            stop_reason,
            health: HealthUpdate::Failure,
            action: CompletionAction::TaskFailed { reason: String::from_str("task not found for retry evaluation") },
        },
        Some(counts) => {
            if has_uncommitted {
                return CompletionPlan { stop_reason, health: HealthUpdate::Success, action: done_action_exec(skip_qa, baseline_exists) };
            }
            let action = if verdict.should_retry {
                let next: Option<String> = match health_pick {
                    Some(m) => Some(String::from_str(m)),
                    None => match &verdict.next_model {
                        Some(m) => Some(m.clone()),
                        None => None,
                    },
                };
                match next {
                    Some(m) => {
                        let reason = retry_reason_exec(counts, m.as_str());
                        CompletionAction::ScheduleRetry { next_model: m, reason }
                    },
                    None => CompletionAction::TaskFailed { reason: verdict.reason.clone() },
                }
            } else {
                CompletionAction::TaskFailed { reason: verdict.reason.clone() }
            };
            CompletionPlan { stop_reason, health: HealthUpdate::Failure, action }
        },
    }
}

/// A chatting task as the daemon's tick sees it: whether an agent session
/// runs for it, whether a QA agent runs for it, and whether a baseline QA
/// result exists for its branch (see [`qa_branch`]).
#[derive(Debug, Clone)]
pub struct ChattingTask {
    pub id: String,
    pub repo_id: String,
    pub branch_name: Option<String>,
    pub has_session: bool,
    pub qa_running: bool,
    pub has_baseline_result: bool,
}

/// A [`ChattingTask`] with its strings as character sequences.
pub struct ChattingView {
    pub id: Seq<char>,
    pub repo_id: Seq<char>,
    pub branch_name: Option<Seq<char>>,
    pub has_session: bool,
    pub qa_running: bool,
    pub has_baseline_result: bool,
}

impl View for ChattingTask {
    type V = ChattingView;

    open spec fn view(&self) -> ChattingView {
        ChattingView {
            id: self.id@,
            repo_id: self.repo_id@,
            branch_name: opt_view(self.branch_name),
            has_session: self.has_session,
            qa_running: self.qa_running,
            has_baseline_result: self.has_baseline_result,
        }
    }
}

/// What a tick does for a chatting task without an agent session.
#[derive(Debug, Clone)]
pub enum SpawnStep {
    /// Start an agent for the task.
    Spawn { task_id: String },
    /// Record that the token budget keeps the task waiting.
    BudgetExceeded { task_id: String, repo_id: String },
}

/// A [`SpawnStep`] with its strings as character sequences.
pub enum SpawnStepView {
    Spawn { task_id: Seq<char> },
    BudgetExceeded { task_id: Seq<char>, repo_id: Seq<char> },
}

impl View for SpawnStep {
    type V = SpawnStepView;

    open spec fn view(&self) -> SpawnStepView {
        match self {
            SpawnStep::Spawn { task_id } => SpawnStepView::Spawn { task_id: task_id@ },
            SpawnStep::BudgetExceeded { task_id, repo_id } => SpawnStepView::BudgetExceeded { task_id: task_id@, repo_id: repo_id@ },
        }
    }
}

/// The views of a list of chatting tasks.
pub open spec fn chatting_views(tasks: Seq<ChattingTask>) -> Seq<ChattingView> {
    tasks.map_values(|t: ChattingTask| t@)
}

/// The spawn steps for `tasks`, in order: one for each task without a
/// session, a spawn when the budget allows and a budget notice otherwise.
pub open spec fn spawn_steps(tasks: Seq<ChattingView>, within_budget: bool) -> Seq<SpawnStepView>
    decreases tasks.len(),
{
    if tasks.len() == 0 {
        Seq::empty()
    } else {
        let t = tasks.last();
        let rest = spawn_steps(tasks.drop_last(), within_budget);
        if t.has_session {
            rest
        } else if within_budget {
            rest.push(SpawnStepView::Spawn { task_id: t.id })
        } else {
            rest.push(SpawnStepView::BudgetExceeded { task_id: t.id, repo_id: t.repo_id })
        }
    }
}

/// Plans the first phase of a tick: every chatting task without an agent
/// session gets an agent, or, when the budget is spent, a budget notice.
pub fn plan_spawns(chatting: &Vec<ChattingTask>, within_budget: bool) -> (res: Vec<SpawnStep>)
    ensures
        res@.map_values(|s: SpawnStep| s@) == spawn_steps(chatting_views(chatting@), within_budget),
{
    let mut out: Vec<SpawnStep> = Vec::new();
    let mut i: usize = 0;
    while i < chatting.len()
        invariant
            i <= chatting@.len(),
            out@.map_values(|s: SpawnStep| s@) == spawn_steps(chatting_views(chatting@.take(i as int)), within_budget),
        decreases chatting@.len() - i,
    {
        let t = &chatting[i];
        let ghost before = out@;
        assert(chatting_views(chatting@.take(i + 1)).drop_last() =~= chatting_views(chatting@.take(i as int)));
        if !t.has_session {
            if within_budget {
                out.push(SpawnStep::Spawn { task_id: String::from_str(t.id.as_str()) });
            } else {
                out.push(SpawnStep::BudgetExceeded {
                    task_id: String::from_str(t.id.as_str()),
                    repo_id: String::from_str(t.repo_id.as_str()),
                });
            }
            assert(out@.map_values(|s: SpawnStep| s@) =~= before.map_values(|s: SpawnStep| s@).push(out@.last()@));
        }
        i = i + 1;
    }
    assert(chatting@.take(i as int) =~= chatting@);
    out
}

/// The branch whose baseline QA result a task is compared with: its own
/// branch, or `task/<id>` when it has none.
pub open spec fn qa_branch_of(id: Seq<char>, branch_name: Option<Seq<char>>) -> Seq<char> {
    match branch_name {
        Some(b) => b,
        None => "task/"@ + id,
    }
}

/// The branch whose baseline QA result `task` is compared with.
pub fn qa_branch(id: &str, branch_name: Option<&str>) -> (res: String)
    ensures
        res@ == qa_branch_of(id@, match branch_name { Some(b) => Some(b@), None => None }),
{
    match branch_name {
        Some(b) => String::from_str(b),
        None => {
            let mut out = String::from_str("task/");
            out.append(id);
            out
        },
    }
}

/// Whether a chatting task needs a baseline QA run: QA is on, a baseline
/// spec exists, no QA agent runs for it and no baseline result exists yet.
pub open spec fn needs_baseline(t: ChattingView, skip_qa: bool, baseline_exists: bool) -> bool {
    !skip_qa && baseline_exists && !t.qa_running && !t.has_baseline_result
}

/// The tasks, in order, that need a baseline QA run.
pub open spec fn baseline_targets(tasks: Seq<ChattingView>, skip_qa: bool, baseline_exists: bool) -> Seq<Seq<char>>
    decreases tasks.len(),
{
    if tasks.len() == 0 {
        Seq::empty()
    } else {
        let rest = baseline_targets(tasks.drop_last(), skip_qa, baseline_exists);
        if needs_baseline(tasks.last(), skip_qa, baseline_exists) { rest.push(tasks.last().id) } else { rest }
    }
}

/// Plans the baseline QA phase of a tick: the ids of the chatting tasks
/// that need a baseline QA run, in order.
pub fn plan_baseline_qa(chatting: &Vec<ChattingTask>, skip_qa: bool, baseline_exists: bool) -> (res: Vec<String>)
    ensures
        res.deep_view() == baseline_targets(chatting_views(chatting@), skip_qa, baseline_exists),
{
    let mut out: Vec<String> = Vec::new();
    let mut i: usize = 0;
    while i < chatting.len()
        invariant
            i <= chatting@.len(),
            out.deep_view() == baseline_targets(chatting_views(chatting@.take(i as int)), skip_qa, baseline_exists),
        decreases chatting@.len() - i,
    {
        let t = &chatting[i];
        assert(chatting_views(chatting@.take(i + 1)).drop_last() =~= chatting_views(chatting@.take(i as int)));
        assert(chatting_views(chatting@.take(i + 1)).last() == t@);
        if !skip_qa && baseline_exists && !t.qa_running && !t.has_baseline_result {
            let ghost before = out.deep_view();
            let ghost before_v = out@;
            out.push(String::from_str(t.id.as_str()));
            assert(out.deep_view() =~= before.push(t.id@)) by {
                assert forall|k: int| 0 <= k < before.len() implies out.deep_view()[k] == before[k] by {
                    assert(out@[k] == before_v[k]);
                }
            }
        }
        i = i + 1;
    }
    assert(chatting@.take(i as int) =~= chatting@);
    out
}

/// The role an agent's prompt gives it.
#[derive(Debug, Clone, Copy, PartialEq, Eq, Structural)]
pub enum PromptRole {
    Implement,
    TestSpecWrite,
    Review,
}

/// The prompt role for a task type: test validation is a review, and
/// orchestration is implemented like any other task.
pub open spec fn role_for(t: TaskType) -> PromptRole {
    match t {
        TaskType::Implement => PromptRole::Implement,
        TaskType::TestSpecWrite => PromptRole::TestSpecWrite,
        TaskType::TestValidate => PromptRole::Review,
        TaskType::Orchestrate => PromptRole::Implement,
    }
}

/// What a retried agent is told of the previous attempt.
#[derive(Debug, Clone)]
pub struct RetryContext {
    pub attempt: u32,
    pub max_retries: u32,
    pub previous_failure: String,
    pub previous_model: String,
}

/// The part of a task that deciding an agent spawn reads.
#[derive(Debug, Clone)]
pub struct SpawnTask {
    pub preferred_model: Option<String>,
    pub task_type: TaskType,
    pub retry_count: u32,
    pub max_retries: u32,
    pub last_failure_reason: Option<String>,
    pub failed_models: Vec<String>,
}

/// How an agent is spawned for a task: its model, its prompt role, the
/// retry context, and the QA failure report when the last failure was one.
#[derive(Debug)]
pub struct SpawnPlan {
    pub model: String,
    pub role: PromptRole,
    pub retry: Option<RetryContext>,
    pub qa_failure_context: Option<String>,
}

/// The retry context as plain values: attempt, limit, previous failure and
/// previous model.
pub open spec fn retry_context_view(r: Option<RetryContext>) -> Option<(u32, u32, Seq<char>, Seq<char>)> {
    match r {
        Some(c) => Some((c.attempt, c.max_retries, c.previous_failure@, c.previous_model@)),
        None => None,
    }
}

/// The model an agent runs on: the task's preferred model, else the
/// default.
pub open spec fn spawn_model(t: SpawnTask, default_model: Seq<char>) -> Seq<char> {
    match t.preferred_model {
        Some(m) => m@,
        None => default_model,
    }
}

/// The retry context of a spawn: present on a retry with a recorded
/// failure, naming the next attempt, the limit, that failure and the last
/// failed model (or the spawn's model when none failed).
pub open spec fn spawn_retry(t: SpawnTask, model: Seq<char>) -> Option<(u32, u32, Seq<char>, Seq<char>)> {
    match t.last_failure_reason {
        Some(r) => if t.retry_count > 0 {
            let fm = t.failed_models.deep_view();
            Some(((t.retry_count + 1) as u32, t.max_retries, r@, if fm.len() > 0 { fm.last() } else { model }))
        } else {
            None
        },
        None => None,
    }
}

/// The QA failure report handed to the agent: the last failure when it is
/// a QA report (it starts with "## QA Failures").
pub open spec fn spawn_qa_context(t: SpawnTask) -> Option<Seq<char>> {
    match t.last_failure_reason {
        Some(r) => if starts_with(r@, "## QA Failures"@) { Some(r@) } else { None },
        None => None,
    }
}

/// Decides how to spawn an agent for `task` when its preferred model, if
/// any, would otherwise be `default_model`.
pub fn plan_spawn(task: &SpawnTask, default_model: &str) -> (res: SpawnPlan)
    requires
        task.retry_count > 0 && task.last_failure_reason is Some ==> task.retry_count < u32::MAX,
    ensures
        res.model@ == spawn_model(*task, default_model@),
        res.role == role_for(task.task_type),
        retry_context_view(res.retry) == spawn_retry(*task, res.model@),
        opt_view(res.qa_failure_context) == spawn_qa_context(*task),
{
    let model = match &task.preferred_model {
        Some(m) => String::from_str(m.as_str()),
        None => String::from_str(default_model),
    };
    let retry = match &task.last_failure_reason {
        Some(reason) => {
            if task.retry_count > 0 {
                let n = task.failed_models.len();
                let previous_model = if n > 0 {
                    proof {
                        assert(task.failed_models.deep_view().last() == task.failed_models@[n - 1]@);
                    }
                    String::from_str(task.failed_models[n - 1].as_str())
                } else {
                    String::from_str(model.as_str())
                };
                Some(RetryContext {
                    attempt: task.retry_count + 1,
                    max_retries: task.max_retries,
                    previous_failure: String::from_str(reason.as_str()),
                    previous_model,
                })
            } else {
                None
            }
        },
        None => None,
    };
    let qa_failure_context = match &task.last_failure_reason {
        Some(reason) => {
            if str_starts_with(reason.as_str(), "## QA Failures") {
                Some(String::from_str(reason.as_str()))
            } else {
                None
            }
        },
        None => None,
    };
    let role = match task.task_type {
        TaskType::Implement => PromptRole::Implement,
        TaskType::TestSpecWrite => PromptRole::TestSpecWrite,
        TaskType::TestValidate => PromptRole::Review,
        TaskType::Orchestrate => PromptRole::Implement,
    };
    SpawnPlan { model, role, retry, qa_failure_context }
}

/// What a tick does while the daemon shuts down.
#[derive(Debug, Clone, Copy, PartialEq, Eq, Structural)]
pub enum ShutdownStep {
    /// No agent runs any more: shutdown is complete.
    Complete,
    /// The drain deadline has passed: stop the remaining agents, then
    /// shutdown is complete.
    TerminateAndComplete,
    /// Agents still run and there is time: wait for them.
    Wait,
}

/// Decides a shutdown tick from the number of running agents and whether
/// the drain deadline has passed.
pub fn shutdown_step(running_agents: usize, deadline_reached: bool) -> (res: ShutdownStep)
    ensures
        res == if running_agents == 0 {
            ShutdownStep::Complete
        } else if deadline_reached {
            ShutdownStep::TerminateAndComplete
        } else {
            ShutdownStep::Wait
        },
{
    if running_agents == 0 {
        ShutdownStep::Complete
    } else if deadline_reached {
        ShutdownStep::TerminateAndComplete
    } else {
        ShutdownStep::Wait
    }
}

/// The phases that one daemon tick runs.
#[derive(Debug, Clone, Copy, PartialEq, Eq, Structural)]
pub struct TickPhases {
    /// Spawn agents for chatting tasks without a session.
    pub spawn_agents: bool,
    /// Spawn baseline QA runs for chatting tasks.
    pub baseline_qa: bool,
    /// Collect agent output and handle finished agents.
    pub poll_agents: bool,
    /// Handle finished QA agents.
    pub poll_qa: bool,
    /// Start and drive the pipelines of ready tasks.
    pub drive_pipelines: bool,
    /// Check tasks awaiting merge.
    pub check_merges: bool,
    /// Poll and trigger context regeneration.
    pub context_regen: bool,
    /// Decide whether shutdown is complete (see [`shutdown_step`]).
    pub shutdown_check: bool,
}

/// The phases of a tick. While the daemon shuts down a tick only collects
/// what the running agents produce and checks whether shutdown is
/// complete: it spawns nothing, drives no pipeline and starts no context
/// regeneration. Otherwise every phase runs but the shutdown check, and
/// baseline QA runs unless QA is skipped.
pub fn tick_phases(shutdown_requested: bool, skip_qa: bool) -> (res: TickPhases)
    ensures
        shutdown_requested ==> res == (TickPhases {
            spawn_agents: false,
            baseline_qa: false,
            poll_agents: true,
            poll_qa: false,
            drive_pipelines: false,
            check_merges: false,
            context_regen: false,
            shutdown_check: true,
        }),
        !shutdown_requested ==> res == (TickPhases {
            spawn_agents: true,
            baseline_qa: !skip_qa,
            poll_agents: true,
            poll_qa: true,
            drive_pipelines: true,
            check_merges: true,
            context_regen: true,
            shutdown_check: false,
        }),
{
    if shutdown_requested {
        TickPhases {
            spawn_agents: false,
            baseline_qa: false,
            poll_agents: true,
            poll_qa: false,
            drive_pipelines: false,
            check_merges: false,
            context_regen: false,
            shutdown_check: true,
        }
    } else {
        TickPhases {
            spawn_agents: true,
            baseline_qa: !skip_qa,
            poll_agents: true,
            poll_qa: true,
            drive_pipelines: true,
            check_merges: true,
            context_regen: true,
            shutdown_check: false,
        }
    }
}

/// What follows a finished QA run.
#[derive(Debug, Clone, PartialEq, Eq)]
pub struct QaFollowUp {
    /// Every check passed (reported as completed, else as failed).
    pub passed: bool,
    /// A passed validation run marks the task ready.
    pub mark_ready: bool,
    /// A failed validation run retries the task: the model and the reason.
    pub retry: Option<(String, String)>,
}

/// Decides what follows a finished QA run with `failed_checks` failures: a
/// pass is reported and, for a validation run, marks the task ready; a
/// failure is reported and, for a validation run, retries the task with its
/// preferred model (or `default_model`) and the QA failure context as the
/// reason. A baseline run only reports.
pub fn qa_follow_up(
    failed_checks: u64,
    validation: bool,
    preferred_model: Option<&str>,
    default_model: &str,
    failure_context: &str,
) -> (res: QaFollowUp)
    ensures
        res.passed == (failed_checks == 0),
        res.mark_ready == (failed_checks == 0 && validation),
        match res.retry {
            Some((model, reason)) => failed_checks > 0 && validation && reason@ == failure_context@ && model@ == match preferred_model {
                Some(m) => m@,
                None => default_model@,
            },
            None => failed_checks == 0 || !validation,
        },
{
    let passed = failed_checks == 0;
    let retry = if !passed && validation {
        let model = match preferred_model {
            Some(m) => String::from_str(m),
            None => String::from_str(default_model),
        };
        Some((model, String::from_str(failure_context)))
    } else {
        None
    };
    QaFollowUp { passed, mark_ready: passed && validation, retry }
}

/// Whether a tick starts a context regeneration: unless regeneration is
/// switched off, when a task became ready or merged or a pipeline completed
/// this tick, or the context is stale, and the cooldown allows it (see
/// `should_regenerate`).
pub fn regen_trigger(skip_context_regen: bool, transition_seen: bool, context_stale: bool, regen_due: bool) -> (res: bool)
    ensures
        res == (!skip_context_regen && (transition_seen || context_stale) && regen_due),
{
    !skip_context_regen && (transition_seen || context_stale) && regen_due
}

/// Whether a pipeline moves on this tick: it is not finished, and a
/// pipeline waiting to restack onto its parent waits out its retry backoff.
pub open spec fn may_advance(terminal: bool, at_stack_stage: bool, retry: Option<RestackRetryState>, now: i64) -> bool {
    !terminal && !(at_stack_stage && match retry {
        Some(r) => now < ready_at(r),
        None => false,
    })
}

/// Whether a pipeline moves on this tick (see [`may_advance`]).
pub fn pipeline_may_advance(terminal: bool, at_stack_stage: bool, retry: Option<RestackRetryState>, now: i64) -> (res: bool)
    requires
        at_stack_stage ==> match retry {
            Some(r) => ready_time_fits(r),
            None => true,
        },
    ensures
        res == may_advance(terminal, at_stack_stage, retry, now),
{
    if terminal {
        return false;
    }
    if at_stack_stage {
        match retry {
            Some(r) => {
                if !r.is_ready(now) {
                    return false;
                }
            },
            None => {},
        }
    }
    true
}

/// Whether a task awaiting merge counts as merged: its pull request is
/// merged, or it was stacked through Graphite (number 0, a `graphite://`
/// url) and its branch is merged into trunk with a clean worktree.
pub open spec fn merged_verdict(pr_number: u64, pr_url: Seq<char>, pr_merged: bool, branch_merged: bool, worktree_dirty: bool) -> bool {
    pr_merged || (pr_number == 0 && starts_with(pr_url, "graphite://"@) && branch_merged && !worktree_dirty)
}

/// Decides whether a task awaiting merge counts as merged, from what `gh`
/// reported of its pull request, whether its branch is merged into trunk,
/// and whether its worktree holds uncommitted changes.
pub fn is_merged(pr_number: u64, pr_url: &str, pr_merged: bool, branch_merged: bool, worktree_dirty: bool) -> (res: bool)
    ensures
        res == merged_verdict(pr_number, pr_url@, pr_merged, branch_merged, worktree_dirty),
{
    if pr_merged {
        return true;
    }
    pr_number == 0 && str_starts_with(pr_url, "graphite://") && branch_merged && !worktree_dirty
}

} // verus!
