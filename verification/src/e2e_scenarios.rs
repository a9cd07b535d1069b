//! Orchestration scenarios run against a simulated system: simulated tasks,
//! chaos faults, metrics, and the execution of scenario steps.

use vstd::prelude::*;
use crate::text::{decimal, join, join_strings, push_decimal, str_eq};

verus! {

/// How a metric is compared with its expected value.
#[derive(Debug, Clone, Copy, PartialEq, Eq, Structural)]
pub enum CompareOp {
    Eq,
    Gt,
    Gte,
    Lt,
    Lte,
}

/// A fault injected into the simulation.
#[derive(Debug, Clone, PartialEq, Eq)]
pub enum ChaosFault {
    /// An agent process crashes.
    AgentCrash { task_id: String },
    /// A Graphite command fails.
    GraphiteFailure { operation: String },
    /// Context generation fails or hangs.
    ContextGenFailure,
    /// A model stops answering.
    ModelHealthDrop { model: String },
    /// The network goes away.
    NetworkOutage,
    /// Writes fail.
    DiskFull,
    /// An agent never finishes.
    AgentHang { task_id: String },
}

/// A fault's label.
pub open spec fn fault_label(f: ChaosFault) -> Seq<char> {
    match f {
        ChaosFault::AgentCrash { .. } => "agent_crash"@,
        ChaosFault::GraphiteFailure { .. } => "graphite_failure"@,
        ChaosFault::ContextGenFailure => "context_gen_failure"@,
        ChaosFault::ModelHealthDrop { .. } => "model_health_drop"@,
        ChaosFault::NetworkOutage => "network_outage"@,
        ChaosFault::DiskFull => "disk_full"@,
        ChaosFault::AgentHang { .. } => "agent_hang"@,
    }
}

/// The task a fault targets, for crashes and hangs.
pub open spec fn fault_target(f: ChaosFault) -> Option<Seq<char>> {
    match f {
        ChaosFault::AgentCrash { task_id } => Some(task_id@),
        ChaosFault::AgentHang { task_id } => Some(task_id@),
        _ => None,
    }
}

impl ChaosFault {
    /// The fault's label.
    pub fn label(&self) -> (res: &'static str)
        ensures
            res@ == fault_label(*self),
    {
        match self {
            ChaosFault::AgentCrash { .. } => "agent_crash",
            ChaosFault::GraphiteFailure { .. } => "graphite_failure",
            ChaosFault::ContextGenFailure => "context_gen_failure",
            ChaosFault::ModelHealthDrop { .. } => "model_health_drop",
            ChaosFault::NetworkOutage => "network_outage",
            ChaosFault::DiskFull => "disk_full",
            ChaosFault::AgentHang { .. } => "agent_hang",
        }
    }
}

/// The active faults and how many may be active at once.
#[derive(Debug, Clone)]
pub struct ChaosPolicy {
    pub active_faults: Vec<ChaosFault>,
    pub max_concurrent_faults: usize,
}

/// The first fault targeting `task_id`, by index; -1 without one.
pub open spec fn fault_index(fs: Seq<ChaosFault>, task_id: Seq<char>, i: int) -> int
    decreases fs.len() - i,
{
    if i < 0 || i >= fs.len() {
        -1
    } else if fault_target(fs[i]) == Some(task_id) {
        i
    } else {
        fault_index(fs, task_id, i + 1)
    }
}

proof fn lemma_fault_index(fs: Seq<ChaosFault>, t: Seq<char>, i: int)
    requires
        0 <= i <= fs.len(),
    ensures
        fault_index(fs, t, i) == -1 || (i <= fault_index(fs, t, i) < fs.len() && fault_target(fs[fault_index(fs, t, i)]) == Some(t)),
    decreases fs.len() - i,
{
    if i < fs.len() {
        lemma_fault_index(fs, t, i + 1);
    }
}

fn copy_fault(f: &ChaosFault) -> (res: ChaosFault)
    ensures
        res == *f,
{
    match f {
        ChaosFault::AgentCrash { task_id } => ChaosFault::AgentCrash { task_id: task_id.clone() },
        ChaosFault::GraphiteFailure { operation } => ChaosFault::GraphiteFailure { operation: operation.clone() },
        ChaosFault::ContextGenFailure => ChaosFault::ContextGenFailure,
        ChaosFault::ModelHealthDrop { model } => ChaosFault::ModelHealthDrop { model: model.clone() },
        ChaosFault::NetworkOutage => ChaosFault::NetworkOutage,
        ChaosFault::DiskFull => ChaosFault::DiskFull,
        ChaosFault::AgentHang { task_id } => ChaosFault::AgentHang { task_id: task_id.clone() },
    }
}

impl ChaosPolicy {
    /// No active faults, at most three at once.
    pub fn new() -> (res: Self)
        ensures
            res.active_faults@.len() == 0,
            res.max_concurrent_faults == 3,
    {
        ChaosPolicy { active_faults: Vec::new(), max_concurrent_faults: 3 }
    }

    /// Adds a fault unless the limit is reached; says whether it was added.
    pub fn inject(&mut self, fault: ChaosFault) -> (res: bool)
        ensures
            res == (old(self).active_faults@.len() < old(self).max_concurrent_faults),
            final(self).max_concurrent_faults == old(self).max_concurrent_faults,
            final(self).active_faults@ == if res { old(self).active_faults@.push(fault) } else { old(self).active_faults@ },
            old(self).active_faults@.len() <= old(self).max_concurrent_faults ==> final(self).active_faults@.len() <= final(self).max_concurrent_faults,
    {
        if self.active_faults.len() >= self.max_concurrent_faults {
            return false;
        }
        self.active_faults.push(fault);
        true
    }

    /// Removes every fault.
    pub fn clear(&mut self)
        ensures
            final(self).active_faults@.len() == 0,
            final(self).max_concurrent_faults == old(self).max_concurrent_faults,
    {
        self.active_faults = Vec::new();
    }

    /// Whether a fault with `label` is active.
    pub fn has_fault(&self, label: &str) -> (res: bool)
        ensures
            res == exists|i: int| 0 <= i < self.active_faults@.len() && fault_label(#[trigger] self.active_faults@[i]) == label@,
    {
        let mut i: usize = 0;
        while i < self.active_faults.len()
            invariant
                i <= self.active_faults@.len(),
                forall|j: int| 0 <= j < i ==> fault_label(#[trigger] self.active_faults@[j]) != label@,
            decreases self.active_faults@.len() - i,
        {
            if str_eq(self.active_faults[i].label(), label) {
                return true;
            }
            i = i + 1;
        }
        false
    }

    /// The index of the first crash or hang fault targeting `task_id`.
    pub fn fault_for_task(&self, task_id: &str) -> (res: Option<usize>)
        ensures
            match res {
                Some(i) => i as int == fault_index(self.active_faults@, task_id@, 0) && i < self.active_faults@.len(),
                None => fault_index(self.active_faults@, task_id@, 0) == -1,
            },
    {
        proof {
            lemma_fault_index(self.active_faults@, task_id@, 0);
        }
        let mut i: usize = 0;
        while i < self.active_faults.len()
            invariant
                i <= self.active_faults@.len(),
                fault_index(self.active_faults@, task_id@, 0) == fault_index(self.active_faults@, task_id@, i as int),
            decreases self.active_faults@.len() - i,
        {
            let hit = match &self.active_faults[i] {
                ChaosFault::AgentCrash { task_id: t } => str_eq(t.as_str(), task_id),
                ChaosFault::AgentHang { task_id: t } => str_eq(t.as_str(), task_id),
                _ => false,
            };
            if hit {
                return Some(i);
            }
            i = i + 1;
        }
        None
    }
}

/// One state change of a simulated task.
#[derive(Debug, Clone, PartialEq, Eq)]
pub struct StateTransitionRecord {
    pub from: String,
    pub to: String,
    pub at_tick: u64,
    pub reason: String,
}

/// A task of the simulation.
#[derive(Debug, Clone, PartialEq, Eq)]
pub struct SimulatedTask {
    pub task_id: String,
    pub description: String,
    pub state: String,
    /// Creation time, in nanoseconds since the Unix epoch.
    pub created_at: i64,
    /// Time of the last change, in nanoseconds since the Unix epoch.
    pub updated_at: i64,
    /// Ticks spent in the current state.
    pub ticks_in_state: u64,
    pub transitions: Vec<StateTransitionRecord>,
}

/// A state change as plain values: from, to, tick and reason.
pub type TransitionView = (Seq<char>, Seq<char>, u64, Seq<char>);

/// A simulated task as plain values.
pub struct TaskView {
    pub task_id: Seq<char>,
    pub description: Seq<char>,
    pub state: Seq<char>,
    pub created_at: i64,
    pub updated_at: i64,
    pub ticks_in_state: u64,
    pub transitions: Seq<TransitionView>,
}

/// The view of a state change.
pub open spec fn transition_view(r: StateTransitionRecord) -> TransitionView {
    (r.from@, r.to@, r.at_tick, r.reason@)
}

/// The views of a list of state changes.
pub open spec fn transition_views(rs: Seq<StateTransitionRecord>) -> Seq<TransitionView> {
    rs.map_values(|r: StateTransitionRecord| transition_view(r))
}

impl View for SimulatedTask {
    type V = TaskView;

    open spec fn view(&self) -> TaskView {
        TaskView {
            task_id: self.task_id@,
            description: self.description@,
            state: self.state@,
            created_at: self.created_at,
            updated_at: self.updated_at,
            ticks_in_state: self.ticks_in_state,
            transitions: transition_views(self.transitions@),
        }
    }
}

/// A task after a change to `to` at `tick` for `reason`, at time `now`.
pub open spec fn moved(t: TaskView, to: Seq<char>, tick: u64, reason: Seq<char>, now: i64) -> TaskView {
    TaskView {
        state: to,
        ticks_in_state: 0,
        updated_at: now,
        transitions: t.transitions.push((t.state, to, tick, reason)),
        ..t
    }
}

/// Whether a state is final.
pub open spec fn is_terminal_state(s: Seq<char>) -> bool {
    s == "MERGED"@ || s == "STOPPED"@
}

impl SimulatedTask {
    /// A new task in the CHATTING state, created at `now`.
    pub fn new(task_id: &str, description: &str, now: i64) -> (res: Self)
        ensures
            res@ == (TaskView {
                task_id: task_id@,
                description: description@,
                state: "CHATTING"@,
                created_at: now,
                updated_at: now,
                ticks_in_state: 0,
                transitions: Seq::empty(),
            }),
    {
        let res = SimulatedTask {
            task_id: String::from_str(task_id),
            description: String::from_str(description),
            state: String::from_str("CHATTING"),
            created_at: now,
            updated_at: now,
            ticks_in_state: 0,
            transitions: Vec::new(),
        };
        assert(res@.transitions =~= Seq::<TransitionView>::empty());
        res
    }

    /// Moves the task to `to`, recording the change.
    pub fn transition(&mut self, to: &str, tick: u64, reason: &str, now: i64)
        ensures
            final(self)@ == moved(old(self)@, to@, tick, reason@, now),
    {
        let from = self.state.clone();
        let ghost before = self@.transitions;
        self.transitions.push(StateTransitionRecord {
            from,
            to: String::from_str(to),
            at_tick: tick,
            reason: String::from_str(reason),
        });
        self.state = String::from_str(to);
        self.ticks_in_state = 0;
        self.updated_at = now;
        assert(self@.transitions =~= before.push((old(self)@.state, to@, tick, reason@)));
    }

    /// One more tick in the current state.
    pub fn tick(&mut self)
        requires
            old(self).ticks_in_state < u64::MAX,
        ensures
            final(self)@ == (TaskView { ticks_in_state: (old(self).ticks_in_state + 1) as u64, ..old(self)@ }),
    {
        self.ticks_in_state = self.ticks_in_state + 1;
    }

    /// Whether the task is merged or stopped.
    pub fn is_terminal(&self) -> (res: bool)
        ensures
            res == is_terminal_state(self.state@),
    {
        str_eq(self.state.as_str(), "MERGED") || str_eq(self.state.as_str(), "STOPPED")
    }
}

/// Counters of a scenario run.
#[derive(Debug, Clone, Copy, PartialEq, Eq, Structural)]
pub struct ScenarioMetrics {
    pub total_ticks: u64,
    pub tasks_created: u64,
    pub tasks_merged: u64,
    pub tasks_stopped: u64,
    pub agent_spawns: u64,
    pub agent_completions: u64,
    pub verify_runs: u64,
    pub qa_runs: u64,
    pub chaos_injections: u64,
    pub stuck_detections: u64,
    pub state_transitions: u64,
}

/// All counters at zero.
pub open spec fn zero_metrics() -> ScenarioMetrics {
    ScenarioMetrics {
        total_ticks: 0,
        tasks_created: 0,
        tasks_merged: 0,
        tasks_stopped: 0,
        agent_spawns: 0,
        agent_completions: 0,
        verify_runs: 0,
        qa_runs: 0,
        chaos_injections: 0,
        stuck_detections: 0,
        state_transitions: 0,
    }
}

/// The counter named `name`.
pub open spec fn metric_named(m: ScenarioMetrics, name: Seq<char>) -> Option<u64> {
    if name == "total_ticks"@ {
        Some(m.total_ticks)
    } else if name == "tasks_created"@ {
        Some(m.tasks_created)
    } else if name == "tasks_merged"@ {
        Some(m.tasks_merged)
    } else if name == "tasks_stopped"@ {
        Some(m.tasks_stopped)
    } else if name == "agent_spawns"@ {
        Some(m.agent_spawns)
    } else if name == "agent_completions"@ {
        Some(m.agent_completions)
    } else if name == "verify_runs"@ {
        Some(m.verify_runs)
    } else if name == "qa_runs"@ {
        Some(m.qa_runs)
    } else if name == "chaos_injections"@ {
        Some(m.chaos_injections)
    } else if name == "stuck_detections"@ {
        Some(m.stuck_detections)
    } else if name == "state_transitions"@ {
        Some(m.state_transitions)
    } else {
        None
    }
}

impl ScenarioMetrics {
    /// All counters at zero.
    pub fn new() -> (res: Self)
        ensures
            res == zero_metrics(),
    {
        ScenarioMetrics {
            total_ticks: 0,
            tasks_created: 0,
            tasks_merged: 0,
            tasks_stopped: 0,
            agent_spawns: 0,
            agent_completions: 0,
            verify_runs: 0,
            qa_runs: 0,
            chaos_injections: 0,
            stuck_detections: 0,
            state_transitions: 0,
        }
    }

    /// The counter named `name`, for metric assertions.
    pub fn get(&self, name: &str) -> (res: Option<u64>)
        ensures
            res == metric_named(*self, name@),
    {
        if str_eq(name, "total_ticks") {
            Some(self.total_ticks)
        } else if str_eq(name, "tasks_created") {
            Some(self.tasks_created)
        } else if str_eq(name, "tasks_merged") {
            Some(self.tasks_merged)
        } else if str_eq(name, "tasks_stopped") {
            Some(self.tasks_stopped)
        } else if str_eq(name, "agent_spawns") {
            Some(self.agent_spawns)
        } else if str_eq(name, "agent_completions") {
            Some(self.agent_completions)
        } else if str_eq(name, "verify_runs") {
            Some(self.verify_runs)
        } else if str_eq(name, "qa_runs") {
            Some(self.qa_runs)
        } else if str_eq(name, "chaos_injections") {
            Some(self.chaos_injections)
        } else if str_eq(name, "stuck_detections") {
            Some(self.stuck_detections)
        } else if str_eq(name, "state_transitions") {
            Some(self.state_transitions)
        } else {
            None
        }
    }
}

/// The outcome of one scenario step.
#[derive(Debug, Clone, PartialEq, Eq)]
pub struct StepResult {
    pub step_index: usize,
    pub action: String,
    pub passed: bool,
    pub detail: String,
}

/// A task found stuck during a soak run.
#[derive(Debug, Clone, PartialEq, Eq)]
pub struct StuckTaskInfo {
    pub task_id: String,
    pub state: String,
    pub ticks_in_state: u64,
    pub detected_at_tick: u64,
}

/// A periodic progress report of a soak run.
#[derive(Debug, Clone, Copy, PartialEq, Eq, Structural)]
pub struct SoakProgressReport {
    pub tick: u64,
    pub active_tasks: usize,
    pub terminal_tasks: usize,
    pub stuck_tasks: usize,
    pub chaos_active: bool,
}

/// One step of a scenario.
#[derive(Debug, Clone, PartialEq, Eq)]
pub enum ScenarioStep {
    /// Create a task.
    CreateTask { task_id: String, description: String },
    /// Check a task's state.
    ExpectState { task_id: String, expected_state: String, timeout_secs: u64 },
    /// An agent finishes work on a task.
    CompleteAgent { task_id: String, success: bool, model: String },
    /// A verify run on a task.
    SimulateVerify { task_id: String, success: bool },
    /// A QA run on a task.
    SimulateQA { task_id: String, passed: bool, failed_tests: Vec<String> },
    /// Inject a fault.
    InjectChaos { fault: ChaosFault },
    /// Clear every fault.
    ClearChaos,
    /// Let ticks pass.
    WaitTicks { count: u64 },
    /// Check that no task sat in one state too long.
    AssertNoStuckTasks { max_unchanged_ticks: u64 },
    /// A task's pull request merges.
    SimulateMerge { task_id: String },
    /// Check the number of tasks.
    AssertTaskCount { expected: usize },
    /// Write a message to the run's log.
    Log { message: String },
}

/// The simulation that scenarios run against.
#[derive(Debug)]
pub struct ScenarioRunner {
    /// The tasks, in order of creation; one per task id.
    pub tasks: Vec<SimulatedTask>,
    pub chaos: ChaosPolicy,
    pub metrics: ScenarioMetrics,
    pub current_tick: u64,
    pub log: Vec<String>,
}

/// The views of the tasks.
pub open spec fn task_views(ts: Seq<SimulatedTask>) -> Seq<TaskView> {
    ts.map_values(|t: SimulatedTask| t@)
}

/// The index of the task `id` among the views from `i` on; -1 without one.
pub open spec fn task_pos(ts: Seq<TaskView>, id: Seq<char>, i: int) -> int
    decreases ts.len() - i,
{
    if i < 0 || i >= ts.len() {
        -1
    } else if ts[i].task_id == id {
        i
    } else {
        task_pos(ts, id, i + 1)
    }
}

proof fn lemma_task_pos(ts: Seq<TaskView>, id: Seq<char>, i: int)
    requires
        0 <= i <= ts.len(),
    ensures
        task_pos(ts, id, i) == -1 || (i <= task_pos(ts, id, i) < ts.len() && ts[task_pos(ts, id, i)].task_id == id),
        task_pos(ts, id, i) == -1 ==> forall|j: int| i <= j < ts.len() ==> ts[j].task_id != id,
    decreases ts.len() - i,
{
    if i < ts.len() {
        lemma_task_pos(ts, id, i + 1);
    }
}

/// A line of the run's log at `tick`.
pub open spec fn log_line(tick: u64, text: Seq<char>) -> Seq<char> {
    "[tick "@ + decimal(tick as nat) + "] "@ + text
}

/// `true` or `false`.
pub open spec fn bool_text(b: bool) -> Seq<char> {
    if b { "true"@ } else { "false"@ }
}

/// The view of a step's outcome: index, action, passed and detail.
pub open spec fn result_view(r: StepResult) -> (usize, Seq<char>, bool, Seq<char>) {
    (r.step_index, r.action@, r.passed, r.detail@)
}

/// The text of a list of names as Rust's debug formatting prints it.
pub uninterp spec fn debug_list(items: Seq<Seq<char>>) -> Seq<char>;

/// Prints a list of strings with Rust's debug formatting.
#[verifier::external_body]
fn debug_strings(items: &Vec<String>) -> (res: String)
    ensures
        res@ == debug_list(items.deep_view()),
{
    format!("{:?}", items)
}

fn push_bool(out: &mut String, b: bool)
    ensures
        final(out)@ == old(out)@ + bool_text(b),
{
    if b {
        out.append("true");
    } else {
        out.append("false");
    }
}

fn log_text(tick: u64, text: &str) -> (res: String)
    ensures
        res@ == log_line(tick, text@),
{
    let mut s = String::from_str("[tick ");
    push_decimal(&mut s, tick);
    s.append("] ");
    s.append(text);
    s
}

fn step_result(index: usize, action: &str, passed: bool, detail: String) -> (res: StepResult)
    ensures
        result_view(res) == (index, action@, passed, detail@),
{
    StepResult { step_index: index, action: String::from_str(action), passed, detail }
}

fn not_found(task_id: &str) -> (res: String)
    ensures
        res@ == not_found_text(task_id@),
{
    let mut d = String::from_str("Task ");
    d.append(task_id);
    d.append(" not found");
    d
}

/// The next state a task moves to by itself, after enough ticks.
pub open spec fn auto_next(state: Seq<char>, ticks: u64) -> Option<Seq<char>> {
    if state == "CHATTING"@ && ticks >= 5 {
        Some("READY"@)
    } else if state == "READY"@ && ticks >= 2 {
        Some("SUBMITTING"@)
    } else if state == "SUBMITTING"@ && ticks >= 3 {
        Some("AWAITING_MERGE"@)
    } else if state == "AWAITING_MERGE"@ && ticks >= 4 {
        Some("MERGED"@)
    } else {
        None
    }
}

/// A task after the automatic progression of one tick: it moves on when no
/// fault targets it and it sat long enough.
pub open spec fn progressed(t: TaskView, faults: Seq<ChaosFault>, tick: u64, now: i64) -> TaskView {
    if fault_index(faults, t.task_id, 0) >= 0 {
        t
    } else {
        match auto_next(t.state, t.ticks_in_state) {
            Some(next) => moved(t, next, tick, "auto-progress after "@ + decimal(t.ticks_in_state as nat) + " ticks"@, now),
            None => t,
        }
    }
}

/// Whether a task moves on by itself this tick.
pub open spec fn moves_on(t: TaskView, faults: Seq<ChaosFault>) -> bool {
    fault_index(faults, t.task_id, 0) < 0 && auto_next(t.state, t.ticks_in_state) is Some
}

/// Whether a task reaches MERGED by itself this tick.
pub open spec fn merges_on(t: TaskView, faults: Seq<ChaosFault>) -> bool {
    moves_on(t, faults) && auto_next(t.state, t.ticks_in_state) == Some("MERGED"@)
}

/// How many of the tasks satisfy `f`.
pub open spec fn count_tasks(ts: Seq<TaskView>, faults: Seq<ChaosFault>, merged: bool) -> nat
    decreases ts.len(),
{
    if ts.len() == 0 {
        0
    } else {
        count_tasks(ts.drop_last(), faults, merged) + if (if merged { merges_on(ts.last(), faults) } else { moves_on(ts.last(), faults) }) { 1nat } else { 0nat }
    }
}

proof fn lemma_count_tasks_bound(ts: Seq<TaskView>, faults: Seq<ChaosFault>, merged: bool)
    ensures
        count_tasks(ts, faults, merged) <= ts.len(),
    decreases ts.len(),
{
    if ts.len() > 0 {
        lemma_count_tasks_bound(ts.drop_last(), faults, merged);
    }
}

fn copy_task(t: &SimulatedTask) -> (res: SimulatedTask)
    ensures
        res@ == t@,
{
    let mut trs: Vec<StateTransitionRecord> = Vec::new();
    let mut i: usize = 0;
    while i < t.transitions.len()
        invariant
            i <= t.transitions@.len(),
            trs@.len() == i,
            transition_views(trs@) =~= transition_views(t.transitions@.take(i as int)),
        decreases t.transitions@.len() - i,
    {
        let r = &t.transitions[i];
        let c = StateTransitionRecord { from: r.from.clone(), to: r.to.clone(), at_tick: r.at_tick, reason: r.reason.clone() };
        let ghost before = trs@;
        let ghost c_view = c;
        assert(transition_view(c) == transition_view(t.transitions@[i as int]));
        trs.push(c);
        assert forall|j: int| 0 <= j < i + 1 implies #[trigger] transition_views(trs@)[j] == transition_views(t.transitions@.take(i + 1))[j] by {
            if j < i {
                assert(transition_views(before)[j] == transition_views(t.transitions@.take(i as int))[j]);
                assert(trs@[j] == before[j]);
            } else {
                assert(trs@[j] == c_view);
            }
        }
        assert(transition_views(trs@) =~= transition_views(t.transitions@.take(i + 1)));
        i = i + 1;
    }
    assert(t.transitions@.take(t.transitions@.len() as int) =~= t.transitions@);
    SimulatedTask {
        task_id: t.task_id.clone(),
        description: t.description.clone(),
        state: t.state.clone(),
        created_at: t.created_at,
        updated_at: t.updated_at,
        ticks_in_state: t.ticks_in_state,
        transitions: trs,
    }
}


/// The runner's state as plain values.
pub struct RunnerView {
    pub tasks: Seq<TaskView>,
    pub faults: Seq<ChaosFault>,
    pub max_faults: usize,
    pub metrics: ScenarioMetrics,
    pub tick: u64,
    pub log: Seq<Seq<char>>,
}

impl View for ScenarioRunner {
    type V = RunnerView;

    open spec fn view(&self) -> RunnerView {
        RunnerView {
            tasks: task_views(self.tasks@),
            faults: self.chaos.active_faults@,
            max_faults: self.chaos.max_concurrent_faults,
            metrics: self.metrics,
            tick: self.current_tick,
            log: self.log.deep_view(),
        }
    }
}

/// No two tasks share an id.
pub open spec fn ids_unique(ts: Seq<TaskView>) -> bool {
    forall|i: int, j: int| 0 <= i < ts.len() && 0 <= j < ts.len() && i != j ==> ts[i].task_id != ts[j].task_id
}

/// The runner with task `i` moved to `to` for `reason` at the current tick.
pub open spec fn move_task(r: RunnerView, i: int, to: Seq<char>, reason: Seq<char>, now: i64) -> RunnerView {
    RunnerView { tasks: r.tasks.update(i, moved(r.tasks[i], to, r.tick, reason, now)), ..r }
}

/// The runner with a line added to its log.
pub open spec fn logged(r: RunnerView, text: Seq<char>) -> RunnerView {
    RunnerView { log: r.log.push(log_line(r.tick, text)), ..r }
}

/// The runner with one more recorded state change.
pub open spec fn counted_transition(r: RunnerView) -> RunnerView {
    RunnerView { metrics: ScenarioMetrics { state_transitions: (r.metrics.state_transitions + 1) as u64, ..r.metrics }, ..r }
}

proof fn lemma_update_keeps_ids(ts: Seq<TaskView>, i: int, t: TaskView)
    requires
        ids_unique(ts),
        0 <= i < ts.len(),
        t.task_id == ts[i].task_id,
    ensures
        ids_unique(ts.update(i, t)),
        forall|id: Seq<char>| #[trigger] task_pos(ts.update(i, t), id, 0) == task_pos(ts, id, 0),
{
    let us = ts.update(i, t);
    assert forall|a: int, b: int| 0 <= a < us.len() && 0 <= b < us.len() && a != b implies us[a].task_id != us[b].task_id by {
        assert(us[a].task_id == ts[a].task_id);
        assert(us[b].task_id == ts[b].task_id);
    }
    assert forall|id: Seq<char>| #[trigger] task_pos(us, id, 0) == task_pos(ts, id, 0) by {
        lemma_task_pos(us, id, 0);
        lemma_task_pos(ts, id, 0);
        let p = task_pos(ts, id, 0);
        if p >= 0 {
            assert(us[p].task_id == ts[p].task_id);
            lemma_task_pos_unique(us, id, p);
        } else {
            let q = task_pos(us, id, 0);
            if q >= 0 {
                assert(us[q].task_id == ts[q].task_id);
            }
        }
    }
}

proof fn lemma_task_pos_unique(ts: Seq<TaskView>, id: Seq<char>, k: int)
    requires
        ids_unique(ts),
        0 <= k < ts.len(),
        ts[k].task_id == id,
    ensures
        task_pos(ts, id, 0) == k,
{
    lemma_task_pos(ts, id, 0);
    let p = task_pos(ts, id, 0);
    if p != k {
        assert(ts[p].task_id == ts[k].task_id);
    }
}

impl ScenarioRunner {
    /// Task ids are unique.
    pub open spec fn wf(&self) -> bool {
        ids_unique(self@.tasks)
    }

    /// An empty runner: no tasks, no faults, counters at zero, tick 0.
    pub fn new() -> (res: Self)
        ensures
            res.wf(),
            res@ == (RunnerView {
                tasks: Seq::empty(),
                faults: Seq::empty(),
                max_faults: 3,
                metrics: zero_metrics(),
                tick: 0,
                log: Seq::empty(),
            }),
    {
        let res = ScenarioRunner {
            tasks: Vec::new(),
            chaos: ChaosPolicy::new(),
            metrics: ScenarioMetrics::new(),
            current_tick: 0,
            log: Vec::new(),
        };
        assert(res@.tasks =~= Seq::<TaskView>::empty());
        assert(res@.log =~= Seq::<Seq<char>>::empty());
        assert(res@.faults =~= Seq::<ChaosFault>::empty());
        res
    }

    /// Clears tasks, faults, counters, tick and log; the fault limit stays.
    pub fn reset(&mut self)
        ensures
            final(self).wf(),
            final(self)@ == (RunnerView {
                tasks: Seq::empty(),
                faults: Seq::empty(),
                max_faults: old(self)@.max_faults,
                metrics: zero_metrics(),
                tick: 0,
                log: Seq::empty(),
            }),
    {
        self.tasks = Vec::new();
        self.chaos.clear();
        self.metrics = ScenarioMetrics::new();
        self.current_tick = 0;
        self.log = Vec::new();
        assert(self@.tasks =~= Seq::<TaskView>::empty());
        assert(self@.log =~= Seq::<Seq<char>>::empty());
        assert(self@.faults =~= Seq::<ChaosFault>::empty());
    }

    /// The position of the task `task_id`.
    pub fn find_task(&self, task_id: &str) -> (res: Option<usize>)
        ensures
            match res {
                Some(i) => i as int == task_pos(self@.tasks, task_id@, 0) && i < self@.tasks.len(),
                None => task_pos(self@.tasks, task_id@, 0) == -1,
            },
    {
        proof {
            lemma_task_pos(self@.tasks, task_id@, 0);
        }
        let mut i: usize = 0;
        while i < self.tasks.len()
            invariant
                i <= self.tasks@.len(),
                task_pos(self@.tasks, task_id@, 0) == task_pos(self@.tasks, task_id@, i as int),
            decreases self.tasks@.len() - i,
        {
            if str_eq(self.tasks[i].task_id.as_str(), task_id) {
                return Some(i);
            }
            i = i + 1;
        }
        None
    }

    fn log_line_push(&mut self, text: &str)
        ensures
            final(self)@ == logged(old(self)@, text@),
    {
        let line = log_text(self.current_tick, text);
        let ghost before = self.log.deep_view();
        self.log.push(line);
        assert(self.log.deep_view() =~= before.push(log_line(old(self)@.tick, text@)));
    }

    fn move_task_at(&mut self, i: usize, to: &str, tick: u64, reason: &str, now: i64)
        requires
            i < old(self)@.tasks.len(),
        ensures
            final(self)@ == (RunnerView {
                tasks: old(self)@.tasks.update(i as int, moved(old(self)@.tasks[i as int], to@, tick, reason@, now)),
                ..old(self)@
            }),
    {
        let mut t = copy_task(&self.tasks[i]);
        t.transition(to, tick, reason, now);
        let ghost before = self.tasks@;
        self.tasks.set(i, t);
        assert(task_views(self.tasks@) =~= task_views(before).update(i as int, t@));
    }
}


/// The detail of a step that names a missing task.
pub open spec fn not_found_text(id: Seq<char>) -> Seq<char> {
    "Task "@ + id + " not found"@
}

/// A fresh task view.
pub open spec fn new_task_view(id: Seq<char>, desc: Seq<char>, now: i64) -> TaskView {
    TaskView {
        task_id: id,
        description: desc,
        state: "CHATTING"@,
        created_at: now,
        updated_at: now,
        ticks_in_state: 0,
        transitions: Seq::empty(),
    }
}

/// Creating a task: a task with the same id is replaced in place, else the
/// task is appended.
pub open spec fn create_outcome(r: RunnerView, id: Seq<char>, desc: Seq<char>, now: i64) -> (RunnerView, bool, Seq<char>) {
    let t = new_task_view(id, desc, now);
    let p = task_pos(r.tasks, id, 0);
    let tasks = if p >= 0 { r.tasks.update(p, t) } else { r.tasks.push(t) };
    let m = ScenarioMetrics { tasks_created: (r.metrics.tasks_created + 1) as u64, ..r.metrics };
    (logged(RunnerView { tasks, metrics: m, ..r }, "Created task "@ + id), true, "Created task "@ + id)
}

/// Checking a task's state.
pub open spec fn expect_outcome(r: RunnerView, id: Seq<char>, expected: Seq<char>) -> (RunnerView, bool, Seq<char>) {
    let p = task_pos(r.tasks, id, 0);
    if p < 0 {
        (r, false, not_found_text(id))
    } else if r.tasks[p].state == expected {
        (r, true, "Task "@ + id + " is in "@ + expected + " as expected"@)
    } else {
        (r, false, "Task "@ + id + " expected "@ + expected + " but was "@ + r.tasks[p].state)
    }
}

/// Checking the number of tasks.
pub open spec fn count_outcome(r: RunnerView, expected: usize) -> (RunnerView, bool, Seq<char>) {
    (r, r.tasks.len() == expected, "Task count: "@ + decimal(r.tasks.len()) + " (expected "@ + decimal(expected as nat) + ")"@)
}

/// Writing a message to the log.
pub open spec fn log_outcome(r: RunnerView, message: Seq<char>) -> (RunnerView, bool, Seq<char>) {
    (logged(r, message), true, message)
}

impl ScenarioRunner {
    fn create_task(&mut self, task_id: &str, description: &str, now: i64) -> (res: (bool, String))
        requires
            old(self).wf(),
            old(self).metrics.tasks_created < u64::MAX,
        ensures
            final(self).wf(),
            (final(self)@, res.0, res.1@) == create_outcome(old(self)@, task_id@, description@, now),
    {
        let t = SimulatedTask::new(task_id, description, now);
        let ghost r = self@;
        proof {
            lemma_task_pos(r.tasks, task_id@, 0);
        }
        match self.find_task(task_id) {
            Some(i) => {
                let ghost before = self.tasks@;
                self.tasks.set(i, t);
                assert(task_views(self.tasks@) =~= task_views(before).update(i as int, t@));
                proof {
                    lemma_update_keeps_ids(r.tasks, i as int, t@);
                }
            },
            None => {
                let ghost before = self.tasks@;
                self.tasks.push(t);
                assert(task_views(self.tasks@) =~= task_views(before).push(t@));
            },
        }
        self.metrics.tasks_created = self.metrics.tasks_created + 1;
        let mut d = String::from_str("Created task ");
        d.append(task_id);
        self.log_line_push(d.as_str());
        (true, d)
    }

    fn expect_state(&self, task_id: &str, expected: &str) -> (res: (bool, String))
        ensures
            (self@, res.0, res.1@) == expect_outcome(self@, task_id@, expected@),
    {
        match self.find_task(task_id) {
            None => (false, not_found(task_id)),
            Some(i) => {
                let actual = self.tasks[i].state.as_str();
                let mut d = String::from_str("Task ");
                d.append(task_id);
                if str_eq(actual, expected) {
                    d.append(" is in ");
                    d.append(expected);
                    d.append(" as expected");
                    (true, d)
                } else {
                    d.append(" expected ");
                    d.append(expected);
                    d.append(" but was ");
                    d.append(actual);
                    (false, d)
                }
            },
        }
    }

    fn assert_task_count(&self, expected: usize) -> (res: (bool, String))
        ensures
            (self@, res.0, res.1@) == count_outcome(self@, expected),
    {
        let n = self.tasks.len();
        let mut d = String::from_str("Task count: ");
        push_decimal(&mut d, n as u64);
        d.append(" (expected ");
        push_decimal(&mut d, expected as u64);
        d.append(")");
        (n == expected, d)
    }

    fn log_message(&mut self, message: &str) -> (res: (bool, String))
        ensures
            (final(self)@, res.0, res.1@) == log_outcome(old(self)@, message@),
    {
        self.log_line_push(message);
        (true, String::from_str(message))
    }
}


/// An agent finishing on a task. A fault targeting the task intercepts it and
/// sends the task back to CHATTING.
pub open spec fn complete_outcome(r: RunnerView, id: Seq<char>, success: bool, model: Seq<char>, now: i64) -> (RunnerView, bool, Seq<char>) {
    let m = ScenarioMetrics {
        agent_spawns: (r.metrics.agent_spawns + 1) as u64,
        agent_completions: (r.metrics.agent_completions + 1) as u64,
        ..r.metrics
    };
    let r1 = RunnerView { metrics: m, ..r };
    let fi = fault_index(r.faults, id, 0);
    let p = task_pos(r.tasks, id, 0);
    if fi >= 0 {
        let label = fault_label(r.faults[fi]);
        let r2 = logged(r1, "Chaos: "@ + label + " for task "@ + id);
        let r3 = if p >= 0 { counted_transition(move_task(r2, p, "CHATTING"@, "chaos: "@ + label, now)) } else { r2 };
        (r3, true, "Agent for "@ + id + " intercepted by chaos: "@ + label)
    } else if p >= 0 {
        let r2 = if success {
            move_task(r1, p, "READY"@, "agent "@ + model + " completed"@, now)
        } else {
            move_task(r1, p, "CHATTING"@, "agent "@ + model + " failed, retrying"@, now)
        };
        (counted_transition(r2), true, "Agent "@ + model + " for task "@ + id + ": success="@ + bool_text(success))
    } else {
        (r1, false, not_found_text(id))
    }
}

/// A verify run on a task.
pub open spec fn verify_outcome(r: RunnerView, id: Seq<char>, success: bool, now: i64) -> (RunnerView, bool, Seq<char>) {
    let r1 = RunnerView { metrics: ScenarioMetrics { verify_runs: (r.metrics.verify_runs + 1) as u64, ..r.metrics }, ..r };
    let p = task_pos(r.tasks, id, 0);
    if p >= 0 {
        let r2 = if success {
            move_task(r1, p, "SUBMITTING"@, "verify passed"@, now)
        } else {
            move_task(r1, p, "CHATTING"@, "verify failed"@, now)
        };
        (counted_transition(r2), true, "Verify for "@ + id + ": success="@ + bool_text(success))
    } else {
        (r1, false, not_found_text(id))
    }
}

/// A QA run on a task: a pass is logged, a failure sends the task back to
/// CHATTING.
pub open spec fn qa_outcome(r: RunnerView, id: Seq<char>, passed: bool, failed: Seq<Seq<char>>, now: i64) -> (RunnerView, bool, Seq<char>) {
    let r1 = RunnerView { metrics: ScenarioMetrics { qa_runs: (r.metrics.qa_runs + 1) as u64, ..r.metrics }, ..r };
    let p = task_pos(r.tasks, id, 0);
    if p >= 0 {
        let r2 = if passed {
            logged(r1, "QA passed for "@ + id)
        } else {
            counted_transition(move_task(r1, p, "CHATTING"@, "QA failed: "@ + decimal(failed.len()) + " test(s)"@, now))
        };
        (r2, true, "QA for "@ + id + ": passed="@ + bool_text(passed) + ", failed_tests="@ + debug_list(failed))
    } else {
        (r1, false, not_found_text(id))
    }
}

/// A task's pull request merging.
pub open spec fn merge_outcome(r: RunnerView, id: Seq<char>, now: i64) -> (RunnerView, bool, Seq<char>) {
    let p = task_pos(r.tasks, id, 0);
    if p >= 0 {
        let r1 = move_task(r, p, "MERGED"@, "PR merged"@, now);
        let m = ScenarioMetrics {
            tasks_merged: (r.metrics.tasks_merged + 1) as u64,
            state_transitions: (r.metrics.state_transitions + 1) as u64,
            ..r.metrics
        };
        (RunnerView { metrics: m, ..r1 }, true, "Merged task "@ + id)
    } else {
        (r, false, not_found_text(id))
    }
}

/// Injecting a fault; it is refused when the limit is reached.
pub open spec fn inject_outcome(r: RunnerView, fault: ChaosFault) -> (RunnerView, bool, Seq<char>) {
    let label = fault_label(fault);
    let ok = r.faults.len() < r.max_faults;
    let r1 = RunnerView {
        faults: if ok { r.faults.push(fault) } else { r.faults },
        metrics: ScenarioMetrics { chaos_injections: (r.metrics.chaos_injections + 1) as u64, ..r.metrics },
        ..r
    };
    (
        logged(r1, "Chaos injected: "@ + label),
        ok,
        if ok { "Injected chaos: "@ + label } else { "Failed to inject chaos: "@ + label + " (max concurrent reached)"@ },
    )
}

/// Clearing every fault.
pub open spec fn clear_outcome(r: RunnerView) -> (RunnerView, bool, Seq<char>) {
    let n = decimal(r.faults.len());
    (logged(RunnerView { faults: Seq::empty(), ..r }, "Cleared "@ + n + " chaos faults"@), true, "Cleared "@ + n + " active faults"@)
}

impl ScenarioRunner {
    fn complete_agent(&mut self, task_id: &str, success: bool, model: &str, now: i64) -> (res: (bool, String))
        requires
            old(self).wf(),
            old(self).metrics.agent_spawns < u64::MAX,
            old(self).metrics.agent_completions < u64::MAX,
            old(self).metrics.state_transitions < u64::MAX,
        ensures
            final(self).wf(),
            (final(self)@, res.0, res.1@) == complete_outcome(old(self)@, task_id@, success, model@, now),
    {
        let ghost r = self@;
        self.metrics.agent_spawns = self.metrics.agent_spawns + 1;
        self.metrics.agent_completions = self.metrics.agent_completions + 1;
        let pos = self.find_task(task_id);
        proof {
            lemma_task_pos(r.tasks, task_id@, 0);
        }
        match self.chaos.fault_for_task(task_id) {
            Some(fi) => {
                let label = self.chaos.active_faults[fi].label();
                let mut line = String::from_str("Chaos: ");
                line.append(label);
                line.append(" for task ");
                line.append(task_id);
                self.log_line_push(line.as_str());
                if let Some(i) = pos {
                    let mut reason = String::from_str("chaos: ");
                    reason.append(label);
                    let tick = self.current_tick;
                    let ghost before = self@.tasks;
                    self.move_task_at(i, "CHATTING", tick, reason.as_str(), now);
                    proof {
                        lemma_update_keeps_ids(before, i as int, self@.tasks[i as int]);
                    }
                    self.metrics.state_transitions = self.metrics.state_transitions + 1;
                }
                let mut d = String::from_str("Agent for ");
                d.append(task_id);
                d.append(" intercepted by chaos: ");
                d.append(label);
                (true, d)
            },
            None => {
                match pos {
                    Some(i) => {
                        let mut reason = String::from_str("agent ");
                        reason.append(model);
                        let tick = self.current_tick;
                        let ghost before = self@.tasks;
                        if success {
                            reason.append(" completed");
                            self.move_task_at(i, "READY", tick, reason.as_str(), now);
                        } else {
                            reason.append(" failed, retrying");
                            self.move_task_at(i, "CHATTING", tick, reason.as_str(), now);
                        }
                        proof {
                            lemma_update_keeps_ids(before, i as int, self@.tasks[i as int]);
                        }
                        self.metrics.state_transitions = self.metrics.state_transitions + 1;
                        let mut d = String::from_str("Agent ");
                        d.append(model);
                        d.append(" for task ");
                        d.append(task_id);
                        d.append(": success=");
                        push_bool(&mut d, success);
                        (true, d)
                    },
                    None => (false, not_found(task_id)),
                }
            },
        }
    }

    fn simulate_verify(&mut self, task_id: &str, success: bool, now: i64) -> (res: (bool, String))
        requires
            old(self).wf(),
            old(self).metrics.verify_runs < u64::MAX,
            old(self).metrics.state_transitions < u64::MAX,
        ensures
            final(self).wf(),
            (final(self)@, res.0, res.1@) == verify_outcome(old(self)@, task_id@, success, now),
    {
        self.metrics.verify_runs = self.metrics.verify_runs + 1;
        proof {
            lemma_task_pos(self@.tasks, task_id@, 0);
        }
        match self.find_task(task_id) {
            Some(i) => {
                let tick = self.current_tick;
                let ghost before = self@.tasks;
                if success {
                    self.move_task_at(i, "SUBMITTING", tick, "verify passed", now);
                } else {
                    self.move_task_at(i, "CHATTING", tick, "verify failed", now);
                }
                proof {
                    lemma_update_keeps_ids(before, i as int, self@.tasks[i as int]);
                }
                self.metrics.state_transitions = self.metrics.state_transitions + 1;
                let mut d = String::from_str("Verify for ");
                d.append(task_id);
                d.append(": success=");
                push_bool(&mut d, success);
                (true, d)
            },
            None => (false, not_found(task_id)),
        }
    }

    fn simulate_qa(&mut self, task_id: &str, passed: bool, failed_tests: &Vec<String>, now: i64) -> (res: (bool, String))
        requires
            old(self).wf(),
            old(self).metrics.qa_runs < u64::MAX,
            old(self).metrics.state_transitions < u64::MAX,
        ensures
            final(self).wf(),
            (final(self)@, res.0, res.1@) == qa_outcome(old(self)@, task_id@, passed, failed_tests.deep_view(), now),
    {
        self.metrics.qa_runs = self.metrics.qa_runs + 1;
        proof {
            lemma_task_pos(self@.tasks, task_id@, 0);
        }
        match self.find_task(task_id) {
            Some(i) => {
                if passed {
                    let mut line = String::from_str("QA passed for ");
                    line.append(task_id);
                    self.log_line_push(line.as_str());
                } else {
                    let mut reason = String::from_str("QA failed: ");
                    push_decimal(&mut reason, failed_tests.len() as u64);
                    reason.append(" test(s)");
                    let tick = self.current_tick;
                    let ghost before = self@.tasks;
                    self.move_task_at(i, "CHATTING", tick, reason.as_str(), now);
                    proof {
                        lemma_update_keeps_ids(before, i as int, self@.tasks[i as int]);
                    }
                    self.metrics.state_transitions = self.metrics.state_transitions + 1;
                }
                let mut d = String::from_str("QA for ");
                d.append(task_id);
                d.append(": passed=");
                push_bool(&mut d, passed);
                d.append(", failed_tests=");
                let listed = debug_strings(failed_tests);
                d.append(listed.as_str());
                (true, d)
            },
            None => (false, not_found(task_id)),
        }
    }

    fn simulate_merge(&mut self, task_id: &str, now: i64) -> (res: (bool, String))
        requires
            old(self).wf(),
            old(self).metrics.tasks_merged < u64::MAX,
            old(self).metrics.state_transitions < u64::MAX,
        ensures
            final(self).wf(),
            (final(self)@, res.0, res.1@) == merge_outcome(old(self)@, task_id@, now),
    {
        proof {
            lemma_task_pos(self@.tasks, task_id@, 0);
        }
        match self.find_task(task_id) {
            Some(i) => {
                let tick = self.current_tick;
                let ghost before = self@.tasks;
                self.move_task_at(i, "MERGED", tick, "PR merged", now);
                proof {
                    lemma_update_keeps_ids(before, i as int, self@.tasks[i as int]);
                }
                self.metrics.tasks_merged = self.metrics.tasks_merged + 1;
                self.metrics.state_transitions = self.metrics.state_transitions + 1;
                let mut d = String::from_str("Merged task ");
                d.append(task_id);
                (true, d)
            },
            None => (false, not_found(task_id)),
        }
    }

    fn inject_chaos(&mut self, fault: &ChaosFault) -> (res: (bool, String))
        requires
            old(self).metrics.chaos_injections < u64::MAX,
        ensures
            final(self)@.tasks == old(self)@.tasks,
            (final(self)@, res.0, res.1@) == inject_outcome(old(self)@, *fault),
    {
        let label = fault.label();
        let injected = self.chaos.inject(copy_fault(fault));
        self.metrics.chaos_injections = self.metrics.chaos_injections + 1;
        let mut line = String::from_str("Chaos injected: ");
        line.append(label);
        self.log_line_push(line.as_str());
        let mut d = if injected {
            String::from_str("Injected chaos: ")
        } else {
            String::from_str("Failed to inject chaos: ")
        };
        d.append(label);
        if !injected {
            d.append(" (max concurrent reached)");
        }
        (injected, d)
    }

    fn clear_chaos(&mut self) -> (res: (bool, String))
        ensures
            final(self)@.tasks == old(self)@.tasks,
            (final(self)@, res.0, res.1@) == clear_outcome(old(self)@),
    {
        let n = self.chaos.active_faults.len();
        self.chaos.clear();
        assert(self@.faults =~= Seq::<ChaosFault>::empty());
        let mut line = String::from_str("Cleared ");
        push_decimal(&mut line, n as u64);
        line.append(" chaos faults");
        self.log_line_push(line.as_str());
        let mut d = String::from_str("Cleared ");
        push_decimal(&mut d, n as u64);
        d.append(" active faults");
        (true, d)
    }
}


/// A task after one more tick in its state.
pub open spec fn ticked(t: TaskView) -> TaskView {
    TaskView { ticks_in_state: (t.ticks_in_state + 1) as u64, ..t }
}

/// Every task after one more tick.
pub open spec fn all_ticked(ts: Seq<TaskView>) -> Seq<TaskView> {
    ts.map_values(|t: TaskView| ticked(t))
}

/// Every task after the automatic progression of one tick.
pub open spec fn all_progressed(ts: Seq<TaskView>, faults: Seq<ChaosFault>, tick: u64, now: i64) -> Seq<TaskView> {
    ts.map_values(|t: TaskView| progressed(t, faults, tick, now))
}

/// The runner after the automatic progression of tick `tick` at time `now`:
/// each task moves on by itself, and the moves and merges are counted.
pub open spec fn progression(r: RunnerView, tick: u64, now: i64) -> RunnerView {
    let m = ScenarioMetrics {
        state_transitions: (r.metrics.state_transitions + count_tasks(r.tasks, r.faults, false)) as u64,
        tasks_merged: (r.metrics.tasks_merged + count_tasks(r.tasks, r.faults, true)) as u64,
        ..r.metrics
    };
    RunnerView { tasks: all_progressed(r.tasks, r.faults, tick, now), metrics: m, ..r }
}

/// The time of tick `tick` of a wait that started at `start`, in
/// nanoseconds: one second per tick.
pub open spec fn tick_time(start: i64, tick: u64) -> i64 {
    (start + tick * 1_000_000_000) as i64
}

/// The runner after one tick of a wait that started at `start`.
pub open spec fn tick_once(r: RunnerView, start: i64) -> RunnerView {
    let t = (r.tick + 1) as u64;
    let r1 = RunnerView {
        tick: t,
        metrics: ScenarioMetrics { total_ticks: (r.metrics.total_ticks + 1) as u64, ..r.metrics },
        tasks: all_ticked(r.tasks),
        ..r
    };
    progression(r1, t, tick_time(start, t))
}

/// The runner after `n` ticks of a wait that started at `start`.
pub open spec fn waited(r: RunnerView, n: nat, start: i64) -> RunnerView
    decreases n,
{
    if n == 0 {
        r
    } else {
        tick_once(waited(r, (n - 1) as nat, start), start)
    }
}

/// Letting `n` ticks pass.
pub open spec fn wait_outcome(r: RunnerView, n: u64, start: i64) -> (RunnerView, bool, Seq<char>) {
    let w = waited(r, n as nat, start);
    (w, true, "Waited "@ + decimal(n as nat) + " ticks (now at tick "@ + decimal(w.tick as nat) + ")"@)
}

/// Room in every counter for `n` more ticks.
pub open spec fn wait_room(r: RunnerView, n: nat, start: i64) -> bool {
    &&& r.tick + n <= u64::MAX
    &&& r.metrics.total_ticks + n <= u64::MAX
    &&& r.metrics.state_transitions + n * r.tasks.len() <= u64::MAX
    &&& r.metrics.tasks_merged + n * r.tasks.len() <= u64::MAX
    &&& forall|i: int| 0 <= i < r.tasks.len() ==> #[trigger] r.tasks[i].ticks_in_state + n <= u64::MAX
    &&& start + (r.tick + n) * 1_000_000_000 <= i64::MAX
}

proof fn lemma_count_take(ts: Seq<TaskView>, faults: Seq<ChaosFault>, merged: bool, i: int)
    requires
        0 <= i < ts.len(),
    ensures
        count_tasks(ts.take(i + 1), faults, merged) == count_tasks(ts.take(i), faults, merged)
            + if (if merged { merges_on(ts[i], faults) } else { moves_on(ts[i], faults) }) { 1nat } else { 0nat },
{
    assert(ts.take(i + 1).drop_last() =~= ts.take(i));
}

proof fn lemma_wait_room_step(r: RunnerView, n: nat, start: i64)
    requires
        wait_room(r, n + 1, start),
        ids_unique(r.tasks),
    ensures
        wait_room(tick_once(r, start), n, start),
        ids_unique(tick_once(r, start).tasks),
        tick_once(r, start).tasks.len() == r.tasks.len(),
{
    let t = (r.tick + 1) as u64;
    let ts = all_ticked(r.tasks);
    let r2 = tick_once(r, start);
    lemma_count_tasks_bound(ts, r.faults, false);
    lemma_count_tasks_bound(ts, r.faults, true);
    let len = r.tasks.len();
    assert((n + 1) * len == n * len + len) by (nonlinear_arith);
    assert forall|i: int| 0 <= i < r2.tasks.len() implies #[trigger] r2.tasks[i].ticks_in_state + n <= u64::MAX by {
        assert(r.tasks[i].ticks_in_state + (n + 1) <= u64::MAX);
    }
    assert forall|a: int, b: int| 0 <= a < r2.tasks.len() && 0 <= b < r2.tasks.len() && a != b implies r2.tasks[a].task_id != r2.tasks[b].task_id by {
        assert(r2.tasks[a].task_id == r.tasks[a].task_id);
        assert(r2.tasks[b].task_id == r.tasks[b].task_id);
    }
}

fn auto_next_exec(state: &str, ticks: u64) -> (res: Option<&'static str>)
    ensures
        match res {
            Some(s) => auto_next(state@, ticks) == Some(s@),
            None => auto_next(state@, ticks) is None,
        },
{
    proof {
        reveal_strlit("CHATTING");
        reveal_strlit("READY");
        reveal_strlit("SUBMITTING");
        reveal_strlit("AWAITING_MERGE");
    }
    if str_eq(state, "CHATTING") && ticks >= 5 {
        Some("READY")
    } else if str_eq(state, "READY") && ticks >= 2 {
        Some("SUBMITTING")
    } else if str_eq(state, "SUBMITTING") && ticks >= 3 {
        Some("AWAITING_MERGE")
    } else if str_eq(state, "AWAITING_MERGE") && ticks >= 4 {
        Some("MERGED")
    } else {
        None
    }
}

impl ScenarioRunner {
    /// The automatic progression of tick `tick` at time `now`.
    pub fn simulate_tick_progression(&mut self, tick: u64, now: i64)
        requires
            old(self).wf(),
            old(self).metrics.state_transitions + old(self)@.tasks.len() <= u64::MAX,
            old(self).metrics.tasks_merged + old(self)@.tasks.len() <= u64::MAX,
        ensures
            final(self).wf(),
            final(self)@ == progression(old(self)@, tick, now),
    {
        let ghost r = self@;
        let n = self.tasks.len();
        let mut i: usize = 0;
        proof {
            lemma_count_tasks_bound(r.tasks, r.faults, false);
            lemma_count_tasks_bound(r.tasks, r.faults, true);
            assert(r.tasks.take(0) =~= Seq::<TaskView>::empty());
        }
        while i < n
            invariant
                n == r.tasks.len(),
                self@.tasks.len() == n,
                i <= n,
                self@.faults == r.faults,
                self@.max_faults == r.max_faults,
                self@.tick == r.tick,
                self@.log == r.log,
                ids_unique(r.tasks),
                r.metrics.state_transitions + n <= u64::MAX,
                r.metrics.tasks_merged + n <= u64::MAX,
                forall|j: int| 0 <= j < i ==> self@.tasks[j] == #[trigger] progressed(r.tasks[j], r.faults, tick, now),
                forall|j: int| i <= j < n ==> self@.tasks[j] == r.tasks[j],
                self.metrics == (ScenarioMetrics {
                    state_transitions: (r.metrics.state_transitions + count_tasks(r.tasks.take(i as int), r.faults, false)) as u64,
                    tasks_merged: (r.metrics.tasks_merged + count_tasks(r.tasks.take(i as int), r.faults, true)) as u64,
                    ..r.metrics
                }),
            decreases n - i,
        {
            proof {
                lemma_count_take(r.tasks, r.faults, false, i as int);
                lemma_count_take(r.tasks, r.faults, true, i as int);
                lemma_count_tasks_bound(r.tasks.take(i + 1), r.faults, false);
                lemma_count_tasks_bound(r.tasks.take(i + 1), r.faults, true);
            }
            let blocked = self.chaos.fault_for_task(self.tasks[i].task_id.as_str()).is_some();
            if !blocked {
                let ticks = self.tasks[i].ticks_in_state;
                let next = auto_next_exec(self.tasks[i].state.as_str(), ticks);
                if let Some(ns) = next {
                    let mut reason = String::from_str("auto-progress after ");
                    push_decimal(&mut reason, ticks);
                    reason.append(" ticks");
                    self.move_task_at(i, ns, tick, reason.as_str(), now);
                    self.metrics.state_transitions = self.metrics.state_transitions + 1;
                    if str_eq(ns, "MERGED") {
                        self.metrics.tasks_merged = self.metrics.tasks_merged + 1;
                    }
                }
            }
            i = i + 1;
        }
        proof {
            assert(r.tasks.take(n as int) =~= r.tasks);
            assert(self@.tasks =~= all_progressed(r.tasks, r.faults, tick, now));
            assert forall|a: int, b: int| 0 <= a < n && 0 <= b < n && a != b implies self@.tasks[a].task_id != self@.tasks[b].task_id by {
                assert(self@.tasks[a].task_id == r.tasks[a].task_id);
                assert(self@.tasks[b].task_id == r.tasks[b].task_id);
            }
        }
    }

    fn tick_all(&mut self)
        requires
            forall|i: int| 0 <= i < old(self)@.tasks.len() ==> #[trigger] old(self)@.tasks[i].ticks_in_state < u64::MAX,
        ensures
            final(self)@ == (RunnerView { tasks: all_ticked(old(self)@.tasks), ..old(self)@ }),
    {
        let ghost r = self@;
        let n = self.tasks.len();
        let mut i: usize = 0;
        while i < n
            invariant
                n == r.tasks.len(),
                self@.tasks.len() == n,
                i <= n,
                self@ == (RunnerView { tasks: self@.tasks, ..r }),
                forall|j: int| 0 <= j < r.tasks.len() ==> #[trigger] r.tasks[j].ticks_in_state < u64::MAX,
                forall|j: int| 0 <= j < i ==> self@.tasks[j] == #[trigger] ticked(r.tasks[j]),
                forall|j: int| i <= j < n ==> self@.tasks[j] == r.tasks[j],
            decreases n - i,
        {
            let mut t = copy_task(&self.tasks[i]);
            assert(self@.tasks[i as int] == self.tasks@[i as int]@);
            assert(t.ticks_in_state == r.tasks[i as int].ticks_in_state);
            t.tick();
            let ghost before = self.tasks@;
            self.tasks.set(i, t);
            assert(task_views(self.tasks@) =~= task_views(before).update(i as int, t@));
            i = i + 1;
        }
        assert(self@.tasks =~= all_ticked(r.tasks));
    }

    fn wait_ticks(&mut self, count: u64, start: i64) -> (res: (bool, String))
        requires
            old(self).wf(),
            wait_room(old(self)@, count as nat, start),
        ensures
            final(self).wf(),
            (final(self)@, res.0, res.1@) == wait_outcome(old(self)@, count, start),
    {
        let ghost r = self@;
        let mut k: u64 = 0;
        while k < count
            invariant
                k <= count,
                self.wf(),
                self@ == waited(r, k as nat, start),
                wait_room(self@, (count - k) as nat, start),
            decreases count - k,
        {
            proof {
                lemma_wait_room_step(self@, (count - k - 1) as nat, start);
                let len = self@.tasks.len();
                let m: nat = (count - k - 1) as nat;
                assert((m + 1) * len >= len) by (nonlinear_arith);
                assert forall|i: int| 0 <= i < self@.tasks.len() implies #[trigger] self@.tasks[i].ticks_in_state < u64::MAX by {
                    assert(self@.tasks[i].ticks_in_state + (m + 1) <= u64::MAX);
                }
            }
            let ghost before = self@;
            self.current_tick = self.current_tick + 1;
            self.metrics.total_ticks = self.metrics.total_ticks + 1;
            self.tick_all();
            let t = self.current_tick;
            let wide: i128 = start as i128 + (t as i128) * 1_000_000_000i128;
            let time = wide as i64;
            proof {
                assert forall|a: int, b: int| 0 <= a < self@.tasks.len() && 0 <= b < self@.tasks.len() && a != b implies self@.tasks[a].task_id != self@.tasks[b].task_id by {
                    assert(self@.tasks[a].task_id == before.tasks[a].task_id);
                    assert(self@.tasks[b].task_id == before.tasks[b].task_id);
                }
            }
            self.simulate_tick_progression(t, time);
            k = k + 1;
        }
        let mut d = String::from_str("Waited ");
        push_decimal(&mut d, count);
        d.append(" ticks (now at tick ");
        push_decimal(&mut d, self.current_tick);
        d.append(")");
        (true, d)
    }
}


/// Whether a task sat in a non-final state for at least `max` ticks.
pub open spec fn is_stuck(t: TaskView, max: u64) -> bool {
    !is_terminal_state(t.state) && t.ticks_in_state >= max
}

/// The stuck tasks, in order.
pub open spec fn stuck_of(ts: Seq<TaskView>, max: u64) -> Seq<TaskView>
    decreases ts.len(),
{
    if ts.len() == 0 {
        seq![]
    } else {
        let rest = stuck_of(ts.drop_last(), max);
        if is_stuck(ts.last(), max) { rest.push(ts.last()) } else { rest }
    }
}

/// How a stuck task is described: id, state and ticks.
pub open spec fn stuck_entry(t: TaskView) -> Seq<char> {
    t.task_id + "("@ + t.state + ", "@ + decimal(t.ticks_in_state as nat) + " ticks)"@
}

/// The descriptions of the stuck tasks.
pub open spec fn stuck_entries(ts: Seq<TaskView>, max: u64) -> Seq<Seq<char>> {
    stuck_of(ts, max).map_values(|t: TaskView| stuck_entry(t))
}

/// Checking that no task is stuck.
pub open spec fn stuck_outcome(r: RunnerView, max: u64) -> (RunnerView, bool, Seq<char>) {
    let st = stuck_of(r.tasks, max);
    if st.len() == 0 {
        (r, true, "No tasks stuck for >= "@ + decimal(max as nat) + " ticks"@)
    } else {
        (r, false, decimal(st.len()) + " task(s) stuck: "@ + join(stuck_entries(r.tasks, max), ", "@))
    }
}

impl ScenarioRunner {
    fn assert_no_stuck(&self, max: u64) -> (res: (bool, String))
        ensures
            (self@, res.0, res.1@) == stuck_outcome(self@, max),
    {
        let ghost ts = self@.tasks;
        let mut entries: Vec<String> = Vec::new();
        let mut i: usize = 0;
        assert(ts.take(0) =~= Seq::<TaskView>::empty());
        while i < self.tasks.len()
            invariant
                ts == self@.tasks,
                i <= ts.len(),
                entries.deep_view() =~= stuck_entries(ts.take(i as int), max),
            decreases ts.len() - i,
        {
            let t = &self.tasks[i];
            assert(ts[i as int] == t@);
            assert(ts.take(i + 1).drop_last() =~= ts.take(i as int));
            let ghost before = entries.deep_view();
            if !t.is_terminal() && t.ticks_in_state >= max {
                let mut e = t.task_id.clone();
                e.append("(");
                e.append(t.state.as_str());
                e.append(", ");
                push_decimal(&mut e, t.ticks_in_state);
                e.append(" ticks)");
                entries.push(e);
                assert(entries.deep_view() =~= before.push(stuck_entry(t@)));
            }
            i = i + 1;
        }
        assert(ts.take(ts.len() as int) =~= ts);
        if entries.len() == 0 {
            let mut d = String::from_str("No tasks stuck for >= ");
            push_decimal(&mut d, max);
            d.append(" ticks");
            (true, d)
        } else {
            let mut d = String::new();
            push_decimal(&mut d, entries.len() as u64);
            d.append(" task(s) stuck: ");
            let joined = join_strings(&entries, ", ");
            d.append(joined.as_str());
            (false, d)
        }
    }
}


/// The action name a step reports.
pub open spec fn step_action(step: ScenarioStep) -> Seq<char> {
    match step {
        ScenarioStep::CreateTask { .. } => "create_task"@,
        ScenarioStep::ExpectState { .. } => "expect_state"@,
        ScenarioStep::CompleteAgent { .. } => "complete_agent"@,
        ScenarioStep::SimulateVerify { .. } => "simulate_verify"@,
        ScenarioStep::SimulateQA { .. } => "simulate_qa"@,
        ScenarioStep::InjectChaos { .. } => "inject_chaos"@,
        ScenarioStep::ClearChaos => "clear_chaos"@,
        ScenarioStep::WaitTicks { .. } => "wait_ticks"@,
        ScenarioStep::AssertNoStuckTasks { .. } => "assert_no_stuck_tasks"@,
        ScenarioStep::SimulateMerge { .. } => "simulate_merge"@,
        ScenarioStep::AssertTaskCount { .. } => "assert_task_count"@,
        ScenarioStep::Log { .. } => "log"@,
    }
}

/// What a step does to the runner, whether it passes, and its detail.
pub open spec fn step_outcome(r: RunnerView, step: ScenarioStep, now: i64) -> (RunnerView, bool, Seq<char>) {
    match step {
        ScenarioStep::CreateTask { task_id, description } => create_outcome(r, task_id@, description@, now),
        ScenarioStep::ExpectState { task_id, expected_state, .. } => expect_outcome(r, task_id@, expected_state@),
        ScenarioStep::CompleteAgent { task_id, success, model } => complete_outcome(r, task_id@, success, model@, now),
        ScenarioStep::SimulateVerify { task_id, success } => verify_outcome(r, task_id@, success, now),
        ScenarioStep::SimulateQA { task_id, passed, failed_tests } => qa_outcome(r, task_id@, passed, failed_tests.deep_view(), now),
        ScenarioStep::InjectChaos { fault } => inject_outcome(r, fault),
        ScenarioStep::ClearChaos => clear_outcome(r),
        ScenarioStep::WaitTicks { count } => wait_outcome(r, count, now),
        ScenarioStep::AssertNoStuckTasks { max_unchanged_ticks } => stuck_outcome(r, max_unchanged_ticks),
        ScenarioStep::SimulateMerge { task_id } => merge_outcome(r, task_id@, now),
        ScenarioStep::AssertTaskCount { expected } => count_outcome(r, expected),
        ScenarioStep::Log { message } => log_outcome(r, message@),
    }
}

/// Room in the counters that a step increments.
pub open spec fn step_room(r: RunnerView, step: ScenarioStep, now: i64) -> bool {
    let m = r.metrics;
    match step {
        ScenarioStep::CreateTask { .. } => m.tasks_created < u64::MAX,
        ScenarioStep::CompleteAgent { .. } => m.agent_spawns < u64::MAX && m.agent_completions < u64::MAX && m.state_transitions < u64::MAX,
        ScenarioStep::SimulateVerify { .. } => m.verify_runs < u64::MAX && m.state_transitions < u64::MAX,
        ScenarioStep::SimulateQA { .. } => m.qa_runs < u64::MAX && m.state_transitions < u64::MAX,
        ScenarioStep::InjectChaos { .. } => m.chaos_injections < u64::MAX,
        ScenarioStep::WaitTicks { count } => wait_room(r, count as nat, now),
        ScenarioStep::SimulateMerge { .. } => m.tasks_merged < u64::MAX && m.state_transitions < u64::MAX,
        _ => true,
    }
}

impl ScenarioRunner {
    /// Runs step `index` of a scenario at time `now` (a wait's ticks count
    /// one second each from `now`).
    pub fn execute_step(&mut self, index: usize, step: &ScenarioStep, now: i64) -> (res: StepResult)
        requires
            old(self).wf(),
            step_room(old(self)@, *step, now),
        ensures
            final(self).wf(),
            res.step_index == index,
            res.action@ == step_action(*step),
            (final(self)@, res.passed, res.detail@) == step_outcome(old(self)@, *step, now),
    {
        let (action, out): (&str, (bool, String)) = match step {
            ScenarioStep::CreateTask { task_id, description } => ("create_task", self.create_task(task_id.as_str(), description.as_str(), now)),
            ScenarioStep::ExpectState { task_id, expected_state, .. } => ("expect_state", self.expect_state(task_id.as_str(), expected_state.as_str())),
            ScenarioStep::CompleteAgent { task_id, success, model } => ("complete_agent", self.complete_agent(task_id.as_str(), *success, model.as_str(), now)),
            ScenarioStep::SimulateVerify { task_id, success } => ("simulate_verify", self.simulate_verify(task_id.as_str(), *success, now)),
            ScenarioStep::SimulateQA { task_id, passed, failed_tests } => ("simulate_qa", self.simulate_qa(task_id.as_str(), *passed, failed_tests, now)),
            ScenarioStep::InjectChaos { fault } => ("inject_chaos", self.inject_chaos(fault)),
            ScenarioStep::ClearChaos => ("clear_chaos", self.clear_chaos()),
            ScenarioStep::WaitTicks { count } => ("wait_ticks", self.wait_ticks(*count, now)),
            ScenarioStep::AssertNoStuckTasks { max_unchanged_ticks } => ("assert_no_stuck_tasks", self.assert_no_stuck(*max_unchanged_ticks)),
            ScenarioStep::SimulateMerge { task_id } => ("simulate_merge", self.simulate_merge(task_id.as_str(), now)),
            ScenarioStep::AssertTaskCount { expected } => ("assert_task_count", self.assert_task_count(*expected)),
            ScenarioStep::Log { message } => ("log", self.log_message(message.as_str())),
        };
        let (passed, detail) = out;
        step_result(index, action, passed, detail)
    }
}


/// What a soak run has gathered so far: the stuck tasks in order of
/// detection, the progress reports, and the number of chaos events.
#[derive(Debug)]
pub struct SoakTally {
    pub stuck_tasks: Vec<StuckTaskInfo>,
    pub progress_reports: Vec<SoakProgressReport>,
    pub chaos_events: u64,
}

/// A stuck task as plain values: id, state, ticks in state, tick of detection.
pub type StuckView = (Seq<char>, Seq<char>, u64, u64);

/// The view of a stuck task.
pub open spec fn stuck_view(s: StuckTaskInfo) -> StuckView {
    (s.task_id@, s.state@, s.ticks_in_state, s.detected_at_tick)
}

/// The views of a list of stuck tasks.
pub open spec fn stuck_views(ss: Seq<StuckTaskInfo>) -> Seq<StuckView> {
    ss.map_values(|s: StuckTaskInfo| stuck_view(s))
}

/// Whether a task id is among the stuck tasks.
pub open spec fn stuck_known(ss: Seq<StuckView>, id: Seq<char>) -> bool {
    exists|i: int| 0 <= i < ss.len() && (#[trigger] ss[i]).0 == id
}

/// The stuck list after a detection pass over `ts` at `tick`: each stuck
/// task not yet listed is appended, in order.
pub open spec fn detect_stuck(ts: Seq<TaskView>, thr: u64, known: Seq<StuckView>, tick: u64) -> Seq<StuckView>
    decreases ts.len(),
{
    if ts.len() == 0 {
        known
    } else {
        let acc = detect_stuck(ts.drop_last(), thr, known, tick);
        let t = ts.last();
        if is_stuck(t, thr) && !stuck_known(acc, t.task_id) {
            acc.push((t.task_id, t.state, t.ticks_in_state, tick))
        } else {
            acc
        }
    }
}

/// How many tasks are in a final state.
pub open spec fn terminal_count(ts: Seq<TaskView>) -> nat
    decreases ts.len(),
{
    if ts.len() == 0 {
        0
    } else {
        terminal_count(ts.drop_last()) + if is_terminal_state(ts.last().state) { 1nat } else { 0nat }
    }
}

/// A soak tally as plain values.
pub struct TallyView {
    pub stuck: Seq<StuckView>,
    pub reports: Seq<SoakProgressReport>,
    pub chaos_events: u64,
}

impl View for SoakTally {
    type V = TallyView;

    open spec fn view(&self) -> TallyView {
        TallyView { stuck: stuck_views(self.stuck_tasks@), reports: self.progress_reports@, chaos_events: self.chaos_events }
    }
}

/// Whether a soak tick injects chaos.
pub open spec fn chaos_tick(enable_chaos: bool, tick: u64) -> bool {
    enable_chaos && tick % 20 == 7
}

/// Whether a soak tick reports progress.
pub open spec fn report_tick(interval: u64, tick: u64) -> bool {
    interval > 0 && tick % interval == 0
}

/// The runner after the first part of soak tick `tick`: the tick is set,
/// every task ticks, and the tick count is updated.
pub open spec fn soak_ticked(r: RunnerView, tick: u64) -> RunnerView {
    RunnerView {
        tick: tick,
        tasks: all_ticked(r.tasks),
        metrics: ScenarioMetrics { total_ticks: (tick + 1) as u64, ..r.metrics },
        ..r
    }
}

/// The runner and the tally after soak tick `tick` of a run that started at
/// `start`.
pub open spec fn soak_step(r: RunnerView, a: TallyView, tick: u64, start: i64, thr: u64, enable_chaos: bool, interval: u64) -> (RunnerView, TallyView) {
    let r1 = soak_ticked(r, tick);
    let stuck = detect_stuck(r1.tasks, thr, a.stuck, tick);
    let found = (stuck.len() - a.stuck.len()) as nat;
    let r2 = RunnerView {
        metrics: ScenarioMetrics { stuck_detections: (r1.metrics.stuck_detections + found) as u64, ..r1.metrics },
        ..r1
    };
    let r3 = progression(r2, tick, tick_time(start, tick));
    let chaos = chaos_tick(enable_chaos, tick);
    let r4 = if chaos {
        RunnerView { metrics: ScenarioMetrics { chaos_injections: (r3.metrics.chaos_injections + 1) as u64, ..r3.metrics }, ..r3 }
    } else {
        r3
    };
    let events = if chaos { (a.chaos_events + 1) as u64 } else { a.chaos_events };
    let terminal = terminal_count(r4.tasks);
    let report = SoakProgressReport {
        tick: tick,
        active_tasks: (r4.tasks.len() - terminal) as usize,
        terminal_tasks: terminal as usize,
        stuck_tasks: stuck_of(r4.tasks, thr).len() as usize,
        chaos_active: enable_chaos,
    };
    let reports = if report_tick(interval, tick) { a.reports.push(report) } else { a.reports };
    (r4, TallyView { stuck, reports, chaos_events: events })
}

/// Room in every counter for one soak tick.
pub open spec fn soak_room(r: RunnerView, a: TallyView, tick: u64, start: i64) -> bool {
    &&& tick < u64::MAX
    &&& r.metrics.stuck_detections + r.tasks.len() <= u64::MAX
    &&& r.metrics.state_transitions + r.tasks.len() <= u64::MAX
    &&& r.metrics.tasks_merged + r.tasks.len() <= u64::MAX
    &&& r.metrics.chaos_injections < u64::MAX
    &&& a.chaos_events < u64::MAX
    &&& forall|i: int| 0 <= i < r.tasks.len() ==> #[trigger] r.tasks[i].ticks_in_state < u64::MAX
    &&& start + tick * 1_000_000_000 <= i64::MAX
}

proof fn lemma_detect_len(ts: Seq<TaskView>, thr: u64, known: Seq<StuckView>, tick: u64)
    ensures
        known.len() <= detect_stuck(ts, thr, known, tick).len() <= known.len() + ts.len(),
        detect_stuck(ts, thr, known, tick).take(known.len() as int) == known,
    decreases ts.len(),
{
    if ts.len() > 0 {
        lemma_detect_len(ts.drop_last(), thr, known, tick);
        let acc = detect_stuck(ts.drop_last(), thr, known, tick);
        assert(acc.push((ts.last().task_id, ts.last().state, ts.last().ticks_in_state, tick)).take(known.len() as int) =~= acc.take(known.len() as int));
    }
}

proof fn lemma_terminal_bound(ts: Seq<TaskView>)
    ensures
        terminal_count(ts) <= ts.len(),
    decreases ts.len(),
{
    if ts.len() > 0 {
        lemma_terminal_bound(ts.drop_last());
    }
}

proof fn lemma_stuck_bound(ts: Seq<TaskView>, thr: u64)
    ensures
        stuck_of(ts, thr).len() <= ts.len(),
    decreases ts.len(),
{
    if ts.len() > 0 {
        lemma_stuck_bound(ts.drop_last(), thr);
    }
}

fn stuck_info_known(stuck: &Vec<StuckTaskInfo>, id: &str) -> (res: bool)
    ensures
        res == stuck_known(stuck_views(stuck@), id@),
{
    let mut i: usize = 0;
    while i < stuck.len()
        invariant
            i <= stuck@.len(),
            forall|j: int| 0 <= j < i ==> (#[trigger] stuck_views(stuck@)[j]).0 != id@,
        decreases stuck@.len() - i,
    {
        if str_eq(stuck[i].task_id.as_str(), id) {
            assert(stuck_views(stuck@)[i as int].0 == id@);
            return true;
        }
        i = i + 1;
    }
    false
}

/// Every task is a fresh task made from one of the given pairs.
pub open spec fn built_from(ts: Seq<TaskView>, init: Seq<(String, String)>, now: i64) -> bool {
    forall|i: int| 0 <= i < ts.len() ==> exists|j: int| 0 <= j < init.len()
        && #[trigger] ts[i] == new_task_view(init[j].0@, init[j].1@, now)
}

impl ScenarioRunner {
    /// Resets the runner and creates the initial tasks of a soak run at `now`.
    pub fn start_soak(&mut self, initial_tasks: &Vec<(String, String)>, now: i64)
        ensures
            final(self).wf(),
            final(self)@.metrics == (ScenarioMetrics { tasks_created: initial_tasks@.len() as u64, ..zero_metrics() }),
            final(self)@.tick == 0,
            final(self)@.faults.len() == 0,
            final(self)@.log.len() == 0,
            forall|i: int| 0 <= i < initial_tasks@.len() ==> task_pos(final(self)@.tasks, #[trigger] initial_tasks@[i].0@, 0) >= 0,
            built_from(final(self)@.tasks, initial_tasks@, now),
    {
        self.reset();
        let mut k: usize = 0;
        while k < initial_tasks.len()
            invariant
                k <= initial_tasks@.len(),
                self.wf(),
                self@.metrics == (ScenarioMetrics { tasks_created: k as u64, ..zero_metrics() }),
                self@.tick == 0,
                self@.faults.len() == 0,
                self@.log.len() == 0,
                forall|i: int| 0 <= i < k ==> task_pos(self@.tasks, #[trigger] initial_tasks@[i].0@, 0) >= 0,
                built_from(self@.tasks, initial_tasks@, now),
            decreases initial_tasks@.len() - k,
        {
            let id = initial_tasks[k].0.as_str();
            let desc = initial_tasks[k].1.as_str();
            let t = SimulatedTask::new(id, desc, now);
            let ghost r = self@;
            proof {
                lemma_task_pos(r.tasks, id@, 0);
            }
            match self.find_task(id) {
                Some(i) => {
                    let ghost before = self.tasks@;
                    self.tasks.set(i, t);
                    assert(task_views(self.tasks@) =~= task_views(before).update(i as int, t@));
                    proof {
                        lemma_update_keeps_ids(r.tasks, i as int, t@);
                        assert forall|q: int| 0 <= q < self@.tasks.len() implies exists|j: int| 0 <= j < initial_tasks@.len()
                            && #[trigger] self@.tasks[q] == new_task_view(initial_tasks@[j].0@, initial_tasks@[j].1@, now) by {
                            if q == i {
                                assert(self@.tasks[q] == new_task_view(initial_tasks@[k as int].0@, initial_tasks@[k as int].1@, now));
                            } else {
                                assert(self@.tasks[q] == r.tasks[q]);
                            }
                        }
                    }
                },
                None => {
                    let ghost before = self.tasks@;
                    self.tasks.push(t);
                    assert(task_views(self.tasks@) =~= task_views(before).push(t@));
                    proof {
                        assert forall|q: int| 0 <= q < self@.tasks.len() implies exists|j: int| 0 <= j < initial_tasks@.len()
                            && #[trigger] self@.tasks[q] == new_task_view(initial_tasks@[j].0@, initial_tasks@[j].1@, now) by {
                            if q == r.tasks.len() {
                                assert(self@.tasks[q] == new_task_view(initial_tasks@[k as int].0@, initial_tasks@[k as int].1@, now));
                            } else {
                                assert(self@.tasks[q] == r.tasks[q]);
                            }
                        }
                    }
                },
            }
            proof {
                assert forall|i: int| 0 <= i < k + 1 implies task_pos(self@.tasks, #[trigger] initial_tasks@[i].0@, 0) >= 0 by {
                    lemma_task_pos(r.tasks, initial_tasks@[i].0@, 0);
                    let p = task_pos(r.tasks, initial_tasks@[i].0@, 0);
                    if i == k {
                        let q = task_pos(r.tasks, id@, 0);
                        let qq = if q >= 0 { q } else { r.tasks.len() as int };
                        assert(self@.tasks[qq].task_id == id@);
                        lemma_task_pos_unique(self@.tasks, id@, qq);
                    } else {
                        assert(self@.tasks[p].task_id == initial_tasks@[i].0@);
                        lemma_task_pos_unique(self@.tasks, initial_tasks@[i].0@, p);
                    }
                }
            }
            self.metrics.tasks_created = self.metrics.tasks_created + 1;
            k = k + 1;
        }
    }
}


impl SoakTally {
    /// Nothing gathered yet.
    pub fn new() -> (res: Self)
        ensures
            res@.stuck.len() == 0,
            res@.reports.len() == 0,
            res@.chaos_events == 0,
    {
        SoakTally { stuck_tasks: Vec::new(), progress_reports: Vec::new(), chaos_events: 0 }
    }
}

impl ScenarioRunner {
    fn terminal_and_stuck(&self, thr: u64) -> (res: (usize, usize))
        ensures
            res.0 == terminal_count(self@.tasks),
            res.1 == stuck_of(self@.tasks, thr).len(),
    {
        let ghost ts = self@.tasks;
        let mut terminal: usize = 0;
        let mut stuck: usize = 0;
        let mut i: usize = 0;
        while i < self.tasks.len()
            invariant
                ts == self@.tasks,
                i <= ts.len(),
                terminal == terminal_count(ts.take(i as int)),
                stuck == stuck_of(ts.take(i as int), thr).len(),
            decreases ts.len() - i,
        {
            proof {
                assert(ts.take(i + 1).drop_last() =~= ts.take(i as int));
                lemma_terminal_bound(ts.take(i as int));
                lemma_stuck_bound(ts.take(i as int), thr);
            }
            let t = &self.tasks[i];
            assert(ts[i as int] == t@);
            if t.is_terminal() {
                terminal = terminal + 1;
            } else if t.ticks_in_state >= thr {
                stuck = stuck + 1;
            }
            i = i + 1;
        }
        assert(ts.take(ts.len() as int) =~= ts);
        (terminal, stuck)
    }

    fn detect_stuck_tasks(&self, tally: &mut SoakTally, thr: u64, tick: u64) -> (found: u64)
        requires
            old(tally)@.stuck.len() + self@.tasks.len() <= u64::MAX,
        ensures
            final(tally)@ == (TallyView { stuck: detect_stuck(self@.tasks, thr, old(tally)@.stuck, tick), ..old(tally)@ }),
            found == final(tally)@.stuck.len() - old(tally)@.stuck.len(),
    {
        let ghost ts = self@.tasks;
        let ghost known = tally@.stuck;
        let start_len = tally.stuck_tasks.len();
        let mut i: usize = 0;
        assert(ts.take(0) =~= Seq::<TaskView>::empty());
        while i < self.tasks.len()
            invariant
                ts == self@.tasks,
                i <= ts.len(),
                known == old(tally)@.stuck,
                start_len == known.len(),
                known.len() + ts.len() <= u64::MAX,
                tally@ == (TallyView { stuck: detect_stuck(ts.take(i as int), thr, known, tick), ..old(tally)@ }),
            decreases ts.len() - i,
        {
            proof {
                assert(ts.take(i + 1).drop_last() =~= ts.take(i as int));
            }
            let t = &self.tasks[i];
            assert(ts[i as int] == t@);
            if !t.is_terminal() && t.ticks_in_state >= thr && !stuck_info_known(&tally.stuck_tasks, t.task_id.as_str()) {
                let ghost before = tally.stuck_tasks@;
                tally.stuck_tasks.push(StuckTaskInfo {
                    task_id: t.task_id.clone(),
                    state: t.state.clone(),
                    ticks_in_state: t.ticks_in_state,
                    detected_at_tick: tick,
                });
                assert(stuck_views(tally.stuck_tasks@) =~= stuck_views(before).push((t@.task_id, t@.state, t@.ticks_in_state, tick)));
            }
            i = i + 1;
        }
        assert(ts.take(ts.len() as int) =~= ts);
        proof {
            lemma_detect_len(ts, thr, known, tick);
        }
        (tally.stuck_tasks.len() - start_len) as u64
    }

    /// One tick of a soak run that started at `start`: every task ticks,
    /// newly stuck tasks are recorded, tasks move on by themselves, chaos is
    /// counted on ticks 7, 27, 47, ... when enabled, and progress is
    /// reported every `interval` ticks.
    pub fn soak_tick(&mut self, tally: &mut SoakTally, tick: u64, start: i64, thr: u64, enable_chaos: bool, interval: u64)
        requires
            old(self).wf(),
            old(tally)@.stuck.len() + old(self)@.tasks.len() <= u64::MAX,
            soak_room(old(self)@, old(tally)@, tick, start),
        ensures
            final(self).wf(),
            (final(self)@, final(tally)@) == soak_step(old(self)@, old(tally)@, tick, start, thr, enable_chaos, interval),
    {
        let ghost r = self@;
        self.current_tick = tick;
        self.tick_all();
        self.metrics.total_ticks = tick + 1;
        let ghost r1 = self@;
        assert(r1 == soak_ticked(r, tick));
        proof {
            assert forall|a: int, b: int| 0 <= a < r1.tasks.len() && 0 <= b < r1.tasks.len() && a != b implies r1.tasks[a].task_id != r1.tasks[b].task_id by {
                assert(r1.tasks[a].task_id == r.tasks[a].task_id);
                assert(r1.tasks[b].task_id == r.tasks[b].task_id);
            }
        }
        let ghost a0 = tally@;
        let found = self.detect_stuck_tasks(tally, thr, tick);
        proof {
            lemma_detect_len(r1.tasks, thr, a0.stuck, tick);
        }
        self.metrics.stuck_detections = self.metrics.stuck_detections + found;
        let wide: i128 = start as i128 + (tick as i128) * 1_000_000_000i128;
        self.simulate_tick_progression(tick, wide as i64);
        if enable_chaos && tick % 20 == 7 {
            tally.chaos_events = tally.chaos_events + 1;
            self.metrics.chaos_injections = self.metrics.chaos_injections + 1;
        }
        if interval > 0 && tick % interval == 0 {
            let (terminal, stuck) = self.terminal_and_stuck(thr);
            proof {
                lemma_terminal_bound(self@.tasks);
            }
            tally.progress_reports.push(SoakProgressReport {
                tick,
                active_tasks: self.tasks.len() - terminal,
                terminal_tasks: terminal,
                stuck_tasks: stuck,
                chaos_active: enable_chaos,
            });
        }
    }
}

/// The runner and tally after the soak ticks `0..n`, one step per tick.
pub open spec fn soak_ticks(r: RunnerView, a: TallyView, n: nat, start: i64, thr: u64, enable_chaos: bool, interval: u64) -> (RunnerView, TallyView)
    decreases n,
{
    if n == 0 {
        (r, a)
    } else {
        let prev = soak_ticks(r, a, (n - 1) as nat, start, thr, enable_chaos, interval);
        soak_step(prev.0, prev.1, (n - 1) as u64, start, thr, enable_chaos, interval)
    }
}

/// Room for the soak tick `tick`: every counter, and the list of stuck
/// tasks, can still grow by one per task.
pub open spec fn soak_tick_room(r: RunnerView, a: TallyView, tick: u64, start: i64) -> bool {
    a.stuck.len() + r.tasks.len() <= u64::MAX && soak_room(r, a, tick, start)
}

/// The verdict of a soak run on its stuck tasks: none, or how many.
pub open spec fn soak_stuck_verdict(a: TallyView) -> Option<Seq<char>> {
    if a.stuck.len() == 0 {
        None
    } else {
        Some(stuck_error(a.stuck.len()))
    }
}

impl ScenarioRunner {
    /// Whether the counters have room for the soak tick `tick`.
    pub fn has_soak_room(&self, tally: &SoakTally, tick: u64, start: i64) -> (res: bool)
        ensures
            res == soak_tick_room(self@, tally@, tick, start),
    {
        let n: u128 = self.tasks.len() as u128;
        let max: u128 = 0xffff_ffff_ffff_ffffu128;
        if tick == u64::MAX || tally.stuck_tasks.len() as u128 + n > max {
            return false;
        }
        if self.metrics.stuck_detections as u128 + n > max || self.metrics.state_transitions as u128 + n > max
            || self.metrics.tasks_merged as u128 + n > max
        {
            return false;
        }
        if self.metrics.chaos_injections == u64::MAX || tally.chaos_events == u64::MAX {
            return false;
        }
        let mut i: usize = 0;
        while i < self.tasks.len()
            invariant
                i <= self.tasks.len(),
                forall|j: int| 0 <= j < i ==> #[trigger] self@.tasks[j].ticks_in_state < u64::MAX,
            decreases self.tasks.len() - i,
        {
            if self.tasks[i].ticks_in_state == u64::MAX {
                assert(self@.tasks[i as int].ticks_in_state == u64::MAX);
                return false;
            }
            i = i + 1;
        }
        let wide: i128 = start as i128 + (tick as i128) * 1_000_000_000i128;
        wide <= 0x7fff_ffff_ffff_ffffi128
    }

    /// Runs the soak ticks `0..total_ticks` from `start`; it stops early only
    /// where a counter has no room for the next tick, and returns how many
    /// ticks ran.
    pub fn run_soak_ticks(&mut self, tally: &mut SoakTally, total_ticks: u64, start: i64, thr: u64, enable_chaos: bool, interval: u64) -> (done: u64)
        requires
            old(self).wf(),
        ensures
            final(self).wf(),
            done <= total_ticks,
            (final(self)@, final(tally)@) == soak_ticks(old(self)@, old(tally)@, done as nat, start, thr, enable_chaos, interval),
            done < total_ticks ==> !soak_tick_room(final(self)@, final(tally)@, done, start),
    {
        let ghost r0 = self@;
        let ghost a0 = tally@;
        let mut tick: u64 = 0;
        while tick < total_ticks
            invariant
                self.wf(),
                tick <= total_ticks,
                (self@, tally@) == soak_ticks(r0, a0, tick as nat, start, thr, enable_chaos, interval),
            ensures
                self.wf(),
                tick <= total_ticks,
                (self@, tally@) == soak_ticks(r0, a0, tick as nat, start, thr, enable_chaos, interval),
                tick < total_ticks ==> !soak_tick_room(self@, tally@, tick, start),
            decreases total_ticks - tick,
        {
            if !self.has_soak_room(tally, tick, start) {
                break;
            }
            self.soak_tick(tally, tick, start, thr, enable_chaos, interval);
            tick = tick + 1;
        }
        tick
    }
}

/// The stuck-task verdict of a soak run: `None` when no task got stuck,
/// else the error that says how many did.
pub fn soak_stuck_error(tally: &SoakTally) -> (res: Option<String>)
    ensures
        match (res, soak_stuck_verdict(tally@)) {
            (None, None) => true,
            (Some(e), Some(v)) => e@ == v,
            _ => false,
        },
{
    if tally.stuck_tasks.len() == 0 {
        None
    } else {
        Some(stuck_error_text(tally.stuck_tasks.len()))
    }
}


/// The step results of a scenario run so far, whether all passed, and the
/// first failure (or the timeout).
#[derive(Debug)]
pub struct ScenarioProgress {
    pub step_results: Vec<StepResult>,
    pub passed: bool,
    pub error: Option<String>,
}

/// The error recorded for a failed step.
pub open spec fn step_error(r: StepResult) -> Seq<char> {
    "Step "@ + decimal(r.step_index as nat) + " ("@ + r.action@ + ") failed: "@ + r.detail@
}

/// The error recorded when a scenario runs out of time.
pub open spec fn timeout_error(elapsed: u64, limit: u64) -> Seq<char> {
    "Scenario timed out after "@ + decimal(elapsed as nat) + "s (limit: "@ + decimal(limit as nat) + "s)"@
}

/// The view of an optional text.
pub open spec fn opt_view(o: Option<String>) -> Option<Seq<char>> {
    match o {
        Some(s) => Some(s@),
        None => None,
    }
}

impl ScenarioProgress {
    /// No steps yet; passing.
    pub fn new() -> (res: Self)
        ensures
            res.step_results@.len() == 0,
            res.passed,
            res.error is None,
    {
        ScenarioProgress { step_results: Vec::new(), passed: true, error: None }
    }

    /// Records a step's result: a failure clears `passed`, and the first
    /// failure becomes the error.
    pub fn record(&mut self, result: StepResult)
        ensures
            final(self).step_results@ == old(self).step_results@.push(result),
            final(self).passed == (old(self).passed && result.passed),
            opt_view(final(self).error) == if !result.passed && old(self).error is None {
                Some(step_error(result))
            } else {
                opt_view(old(self).error)
            },
    {
        if !result.passed {
            self.passed = false;
            if self.error.is_none() {
                let mut e = String::from_str("Step ");
                push_decimal(&mut e, result.step_index as u64);
                e.append(" (");
                e.append(result.action.as_str());
                e.append(") failed: ");
                e.append(result.detail.as_str());
                self.error = Some(e);
            }
        }
        self.step_results.push(result);
    }

    /// Fails the run because `elapsed` seconds exceed the `limit`.
    pub fn time_out(&mut self, elapsed: u64, limit: u64)
        ensures
            final(self).step_results@ == old(self).step_results@,
            !final(self).passed,
            opt_view(final(self).error) == Some(timeout_error(elapsed, limit)),
    {
        self.passed = false;
        let mut e = String::from_str("Scenario timed out after ");
        push_decimal(&mut e, elapsed);
        e.append("s (limit: ");
        push_decimal(&mut e, limit);
        e.append("s)");
        self.error = Some(e);
    }
}

/// How many tasks are in the given state.
pub open spec fn state_count(ts: Seq<TaskView>, state: Seq<char>) -> nat
    decreases ts.len(),
{
    if ts.len() == 0 {
        0
    } else {
        state_count(ts.drop_last(), state) + if ts.last().state == state { 1nat } else { 0nat }
    }
}

/// The error of a soak run with stuck tasks.
pub open spec fn stuck_error(n: nat) -> Seq<char> {
    decimal(n) + " stuck task(s) detected"@
}

/// Says how many stuck tasks a soak run found.
pub fn stuck_error_text(n: usize) -> (res: String)
    ensures
        res@ == stuck_error(n as nat),
{
    let mut e = String::new();
    push_decimal(&mut e, n as u64);
    e.append(" stuck task(s) detected");
    e
}

impl ScenarioRunner {
    /// How many tasks are STOPPED.
    pub fn stopped_count(&self) -> (res: usize)
        ensures
            res == state_count(self@.tasks, "STOPPED"@),
    {
        let ghost ts = self@.tasks;
        let mut c: usize = 0;
        let mut i: usize = 0;
        while i < self.tasks.len()
            invariant
                ts == self@.tasks,
                i <= ts.len(),
                c == state_count(ts.take(i as int), "STOPPED"@),
                c <= i,
            decreases ts.len() - i,
        {
            assert(ts.take(i + 1).drop_last() =~= ts.take(i as int));
            assert(ts[i as int] == self.tasks@[i as int]@);
            if str_eq(self.tasks[i].state.as_str(), "STOPPED") {
                c = c + 1;
            }
            i = i + 1;
        }
        assert(ts.take(ts.len() as int) =~= ts);
        c
    }
}


/// A merged or stopped task never moves on by itself, whatever the faults.
pub proof fn lemma_terminal_tasks_stay(t: TaskView, faults: Seq<ChaosFault>, tick: u64, now: i64)
    requires
        is_terminal_state(t.state),
    ensures
        progressed(t, faults, tick, now) == t,
        !moves_on(t, faults),
{
    reveal_strlit("MERGED");
    reveal_strlit("STOPPED");
    reveal_strlit("CHATTING");
    reveal_strlit("READY");
    reveal_strlit("SUBMITTING");
    reveal_strlit("AWAITING_MERGE");
    assert("MERGED"@.len() == 6);
    assert("STOPPED"@.len() == 7);
    assert("CHATTING"@.len() == 8);
    assert("READY"@.len() == 5);
    assert("SUBMITTING"@.len() == 10);
    assert("AWAITING_MERGE"@.len() == 14);
}

/// A task that a fault targets never moves on by itself.
pub proof fn lemma_targeted_tasks_stay(t: TaskView, faults: Seq<ChaosFault>, tick: u64, now: i64)
    requires
        fault_index(faults, t.task_id, 0) >= 0,
    ensures
        progressed(t, faults, tick, now) == t,
        !moves_on(t, faults),
{
}


/// The task a step acts on, for the steps that act on an existing task.
pub open spec fn step_target(step: ScenarioStep) -> Option<Seq<char>> {
    match step {
        ScenarioStep::ExpectState { task_id, .. } => Some(task_id@),
        ScenarioStep::CompleteAgent { task_id, .. } => Some(task_id@),
        ScenarioStep::SimulateVerify { task_id, .. } => Some(task_id@),
        ScenarioStep::SimulateQA { task_id, .. } => Some(task_id@),
        ScenarioStep::SimulateMerge { task_id } => Some(task_id@),
        _ => None,
    }
}

/// A step on a task that the runner does not hold fails with "Task <id>
/// not found", and creates, moves or merges no task: the tasks, the count
/// of state transitions and the count of merges stay as they were. (An
/// agent completion that chaos intercepts for that id is no such step.)
pub proof fn lemma_missing_task_step(r: RunnerView, step: ScenarioStep, now: i64)
    requires
        step_target(step) is Some,
        task_pos(r.tasks, step_target(step)->0, 0) < 0,
        step is CompleteAgent ==> fault_index(r.faults, step_target(step)->0, 0) < 0,
    ensures
        !step_outcome(r, step, now).1,
        step_outcome(r, step, now).2 == not_found_text(step_target(step)->0),
        step_outcome(r, step, now).0.tasks == r.tasks,
        step_outcome(r, step, now).0.metrics.state_transitions == r.metrics.state_transitions,
        step_outcome(r, step, now).0.metrics.tasks_merged == r.metrics.tasks_merged,
{
}

} // verus!
