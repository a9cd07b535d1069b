//! Operator reporting by deltas: the changes between two snapshots of the
//! system, noise suppression, the report's summary and its text.

use vstd::prelude::*;
use crate::str_map::{keys_distinct, KeyMap, StrMap};
use crate::text::{decimal, push_decimal, str_eq};

verus! {

/// A model's availability.
#[derive(Debug, Clone, Copy, PartialEq, Eq, Structural)]
pub enum ModelHealthState {
    Healthy,
    Cooldown,
    Disabled,
}

impl View for ModelHealthState {
    type V = ModelHealthState;

    open spec fn view(&self) -> ModelHealthState {
        *self
    }
}

/// The state of the system at one tick.
#[derive(Debug)]
pub struct SystemSnapshot {
    /// When the snapshot was taken, in nanoseconds since the Unix epoch.
    pub at: i64,
    pub task_states: StrMap,
    pub model_health: KeyMap<ModelHealthState>,
    pub context_gen_status: String,
    pub qa_states: StrMap,
    pub active_pipelines: Vec<String>,
    pub generation_count: u64,
    pub merge_count: u64,
    pub stop_count: u64,
}

impl SystemSnapshot {
    /// An empty snapshot taken at `at`, with context generation idle.
    pub fn empty(at: i64) -> (res: Self)
        ensures
            res.at == at,
            res.task_states@ == Map::<Seq<char>, Seq<char>>::empty(),
            res.task_states.entries_spec().len() == 0,
            res.model_health@ == Map::<Seq<char>, ModelHealthState>::empty(),
            res.context_gen_status@ == "idle"@,
            res.qa_states@ == Map::<Seq<char>, Seq<char>>::empty(),
            res.active_pipelines@.len() == 0,
            res.generation_count == 0,
            res.merge_count == 0,
            res.stop_count == 0,
    {
        SystemSnapshot {
            at,
            task_states: StrMap::new(),
            model_health: KeyMap::new(),
            context_gen_status: String::from_str("idle"),
            qa_states: StrMap::new(),
            active_pipelines: Vec::new(),
            generation_count: 0,
            merge_count: 0,
            stop_count: 0,
        }
    }
}

/// One change between two snapshots.
#[derive(Debug, Clone, PartialEq, Eq)]
pub enum DeltaChange {
    TaskStateChanged { task_id: String, from: String, to: String },
    TaskAdded { task_id: String, state: String },
    TaskRemoved { task_id: String, last_state: String },
    ModelHealthChanged { model: String, from: ModelHealthState, to: ModelHealthState },
    ContextGenStatusChanged { from: String, to: String },
    QAStateChanged { task_id: String, from: String, to: String },
    NewMerges { count: u64 },
    NewStops { count: u64 },
    PipelineStarted { task_id: String },
    PipelineCompleted { task_id: String },
}

/// A change, with its strings as character sequences.
pub enum ChangeView {
    TaskStateChanged(Seq<char>, Seq<char>, Seq<char>),
    TaskAdded(Seq<char>, Seq<char>),
    TaskRemoved(Seq<char>, Seq<char>),
    ModelHealthChanged(Seq<char>, ModelHealthState, ModelHealthState),
    ContextGenStatusChanged(Seq<char>, Seq<char>),
    QAStateChanged(Seq<char>, Seq<char>, Seq<char>),
    NewMerges(u64),
    NewStops(u64),
    PipelineStarted(Seq<char>),
    PipelineCompleted(Seq<char>),
}

impl View for DeltaChange {
    type V = ChangeView;

    open spec fn view(&self) -> ChangeView {
        match self {
            DeltaChange::TaskStateChanged { task_id, from, to } => ChangeView::TaskStateChanged(task_id@, from@, to@),
            DeltaChange::TaskAdded { task_id, state } => ChangeView::TaskAdded(task_id@, state@),
            DeltaChange::TaskRemoved { task_id, last_state } => ChangeView::TaskRemoved(task_id@, last_state@),
            DeltaChange::ModelHealthChanged { model, from, to } => ChangeView::ModelHealthChanged(model@, *from, *to),
            DeltaChange::ContextGenStatusChanged { from, to } => ChangeView::ContextGenStatusChanged(from@, to@),
            DeltaChange::QAStateChanged { task_id, from, to } => ChangeView::QAStateChanged(task_id@, from@, to@),
            DeltaChange::NewMerges { count } => ChangeView::NewMerges(*count),
            DeltaChange::NewStops { count } => ChangeView::NewStops(*count),
            DeltaChange::PipelineStarted { task_id } => ChangeView::PipelineStarted(task_id@),
            DeltaChange::PipelineCompleted { task_id } => ChangeView::PipelineCompleted(task_id@),
        }
    }
}

/// The views of a list of changes.
pub open spec fn change_views(s: Seq<DeltaChange>) -> Seq<ChangeView> {
    s.map_values(|c: DeltaChange| c@)
}

/// Changes of task state, in the order of the current entries: a task
/// known before with another state changed, an unknown one was added.
pub open spec fn task_changes(cur: Seq<(String, String)>, prev: Map<Seq<char>, Seq<char>>) -> Seq<ChangeView>
    decreases cur.len(),
{
    if cur.len() == 0 {
        Seq::empty()
    } else {
        let rest = task_changes(cur.drop_last(), prev);
        let k = cur.last().0@;
        let v = cur.last().1@;
        if prev.contains_key(k) {
            if prev[k] != v {
                rest.push(ChangeView::TaskStateChanged(k, prev[k], v))
            } else {
                rest
            }
        } else {
            rest.push(ChangeView::TaskAdded(k, v))
        }
    }
}

/// Tasks of the previous entries that the current map lacks.
pub open spec fn removed_tasks(prev: Seq<(String, String)>, cur: Map<Seq<char>, Seq<char>>) -> Seq<ChangeView>
    decreases prev.len(),
{
    if prev.len() == 0 {
        Seq::empty()
    } else {
        let rest = removed_tasks(prev.drop_last(), cur);
        let k = prev.last().0@;
        if cur.contains_key(k) {
            rest
        } else {
            rest.push(ChangeView::TaskRemoved(k, prev.last().1@))
        }
    }
}

/// Models known before whose health changed.
pub open spec fn model_changes(
    cur: Seq<(String, ModelHealthState)>,
    prev: Map<Seq<char>, ModelHealthState>,
) -> Seq<ChangeView>
    decreases cur.len(),
{
    if cur.len() == 0 {
        Seq::empty()
    } else {
        let rest = model_changes(cur.drop_last(), prev);
        let k = cur.last().0@;
        if prev.contains_key(k) && prev[k] != cur.last().1 {
            rest.push(ChangeView::ModelHealthChanged(k, prev[k], cur.last().1))
        } else {
            rest
        }
    }
}

/// QA states known before that changed.
pub open spec fn qa_changes(cur: Seq<(String, String)>, prev: Map<Seq<char>, Seq<char>>) -> Seq<ChangeView>
    decreases cur.len(),
{
    if cur.len() == 0 {
        Seq::empty()
    } else {
        let rest = qa_changes(cur.drop_last(), prev);
        let k = cur.last().0@;
        let v = cur.last().1@;
        if prev.contains_key(k) && prev[k] != v {
            rest.push(ChangeView::QAStateChanged(k, prev[k], v))
        } else {
            rest
        }
    }
}

/// The views of a list of strings.
pub open spec fn string_views(s: Seq<String>) -> Seq<Seq<char>> {
    s.map_values(|x: String| x@)
}

/// The names of `a` that `b` lacks, each once, in order of first occurrence.
pub open spec fn fresh_names(a: Seq<String>, b: Seq<String>) -> Seq<Seq<char>>
    decreases a.len(),
{
    if a.len() == 0 {
        Seq::empty()
    } else {
        let rest = fresh_names(a.drop_last(), b);
        let x = a.last()@;
        if string_views(b).contains(x) || string_views(a.drop_last()).contains(x) {
            rest
        } else {
            rest.push(x)
        }
    }
}

/// Every change between two snapshots, by kind: task states, removed tasks,
/// model health, context generation, QA, started and completed pipelines,
/// new merges and new stops.
pub open spec fn delta_of(prev: SystemSnapshot, cur: SystemSnapshot) -> Seq<ChangeView> {
    task_changes(cur.task_states.entries_spec(), prev.task_states@)
        + removed_tasks(prev.task_states.entries_spec(), cur.task_states@)
        + model_changes(cur.model_health.entries_spec(), prev.model_health@)
        + (if prev.context_gen_status@ != cur.context_gen_status@ {
            seq![ChangeView::ContextGenStatusChanged(prev.context_gen_status@, cur.context_gen_status@)]
        } else {
            Seq::empty()
        })
        + qa_changes(cur.qa_states.entries_spec(), prev.qa_states@)
        + fresh_names(cur.active_pipelines@, prev.active_pipelines@).map_values(|p: Seq<char>| ChangeView::PipelineStarted(p))
        + fresh_names(prev.active_pipelines@, cur.active_pipelines@).map_values(|p: Seq<char>| ChangeView::PipelineCompleted(p))
        + (if cur.merge_count > prev.merge_count {
            seq![ChangeView::NewMerges((cur.merge_count - prev.merge_count) as u64)]
        } else {
            Seq::empty()
        })
        + (if cur.stop_count > prev.stop_count {
            seq![ChangeView::NewStops((cur.stop_count - prev.stop_count) as u64)]
        } else {
            Seq::empty()
        })
}

fn push_change(out: &mut Vec<DeltaChange>, c: DeltaChange)
    ensures
        final(out)@ == old(out)@.push(c),
        change_views(final(out)@) == change_views(old(out)@).push(c@),
{
    out.push(c);
    assert(change_views(out@) =~= change_views(old(out)@).push(c@));
}

fn push_task_changes(out: &mut Vec<DeltaChange>, cur: &StrMap, prev: &StrMap)
    ensures
        change_views(final(out)@) == change_views(old(out)@) + task_changes(cur.entries_spec(), prev@),
{
    let e = cur.entries();
    let mut i: usize = 0;
    while i < e.len()
        invariant
            i <= e@.len(),
            e@ == cur.entries_spec(),
            change_views(out@) == change_views(old(out)@) + task_changes(e@.take(i as int), prev@),
        decreases e@.len() - i,
    {
        assert(e@.take(i + 1).drop_last() =~= e@.take(i as int));
        let (k, v) = &e[i];
        match prev.get(k.as_str()) {
            Some(old_state) => {
                if !str_eq(old_state.as_str(), v.as_str()) {
                    push_change(out, DeltaChange::TaskStateChanged { task_id: k.clone(), from: old_state.clone(), to: v.clone() });
                }
            },
            None => {
                push_change(out, DeltaChange::TaskAdded { task_id: k.clone(), state: v.clone() });
            },
        }
        i = i + 1;
    }
    assert(e@.take(e@.len() as int) =~= e@);
}

fn push_removed_tasks(out: &mut Vec<DeltaChange>, prev: &StrMap, cur: &StrMap)
    ensures
        change_views(final(out)@) == change_views(old(out)@) + removed_tasks(prev.entries_spec(), cur@),
{
    let e = prev.entries();
    let mut i: usize = 0;
    while i < e.len()
        invariant
            i <= e@.len(),
            e@ == prev.entries_spec(),
            change_views(out@) == change_views(old(out)@) + removed_tasks(e@.take(i as int), cur@),
        decreases e@.len() - i,
    {
        assert(e@.take(i + 1).drop_last() =~= e@.take(i as int));
        let (k, v) = &e[i];
        if !cur.contains_key(k.as_str()) {
            push_change(out, DeltaChange::TaskRemoved { task_id: k.clone(), last_state: v.clone() });
        }
        i = i + 1;
    }
    assert(e@.take(e@.len() as int) =~= e@);
}

fn push_model_changes(out: &mut Vec<DeltaChange>, cur: &KeyMap<ModelHealthState>, prev: &KeyMap<ModelHealthState>)
    ensures
        change_views(final(out)@) == change_views(old(out)@) + model_changes(cur.entries_spec(), prev@),
{
    let e = cur.entries();
    let mut i: usize = 0;
    while i < e.len()
        invariant
            i <= e@.len(),
            e@ == cur.entries_spec(),
            change_views(out@) == change_views(old(out)@) + model_changes(e@.take(i as int), prev@),
        decreases e@.len() - i,
    {
        assert(e@.take(i + 1).drop_last() =~= e@.take(i as int));
        let (k, v) = &e[i];
        match prev.get(k.as_str()) {
            Some(old_health) => {
                if *old_health != *v {
                    push_change(out, DeltaChange::ModelHealthChanged { model: k.clone(), from: *old_health, to: *v });
                }
            },
            None => {},
        }
        i = i + 1;
    }
    assert(e@.take(e@.len() as int) =~= e@);
}

fn push_qa_changes(out: &mut Vec<DeltaChange>, cur: &StrMap, prev: &StrMap)
    ensures
        change_views(final(out)@) == change_views(old(out)@) + qa_changes(cur.entries_spec(), prev@),
{
    let e = cur.entries();
    let mut i: usize = 0;
    while i < e.len()
        invariant
            i <= e@.len(),
            e@ == cur.entries_spec(),
            change_views(out@) == change_views(old(out)@) + qa_changes(e@.take(i as int), prev@),
        decreases e@.len() - i,
    {
        assert(e@.take(i + 1).drop_last() =~= e@.take(i as int));
        let (k, v) = &e[i];
        match prev.get(k.as_str()) {
            Some(old_state) => {
                if !str_eq(old_state.as_str(), v.as_str()) {
                    push_change(out, DeltaChange::QAStateChanged { task_id: k.clone(), from: old_state.clone(), to: v.clone() });
                }
            },
            None => {},
        }
        i = i + 1;
    }
    assert(e@.take(e@.len() as int) =~= e@);
}

fn contains_name(v: &Vec<String>, hi: usize, x: &str) -> (res: bool)
    requires
        hi <= v@.len(),
    ensures
        res == string_views(v@.take(hi as int)).contains(x@),
{
    let mut i: usize = 0;
    while i < hi
        invariant
            i <= hi <= v@.len(),
            forall|j: int| 0 <= j < i ==> v@[j]@ != x@,
        decreases hi - i,
    {
        if str_eq(v[i].as_str(), x) {
            assert(string_views(v@.take(hi as int))[i as int] == x@);
            return true;
        }
        i = i + 1;
    }
    assert forall|j: int| 0 <= j < string_views(v@.take(hi as int)).len() implies string_views(v@.take(hi as int))[j] != x@ by {
        assert(string_views(v@.take(hi as int))[j] == v@[j]@);
    }
    false
}

fn push_fresh_names(out: &mut Vec<DeltaChange>, a: &Vec<String>, b: &Vec<String>, started: bool)
    ensures
        change_views(final(out)@) == change_views(old(out)@) + (if started {
            fresh_names(a@, b@).map_values(|p: Seq<char>| ChangeView::PipelineStarted(p))
        } else {
            fresh_names(a@, b@).map_values(|p: Seq<char>| ChangeView::PipelineCompleted(p))
        }),
{
    let mut i: usize = 0;
    assert(b@.take(b@.len() as int) =~= b@);
    while i < a.len()
        invariant
            i <= a@.len(),
            b@.take(b@.len() as int) == b@,
            change_views(out@) == change_views(old(out)@) + (if started {
                fresh_names(a@.take(i as int), b@).map_values(|p: Seq<char>| ChangeView::PipelineStarted(p))
            } else {
                fresh_names(a@.take(i as int), b@).map_values(|p: Seq<char>| ChangeView::PipelineCompleted(p))
            }),
        decreases a@.len() - i,
    {
        let ghost pre = a@.take(i as int);
        assert(a@.take(i + 1).drop_last() =~= pre);
        assert(a@.take(i + 1).last() == a@[i as int]);
        let x = a[i].as_str();
        let in_b = contains_name(b, b.len(), x);
        let seen = contains_name(a, i, x);
        if !in_b && !seen {
            let c = if started {
                DeltaChange::PipelineStarted { task_id: a[i].clone() }
            } else {
                DeltaChange::PipelineCompleted { task_id: a[i].clone() }
            };
            push_change(out, c);
            if started {
                assert(fresh_names(a@.take(i + 1), b@).map_values(|p: Seq<char>| ChangeView::PipelineStarted(p))
                    =~= fresh_names(pre, b@).map_values(|p: Seq<char>| ChangeView::PipelineStarted(p)).push(ChangeView::PipelineStarted(a@[i as int]@)));
            } else {
                assert(fresh_names(a@.take(i + 1), b@).map_values(|p: Seq<char>| ChangeView::PipelineCompleted(p))
                    =~= fresh_names(pre, b@).map_values(|p: Seq<char>| ChangeView::PipelineCompleted(p)).push(ChangeView::PipelineCompleted(a@[i as int]@)));
            }
        }
        i = i + 1;
    }
    assert(a@.take(a@.len() as int) =~= a@);
}

/// Computes the changes from `prev` to `curr`, grouped by kind.
pub fn compute_delta(prev: &SystemSnapshot, curr: &SystemSnapshot) -> (res: Vec<DeltaChange>)
    ensures
        change_views(res@) == delta_of(*prev, *curr),
{
    let mut changes: Vec<DeltaChange> = Vec::new();
    assert(change_views(changes@) =~= Seq::<ChangeView>::empty());
    push_task_changes(&mut changes, &curr.task_states, &prev.task_states);
    push_removed_tasks(&mut changes, &prev.task_states, &curr.task_states);
    push_model_changes(&mut changes, &curr.model_health, &prev.model_health);
    let ghost before_ctx = change_views(changes@);
    if !str_eq(prev.context_gen_status.as_str(), curr.context_gen_status.as_str()) {
        push_change(&mut changes, DeltaChange::ContextGenStatusChanged {
            from: prev.context_gen_status.clone(),
            to: curr.context_gen_status.clone(),
        });
    }
    push_qa_changes(&mut changes, &curr.qa_states, &prev.qa_states);
    push_fresh_names(&mut changes, &curr.active_pipelines, &prev.active_pipelines, true);
    push_fresh_names(&mut changes, &prev.active_pipelines, &curr.active_pipelines, false);
    if curr.merge_count > prev.merge_count {
        push_change(&mut changes, DeltaChange::NewMerges { count: curr.merge_count - prev.merge_count });
    }
    if curr.stop_count > prev.stop_count {
        push_change(&mut changes, DeltaChange::NewStops { count: curr.stop_count - prev.stop_count });
    }
    assert(change_views(changes@) =~= delta_of(*prev, *curr));
    changes
}

/// How noisy reports are held back.
#[derive(Debug, Clone, Copy, PartialEq, Eq, Structural)]
pub struct SuppressionPolicy {
    /// Emit nothing for a tick without changes.
    pub suppress_empty: bool,
    /// Drop context-generation "idle → idle" changes.
    pub suppress_context_idle_repeat: bool,
    /// Least time between two reports, in seconds.
    pub min_report_interval_secs: u64,
}

impl Default for SuppressionPolicy {
    fn default() -> (res: Self)
        ensures
            res == (SuppressionPolicy { suppress_empty: true, suppress_context_idle_repeat: true, min_report_interval_secs: 30 }),
    {
        SuppressionPolicy { suppress_empty: true, suppress_context_idle_repeat: true, min_report_interval_secs: 30 }
    }
}

/// Whether a change is a context-generation change from idle to idle.
pub open spec fn is_idle_repeat(c: ChangeView) -> bool {
    c matches ChangeView::ContextGenStatusChanged(from, to) && from == "idle"@ && to == "idle"@
}

/// The changes without idle repeats.
pub open spec fn without_idle_repeats(s: Seq<ChangeView>) -> Seq<ChangeView>
    decreases s.len(),
{
    if s.len() == 0 {
        s
    } else {
        let rest = without_idle_repeats(s.drop_last());
        if is_idle_repeat(s.last()) { rest } else { rest.push(s.last()) }
    }
}

/// The changes that a policy lets through.
pub open spec fn suppressed_view(s: Seq<ChangeView>, policy: SuppressionPolicy) -> Seq<ChangeView> {
    if policy.suppress_context_idle_repeat { without_idle_repeats(s) } else { s }
}

fn copy_change(c: &DeltaChange) -> (res: DeltaChange)
    ensures
        res@ == c@,
{
    match c {
        DeltaChange::TaskStateChanged { task_id, from, to } => DeltaChange::TaskStateChanged { task_id: task_id.clone(), from: from.clone(), to: to.clone() },
        DeltaChange::TaskAdded { task_id, state } => DeltaChange::TaskAdded { task_id: task_id.clone(), state: state.clone() },
        DeltaChange::TaskRemoved { task_id, last_state } => DeltaChange::TaskRemoved { task_id: task_id.clone(), last_state: last_state.clone() },
        DeltaChange::ModelHealthChanged { model, from, to } => DeltaChange::ModelHealthChanged { model: model.clone(), from: *from, to: *to },
        DeltaChange::ContextGenStatusChanged { from, to } => DeltaChange::ContextGenStatusChanged { from: from.clone(), to: to.clone() },
        DeltaChange::QAStateChanged { task_id, from, to } => DeltaChange::QAStateChanged { task_id: task_id.clone(), from: from.clone(), to: to.clone() },
        DeltaChange::NewMerges { count } => DeltaChange::NewMerges { count: *count },
        DeltaChange::NewStops { count } => DeltaChange::NewStops { count: *count },
        DeltaChange::PipelineStarted { task_id } => DeltaChange::PipelineStarted { task_id: task_id.clone() },
        DeltaChange::PipelineCompleted { task_id } => DeltaChange::PipelineCompleted { task_id: task_id.clone() },
    }
}

fn idle_repeat(c: &DeltaChange) -> (res: bool)
    ensures
        res == is_idle_repeat(c@),
{
    match c {
        DeltaChange::ContextGenStatusChanged { from, to } => str_eq(from.as_str(), "idle") && str_eq(to.as_str(), "idle"),
        _ => false,
    }
}

/// The changes that `policy` lets through, in their order.
pub fn apply_suppression(changes: &[DeltaChange], policy: &SuppressionPolicy) -> (res: Vec<DeltaChange>)
    ensures
        change_views(res@) == suppressed_view(change_views(changes@), *policy),
{
    let mut out: Vec<DeltaChange> = Vec::new();
    let mut i: usize = 0;
    while i < changes.len()
        invariant
            i <= changes@.len(),
            change_views(out@) == suppressed_view(change_views(changes@.take(i as int)), *policy),
        decreases changes@.len() - i,
    {
        assert(change_views(changes@.take(i + 1)) =~= change_views(changes@.take(i as int)).push(changes@[i as int]@));
        assert(change_views(changes@.take(i + 1)).drop_last() =~= change_views(changes@.take(i as int)));
        if !(policy.suppress_context_idle_repeat && idle_repeat(&changes[i])) {
            let c = copy_change(&changes[i]);
            push_change(&mut out, c);
        }
        i = i + 1;
    }
    assert(changes@.take(changes@.len() as int) =~= changes@);
    out
}

/// Whether a change is always worth reporting: stops, model health and
/// removed tasks.
pub open spec fn is_high_priority(c: ChangeView) -> bool {
    c is NewStops || c is ModelHealthChanged || c is TaskRemoved
}

/// Whole seconds from `last` to `now` (nanosecond instants), rounded toward
/// zero.
pub open spec fn elapsed_secs(last: i64, now: i64) -> int {
    let d = now - last;
    if d >= 0 { d / 1_000_000_000 } else { -((-d) / 1_000_000_000) }
}

/// Whether a report with `changes` goes out at `now`.
pub open spec fn emit_decision(last: Option<i64>, now: i64, policy: SuppressionPolicy, changes: Seq<ChangeView>) -> bool {
    if exists|i: int| 0 <= i < changes.len() && is_high_priority(#[trigger] changes[i]) {
        true
    } else if policy.suppress_empty && changes.len() == 0 {
        false
    } else {
        match last {
            Some(l) => elapsed_secs(l, now) >= (policy.min_report_interval_secs as i64) as int,
            None => true,
        }
    }
}

/// A removed task, new stops or a change of a model's health.
pub open spec fn urgent_change(c: ChangeView) -> bool {
    match c {
        ChangeView::TaskRemoved(_, _) => true,
        ChangeView::NewStops(_) => true,
        ChangeView::ModelHealthChanged(_, _, _) => true,
        _ => false,
    }
}

/// The rule for a report without urgent changes: an empty report is held
/// back when the policy suppresses empty reports, and otherwise a report
/// goes out once the least interval has passed since the last one (or when
/// there was none).
pub open spec fn rate_limited(last: Option<i64>, now: i64, policy: SuppressionPolicy, empty: bool) -> bool {
    if policy.suppress_empty && empty {
        false
    } else {
        match last {
            None => true,
            Some(l) => now - l >= 0 && (now - l) / 1_000_000_000 >= policy.min_report_interval_secs as i64
                || now - l < 0 && -((l - now) / 1_000_000_000) >= policy.min_report_interval_secs as i64,
        }
    }
}

/// A report holding a removed task, new stops or a model health change
/// always goes out, whenever the last report was and whatever the policy;
/// a report holding none of them goes out by the policy's rate limit alone.
pub proof fn lemma_emit_rule(last: Option<i64>, now: i64, policy: SuppressionPolicy, changes: Seq<ChangeView>)
    ensures
        (exists|i: int| 0 <= i < changes.len() && urgent_change(#[trigger] changes[i])) ==> emit_decision(last, now, policy, changes),
        (forall|i: int| 0 <= i < changes.len() ==> !urgent_change(#[trigger] changes[i])) ==> emit_decision(last, now, policy, changes)
            == rate_limited(last, now, policy, changes.len() == 0),
{
    if exists|i: int| 0 <= i < changes.len() && urgent_change(#[trigger] changes[i]) {
        let i = choose|i: int| 0 <= i < changes.len() && urgent_change(#[trigger] changes[i]);
        assert(is_high_priority(changes[i]));
    }
    if forall|i: int| 0 <= i < changes.len() ==> !urgent_change(#[trigger] changes[i]) {
        assert forall|i: int| 0 <= i < changes.len() implies !is_high_priority(#[trigger] changes[i]) by {
            assert(!urgent_change(changes[i]));
        }
    }
}

fn high_priority(c: &DeltaChange) -> (res: bool)
    ensures
        res == is_high_priority(c@),
{
    match c {
        DeltaChange::NewStops { .. } => true,
        DeltaChange::ModelHealthChanged { .. } => true,
        DeltaChange::TaskRemoved { .. } => true,
        _ => false,
    }
}

/// Whether to emit a report now: always for high-priority changes, never for
/// an empty one when the policy says so, else once the least interval since
/// the last report (instants in nanoseconds) has passed.
pub fn should_emit(last_report_at: Option<i64>, now: i64, policy: &SuppressionPolicy, changes: &[DeltaChange]) -> (res: bool)
    ensures
        res == emit_decision(last_report_at, now, *policy, change_views(changes@)),
        (exists|i: int| 0 <= i < changes@.len() && urgent_change(#[trigger] changes@[i]@)) ==> res,
        (forall|i: int| 0 <= i < changes@.len() ==> !urgent_change(#[trigger] changes@[i]@)) ==> res == rate_limited(
            last_report_at,
            now,
            *policy,
            changes@.len() == 0,
        ),
{
    proof {
        lemma_emit_rule(last_report_at, now, *policy, change_views(changes@));
        if exists|i: int| 0 <= i < changes@.len() && urgent_change(#[trigger] changes@[i]@) {
            let i = choose|i: int| 0 <= i < changes@.len() && urgent_change(#[trigger] changes@[i]@);
            assert(urgent_change(change_views(changes@)[i]));
        }
        if forall|i: int| 0 <= i < changes@.len() ==> !urgent_change(#[trigger] changes@[i]@) {
            assert forall|i: int| 0 <= i < change_views(changes@).len() implies !urgent_change(#[trigger] change_views(changes@)[i]) by {
                assert(change_views(changes@)[i] == changes@[i]@);
            }
        }
    }
    let mut i: usize = 0;
    while i < changes.len()
        invariant
            i <= changes@.len(),
            forall|j: int| 0 <= j < i ==> !is_high_priority(#[trigger] change_views(changes@)[j]),
        decreases changes@.len() - i,
    {
        if high_priority(&changes[i]) {
            assert(is_high_priority(change_views(changes@)[i as int]));
            return true;
        }
        i = i + 1;
    }
    if policy.suppress_empty && changes.len() == 0 {
        return false;
    }
    match last_report_at {
        Some(last) => {
            let d: i128 = now as i128 - last as i128;
            let secs: i128 = if d >= 0 { d / 1_000_000_000 } else { -((-d) / 1_000_000_000) };
            secs >= (policy.min_report_interval_secs as i64) as i128
        },
        None => true,
    }
}

/// Counts of a report's changes by kind.
#[derive(Debug, Clone, Copy, PartialEq, Eq, Structural)]
pub struct DeltaSummary {
    pub total_changes: usize,
    pub task_changes: usize,
    pub model_changes: usize,
    pub qa_changes: usize,
    pub new_merges: u64,
    pub new_stops: u64,
}

/// Whether a change concerns a task's state.
pub open spec fn is_task_change(c: ChangeView) -> bool {
    c is TaskStateChanged || c is TaskAdded || c is TaskRemoved
}

/// How many changes satisfy `f`.
pub open spec fn count_where(s: Seq<ChangeView>, f: spec_fn(ChangeView) -> bool) -> nat
    decreases s.len(),
{
    if s.len() == 0 {
        0
    } else {
        count_where(s.drop_last(), f) + if f(s.last()) { 1nat } else { 0nat }
    }
}

/// The merged count of a change, 0 for other kinds.
pub open spec fn merges_in(c: ChangeView) -> nat {
    match c {
        ChangeView::NewMerges(n) => n as nat,
        _ => 0,
    }
}

/// The stopped count of a change, 0 for other kinds.
pub open spec fn stops_in(c: ChangeView) -> nat {
    match c {
        ChangeView::NewStops(n) => n as nat,
        _ => 0,
    }
}

/// The sum of `f` over the changes.
pub open spec fn sum_of(s: Seq<ChangeView>, f: spec_fn(ChangeView) -> nat) -> nat
    decreases s.len(),
{
    if s.len() == 0 {
        0
    } else {
        sum_of(s.drop_last(), f) + f(s.last())
    }
}

/// The summary of a list of changes.
pub open spec fn summary_of(s: Seq<ChangeView>) -> DeltaSummary {
    DeltaSummary {
        total_changes: s.len() as usize,
        task_changes: count_where(s, |c: ChangeView| is_task_change(c)) as usize,
        model_changes: count_where(s, |c: ChangeView| c is ModelHealthChanged) as usize,
        qa_changes: count_where(s, |c: ChangeView| c is QAStateChanged) as usize,
        new_merges: sum_of(s, |c: ChangeView| merges_in(c)) as u64,
        new_stops: sum_of(s, |c: ChangeView| stops_in(c)) as u64,
    }
}

proof fn lemma_count_bound(s: Seq<ChangeView>, f: spec_fn(ChangeView) -> bool)
    ensures
        count_where(s, f) <= s.len(),
    decreases s.len(),
{
    if s.len() > 0 {
        lemma_count_bound(s.drop_last(), f);
    }
}

proof fn lemma_sum_prefix(s: Seq<ChangeView>, f: spec_fn(ChangeView) -> nat, i: int)
    requires
        0 <= i <= s.len(),
    ensures
        sum_of(s.take(i), f) <= sum_of(s, f),
    decreases s.len() - i,
{
    if i < s.len() {
        lemma_sum_prefix(s, f, i + 1);
        assert(s.take(i + 1).drop_last() =~= s.take(i));
    } else {
        assert(s.take(i) =~= s);
    }
}

/// Summarizes a list of changes by kind.
pub fn summarize(changes: &Vec<DeltaChange>) -> (res: DeltaSummary)
    requires
        sum_of(change_views(changes@), |c: ChangeView| merges_in(c)) <= u64::MAX,
        sum_of(change_views(changes@), |c: ChangeView| stops_in(c)) <= u64::MAX,
    ensures
        res == summary_of(change_views(changes@)),
{
    let ghost v = change_views(changes@);
    let mut task: usize = 0;
    let mut model: usize = 0;
    let mut qa: usize = 0;
    let mut merges: u64 = 0;
    let mut stops: u64 = 0;
    let mut i: usize = 0;
    while i < changes.len()
        invariant
            i <= changes@.len(),
            v == change_views(changes@),
            sum_of(v, |c: ChangeView| merges_in(c)) <= u64::MAX,
            sum_of(v, |c: ChangeView| stops_in(c)) <= u64::MAX,
            task == count_where(v.take(i as int), |c: ChangeView| is_task_change(c)),
            model == count_where(v.take(i as int), |c: ChangeView| c is ModelHealthChanged),
            qa == count_where(v.take(i as int), |c: ChangeView| c is QAStateChanged),
            merges == sum_of(v.take(i as int), |c: ChangeView| merges_in(c)),
            stops == sum_of(v.take(i as int), |c: ChangeView| stops_in(c)),
        decreases changes@.len() - i,
    {
        assert(v.take(i + 1).drop_last() =~= v.take(i as int));
        assert(v.take(i + 1).last() == changes@[i as int]@);
        proof {
            lemma_count_bound(v.take(i as int), |c: ChangeView| is_task_change(c));
            lemma_count_bound(v.take(i as int), |c: ChangeView| c is ModelHealthChanged);
            lemma_count_bound(v.take(i as int), |c: ChangeView| c is QAStateChanged);
            lemma_sum_prefix(v, |c: ChangeView| merges_in(c), i + 1);
            lemma_sum_prefix(v, |c: ChangeView| stops_in(c), i + 1);
        }
        match &changes[i] {
            DeltaChange::TaskStateChanged { .. } => { task = task + 1; },
            DeltaChange::TaskAdded { .. } => { task = task + 1; },
            DeltaChange::TaskRemoved { .. } => { task = task + 1; },
            DeltaChange::ModelHealthChanged { .. } => { model = model + 1; },
            DeltaChange::QAStateChanged { .. } => { qa = qa + 1; },
            DeltaChange::NewMerges { count } => { merges = merges + *count; },
            DeltaChange::NewStops { count } => { stops = stops + *count; },
            _ => {},
        }
        i = i + 1;
    }
    assert(v.take(i as int) =~= v);
    DeltaSummary { total_changes: changes.len(), task_changes: task, model_changes: model, qa_changes: qa, new_merges: merges, new_stops: stops }
}

/// Whether a change carries no merge or stop count.
pub open spec fn uncounted(c: ChangeView) -> bool {
    !(c is NewMerges) && !(c is NewStops)
}

/// Whether no change of `s` carries a merge or stop count.
pub open spec fn all_uncounted(s: Seq<ChangeView>) -> bool {
    forall|i: int| 0 <= i < s.len() ==> uncounted(#[trigger] s[i])
}

proof fn lemma_task_changes_uncounted(e: Seq<(String, String)>, m: Map<Seq<char>, Seq<char>>)
    ensures
        all_uncounted(task_changes(e, m)),
    decreases e.len(),
{
    if e.len() > 0 {
        lemma_task_changes_uncounted(e.drop_last(), m);
    }
}

proof fn lemma_removed_uncounted(e: Seq<(String, String)>, m: Map<Seq<char>, Seq<char>>)
    ensures
        all_uncounted(removed_tasks(e, m)),
    decreases e.len(),
{
    if e.len() > 0 {
        lemma_removed_uncounted(e.drop_last(), m);
    }
}

proof fn lemma_model_uncounted(e: Seq<(String, ModelHealthState)>, m: Map<Seq<char>, ModelHealthState>)
    ensures
        all_uncounted(model_changes(e, m)),
    decreases e.len(),
{
    if e.len() > 0 {
        lemma_model_uncounted(e.drop_last(), m);
    }
}

proof fn lemma_qa_uncounted(e: Seq<(String, String)>, m: Map<Seq<char>, Seq<char>>)
    ensures
        all_uncounted(qa_changes(e, m)),
    decreases e.len(),
{
    if e.len() > 0 {
        lemma_qa_uncounted(e.drop_last(), m);
    }
}

proof fn lemma_sum_concat(a: Seq<ChangeView>, b: Seq<ChangeView>, f: spec_fn(ChangeView) -> nat)
    ensures
        sum_of(a + b, f) == sum_of(a, f) + sum_of(b, f),
    decreases b.len(),
{
    if b.len() == 0 {
        assert(a + b =~= a);
    } else {
        lemma_sum_concat(a, b.drop_last(), f);
        assert((a + b).drop_last() =~= a + b.drop_last());
    }
}

proof fn lemma_sum_uncounted(s: Seq<ChangeView>)
    requires
        all_uncounted(s),
    ensures
        sum_of(s, |c: ChangeView| merges_in(c)) == 0,
        sum_of(s, |c: ChangeView| stops_in(c)) == 0,
    decreases s.len(),
{
    if s.len() > 0 {
        assert(uncounted(s[s.len() - 1]));
        lemma_sum_uncounted(s.drop_last());
    }
}

proof fn lemma_sum_without_idle(s: Seq<ChangeView>, f: spec_fn(ChangeView) -> nat)
    requires
        forall|c: ChangeView| is_idle_repeat(c) ==> #[trigger] f(c) == 0,
    ensures
        sum_of(without_idle_repeats(s), f) == sum_of(s, f),
    decreases s.len(),
{
    if s.len() > 0 {
        lemma_sum_without_idle(s.drop_last(), f);
        assert(is_idle_repeat(s.last()) ==> f(s.last()) == 0);
        let rest = without_idle_repeats(s.drop_last());
        assert(rest.push(s.last()).drop_last() =~= rest);
    }
}

/// The merge total of a tick's changes is the growth of the merge count,
/// and the stop total the growth of the stop count, whatever the policy.
pub proof fn lemma_delta_totals(prev: SystemSnapshot, curr: SystemSnapshot, policy: SuppressionPolicy)
    ensures
        sum_of(suppressed_view(delta_of(prev, curr), policy), |c: ChangeView| merges_in(c))
            == if curr.merge_count > prev.merge_count { curr.merge_count - prev.merge_count } else { 0 },
        sum_of(suppressed_view(delta_of(prev, curr), policy), |c: ChangeView| stops_in(c))
            == if curr.stop_count > prev.stop_count { curr.stop_count - prev.stop_count } else { 0 },
{
    let b1 = task_changes(curr.task_states.entries_spec(), prev.task_states@);
    let b2 = removed_tasks(prev.task_states.entries_spec(), curr.task_states@);
    let b3 = model_changes(curr.model_health.entries_spec(), prev.model_health@);
    let b4: Seq<ChangeView> = if prev.context_gen_status@ != curr.context_gen_status@ {
        seq![ChangeView::ContextGenStatusChanged(prev.context_gen_status@, curr.context_gen_status@)]
    } else {
        Seq::empty()
    };
    let b5 = qa_changes(curr.qa_states.entries_spec(), prev.qa_states@);
    let b6 = fresh_names(curr.active_pipelines@, prev.active_pipelines@).map_values(|p: Seq<char>| ChangeView::PipelineStarted(p));
    let b7 = fresh_names(prev.active_pipelines@, curr.active_pipelines@).map_values(|p: Seq<char>| ChangeView::PipelineCompleted(p));
    let b8: Seq<ChangeView> = if curr.merge_count > prev.merge_count {
        seq![ChangeView::NewMerges((curr.merge_count - prev.merge_count) as u64)]
    } else {
        Seq::empty()
    };
    let b9: Seq<ChangeView> = if curr.stop_count > prev.stop_count {
        seq![ChangeView::NewStops((curr.stop_count - prev.stop_count) as u64)]
    } else {
        Seq::empty()
    };
    let head = b1 + b2 + b3 + b4 + b5 + b6 + b7;
    lemma_task_changes_uncounted(curr.task_states.entries_spec(), prev.task_states@);
    lemma_removed_uncounted(prev.task_states.entries_spec(), curr.task_states@);
    lemma_model_uncounted(curr.model_health.entries_spec(), prev.model_health@);
    lemma_qa_uncounted(curr.qa_states.entries_spec(), prev.qa_states@);
    assert(all_uncounted(head)) by {
        assert forall|i: int| 0 <= i < head.len() implies uncounted(#[trigger] head[i]) by {
            if i < b1.len() {
                assert(head[i] == b1[i]);
            } else if i < b1.len() + b2.len() {
                assert(head[i] == b2[i - b1.len()]);
            } else if i < b1.len() + b2.len() + b3.len() {
                assert(head[i] == b3[i - b1.len() - b2.len()]);
            } else if i < b1.len() + b2.len() + b3.len() + b4.len() {
                assert(head[i] == b4[i - b1.len() - b2.len() - b3.len()]);
            } else if i < b1.len() + b2.len() + b3.len() + b4.len() + b5.len() {
                assert(head[i] == b5[i - b1.len() - b2.len() - b3.len() - b4.len()]);
            } else if i < b1.len() + b2.len() + b3.len() + b4.len() + b5.len() + b6.len() {
                assert(head[i] == b6[i - b1.len() - b2.len() - b3.len() - b4.len() - b5.len()]);
            } else {
                assert(head[i] == b7[i - b1.len() - b2.len() - b3.len() - b4.len() - b5.len() - b6.len()]);
            }
        }
    }
    assert(delta_of(prev, curr) == head + b8 + b9);
    lemma_sum_uncounted(head);
    let fm = |c: ChangeView| merges_in(c);
    let fs = |c: ChangeView| stops_in(c);
    lemma_sum_concat(head, b8, fm);
    lemma_sum_concat(head + b8, b9, fm);
    lemma_sum_concat(head, b8, fs);
    lemma_sum_concat(head + b8, b9, fs);
    assert(sum_of(b8, fm) == if curr.merge_count > prev.merge_count { curr.merge_count - prev.merge_count } else { 0 }) by {
        if curr.merge_count > prev.merge_count {
            assert(b8.drop_last() =~= Seq::<ChangeView>::empty());
            assert(sum_of(b8.drop_last(), fm) == 0);
        }
    }
    assert(sum_of(b9, fs) == if curr.stop_count > prev.stop_count { curr.stop_count - prev.stop_count } else { 0 }) by {
        if curr.stop_count > prev.stop_count {
            assert(b9.drop_last() =~= Seq::<ChangeView>::empty());
            assert(sum_of(b9.drop_last(), fs) == 0);
        }
    }
    assert(sum_of(b8, fs) == 0) by {
        if curr.merge_count > prev.merge_count {
            assert(b8.drop_last() =~= Seq::<ChangeView>::empty());
            assert(sum_of(b8.drop_last(), fs) == 0);
        }
    }
    assert(sum_of(b9, fm) == 0) by {
        if curr.stop_count > prev.stop_count {
            assert(b9.drop_last() =~= Seq::<ChangeView>::empty());
            assert(sum_of(b9.drop_last(), fm) == 0);
        }
    }
    lemma_sum_without_idle(delta_of(prev, curr), fm);
    lemma_sum_without_idle(delta_of(prev, curr), fs);
}

/// A report of one tick's changes.
#[derive(Debug)]
pub struct DeltaReport {
    /// When the report was made, in nanoseconds since the Unix epoch.
    pub generated_at: i64,
    pub tick_number: u64,
    pub changes: Vec<DeltaChange>,
    pub summary: DeltaSummary,
    /// Set when the policy held back every change there was.
    pub suppressed: bool,
}

/// Builds the report of the changes from `prev` to `curr` that `policy`
/// lets through.
pub fn build_delta_report(
    prev: &SystemSnapshot,
    curr: &SystemSnapshot,
    tick_number: u64,
    policy: &SuppressionPolicy,
    generated_at: i64,
) -> (res: DeltaReport)
    ensures
        change_views(res.changes@) == suppressed_view(delta_of(*prev, *curr), *policy),
        res.summary == summary_of(change_views(res.changes@)),
        res.suppressed == (policy.suppress_empty && res.changes@.len() == 0 && delta_of(*prev, *curr).len() > 0),
        res.tick_number == tick_number,
        res.generated_at == generated_at,
{
    let raw = compute_delta(prev, curr);
    let changes = apply_suppression(raw.as_slice(), policy);
    proof {
        lemma_delta_totals(*prev, *curr, *policy);
    }
    let suppressed = policy.suppress_empty && changes.len() == 0 && raw.len() > 0;
    let summary = summarize(&changes);
    DeltaReport { generated_at, tick_number, changes, summary, suppressed }
}

/// The colour of a task state.
pub open spec fn state_color_of(state: Seq<char>) -> Seq<char> {
    if state == "merged"@ {
        "\x1b[32m"@
    } else if state == "stopped"@ {
        "\x1b[31m"@
    } else if state == "chatting"@ {
        "\x1b[34m"@
    } else if state == "ready"@ {
        "\x1b[32m"@
    } else if state == "submitting"@ || state == "awaiting_merge"@ {
        "\x1b[33m"@
    } else {
        "\x1b[0m"@
    }
}

fn state_color(state: &str) -> (res: &'static str)
    ensures
        res@ == state_color_of(state@),
{
    if str_eq(state, "merged") {
        "\x1b[32m"
    } else if str_eq(state, "stopped") {
        "\x1b[31m"
    } else if str_eq(state, "chatting") {
        "\x1b[34m"
    } else if str_eq(state, "ready") {
        "\x1b[32m"
    } else if str_eq(state, "submitting") || str_eq(state, "awaiting_merge") {
        "\x1b[33m"
    } else {
        "\x1b[0m"
    }
}

/// The name of a health state.
pub open spec fn health_name(h: ModelHealthState) -> Seq<char> {
    match h {
        ModelHealthState::Healthy => "Healthy"@,
        ModelHealthState::Cooldown => "Cooldown"@,
        ModelHealthState::Disabled => "Disabled"@,
    }
}

fn health_label(h: ModelHealthState) -> (res: &'static str)
    ensures
        res@ == health_name(h),
{
    match h {
        ModelHealthState::Healthy => "Healthy",
        ModelHealthState::Cooldown => "Cooldown",
        ModelHealthState::Disabled => "Disabled",
    }
}

/// The report line of one change.
pub open spec fn change_line(c: ChangeView) -> Seq<char> {
    match c {
        ChangeView::TaskStateChanged(t, from, to) => "  "@ + state_color_of(to) + "→"@ + t + "\x1b[0m  "@ + from + " → "@ + to + "\n"@,
        ChangeView::TaskAdded(t, st) => "  \x1b[32m+ "@ + t + "\x1b[0m  ("@ + st + ")\n"@,
        ChangeView::TaskRemoved(t, last) => "  \x1b[31m- "@ + t + "\x1b[0m  (was "@ + last + ")\n"@,
        ChangeView::ModelHealthChanged(m, from, to) => "  \x1b[33m⚕ "@ + m + "\x1b[0m  "@ + health_name(from) + " → "@ + health_name(to) + "\n"@,
        ChangeView::ContextGenStatusChanged(from, to) => "  \x1b[35m◉ context-gen\x1b[0m  "@ + from + " → "@ + to + "\n"@,
        ChangeView::QAStateChanged(t, from, to) => "  \x1b[36m✓ QA/"@ + t + "\x1b[0m  "@ + from + " → "@ + to + "\n"@,
        ChangeView::NewMerges(n) => "  \x1b[32m✓ "@ + decimal(n as nat) + " task(s) merged\x1b[0m\n"@,
        ChangeView::NewStops(n) => "  \x1b[31m■ "@ + decimal(n as nat) + " task(s) stopped\x1b[0m\n"@,
        ChangeView::PipelineStarted(t) => "  \x1b[33m▶ pipeline started\x1b[0m  "@ + t + "\n"@,
        ChangeView::PipelineCompleted(t) => "  \x1b[32m■ pipeline done\x1b[0m  "@ + t + "\n"@,
    }
}

/// The lines of all changes.
pub open spec fn change_lines(s: Seq<ChangeView>) -> Seq<char>
    decreases s.len(),
{
    if s.len() == 0 {
        Seq::empty()
    } else {
        change_lines(s.drop_last()) + change_line(s.last())
    }
}

/// The text of a report.
pub open spec fn report_text(r: DeltaReport) -> Seq<char> {
    let head = "\x1b[35m── Operator Report (tick #"@ + decimal(r.tick_number as nat) + ") ──\x1b[0m\n"@;
    if r.changes@.len() == 0 {
        head + "  \x1b[90m(no changes)\x1b[0m\n"@
    } else {
        let s = r.summary;
        head + "  "@ + decimal(s.total_changes as nat) + " change(s): "@ + decimal(s.task_changes as nat)
            + " task, "@ + decimal(s.model_changes as nat) + " model, "@ + decimal(s.qa_changes as nat) + " QA"@
            + (if s.new_merges > 0 { ", "@ + decimal(s.new_merges as nat) + " merge(s)"@ } else { Seq::empty() })
            + (if s.new_stops > 0 { ", "@ + decimal(s.new_stops as nat) + " stop(s)"@ } else { Seq::empty() })
            + "\n"@ + change_lines(change_views(r.changes@))
    }
}

fn push_change_line(out: &mut String, c: &DeltaChange)
    ensures
        final(out)@ == old(out)@ + change_line(c@),
{
    match c {
        DeltaChange::TaskStateChanged { task_id, from, to } => {
            out.append("  ");
            out.append(state_color(to.as_str()));
            out.append("→");
            out.append(task_id.as_str());
            out.append("\x1b[0m  ");
            out.append(from.as_str());
            out.append(" → ");
            out.append(to.as_str());
            out.append("\n");
        },
        DeltaChange::TaskAdded { task_id, state } => {
            out.append("  \x1b[32m+ ");
            out.append(task_id.as_str());
            out.append("\x1b[0m  (");
            out.append(state.as_str());
            out.append(")\n");
        },
        DeltaChange::TaskRemoved { task_id, last_state } => {
            out.append("  \x1b[31m- ");
            out.append(task_id.as_str());
            out.append("\x1b[0m  (was ");
            out.append(last_state.as_str());
            out.append(")\n");
        },
        DeltaChange::ModelHealthChanged { model, from, to } => {
            out.append("  \x1b[33m⚕ ");
            out.append(model.as_str());
            out.append("\x1b[0m  ");
            out.append(health_label(*from));
            out.append(" → ");
            out.append(health_label(*to));
            out.append("\n");
        },
        DeltaChange::ContextGenStatusChanged { from, to } => {
            out.append("  \x1b[35m◉ context-gen\x1b[0m  ");
            out.append(from.as_str());
            out.append(" → ");
            out.append(to.as_str());
            out.append("\n");
        },
        DeltaChange::QAStateChanged { task_id, from, to } => {
            out.append("  \x1b[36m✓ QA/");
            out.append(task_id.as_str());
            out.append("\x1b[0m  ");
            out.append(from.as_str());
            out.append(" → ");
            out.append(to.as_str());
            out.append("\n");
        },
        DeltaChange::NewMerges { count } => {
            out.append("  \x1b[32m✓ ");
            push_decimal(out, *count);
            out.append(" task(s) merged\x1b[0m\n");
        },
        DeltaChange::NewStops { count } => {
            out.append("  \x1b[31m■ ");
            push_decimal(out, *count);
            out.append(" task(s) stopped\x1b[0m\n");
        },
        DeltaChange::PipelineStarted { task_id } => {
            out.append("  \x1b[33m▶ pipeline started\x1b[0m  ");
            out.append(task_id.as_str());
            out.append("\n");
        },
        DeltaChange::PipelineCompleted { task_id } => {
            out.append("  \x1b[32m■ pipeline done\x1b[0m  ");
            out.append(task_id.as_str());
            out.append("\n");
        },
    }
}

/// Renders a report: a header with the tick, then either "(no changes)"
/// or the summary line and one line per change.
pub fn render_delta_report(report: &DeltaReport) -> (res: String)
    ensures
        res@ == report_text(*report),
{
    let mut out = String::from_str("\x1b[35m── Operator Report (tick #");
    push_decimal(&mut out, report.tick_number);
    out.append(") ──\x1b[0m\n");
    if report.changes.len() == 0 {
        out.append("  \x1b[90m(no changes)\x1b[0m\n");
        return out;
    }
    let s = &report.summary;
    out.append("  ");
    push_decimal(&mut out, s.total_changes as u64);
    out.append(" change(s): ");
    push_decimal(&mut out, s.task_changes as u64);
    out.append(" task, ");
    push_decimal(&mut out, s.model_changes as u64);
    out.append(" model, ");
    push_decimal(&mut out, s.qa_changes as u64);
    out.append(" QA");
    if s.new_merges > 0 {
        out.append(", ");
        push_decimal(&mut out, s.new_merges);
        out.append(" merge(s)");
    }
    if s.new_stops > 0 {
        out.append(", ");
        push_decimal(&mut out, s.new_stops);
        out.append(" stop(s)");
    }
    out.append("\n");
    let changes = &report.changes;
    let ghost start = out@;
    let mut i: usize = 0;
    while i < changes.len()
        invariant
            i <= changes@.len(),
            out@ == start + change_lines(change_views(changes@.take(i as int))),
        decreases changes@.len() - i,
    {
        assert(change_views(changes@.take(i + 1)).drop_last() =~= change_views(changes@.take(i as int)));
        assert(change_views(changes@.take(i + 1)).last() == changes@[i as int]@);
        push_change_line(&mut out, &changes[i]);
        i = i + 1;
    }
    assert(changes@.take(changes@.len() as int) =~= changes@);
    out
}

/// Delta reporting across ticks.
#[derive(Debug)]
pub struct DeltaReporter {
    pub policy: SuppressionPolicy,
    pub previous_snapshot: Option<SystemSnapshot>,
    /// When the last report went out, in nanoseconds since the Unix epoch.
    pub last_report_at: Option<i64>,
    pub tick_count: u64,
    pub total_reports_emitted: u64,
    pub total_reports_suppressed: u64,
}

/// The changes from an empty, idle snapshot to `cur`.
pub open spec fn delta_from_empty(cur: SystemSnapshot) -> Seq<ChangeView> {
    task_changes(cur.task_states.entries_spec(), Map::empty())
        + (if "idle"@ != cur.context_gen_status@ {
            seq![ChangeView::ContextGenStatusChanged("idle"@, cur.context_gen_status@)]
        } else {
            Seq::empty()
        })
        + fresh_names(cur.active_pipelines@, Seq::empty()).map_values(|p: Seq<char>| ChangeView::PipelineStarted(p))
        + (if cur.merge_count > 0 { seq![ChangeView::NewMerges(cur.merge_count)] } else { Seq::empty() })
        + (if cur.stop_count > 0 { seq![ChangeView::NewStops(cur.stop_count)] } else { Seq::empty() })
}

proof fn lemma_model_changes_from_empty(e: Seq<(String, ModelHealthState)>)
    ensures
        model_changes(e, Map::empty()) == Seq::<ChangeView>::empty(),
    decreases e.len(),
{
    if e.len() > 0 {
        lemma_model_changes_from_empty(e.drop_last());
    }
}

proof fn lemma_qa_changes_from_empty(e: Seq<(String, String)>)
    ensures
        qa_changes(e, Map::empty()) == Seq::<ChangeView>::empty(),
    decreases e.len(),
{
    if e.len() > 0 {
        lemma_qa_changes_from_empty(e.drop_last());
    }
}

proof fn lemma_fresh_from_nothing(b: Seq<String>)
    ensures
        fresh_names(Seq::<String>::empty(), b) == Seq::<Seq<char>>::empty(),
{
}

/// From an empty, idle snapshot with no counts, every task of `cur` is
/// added and every pipeline started.
pub proof fn lemma_delta_from_empty(empty: SystemSnapshot, cur: SystemSnapshot)
    requires
        empty.task_states@ == Map::<Seq<char>, Seq<char>>::empty(),
        empty.task_states.entries_spec().len() == 0,
        empty.model_health@ == Map::<Seq<char>, ModelHealthState>::empty(),
        empty.qa_states@ == Map::<Seq<char>, Seq<char>>::empty(),
        empty.context_gen_status@ == "idle"@,
        empty.active_pipelines@.len() == 0,
        empty.merge_count == 0,
        empty.stop_count == 0,
    ensures
        delta_of(empty, cur) == delta_from_empty(cur),
{
    lemma_model_changes_from_empty(cur.model_health.entries_spec());
    lemma_qa_changes_from_empty(cur.qa_states.entries_spec());
    assert(empty.active_pipelines@ =~= Seq::<String>::empty());
    assert(empty.task_states.entries_spec() =~= Seq::<(String, String)>::empty());
    lemma_fresh_from_nothing(cur.active_pipelines@);
    let e: Seq<ChangeView> = Seq::empty();
    assert(removed_tasks(empty.task_states.entries_spec(), cur.task_states@) == e);
    assert(fresh_names(empty.active_pipelines@, cur.active_pipelines@).map_values(|p: Seq<char>| ChangeView::PipelineCompleted(p)) =~= e);
    assert(delta_of(empty, cur) =~= delta_from_empty(cur));
}

/// What a tick reports, when it reports: against the previous snapshot,
/// or on the first tick against an empty one.
pub open spec fn tick_changes(prev: Option<SystemSnapshot>, snapshot: SystemSnapshot, policy: SuppressionPolicy) -> Seq<ChangeView> {
    match prev {
        Some(p) => suppressed_view(delta_of(p, snapshot), policy),
        None => suppressed_view(delta_from_empty(snapshot), policy),
    }
}

/// Whether a tick emits its report: by the emit rule against a previous
/// snapshot, and on the first tick exactly when there are tasks.
pub open spec fn tick_emits(r: DeltaReporter, snapshot: SystemSnapshot, now: i64) -> bool {
    match r.previous_snapshot {
        Some(p) => emit_decision(r.last_report_at, now, r.policy, suppressed_view(delta_of(p, snapshot), r.policy)),
        None => snapshot.task_states@.len() > 0,
    }
}

impl DeltaReporter {
    /// A reporter with `policy` and nothing seen.
    pub fn new(policy: SuppressionPolicy) -> (res: Self)
        ensures
            res.policy == policy,
            res.previous_snapshot is None,
            res.last_report_at is None,
            res.tick_count == 0,
            res.total_reports_emitted == 0,
            res.total_reports_suppressed == 0,
    {
        DeltaReporter {
            policy,
            previous_snapshot: None,
            last_report_at: None,
            tick_count: 0,
            total_reports_emitted: 0,
            total_reports_suppressed: 0,
        }
    }

    /// Takes the snapshot of a new tick at `now` (nanoseconds since the Unix
    /// epoch) and returns the report, if one goes out. The snapshot becomes
    /// the previous one.
    pub fn process_tick(&mut self, snapshot: SystemSnapshot, now: i64) -> (res: Option<DeltaReport>)
        requires
            old(self).tick_count < u64::MAX,
            old(self).total_reports_emitted < u64::MAX,
            old(self).total_reports_suppressed < u64::MAX,
        ensures
            final(self).tick_count == old(self).tick_count + 1,
            final(self).policy == old(self).policy,
            final(self).previous_snapshot == Some(snapshot),
            res is Some <==> tick_emits(*old(self), snapshot, now),
            match res {
                Some(r) => {
                    &&& change_views(r.changes@) == tick_changes(old(self).previous_snapshot, snapshot, old(self).policy)
                    &&& r.summary == summary_of(change_views(r.changes@))
                    &&& r.tick_number == final(self).tick_count
                    &&& r.generated_at == now
                    &&& final(self).last_report_at == Some(now)
                    &&& final(self).total_reports_emitted == old(self).total_reports_emitted + 1
                    &&& final(self).total_reports_suppressed == old(self).total_reports_suppressed
                },
                None => {
                    &&& final(self).last_report_at == old(self).last_report_at
                    &&& final(self).total_reports_emitted == old(self).total_reports_emitted
                    &&& final(self).total_reports_suppressed == old(self).total_reports_suppressed + 1
                },
            },
    {
        self.tick_count = self.tick_count + 1;
        let report = match &self.previous_snapshot {
            Some(prev) => {
                let report = build_delta_report(prev, &snapshot, self.tick_count, &self.policy, now);
                if should_emit(self.last_report_at, now, &self.policy, report.changes.as_slice()) {
                    self.last_report_at = Some(now);
                    self.total_reports_emitted = self.total_reports_emitted + 1;
                    Some(report)
                } else {
                    self.total_reports_suppressed = self.total_reports_suppressed + 1;
                    None
                }
            },
            None => {
                if !snapshot.task_states.is_empty() {
                    let empty = SystemSnapshot::empty(now);
                    proof {
                        lemma_delta_from_empty(empty, snapshot);
                    }
                    let report = build_delta_report(&empty, &snapshot, self.tick_count, &self.policy, now);
                    self.last_report_at = Some(now);
                    self.total_reports_emitted = self.total_reports_emitted + 1;
                    Some(report)
                } else {
                    self.total_reports_suppressed = self.total_reports_suppressed + 1;
                    None
                }
            },
        };
        self.previous_snapshot = Some(snapshot);
        report
    }
}

proof fn lemma_task_changes_none(e: Seq<(String, String)>, m: Map<Seq<char>, Seq<char>>)
    requires
        forall|i: int| 0 <= i < e.len() ==> m.contains_key(#[trigger] e[i].0@) && m[e[i].0@] == e[i].1@,
    ensures
        task_changes(e, m) == Seq::<ChangeView>::empty(),
    decreases e.len(),
{
    if e.len() > 0 {
        let d = e.drop_last();
        assert forall|i: int| 0 <= i < d.len() implies m.contains_key(#[trigger] d[i].0@) && m[d[i].0@] == d[i].1@ by {
            assert(d[i] == e[i]);
        }
        lemma_task_changes_none(d, m);
        assert(m.contains_key(e[e.len() - 1].0@));
    }
}

proof fn lemma_removed_none(e: Seq<(String, String)>, m: Map<Seq<char>, Seq<char>>)
    requires
        forall|i: int| 0 <= i < e.len() ==> m.contains_key(#[trigger] e[i].0@),
    ensures
        removed_tasks(e, m) == Seq::<ChangeView>::empty(),
    decreases e.len(),
{
    if e.len() > 0 {
        let d = e.drop_last();
        assert forall|i: int| 0 <= i < d.len() implies m.contains_key(#[trigger] d[i].0@) by {
            assert(d[i] == e[i]);
        }
        lemma_removed_none(d, m);
        assert(m.contains_key(e[e.len() - 1].0@));
    }
}

proof fn lemma_model_none(e: Seq<(String, ModelHealthState)>, m: Map<Seq<char>, ModelHealthState>)
    requires
        forall|i: int| 0 <= i < e.len() ==> m.contains_key(#[trigger] e[i].0@) && m[e[i].0@] == e[i].1@,
    ensures
        model_changes(e, m) == Seq::<ChangeView>::empty(),
    decreases e.len(),
{
    if e.len() > 0 {
        let d = e.drop_last();
        assert forall|i: int| 0 <= i < d.len() implies m.contains_key(#[trigger] d[i].0@) && m[d[i].0@] == d[i].1@ by {
            assert(d[i] == e[i]);
        }
        lemma_model_none(d, m);
        assert(m.contains_key(e[e.len() - 1].0@));
    }
}

proof fn lemma_qa_none(e: Seq<(String, String)>, m: Map<Seq<char>, Seq<char>>)
    requires
        forall|i: int| 0 <= i < e.len() ==> m.contains_key(#[trigger] e[i].0@) && m[e[i].0@] == e[i].1@,
    ensures
        qa_changes(e, m) == Seq::<ChangeView>::empty(),
    decreases e.len(),
{
    if e.len() > 0 {
        let d = e.drop_last();
        assert forall|i: int| 0 <= i < d.len() implies m.contains_key(#[trigger] d[i].0@) && m[d[i].0@] == d[i].1@ by {
            assert(d[i] == e[i]);
        }
        lemma_qa_none(d, m);
        assert(m.contains_key(e[e.len() - 1].0@));
    }
}

proof fn lemma_fresh_none(a: Seq<String>, b: Seq<String>)
    requires
        forall|i: int| 0 <= i < a.len() ==> string_views(b).contains(#[trigger] a[i]@),
    ensures
        fresh_names(a, b) == Seq::<Seq<char>>::empty(),
    decreases a.len(),
{
    if a.len() > 0 {
        let d = a.drop_last();
        assert forall|i: int| 0 <= i < d.len() implies string_views(b).contains(#[trigger] d[i]@) by {
            assert(d[i] == a[i]);
        }
        lemma_fresh_none(d, b);
        assert(string_views(b).contains(a[a.len() - 1]@));
    }
}

/// A snapshot compared with itself shows no change.
pub proof fn lemma_no_change_without_change(s: SystemSnapshot)
    requires
        keys_distinct(s.task_states.entries_spec()),
        keys_distinct(s.model_health.entries_spec()),
        keys_distinct(s.qa_states.entries_spec()),
    ensures
        delta_of(s, s) == Seq::<ChangeView>::empty(),
{
    let te = s.task_states.entries_spec();
    let me = s.model_health.entries_spec();
    let qe = s.qa_states.entries_spec();
    s.task_states.lemma_entries_view();
    s.model_health.lemma_entries_view();
    s.qa_states.lemma_entries_view();
    crate::str_map::lemma_entries_map(te);
    crate::str_map::lemma_entries_map(me);
    crate::str_map::lemma_entries_map(qe);
    assert forall|i: int| 0 <= i < te.len() implies s.task_states@.contains_key(#[trigger] te[i].0@) && s.task_states@[te[i].0@] == te[i].1@ by {}
    assert forall|i: int| 0 <= i < me.len() implies s.model_health@.contains_key(#[trigger] me[i].0@) && s.model_health@[me[i].0@] == me[i].1@ by {}
    assert forall|i: int| 0 <= i < qe.len() implies s.qa_states@.contains_key(#[trigger] qe[i].0@) && s.qa_states@[qe[i].0@] == qe[i].1@ by {}
    lemma_task_changes_none(te, s.task_states@);
    lemma_removed_none(te, s.task_states@);
    lemma_model_none(me, s.model_health@);
    lemma_qa_none(qe, s.qa_states@);
    let p = s.active_pipelines@;
    assert forall|i: int| 0 <= i < p.len() implies string_views(p).contains(#[trigger] p[i]@) by {
        assert(string_views(p)[i] == p[i]@);
    }
    lemma_fresh_none(p, p);
    assert(delta_of(s, s) =~= Seq::<ChangeView>::empty());
}


/// The kind of a change, numbered in the order the report groups them.
pub open spec fn kind_of(x: ChangeView) -> int {
    match x {
        ChangeView::TaskStateChanged(..) => 0,
        ChangeView::TaskAdded(..) => 1,
        ChangeView::TaskRemoved(..) => 2,
        ChangeView::ModelHealthChanged(..) => 3,
        ChangeView::ContextGenStatusChanged(..) => 4,
        ChangeView::QAStateChanged(..) => 5,
        ChangeView::PipelineStarted(..) => 6,
        ChangeView::PipelineCompleted(..) => 7,
        ChangeView::NewMerges(..) => 8,
        ChangeView::NewStops(..) => 9,
    }
}

/// Whether `s` holds no change of kind `k`.
pub open spec fn lacks_kind(s: Seq<ChangeView>, k: int) -> bool {
    forall|i: int| 0 <= i < s.len() ==> kind_of(#[trigger] s[i]) != k
}

proof fn lemma_contains_add(a: Seq<ChangeView>, b: Seq<ChangeView>, x: ChangeView)
    ensures
        (a + b).contains(x) == (a.contains(x) || b.contains(x)),
{
    if (a + b).contains(x) {
        let i = choose|i: int| 0 <= i < (a + b).len() && (a + b)[i] == x;
        if i >= a.len() {
            assert(b[i - a.len()] == x);
        }
    }
    if a.contains(x) {
        let i = choose|i: int| 0 <= i < a.len() && a[i] == x;
        assert((a + b)[i] == x);
    }
    if b.contains(x) {
        let i = choose|i: int| 0 <= i < b.len() && b[i] == x;
        assert((a + b)[a.len() + i] == x);
    }
}

proof fn lemma_lacks_not_contains(s: Seq<ChangeView>, x: ChangeView)
    requires
        lacks_kind(s, kind_of(x)),
    ensures
        !s.contains(x),
{
    if s.contains(x) {
        let i = choose|i: int| 0 <= i < s.len() && s[i] == x;
        assert(kind_of(s[i]) != kind_of(x));
    }
}

proof fn lemma_task_changes_members(cur: Seq<(String, String)>, prev: Map<Seq<char>, Seq<char>>, x: ChangeView)
    ensures
        lacks_kind(task_changes(cur, prev), 2) && lacks_kind(task_changes(cur, prev), 3)
            && lacks_kind(task_changes(cur, prev), 4) && lacks_kind(task_changes(cur, prev), 5)
            && lacks_kind(task_changes(cur, prev), 6) && lacks_kind(task_changes(cur, prev), 7)
            && lacks_kind(task_changes(cur, prev), 8) && lacks_kind(task_changes(cur, prev), 9),
        x matches ChangeView::TaskAdded(k, v) ==> (task_changes(cur, prev).contains(x)
            <==> exists|i: int| 0 <= i < cur.len() && #[trigger] cur[i].0@ == k && cur[i].1@ == v && !prev.contains_key(k)),
        x matches ChangeView::TaskStateChanged(k, a, b) ==> (task_changes(cur, prev).contains(x)
            <==> exists|i: int| 0 <= i < cur.len() && #[trigger] cur[i].0@ == k && cur[i].1@ == b && prev.contains_key(k) && prev[k] == a && a != b),
    decreases cur.len(),
{
    if cur.len() > 0 {
        let d = cur.drop_last();
        lemma_task_changes_members(d, prev, x);
        let rest = task_changes(d, prev);
        let k0 = cur.last().0@;
        let v0 = cur.last().1@;
        let y = if prev.contains_key(k0) { ChangeView::TaskStateChanged(k0, prev[k0], v0) } else { ChangeView::TaskAdded(k0, v0) };
        let pushes = !prev.contains_key(k0) || prev[k0] != v0;
        let t = task_changes(cur, prev);
        assert(t == if pushes { rest.push(y) } else { rest });
        if pushes {
            lemma_contains_add(rest, seq![y], x);
            assert(rest.push(y) == rest + seq![y]);
            assert(seq![y].contains(x) == (y == x)) by {
                if y == x { assert(seq![y][0] == x); }
            }
        }
        assert forall|i: int| 0 <= i < d.len() implies d[i] == #[trigger] cur[i] by {}
        assert(cur[cur.len() - 1] == cur.last());
        match x {
            ChangeView::TaskAdded(k, v) => {
                if exists|i: int| 0 <= i < cur.len() && #[trigger] cur[i].0@ == k && cur[i].1@ == v && !prev.contains_key(k) {
                    let i = choose|i: int| 0 <= i < cur.len() && #[trigger] cur[i].0@ == k && cur[i].1@ == v && !prev.contains_key(k);
                    if i < d.len() {
                        assert(d[i] == cur[i]);
                    }
                }
            },
            _ => {},
        }
        match x {
            ChangeView::TaskStateChanged(k, a, b) => {
                if exists|i: int| 0 <= i < cur.len() && #[trigger] cur[i].0@ == k && cur[i].1@ == b && prev.contains_key(k) && prev[k] == a && a != b {
                    let i = choose|i: int| 0 <= i < cur.len() && #[trigger] cur[i].0@ == k && cur[i].1@ == b && prev.contains_key(k) && prev[k] == a && a != b;
                    if i < d.len() {
                        assert(d[i] == cur[i]);
                    }
                }
            },
            _ => {},
        }
    }
}

proof fn lemma_removed_members(prev: Seq<(String, String)>, cur: Map<Seq<char>, Seq<char>>, x: ChangeView)
    ensures
        forall|i: int| 0 <= i < removed_tasks(prev, cur).len() ==> kind_of(#[trigger] removed_tasks(prev, cur)[i]) == 2,
        x matches ChangeView::TaskRemoved(k, v) ==> (removed_tasks(prev, cur).contains(x)
            <==> exists|i: int| 0 <= i < prev.len() && #[trigger] prev[i].0@ == k && prev[i].1@ == v && !cur.contains_key(k)),
    decreases prev.len(),
{
    if prev.len() > 0 {
        let d = prev.drop_last();
        lemma_removed_members(d, cur, x);
        let rest = removed_tasks(d, cur);
        let k0 = prev.last().0@;
        let y = ChangeView::TaskRemoved(k0, prev.last().1@);
        assert forall|i: int| 0 <= i < removed_tasks(prev, cur).len() implies kind_of(#[trigger] removed_tasks(prev, cur)[i]) == 2 by {
            if i < rest.len() {
                assert(removed_tasks(prev, cur)[i] == rest[i]);
            }
        }
        if !cur.contains_key(k0) {
            lemma_contains_add(rest, seq![y], x);
            assert(rest.push(y) == rest + seq![y]);
            assert(seq![y].contains(x) == (y == x)) by {
                if y == x { assert(seq![y][0] == x); }
            }
        }
        assert forall|i: int| 0 <= i < d.len() implies d[i] == #[trigger] prev[i] by {}
        assert(prev[prev.len() - 1] == prev.last());
        match x {
            ChangeView::TaskRemoved(k, v) => {
                if exists|i: int| 0 <= i < prev.len() && #[trigger] prev[i].0@ == k && prev[i].1@ == v && !cur.contains_key(k) {
                    let i = choose|i: int| 0 <= i < prev.len() && #[trigger] prev[i].0@ == k && prev[i].1@ == v && !cur.contains_key(k);
                    if i < d.len() {
                        assert(d[i] == prev[i]);
                    }
                }
            },
            _ => {},
        }
    }
}

proof fn lemma_model_kinds(cur: Seq<(String, ModelHealthState)>, prev: Map<Seq<char>, ModelHealthState>)
    ensures
        forall|i: int| 0 <= i < model_changes(cur, prev).len() ==> kind_of(#[trigger] model_changes(cur, prev)[i]) == 3,
    decreases cur.len(),
{
    if cur.len() > 0 {
        lemma_model_kinds(cur.drop_last(), prev);
        let rest = model_changes(cur.drop_last(), prev);
        assert forall|i: int| 0 <= i < model_changes(cur, prev).len() implies kind_of(#[trigger] model_changes(cur, prev)[i]) == 3 by {
            if i < rest.len() {
                assert(model_changes(cur, prev)[i] == rest[i]);
            }
        }
    }
}

proof fn lemma_qa_kinds(cur: Seq<(String, String)>, prev: Map<Seq<char>, Seq<char>>)
    ensures
        forall|i: int| 0 <= i < qa_changes(cur, prev).len() ==> kind_of(#[trigger] qa_changes(cur, prev)[i]) == 5,
    decreases cur.len(),
{
    if cur.len() > 0 {
        lemma_qa_kinds(cur.drop_last(), prev);
        let rest = qa_changes(cur.drop_last(), prev);
        assert forall|i: int| 0 <= i < qa_changes(cur, prev).len() implies kind_of(#[trigger] qa_changes(cur, prev)[i]) == 5 by {
            if i < rest.len() {
                assert(qa_changes(cur, prev)[i] == rest[i]);
            }
        }
    }
}

/// The task changes of a report are exactly the differences of the two
/// task maps: a task is reported added with state `s` just when the
/// current map holds it at `s` and the previous one does not; removed with
/// last state `s` just when the previous map holds it at `s` and the
/// current one does not; changed from `a` to `b` just when the maps hold
/// it at `a` before and `b` now, with `a != b`. New merges of `n` are
/// reported just when `n` is the rise of the merge count and positive.
pub proof fn lemma_delta_task_changes(prev: SystemSnapshot, cur: SystemSnapshot, x: ChangeView)
    requires
        keys_distinct(prev.task_states.entries_spec()),
        keys_distinct(cur.task_states.entries_spec()),
    ensures
        x matches ChangeView::TaskAdded(k, v) ==> (delta_of(prev, cur).contains(x)
            <==> cur.task_states@.contains_key(k) && cur.task_states@[k] == v && !prev.task_states@.contains_key(k)),
        x matches ChangeView::TaskRemoved(k, v) ==> (delta_of(prev, cur).contains(x)
            <==> prev.task_states@.contains_key(k) && prev.task_states@[k] == v && !cur.task_states@.contains_key(k)),
        x matches ChangeView::TaskStateChanged(k, a, b) ==> (delta_of(prev, cur).contains(x)
            <==> prev.task_states@.contains_key(k) && cur.task_states@.contains_key(k)
                && prev.task_states@[k] == a && cur.task_states@[k] == b && a != b),
        x matches ChangeView::NewMerges(n) ==> (delta_of(prev, cur).contains(x)
            <==> cur.merge_count > prev.merge_count && n == cur.merge_count - prev.merge_count),
{
    let te = cur.task_states.entries_spec();
    let pe = prev.task_states.entries_spec();
    cur.task_states.lemma_entries_view();
    prev.task_states.lemma_entries_view();
    crate::str_map::lemma_entries_map(te);
    crate::str_map::lemma_entries_map(pe);
    let s1 = task_changes(te, prev.task_states@);
    let s2 = removed_tasks(pe, cur.task_states@);
    let s3 = model_changes(cur.model_health.entries_spec(), prev.model_health@);
    let s4 = if prev.context_gen_status@ != cur.context_gen_status@ {
        seq![ChangeView::ContextGenStatusChanged(prev.context_gen_status@, cur.context_gen_status@)]
    } else {
        Seq::empty()
    };
    let s5 = qa_changes(cur.qa_states.entries_spec(), prev.qa_states@);
    let s6 = fresh_names(cur.active_pipelines@, prev.active_pipelines@).map_values(|p: Seq<char>| ChangeView::PipelineStarted(p));
    let s7 = fresh_names(prev.active_pipelines@, cur.active_pipelines@).map_values(|p: Seq<char>| ChangeView::PipelineCompleted(p));
    let s8 = if cur.merge_count > prev.merge_count {
        seq![ChangeView::NewMerges((cur.merge_count - prev.merge_count) as u64)]
    } else {
        Seq::empty()
    };
    let s9 = if cur.stop_count > prev.stop_count {
        seq![ChangeView::NewStops((cur.stop_count - prev.stop_count) as u64)]
    } else {
        Seq::empty()
    };
    assert(delta_of(prev, cur) == s1 + s2 + s3 + s4 + s5 + s6 + s7 + s8 + s9);
    lemma_task_changes_members(te, prev.task_states@, x);
    lemma_removed_members(pe, cur.task_states@, x);
    lemma_model_kinds(cur.model_health.entries_spec(), prev.model_health@);
    lemma_qa_kinds(cur.qa_states.entries_spec(), prev.qa_states@);
    let kx = kind_of(x);
    assert(kx != 2 ==> lacks_kind(s2, kx));
    assert(kx != 3 ==> lacks_kind(s3, kx));
    assert(kx != 5 ==> lacks_kind(s5, kx));
    assert(forall|k: int| k != 4 ==> lacks_kind(s4, k));
    assert(forall|k: int| k != 6 ==> lacks_kind(s6, k));
    assert(forall|k: int| k != 7 ==> lacks_kind(s7, k));
    assert(forall|k: int| k != 8 ==> lacks_kind(s8, k));
    assert(forall|k: int| k != 9 ==> lacks_kind(s9, k));
    lemma_contains_add(s1, s2, x);
    lemma_contains_add(s1 + s2, s3, x);
    lemma_contains_add(s1 + s2 + s3, s4, x);
    lemma_contains_add(s1 + s2 + s3 + s4, s5, x);
    lemma_contains_add(s1 + s2 + s3 + s4 + s5, s6, x);
    lemma_contains_add(s1 + s2 + s3 + s4 + s5 + s6, s7, x);
    lemma_contains_add(s1 + s2 + s3 + s4 + s5 + s6 + s7, s8, x);
    lemma_contains_add(s1 + s2 + s3 + s4 + s5 + s6 + s7 + s8, s9, x);
    if kx != 0 && kx != 1 { lemma_lacks_not_contains(s1, x); }
    if kx != 2 { lemma_lacks_not_contains(s2, x); }
    if kx != 3 { lemma_lacks_not_contains(s3, x); }
    if kx != 4 { lemma_lacks_not_contains(s4, x); }
    if kx != 5 { lemma_lacks_not_contains(s5, x); }
    if kx != 6 { lemma_lacks_not_contains(s6, x); }
    if kx != 7 { lemma_lacks_not_contains(s7, x); }
    if kx != 8 { lemma_lacks_not_contains(s8, x); }
    if kx != 9 { lemma_lacks_not_contains(s9, x); }
    match x {
        ChangeView::NewMerges(n) => {
            if s8.contains(x) {
                assert(s8[0] == x);
            }
            if cur.merge_count > prev.merge_count && n == cur.merge_count - prev.merge_count {
                assert(s8[0] == x);
            }
        },
        _ => {},
    }
    match x {
        ChangeView::TaskAdded(k, v) => {
            if cur.task_states@.contains_key(k) && cur.task_states@[k] == v {
                let i = choose|i: int| 0 <= i < te.len() && te[i].0@ == k;
                assert(te[i].0@ == k && te[i].1@ == v);
            }
        },
        _ => {},
    }
    match x {
        ChangeView::TaskStateChanged(k, a, b) => {
            if cur.task_states@.contains_key(k) && cur.task_states@[k] == b {
                let i = choose|i: int| 0 <= i < te.len() && te[i].0@ == k;
                assert(te[i].0@ == k && te[i].1@ == b);
            }
        },
        _ => {},
    }
    match x {
        ChangeView::TaskRemoved(k, v) => {
            if prev.task_states@.contains_key(k) && prev.task_states@[k] == v {
                let i = choose|i: int| 0 <= i < pe.len() && pe[i].0@ == k;
                assert(pe[i].0@ == k && pe[i].1@ == v);
            }
        },
        _ => {},
    }
}

} // verus!
