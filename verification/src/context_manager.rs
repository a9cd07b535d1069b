//! Rich context for agents: the focus, blockers, assumptions, decisions and
//! error patterns of a repository, the history of a task's attempts, and the
//! context built from them and rendered into a prompt. Times are nanoseconds
//! since the Unix epoch.

use vstd::prelude::*;
use crate::str_map::KeyMap;
use crate::text::{
    ascii_lower_seq, byte_prefix, byte_prefix_len, chars_of, contains, decimal, join, join_path, join_strings, push_decimal,
    str_contains, string_of_range, to_ascii_lowercase, utf8_len, utf8_len_capped,
};

verus! {

/// How badly a blocker holds work up.
#[derive(Debug, Clone, Copy, PartialEq, Eq, Structural)]
pub enum BlockerSeverity {
    Low,
    Medium,
    High,
    Critical,
}

/// Something preventing progress.
#[derive(Debug)]
pub struct Blocker {
    pub id: String,
    pub description: String,
    pub severity: BlockerSeverity,
    pub created_at: i64,
    pub resolved_at: Option<i64>,
}

/// A decision made while working on a task.
#[derive(Debug)]
pub struct Decision {
    pub description: String,
    pub reasoning: String,
    pub task_id: Option<String>,
    pub made_at: i64,
}

/// An error seen across tasks, how often, and how it was resolved.
#[derive(Debug)]
pub struct ErrorPattern {
    pub pattern: String,
    pub count: u32,
    pub last_seen: i64,
    pub resolution: Option<String>,
}

/// The context kept for a repository.
#[derive(Debug)]
pub struct ContextState {
    pub current_focus: Option<String>,
    pub blockers: Vec<Blocker>,
    pub assumptions: Vec<String>,
    pub decisions: Vec<Decision>,
    pub error_patterns: Vec<ErrorPattern>,
    pub updated_at: Option<i64>,
}

/// The view of an optional string.
pub open spec fn opt_str(o: Option<String>) -> Option<Seq<char>> {
    match o {
        Some(s) => Some(s@),
        None => None,
    }
}

/// An error pattern as plain values: pattern, count, last seen, resolution.
pub type PatternView = (Seq<char>, u32, i64, Option<Seq<char>>);

/// The view of an error pattern.
pub open spec fn pattern_view(p: ErrorPattern) -> PatternView {
    (p.pattern@, p.count, p.last_seen, opt_str(p.resolution))
}

/// The views of a list of error patterns.
pub open spec fn pattern_views(ps: Seq<ErrorPattern>) -> Seq<PatternView> {
    ps.map_values(|p: ErrorPattern| pattern_view(p))
}

/// The index of the first pattern equal to `pat` from `i` on; -1 without one.
pub open spec fn pattern_pos(ps: Seq<PatternView>, pat: Seq<char>, i: int) -> int
    decreases ps.len() - i,
{
    if i < 0 || i >= ps.len() {
        -1
    } else if ps[i].0 == pat {
        i
    } else {
        pattern_pos(ps, pat, i + 1)
    }
}

proof fn lemma_pattern_pos(ps: Seq<PatternView>, pat: Seq<char>, i: int)
    requires
        0 <= i <= ps.len(),
    ensures
        pattern_pos(ps, pat, i) == -1 || (i <= pattern_pos(ps, pat, i) < ps.len() && ps[pattern_pos(ps, pat, i)].0 == pat),
    decreases ps.len() - i,
{
    if i < ps.len() {
        lemma_pattern_pos(ps, pat, i + 1);
    }
}

/// The patterns after an occurrence of `pat` at `now`: a known pattern is
/// counted again, a new one is added with count 1.
pub open spec fn patterns_after_error(ps: Seq<PatternView>, pat: Seq<char>, now: i64) -> Seq<PatternView> {
    let p = pattern_pos(ps, pat, 0);
    if p >= 0 {
        ps.update(p, (ps[p].0, (ps[p].1 + 1) as u32, now, ps[p].3))
    } else {
        ps.push((pat, 1, now, None))
    }
}

/// The patterns after `pat` was resolved by `resolution`.
pub open spec fn patterns_after_resolution(ps: Seq<PatternView>, pat: Seq<char>, resolution: Seq<char>) -> Seq<PatternView> {
    let p = pattern_pos(ps, pat, 0);
    if p >= 0 {
        ps.update(p, (ps[p].0, ps[p].1, ps[p].2, Some(resolution)))
    } else {
        ps
    }
}

/// No pattern text is recorded twice.
pub open spec fn patterns_distinct(ps: Seq<PatternView>) -> bool {
    forall|i: int, j: int| 0 <= i < j < ps.len() ==> #[trigger] ps[i].0 != #[trigger] ps[j].0
}

/// Recording errors keeps each pattern text in one entry.
pub proof fn lemma_error_patterns_stay_distinct(ps: Seq<PatternView>, pat: Seq<char>, now: i64)
    requires
        patterns_distinct(ps),
    ensures
        patterns_distinct(patterns_after_error(ps, pat, now)),
{
    lemma_pattern_pos(ps, pat, 0);
    let qs = patterns_after_error(ps, pat, now);
    let p = pattern_pos(ps, pat, 0);
    if p < 0 {
        assert forall|i: int| 0 <= i < ps.len() implies ps[i].0 != pat by {
            lemma_pattern_pos_absent(ps, pat, 0, i);
        }
        assert forall|i: int, j: int| 0 <= i < j < qs.len() implies #[trigger] qs[i].0 != #[trigger] qs[j].0 by {
            if j == ps.len() {
                assert(qs[i] == ps[i]);
            } else {
                assert(qs[i] == ps[i] && qs[j] == ps[j]);
            }
        }
    } else {
        assert forall|i: int, j: int| 0 <= i < j < qs.len() implies #[trigger] qs[i].0 != #[trigger] qs[j].0 by {
            assert(qs[i].0 == ps[i].0 && qs[j].0 == ps[j].0);
        }
    }
}

proof fn lemma_pattern_pos_absent(ps: Seq<PatternView>, pat: Seq<char>, i: int, k: int)
    requires
        0 <= i <= k < ps.len(),
        pattern_pos(ps, pat, i) == -1,
    ensures
        ps[k].0 != pat,
    decreases k - i,
{
    if i < k {
        lemma_pattern_pos_absent(ps, pat, i + 1, k);
    }
}

/// The unresolved blockers, in order.
pub open spec fn active_of(bs: Seq<Blocker>) -> Seq<Blocker>
    decreases bs.len(),
{
    if bs.len() == 0 {
        seq![]
    } else {
        let rest = active_of(bs.drop_last());
        if bs.last().resolved_at is None { rest.push(bs.last()) } else { rest }
    }
}

fn copy_opt(o: &Option<String>) -> (res: Option<String>)
    ensures
        opt_str(res) == opt_str(*o),
{
    match o {
        Some(s) => Some(s.clone()),
        None => None,
    }
}

impl Default for ContextState {
    /// No focus, no blockers, assumptions, decisions or patterns.
    fn default() -> (res: Self)
        ensures
            res.current_focus is None,
            res.blockers@.len() == 0,
            res.assumptions@.len() == 0,
            res.decisions@.len() == 0,
            res.error_patterns@.len() == 0,
            res.updated_at is None,
    {
        ContextState {
            current_focus: None,
            blockers: Vec::new(),
            assumptions: Vec::new(),
            decisions: Vec::new(),
            error_patterns: Vec::new(),
            updated_at: None,
        }
    }
}

impl ContextState {
    /// The unresolved blockers, in order.
    pub fn active_blockers(&self) -> (res: Vec<&Blocker>)
        ensures
            res@.len() == active_of(self.blockers@).len(),
            forall|i: int| 0 <= i < res@.len() ==> *res@[i] == active_of(self.blockers@)[i],
    {
        let ghost bs = self.blockers@;
        let mut out: Vec<&Blocker> = Vec::new();
        let mut i: usize = 0;
        while i < self.blockers.len()
            invariant
                bs == self.blockers@,
                i <= bs.len(),
                out@.len() == active_of(bs.take(i as int)).len(),
                forall|j: int| 0 <= j < out@.len() ==> *out@[j] == active_of(bs.take(i as int))[j],
            decreases bs.len() - i,
        {
            assert(bs.take(i + 1).drop_last() =~= bs.take(i as int));
            let b = &self.blockers[i];
            if b.resolved_at.is_none() {
                out.push(b);
            }
            i = i + 1;
        }
        assert(bs.take(bs.len() as int) =~= bs);
        out
    }

    /// Records an occurrence of an error `pattern` at `now`.
    pub fn record_error(&mut self, pattern: &str, now: i64)
        requires
            pattern_pos(pattern_views(old(self).error_patterns@), pattern@, 0) >= 0 ==>
                pattern_views(old(self).error_patterns@)[pattern_pos(pattern_views(old(self).error_patterns@), pattern@, 0)].1 < u32::MAX,
        ensures
            pattern_views(final(self).error_patterns@) == patterns_after_error(pattern_views(old(self).error_patterns@), pattern@, now),
            final(self).updated_at == Some(now),
            final(self).current_focus == old(self).current_focus,
            final(self).blockers@ == old(self).blockers@,
            final(self).assumptions@ == old(self).assumptions@,
            final(self).decisions@ == old(self).decisions@,
    {
        let ghost ps = pattern_views(self.error_patterns@);
        match self.find_pattern(pattern) {
            Some(i) => {
                let p = &self.error_patterns[i];
                assert(pattern_view(*p) == ps[i as int]);
                let updated = ErrorPattern {
                    pattern: p.pattern.clone(),
                    count: p.count + 1,
                    last_seen: now,
                    resolution: copy_opt(&p.resolution),
                };
                self.error_patterns.set(i, updated);
                assert(pattern_views(self.error_patterns@) =~= patterns_after_error(ps, pattern@, now));
            },
            None => {
                self.error_patterns.push(ErrorPattern {
                    pattern: String::from_str(pattern),
                    count: 1,
                    last_seen: now,
                    resolution: None,
                });
                assert(pattern_views(self.error_patterns@) =~= patterns_after_error(ps, pattern@, now));
            },
        }
        self.updated_at = Some(now);
    }

    /// Records how an error `pattern` was resolved, at `now`; an unknown
    /// pattern is left alone.
    pub fn record_resolution(&mut self, pattern: &str, resolution: &str, now: i64)
        ensures
            pattern_views(final(self).error_patterns@) == patterns_after_resolution(pattern_views(old(self).error_patterns@), pattern@, resolution@),
            final(self).updated_at == Some(now),
            final(self).current_focus == old(self).current_focus,
            final(self).blockers@ == old(self).blockers@,
            final(self).assumptions@ == old(self).assumptions@,
            final(self).decisions@ == old(self).decisions@,
    {
        let ghost ps = pattern_views(self.error_patterns@);
        if let Some(i) = self.find_pattern(pattern) {
            let p = &self.error_patterns[i];
            assert(pattern_view(*p) == ps[i as int]);
            let updated = ErrorPattern {
                pattern: p.pattern.clone(),
                count: p.count,
                last_seen: p.last_seen,
                resolution: Some(String::from_str(resolution)),
            };
            self.error_patterns.set(i, updated);
        }
        assert(pattern_views(self.error_patterns@) =~= patterns_after_resolution(ps, pattern@, resolution@));
        self.updated_at = Some(now);
    }

    fn find_pattern(&self, pattern: &str) -> (res: Option<usize>)
        ensures
            match res {
                Some(i) => i as int == pattern_pos(pattern_views(self.error_patterns@), pattern@, 0) && i < self.error_patterns@.len(),
                None => pattern_pos(pattern_views(self.error_patterns@), pattern@, 0) == -1,
            },
    {
        let ghost ps = pattern_views(self.error_patterns@);
        proof {
            lemma_pattern_pos(ps, pattern@, 0);
        }
        let mut i: usize = 0;
        while i < self.error_patterns.len()
            invariant
                ps == pattern_views(self.error_patterns@),
                i <= ps.len(),
                pattern_pos(ps, pattern@, 0) == pattern_pos(ps, pattern@, i as int),
            decreases ps.len() - i,
        {
            assert(ps[i as int].0 == self.error_patterns@[i as int].pattern@);
            if crate::text::str_eq(self.error_patterns[i].pattern.as_str(), pattern) {
                return Some(i);
            }
            i = i + 1;
        }
        None
    }
}


/// How an attempt at a task ended.
#[derive(Debug, Clone, Copy, PartialEq, Eq, Structural)]
pub enum AttemptOutcome {
    Success,
    Failed,
    NeedsHuman,
    Timeout,
    InProgress,
}

/// One attempt at a task.
#[derive(Debug)]
pub struct AttemptRecord {
    pub attempt_number: u32,
    pub model: String,
    pub started_at: i64,
    pub ended_at: Option<i64>,
    pub outcome: AttemptOutcome,
    pub failure_reason: Option<String>,
    pub changes_made: Vec<String>,
}

/// The attempts at a task and its place among other tasks.
#[derive(Debug)]
pub struct TaskLineage {
    pub task_id: String,
    pub attempts: Vec<AttemptRecord>,
    pub parent_task: Option<String>,
    pub child_tasks: Vec<String>,
}

/// An attempt as plain values.
pub struct AttemptView {
    pub attempt_number: u32,
    pub model: Seq<char>,
    pub started_at: i64,
    pub ended_at: Option<i64>,
    pub outcome: AttemptOutcome,
    pub failure_reason: Option<Seq<char>>,
    pub changes_made: Seq<Seq<char>>,
}

/// The view of an attempt.
pub open spec fn attempt_view(a: AttemptRecord) -> AttemptView {
    AttemptView {
        attempt_number: a.attempt_number,
        model: a.model@,
        started_at: a.started_at,
        ended_at: a.ended_at,
        outcome: a.outcome,
        failure_reason: opt_str(a.failure_reason),
        changes_made: a.changes_made.deep_view(),
    }
}

/// The views of a list of attempts.
pub open spec fn attempt_views(rs: Seq<AttemptRecord>) -> Seq<AttemptView> {
    rs.map_values(|a: AttemptRecord| attempt_view(a))
}

/// A lineage as plain values.
pub struct LineageView {
    pub task_id: Seq<char>,
    pub attempts: Seq<AttemptView>,
    pub parent_task: Option<Seq<char>>,
    pub child_tasks: Seq<Seq<char>>,
}

impl View for TaskLineage {
    type V = LineageView;

    open spec fn view(&self) -> LineageView {
        LineageView {
            task_id: self.task_id@,
            attempts: attempt_views(self.attempts@),
            parent_task: opt_str(self.parent_task),
            child_tasks: self.child_tasks.deep_view(),
        }
    }
}

/// A fresh lineage for a task.
pub open spec fn empty_lineage(task_id: Seq<char>) -> LineageView {
    LineageView { task_id, attempts: Seq::empty(), parent_task: None, child_tasks: Seq::empty() }
}

/// The view of an optional text argument.
pub open spec fn opt_arg(o: Option<&str>) -> Option<Seq<char>> {
    match o {
        Some(s) => Some(s@),
        None => None,
    }
}

/// A lineage after a finished attempt by `model` at `now`.
pub open spec fn with_attempt(l: LineageView, model: Seq<char>, outcome: AttemptOutcome, failure_reason: Option<Seq<char>>, now: i64) -> LineageView {
    LineageView {
        attempts: l.attempts.push(AttemptView {
            attempt_number: (l.attempts.len() + 1) as u32,
            model,
            started_at: now,
            ended_at: Some(now),
            outcome,
            failure_reason,
            changes_made: Seq::empty(),
        }),
        ..l
    }
}

impl TaskLineage {
    /// A lineage with no attempts.
    pub fn new(task_id: &str) -> (res: Self)
        ensures
            res@ == empty_lineage(task_id@),
    {
        let res = TaskLineage { task_id: String::from_str(task_id), attempts: Vec::new(), parent_task: None, child_tasks: Vec::new() };
        assert(res@.attempts =~= Seq::<AttemptView>::empty());
        assert(res@.child_tasks =~= Seq::<Seq<char>>::empty());
        res
    }

    /// Records a finished attempt by `model` at `now`, numbered after the
    /// earlier ones.
    pub fn record_attempt(&mut self, model: &str, outcome: AttemptOutcome, failure_reason: Option<&str>, now: i64)
        requires
            old(self).attempts@.len() < u32::MAX,
        ensures
            final(self)@ == with_attempt(old(self)@, model@, outcome, opt_arg(failure_reason), now),
    {
        let number = self.attempts.len() as u32 + 1;
        let reason = match failure_reason {
            Some(r) => Some(String::from_str(r)),
            None => None,
        };
        let record = AttemptRecord {
            attempt_number: number,
            model: String::from_str(model),
            started_at: now,
            ended_at: Some(now),
            outcome,
            failure_reason: reason,
            changes_made: Vec::new(),
        };
        assert(attempt_view(record).changes_made =~= Seq::<Seq<char>>::empty());
        let ghost before = self.attempts@;
        self.attempts.push(record);
        assert(attempt_views(self.attempts@) =~= attempt_views(before).push(attempt_view(record)));
    }
}

impl View for ContextState {
    type V = ContextState;

    open spec fn view(&self) -> ContextState {
        *self
    }
}

/// The context manager: where context is stored, the context of each
/// repository, and the lineage of each task.
#[derive(Debug)]
pub struct ContextManager {
    pub context_dir: String,
    pub states: KeyMap<ContextState>,
    pub lineages: KeyMap<TaskLineage>,
}

impl ContextManager {
    /// A manager storing under `context_dir`, with nothing loaded.
    pub fn new(context_dir: &str) -> (res: Self)
        ensures
            res.context_dir@ == context_dir@,
            res.states@ == Map::<Seq<char>, ContextState>::empty(),
            res.lineages@ == Map::<Seq<char>, LineageView>::empty(),
    {
        ContextManager { context_dir: String::from_str(context_dir), states: KeyMap::new(), lineages: KeyMap::new() }
    }

    /// Where the context of repository `repo_id` is stored.
    pub fn state_path(&self, repo_id: &str) -> (res: String)
        ensures
            res@ == crate::text::path_join(self.context_dir@, repo_id@ + "/context.json"@),
    {
        let mut rel = String::from_str(repo_id);
        rel.append("/context.json");
        join_path(self.context_dir.as_str(), rel.as_str())
    }

    /// Where the lineage of task `task_id` is stored.
    pub fn lineage_path(&self, task_id: &str) -> (res: String)
        ensures
            res@ == crate::text::path_join(self.context_dir@, "lineages/"@ + task_id@ + ".json"@),
    {
        let mut rel = String::from_str("lineages/");
        rel.append(task_id);
        rel.append(".json");
        join_path(self.context_dir.as_str(), rel.as_str())
    }

    /// Records a finished attempt at task `task_id`; a task without a
    /// lineage gets a fresh one.
    pub fn record_attempt(&mut self, task_id: &str, model: &str, outcome: AttemptOutcome, failure_reason: Option<&str>, now: i64)
        requires
            old(self).lineages@.contains_key(task_id@) ==> old(self).lineages@[task_id@].attempts.len() < u32::MAX,
        ensures
            final(self).lineages@ == old(self).lineages@.insert(task_id@, with_attempt(
                if old(self).lineages@.contains_key(task_id@) { old(self).lineages@[task_id@] } else { empty_lineage(task_id@) },
                model@, outcome, opt_arg(failure_reason), now)),
            final(self).states@ == old(self).states@,
    {
        let mut lineage = match self.lineages.remove(task_id) {
            Some(l) => l,
            None => TaskLineage::new(task_id),
        };
        lineage.record_attempt(model, outcome, failure_reason, now);
        self.lineages.insert(String::from_str(task_id), lineage);
    }
}


/// The task part of a rich context.
#[derive(Debug)]
pub struct TaskContext {
    pub task_id: String,
    pub title: String,
    pub current_focus: Option<String>,
    pub blockers: Vec<String>,
    pub assumptions: Vec<String>,
    pub related_tasks: Vec<String>,
}

/// The repository part of a rich context.
#[derive(Debug)]
pub struct RepoContext {
    pub repo_id: String,
    pub primary_language: Option<String>,
    pub recent_decisions: Vec<String>,
    pub active_branches: Vec<String>,
}

/// What earlier attempts at the task tell.
#[derive(Debug)]
pub struct HistoryContext {
    pub attempt_number: u32,
    pub max_attempts: u32,
    pub prior_models: Vec<String>,
    pub prior_failures: Vec<String>,
    pub changes_so_far: Vec<String>,
}

/// What a retry is told about the failure it follows.
#[derive(Debug)]
pub struct RecoveryContext {
    pub error_class: String,
    pub error_message: String,
    pub matched_pattern: Option<String>,
    pub suggested_approach: String,
    pub similar_past_errors: Vec<PastError>,
}

/// A past error and how it was resolved.
#[derive(Debug)]
pub struct PastError {
    pub pattern: String,
    pub resolution: String,
    pub success: bool,
}

/// The context handed to an agent.
#[derive(Debug)]
pub struct RichContext {
    pub task: TaskContext,
    pub repo: RepoContext,
    pub history: HistoryContext,
    pub recovery: Option<RecoveryContext>,
}

/// What the context reads of a task.
#[derive(Debug)]
pub struct TaskSnapshot {
    pub id: String,
    pub title: String,
    pub repo_id: String,
    pub depends_on: Vec<String>,
    pub retry_count: u32,
    pub max_retries: u32,
    /// Whether the task's state is MERGED.
    pub merged: bool,
    pub branch_name: Option<String>,
}

/// The descriptions of the unresolved blockers.
pub open spec fn blocker_texts(bs: Seq<Blocker>) -> Seq<Seq<char>> {
    active_of(bs).map_values(|b: Blocker| b.description@)
}

/// The descriptions of the last five decisions, newest first.
pub open spec fn recent_decisions(ds: Seq<Decision>) -> Seq<Seq<char>> {
    let n = if ds.len() < 5 { ds.len() } else { 5 };
    Seq::new(n, |j: int| ds[ds.len() - 1 - j].description@)
}

/// The resolved patterns that occur in the lower-cased failure text, as
/// pattern and resolution, in order.
pub open spec fn similar_errors(ps: Seq<PatternView>, reason_lower: Seq<char>) -> Seq<(Seq<char>, Seq<char>)>
    decreases ps.len(),
{
    if ps.len() == 0 {
        seq![]
    } else {
        let rest = similar_errors(ps.drop_last(), reason_lower);
        let p = ps.last();
        if contains(reason_lower, ascii_lower_seq(p.0)) && p.3 is Some { rest.push((p.0, p.3->0)) } else { rest }
    }
}

/// The view of a past error.
pub open spec fn past_view(e: PastError) -> (Seq<char>, Seq<char>, bool) {
    (e.pattern@, e.resolution@, e.success)
}

/// The models of the attempts, in order.
pub open spec fn models_of(atts: Seq<AttemptView>) -> Seq<Seq<char>> {
    atts.map_values(|a: AttemptView| a.model)
}

/// The failure reasons of the attempts that have one, in order.
pub open spec fn failures_of(atts: Seq<AttemptView>) -> Seq<Seq<char>>
    decreases atts.len(),
{
    if atts.len() == 0 {
        seq![]
    } else {
        let rest = failures_of(atts.drop_last());
        match atts.last().failure_reason {
            Some(r) => rest.push(r),
            None => rest,
        }
    }
}

/// The changes of all attempts, in order.
pub open spec fn changes_of(atts: Seq<AttemptView>) -> Seq<Seq<char>>
    decreases atts.len(),
{
    if atts.len() == 0 {
        seq![]
    } else {
        changes_of(atts.drop_last()) + atts.last().changes_made
    }
}

/// The branches of the unmerged tasks of repository `repo`, in order.
pub open spec fn branches_of(ts: Seq<TaskSnapshot>, repo: Seq<char>) -> Seq<Seq<char>>
    decreases ts.len(),
{
    if ts.len() == 0 {
        seq![]
    } else {
        let rest = branches_of(ts.drop_last(), repo);
        let t = ts.last();
        if t.repo_id@ == repo && !t.merged && t.branch_name is Some { rest.push(t.branch_name->0@) } else { rest }
    }
}

pub(crate) fn copy_strings(v: &Vec<String>) -> (res: Vec<String>)
    ensures
        res.deep_view() == v.deep_view(),
{
    let mut out: Vec<String> = Vec::new();
    let mut i: usize = 0;
    while i < v.len()
        invariant
            i <= v@.len(),
            out.deep_view() =~= v.deep_view().take(i as int),
        decreases v@.len() - i,
    {
        let ghost before = out.deep_view();
        out.push(v[i].clone());
        assert(out.deep_view() =~= before.push(v@[i as int]@));
        assert(v.deep_view().take(i + 1) =~= v.deep_view().take(i as int).push(v@[i as int]@));
        i = i + 1;
    }
    assert(v.deep_view().take(v@.len() as int) =~= v.deep_view());
    out
}

fn blocker_descriptions(bs: &Vec<Blocker>) -> (res: Vec<String>)
    ensures
        res.deep_view() == blocker_texts(bs@),
{
    let ghost s = bs@;
    let mut out: Vec<String> = Vec::new();
    let mut i: usize = 0;
    while i < bs.len()
        invariant
            s == bs@,
            i <= s.len(),
            out.deep_view() =~= blocker_texts(s.take(i as int)),
        decreases s.len() - i,
    {
        assert(s.take(i + 1).drop_last() =~= s.take(i as int));
        if bs[i].resolved_at.is_none() {
            let ghost before = out.deep_view();
            out.push(bs[i].description.clone());
            assert(out.deep_view() =~= before.push(bs@[i as int].description@));
        }
        i = i + 1;
    }
    assert(s.take(s.len() as int) =~= s);
    out
}

fn recent_decision_descriptions(ds: &Vec<Decision>) -> (res: Vec<String>)
    ensures
        res.deep_view() == recent_decisions(ds@),
{
    let n = ds.len();
    let take = if n < 5 { n } else { 5 };
    let mut out: Vec<String> = Vec::new();
    let mut j: usize = 0;
    while j < take
        invariant
            n == ds@.len(),
            take == (if n < 5 { n } else { 5 }),
            j <= take,
            out.deep_view() =~= recent_decisions(ds@).take(j as int),
        decreases take - j,
    {
        let ghost before = out.deep_view();
        out.push(ds[n - 1 - j].description.clone());
        assert(out.deep_view() =~= before.push(ds@[n - 1 - j].description@));
        assert(recent_decisions(ds@).take(j + 1) =~= recent_decisions(ds@).take(j as int).push(ds@[n - 1 - j].description@));
        j = j + 1;
    }
    assert(recent_decisions(ds@).take(take as int) =~= recent_decisions(ds@));
    out
}

fn similar_past_errors(ps: &Vec<ErrorPattern>, reason: &str) -> (res: Vec<PastError>)
    ensures
        res@.map_values(|e: PastError| past_view(e)) == similar_errors(pattern_views(ps@), ascii_lower_seq(reason@)).map_values(
            |x: (Seq<char>, Seq<char>)| (x.0, x.1, true)),
{
    let lower = to_ascii_lowercase(reason);
    let ghost views = pattern_views(ps@);
    let mut out: Vec<PastError> = Vec::new();
    let mut i: usize = 0;
    while i < ps.len()
        invariant
            views == pattern_views(ps@),
            i <= views.len(),
            lower@ == ascii_lower_seq(reason@),
            out@.map_values(|e: PastError| past_view(e)) =~= similar_errors(views.take(i as int), lower@).map_values(
                |x: (Seq<char>, Seq<char>)| (x.0, x.1, true)),
        decreases views.len() - i,
    {
        assert(views.take(i + 1).drop_last() =~= views.take(i as int));
        let p = &ps[i];
        assert(pattern_view(*p) == views[i as int]);
        let pl = to_ascii_lowercase(p.pattern.as_str());
        if str_contains(lower.as_str(), pl.as_str()) {
            if let Some(r) = &p.resolution {
                let ghost before = out@;
                let e = PastError { pattern: p.pattern.clone(), resolution: r.clone(), success: true };
                out.push(e);
                assert(out@.map_values(|e: PastError| past_view(e)) =~= before.map_values(|e: PastError| past_view(e)).push(past_view(e)));
            }
        }
        i = i + 1;
    }
    assert(views.take(views.len() as int) =~= views);
    out
}


fn attempt_lists(atts: &Vec<AttemptRecord>) -> (res: (Vec<String>, Vec<String>, Vec<String>))
    ensures
        res.0.deep_view() == models_of(attempt_views(atts@)),
        res.1.deep_view() == failures_of(attempt_views(atts@)),
        res.2.deep_view() == changes_of(attempt_views(atts@)),
{
    let ghost views = attempt_views(atts@);
    let mut models: Vec<String> = Vec::new();
    let mut failures: Vec<String> = Vec::new();
    let mut changes: Vec<String> = Vec::new();
    let mut i: usize = 0;
    while i < atts.len()
        invariant
            views == attempt_views(atts@),
            i <= views.len(),
            models.deep_view() =~= models_of(views.take(i as int)),
            failures.deep_view() =~= failures_of(views.take(i as int)),
            changes.deep_view() =~= changes_of(views.take(i as int)),
        decreases views.len() - i,
    {
        assert(views.take(i + 1).drop_last() =~= views.take(i as int));
        let a = &atts[i];
        assert(attempt_view(*a) == views[i as int]);
        let ghost m0 = models.deep_view();
        models.push(a.model.clone());
        assert(models.deep_view() =~= m0.push(a.model@));
        if let Some(r) = &a.failure_reason {
            let ghost f0 = failures.deep_view();
            failures.push(r.clone());
            assert(failures.deep_view() =~= f0.push(r@));
        }
        let mut j: usize = 0;
        let ghost c0 = changes.deep_view();
        while j < a.changes_made.len()
            invariant
                j <= a.changes_made@.len(),
                changes.deep_view() =~= c0 + a.changes_made.deep_view().take(j as int),
            decreases a.changes_made@.len() - j,
        {
            let ghost c1 = changes.deep_view();
            changes.push(a.changes_made[j].clone());
            assert(changes.deep_view() =~= c1.push(a.changes_made@[j as int]@));
            assert(a.changes_made.deep_view().take(j + 1) =~= a.changes_made.deep_view().take(j as int).push(a.changes_made@[j as int]@));
            j = j + 1;
        }
        assert(a.changes_made.deep_view().take(a.changes_made@.len() as int) =~= a.changes_made.deep_view());
        i = i + 1;
    }
    assert(views.take(views.len() as int) =~= views);
    (models, failures, changes)
}

fn active_branches(tasks: &Vec<TaskSnapshot>, repo_id: &str) -> (res: Vec<String>)
    ensures
        res.deep_view() == branches_of(tasks@, repo_id@),
{
    let ghost ts = tasks@;
    let mut out: Vec<String> = Vec::new();
    let mut i: usize = 0;
    while i < tasks.len()
        invariant
            ts == tasks@,
            i <= ts.len(),
            out.deep_view() =~= branches_of(ts.take(i as int), repo_id@),
        decreases ts.len() - i,
    {
        assert(ts.take(i + 1).drop_last() =~= ts.take(i as int));
        let t = &tasks[i];
        if crate::text::str_eq(t.repo_id.as_str(), repo_id) && !t.merged {
            if let Some(b) = &t.branch_name {
                let ghost before = out.deep_view();
                out.push(b.clone());
                assert(out.deep_view() =~= before.push(b@));
            }
        }
        i = i + 1;
    }
    assert(ts.take(ts.len() as int) =~= ts);
    out
}

/// The recovery part of a context built after a failure.
pub open spec fn recovery_ok(rc: RecoveryContext, reason: Seq<char>, ps: Seq<PatternView>) -> bool {
    &&& rc.error_class@ == Seq::<char>::empty()
    &&& rc.error_message@ == reason
    &&& rc.matched_pattern is None
    &&& rc.suggested_approach@ == Seq::<char>::empty()
    &&& rc.similar_past_errors@.map_values(|e: PastError| past_view(e)) == similar_errors(ps, ascii_lower_seq(reason)).map_values(
        |x: (Seq<char>, Seq<char>)| (x.0, x.1, true))
}

/// The context built for `task` from its repository's context `st`, its
/// lineage `l`, the other tasks and the failure that it retries.
pub open spec fn context_built(ctx: RichContext, st: ContextState, l: LineageView, task: TaskSnapshot, tasks: Seq<TaskSnapshot>, failure: Option<Seq<char>>) -> bool {
    &&& ctx.task.task_id@ == task.id@
    &&& ctx.task.title@ == task.title@
    &&& opt_str(ctx.task.current_focus) == opt_str(st.current_focus)
    &&& ctx.task.blockers.deep_view() == blocker_texts(st.blockers@)
    &&& ctx.task.assumptions.deep_view() == st.assumptions.deep_view()
    &&& ctx.task.related_tasks.deep_view() == task.depends_on.deep_view()
    &&& ctx.repo.repo_id@ == task.repo_id@
    &&& ctx.repo.primary_language is None
    &&& ctx.repo.recent_decisions.deep_view() == recent_decisions(st.decisions@)
    &&& ctx.repo.active_branches.deep_view() == branches_of(tasks, task.repo_id@)
    &&& ctx.history.attempt_number == task.retry_count + 1
    &&& ctx.history.max_attempts == task.max_retries
    &&& ctx.history.prior_models.deep_view() == models_of(l.attempts)
    &&& ctx.history.prior_failures.deep_view() == failures_of(l.attempts)
    &&& ctx.history.changes_so_far.deep_view() == changes_of(l.attempts)
    &&& match failure {
        Some(reason) => ctx.recovery is Some && recovery_ok(ctx.recovery->0, reason, pattern_views(st.error_patterns@)),
        None => ctx.recovery is None,
    }
}

fn build_from(st: &ContextState, l: &TaskLineage, task: &TaskSnapshot, tasks: &Vec<TaskSnapshot>, failure_reason: Option<&str>) -> (res: RichContext)
    requires
        task.retry_count < u32::MAX,
    ensures
        context_built(res, *st, l@, *task, tasks@, opt_arg(failure_reason)),
{
    let focus = copy_opt(&st.current_focus);
    let blockers = blocker_descriptions(&st.blockers);
    let assumptions = copy_strings(&st.assumptions);
    let decisions = recent_decision_descriptions(&st.decisions);
    let (models, failures, changes) = attempt_lists(&l.attempts);
    let branches = active_branches(tasks, task.repo_id.as_str());
    let recovery = match failure_reason {
        Some(reason) => {
            let similar = similar_past_errors(&st.error_patterns, reason);
            Some(RecoveryContext {
                error_class: String::new(),
                error_message: String::from_str(reason),
                matched_pattern: None,
                suggested_approach: String::new(),
                similar_past_errors: similar,
            })
        },
        None => None,
    };
    RichContext {
        task: TaskContext {
            task_id: task.id.clone(),
            title: task.title.clone(),
            current_focus: focus,
            blockers,
            assumptions,
            related_tasks: copy_strings(&task.depends_on),
        },
        repo: RepoContext {
            repo_id: task.repo_id.clone(),
            primary_language: None,
            recent_decisions: decisions,
            active_branches: branches,
        },
        history: HistoryContext {
            attempt_number: task.retry_count + 1,
            max_attempts: task.max_retries,
            prior_models: models,
            prior_failures: failures,
            changes_so_far: changes,
        },
        recovery,
    }
}

impl ContextManager {
    /// Builds the context for `task` from its repository's context and its
    /// lineage (empty where none is loaded), the other tasks, and the
    /// failure that it retries, if any.
    pub fn build_context(&self, task: &TaskSnapshot, tasks: &Vec<TaskSnapshot>, failure_reason: Option<&str>) -> (res: RichContext)
        requires
            task.retry_count < u32::MAX,
        ensures
            self.states@.contains_key(task.repo_id@) ==> context_built(res, self.states@[task.repo_id@], self.lineage_or_empty(task.id@), *task, tasks@, opt_arg(failure_reason)),
            !self.states@.contains_key(task.repo_id@) ==> exists|st: ContextState| #![auto]
                context_built(res, st, self.lineage_or_empty(task.id@), *task, tasks@, opt_arg(failure_reason))
                && st.current_focus is None && st.blockers@.len() == 0 && st.assumptions@.len() == 0
                && st.decisions@.len() == 0 && st.error_patterns@.len() == 0,
    {
        let fresh_lineage;
        let lineage = match self.lineages.get(task.id.as_str()) {
            Some(l) => l,
            None => {
                fresh_lineage = TaskLineage::new(task.id.as_str());
                &fresh_lineage
            },
        };
        match self.states.get(task.repo_id.as_str()) {
            Some(st) => build_from(st, lineage, task, tasks, failure_reason),
            None => {
                let st = ContextState::default();
                let res = build_from(&st, lineage, task, tasks, failure_reason);
                res
            },
        }
    }

    /// The lineage of a task, or a fresh one.
    pub open spec fn lineage_or_empty(&self, task_id: Seq<char>) -> LineageView {
        if self.lineages@.contains_key(task_id) { self.lineages@[task_id] } else { empty_lineage(task_id) }
    }
}


/// Each item on a line of its own, after "- ".
pub open spec fn bullets(xs: Seq<Seq<char>>) -> Seq<char>
    decreases xs.len(),
{
    if xs.len() == 0 {
        seq![]
    } else {
        bullets(xs.drop_last()) + "- "@ + xs.last() + "\n"@
    }
}

/// The first `max` bytes of `s` (all of it when shorter).
pub open spec fn cut(s: Seq<char>, max: nat) -> Seq<char> {
    if utf8_len(s) <= max { s } else { byte_prefix(s, max) }
}

/// Whether cutting `s` at `max` bytes falls between characters.
pub open spec fn cut_ok(s: Seq<char>, max: nat) -> bool {
    utf8_len(s) > max ==> utf8_len(byte_prefix(s, max)) == max
}

/// Every item cut at `max` bytes.
pub open spec fn cut_all(xs: Seq<Seq<char>>, max: nat) -> Seq<Seq<char>> {
    xs.map_values(|x: Seq<char>| cut(x, max))
}

/// The lines naming past errors and their resolutions.
pub open spec fn past_lines(ps: Seq<PastError>) -> Seq<char>
    decreases ps.len(),
{
    if ps.len() == 0 {
        seq![]
    } else {
        past_lines(ps.drop_last()) + "- Pattern `"@ + ps.last().pattern@ + "` was resolved by: "@ + ps.last().resolution@ + "\n"@
    }
}

/// The task section of a rendered context.
pub open spec fn render_task(t: TaskContext) -> Seq<char> {
    "## Task Context\n\n"@ + "**Task:** "@ + t.task_id@ + " - "@ + t.title@ + "\n"@
        + (match t.current_focus {
            Some(f) => "**Current Focus:** "@ + f@ + "\n"@,
            None => Seq::<char>::empty(),
        })
        + (if t.blockers@.len() > 0 { "\n**Known Blockers:**\n"@ + bullets(t.blockers.deep_view()) } else { Seq::<char>::empty() })
        + (if t.assumptions@.len() > 0 { "\n**Working Assumptions:**\n"@ + bullets(t.assumptions.deep_view()) } else { Seq::<char>::empty() })
}

/// The history section: only for a second or later attempt.
pub open spec fn render_history(h: HistoryContext) -> Seq<char> {
    if h.attempt_number > 1 {
        "\n## Prior Attempts\n\n**Attempt:** "@ + decimal(h.attempt_number as nat) + "/"@ + decimal(h.max_attempts as nat) + "\n"@
            + (if h.prior_models@.len() > 0 { "**Models tried:** "@ + join(h.prior_models.deep_view(), ", "@) + "\n"@ } else { Seq::<char>::empty() })
            + (if h.prior_failures@.len() > 0 {
                "\n**What went wrong:**\n"@ + bullets(cut_all(h.prior_failures.deep_view(), 200))
            } else {
                Seq::<char>::empty()
            })
    } else {
        Seq::empty()
    }
}

/// The recovery section.
pub open spec fn render_recovery(r: RecoveryContext) -> Seq<char> {
    "\n## Error Recovery Context\n\n"@ + "**Error Class:** "@ + r.error_class@ + "\n"@
        + "**Error Message:**\n```\n"@ + cut(r.error_message@, 500) + "\n```\n"@
        + (if r.suggested_approach@.len() > 0 { "\n**Suggested Approach:**\n"@ + r.suggested_approach@ + "\n"@ } else { Seq::<char>::empty() })
        + (if r.similar_past_errors@.len() > 0 {
            "\n**Similar Past Errors & Resolutions:**\n"@ + past_lines(r.similar_past_errors@)
        } else {
            Seq::<char>::empty()
        })
}

/// A context rendered as markdown for a prompt.
pub open spec fn rendered(ctx: RichContext) -> Seq<char> {
    render_task(ctx.task) + render_history(ctx.history)
        + (match ctx.recovery {
            Some(r) => render_recovery(r),
            None => Seq::<char>::empty(),
        })
        + (if ctx.repo.recent_decisions@.len() > 0 {
            "\n## Recent Decisions\n\n"@ + bullets(ctx.repo.recent_decisions.deep_view())
        } else {
            Seq::<char>::empty()
        })
}

/// Whether the texts that rendering cuts can be cut between characters.
pub open spec fn render_cuts_ok(ctx: RichContext) -> bool {
    &&& ctx.history.attempt_number > 1 ==> forall|i: int| 0 <= i < ctx.history.prior_failures@.len() ==> cut_ok(#[trigger] ctx.history.prior_failures@[i]@, 200)
    &&& match ctx.recovery {
        Some(r) => cut_ok(r.error_message@, 500),
        None => true,
    }
}

pub(crate) fn cut_text(s: &str, max: usize) -> (res: String)
    requires
        max < usize::MAX - 4,
        cut_ok(s@, max as nat),
    ensures
        res@ == cut(s@, max as nat),
{
    let v = chars_of(s);
    let n = v.len();
    assert(v@.subrange(0, n as int) =~= v@);
    let total = utf8_len_capped(&v, 0, n, max);
    if total <= max {
        String::from_str(s)
    } else {
        let k = byte_prefix_len(&v, 0, n, max);
        string_of_range(&v, 0, k)
    }
}

fn push_bullets(out: &mut String, xs: &Vec<String>)
    ensures
        final(out)@ == old(out)@ + bullets(xs.deep_view()),
{
    let ghost start = out@;
    let ghost dv = xs.deep_view();
    let mut i: usize = 0;
    assert(dv.take(0) =~= Seq::<Seq<char>>::empty());
    assert(start + bullets(dv.take(0)) =~= start);
    while i < xs.len()
        invariant
            dv == xs.deep_view(),
            i <= dv.len(),
            out@ == start + bullets(dv.take(i as int)),
        decreases dv.len() - i,
    {
        assert(dv.take(i + 1).drop_last() =~= dv.take(i as int));
        out.append("- ");
        out.append(xs[i].as_str());
        out.append("\n");
        assert(out@ =~= start + bullets(dv.take(i + 1)));
        i = i + 1;
    }
    assert(dv.take(dv.len() as int) =~= dv);
}

fn push_cut_bullets(out: &mut String, xs: &Vec<String>, max: usize)
    requires
        max < usize::MAX - 4,
        forall|i: int| 0 <= i < xs@.len() ==> cut_ok(#[trigger] xs@[i]@, max as nat),
    ensures
        final(out)@ == old(out)@ + bullets(cut_all(xs.deep_view(), max as nat)),
{
    let ghost start = out@;
    let ghost dv = cut_all(xs.deep_view(), max as nat);
    let mut i: usize = 0;
    assert(dv.take(0) =~= Seq::<Seq<char>>::empty());
    assert(start + bullets(dv.take(0)) =~= start);
    while i < xs.len()
        invariant
            dv == cut_all(xs.deep_view(), max as nat),
            dv.len() == xs@.len(),
            i <= dv.len(),
            max < usize::MAX - 4,
            forall|j: int| 0 <= j < xs@.len() ==> cut_ok(#[trigger] xs@[j]@, max as nat),
            out@ == start + bullets(dv.take(i as int)),
        decreases dv.len() - i,
    {
        assert(dv.take(i + 1).drop_last() =~= dv.take(i as int));
        assert(cut_ok(xs@[i as int]@, max as nat));
        let c = cut_text(xs[i].as_str(), max);
        out.append("- ");
        out.append(c.as_str());
        out.append("\n");
        assert(out@ =~= start + bullets(dv.take(i + 1)));
        i = i + 1;
    }
    assert(dv.take(dv.len() as int) =~= dv);
}

fn push_past_lines(out: &mut String, ps: &Vec<PastError>)
    ensures
        final(out)@ == old(out)@ + past_lines(ps@),
{
    let ghost start = out@;
    let mut i: usize = 0;
    assert(ps@.take(0) =~= Seq::<PastError>::empty());
    assert(start + past_lines(ps@.take(0)) =~= start);
    while i < ps.len()
        invariant
            i <= ps@.len(),
            out@ == start + past_lines(ps@.take(i as int)),
        decreases ps@.len() - i,
    {
        assert(ps@.take(i + 1).drop_last() =~= ps@.take(i as int));
        out.append("- Pattern `");
        out.append(ps[i].pattern.as_str());
        out.append("` was resolved by: ");
        out.append(ps[i].resolution.as_str());
        out.append("\n");
        assert(out@ =~= start + past_lines(ps@.take(i + 1)));
        i = i + 1;
    }
    assert(ps@.take(ps@.len() as int) =~= ps@);
}

fn push_task_section(out: &mut String, t: &TaskContext)
    ensures
        final(out)@ == old(out)@ + render_task(*t),
{
    let ghost start = out@;
    out.append("## Task Context\n\n");
    out.append("**Task:** ");
    out.append(t.task_id.as_str());
    out.append(" - ");
    out.append(t.title.as_str());
    out.append("\n");
    let ghost a = out@;
    if let Some(f) = &t.current_focus {
        out.append("**Current Focus:** ");
        out.append(f.as_str());
        out.append("\n");
    }
    let ghost b = out@;
    if t.blockers.len() > 0 {
        out.append("\n**Known Blockers:**\n");
        push_bullets(out, &t.blockers);
    }
    let ghost c = out@;
    if t.assumptions.len() > 0 {
        out.append("\n**Working Assumptions:**\n");
        push_bullets(out, &t.assumptions);
    }
    assert(out@ =~= start + render_task(*t));
}

fn push_history_section(out: &mut String, h: &HistoryContext)
    requires
        h.attempt_number > 1 ==> forall|i: int| 0 <= i < h.prior_failures@.len() ==> cut_ok(#[trigger] h.prior_failures@[i]@, 200),
    ensures
        final(out)@ == old(out)@ + render_history(*h),
{
    let ghost start = out@;
    if h.attempt_number > 1 {
        out.append("\n## Prior Attempts\n\n**Attempt:** ");
        push_decimal(out, h.attempt_number as u64);
        out.append("/");
        push_decimal(out, h.max_attempts as u64);
        out.append("\n");
        if h.prior_models.len() > 0 {
            out.append("**Models tried:** ");
            let joined = join_strings(&h.prior_models, ", ");
            out.append(joined.as_str());
            out.append("\n");
        }
        if h.prior_failures.len() > 0 {
            out.append("\n**What went wrong:**\n");
            push_cut_bullets(out, &h.prior_failures, 200);
        }
    }
    assert(out@ =~= start + render_history(*h));
}

fn push_recovery_section(out: &mut String, r: &RecoveryContext)
    requires
        cut_ok(r.error_message@, 500),
    ensures
        final(out)@ == old(out)@ + render_recovery(*r),
{
    let ghost start = out@;
    out.append("\n## Error Recovery Context\n\n");
    out.append("**Error Class:** ");
    out.append(r.error_class.as_str());
    out.append("\n");
    out.append("**Error Message:**\n```\n");
    let msg = cut_text(r.error_message.as_str(), 500);
    out.append(msg.as_str());
    out.append("\n```\n");
    if r.suggested_approach.as_str().unicode_len() > 0 {
        out.append("\n**Suggested Approach:**\n");
        out.append(r.suggested_approach.as_str());
        out.append("\n");
    }
    if r.similar_past_errors.len() > 0 {
        out.append("\n**Similar Past Errors & Resolutions:**\n");
        push_past_lines(out, &r.similar_past_errors);
    }
    assert(out@ =~= start + render_recovery(*r));
}

impl ContextManager {
    /// Renders a context as markdown for a prompt: the task, then earlier
    /// attempts (from the second attempt on; failures cut at 200 bytes),
    /// the error recovery (message cut at 500 bytes), and recent decisions.
    pub fn render_context(&self, ctx: &RichContext) -> (res: String)
        requires
            render_cuts_ok(*ctx),
        ensures
            res@ == rendered(*ctx),
    {
        let mut out = String::new();
        push_task_section(&mut out, &ctx.task);
        push_history_section(&mut out, &ctx.history);
        if let Some(r) = &ctx.recovery {
            push_recovery_section(&mut out, r);
        }
        if ctx.repo.recent_decisions.len() > 0 {
            out.append("\n## Recent Decisions\n\n");
            push_bullets(&mut out, &ctx.repo.recent_decisions);
        }
        assert(out@ =~= rendered(*ctx));
        out
    }
}


impl Default for ContextManager {
    /// A manager storing under `.othala/context`.
    fn default() -> (res: Self)
        ensures
            res.context_dir@ == ".othala/context"@,
            res.states@ == Map::<Seq<char>, ContextState>::empty(),
            res.lineages@ == Map::<Seq<char>, LineageView>::empty(),
    {
        ContextManager::new(".othala/context")
    }
}

} // verus!
