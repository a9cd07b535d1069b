//! The shared context of a repository: its compartments, where their
//! files live, which ones a task reads, and the text written to them.

use vstd::prelude::*;
use crate::text::{
    byte_prefix, byte_prefix_len, utf8_len, utf8_len_capped, ascii_lower_seq, chars_of, contains, decimal, join, join_path, lines, path_join, push_char, push_decimal,
    join_strings, split_lines, str_contains, str_eq, str_trim, string_of_range, to_ascii_lowercase, trim,
};

verus! {

/// A part of the shared context.
#[derive(Debug, Clone, Copy, PartialEq, Eq, Structural)]
pub enum ContextCompartment {
    RepoMap,
    Architecture,
    Workflows,
    Quality,
    MainDiff,
}

/// The compartments in their fixed order.
pub open spec fn compartment_order() -> Seq<ContextCompartment> {
    seq![ContextCompartment::RepoMap, ContextCompartment::Architecture, ContextCompartment::Workflows, ContextCompartment::Quality, ContextCompartment::MainDiff]
}

/// The file name of a compartment.
pub open spec fn compartment_file(c: ContextCompartment) -> Seq<char> {
    match c {
        ContextCompartment::RepoMap => "repo-map.md"@,
        ContextCompartment::Architecture => "architecture.md"@,
        ContextCompartment::Workflows => "workflows.md"@,
        ContextCompartment::Quality => "quality.md"@,
        ContextCompartment::MainDiff => "main-diff.md"@,
    }
}

/// What a compartment is for.
pub open spec fn compartment_purpose(c: ContextCompartment) -> Seq<char> {
    match c {
        ContextCompartment::RepoMap => "where code and services live"@,
        ContextCompartment::Architecture => "system boundaries and ownership"@,
        ContextCompartment::Workflows => "task, Graphite, and branch lifecycle practices"@,
        ContextCompartment::Quality => "verify, testing, and review expectations"@,
        ContextCompartment::MainDiff => "latest base-branch changes captured from whole diff"@,
    }
}

impl ContextCompartment {
    /// Every compartment, in order.
    pub fn all() -> (res: Vec<ContextCompartment>)
        ensures
            res@ == compartment_order(),
    {
        let v = vec![ContextCompartment::RepoMap, ContextCompartment::Architecture, ContextCompartment::Workflows, ContextCompartment::Quality, ContextCompartment::MainDiff];
        assert(v@ =~= compartment_order());
        v
    }

    /// The compartment's file name.
    pub fn file_name(self) -> (res: &'static str)
        ensures
            res@ == compartment_file(self),
    {
        match self {
            ContextCompartment::RepoMap => "repo-map.md",
            ContextCompartment::Architecture => "architecture.md",
            ContextCompartment::Workflows => "workflows.md",
            ContextCompartment::Quality => "quality.md",
            ContextCompartment::MainDiff => "main-diff.md",
        }
    }

    /// What the compartment is for.
    pub fn purpose(self) -> (res: &'static str)
        ensures
            res@ == compartment_purpose(self),
    {
        match self {
            ContextCompartment::RepoMap => "where code and services live",
            ContextCompartment::Architecture => "system boundaries and ownership",
            ContextCompartment::Workflows => "task, Graphite, and branch lifecycle practices",
            ContextCompartment::Quality => "verify, testing, and review expectations",
            ContextCompartment::MainDiff => "latest base-branch changes captured from whole diff",
        }
    }
}

/// The files of a repository's shared context.
#[derive(Debug, Clone, PartialEq, Eq)]
pub struct GlobalContextPaths {
    pub context_root: String,
    pub global_path: String,
    pub core_path: String,
    pub compartments_dir: String,
    pub updates_dir: String,
    pub latest_main_diff_path: String,
    pub branch_head_marker: String,
}

/// The result of a refresh of the base-branch snapshot.
#[derive(Debug, Clone, PartialEq, Eq)]
pub struct GlobalContextRefreshOutcome {
    pub refreshed: bool,
    pub previous_head: Option<String>,
    pub current_head: String,
    pub changed_files: usize,
    pub latest_main_diff_path: String,
}

/// Whether a character stays in a file name.
pub open spec fn file_char_ok(c: char) -> bool {
    ('a' <= c && c <= 'z') || ('A' <= c && c <= 'Z') || ('0' <= c && c <= '9') || c == '-' || c == '_'
}

/// A branch name made safe as a file name: other characters become `_`,
/// and "branch" stands in for nothing.
pub open spec fn file_name_of(s: Seq<char>) -> Seq<char> {
    if s.len() == 0 {
        "branch"@
    } else {
        s.map_values(|c: char| if file_char_ok(c) { c } else { '_' })
    }
}

/// Makes `input` safe as part of a file name.
pub fn sanitize_for_file_name(input: &str) -> (res: String)
    ensures
        res@ == file_name_of(input@),
{
    let v = chars_of(input);
    if v.len() == 0 {
        return String::from_str("branch");
    }
    let mut out = String::new();
    let mut i: usize = 0;
    while i < v.len()
        invariant
            i <= v@.len(),
            v@ == input@,
            out@ == v@.take(i as int).map_values(|c: char| if file_char_ok(c) { c } else { '_' }),
        decreases v@.len() - i,
    {
        let c = v[i];
        let ok = ('a' <= c && c <= 'z') || ('A' <= c && c <= 'Z') || ('0' <= c && c <= '9') || c == '-' || c == '_';
        push_char(&mut out, if ok { c } else { '_' });
        assert(out@ =~= v@.take(i + 1).map_values(|c: char| if file_char_ok(c) { c } else { '_' }));
        i = i + 1;
    }
    assert(v@.take(v@.len() as int) =~= v@);
    out
}

/// The first twelve bytes of the trimmed value (all of it when shorter).
pub open spec fn short_sha_of(v: Seq<char>) -> Seq<char> {
    let t = trim(v);
    if utf8_len(t) <= 12 { t } else { byte_prefix(t, 12) }
}

/// Abbreviates a commit hash to its first twelve bytes. The cut must fall
/// between characters, as it does for hexadecimal hashes.
pub fn short_sha(value: &str) -> (res: String)
    requires
        utf8_len(trim(value@)) > 12 ==> utf8_len(byte_prefix(trim(value@), 12)) == 12,
    ensures
        res@ == short_sha_of(value@),
{
    let t = str_trim(value);
    let v = chars_of(t.as_str());
    let n = v.len();
    assert(v@.subrange(0, n as int) =~= v@);
    let total = utf8_len_capped(&v, 0, n, 12);
    if total <= 12 {
        t
    } else {
        let k = byte_prefix_len(&v, 0, n, 12);
        string_of_range(&v, 0, k)
    }
}

/// The context files under `repo_root` for `base_branch`.
pub open spec fn paths_of(repo_root: Seq<char>, base_branch: Seq<char>) -> (Seq<char>, Seq<char>, Seq<char>, Seq<char>, Seq<char>, Seq<char>, Seq<char>) {
    let root = path_join(repo_root, ".orch/context"@);
    let updates = path_join(root, "updates"@);
    (
        root,
        path_join(root, "global.md"@),
        path_join(root, "core.md"@),
        path_join(root, "compartments"@),
        updates,
        path_join(updates, "main-diff-latest.md"@),
        path_join(root, "last_"@ + file_name_of(base_branch) + "_head.txt"@),
    )
}

/// Where the shared context of `repo_root` lives, for `base_branch`.
pub fn global_context_paths(repo_root: &str, base_branch: &str) -> (res: GlobalContextPaths)
    ensures
        paths_of(repo_root@, base_branch@) == (res.context_root@, res.global_path@, res.core_path@, res.compartments_dir@,
            res.updates_dir@, res.latest_main_diff_path@, res.branch_head_marker@),
{
    let root = join_path(repo_root, ".orch/context");
    let updates = join_path(root.as_str(), "updates");
    let mut marker = String::from_str("last_");
    let b = sanitize_for_file_name(base_branch);
    marker.append(b.as_str());
    marker.append("_head.txt");
    GlobalContextPaths {
        global_path: join_path(root.as_str(), "global.md"),
        core_path: join_path(root.as_str(), "core.md"),
        compartments_dir: join_path(root.as_str(), "compartments"),
        latest_main_diff_path: join_path(updates.as_str(), "main-diff-latest.md"),
        branch_head_marker: join_path(root.as_str(), marker.as_str()),
        updates_dir: updates,
        context_root: root,
    }
}

/// The role of a task in the repository.
#[derive(Debug, Clone, Copy, PartialEq, Eq, Structural)]
pub enum TaskRole {
    General,
    Architecture,
    GraphiteStack,
    Docs,
    Frontend,
    Tests,
}

/// The kind of work a task does.
#[derive(Debug, Clone, PartialEq, Eq)]
pub enum WorkType {
    Feature,
    Bugfix,
    Refactor,
    Docs,
    Test,
    Chore,
    Other(String),
}

/// Whether any of the words occurs in `s`.
pub open spec fn any_of(s: Seq<char>, words: Seq<Seq<char>>) -> bool {
    exists|i: int| 0 <= i < words.len() && contains(s, #[trigger] words[i])
}

/// Whether any needle occurs in the haystack.
pub fn contains_any(haystack: &str, needles: &[&str]) -> (res: bool)
    ensures
        res == any_of(haystack@, needles@.map_values(|w: &str| w@)),
{
    let ghost ws = needles@.map_values(|w: &str| w@);
    let mut i: usize = 0;
    while i < needles.len()
        invariant
            i <= needles@.len(),
            ws == needles@.map_values(|w: &str| w@),
            forall|j: int| 0 <= j < i ==> !contains(haystack@, #[trigger] ws[j]),
        decreases needles@.len() - i,
    {
        if str_contains(haystack, needles[i]) {
            assert(contains(haystack@, ws[i as int]));
            return true;
        }
        i = i + 1;
    }
    false
}

/// Whether a task reads a compartment: the repository map always; others
/// by the task's role, its kind of work, and words in the requested work.
pub open spec fn reads_compartment(role: TaskRole, work: WorkType, lower: Seq<char>, c: ContextCompartment) -> bool {
    match c {
        ContextCompartment::RepoMap => true,
        ContextCompartment::Architecture => role == TaskRole::Architecture || role == TaskRole::Docs || role == TaskRole::Frontend
            || role == TaskRole::General || work is Feature || work is Refactor || work is Docs
            || any_of(lower, seq!["architecture"@, "design"@, "boundary"@, "service"@, "module"@, "core"@]),
        ContextCompartment::Workflows => role == TaskRole::GraphiteStack || role == TaskRole::General
            || any_of(lower, seq!["graphite"@, "restack"@, "submit"@, "rebase"@, "branch"@, "stack"@]),
        ContextCompartment::Quality => role == TaskRole::Frontend || role == TaskRole::Tests || work is Bugfix || work is Test
            || any_of(lower, seq!["test"@, "verify"@, "lint"@, "coverage"@, "regression"@, "flaky"@]),
        ContextCompartment::MainDiff => any_of(lower, seq!["main"@, "base branch"@, "upstream"@, "recent diff"@, "changelog"@]),
    }
}

/// The compartments a task reads, in their fixed order.
pub open spec fn selected_compartments(role: TaskRole, work: WorkType, requested: Seq<char>) -> Seq<ContextCompartment> {
    compartment_order().filter(|c: ContextCompartment| reads_compartment(role, work, ascii_lower_seq(requested), c))
}

/// The place of a compartment in the fixed order.
pub open spec fn compartment_rank(c: ContextCompartment) -> int {
    match c {
        ContextCompartment::RepoMap => 0,
        ContextCompartment::Architecture => 1,
        ContextCompartment::Workflows => 2,
        ContextCompartment::Quality => 3,
        ContextCompartment::MainDiff => 4,
    }
}

/// Compartments in strictly increasing order of rank.
pub open spec fn rank_ascending(s: Seq<ContextCompartment>) -> bool {
    forall|a: int, b: int| 0 <= a < b < s.len() ==> compartment_rank(#[trigger] s[a]) < compartment_rank(#[trigger] s[b])
}

proof fn lemma_filter_keeps_rank(s: Seq<ContextCompartment>, pred: spec_fn(ContextCompartment) -> bool)
    requires
        rank_ascending(s),
    ensures
        rank_ascending(s.filter(pred)),
        forall|i: int| 0 <= i < s.filter(pred).len() ==> exists|j: int| 0 <= j < s.len() && s[j] == #[trigger] s.filter(pred)[i],
    decreases s.len(),
{
    reveal(Seq::filter);
    if s.len() > 0 {
        let d = s.drop_last();
        let fd = d.filter(pred);
        assert(rank_ascending(d)) by {
            assert forall|a: int, b: int| 0 <= a < b < d.len() implies compartment_rank(#[trigger] d[a]) < compartment_rank(#[trigger] d[b]) by {
                assert(d[a] == s[a] && d[b] == s[b]);
            }
        }
        lemma_filter_keeps_rank(d, pred);
        let f = s.filter(pred);
        let last = s.last();
        assert(f == fd + (if pred(last) { seq![last] } else { Seq::empty() }));
        assert forall|i: int| 0 <= i < fd.len() implies compartment_rank(#[trigger] fd[i]) < compartment_rank(last) by {
            let j = choose|j: int| 0 <= j < d.len() && d[j] == fd[i];
            assert(d[j] == s[j]);
        }
        assert forall|a: int, b: int| 0 <= a < b < f.len() implies compartment_rank(#[trigger] f[a]) < compartment_rank(#[trigger] f[b]) by {
            if b < fd.len() {
                assert(f[a] == fd[a] && f[b] == fd[b]);
            } else {
                assert(f[a] == fd[a]);
                assert(f[b] == last);
            }
        }
        assert forall|i: int| 0 <= i < f.len() implies exists|j: int| 0 <= j < s.len() && s[j] == #[trigger] f[i] by {
            if i < fd.len() {
                let j = choose|j: int| 0 <= j < d.len() && d[j] == fd[i];
                assert(s[j] == d[j]);
                assert(f[i] == fd[i]);
            } else {
                assert(f[i] == s[s.len() - 1]);
            }
        }
    }
}

/// Every task reads the repository map; the compartments come in their
/// fixed order with none twice; work that speaks of tests, verification,
/// lints, coverage, regressions or flakiness reads the quality notes; and
/// work that speaks of main, the base branch, upstream, a recent diff or
/// the changelog reads the main-branch diff (words matched after ASCII
/// lower-casing).
pub proof fn lemma_compartment_selection(role: TaskRole, work: WorkType, requested: Seq<char>)
    ensures
        selected_compartments(role, work, requested).contains(ContextCompartment::RepoMap),
        rank_ascending(selected_compartments(role, work, requested)),
        any_of(ascii_lower_seq(requested), seq!["test"@, "verify"@, "lint"@, "coverage"@, "regression"@, "flaky"@])
            ==> selected_compartments(role, work, requested).contains(ContextCompartment::Quality),
        any_of(ascii_lower_seq(requested), seq!["main"@, "base branch"@, "upstream"@, "recent diff"@, "changelog"@])
            ==> selected_compartments(role, work, requested).contains(ContextCompartment::MainDiff),
{
    let o = compartment_order();
    let pred = |c: ContextCompartment| reads_compartment(role, work, ascii_lower_seq(requested), c);
    assert(rank_ascending(o));
    lemma_filter_keeps_rank(o, pred);
    o.lemma_filter_contains(pred, 0);
    if pred(o[3]) {
        o.lemma_filter_contains(pred, 3);
    }
    if pred(o[4]) {
        o.lemma_filter_contains(pred, 4);
    }
}

/// The compartments a task of `role` doing `work` reads for `requested_work`.
pub fn select_task_compartments(role: TaskRole, work: &WorkType, requested_work: &str) -> (res: Vec<ContextCompartment>)
    ensures
        res@ == selected_compartments(role, *work, requested_work@),
{
    let lower = to_ascii_lowercase(requested_work);
    let l = lower.as_str();
    let w1: [&str; 6] = ["graphite", "restack", "submit", "rebase", "branch", "stack"];
    let w2: [&str; 6] = ["test", "verify", "lint", "coverage", "regression", "flaky"];
    let w3: [&str; 6] = ["architecture", "design", "boundary", "service", "module", "core"];
    let w4: [&str; 5] = ["main", "base branch", "upstream", "recent diff", "changelog"];
    assert(w1@.map_values(|w: &str| w@) =~= seq!["graphite"@, "restack"@, "submit"@, "rebase"@, "branch"@, "stack"@]);
    assert(w2@.map_values(|w: &str| w@) =~= seq!["test"@, "verify"@, "lint"@, "coverage"@, "regression"@, "flaky"@]);
    assert(w3@.map_values(|w: &str| w@) =~= seq!["architecture"@, "design"@, "boundary"@, "service"@, "module"@, "core"@]);
    assert(w4@.map_values(|w: &str| w@) =~= seq!["main"@, "base branch"@, "upstream"@, "recent diff"@, "changelog"@]);
    let workflow_words = contains_any(l, &w1);
    let quality_words = contains_any(l, &w2);
    let arch_words = contains_any(l, &w3);
    let diff_words = contains_any(l, &w4);
    let arch = match role {
        TaskRole::Architecture | TaskRole::Docs | TaskRole::Frontend | TaskRole::General => true,
        _ => false,
    } || match work {
        WorkType::Feature | WorkType::Refactor | WorkType::Docs => true,
        _ => false,
    } || arch_words;
    let flows = match role {
        TaskRole::GraphiteStack | TaskRole::General => true,
        _ => false,
    } || workflow_words;
    let quality = match role {
        TaskRole::Frontend | TaskRole::Tests => true,
        _ => false,
    } || match work {
        WorkType::Bugfix | WorkType::Test => true,
        _ => false,
    } || quality_words;
    let mut out: Vec<ContextCompartment> = Vec::new();
    out.push(ContextCompartment::RepoMap);
    if arch {
        out.push(ContextCompartment::Architecture);
    }
    if flows {
        out.push(ContextCompartment::Workflows);
    }
    if quality {
        out.push(ContextCompartment::Quality);
    }
    if diff_words {
        out.push(ContextCompartment::MainDiff);
    }
    proof {
        let f = |c: ContextCompartment| reads_compartment(role, *work, ascii_lower_seq(requested_work@), c);
        let o = compartment_order();
        assert(o.filter(f) =~= out@) by {
            reveal_with_fuel(Seq::filter, 6);
            assert(o.drop_last().drop_last().drop_last().drop_last().drop_last() =~= Seq::<ContextCompartment>::empty());
        }
    }
    out
}

/// The text of the core and global files.
pub open spec fn core_text(base_branch: Seq<char>) -> Seq<char> {
    "# Global Context Core\n\nThis file is the shared entry point for task context.\nRead this file first, then open only the compartments requested in the task prompt.\n\n## Compartments\n- `compartments/repo-map.md`: where code and services live\n- `compartments/architecture.md`: system boundaries and ownership\n- `compartments/workflows.md`: task, Graphite, and branch lifecycle practices\n- `compartments/quality.md`: verify, testing, and review expectations\n- `compartments/main-diff.md`: what to check in base-branch update snapshots\n\n## Base Branch Update Feed\n- tracked branch: `"@ + base_branch + "`\n- latest snapshot: `updates/main-diff-latest.md`\n- history snapshots: `updates/main-diff-<sha>.md`\n"@
}

/// Renders the core file for `base_branch`.
pub fn render_core(base_branch: &str) -> (res: String)
    ensures
        res@ == core_text(base_branch@),
{
    let mut out = String::from_str("# Global Context Core\n\nThis file is the shared entry point for task context.\nRead this file first, then open only the compartments requested in the task prompt.\n\n## Compartments\n- `compartments/repo-map.md`: where code and services live\n- `compartments/architecture.md`: system boundaries and ownership\n- `compartments/workflows.md`: task, Graphite, and branch lifecycle practices\n- `compartments/quality.md`: verify, testing, and review expectations\n- `compartments/main-diff.md`: what to check in base-branch update snapshots\n\n## Base Branch Update Feed\n- tracked branch: `");
    out.append(base_branch);
    out.append("`\n- latest snapshot: `updates/main-diff-latest.md`\n- history snapshots: `updates/main-diff-<sha>.md`\n");
    out
}

/// The starting text of a compartment file.
pub open spec fn compartment_text(c: ContextCompartment) -> Seq<char> {
    match c {
        ContextCompartment::RepoMap => "# Repo Map\n\nKeep this file focused on where things live.\n\n## Primary Crates\n- `crates/orch-core`: shared state, events, and config types\n- `crates/orchd`: daemon, scheduler, runtime, and orchestration flows\n- `crates/orch-agents`: adapters and epoch execution helpers\n- `crates/orch-git`, `crates/orch-graphite`, `crates/orch-verify`: external tool wrappers\n- `crates/orch-tui`, `crates/orch-web`: operator interfaces\n\n## Runtime Storage\n- `.orch/state.sqlite`: canonical orchestrator state\n- `.orch/events/`: JSONL task/global event logs\n- `.orch/wt/<task-id>`: task worktrees\n- `.orch/context/`: shared task context (this system)\n"@,
        ContextCompartment::Architecture => "# Architecture\n\nUse this compartment for system boundaries and ownership.\n\n## Runtime Flow\n1. Scheduler selects queued tasks.\n2. Runtime initializes branches/worktrees and verify phases.\n3. Agent sessions drive implementation and emit lifecycle signals.\n4. Service/event log records every state transition.\n\n## Ownership Heuristics\n- lifecycle and transitions: `crates/orchd/src/service.rs`\n- orchestration tick behavior: `crates/orchd/src/runtime.rs`\n- task prompt and TUI/daemon wiring: `crates/orchd/src/main.rs`\n"@,
        ContextCompartment::Workflows => "# Workflows\n\nUse this compartment for branch lifecycle and operator actions.\n\n## Task Lifecycle\n- create task -> queued -> initializing -> running\n- verify/review gates promote to ready/submitting\n- merged tasks are detected and cleaned up\n\n## Branch + Stack Practices\n- task branches are managed through Graphite wrappers\n- restack conflicts can trigger a dedicated conflict-resolution session\n- submit mode can be single-branch or stack-based per repo config\n"@,
        ContextCompartment::Quality => "# Quality\n\nUse this compartment for verification and review expectations.\n\n## Verification\n- quick and full verify commands come from repo config\n- runtime records verify events and promotes/blocks state transitions\n\n## Review Expectations\n- review gate policy determines required approvals and capacity\n- critical findings should include file + line references when available\n- changes should include focused tests for regressions and state transitions\n"@,
        ContextCompartment::MainDiff => "# Main Diff\n\nThis compartment explains base-branch update snapshots.\n\n## Inputs\n- `updates/main-diff-latest.md`: current snapshot\n- `updates/main-diff-<sha>.md`: historical snapshots\n\n## Guidance\n- check changed files before broad refactors\n- prefer targeted updates aligned with recent base-branch movement\n- if your task collides with recently changed files, re-read the latest snapshot\n"@,
    }
}

/// Renders the starting text of a compartment file.
pub fn render_compartment(c: ContextCompartment) -> (res: String)
    ensures
        res@ == compartment_text(c),
{
    match c {
        ContextCompartment::RepoMap => String::from_str("# Repo Map\n\nKeep this file focused on where things live.\n\n## Primary Crates\n- `crates/orch-core`: shared state, events, and config types\n- `crates/orchd`: daemon, scheduler, runtime, and orchestration flows\n- `crates/orch-agents`: adapters and epoch execution helpers\n- `crates/orch-git`, `crates/orch-graphite`, `crates/orch-verify`: external tool wrappers\n- `crates/orch-tui`, `crates/orch-web`: operator interfaces\n\n## Runtime Storage\n- `.orch/state.sqlite`: canonical orchestrator state\n- `.orch/events/`: JSONL task/global event logs\n- `.orch/wt/<task-id>`: task worktrees\n- `.orch/context/`: shared task context (this system)\n"),
        ContextCompartment::Architecture => String::from_str("# Architecture\n\nUse this compartment for system boundaries and ownership.\n\n## Runtime Flow\n1. Scheduler selects queued tasks.\n2. Runtime initializes branches/worktrees and verify phases.\n3. Agent sessions drive implementation and emit lifecycle signals.\n4. Service/event log records every state transition.\n\n## Ownership Heuristics\n- lifecycle and transitions: `crates/orchd/src/service.rs`\n- orchestration tick behavior: `crates/orchd/src/runtime.rs`\n- task prompt and TUI/daemon wiring: `crates/orchd/src/main.rs`\n"),
        ContextCompartment::Workflows => String::from_str("# Workflows\n\nUse this compartment for branch lifecycle and operator actions.\n\n## Task Lifecycle\n- create task -> queued -> initializing -> running\n- verify/review gates promote to ready/submitting\n- merged tasks are detected and cleaned up\n\n## Branch + Stack Practices\n- task branches are managed through Graphite wrappers\n- restack conflicts can trigger a dedicated conflict-resolution session\n- submit mode can be single-branch or stack-based per repo config\n"),
        ContextCompartment::Quality => String::from_str("# Quality\n\nUse this compartment for verification and review expectations.\n\n## Verification\n- quick and full verify commands come from repo config\n- runtime records verify events and promotes/blocks state transitions\n\n## Review Expectations\n- review gate policy determines required approvals and capacity\n- critical findings should include file + line references when available\n- changes should include focused tests for regressions and state transitions\n"),
        ContextCompartment::MainDiff => String::from_str("# Main Diff\n\nThis compartment explains base-branch update snapshots.\n\n## Inputs\n- `updates/main-diff-latest.md`: current snapshot\n- `updates/main-diff-<sha>.md`: historical snapshots\n\n## Guidance\n- check changed files before broad refactors\n- prefer targeted updates aligned with recent base-branch movement\n- if your task collides with recently changed files, re-read the latest snapshot\n"),
    }
}

/// The snapshot written before any update is captured, at the time `at`
/// (RFC 3339 text).
pub open spec fn empty_diff_text(base_branch: Seq<char>, at: Seq<char>) -> Seq<char> {
    "# Main Branch Diff Snapshot\n\nGenerated at: "@ + at + "\nBranch: "@ + base_branch + "\nFrom: <none>\nTo: <unknown>\nRange: <none>\nSummary: no updates captured yet\nChanged files: 0\n\n## Name-status\n```text\n(no updates captured yet)\n```\n"@
}

/// Renders the snapshot written before any update is captured.
pub fn render_empty_main_diff(base_branch: &str, at: &str) -> (res: String)
    ensures
        res@ == empty_diff_text(base_branch@, at@),
{
    let mut out = String::from_str("# Main Branch Diff Snapshot\n\nGenerated at: ");
    out.append(at);
    out.append("\nBranch: ");
    out.append(base_branch);
    out.append("\nFrom: <none>\nTo: <unknown>\nRange: <none>\nSummary: no updates captured yet\nChanged files: 0\n\n## Name-status\n```text\n(no updates captured yet)\n```\n");
    out
}

/// What a base-branch diff captured.
#[derive(Debug, Clone)]
pub struct BranchDiffSummary {
    pub range_label: String,
    pub shortstat: Option<String>,
    pub name_status_lines: Vec<String>,
}

/// The trimmed nonempty lines of a text.
pub open spec fn nonempty_trimmed(ls: Seq<Seq<char>>) -> Seq<Seq<char>>
    decreases ls.len(),
{
    if ls.len() == 0 {
        Seq::empty()
    } else {
        let rest = nonempty_trimmed(ls.drop_last());
        if trim(ls.last()).len() > 0 { rest.push(trim(ls.last())) } else { rest }
    }
}

/// The first trimmed nonempty line of a text.
pub open spec fn first_nonempty(ls: Seq<Seq<char>>) -> Option<Seq<char>> {
    let t = nonempty_trimmed(ls);
    if t.len() > 0 { Some(t[0]) } else { None }
}

/// Builds the diff summary from git's name-status and shortstat output.
pub fn summarize_diff_output(range_label: String, name_status_output: &str, shortstat_output: &str) -> (res: BranchDiffSummary)
    ensures
        res.range_label == range_label,
        res.name_status_lines.deep_view() == nonempty_trimmed(lines(name_status_output@)),
        match res.shortstat {
            Some(s) => first_nonempty(lines(shortstat_output@)) == Some(s@),
            None => first_nonempty(lines(shortstat_output@)) is None,
        },
{
    let names = nonempty_lines(name_status_output);
    let stats = nonempty_lines(shortstat_output);
    let shortstat = if stats.len() > 0 { Some(stats[0].clone()) } else { None };
    BranchDiffSummary { range_label, shortstat, name_status_lines: names }
}

fn nonempty_lines(text: &str) -> (res: Vec<String>)
    ensures
        res.deep_view() == nonempty_trimmed(lines(text@)),
{
    let v = chars_of(text);
    let ls = split_lines(&v);
    let mut out: Vec<String> = Vec::new();
    let mut i: usize = 0;
    while i < ls.len()
        invariant
            i <= ls@.len(),
            ls.deep_view() == lines(text@),
            out.deep_view() == nonempty_trimmed(ls.deep_view().take(i as int)),
        decreases ls@.len() - i,
    {
        assert(ls.deep_view().take(i + 1).drop_last() =~= ls.deep_view().take(i as int));
        assert(ls.deep_view().take(i + 1).last() == ls@[i as int]@);
        let t = str_trim(ls[i].as_str());
        if !t.as_str().is_empty() {
            let ghost before = out.deep_view();
            out.push(t);
            assert(out.deep_view() =~= before.push(trim(ls@[i as int]@)));
        }
        i = i + 1;
    }
    assert(ls.deep_view().take(ls@.len() as int) =~= ls.deep_view());
    out
}

/// The snapshot of a base-branch update.
pub open spec fn diff_snapshot_text(base_branch: Seq<char>, previous: Option<Seq<char>>, current: Seq<char>, at: Seq<char>, d: BranchDiffSummary) -> Seq<char> {
    let from = match previous { Some(p) => p, None => "<none>"@ };
    let stat = match d.shortstat { Some(s) => s@, None => "no shortstat available from git"@ };
    let names = if d.name_status_lines@.len() == 0 { "(no file-level changes)"@ } else { join(d.name_status_lines.deep_view(), "\n"@) };
    "# Main Branch Diff Snapshot\n\nGenerated at: "@ + at + "\nBranch: "@ + base_branch + "\nFrom: "@ + from + "\nTo: "@ + current + "\nRange: "@ + d.range_label@
        + "\nSummary: "@ + stat + "\nChanged files: "@ + decimal(d.name_status_lines@.len()) + "\n\n## Name-status\n```text\n"@ + names + "\n```\n"@
}

/// Renders the snapshot of a base-branch update at `at` (RFC 3339 text).
pub fn render_main_diff_snapshot(base_branch: &str, previous_head: &Option<String>, current_head: &str, at: &str, diff: &BranchDiffSummary) -> (res: String)
    ensures
        res@ == diff_snapshot_text(base_branch@, match previous_head { Some(p) => Some(p@), None => None }, current_head@, at@, *diff),
{
    let mut out = String::from_str("# Main Branch Diff Snapshot\n\nGenerated at: ");
    out.append(at);
    out.append("\nBranch: ");
    out.append(base_branch);
    out.append("\nFrom: ");
    match previous_head {
        Some(p) => out.append(p.as_str()),
        None => out.append("<none>"),
    }
    out.append("\nTo: ");
    out.append(current_head);
    out.append("\nRange: ");
    out.append(diff.range_label.as_str());
    out.append("\nSummary: ");
    match &diff.shortstat {
        Some(s) => out.append(s.as_str()),
        None => out.append("no shortstat available from git"),
    }
    out.append("\nChanged files: ");
    push_decimal(&mut out, diff.name_status_lines.len() as u64);
    out.append("\n\n## Name-status\n```text\n");
    if diff.name_status_lines.len() == 0 {
        out.append("(no file-level changes)");
    } else {
        let j = join_strings(&diff.name_status_lines, "\n");
        out.append(j.as_str());
    }
    out.append("\n```\n");
    out
}

/// The file name of the snapshot kept for a head commit.
pub open spec fn snapshot_name_of(head: Seq<char>) -> Seq<char> {
    "main-diff-"@ + short_sha_of(head) + ".md"@
}

/// Whether the base branch moved since the marker was written.
pub open spec fn refresh_needed(previous_head: Option<Seq<char>>, current_head: Seq<char>) -> bool {
    previous_head != Some(current_head)
}

/// Whether the snapshot must be refreshed for `current_head`.
pub fn needs_refresh(previous_head: &Option<String>, current_head: &str) -> (res: bool)
    ensures
        res == refresh_needed(match previous_head { Some(p) => Some(p@), None => None }, current_head@),
{
    match previous_head {
        Some(p) => !str_eq(p.as_str(), current_head),
        None => true,
    }
}

/// One line per selected compartment: its path and purpose.
pub open spec fn compartment_lines(dir: Seq<char>, cs: Seq<ContextCompartment>) -> Seq<Seq<char>> {
    cs.map_values(|c: ContextCompartment| "- "@ + path_join(dir, compartment_file(c)) + " ("@ + compartment_purpose(c) + ")"@)
}

/// The context section of a task prompt.
pub open spec fn task_context_text(paths: GlobalContextPaths, selected: Seq<ContextCompartment>) -> Seq<char> {
    "Global context (shared across all tasks in this repo):\nGlobal file: "@ + paths.global_path@ + "\nCore file (legacy alias): "@ + paths.core_path@ + "\nUse compartment-based loading:\n1. Read the global file first.\n2. Only read the compartment files below unless you discover a concrete need.\n"@
        + join(compartment_lines(paths.compartments_dir@, selected), "\n"@) + "\n3. If base-branch changes are relevant, read: "@ + paths.latest_main_diff_path@
}

/// The context section of a task's prompt: the global and core files, the
/// selected compartments, and the latest base-branch snapshot.
pub fn build_task_context_prompt(paths: &GlobalContextPaths, role: TaskRole, work: &WorkType, requested_work: &str) -> (res: String)
    ensures
        res@ == task_context_text(*paths, selected_compartments(role, *work, requested_work@)),
{
    let selected = select_task_compartments(role, work, requested_work);
    let mut ls: Vec<String> = Vec::new();
    let mut i: usize = 0;
    while i < selected.len()
        invariant
            i <= selected@.len(),
            ls.deep_view() == compartment_lines(paths.compartments_dir@, selected@.take(i as int)),
        decreases selected@.len() - i,
    {
        let c = selected[i];
        let mut line = String::from_str("- ");
        let p = join_path(paths.compartments_dir.as_str(), c.file_name());
        line.append(p.as_str());
        line.append(" (");
        line.append(c.purpose());
        line.append(")");
        let ghost before = ls.deep_view();
        let ghost lv = line@;
        ls.push(line);
        assert(ls.deep_view() =~= before.push(lv));
        assert(selected@.take(i + 1) =~= selected@.take(i as int).push(c));
        assert(compartment_lines(paths.compartments_dir@, selected@.take(i + 1)) =~= compartment_lines(paths.compartments_dir@, selected@.take(i as int)).push(lv));
        i = i + 1;
    }
    assert(selected@.take(selected@.len() as int) =~= selected@);
    let body = join_strings(&ls, "\n");
    let mut out = String::from_str("Global context (shared across all tasks in this repo):\nGlobal file: ");
    out.append(paths.global_path.as_str());
    out.append("\nCore file (legacy alias): ");
    out.append(paths.core_path.as_str());
    out.append("\nUse compartment-based loading:\n1. Read the global file first.\n2. Only read the compartment files below unless you discover a concrete need.\n");
    out.append(body.as_str());
    out.append("\n3. If base-branch changes are relevant, read: ");
    out.append(paths.latest_main_diff_path.as_str());
    out
}

} // verus!
