//! Agent roles and the classification of a task's intent, which decide
//! which agent a task goes to.

use vstd::prelude::*;
use crate::text::{ascii_lower_seq, chars_of, contains, occurs_at, occurs_at_exec, str_contains, to_ascii_lowercase};
use crate::str_map::KeyMap;

verus! {

/// An agent persona.
#[derive(Debug, Clone, Copy, PartialEq, Eq, Structural)]
pub enum AgentRole {
    /// The forge: code generation and implementation.
    Hephaestus,
    /// Deep reasoning, complex problems and error recovery.
    Sisyphus,
    /// Documentation, review and clarity.
    Librarian,
    /// Quick exploration and simple fixes.
    Explorer,
    /// Architecture and high-level reasoning.
    Oracle,
    /// Visual and multimodal work.
    Multimodal,
}

/// The display name of a role.
pub open spec fn role_name(r: AgentRole) -> Seq<char> {
    match r {
        AgentRole::Hephaestus => "hephaestus"@,
        AgentRole::Sisyphus => "sisyphus"@,
        AgentRole::Librarian => "librarian"@,
        AgentRole::Explorer => "explorer"@,
        AgentRole::Oracle => "oracle"@,
        AgentRole::Multimodal => "multimodal"@,
    }
}

/// The persona text of a role.
pub open spec fn role_persona(r: AgentRole) -> Seq<char> {
    match r {
        AgentRole::Hephaestus => "You are Hephaestus, the divine craftsman. Your specialty is forging code with precision and efficiency. Focus on implementation, write clean code, and signal [patch_ready] when done."@,
        AgentRole::Sisyphus => "You are Sisyphus, the eternal problem solver. You tackle complex challenges with persistence and deep analysis. When facing errors, analyze root causes before proposing solutions."@,
        AgentRole::Librarian => "You are the Librarian, keeper of documentation and clarity. Your role is to review code for correctness, improve documentation, and ensure maintainability."@,
        AgentRole::Explorer => "You are the Explorer, quick and nimble. Handle simple fixes, explore codebases rapidly, and identify issues without overthinking."@,
        AgentRole::Oracle => "You are the Oracle, providing high-level architectural guidance. Focus on design decisions, system architecture, and strategic planning."@,
        AgentRole::Multimodal => "You are capable of visual reasoning. Analyze images, diagrams, and visual content alongside code."@,
    }
}

/// The extra command-line arguments of a role.
pub open spec fn role_args(r: AgentRole) -> Seq<Seq<char>> {
    match r {
        AgentRole::Sisyphus => seq!["--model"@, "opus"@],
        AgentRole::Librarian => seq!["--model"@, "sonnet"@],
        AgentRole::Explorer => seq!["--model"@, "haiku"@],
        _ => Seq::empty(),
    }
}

impl AgentRole {
    /// The role's display name.
    pub fn name(&self) -> (res: &'static str)
        ensures
            res@ == role_name(*self),
    {
        match self {
            AgentRole::Hephaestus => "hephaestus",
            AgentRole::Sisyphus => "sisyphus",
            AgentRole::Librarian => "librarian",
            AgentRole::Explorer => "explorer",
            AgentRole::Oracle => "oracle",
            AgentRole::Multimodal => "multimodal",
        }
    }

    /// The persona text injected into the agent's prompt.
    pub fn persona(&self) -> (res: &'static str)
        ensures
            res@ == role_persona(*self),
    {
        match self {
            AgentRole::Hephaestus => "You are Hephaestus, the divine craftsman. Your specialty is forging code with precision and efficiency. Focus on implementation, write clean code, and signal [patch_ready] when done.",
            AgentRole::Sisyphus => "You are Sisyphus, the eternal problem solver. You tackle complex challenges with persistence and deep analysis. When facing errors, analyze root causes before proposing solutions.",
            AgentRole::Librarian => "You are the Librarian, keeper of documentation and clarity. Your role is to review code for correctness, improve documentation, and ensure maintainability.",
            AgentRole::Explorer => "You are the Explorer, quick and nimble. Handle simple fixes, explore codebases rapidly, and identify issues without overthinking.",
            AgentRole::Oracle => "You are the Oracle, providing high-level architectural guidance. Focus on design decisions, system architecture, and strategic planning.",
            AgentRole::Multimodal => "You are capable of visual reasoning. Analyze images, diagrams, and visual content alongside code.",
        }
    }

    /// Extra command-line arguments that select the role's model.
    pub fn extra_args(&self) -> (res: Vec<String>)
        ensures
            res.deep_view() == role_args(*self),
    {
        let pair = |m: &str| -> (v: Vec<String>)
            ensures
                v.deep_view() == seq!["--model"@, m@],
        {
            let mut v: Vec<String> = Vec::new();
            v.push(String::from_str("--model"));
            v.push(String::from_str(m));
            assert(v.deep_view() =~= seq!["--model"@, m@]);
            v
        };
        match self {
            AgentRole::Sisyphus => pair("opus"),
            AgentRole::Librarian => pair("sonnet"),
            AgentRole::Explorer => pair("haiku"),
            _ => {
                let v: Vec<String> = Vec::new();
                assert(v.deep_view() =~= Seq::<Seq<char>>::empty());
                v
            },
        }
    }

    /// The role's display name, owned.
    pub fn to_string(&self) -> (res: String)
        ensures
            res@ == role_name(*self),
    {
        String::from_str(self.name())
    }
}

/// The kind of a task, as the task store records it.
#[derive(Debug, Clone, Copy, PartialEq, Eq, Structural)]
pub enum TaskType {
    Implement,
    TestSpecWrite,
    TestValidate,
    Orchestrate,
}

/// What a task is trying to do.
#[derive(Debug, Clone, Copy, PartialEq, Eq, Structural)]
pub enum TaskIntent {
    Implementation,
    BugFix,
    Refactor,
    Documentation,
    Review,
    Testing,
    ErrorRecovery,
    Architecture,
    QuickFix,
    Visual,
    Unknown,
}

/// Whether any of the words occurs in `s`.
pub open spec fn any_word(s: Seq<char>, words: Seq<Seq<char>>) -> bool {
    exists|i: int| 0 <= i < words.len() && contains(s, #[trigger] words[i])
}

/// The intent of a task: error recovery for retries, testing or
/// architecture by kind, else the first keyword group that the lower-cased
/// title matches, else implementation.
pub open spec fn intent_of(title: Seq<char>, task_type: TaskType, is_retry: bool) -> TaskIntent {
    let lower = ascii_lower_seq(title);
    if is_retry {
        TaskIntent::ErrorRecovery
    } else if task_type == TaskType::TestSpecWrite || task_type == TaskType::TestValidate {
        TaskIntent::Testing
    } else if task_type == TaskType::Orchestrate {
        TaskIntent::Architecture
    } else if any_word(lower, seq!["document"@, "readme"@, "comment"@, "docs"@]) {
        TaskIntent::Documentation
    } else if any_word(lower, seq!["review"@, "audit"@, "check"@]) {
        TaskIntent::Review
    } else if any_word(lower, seq!["typo"@, "simple"@, "minor"@, "small"@]) {
        TaskIntent::QuickFix
    } else if any_word(lower, seq!["bug"@, "issue"@, "error"@, "broken"@, "fix"@]) {
        TaskIntent::BugFix
    } else if any_word(lower, seq!["refactor"@, "clean"@, "restructure"@, "reorganize"@]) {
        TaskIntent::Refactor
    } else if any_word(lower, seq!["test"@, "spec"@, "coverage"@]) {
        TaskIntent::Testing
    } else if any_word(lower, seq!["architect"@, "design"@, "structure"@, "plan"@]) {
        TaskIntent::Architecture
    } else if any_word(lower, seq!["rename"@]) {
        TaskIntent::QuickFix
    } else if any_word(lower, seq!["image"@, "diagram"@, "visual"@, "screenshot"@]) {
        TaskIntent::Visual
    } else {
        TaskIntent::Implementation
    }
}

/// A retry is error recovery, and a task that writes or validates test
/// specs is testing work and an orchestration task architecture work, all
/// by the task's kind: the title decides only for implementation tasks.
pub proof fn lemma_intent_by_kind(title: Seq<char>, task_type: TaskType, is_retry: bool)
    ensures
        is_retry ==> intent_of(title, task_type, is_retry) == TaskIntent::ErrorRecovery,
        !is_retry && (task_type == TaskType::TestSpecWrite || task_type == TaskType::TestValidate)
            ==> intent_of(title, task_type, is_retry) == TaskIntent::Testing,
        !is_retry && task_type == TaskType::Orchestrate ==> intent_of(title, task_type, is_retry) == TaskIntent::Architecture,
        forall|other: Seq<char>| task_type != TaskType::Implement || is_retry
            ==> intent_of(title, task_type, is_retry) == #[trigger] intent_of(other, task_type, is_retry),
{
}

/// An implementation task (not a retry) whose title mentions documents, a
/// readme, comments or docs, in any ASCII case, is documentation work.
pub proof fn lemma_documentation_titles(title: Seq<char>)
    ensures
        (contains(ascii_lower_seq(title), "document"@) || contains(ascii_lower_seq(title), "readme"@)
            || contains(ascii_lower_seq(title), "comment"@) || contains(ascii_lower_seq(title), "docs"@))
            ==> intent_of(title, TaskType::Implement, false) == TaskIntent::Documentation,
{
    let ws = seq!["document"@, "readme"@, "comment"@, "docs"@];
    let lower = ascii_lower_seq(title);
    assert(ws[0] == "document"@ && ws[1] == "readme"@ && ws[2] == "comment"@ && ws[3] == "docs"@);
    if contains(lower, "document"@) {
        assert(contains(lower, ws[0]));
    }
    if contains(lower, "readme"@) {
        assert(contains(lower, ws[1]));
    }
    if contains(lower, "comment"@) {
        assert(contains(lower, ws[2]));
    }
    if contains(lower, "docs"@) {
        assert(contains(lower, ws[3]));
    }
}

fn any_of(s: &str, words: &[&str]) -> (res: bool)
    ensures
        res == any_word(s@, words@.map_values(|w: &str| w@)),
{
    let ghost ws = words@.map_values(|w: &str| w@);
    let mut i: usize = 0;
    while i < words.len()
        invariant
            i <= words@.len(),
            ws == words@.map_values(|w: &str| w@),
            forall|j: int| 0 <= j < i ==> !contains(s@, #[trigger] ws[j]),
        decreases words@.len() - i,
    {
        if str_contains(s, words[i]) {
            assert(contains(s@, ws[i as int]));
            return true;
        }
        i = i + 1;
    }
    false
}

impl TaskIntent {
    /// Classifies a task by its title, kind and whether it is a retry.
    pub fn classify(title: &str, task_type: TaskType, is_retry: bool) -> (res: Self)
        ensures
            res == intent_of(title@, task_type, is_retry),
            is_retry ==> res == TaskIntent::ErrorRecovery,
            !is_retry && (task_type == TaskType::TestSpecWrite || task_type == TaskType::TestValidate) ==> res == TaskIntent::Testing,
            !is_retry && task_type == TaskType::Orchestrate ==> res == TaskIntent::Architecture,
    {
        proof {
            lemma_intent_by_kind(title@, task_type, is_retry);
        }
        let lower = to_ascii_lowercase(title);
        let l = lower.as_str();
        if is_retry {
            return TaskIntent::ErrorRecovery;
        }
        match task_type {
            TaskType::TestSpecWrite => { return TaskIntent::Testing; },
            TaskType::TestValidate => { return TaskIntent::Testing; },
            TaskType::Orchestrate => { return TaskIntent::Architecture; },
            TaskType::Implement => {},
        }
        let words: [&str; 4] = ["document", "readme", "comment", "docs"];
        assert(words@.map_values(|w: &str| w@) =~= seq!["document"@, "readme"@, "comment"@, "docs"@]);
        if any_of(l, &words) {
            return TaskIntent::Documentation;
        }
        let words: [&str; 3] = ["review", "audit", "check"];
        assert(words@.map_values(|w: &str| w@) =~= seq!["review"@, "audit"@, "check"@]);
        if any_of(l, &words) {
            return TaskIntent::Review;
        }
        let words: [&str; 4] = ["typo", "simple", "minor", "small"];
        assert(words@.map_values(|w: &str| w@) =~= seq!["typo"@, "simple"@, "minor"@, "small"@]);
        if any_of(l, &words) {
            return TaskIntent::QuickFix;
        }
        let words: [&str; 5] = ["bug", "issue", "error", "broken", "fix"];
        assert(words@.map_values(|w: &str| w@) =~= seq!["bug"@, "issue"@, "error"@, "broken"@, "fix"@]);
        if any_of(l, &words) {
            return TaskIntent::BugFix;
        }
        let words: [&str; 4] = ["refactor", "clean", "restructure", "reorganize"];
        assert(words@.map_values(|w: &str| w@) =~= seq!["refactor"@, "clean"@, "restructure"@, "reorganize"@]);
        if any_of(l, &words) {
            return TaskIntent::Refactor;
        }
        let words: [&str; 3] = ["test", "spec", "coverage"];
        assert(words@.map_values(|w: &str| w@) =~= seq!["test"@, "spec"@, "coverage"@]);
        if any_of(l, &words) {
            return TaskIntent::Testing;
        }
        let words: [&str; 4] = ["architect", "design", "structure", "plan"];
        assert(words@.map_values(|w: &str| w@) =~= seq!["architect"@, "design"@, "structure"@, "plan"@]);
        if any_of(l, &words) {
            return TaskIntent::Architecture;
        }
        let words: [&str; 1] = ["rename"];
        assert(words@.map_values(|w: &str| w@) =~= seq!["rename"@]);
        if any_of(l, &words) {
            return TaskIntent::QuickFix;
        }
        let words: [&str; 4] = ["image", "diagram", "visual", "screenshot"];
        assert(words@.map_values(|w: &str| w@) =~= seq!["image"@, "diagram"@, "visual"@, "screenshot"@]);
        if any_of(l, &words) {
            return TaskIntent::Visual;
        }
        TaskIntent::Implementation
    }
}


impl View for AgentRole {
    type V = AgentRole;

    open spec fn view(&self) -> AgentRole {
        *self
    }
}

/// Where a task goes: the role, the confidence in hundredths, the reason,
/// the role to fall back to, and text to add to the prompt.
#[derive(Debug, Clone, PartialEq, Eq)]
pub struct DispatchDecision {
    pub role: AgentRole,
    pub confidence_pct: u32,
    pub reasoning: String,
    pub fallback: Option<AgentRole>,
    pub context_additions: Vec<String>,
}

/// Which specialists the dispatcher uses, and per-repository overrides.
#[derive(Debug)]
pub struct DispatchConfig {
    pub sisyphus_error_recovery: bool,
    pub hephaestus_code_gen: bool,
    pub explorer_quick_fixes: bool,
    pub repo_overrides: KeyMap<AgentRole>,
}

/// The dispatcher.
#[derive(Debug)]
pub struct AgentDispatcher {
    pub config: DispatchConfig,
}

/// The route for an intent, as role, confidence in hundredths, reason and
/// fallback; `complex` says whether the title's complexity exceeds the
/// configured threshold (it decides bug fixes).
pub open spec fn route(intent: TaskIntent, c: DispatchConfig, complex: bool) -> (AgentRole, u32, Seq<char>, Option<AgentRole>) {
    match intent {
        TaskIntent::ErrorRecovery => if c.sisyphus_error_recovery {
            (AgentRole::Sisyphus, 95, "Error recovery requires deep analysis (Sisyphus)"@, Some(AgentRole::Hephaestus))
        } else {
            (AgentRole::Hephaestus, 60, "Default error recovery"@, None)
        },
        TaskIntent::Implementation => if c.hephaestus_code_gen {
            (AgentRole::Hephaestus, 90, "Code implementation \u{2192} Hephaestus (Codex)"@, Some(AgentRole::Sisyphus))
        } else {
            (AgentRole::Sisyphus, 70, "Fallback implementation"@, None)
        },
        TaskIntent::BugFix => if complex {
            (AgentRole::Sisyphus, 85, "Complex bug fix \u{2192} Sisyphus"@, Some(AgentRole::Hephaestus))
        } else {
            (AgentRole::Hephaestus, 80, "Standard bug fix \u{2192} Hephaestus"@, Some(AgentRole::Explorer))
        },
        TaskIntent::Refactor => (AgentRole::Hephaestus, 85, "Refactoring \u{2192} Hephaestus"@, Some(AgentRole::Librarian)),
        TaskIntent::Documentation => (AgentRole::Librarian, 90, "Documentation \u{2192} Librarian"@, Some(AgentRole::Explorer)),
        TaskIntent::Review => (AgentRole::Librarian, 90, "Code review \u{2192} Librarian"@, Some(AgentRole::Sisyphus)),
        TaskIntent::Testing => (AgentRole::Hephaestus, 80, "Test writing \u{2192} Hephaestus"@, Some(AgentRole::Librarian)),
        TaskIntent::Architecture => (AgentRole::Oracle, 85, "Architecture decisions \u{2192} Oracle"@, Some(AgentRole::Sisyphus)),
        TaskIntent::QuickFix => if c.explorer_quick_fixes {
            (AgentRole::Explorer, 90, "Quick fix \u{2192} Explorer (fast)"@, Some(AgentRole::Hephaestus))
        } else {
            (AgentRole::Hephaestus, 70, "Fallback quick fix"@, None)
        },
        TaskIntent::Visual => (AgentRole::Multimodal, 90, "Visual task \u{2192} Multimodal (Gemini)"@, Some(AgentRole::Sisyphus)),
        TaskIntent::Unknown => (AgentRole::Hephaestus, 50, "Unknown intent \u{2192} default to Hephaestus"@, Some(AgentRole::Sisyphus)),
    }
}

/// The prompt additions of a decision: only error recovery through
/// Sisyphus adds any.
pub open spec fn route_additions(intent: TaskIntent, c: DispatchConfig, failure_reason: Option<Seq<char>>) -> Seq<Seq<char>> {
    if intent == TaskIntent::ErrorRecovery && c.sisyphus_error_recovery {
        let first = seq!["This is a retry attempt. Analyze the previous failure carefully."@];
        match failure_reason {
            Some(r) => first.push("Previous failure reason: "@ + r),
            None => first,
        }
    } else {
        Seq::empty()
    }
}

/// The fallback after a failed attempt.
pub open spec fn fallback_for(current: AgentRole, attempt: u32) -> Option<AgentRole> {
    if attempt == 1 && current == AgentRole::Hephaestus {
        Some(AgentRole::Sisyphus)
    } else if attempt == 1 && current == AgentRole::Explorer {
        Some(AgentRole::Hephaestus)
    } else if attempt == 1 && current == AgentRole::Librarian {
        Some(AgentRole::Sisyphus)
    } else if attempt == 2 {
        Some(AgentRole::Sisyphus)
    } else {
        None
    }
}

/// The view of an optional text.
pub open spec fn opt_text(o: Option<&str>) -> Option<Seq<char>> {
    match o {
        Some(s) => Some(s@),
        None => None,
    }
}

fn route_exec(intent: TaskIntent, c: &DispatchConfig, complex: bool) -> (res: (AgentRole, u32, &'static str, Option<AgentRole>))
    ensures
        (res.0, res.1, res.2@, res.3) == route(intent, *c, complex),
{
    match intent {
        TaskIntent::ErrorRecovery => if c.sisyphus_error_recovery {
            (AgentRole::Sisyphus, 95, "Error recovery requires deep analysis (Sisyphus)", Some(AgentRole::Hephaestus))
        } else {
            (AgentRole::Hephaestus, 60, "Default error recovery", None)
        },
        TaskIntent::Implementation => if c.hephaestus_code_gen {
            (AgentRole::Hephaestus, 90, "Code implementation \u{2192} Hephaestus (Codex)", Some(AgentRole::Sisyphus))
        } else {
            (AgentRole::Sisyphus, 70, "Fallback implementation", None)
        },
        TaskIntent::BugFix => if complex {
            (AgentRole::Sisyphus, 85, "Complex bug fix \u{2192} Sisyphus", Some(AgentRole::Hephaestus))
        } else {
            (AgentRole::Hephaestus, 80, "Standard bug fix \u{2192} Hephaestus", Some(AgentRole::Explorer))
        },
        TaskIntent::Refactor => (AgentRole::Hephaestus, 85, "Refactoring \u{2192} Hephaestus", Some(AgentRole::Librarian)),
        TaskIntent::Documentation => (AgentRole::Librarian, 90, "Documentation \u{2192} Librarian", Some(AgentRole::Explorer)),
        TaskIntent::Review => (AgentRole::Librarian, 90, "Code review \u{2192} Librarian", Some(AgentRole::Sisyphus)),
        TaskIntent::Testing => (AgentRole::Hephaestus, 80, "Test writing \u{2192} Hephaestus", Some(AgentRole::Librarian)),
        TaskIntent::Architecture => (AgentRole::Oracle, 85, "Architecture decisions \u{2192} Oracle", Some(AgentRole::Sisyphus)),
        TaskIntent::QuickFix => if c.explorer_quick_fixes {
            (AgentRole::Explorer, 90, "Quick fix \u{2192} Explorer (fast)", Some(AgentRole::Hephaestus))
        } else {
            (AgentRole::Hephaestus, 70, "Fallback quick fix", None)
        },
        TaskIntent::Visual => (AgentRole::Multimodal, 90, "Visual task \u{2192} Multimodal (Gemini)", Some(AgentRole::Sisyphus)),
        TaskIntent::Unknown => (AgentRole::Hephaestus, 50, "Unknown intent \u{2192} default to Hephaestus", Some(AgentRole::Sisyphus)),
    }
}

impl AgentDispatcher {
    /// A dispatcher with the given configuration.
    pub fn new(config: DispatchConfig) -> (res: Self)
        ensures
            res.config == config,
    {
        AgentDispatcher { config }
    }

    /// Routes a task. A repository override wins with full confidence;
    /// otherwise the task's intent decides (see [`route`]). `complex` says
    /// whether the title's estimated complexity exceeds the configured
    /// threshold.
    pub fn dispatch(&self, title: &str, task_type: TaskType, repo_id: &str, is_retry: bool, failure_reason: Option<&str>, complex: bool) -> (res: DispatchDecision)
        ensures
            match self.config.repo_overrides@.get(repo_id@) {
                Some(role) => {
                    &&& res.role == role
                    &&& res.confidence_pct == 100
                    &&& res.reasoning@ == "Repo override: "@ + repo_id@ + " \u{2192} "@ + role_name(role)
                    &&& res.fallback is None
                    &&& res.context_additions@.len() == 0
                },
                None => {
                    let intent = intent_of(title@, task_type, is_retry);
                    let r = route(intent, self.config, complex);
                    &&& (res.role, res.confidence_pct, res.reasoning@, res.fallback) == r
                    &&& res.context_additions.deep_view() == route_additions(intent, self.config, opt_text(failure_reason))
                },
            },
    {
        if let Some(role) = self.config.repo_overrides.get(repo_id) {
            let mut reasoning = String::from_str("Repo override: ");
            reasoning.append(repo_id);
            reasoning.append(" \u{2192} ");
            reasoning.append(role.name());
            return DispatchDecision {
                role: *role,
                confidence_pct: 100,
                reasoning,
                fallback: None,
                context_additions: Vec::new(),
            };
        }
        let intent = TaskIntent::classify(title, task_type, is_retry);
        let (role, confidence_pct, reason, fallback) = route_exec(intent, &self.config, complex);
        let mut context_additions: Vec<String> = Vec::new();
        if intent == TaskIntent::ErrorRecovery && self.config.sisyphus_error_recovery {
            context_additions.push(String::from_str("This is a retry attempt. Analyze the previous failure carefully."));
            if let Some(r) = failure_reason {
                let mut line = String::from_str("Previous failure reason: ");
                line.append(r);
                context_additions.push(line);
            }
        }
        proof {
            let first = seq!["This is a retry attempt. Analyze the previous failure carefully."@];
            if intent == TaskIntent::ErrorRecovery && self.config.sisyphus_error_recovery {
                if failure_reason is Some {
                    assert(context_additions.deep_view() =~= route_additions(intent, self.config, opt_text(failure_reason)));
                } else {
                    assert(context_additions.deep_view() =~= first);
                }
            } else {
                assert(context_additions.deep_view() =~= Seq::<Seq<char>>::empty());
            }
        }
        DispatchDecision { role, confidence_pct, reasoning: String::from_str(reason), fallback, context_additions }
    }

    /// The role to try after `attempt` failed attempts with `current`.
    pub fn get_fallback(&self, current: AgentRole, attempt: u32) -> (res: Option<AgentRole>)
        ensures
            res == fallback_for(current, attempt),
    {
        match (current, attempt) {
            (AgentRole::Hephaestus, 1) => Some(AgentRole::Sisyphus),
            (AgentRole::Explorer, 1) => Some(AgentRole::Hephaestus),
            (AgentRole::Librarian, 1) => Some(AgentRole::Sisyphus),
            (_, 2) => Some(AgentRole::Sisyphus),
            _ => None,
        }
    }
}


impl Default for DispatchConfig {
    /// Every specialist on, no overrides.
    fn default() -> (res: Self)
        ensures
            res.sisyphus_error_recovery,
            res.hephaestus_code_gen,
            res.explorer_quick_fixes,
            res.repo_overrides@ == Map::<Seq<char>, AgentRole>::empty(),
    {
        DispatchConfig {
            sisyphus_error_recovery: true,
            hephaestus_code_gen: true,
            explorer_quick_fixes: true,
            repo_overrides: KeyMap::new(),
        }
    }
}

impl Default for AgentDispatcher {
    /// A dispatcher with the default configuration.
    fn default() -> (res: Self)
        ensures
            res.config.sisyphus_error_recovery,
            res.config.hephaestus_code_gen,
            res.config.explorer_quick_fixes,
            res.config.repo_overrides@ == Map::<Seq<char>, AgentRole>::empty(),
    {
        AgentDispatcher::new(DispatchConfig::default())
    }
}


/// Non-overlapping occurrences of `p` in `s` from index `i` on, taken from
/// the left.
pub open spec fn count_matches(s: Seq<char>, p: Seq<char>, i: int) -> nat
    decreases s.len() - i,
{
    if p.len() == 0 || i < 0 || i + p.len() > s.len() {
        0
    } else if occurs_at(s, p, i) {
        1 + count_matches(s, p, i + p.len())
    } else {
        count_matches(s, p, i + 1)
    }
}

/// What a repository's files say of it.
#[derive(Debug, Clone, PartialEq, Eq)]
pub struct RepoProfile {
    pub primary_language: Option<String>,
    pub is_rust: bool,
    pub is_typescript: bool,
    pub is_python: bool,
    pub is_nix: bool,
    /// Workspaces in the root `Cargo.toml` (at least one for a Rust repo).
    pub crate_count: usize,
}

/// Which files a repository has at its root, and its `Cargo.toml` where
/// that could be read.
#[derive(Debug, Clone)]
pub struct RepoFiles {
    pub has_cargo_toml: bool,
    pub cargo_toml: Option<String>,
    pub has_package_json: bool,
    pub has_tsconfig: bool,
    pub has_pyproject: bool,
    pub has_setup_py: bool,
    pub has_requirements: bool,
    pub has_flake: bool,
}

/// The profile of a repository from its files: Rust with a `Cargo.toml`
/// (its crate count the `[workspace]` headers in it, at least one, where it
/// could be read), TypeScript with `package.json` or `tsconfig.json`,
/// Python with `pyproject.toml`, `setup.py` or `requirements.txt`, Nix with
/// `flake.nix`; the primary language is the first of Rust, TypeScript and
/// Python that applies.
pub open spec fn spec_repo_profile(f: RepoFiles) -> (Option<Seq<char>>, bool, bool, bool, bool, nat) {
    let ts = f.has_package_json || f.has_tsconfig;
    let py = f.has_pyproject || f.has_setup_py || f.has_requirements;
    let lang = if f.has_cargo_toml {
        Some("rust"@)
    } else if ts {
        Some("typescript"@)
    } else if py {
        Some("python"@)
    } else {
        None
    };
    let crates: nat = match (f.has_cargo_toml, f.cargo_toml) {
        (true, Some(c)) => {
            let n = count_matches(c@, "[workspace]"@, 0);
            if n == 0 { 1 } else { n }
        },
        _ => 0,
    };
    (lang, f.has_cargo_toml, ts, py, f.has_flake, crates)
}

/// The profile as plain values.
pub open spec fn profile_view(p: RepoProfile) -> (Option<Seq<char>>, bool, bool, bool, bool, nat) {
    (
        match p.primary_language {
            Some(l) => Some(l@),
            None => None,
        },
        p.is_rust,
        p.is_typescript,
        p.is_python,
        p.is_nix,
        p.crate_count as nat,
    )
}

fn count_workspaces(c: &str) -> (res: usize)
    ensures
        res == count_matches(c@, "[workspace]"@, 0),
{
    let s = chars_of(c);
    let p = chars_of("[workspace]");
    proof {
        reveal_strlit("[workspace]");
    }
    assert(p@.len() == 11);
    let mut count: usize = 0;
    let mut i: usize = 0;
    while i < s.len() && 11 <= s.len() - i
        invariant
            p@ == "[workspace]"@,
            p@.len() == 11,
            s@ == c@,
            count <= i,
            i <= s@.len(),
            count + count_matches(s@, p@, i as int) == count_matches(s@, p@, 0),
        decreases s@.len() - i,
    {
        if occurs_at_exec(&s, &p, i) {
            count = count + 1;
            i = i + 11;
        } else {
            i = i + 1;
        }
    }
    count
}

/// The profile of a repository from its files (see [`spec_repo_profile`]).
pub fn repo_profile(f: &RepoFiles) -> (res: RepoProfile)
    ensures
        profile_view(res) == spec_repo_profile(*f),
{
    let ts = f.has_package_json || f.has_tsconfig;
    let py = f.has_pyproject || f.has_setup_py || f.has_requirements;
    let lang = if f.has_cargo_toml {
        Some(String::from_str("rust"))
    } else if ts {
        Some(String::from_str("typescript"))
    } else if py {
        Some(String::from_str("python"))
    } else {
        None
    };
    let crate_count: usize = match (f.has_cargo_toml, &f.cargo_toml) {
        (true, Some(c)) => {
            let n = count_workspaces(c.as_str());
            if n == 0 { 1 } else { n }
        },
        _ => 0,
    };
    RepoProfile { primary_language: lang, is_rust: f.has_cargo_toml, is_typescript: ts, is_python: py, is_nix: f.has_flake, crate_count }
}
} // verus!
