//! Post-merge test pipelines: the per-repository specification, the rules
//! that decide whether a run passed, and the merge gate's decisions.

use vstd::prelude::*;
use crate::str_map::StrMap;
use crate::text::{
    ascii_lower_seq, chars_of, contains, join, join_strings, str_contains, str_eq, to_ascii_lowercase, utf8_len, utf8_len_capped,
};
use crate::context_manager::{cut, cut_ok, cut_text};

verus! {

/// One stage of a test pipeline.
#[derive(Debug, Clone, PartialEq, Eq)]
pub struct TestStage {
    pub name: String,
    pub command: String,
    pub timeout_secs: u64,
    /// Whether the stage must pass.
    pub required: bool,
    /// Whether later stages run after this one fails.
    pub continue_on_fail: bool,
}

/// A stage as plain values: name, command, timeout, required, continue.
pub type StageView = (Seq<char>, Seq<char>, u64, bool, bool);

/// The view of a stage.
pub open spec fn stage_view(s: TestStage) -> StageView {
    (s.name@, s.command@, s.timeout_secs, s.required, s.continue_on_fail)
}

/// The views of a list of stages.
pub open spec fn stage_views(s: Seq<TestStage>) -> Seq<StageView> {
    s.map_values(|x: TestStage| stage_view(x))
}

fn stage(name: &str, command: &str, timeout_secs: u64, required: bool, continue_on_fail: bool) -> (res: TestStage)
    ensures
        stage_view(res) == (name@, command@, timeout_secs, required, continue_on_fail),
{
    TestStage {
        name: String::from_str(name),
        command: String::from_str(command),
        timeout_secs,
        required,
        continue_on_fail,
    }
}

/// What a run must achieve to pass.
#[derive(Debug, Clone, PartialEq, Eq)]
pub struct PassCriteria {
    /// Least number of stages that must pass.
    pub min_stages_passed: Option<usize>,
    /// Whether every required stage must pass.
    pub all_required_must_pass: bool,
    /// Stages that must be there and pass, by name.
    pub required_stages: Vec<String>,
}

impl Default for PassCriteria {
    fn default() -> (res: Self)
        ensures
            res.min_stages_passed is None,
            res.all_required_must_pass,
            res.required_stages@.len() == 0,
    {
        PassCriteria { min_stages_passed: None, all_required_must_pass: true, required_stages: Vec::new() }
    }
}

/// The test specification of a repository.
#[derive(Debug)]
pub struct E2ESpec {
    pub name: String,
    /// Whether a passing run is needed to merge.
    pub required: bool,
    pub stages: Vec<TestStage>,
    pub pass_criteria: PassCriteria,
    /// Limit of the whole run, in seconds.
    pub timeout_secs: u64,
    pub env: StrMap,
    pub nix_shell: Option<String>,
}

/// The stages of the default specification.
pub open spec fn default_stages() -> Seq<StageView> {
    seq![
        ("compile"@, "cargo check --all-targets"@, 300u64, true, false),
        ("unit"@, "cargo test"@, 600u64, true, false),
    ]
}

/// The stages for a Rust repository.
pub open spec fn rust_stages() -> Seq<StageView> {
    seq![
        ("compile"@, "cargo check --all-targets"@, 300u64, true, false),
        ("lint"@, "cargo clippy --all-targets -- -D warnings"@, 300u64, false, true),
        ("unit"@, "cargo test --lib"@, 600u64, true, false),
    ]
}

/// The stages for a Node repository.
pub open spec fn node_stages() -> Seq<StageView> {
    seq![
        ("install"@, "npm ci"@, 300u64, true, false),
        ("compile"@, "npm run build"@, 300u64, true, false),
        ("lint"@, "npm run lint"@, 120u64, false, true),
        ("test"@, "npm test"@, 600u64, true, false),
    ]
}

impl Default for E2ESpec {
    fn default() -> (res: Self)
        ensures
            res.name@ == "default"@,
            res.required,
            stage_views(res.stages@) == default_stages(),
            res.pass_criteria.min_stages_passed is None,
            res.pass_criteria.all_required_must_pass,
            res.pass_criteria.required_stages@.len() == 0,
            res.timeout_secs == 1800,
            res.env@ == Map::<Seq<char>, Seq<char>>::empty(),
            res.nix_shell is None,
    {
        let mut stages: Vec<TestStage> = Vec::new();
        stages.push(stage("compile", "cargo check --all-targets", 300, true, false));
        stages.push(stage("unit", "cargo test", 600, true, false));
        assert(stage_views(stages@) =~= default_stages());
        E2ESpec {
            name: String::from_str("default"),
            required: true,
            stages,
            pass_criteria: PassCriteria::default(),
            timeout_secs: 1800,
            env: StrMap::new(),
            nix_shell: None,
        }
    }
}

/// The stages a repository gets by default: Node stages when it has a
/// `package.json`, else Rust stages when it has a `Cargo.toml`, else the
/// plain defaults.
pub open spec fn detected_stages(has_cargo: bool, has_package_json: bool) -> Seq<StageView> {
    if has_package_json { node_stages() } else if has_cargo { rust_stages() } else { default_stages() }
}

impl E2ESpec {
    /// The default specification for a repository with the given files: a
    /// `Cargo.toml`, a `flake.nix` (a Nix shell, for Rust repositories) and
    /// a `package.json`.
    pub fn default_for_repo(has_cargo: bool, has_flake: bool, has_package_json: bool) -> (res: Self)
        ensures
            res.name@ == "default"@,
            res.required,
            stage_views(res.stages@) == detected_stages(has_cargo, has_package_json),
            res.timeout_secs == 1800,
            res.env@ == Map::<Seq<char>, Seq<char>>::empty(),
            res.pass_criteria.min_stages_passed is None,
            res.pass_criteria.all_required_must_pass,
            res.pass_criteria.required_stages@.len() == 0,
            match res.nix_shell {
                Some(n) => has_cargo && has_flake && n@ == "nix develop"@,
                None => !(has_cargo && has_flake),
            },
    {
        let mut spec = E2ESpec::default();
        if has_cargo {
            let mut stages: Vec<TestStage> = Vec::new();
            stages.push(stage("compile", "cargo check --all-targets", 300, true, false));
            stages.push(stage("lint", "cargo clippy --all-targets -- -D warnings", 300, false, true));
            stages.push(stage("unit", "cargo test --lib", 600, true, false));
            assert(stage_views(stages@) =~= rust_stages());
            spec.stages = stages;
            if has_flake {
                spec.nix_shell = Some(String::from_str("nix develop"));
            }
        }
        if has_package_json {
            let mut stages: Vec<TestStage> = Vec::new();
            stages.push(stage("install", "npm ci", 300, true, false));
            stages.push(stage("compile", "npm run build", 300, true, false));
            stages.push(stage("lint", "npm run lint", 120, false, true));
            stages.push(stage("test", "npm test", 600, true, false));
            assert(stage_views(stages@) =~= node_stages());
            spec.stages = stages;
        }
        spec
    }

    /// The repository's own specification when it has one, else its
    /// default.
    pub fn load_or_default(loaded: Option<E2ESpec>, has_cargo: bool, has_flake: bool, has_package_json: bool) -> (res: Self)
        ensures
            match loaded {
                Some(s) => res == s,
                None => stage_views(res.stages@) == detected_stages(has_cargo, has_package_json) && res.required
                    && res.name@ == "default"@,
            },
    {
        match loaded {
            Some(s) => s,
            None => E2ESpec::default_for_repo(has_cargo, has_flake, has_package_json),
        }
    }
}

/// What a run found of one stage.
#[derive(Debug, Clone, PartialEq, Eq)]
pub struct StageOutcome {
    pub name: String,
    pub passed: bool,
    pub skipped: bool,
}

/// The number of stages that passed.
pub open spec fn passed_count(s: Seq<StageOutcome>) -> nat
    decreases s.len(),
{
    if s.len() == 0 {
        0
    } else {
        passed_count(s.drop_last()) + if s.last().passed { 1nat } else { 0nat }
    }
}

/// The first stage named `name` from `i` on, by index; -1 without one.
pub open spec fn find_stage(s: Seq<StageOutcome>, name: Seq<char>, i: int) -> int
    decreases s.len() - i,
{
    if i < 0 || i >= s.len() {
        -1
    } else if s[i].name@ == name {
        i
    } else {
        find_stage(s, name, i + 1)
    }
}

/// Whether the first stage named `name` passed.
pub open spec fn stage_passed(s: Seq<StageOutcome>, name: Seq<char>) -> bool {
    let i = find_stage(s, name, 0);
    0 <= i < s.len() && s[i].passed
}

/// Whether a run passed: required stages when the criteria ask, enough
/// passing stages, and each named stage found and passing.
pub open spec fn criteria_met(c: PassCriteria, stages: Seq<StageOutcome>, all_required_passed: bool) -> bool {
    &&& !(c.all_required_must_pass && !all_required_passed)
    &&& match c.min_stages_passed {
        Some(m) => passed_count(stages) >= m,
        None => true,
    }
    &&& forall|k: int| 0 <= k < c.required_stages@.len() ==> stage_passed(stages, #[trigger] c.required_stages@[k]@)
}

proof fn lemma_find_stage_range(s: Seq<StageOutcome>, name: Seq<char>, i: int)
    requires
        0 <= i <= s.len(),
    ensures
        find_stage(s, name, i) == -1 || i <= find_stage(s, name, i) < s.len(),
    decreases s.len() - i,
{
    if i < s.len() {
        lemma_find_stage_range(s, name, i + 1);
    }
}

/// The first stage named `name` exists and passed.
pub open spec fn first_named_passed(s: Seq<StageOutcome>, name: Seq<char>) -> bool {
    exists|i: int|
        0 <= i < s.len() && #[trigger] s[i].name@ == name && s[i].passed
            && forall|j: int| 0 <= j < i ==> (#[trigger] s[j].name@) != name
}

/// The first stage named `name` exists and failed.
pub open spec fn first_named_failed(s: Seq<StageOutcome>, name: Seq<char>) -> bool {
    exists|i: int|
        0 <= i < s.len() && #[trigger] s[i].name@ == name && !s[i].passed
            && forall|j: int| 0 <= j < i ==> (#[trigger] s[j].name@) != name
}

proof fn lemma_find_stage_first(s: Seq<StageOutcome>, name: Seq<char>, i: int)
    requires
        0 <= i <= s.len(),
    ensures
        find_stage(s, name, i) == -1 ==> forall|j: int| i <= j < s.len() ==> (#[trigger] s[j].name@) != name,
        find_stage(s, name, i) != -1 ==> {
            let r = find_stage(s, name, i);
            i <= r < s.len() && s[r].name@ == name && forall|j: int| i <= j < r ==> (#[trigger] s[j].name@) != name
        },
    decreases s.len() - i,
{
    if i < s.len() {
        lemma_find_stage_first(s, name, i + 1);
    }
}

/// A stage name counts as passed exactly when its first stage passed; a
/// name whose first stage failed, or that names no stage, does not.
pub proof fn lemma_stage_passed_first(s: Seq<StageOutcome>, name: Seq<char>)
    ensures
        stage_passed(s, name) <==> first_named_passed(s, name),
        first_named_failed(s, name) ==> !stage_passed(s, name),
{
    lemma_find_stage_first(s, name, 0);
    let r = find_stage(s, name, 0);
    if first_named_passed(s, name) {
        let i = choose|i: int|
            0 <= i < s.len() && #[trigger] s[i].name@ == name && s[i].passed
                && forall|j: int| 0 <= j < i ==> (#[trigger] s[j].name@) != name;
        if r != i {
            if r == -1 || r > i {
                assert(s[i].name@ == name);
            } else {
                assert(s[r].name@ == name);
            }
        }
    }
    if first_named_failed(s, name) {
        let i = choose|i: int|
            0 <= i < s.len() && #[trigger] s[i].name@ == name && !s[i].passed
                && forall|j: int| 0 <= j < i ==> (#[trigger] s[j].name@) != name;
        if r != i {
            if r == -1 || r > i {
                assert(s[i].name@ == name);
            } else {
                assert(s[r].name@ == name);
            }
        }
    }
    if stage_passed(s, name) {
        assert(s[r].name@ == name);
    }
}

proof fn lemma_passed_count_filter(s: Seq<StageOutcome>)
    ensures
        passed_count(s) == s.filter(|x: StageOutcome| x.passed).len(),
    decreases s.len(),
{
    reveal(Seq::filter);
    if s.len() > 0 {
        lemma_passed_count_filter(s.drop_last());
    }
}

/// A run passes the criteria only when every required stage passed (if
/// the criteria ask for that) and at least the least number of stages
/// passed (if one is set).
pub proof fn lemma_criteria_counts(c: PassCriteria, s: Seq<StageOutcome>, all_required_passed: bool)
    ensures
        c.all_required_must_pass && !all_required_passed ==> !criteria_met(c, s, all_required_passed),
        criteria_met(c, s, all_required_passed) && c.min_stages_passed is Some
            ==> s.filter(|x: StageOutcome| x.passed).len() >= c.min_stages_passed->0,
        c.min_stages_passed is Some && s.filter(|x: StageOutcome| x.passed).len() < c.min_stages_passed->0
            ==> !criteria_met(c, s, all_required_passed),
{
    lemma_passed_count_filter(s);
}

/// A run passes the criteria only when the first stage of every named
/// required stage passed; a required stage whose first run failed, or
/// that did not run at all, fails the run.
pub proof fn lemma_required_stages_pass(c: PassCriteria, s: Seq<StageOutcome>, all_required_passed: bool)
    ensures
        criteria_met(c, s, all_required_passed) ==> forall|k: int|
            0 <= k < c.required_stages@.len() ==> first_named_passed(s, #[trigger] c.required_stages@[k]@),
        (exists|k: int| 0 <= k < c.required_stages@.len() && !first_named_passed(s, #[trigger] c.required_stages@[k]@))
            ==> !criteria_met(c, s, all_required_passed),
{
    assert forall|k: int| 0 <= k < c.required_stages@.len() implies (stage_passed(s, #[trigger] c.required_stages@[k]@)
        <==> first_named_passed(s, c.required_stages@[k]@)) by {
        lemma_stage_passed_first(s, c.required_stages@[k]@);
    }
}

fn first_stage_passed(stages: &[StageOutcome], name: &str) -> (res: bool)
    ensures
        res == stage_passed(stages@, name@),
{
    let mut i: usize = 0;
    proof {
        lemma_find_stage_range(stages@, name@, 0);
    }
    while i < stages.len()
        invariant
            i <= stages@.len(),
            find_stage(stages@, name@, 0) == find_stage(stages@, name@, i as int),
        decreases stages@.len() - i,
    {
        if str_eq(stages[i].name.as_str(), name) {
            return stages[i].passed;
        }
        i = i + 1;
    }
    false
}

/// Decides whether a run passed by the criteria.
pub fn evaluate_pass_criteria(criteria: &PassCriteria, stages: &[StageOutcome], all_required_passed: bool) -> (res: bool)
    ensures
        res == criteria_met(*criteria, stages@, all_required_passed),
        res ==> forall|k: int|
            0 <= k < criteria.required_stages@.len() ==> first_named_passed(stages@, #[trigger] criteria.required_stages@[k]@),
        (exists|k: int|
            0 <= k < criteria.required_stages@.len() && first_named_failed(stages@, #[trigger] criteria.required_stages@[k]@)) ==> !res,
        criteria.all_required_must_pass && !all_required_passed ==> !res,
        res && criteria.min_stages_passed is Some ==> stages@.filter(|x: StageOutcome| x.passed).len() >= criteria.min_stages_passed->0,
{
    proof {
        lemma_criteria_counts(*criteria, stages@, all_required_passed);
        lemma_required_stages_pass(*criteria, stages@, all_required_passed);
        if exists|k: int|
            0 <= k < criteria.required_stages@.len() && first_named_failed(stages@, #[trigger] criteria.required_stages@[k]@) {
            let k = choose|k: int|
                0 <= k < criteria.required_stages@.len() && first_named_failed(stages@, #[trigger] criteria.required_stages@[k]@);
            lemma_stage_passed_first(stages@, criteria.required_stages@[k]@);
        }
    }
    if criteria.all_required_must_pass && !all_required_passed {
        return false;
    }
    if let Some(min) = criteria.min_stages_passed {
        let mut count: usize = 0;
        let mut i: usize = 0;
        while i < stages.len()
            invariant
                i <= stages@.len(),
                count == passed_count(stages@.take(i as int)),
                count <= i,
            decreases stages@.len() - i,
        {
            assert(stages@.take(i + 1).drop_last() =~= stages@.take(i as int));
            if stages[i].passed {
                count = count + 1;
            }
            i = i + 1;
        }
        assert(stages@.take(stages@.len() as int) =~= stages@);
        if count < min {
            return false;
        }
    }
    let req = &criteria.required_stages;
    let mut k: usize = 0;
    while k < req.len()
        invariant
            k <= req@.len(),
            req == &criteria.required_stages,
            forall|j: int| 0 <= j < k ==> stage_passed(stages@, #[trigger] req@[j]@),
        decreases req@.len() - k,
    {
        if !first_stage_passed(stages, req[k].as_str()) {
            return false;
        }
        k = k + 1;
    }
    true
}

/// The names of the stages that failed without being skipped.
pub open spec fn failed_names(s: Seq<StageOutcome>) -> Seq<Seq<char>>
    decreases s.len(),
{
    if s.len() == 0 {
        Seq::empty()
    } else {
        let rest = failed_names(s.drop_last());
        if !s.last().passed && !s.last().skipped { rest.push(s.last().name@) } else { rest }
    }
}

/// The names of the stages that failed, in order.
pub fn failed_stage_names(stages: &[StageOutcome]) -> (res: Vec<String>)
    ensures
        res.deep_view() == failed_names(stages@),
{
    let mut out: Vec<String> = Vec::new();
    let mut i: usize = 0;
    while i < stages.len()
        invariant
            i <= stages@.len(),
            out.deep_view() == failed_names(stages@.take(i as int)),
        decreases stages@.len() - i,
    {
        assert(stages@.take(i + 1).drop_last() =~= stages@.take(i as int));
        if !stages[i].passed && !stages[i].skipped {
            let ghost before = out.deep_view();
            out.push(stages[i].name.clone());
            assert(out.deep_view() =~= before.push(stages@[i as int].name@));
        }
        i = i + 1;
    }
    assert(stages@.take(stages@.len() as int) =~= stages@);
    out
}

/// Where a run stands between stages: whether it keeps running stages and
/// whether every required stage so far passed.
#[derive(Debug, Clone, Copy, PartialEq, Eq, Structural)]
pub struct RunProgress {
    pub should_continue: bool,
    pub all_passed: bool,
}

/// Takes a stage's outcome into the run's progress: a failed required
/// stage fails the run, and a failed stage that does not allow going on
/// stops the run.
pub fn after_stage(p: RunProgress, stage: &TestStage, passed: bool) -> (res: RunProgress)
    ensures
        res.all_passed == (p.all_passed && (passed || !stage.required)),
        res.should_continue == (p.should_continue && (passed || stage.continue_on_fail)),
{
    RunProgress {
        should_continue: p.should_continue && (passed || stage.continue_on_fail),
        all_passed: p.all_passed && (passed || !stage.required),
    }
}

/// Settings of the test runner.
#[derive(Debug, Clone, Copy, PartialEq, Eq, Structural)]
pub struct E2ETesterConfig {
    /// Most output kept per stage, in bytes.
    pub max_output_bytes: usize,
    pub verbose: bool,
}

impl Default for E2ETesterConfig {
    fn default() -> (res: Self)
        ensures
            res == (E2ETesterConfig { max_output_bytes: 100_000, verbose: false }),
    {
        E2ETesterConfig { max_output_bytes: 100_000, verbose: false }
    }
}

/// The test runner.
#[derive(Debug)]
pub struct E2ETester {
    pub config: E2ETesterConfig,
}

/// Whether a repository's mode file turns the tests off.
pub open spec fn mode_skips(contents: Seq<char>) -> bool {
    contains(contents, "e2e = false"@) || contains(contents, "skip_e2e = true"@)
}

/// Whether a repository's mode file allows merging past failures.
pub open spec fn mode_allows_override(contents: Seq<char>) -> bool {
    contains(contents, "mode = \"merge\""@) || contains(contents, "prod = false"@)
}

/// Whether a repository's name marks it as not production.
pub open spec fn nonprod_name(name: Seq<char>) -> bool {
    let lower = ascii_lower_seq(name);
    contains(lower, "test"@) || contains(lower, "dev"@) || contains(lower, "sandbox"@) || contains(lower, "experiment"@)
}

impl E2ETester {
    /// A runner with `config`.
    pub fn new(config: E2ETesterConfig) -> (res: Self)
        ensures
            res.config == config,
    {
        E2ETester { config }
    }

    /// Whether a repository skips the tests: it has a skip file, or its
    /// mode file (its text, when it could be read) turns them off.
    pub fn should_skip(&self, skip_file_exists: bool, mode_contents: &Option<String>) -> (res: bool)
        ensures
            res == (skip_file_exists || (mode_contents matches Some(c) && mode_skips(c@))),
    {
        if skip_file_exists {
            return true;
        }
        match mode_contents {
            Some(c) => str_contains(c.as_str(), "e2e = false") || str_contains(c.as_str(), "skip_e2e = true"),
            None => false,
        }
    }

    /// Whether a repository may merge past failed tests: its mode file says
    /// so, or its directory name marks it as not production.
    pub fn override_allowed(&self, mode_contents: &Option<String>, repo_name: &Option<String>) -> (res: bool)
        ensures
            res == ((mode_contents matches Some(c) && mode_allows_override(c@)) || (repo_name matches Some(n) && nonprod_name(n@))),
    {
        if let Some(c) = mode_contents {
            if str_contains(c.as_str(), "mode = \"merge\"") || str_contains(c.as_str(), "prod = false") {
                return true;
            }
        }
        match repo_name {
            Some(n) => {
                let lower = to_ascii_lowercase(n.as_str());
                let l = lower.as_str();
                str_contains(l, "test") || str_contains(l, "dev") || str_contains(l, "sandbox") || str_contains(l, "experiment")
            },
            None => false,
        }
    }
}

impl Default for E2ETester {
    fn default() -> (res: Self)
        ensures
            res.config == (E2ETesterConfig { max_output_bytes: 100_000, verbose: false }),
    {
        E2ETester::new(E2ETesterConfig::default())
    }
}

/// The merge gate.
#[derive(Debug)]
pub struct E2EGate {
    pub tester: E2ETester,
}

/// The reason given for a run that did not pass.
pub open spec fn failure_reason(override_allowed: bool, failed: Seq<Seq<char>>) -> Seq<char> {
    if override_allowed {
        "E2E failed but override allowed for non-prod repo. Failed: "@ + join(failed, ", "@)
    } else {
        "E2E failed. Stages failed: "@ + join(failed, ", "@)
    }
}

impl E2EGate {
    /// A gate around `tester`.
    pub fn new(tester: E2ETester) -> (res: Self)
        ensures
            res.tester == tester,
    {
        E2EGate { tester }
    }

    /// Whether the tests would run: the repository does not skip them and
    /// its specification requires them.
    pub fn would_run(&self, skipped: bool, spec: &E2ESpec) -> (res: bool)
        ensures
            res == (!skipped && spec.required),
    {
        !skipped && spec.required
    }

    /// The reason given for a failed run, naming the failed stages.
    pub fn failure_reason(&self, override_allowed: bool, stages: &[StageOutcome]) -> (res: String)
        ensures
            res@ == failure_reason(override_allowed, failed_names(stages@)),
    {
        let names = failed_stage_names(stages);
        let joined = join_strings(&names, ", ");
        let mut out = if override_allowed {
            String::from_str("E2E failed but override allowed for non-prod repo. Failed: ")
        } else {
            String::from_str("E2E failed. Stages failed: ")
        };
        out.append(joined.as_str());
        out
    }
}

impl Default for E2EGate {
    fn default() -> (res: Self)
        ensures
            res.tester.config == (E2ETesterConfig { max_output_bytes: 100_000, verbose: false }),
    {
        E2EGate::new(E2ETester::default())
    }
}


/// What the merge gate decides.
#[derive(Debug, Clone, PartialEq, Eq)]
pub enum GateVerdict {
    /// The tests passed: the merge may go ahead.
    Allow,
    /// The tests failed: the merge is blocked.
    Block { reason: String },
    /// The tests are not run for this repository.
    Skip { reason: String },
    /// The tests failed but the repository allows an override.
    AllowOverride { reason: String },
}

impl E2EGate {
    /// Why the merge gate skips a run: the repository turns test runs off,
    /// or its specification does not require them; `None` when they run.
    pub fn skip_reason(&self, skipped: bool, spec: &E2ESpec) -> (res: Option<String>)
        ensures
            match res {
                Some(r) => (skipped && r@ == "E2E skipped for this repo"@)
                    || (!skipped && !spec.required && r@ == "E2E not required by spec"@),
                None => !skipped && spec.required,
            },
    {
        if skipped {
            Some(String::from_str("E2E skipped for this repo"))
        } else if !spec.required {
            Some(String::from_str("E2E not required by spec"))
        } else {
            None
        }
    }

    /// The merge gate's decision after a run: allow when it passed,
    /// otherwise allow with an override where the repository permits one,
    /// else block; the reason names the failed stages.
    pub fn verdict(&self, passed: bool, override_allowed: bool, stages: &[StageOutcome]) -> (res: GateVerdict)
        ensures
            passed ==> res == GateVerdict::Allow,
            !passed && override_allowed ==> (res matches GateVerdict::AllowOverride { reason }
                && reason@ == failure_reason(true, failed_names(stages@))),
            !passed && !override_allowed ==> (res matches GateVerdict::Block { reason }
                && reason@ == failure_reason(false, failed_names(stages@))),
    {
        if passed {
            GateVerdict::Allow
        } else if override_allowed {
            GateVerdict::AllowOverride { reason: self.failure_reason(true, stages) }
        } else {
            GateVerdict::Block { reason: self.failure_reason(false, stages) }
        }
    }
}

/// A stage's output as kept: all of it when it fits in `max` bytes, else
/// its first `max` bytes and a marker.
pub open spec fn kept_output(s: Seq<char>, max: nat) -> Seq<char> {
    if utf8_len(s) <= max {
        s
    } else {
        cut(s, max) + "...[truncated]"@
    }
}

/// Keeps at most `max_bytes` bytes of a stage's output, marking a cut.
pub fn truncate_output(s: &str, max_bytes: usize) -> (res: String)
    requires
        utf8_len(s@) < usize::MAX - 4,
        cut_ok(s@, max_bytes as nat),
    ensures
        res@ == kept_output(s@, max_bytes as nat),
{
    let v = chars_of(s);
    let n = v.len();
    assert(v@.subrange(0, n as int) =~= v@);
    let cap: usize = if max_bytes < usize::MAX - 5 { max_bytes } else { usize::MAX - 5 };
    let size = utf8_len_capped(&v, 0, n, cap);
    if size <= cap {
        String::from_str(s)
    } else {
        let mut out = cut_text(s, max_bytes);
        out.append("...[truncated]");
        out
    }
}
} // verus!
