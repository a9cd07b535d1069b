//! GitHub Actions workflow generation.

use vstd::prelude::*;
use crate::text::{chars_of, contains, join, join_strings, occurs_at, replace, replace_exec, str_contains};

verus! {

/// Settings of the generated workflow.
#[derive(Debug, Clone)]
pub struct CiConfig {
    pub trigger_on_push: bool,
    pub trigger_on_pr: bool,
    pub branches: Vec<String>,
    pub verify_command: String,
    pub nix_enabled: bool,
    pub graphite_enabled: bool,
    pub cache_enabled: bool,
}

impl Default for CiConfig {
    fn default() -> (res: Self)
        ensures
            res.trigger_on_push,
            res.trigger_on_pr,
            res.branches.deep_view() == seq!["main"@],
            res.verify_command@ == "cargo test --workspace"@,
            res.nix_enabled,
            !res.graphite_enabled,
            res.cache_enabled,
    {
        let mut branches: Vec<String> = Vec::new();
        branches.push(String::from_str("main"));
        let res = CiConfig {
            trigger_on_push: true,
            trigger_on_pr: true,
            branches,
            verify_command: String::from_str("cargo test --workspace"),
            nix_enabled: true,
            graphite_enabled: false,
            cache_enabled: true,
        };
        assert(res.branches.deep_view() =~= seq!["main"@]);
        res
    }
}

/// One list item per branch.
pub open spec fn branch_lines(branches: Seq<Seq<char>>) -> Seq<Seq<char>> {
    branches.map_values(|b: Seq<char>| "      - "@ + b)
}

/// The lines of the `on:` section.
pub open spec fn trigger_lines(c: CiConfig) -> Seq<Seq<char>> {
    let l = seq!["on:"@];
    let l = if c.trigger_on_push {
        l + seq!["  push:"@, "    branches:"@] + branch_lines(c.branches.deep_view())
    } else {
        l
    };
    let l = if c.trigger_on_pr {
        l + seq!["  pull_request:"@, "    branches:"@] + branch_lines(c.branches.deep_view())
    } else {
        l
    };
    if !c.trigger_on_push && !c.trigger_on_pr {
        l.push("  workflow_dispatch:"@)
    } else {
        l
    }
}

/// The `on:` section, newline-terminated.
pub open spec fn spec_triggers(c: CiConfig) -> Seq<char> {
    join(trigger_lines(c), "\n"@) + "\n"@
}

/// `s` with each double quote preceded by a backslash.
pub open spec fn spec_escape_quotes(s: Seq<char>) -> Seq<char> {
    replace(s, seq!['"'], "\\\""@)
}

fn push_branch_lines(lines: &mut Vec<String>, branches: &Vec<String>)
    ensures
        final(lines).deep_view() == old(lines).deep_view() + branch_lines(branches.deep_view()),
{
    let mut i: usize = 0;
    while i < branches.len()
        invariant
            i <= branches@.len(),
            lines.deep_view() == old(lines).deep_view() + branch_lines(
                branches.deep_view().take(i as int),
            ),
        decreases branches@.len() - i,
    {
        let ghost before = lines.deep_view();
        let mut s = String::from_str("      - ");
        s.append(branches[i].as_str());
        lines.push(s);
        assert(branch_lines(branches.deep_view().take(i + 1)) =~= branch_lines(
            branches.deep_view().take(i as int),
        ).push("      - "@ + branches.deep_view()[i as int]));
        assert(lines.deep_view() =~= before.push("      - "@ + branches.deep_view()[i as int]));
        i = i + 1;
    }
    assert(branches.deep_view().take(i as int) =~= branches.deep_view());
}

fn push_line(lines: &mut Vec<String>, s: &str)
    ensures
        final(lines).deep_view() == old(lines).deep_view().push(s@),
{
    let ghost before = lines.deep_view();
    lines.push(String::from_str(s));
    assert(lines.deep_view() =~= before.push(s@));
}

/// Renders the `on:` section.
pub fn render_triggers(config: &CiConfig) -> (res: String)
    ensures
        res@ == spec_triggers(*config),
{
    let mut lines: Vec<String> = Vec::new();
    push_line(&mut lines, "on:");
    assert(lines.deep_view() =~= seq!["on:"@]);
    if config.trigger_on_push {
        push_line(&mut lines, "  push:");
        push_line(&mut lines, "    branches:");
        push_branch_lines(&mut lines, &config.branches);
        assert(lines.deep_view() =~= seq!["on:"@] + seq!["  push:"@, "    branches:"@]
            + branch_lines(config.branches.deep_view()));
    }
    let ghost after_push = lines.deep_view();
    if config.trigger_on_pr {
        push_line(&mut lines, "  pull_request:");
        push_line(&mut lines, "    branches:");
        push_branch_lines(&mut lines, &config.branches);
        assert(lines.deep_view() =~= after_push + seq!["  pull_request:"@, "    branches:"@]
            + branch_lines(config.branches.deep_view()));
    }
    if !config.trigger_on_push && !config.trigger_on_pr {
        push_line(&mut lines, "  workflow_dispatch:");
    }
    assert(lines.deep_view() =~= trigger_lines(*config));
    let mut out = join_strings(&lines, "\n");
    out.append("\n");
    out
}

/// Escapes double quotes for a bash `-c "..."` argument.
pub fn escape_for_double_quotes(input: &str) -> (res: String)
    ensures
        res@ == spec_escape_quotes(input@),
{
    let v = chars_of(input);
    let mut pat: Vec<char> = Vec::new();
    pat.push('"');
    assert(pat@ =~= seq!['"']);
    replace_exec(&v, &pat, "\\\"")
}

/// Steps that set up the cache, when enabled.
pub open spec fn cache_steps(c: CiConfig) -> Seq<char> {
    if c.cache_enabled {
        "      - name: Cache Rust artifacts\n"@ + "        uses: Swatinem/rust-cache@v2\n"@
    } else {
        seq![]
    }
}

/// The marker step for Graphite, when enabled.
pub open spec fn graphite_steps(c: CiConfig) -> Seq<char> {
    if c.graphite_enabled {
        "      - name: Graphite enabled\n"@
            + "        run: echo \"graphite integration enabled\"\n"@
    } else {
        seq![]
    }
}

/// Header shared by the CI workflows: name, triggers and the checkout step.
pub open spec fn spec_ci_head(c: CiConfig) -> Seq<char> {
    "name: Othala CI\n\n"@ + spec_triggers(c) + "\n"@ + "jobs:\n"@ + "  verify:\n"@
        + "    name: Build, Test, and Lint\n"@ + "    runs-on: ubuntu-latest\n"@
        + "    steps:\n"@ + "      - name: Checkout\n"@ + "        uses: actions/checkout@v4\n"@
}

/// The Nix-based CI workflow.
pub open spec fn spec_nix_ci(c: CiConfig) -> Seq<char> {
    spec_ci_head(c) + "      - name: Install Nix\n"@ + "        uses: cachix/install-nix-action@v31\n"@
        + cache_steps(c) + graphite_steps(c) + "      - name: Build\n"@ + "        run: |"@ + "\n"@
        + "          nix develop --command bash -c \"cargo build -p orchd --locked\"\n"@
        + "      - name: Test\n"@ + "        run: |"@ + "\n"@
        + "          nix develop --command bash -c \""@ + spec_escape_quotes(c.verify_command@)
        + "\"\n"@ + "      - name: Clippy\n"@ + "        run: |"@ + "\n"@
        + "          nix develop --command bash -c \"cargo clippy -p orchd -- -D warnings\"\n"@
}

/// The CI workflow with a plain Rust toolchain.
pub open spec fn spec_basic_ci(c: CiConfig) -> Seq<char> {
    spec_ci_head(c) + "      - name: Setup Rust\n"@ + "        uses: dtolnay/rust-toolchain@stable\n"@
        + cache_steps(c) + graphite_steps(c) + "      - name: Build\n"@
        + "        run: cargo build -p orchd --locked\n"@ + "      - name: Test\n"@
        + "        run: "@ + c.verify_command@ + "\n"@ + "      - name: Clippy\n"@
        + "        run: cargo clippy -p orchd -- -D warnings\n"@
}

/// The verify-only workflow.
pub open spec fn spec_verify_workflow(c: CiConfig) -> Seq<char> {
    let head = "name: Othala Verify\n\n"@ + spec_triggers(c) + "\n"@ + "jobs:\n"@
        + "  verify_only:\n"@ + "    name: Verify Only\n"@ + "    runs-on: ubuntu-latest\n"@
        + "    steps:\n"@ + "      - name: Checkout\n"@ + "        uses: actions/checkout@v4\n"@;
    if c.nix_enabled {
        head + "      - name: Install Nix\n"@ + "        uses: cachix/install-nix-action@v31\n"@
            + cache_steps(c) + "      - name: Run verify command\n"@ + "        run: |"@ + "\n"@
            + "          nix develop --command bash -c \""@ + spec_escape_quotes(c.verify_command@)
            + "\"\n"@
    } else {
        head + "      - name: Setup Rust\n"@ + "        uses: dtolnay/rust-toolchain@stable\n"@
            + cache_steps(c) + "      - name: Run verify command\n"@ + "        run: "@
            + c.verify_command@ + "\n"@
    }
}

fn push_cache_steps(out: &mut String, config: &CiConfig)
    ensures
        final(out)@ == old(out)@ + cache_steps(*config),
{
    if config.cache_enabled {
        out.append("      - name: Cache Rust artifacts\n");
        out.append("        uses: Swatinem/rust-cache@v2\n");
    } else {
        assert(out@ =~= out@ + cache_steps(*config));
    }
}

fn push_graphite_steps(out: &mut String, config: &CiConfig)
    ensures
        final(out)@ == old(out)@ + graphite_steps(*config),
{
    if config.graphite_enabled {
        out.append("      - name: Graphite enabled\n");
        out.append("        run: echo \"graphite integration enabled\"\n");
    } else {
        assert(out@ =~= out@ + graphite_steps(*config));
    }
}

fn ci_head(config: &CiConfig) -> (res: String)
    ensures
        res@ == spec_ci_head(*config),
{
    let mut output = String::from_str("name: Othala CI\n\n");
    let triggers = render_triggers(config);
    output.append(triggers.as_str());
    output.append("\n");
    output.append("jobs:\n");
    output.append("  verify:\n");
    output.append("    name: Build, Test, and Lint\n");
    output.append("    runs-on: ubuntu-latest\n");
    output.append("    steps:\n");
    output.append("      - name: Checkout\n");
    output.append("        uses: actions/checkout@v4\n");
    output
}

/// The workflow for `config`: Nix-based when Nix is enabled, plain otherwise.
pub fn generate_github_actions(config: &CiConfig) -> (res: String)
    ensures
        res@ == if config.nix_enabled {
            spec_nix_ci(*config)
        } else {
            spec_basic_ci(*config)
        },
{
    if config.nix_enabled {
        generate_nix_ci(config)
    } else {
        generate_basic_ci(config)
    }
}

/// The verify-only workflow.
pub fn generate_verify_workflow(config: &CiConfig) -> (res: String)
    ensures
        res@ == spec_verify_workflow(*config),
{
    let mut output = String::from_str("name: Othala Verify\n\n");
    let triggers = render_triggers(config);
    output.append(triggers.as_str());
    output.append("\n");
    output.append("jobs:\n");
    output.append("  verify_only:\n");
    output.append("    name: Verify Only\n");
    output.append("    runs-on: ubuntu-latest\n");
    output.append("    steps:\n");
    output.append("      - name: Checkout\n");
    output.append("        uses: actions/checkout@v4\n");
    if config.nix_enabled {
        output.append("      - name: Install Nix\n");
        output.append("        uses: cachix/install-nix-action@v31\n");
        push_cache_steps(&mut output, config);
        output.append("      - name: Run verify command\n");
        output.append("        run: |");
        output.append("\n");
        output.append("          nix develop --command bash -c \"");
        let escaped = escape_for_double_quotes(config.verify_command.as_str());
        output.append(escaped.as_str());
        output.append("\"\n");
    } else {
        output.append("      - name: Setup Rust\n");
        output.append("        uses: dtolnay/rust-toolchain@stable\n");
        push_cache_steps(&mut output, config);
        output.append("      - name: Run verify command\n");
        output.append("        run: ");
        output.append(config.verify_command.as_str());
        output.append("\n");
    }
    output
}

/// The Nix-based CI workflow.
pub fn generate_nix_ci(config: &CiConfig) -> (res: String)
    ensures
        res@ == spec_nix_ci(*config),
{
    let mut output = ci_head(config);
    output.append("      - name: Install Nix\n");
    output.append("        uses: cachix/install-nix-action@v31\n");
    push_cache_steps(&mut output, config);
    push_graphite_steps(&mut output, config);
    output.append("      - name: Build\n");
    output.append("        run: |");
    output.append("\n");
    output.append("          nix develop --command bash -c \"cargo build -p orchd --locked\"\n");
    output.append("      - name: Test\n");
    output.append("        run: |");
    output.append("\n");
    output.append("          nix develop --command bash -c \"");
    let escaped = escape_for_double_quotes(config.verify_command.as_str());
    output.append(escaped.as_str());
    output.append("\"\n");
    output.append("      - name: Clippy\n");
    output.append("        run: |");
    output.append("\n");
    output.append(
        "          nix develop --command bash -c \"cargo clippy -p orchd -- -D warnings\"\n",
    );
    output
}

/// The CI workflow with a plain Rust toolchain.
pub fn generate_basic_ci(config: &CiConfig) -> (res: String)
    ensures
        res@ == spec_basic_ci(*config),
{
    let mut output = ci_head(config);
    output.append("      - name: Setup Rust\n");
    output.append("        uses: dtolnay/rust-toolchain@stable\n");
    push_cache_steps(&mut output, config);
    push_graphite_steps(&mut output, config);
    output.append("      - name: Build\n");
    output.append("        run: cargo build -p orchd --locked\n");
    output.append("      - name: Test\n");
    output.append("        run: ");
    output.append(config.verify_command.as_str());
    output.append("\n");
    output.append("      - name: Clippy\n");
    output.append("        run: cargo clippy -p orchd -- -D warnings\n");
    output
}

/// The problems found in a workflow text, in the order they are checked.
pub open spec fn workflow_errors(content: Seq<char>) -> Seq<Seq<char>> {
    let e = seq![];
    let e = if !contains(content, "name:"@) { e.push("missing workflow name"@) } else { e };
    let e = if !contains(content, "on:"@) { e.push("missing trigger section"@) } else { e };
    let e = if !contains(content, "jobs:"@) { e.push("missing jobs section"@) } else { e };
    let e = if !contains(content, "actions/checkout@"@) {
        e.push("missing checkout step"@)
    } else {
        e
    };
    if !contains(content, "runs-on:"@) {
        e.push("missing runs-on key"@)
    } else {
        e
    }
}

/// Checks that a workflow has a name, triggers, jobs, a checkout step and a
/// runner; returns every missing piece.
pub fn validate_workflow(content: &str) -> (res: Result<(), Vec<String>>)
    ensures
        match res {
            Ok(()) => workflow_errors(content@).len() == 0,
            Err(errs) => errs.deep_view() == workflow_errors(content@) && errs@.len() > 0,
        },
{
    let mut errors: Vec<String> = Vec::new();
    assert(errors.deep_view() =~= seq![]);
    if !str_contains(content, "name:") {
        push_line(&mut errors, "missing workflow name");
    }
    if !str_contains(content, "on:") {
        push_line(&mut errors, "missing trigger section");
    }
    if !str_contains(content, "jobs:") {
        push_line(&mut errors, "missing jobs section");
    }
    if !str_contains(content, "actions/checkout@") {
        push_line(&mut errors, "missing checkout step");
    }
    if !str_contains(content, "runs-on:") {
        push_line(&mut errors, "missing runs-on key");
    }
    assert(errors.deep_view() =~= workflow_errors(content@));
    if errors.len() == 0 {
        Ok(())
    } else {
        Err(errors)
    }
}


proof fn lemma_contains_right(a: Seq<char>, b: Seq<char>, p: Seq<char>)
    requires
        contains(b, p),
    ensures
        contains(a + b, p),
{
    let i = choose|i: int| occurs_at(b, p, i);
    assert((a + b).subrange(a.len() + i, a.len() + i + p.len()) =~= b.subrange(i, i + p.len()));
    assert(occurs_at(a + b, p, a.len() + i));
}

proof fn lemma_contains_prefix(head: Seq<char>, w: Seq<char>, p: Seq<char>)
    requires
        contains(head, p),
        head.len() <= w.len(),
        w.take(head.len() as int) == head,
    ensures
        contains(w, p),
{
    let i = choose|i: int| occurs_at(head, p, i);
    assert(w.subrange(i, i + p.len()) =~= head.subrange(i, i + p.len())) by {
        assert forall|k: int| 0 <= k < p.len() implies #[trigger] w.subrange(i, i + p.len())[k] == head.subrange(i, i + p.len())[k] by {
            assert(w.take(head.len() as int)[i + k] == w[i + k]);
        }
    }
    assert(occurs_at(w, p, i));
}

proof fn lemma_join_starts(parts: Seq<Seq<char>>, sep: Seq<char>)
    requires
        parts.len() > 0,
    ensures
        parts[0].len() <= join(parts, sep).len(),
        join(parts, sep).take(parts[0].len() as int) == parts[0],
    decreases parts.len(),
{
    if parts.len() > 1 {
        lemma_join_starts(parts.drop_last(), sep);
        let j = join(parts.drop_last(), sep);
        assert((j + sep + parts.last()).take(parts[0].len() as int) =~= j.take(parts[0].len() as int));
    } else {
        assert(parts[0].take(parts[0].len() as int) =~= parts[0]);
    }
}

proof fn lemma_literal_has(l: Seq<char>, p: Seq<char>, i: int)
    requires
        0 <= i && i + p.len() <= l.len(),
        l.subrange(i, i + p.len()) == p,
    ensures
        contains(l, p),
{
    assert(occurs_at(l, p, i));
}

/// Every verify workflow written by [`generate_verify_workflow`] passes
/// [`validate_workflow`], and it is named "Othala Verify" with the job
/// "Verify Only".
pub proof fn lemma_verify_workflow_valid(c: CiConfig)
    ensures
        workflow_errors(spec_verify_workflow(c)).len() == 0,
        contains(spec_verify_workflow(c), "name: Othala Verify"@),
        contains(spec_verify_workflow(c), "Verify Only"@),
{
    reveal_strlit("name: Othala Verify\n\n");
    reveal_strlit("name: Othala Verify");
    reveal_strlit("name:");
    reveal_strlit("on:");
    reveal_strlit("jobs:\n");
    reveal_strlit("jobs:");
    reveal_strlit("\n");
    reveal_strlit("  verify_only:\n");
    reveal_strlit("    name: Verify Only\n");
    reveal_strlit("Verify Only");
    reveal_strlit("    runs-on: ubuntu-latest\n");
    reveal_strlit("runs-on:");
    reveal_strlit("    steps:\n");
    reveal_strlit("      - name: Checkout\n");
    reveal_strlit("        uses: actions/checkout@v4\n");
    reveal_strlit("actions/checkout@");
    let w = spec_verify_workflow(c);
    let t = spec_triggers(c);
    let x1 = "name: Othala Verify\n\n"@;
    let x2 = x1 + t;
    let x3 = x2 + "\n"@ + "jobs:\n"@;
    let x5 = x3 + "  verify_only:\n"@ + "    name: Verify Only\n"@;
    let x6 = x5 + "    runs-on: ubuntu-latest\n"@;
    let head = x6 + "    steps:\n"@ + "      - name: Checkout\n"@ + "        uses: actions/checkout@v4\n"@;
    assert(w.take(head.len() as int) =~= head);
    assert(head.take(x1.len() as int) =~= x1);
    assert(head.take(x2.len() as int) =~= x2);
    assert(head.take(x3.len() as int) =~= x3);
    assert(head.take(x5.len() as int) =~= x5);
    assert(head.take(x6.len() as int) =~= x6);
    // "name:" and the workflow's name open the text.
    assert(x1.subrange(0, 5) =~= "name:"@);
    assert(x1.subrange(0, 19) =~= "name: Othala Verify"@);
    lemma_literal_has(x1, "name:"@, 0);
    lemma_literal_has(x1, "name: Othala Verify"@, 0);
    // The trigger section starts with "on:".
    let lines = trigger_lines(c);
    assert(lines[0] == "on:"@);
    lemma_join_starts(lines, "\n"@);
    assert(t.take(3) =~= "on:"@);
    lemma_literal_has(t, "on:"@, 0);
    lemma_contains_right(x1, t, "on:"@);
    // The jobs section, the job's name, its runner and the checkout step.
    assert("jobs:\n"@.subrange(0, 5) =~= "jobs:"@);
    lemma_literal_has("jobs:\n"@, "jobs:"@, 0);
    lemma_contains_right(x2 + "\n"@, "jobs:\n"@, "jobs:"@);
    assert("    name: Verify Only\n"@.subrange(10, 21) =~= "Verify Only"@);
    lemma_literal_has("    name: Verify Only\n"@, "Verify Only"@, 10);
    lemma_contains_right(x3 + "  verify_only:\n"@, "    name: Verify Only\n"@, "Verify Only"@);
    assert("    runs-on: ubuntu-latest\n"@.subrange(4, 12) =~= "runs-on:"@);
    lemma_literal_has("    runs-on: ubuntu-latest\n"@, "runs-on:"@, 4);
    lemma_contains_right(x5, "    runs-on: ubuntu-latest\n"@, "runs-on:"@);
    assert("        uses: actions/checkout@v4\n"@.subrange(14, 31) =~= "actions/checkout@"@);
    lemma_literal_has("        uses: actions/checkout@v4\n"@, "actions/checkout@"@, 14);
    lemma_contains_right(x6 + "    steps:\n"@ + "      - name: Checkout\n"@, "        uses: actions/checkout@v4\n"@, "actions/checkout@"@);
    lemma_contains_prefix(x1, head, "name:"@);
    lemma_contains_prefix(x1, head, "name: Othala Verify"@);
    lemma_contains_prefix(x2, head, "on:"@);
    lemma_contains_prefix(x3, head, "jobs:"@);
    lemma_contains_prefix(x5, head, "Verify Only"@);
    lemma_contains_prefix(x6, head, "runs-on:"@);
    lemma_contains_prefix(head, w, "name:"@);
    lemma_contains_prefix(head, w, "name: Othala Verify"@);
    lemma_contains_prefix(head, w, "on:"@);
    lemma_contains_prefix(head, w, "jobs:"@);
    lemma_contains_prefix(head, w, "Verify Only"@);
    lemma_contains_prefix(head, w, "runs-on:"@);
    lemma_contains_prefix(head, w, "actions/checkout@"@);
}


proof fn lemma_contains_left(a: Seq<char>, b: Seq<char>, p: Seq<char>)
    requires
        contains(a, p),
    ensures
        contains(a + b, p),
{
    let i = choose|i: int| occurs_at(a, p, i);
    assert((a + b).subrange(i, i + p.len()) =~= a.subrange(i, i + p.len()));
    assert(occurs_at(a + b, p, i));
}

/// The shared head of the CI workflows names the workflow "Othala CI",
/// opens the trigger and job sections, checks the code out and names the
/// job "Build, Test, and Lint".
proof fn lemma_ci_head_keys(c: CiConfig, w: Seq<char>)
    requires
        spec_ci_head(c).len() <= w.len(),
        w.take(spec_ci_head(c).len() as int) == spec_ci_head(c),
    ensures
        contains(w, "name: Othala CI"@),
        contains(w, "on:"@),
        contains(w, "jobs:"@),
        contains(w, "actions/checkout@v4"@),
        contains(w, "Build"@),
        contains(w, "Test"@),
{
    reveal_strlit("name: Othala CI\n\n");
    reveal_strlit("name: Othala CI");
    reveal_strlit("on:");
    reveal_strlit("jobs:\n");
    reveal_strlit("jobs:");
    reveal_strlit("\n");
    reveal_strlit("  verify:\n");
    reveal_strlit("    name: Build, Test, and Lint\n");
    reveal_strlit("Build");
    reveal_strlit("Test");
    reveal_strlit("    runs-on: ubuntu-latest\n");
    reveal_strlit("    steps:\n");
    reveal_strlit("      - name: Checkout\n");
    reveal_strlit("        uses: actions/checkout@v4\n");
    reveal_strlit("actions/checkout@v4");
    let head = spec_ci_head(c);
    let t = spec_triggers(c);
    let x1 = "name: Othala CI\n\n"@;
    let x2 = x1 + t;
    let x3 = x2 + "\n"@ + "jobs:\n"@;
    let x4 = x3 + "  verify:\n"@ + "    name: Build, Test, and Lint\n"@;
    let x5 = x4 + "    runs-on: ubuntu-latest\n"@ + "    steps:\n"@ + "      - name: Checkout\n"@;
    let x6 = x5 + "        uses: actions/checkout@v4\n"@;
    assert(head == x6);
    assert(head.take(x1.len() as int) =~= x1);
    assert(head.take(x2.len() as int) =~= x2);
    assert(head.take(x3.len() as int) =~= x3);
    assert(head.take(x4.len() as int) =~= x4);
    assert(x1.subrange(0, 15) =~= "name: Othala CI"@);
    lemma_literal_has(x1, "name: Othala CI"@, 0);
    let lines = trigger_lines(c);
    assert(lines[0] == "on:"@);
    lemma_join_starts(lines, "\n"@);
    assert(t.take(3) =~= "on:"@);
    lemma_literal_has(t, "on:"@, 0);
    lemma_contains_right(x1, t, "on:"@);
    assert("jobs:\n"@.subrange(0, 5) =~= "jobs:"@);
    lemma_literal_has("jobs:\n"@, "jobs:"@, 0);
    lemma_contains_right(x2 + "\n"@, "jobs:\n"@, "jobs:"@);
    let job = "    name: Build, Test, and Lint\n"@;
    assert(job.subrange(10, 15) =~= "Build"@);
    assert(job.subrange(17, 21) =~= "Test"@);
    lemma_literal_has(job, "Build"@, 10);
    lemma_literal_has(job, "Test"@, 17);
    lemma_contains_right(x3 + "  verify:\n"@, job, "Build"@);
    lemma_contains_right(x3 + "  verify:\n"@, job, "Test"@);
    let co = "        uses: actions/checkout@v4\n"@;
    assert(co.subrange(14, 33) =~= "actions/checkout@v4"@);
    lemma_literal_has(co, "actions/checkout@v4"@, 14);
    lemma_contains_right(x5, co, "actions/checkout@v4"@);
    lemma_contains_prefix(x1, head, "name: Othala CI"@);
    lemma_contains_prefix(x2, head, "on:"@);
    lemma_contains_prefix(x3, head, "jobs:"@);
    lemma_contains_prefix(x4, head, "Build"@);
    lemma_contains_prefix(x4, head, "Test"@);
    lemma_contains_prefix(head, w, "name: Othala CI"@);
    lemma_contains_prefix(head, w, "on:"@);
    lemma_contains_prefix(head, w, "jobs:"@);
    lemma_contains_prefix(head, w, "actions/checkout@v4"@);
    lemma_contains_prefix(head, w, "Build"@);
    lemma_contains_prefix(head, w, "Test"@);
}

/// Every CI workflow written by [`generate_github_actions`], with Nix or
/// without, is named "Othala CI", has triggers and jobs, checks the code
/// out, and builds, tests and runs Clippy.
pub proof fn lemma_ci_workflow_keys(c: CiConfig)
    ensures
        forall|w: Seq<char>| (w == spec_nix_ci(c) || w == spec_basic_ci(c)) ==> {
            &&& contains(w, "name: Othala CI"@)
            &&& contains(w, "on:"@)
            &&& contains(w, "jobs:"@)
            &&& contains(w, "actions/checkout@v4"@)
            &&& contains(w, "Build"@)
            &&& contains(w, "Test"@)
            &&& contains(w, "Clippy"@)
        },
{
    reveal_strlit("      - name: Clippy\n");
    reveal_strlit("Clippy");
    let clip = "      - name: Clippy\n"@;
    assert(clip.subrange(14, 20) =~= "Clippy"@);
    lemma_literal_has(clip, "Clippy"@, 14);
    let head = spec_ci_head(c);
    let nix = spec_nix_ci(c);
    let basic = spec_basic_ci(c);
    let np = spec_ci_head(c) + "      - name: Install Nix\n"@ + "        uses: cachix/install-nix-action@v31\n"@
        + cache_steps(c) + graphite_steps(c) + "      - name: Build\n"@ + "        run: |"@ + "\n"@
        + "          nix develop --command bash -c \"cargo build -p orchd --locked\"\n"@
        + "      - name: Test\n"@ + "        run: |"@ + "\n"@
        + "          nix develop --command bash -c \""@ + spec_escape_quotes(c.verify_command@)
        + "\"\n"@;
    let n1 = np + clip;
    let n2 = n1 + "        run: |"@;
    let n3 = n2 + "\n"@;
    assert(nix == n3 + "          nix develop --command bash -c \"cargo clippy -p orchd -- -D warnings\"\n"@);
    lemma_contains_right(np, clip, "Clippy"@);
    lemma_contains_left(n1, "        run: |"@, "Clippy"@);
    lemma_contains_left(n2, "\n"@, "Clippy"@);
    lemma_contains_left(n3, "          nix develop --command bash -c \"cargo clippy -p orchd -- -D warnings\"\n"@, "Clippy"@);
    let bp = spec_ci_head(c) + "      - name: Setup Rust\n"@ + "        uses: dtolnay/rust-toolchain@stable\n"@
        + cache_steps(c) + graphite_steps(c) + "      - name: Build\n"@
        + "        run: cargo build -p orchd --locked\n"@ + "      - name: Test\n"@
        + "        run: "@ + c.verify_command@ + "\n"@;
    assert(basic == bp + clip + "        run: cargo clippy -p orchd -- -D warnings\n"@);
    lemma_contains_right(bp, clip, "Clippy"@);
    lemma_contains_left(bp + clip, "        run: cargo clippy -p orchd -- -D warnings\n"@, "Clippy"@);
    assert(nix.take(head.len() as int) =~= head);
    assert(basic.take(head.len() as int) =~= head);
    lemma_ci_head_keys(c, nix);
    lemma_ci_head_keys(c, basic);
}

} // verus!
