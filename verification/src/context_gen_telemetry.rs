//! Context-generation observability: staleness grading, the coverage
//! snapshot of the context directory, the token budget and the report text.

use vstd::prelude::*;
use vstd::string::StringSliceAdditionalSpecFns;
use crate::editor::{as_double, push_tenths, tenths_text, to_double};
use crate::text::{
    decimal, lemma_lex_total, lemma_lex_trans, lex_lt, pad_left, pad_right, push_decimal, push_padded, push_padded_left, str_eq,
    str_lt, chars_of, ends_with,
};

verus! {

/// How fresh the generated context is.
#[derive(Debug, Clone, Copy, PartialEq, Eq, Structural)]
pub enum StaleSeverity {
    /// The context is current.
    Fresh,
    /// The context exists but is out of date.
    Stale,
    /// The context is missing.
    Critical,
}

/// A freshness finding.
#[derive(Debug, Clone)]
pub struct StaleWarning {
    pub severity: StaleSeverity,
    pub message: String,
    /// Seconds since the main context file was written, where known.
    pub age_secs: Option<i64>,
}

/// Whether the stored commit is known to be HEAD.
pub open spec fn hash_matches(head: Option<Seq<char>>, stored: Option<Seq<char>>) -> bool {
    head is Some && stored is Some && head == stored
}

/// The message for context more than 24 hours old.
pub open spec fn old_message(matches: bool, a: i64) -> Seq<char> {
    if matches {
        "Context matches HEAD but is "@ + decimal((a / 3600) as nat) + "h old — consider regenerating"@
    } else {
        "Context is "@ + decimal((a / 3600) as nat) + "h old — consider regenerating"@
    }
}

/// What a staleness check finds, from what was read on disk: whether
/// `MAIN.md` exists, the HEAD commit, the stored commit and the file's age.
/// Missing context and context more than 24 hours old are critical; an
/// unknown or different stored commit is stale.
pub open spec fn staleness_of(
    main_md_exists: bool,
    head: Option<Seq<char>>,
    stored: Option<Seq<char>>,
    age_secs: Option<i64>,
) -> (StaleSeverity, Seq<char>, Option<i64>) {
    if !main_md_exists {
        (StaleSeverity::Critical, "No context generated — MAIN.md missing"@, None)
    } else if age_secs is Some && age_secs->0 > 86400 {
        (StaleSeverity::Critical, old_message(hash_matches(head, stored), age_secs->0), age_secs)
    } else {
        match (head, stored) {
            (Some(h), Some(s)) => {
                if h == s {
                    (StaleSeverity::Fresh, "Context is current"@, age_secs)
                } else {
                    (StaleSeverity::Stale, "Context hash does not match HEAD — stale"@, age_secs)
                }
            },
            (Some(_), None) => (
                StaleSeverity::Stale,
                "Context exists but no stored hash — staleness unknown"@,
                age_secs,
            ),
            (None, _) => (StaleSeverity::Fresh, "Context exists (non-git or unreadable HEAD)"@, age_secs),
        }
    }
}

/// Views an optional string.
pub open spec fn opt_view(o: Option<String>) -> Option<Seq<char>> {
    match o {
        Some(s) => Some(s@),
        None => None,
    }
}

/// Grades the context's freshness. `age_secs` is the age of `MAIN.md`,
/// where it could be read; it is only reported when `MAIN.md` exists.
pub fn assess_staleness(
    main_md_exists: bool,
    head: &Option<String>,
    stored: &Option<String>,
    age_secs: Option<i64>,
) -> (res: StaleWarning)
    ensures
        (res.severity, res.message@, res.age_secs) == staleness_of(
            main_md_exists,
            opt_view(*head),
            opt_view(*stored),
            age_secs,
        ),
{
    if !main_md_exists {
        return StaleWarning {
            severity: StaleSeverity::Critical,
            message: String::from_str("No context generated — MAIN.md missing"),
            age_secs: None,
        };
    }
    let matches = match (head, stored) {
        (Some(h), Some(s)) => str_eq(h.as_str(), s.as_str()),
        _ => false,
    };
    if let Some(a) = age_secs {
        if a > 86400 {
            let mut message = if matches {
                String::from_str("Context matches HEAD but is ")
            } else {
                String::from_str("Context is ")
            };
            push_decimal(&mut message, (a / 3600) as u64);
            message.append("h old — consider regenerating");
            return StaleWarning { severity: StaleSeverity::Critical, message, age_secs: Some(a) };
        }
    }
    match (head, stored) {
        (Some(h), Some(s)) => {
            if matches {
                StaleWarning {
                    severity: StaleSeverity::Fresh,
                    message: String::from_str("Context is current"),
                    age_secs,
                }
            } else {
                StaleWarning {
                    severity: StaleSeverity::Stale,
                    message: String::from_str("Context hash does not match HEAD — stale"),
                    age_secs,
                }
            }
        },
        (Some(_), None) => StaleWarning {
            severity: StaleSeverity::Stale,
            message: String::from_str("Context exists but no stored hash — staleness unknown"),
            age_secs,
        },
        (None, _) => StaleWarning {
            severity: StaleSeverity::Fresh,
            message: String::from_str("Context exists (non-git or unreadable HEAD)"),
            age_secs,
        },
    }
}

/// One context file.
#[derive(Debug, Clone)]
pub struct ContextFileInfo {
    /// Path within the context directory.
    pub relative_path: String,
    pub bytes: u64,
}

/// What the context directory holds.
#[derive(Debug, Clone)]
pub struct ContextCoverage {
    pub file_count: usize,
    pub total_bytes: u64,
    /// A quarter of the total bytes, rounded down.
    pub estimated_tokens: u64,
    /// The files, ordered by path.
    pub files: Vec<ContextFileInfo>,
}

/// Where `x` goes among `t` from index `i` on: before the first entry whose
/// path is greater than its own.
pub open spec fn insert_pos(t: Seq<ContextFileInfo>, x: ContextFileInfo, i: int) -> int
    decreases t.len() - i,
{
    if i >= t.len() || i < 0 {
        t.len() as int
    } else if lex_lt(x.relative_path@, t[i].relative_path@) {
        i
    } else {
        insert_pos(t, x, i + 1)
    }
}

/// `s` ordered by path; files with equal paths keep their order.
pub open spec fn sort_by_path(s: Seq<ContextFileInfo>) -> Seq<ContextFileInfo>
    decreases s.len(),
{
    if s.len() == 0 {
        s
    } else {
        let t = sort_by_path(s.drop_last());
        t.insert(insert_pos(t, s.last(), 0), s.last())
    }
}

/// The sum of the sizes.
pub open spec fn total_size(s: Seq<ContextFileInfo>) -> nat
    decreases s.len(),
{
    if s.len() == 0 {
        0
    } else {
        total_size(s.drop_last()) + s.last().bytes as nat
    }
}

proof fn lemma_insert_pos_range(t: Seq<ContextFileInfo>, x: ContextFileInfo, i: int)
    requires
        0 <= i <= t.len(),
    ensures
        i <= insert_pos(t, x, i) <= t.len(),
    decreases t.len() - i,
{
    if i < t.len() && !lex_lt(x.relative_path@, t[i].relative_path@) {
        lemma_insert_pos_range(t, x, i + 1);
    }
}

proof fn lemma_sort_len(s: Seq<ContextFileInfo>)
    ensures
        sort_by_path(s).len() == s.len(),
    decreases s.len(),
{
    if s.len() > 0 {
        lemma_sort_len(s.drop_last());
        lemma_insert_pos_range(sort_by_path(s.drop_last()), s.last(), 0);
    }
}

proof fn lemma_total_prefix(s: Seq<ContextFileInfo>, i: int)
    requires
        0 <= i <= s.len(),
    ensures
        total_size(s.take(i)) <= total_size(s),
    decreases s.len() - i,
{
    if i < s.len() {
        lemma_total_prefix(s, i + 1);
        assert(s.take(i + 1).drop_last() =~= s.take(i));
    } else {
        assert(s.take(i) =~= s);
    }
}

/// Whether the files are in path order.
pub open spec fn path_sorted(s: Seq<ContextFileInfo>) -> bool {
    forall|i: int, j: int| 0 <= i < j < s.len() ==> !lex_lt(#[trigger] s[j].relative_path@, #[trigger] s[i].relative_path@)
}

proof fn lemma_insert_pos_before(t: Seq<ContextFileInfo>, x: ContextFileInfo, i: int, k: int)
    requires
        0 <= i <= k < insert_pos(t, x, i),
        insert_pos(t, x, i) <= t.len(),
    ensures
        !lex_lt(x.relative_path@, t[k].relative_path@),
    decreases k - i,
{
    if i < k {
        lemma_insert_pos_before(t, x, i + 1, k);
    }
}

proof fn lemma_insert_pos_at(t: Seq<ContextFileInfo>, x: ContextFileInfo, i: int)
    requires
        0 <= i <= t.len(),
        insert_pos(t, x, i) < t.len(),
    ensures
        lex_lt(x.relative_path@, t[insert_pos(t, x, i)].relative_path@),
    decreases t.len() - i,
{
    if i < t.len() && !lex_lt(x.relative_path@, t[i].relative_path@) {
        lemma_insert_pos_at(t, x, i + 1);
    }
}

/// Sorting by path gives the files in path order.
pub proof fn lemma_sort_by_path_sorted(s: Seq<ContextFileInfo>)
    ensures
        path_sorted(sort_by_path(s)),
        sort_by_path(s).len() == s.len(),
    decreases s.len(),
{
    lemma_sort_len(s);
    if s.len() > 0 {
        let t = sort_by_path(s.drop_last());
        let x = s.last();
        lemma_sort_by_path_sorted(s.drop_last());
        lemma_insert_pos_range(t, x, 0);
        let p = insert_pos(t, x, 0);
        let r = t.insert(p, x);
        assert forall|i: int, j: int| 0 <= i < j < r.len() implies !lex_lt(#[trigger] r[j].relative_path@, #[trigger] r[i].relative_path@) by {
            if j < p {
                assert(r[i] == t[i] && r[j] == t[j]);
            } else if j == p {
                lemma_insert_pos_before(t, x, 0, i);
            } else if i == p {
                assert(r[j] == t[j - 1]);
                lemma_insert_pos_at(t, x, 0);
                lemma_lex_total(x.relative_path@, t[p].relative_path@);
                if p < j - 1 {
                    assert(!lex_lt(t[j - 1].relative_path@, t[p].relative_path@));
                    if lex_lt(t[j - 1].relative_path@, x.relative_path@) {
                        lemma_lex_trans(t[j - 1].relative_path@, x.relative_path@, t[p].relative_path@);
                    }
                }
            } else if i < p {
                assert(r[i] == t[i] && r[j] == t[j - 1]);
            } else {
                assert(r[i] == t[i - 1] && r[j] == t[j - 1]);
            }
        }
    }
}

/// Sorting by path keeps every file, as often as it occurs.
pub proof fn lemma_sort_by_path_permutes(s: Seq<ContextFileInfo>)
    ensures
        sort_by_path(s).to_multiset() == s.to_multiset(),
    decreases s.len(),
{
    if s.len() > 0 {
        let t = sort_by_path(s.drop_last());
        lemma_sort_by_path_permutes(s.drop_last());
        lemma_sort_len(s.drop_last());
        lemma_insert_pos_range(t, s.last(), 0);
        vstd::seq_lib::to_multiset_insert(t, insert_pos(t, s.last(), 0), s.last());
        vstd::seq_lib::to_multiset_build(s.drop_last(), s.last());
        assert(s.drop_last().push(s.last()) =~= s);
    }
}

fn copy_info(x: &ContextFileInfo) -> (res: ContextFileInfo)
    ensures
        res == *x,
{
    ContextFileInfo { relative_path: x.relative_path.clone(), bytes: x.bytes }
}

/// Builds the coverage snapshot from the files found: ordered by path,
/// counted and totalled.
pub fn coverage_from_files(files: Vec<ContextFileInfo>) -> (res: ContextCoverage)
    requires
        total_size(files@) <= u64::MAX,
    ensures
        res.files@ == sort_by_path(files@),
        path_sorted(res.files@),
        res.files@.to_multiset() == files@.to_multiset(),
        res.file_count == files@.len(),
        res.total_bytes == total_size(files@),
        res.estimated_tokens == total_size(files@) / 4,
{
    let mut sorted: Vec<ContextFileInfo> = Vec::new();
    let mut total: u64 = 0;
    let mut i: usize = 0;
    while i < files.len()
        invariant
            i <= files@.len(),
            total_size(files@) <= u64::MAX,
            sorted@ == sort_by_path(files@.take(i as int)),
            total == total_size(files@.take(i as int)),
        decreases files@.len() - i,
    {
        let ghost pre = files@.take(i as int);
        assert(files@.take(i + 1).drop_last() =~= pre);
        assert(files@.take(i + 1).last() == files@[i as int]);
        proof {
            lemma_total_prefix(files@, i + 1);
            lemma_sort_len(pre);
        }
        let x = &files[i];
        let mut k: usize = 0;
        while k < sorted.len() && !str_lt(x.relative_path.as_str(), sorted[k].relative_path.as_str())
            invariant
                k <= sorted@.len(),
                insert_pos(sorted@, *x, k as int) == insert_pos(sorted@, *x, 0),
            decreases sorted@.len() - k,
        {
            k = k + 1;
        }
        assert(insert_pos(sorted@, *x, k as int) == k);
        total = total + x.bytes;
        sorted.insert(k, copy_info(x));
        i = i + 1;
    }
    assert(files@.take(files@.len() as int) =~= files@);
    let n = sorted.len();
    proof {
        lemma_sort_by_path_sorted(files@);
        lemma_sort_by_path_permutes(files@);
    }
    ContextCoverage { file_count: n, total_bytes: total, estimated_tokens: total / 4, files: sorted }
}

/// Whether a path names a markdown file: its file name (after the last
/// `/`) has the extension `md`, that is, it ends with ".md" after at least
/// one other character.
pub open spec fn is_md_path(p: Seq<char>) -> bool {
    p.len() > 3 && ends_with(p, ".md"@) && p[p.len() - 4] != '/'
}

/// The markdown files among those found, in the order found.
pub open spec fn md_files(found: Seq<ContextFileInfo>) -> Seq<ContextFileInfo>
    decreases found.len(),
{
    if found.len() == 0 {
        Seq::empty()
    } else {
        let rest = md_files(found.drop_last());
        if is_md_path(found.last().relative_path@) { rest.push(found.last()) } else { rest }
    }
}

pub(crate) fn is_md_file(path: &str) -> (res: bool)
    ensures
        res == is_md_path(path@),
{
    proof {
        reveal_strlit(".md");
    }
    let v = chars_of(path);
    let n = v.len();
    if n <= 3 {
        return false;
    }
    let r = v[n - 3] == '.' && v[n - 2] == 'm' && v[n - 1] == 'd' && v[n - 4] != '/';
    proof {
        let t = path@.subrange(n - 3, n as int);
        if v[n - 3] == '.' && v[n - 2] == 'm' && v[n - 1] == 'd' {
            assert(t =~= ".md"@);
        }
        if ends_with(path@, ".md"@) {
            assert(t[0] == '.' && t[1] == 'm' && t[2] == 'd');
        }
    }
    r
}

/// The coverage of the context directory from every file found in it
/// (paths relative to the directory, with their sizes): only markdown
/// files count; they are ordered by path, counted and totalled.
pub fn scan_coverage(found: Vec<ContextFileInfo>) -> (res: ContextCoverage)
    requires
        total_size(md_files(found@)) <= u64::MAX,
    ensures
        res.files@ == sort_by_path(md_files(found@)),
        path_sorted(res.files@),
        res.files@.to_multiset() == md_files(found@).to_multiset(),
        res.file_count == md_files(found@).len(),
        res.total_bytes == total_size(md_files(found@)),
        res.estimated_tokens == total_size(md_files(found@)) / 4,
{
    let mut kept: Vec<ContextFileInfo> = Vec::new();
    let mut i: usize = 0;
    while i < found.len()
        invariant
            i <= found@.len(),
            kept@ == md_files(found@.take(i as int)),
        decreases found@.len() - i,
    {
        assert(found@.take(i + 1).drop_last() =~= found@.take(i as int));
        assert(found@.take(i + 1).last() == found@[i as int]);
        if is_md_file(found[i].relative_path.as_str()) {
            kept.push(copy_info(&found[i]));
        }
        i = i + 1;
    }
    assert(found@.take(found@.len() as int) =~= found@);
    coverage_from_files(kept)
}

/// Token budget of the context.
#[derive(Debug, Clone)]
pub struct TokenBudgetInfo {
    pub context_tokens: u64,
    pub generation_prompt_tokens: u64,
    /// Set when the context files are large.
    pub warning: Option<String>,
}

/// The budget warning for `tokens` context tokens, over 50 000 of them.
pub open spec fn budget_warning(tokens: u64) -> Option<Seq<char>> {
    if tokens > 50000 {
        Some(
            "Context files contain ~"@ + decimal((tokens / 1000) as nat)
                + "k tokens — consider trimming to stay under budget"@,
        )
    } else {
        None
    }
}

/// The token budget of a coverage snapshot and the prompt tokens spent on
/// generation.
pub fn token_budget(coverage: &ContextCoverage, generation_prompt_tokens: u64) -> (res: TokenBudgetInfo)
    ensures
        res.context_tokens == coverage.estimated_tokens,
        res.generation_prompt_tokens == generation_prompt_tokens,
        opt_view(res.warning) == budget_warning(coverage.estimated_tokens),
{
    let t = coverage.estimated_tokens;
    let warning = if t > 50_000 {
        let mut w = String::from_str("Context files contain ~");
        push_decimal(&mut w, t / 1000);
        w.append("k tokens — consider trimming to stay under budget");
        Some(w)
    } else {
        None
    };
    TokenBudgetInfo { context_tokens: t, generation_prompt_tokens, warning }
}

/// A byte count as `NB`, `N.NKB` or `N.NMB`.
pub open spec fn bytes_text(bytes: nat) -> Seq<char> {
    if bytes < 1024 {
        decimal(bytes) + "B"@
    } else if bytes < 1048576 {
        tenths_text(as_double(bytes), 1024) + "KB"@
    } else {
        tenths_text(as_double(bytes), 1048576) + "MB"@
    }
}

/// Formats a byte count with one decimal in KB or MB.
pub fn format_bytes(bytes: u64) -> (res: String)
    ensures
        res@ == bytes_text(bytes as nat),
{
    let mut out = String::new();
    if bytes < 1024 {
        push_decimal(&mut out, bytes);
        out.append("B");
    } else if bytes < 1024 * 1024 {
        let x = to_double(bytes);
        push_tenths(&mut out, x, 1024);
        out.append("KB");
    } else {
        let x = to_double(bytes);
        push_tenths(&mut out, x, 1048576);
        out.append("MB");
    }
    out
}

/// A rough token count: a quarter of the UTF-8 byte length, rounded up.
pub fn estimate_tokens(text: &str) -> (res: u64)
    ensures
        res == (text.spec_bytes().len() + 3) / 4,
{
    let n = text.as_bytes().len();
    let q = n / 4;
    let r = n % 4;
    (if r != 0 { q + 1 } else { q }) as u64
}

/// A signed number in decimal.
pub open spec fn signed_text(a: int) -> Seq<char> {
    if a < 0 {
        "-"@ + decimal((-a) as nat)
    } else {
        decimal(a as nat)
    }
}

fn push_signed(out: &mut String, a: i64)
    ensures
        final(out)@ == old(out)@ + signed_text(a as int),
{
    if a < 0 {
        out.append("-");
        let m: i128 = -(a as i128);
        push_decimal(out, m as u64);
    } else {
        push_decimal(out, a as u64);
    }
}

/// The colour escape and icon of a severity.
pub open spec fn severity_mark(s: StaleSeverity) -> Seq<char> {
    match s {
        StaleSeverity::Fresh => "\x1b[32m✓"@,
        StaleSeverity::Stale => "\x1b[33m⚠"@,
        StaleSeverity::Critical => "\x1b[31m✗"@,
    }
}

/// The age line of a staleness finding, if it has an age.
pub open spec fn age_text(age: Option<i64>) -> Seq<char> {
    match age {
        Some(a) => "    Age: "@ + signed_text(a as int) + "s"@ + (if a > 3600 {
            " ("@ + decimal((a / 3600) as nat) + "h "@ + decimal(((a % 3600) / 60) as nat) + "m)"@
        } else {
            Seq::empty()
        }) + "\n"@,
        None => Seq::empty(),
    }
}

/// One line per file: the path padded to 40 characters, then the size
/// right-aligned in 8.
pub open spec fn file_lines(files: Seq<ContextFileInfo>) -> Seq<char>
    decreases files.len(),
{
    if files.len() == 0 {
        Seq::empty()
    } else {
        file_lines(files.drop_last()) + "    "@ + pad_right(files.last().relative_path@, 40)
            + " "@ + pad_left(bytes_text(files.last().bytes as nat), 8) + "\n"@
    }
}

/// The report's header, staleness and coverage sections.
pub open spec fn report_head_text(w: StaleWarning, c: ContextCoverage) -> Seq<char> {
    "\x1b[35m── Context Generation Status ──\x1b[0m\n\n"@
        + "  "@ + severity_mark(w.severity) + " "@ + w.message@ + "\x1b[0m\n"@
        + age_text(w.age_secs) + "\n"@
        + "  Files: "@ + decimal(c.file_count as nat) + "   Bytes: "@ + bytes_text(c.total_bytes as nat)
        + "   ~Tokens: "@ + decimal(c.estimated_tokens as nat) + "\n"@
        + (if c.files@.len() > 0 {
            "  ─────────────────────────────────\n"@ + file_lines(c.files@)
        } else {
            Seq::empty()
        }) + "\n"@
}

fn push_staleness(out: &mut String, w: &StaleWarning)
    ensures
        final(out)@ == old(out)@ + "  "@ + severity_mark(w.severity) + " "@ + w.message@ + "\x1b[0m\n"@
            + age_text(w.age_secs),
{
    out.append("  ");
    match w.severity {
        StaleSeverity::Fresh => out.append("\x1b[32m✓"),
        StaleSeverity::Stale => out.append("\x1b[33m⚠"),
        StaleSeverity::Critical => out.append("\x1b[31m✗"),
    }
    out.append(" ");
    out.append(w.message.as_str());
    out.append("\x1b[0m\n");
    if let Some(age) = w.age_secs {
        out.append("    Age: ");
        push_signed(out, age);
        out.append("s");
        if age > 3600 {
            out.append(" (");
            push_decimal(out, (age / 3600) as u64);
            out.append("h ");
            push_decimal(out, ((age % 3600) / 60) as u64);
            out.append("m)");
        }
        out.append("\n");
    }
}

fn push_file_lines(out: &mut String, files: &Vec<ContextFileInfo>)
    ensures
        final(out)@ == old(out)@ + file_lines(files@),
{
    let mut i: usize = 0;
    while i < files.len()
        invariant
            i <= files@.len(),
            out@ == old(out)@ + file_lines(files@.take(i as int)),
        decreases files@.len() - i,
    {
        assert(files@.take(i + 1).drop_last() =~= files@.take(i as int));
        out.append("    ");
        push_padded(out, files[i].relative_path.as_str(), 40);
        out.append(" ");
        let sz = format_bytes(files[i].bytes);
        push_padded_left(out, sz.as_str(), 8);
        out.append("\n");
        i = i + 1;
    }
    assert(files@.take(files@.len() as int) =~= files@);
}

/// Renders the header, the staleness finding and the coverage table of the
/// status report.
pub fn render_report_head(staleness: &StaleWarning, coverage: &ContextCoverage) -> (res: String)
    ensures
        res@ == report_head_text(*staleness, *coverage),
{
    let mut out = String::from_str("\x1b[35m── Context Generation Status ──\x1b[0m\n\n");
    push_staleness(&mut out, staleness);
    out.append("\n");
    out.append("  Files: ");
    push_decimal(&mut out, coverage.file_count as u64);
    out.append("   Bytes: ");
    let b = format_bytes(coverage.total_bytes);
    out.append(b.as_str());
    out.append("   ~Tokens: ");
    push_decimal(&mut out, coverage.estimated_tokens);
    out.append("\n");
    if coverage.files.len() > 0 {
        out.append("  ─────────────────────────────────\n");
        push_file_lines(&mut out, &coverage.files);
    }
    out.append("\n");
    out
}

/// The budget warning section: empty without a warning.
pub open spec fn budget_warning_text(b: TokenBudgetInfo) -> Seq<char> {
    match b.warning {
        Some(w) => "  \x1b[33m⚠ "@ + w@ + "\x1b[0m\n\n"@,
        None => Seq::empty(),
    }
}

/// Renders the token-budget warning of the report, if there is one.
pub fn render_budget_warning(budget: &TokenBudgetInfo) -> (res: String)
    ensures
        res@ == budget_warning_text(*budget),
{
    match &budget.warning {
        Some(w) => {
            let mut out = String::from_str("  \x1b[33m⚠ ");
            out.append(w.as_str());
            out.append("\x1b[0m\n\n");
            out
        },
        None => String::new(),
    }
}

} // verus!
