//! Context generation: parsing the agent's output into context files and
//! deciding when the context is stale.

use vstd::prelude::*;
use crate::text::{
    byte_prefix, byte_prefix_len, contains, contains_exec, utf8_len, utf8_len_capped, chars_of, ends_with, lines, occurs_at_exec, replace, replace_exec, split_lines,
    starts_with, str_eq, string_of_range, sub_vec, trim, trim_end_char, trim_range,
    trim_start_char, occurs_at, join, lemma_trim_idempotent, join_strings, str_starts_with,
};
use crate::str_sort::{sort_strings, sort_strs};

verus! {

/// Status of the background context generation.
#[derive(Debug, Clone, Copy, PartialEq, Eq, Structural)]
pub enum ContextGenStatus {
    Idle,
    Running,
    Completed,
    Failed,
}

/// One context file to write.
#[derive(Debug, Clone)]
pub struct ContextFile {
    pub filename: String,
    pub content: String,
}

/// The files parsed from the agent's output.
#[derive(Debug, Clone)]
pub struct ContextGenOutput {
    pub files: Vec<ContextFile>,
}

/// What to do about context at startup.
#[derive(Debug, Clone, Copy, PartialEq, Eq, Structural)]
pub enum ContextStartupStatus {
    /// Context is current.
    UpToDate,
    /// Context exists but is stale.
    Stale,
    /// There is no context.
    Missing,
}

/// Context is current when MAIN.md exists and the stored hash equals HEAD;
/// without a HEAD hash (not a git repository) an existing MAIN.md is enough.
pub open spec fn spec_context_is_current(
    main_md_exists: bool,
    head: Option<Seq<char>>,
    stored: Option<Seq<char>>,
) -> bool {
    main_md_exists && match head {
        None => true,
        Some(h) => stored is Some && stored->0 == h,
    }
}

/// Views an optional string.
pub open spec fn opt_chars(o: Option<String>) -> Option<Seq<char>> {
    match o {
        Some(s) => Some(s@),
        None => None,
    }
}

/// Whole seconds from `from` to `to` (nanoseconds), rounded toward zero.
pub open spec fn whole_secs_between(from: i64, to: i64) -> int {
    let d = to - from;
    if d >= 0 { d / 1_000_000_000 } else { -((-d) / 1_000_000_000) }
}

/// Whether background context generation should start at `now`: never
/// while a run is in progress, always when context was never generated,
/// and otherwise once `cooldown_secs` whole seconds have passed since the
/// last generation (a cooldown beyond `i64::MAX` wraps, as a signed
/// comparison of the setting does).
pub fn should_regenerate(status: ContextGenStatus, last_generated_at: Option<i64>, cooldown_secs: u64, now: i64) -> (res: bool)
    ensures
        res == (status != ContextGenStatus::Running && match last_generated_at {
            Some(last) => whole_secs_between(last, now) >= cooldown_secs as i64,
            None => true,
        }),
{
    if status == ContextGenStatus::Running {
        return false;
    }
    match last_generated_at {
        Some(last) => {
            let d: i128 = now as i128 - last as i128;
            let secs: i128 = if d >= 0 { d / 1_000_000_000 } else { -((-d) / 1_000_000_000) };
            let limit: i64 = cooldown_secs as i64;
            secs >= limit as i128
        },
        None => true,
    }
}

/// Whether context is current, from whether `.othala/context/MAIN.md`
/// exists, the HEAD commit hash and the stored hash.
pub fn context_is_current(main_md_exists: bool, head_sha: Option<String>, stored_hash: Option<String>) -> (res: bool)
    ensures
        res == spec_context_is_current(main_md_exists, opt_chars(head_sha), opt_chars(stored_hash)),
{
    if !main_md_exists {
        return false;
    }
    match (head_sha, stored_hash) {
        (Some(head), Some(stored)) => str_eq(head.as_str(), stored.as_str()),
        (None, _) => true,
        (Some(_), None) => false,
    }
}

/// Startup decision: up to date when current, stale when MAIN.md exists,
/// missing otherwise.
pub fn check_context_startup(is_current: bool, main_md_exists: bool) -> (res: ContextStartupStatus)
    ensures
        res == if is_current {
            ContextStartupStatus::UpToDate
        } else if main_md_exists {
            ContextStartupStatus::Stale
        } else {
            ContextStartupStatus::Missing
        },
{
    if is_current {
        return ContextStartupStatus::UpToDate;
    }
    if main_md_exists {
        ContextStartupStatus::Stale
    } else {
        ContextStartupStatus::Missing
    }
}

/// `s` without `/` at either end.
pub open spec fn trim_slashes(s: Seq<char>) -> Seq<char> {
    trim_start_char(trim_end_char(s, '/'), '/')
}

/// A file name safe to join under the context directory: backslashes and
/// `..` removed, a leading `/` dropped, `//` collapsed, outer `/` trimmed;
/// "unnamed.md" when nothing is left.
pub open spec fn spec_sanitize_path(name: Seq<char>) -> Seq<char> {
    let n1 = replace(replace(name, seq!['\\'], seq![]), ".."@, seq![]);
    let n2 = if n1.len() > 0 && n1[0] == '/' { n1.drop_first() } else { n1 };
    let n3 = replace(n2, "//"@, "/"@);
    let n4 = trim_slashes(n3);
    if n4.len() == 0 {
        "unnamed.md"@
    } else {
        n4
    }
}

proof fn lemma_trim_end_char_shape(s: Seq<char>, c: char)
    ensures
        trim_end_char(s, c).len() > 0 ==> trim_end_char(s, c).last() != c,
        trim_end_char(s, c) == s.take(trim_end_char(s, c).len() as int),
        trim_end_char(s, c).len() <= s.len(),
    decreases s.len(),
{
    if s.len() > 0 && s.last() == c {
        lemma_trim_end_char_shape(s.drop_last(), c);
        let t = trim_end_char(s.drop_last(), c);
        assert(s.drop_last().take(t.len() as int) =~= s.take(t.len() as int));
    } else {
        assert(s.take(s.len() as int) =~= s);
    }
}

proof fn lemma_trim_start_char_shape(s: Seq<char>, c: char)
    ensures
        trim_start_char(s, c).len() > 0 ==> trim_start_char(s, c)[0] != c,
        trim_start_char(s, c) == s.skip(s.len() - trim_start_char(s, c).len()),
        trim_start_char(s, c).len() <= s.len(),
    decreases s.len(),
{
    if s.len() > 0 && s[0] == c {
        lemma_trim_start_char_shape(s.drop_first(), c);
        let t = trim_start_char(s.drop_first(), c);
        assert(s.drop_first().skip(s.drop_first().len() - t.len()) =~= s.skip(s.len() - t.len()));
    } else {
        assert(s.skip(0) =~= s);
    }
}

/// What `sanitize_path` gives is never empty and neither starts nor ends
/// with `/`, so it stays below the directory it is joined to.
pub proof fn lemma_sanitized_shape(name: Seq<char>)
    ensures
        spec_sanitize_path(name).len() > 0,
        spec_sanitize_path(name)[0] != '/',
        spec_sanitize_path(name).last() != '/',
{
    reveal_strlit("unnamed.md");
    let n1 = replace(replace(name, seq!['\\'], seq![]), ".."@, seq![]);
    let n2 = if n1.len() > 0 && n1[0] == '/' { n1.drop_first() } else { n1 };
    let n3 = replace(n2, "//"@, "/"@);
    let e = trim_end_char(n3, '/');
    lemma_trim_end_char_shape(n3, '/');
    lemma_trim_start_char_shape(e, '/');
    let n4 = trim_start_char(e, '/');
    if n4.len() > 0 {
        assert(n4.last() == e.last());
    }
}

/// Whether no two dots stand next to each other.
pub open spec fn no_double_dot(s: Seq<char>) -> bool {
    forall|i: int| 0 <= i < s.len() - 1 ==> !(#[trigger] s[i] == '.' && s[i + 1] == '.')
}

proof fn lemma_replace_keeps_out(s: Seq<char>, pat: Seq<char>, rep: Seq<char>, c: char)
    requires
        !s.contains(c),
        !rep.contains(c),
    ensures
        !replace(s, pat, rep).contains(c),
    decreases s.len(),
{
    if s.len() > 0 {
        if pat.len() > 0 && starts_with(s, pat) {
            assert(!s.skip(pat.len() as int).contains(c)) by {
                if s.skip(pat.len() as int).contains(c) {
                    let j = choose|j: int| 0 <= j < s.skip(pat.len() as int).len() && s.skip(pat.len() as int)[j] == c;
                    assert(s[j + pat.len()] == c);
                }
            }
            lemma_replace_keeps_out(s.skip(pat.len() as int), pat, rep, c);
            let r = replace(s.skip(pat.len() as int), pat, rep);
            if (rep + r).contains(c) {
                let j = choose|j: int| 0 <= j < (rep + r).len() && (rep + r)[j] == c;
                if j < rep.len() { assert(rep[j] == c); } else { assert(r[j - rep.len()] == c); }
            }
        } else {
            assert(!s.drop_first().contains(c)) by {
                if s.drop_first().contains(c) {
                    let j = choose|j: int| 0 <= j < s.drop_first().len() && s.drop_first()[j] == c;
                    assert(s[j + 1] == c);
                }
            }
            lemma_replace_keeps_out(s.drop_first(), pat, rep, c);
            let r = replace(s.drop_first(), pat, rep);
            assert(s[0] != c) by { if s[0] == c { assert(s.contains(c)); } }
            if (seq![s[0]] + r).contains(c) {
                let j = choose|j: int| 0 <= j < (seq![s[0]] + r).len() && (seq![s[0]] + r)[j] == c;
                if j > 0 { assert(r[j - 1] == c); }
            }
        }
    }
}

proof fn lemma_dotdot_removed(s: Seq<char>)
    ensures
        no_double_dot(replace(s, ".."@, seq![])),
        replace(s, ".."@, seq![]).len() > 0 && replace(s, ".."@, seq![])[0] == '.' ==> s.len() > 0 && s[0] == '.',
    decreases s.len(),
{
    reveal_strlit("..");
    let r = replace(s, ".."@, seq![]);
    if s.len() > 0 {
        if starts_with(s, ".."@) {
            lemma_dotdot_removed(s.skip(2));
            assert(r =~= replace(s.skip(2), ".."@, seq![]));
            assert(s.subrange(0, 2)[0] == s[0]);
        } else {
            let t = s.drop_first();
            lemma_dotdot_removed(t);
            let rt = replace(t, ".."@, seq![]);
            assert(r == seq![s[0]] + rt);
            if s[0] == '.' && rt.len() > 0 && rt[0] == '.' {
                assert(t[0] == '.');
                assert(s.subrange(0, 2) =~= ".."@);
            }
            assert forall|i: int| 0 <= i < r.len() - 1 implies !(#[trigger] r[i] == '.' && r[i + 1] == '.') by {
                if i > 0 {
                    assert(r[i] == rt[i - 1] && r[i + 1] == rt[i]);
                }
            }
        }
    }
}

proof fn lemma_slashes_collapsed(s: Seq<char>)
    requires
        no_double_dot(s),
    ensures
        no_double_dot(replace(s, "//"@, "/"@)),
        replace(s, "//"@, "/"@).len() > 0 ==> s.len() > 0 && replace(s, "//"@, "/"@)[0] == s[0],
    decreases s.len(),
{
    reveal_strlit("//");
    reveal_strlit("/");
    let r = replace(s, "//"@, "/"@);
    if s.len() > 0 {
        if starts_with(s, "//"@) {
            let t = s.skip(2);
            assert(no_double_dot(t)) by {
                assert forall|i: int| 0 <= i < t.len() - 1 implies !(#[trigger] t[i] == '.' && t[i + 1] == '.') by {
                    assert(t[i] == s[i + 2] && t[i + 1] == s[i + 3]);
                }
            }
            lemma_slashes_collapsed(t);
            let rt = replace(t, "//"@, "/"@);
            assert(r == "/"@ + rt);
            assert(s.subrange(0, 2)[0] == s[0]);
            assert forall|i: int| 0 <= i < r.len() - 1 implies !(#[trigger] r[i] == '.' && r[i + 1] == '.') by {
                if i > 0 {
                    assert(r[i] == rt[i - 1] && r[i + 1] == rt[i]);
                } else {
                    assert(r[0] == '/');
                }
            }
        } else {
            let t = s.drop_first();
            assert(no_double_dot(t)) by {
                assert forall|i: int| 0 <= i < t.len() - 1 implies !(#[trigger] t[i] == '.' && t[i + 1] == '.') by {
                    assert(t[i] == s[i + 1] && t[i + 1] == s[i + 2]);
                }
            }
            lemma_slashes_collapsed(t);
            let rt = replace(t, "//"@, "/"@);
            assert(r == seq![s[0]] + rt);
            assert forall|i: int| 0 <= i < r.len() - 1 implies !(#[trigger] r[i] == '.' && r[i + 1] == '.') by {
                if i > 0 {
                    assert(r[i] == rt[i - 1] && r[i + 1] == rt[i]);
                } else {
                    assert(r[1] == rt[0] && rt[0] == t[0] && t[0] == s[1]);
                    assert(!(s[0] == '.' && s[1] == '.'));
                }
            }
        }
    }
}

/// What `sanitize_path` gives holds no backslash and no `..`.
pub proof fn lemma_sanitized_clean(name: Seq<char>)
    ensures
        !spec_sanitize_path(name).contains('\\'),
        !contains(spec_sanitize_path(name), ".."@),
{
    reveal_strlit("unnamed.md");
    reveal_strlit("..");
    reveal_strlit("//");
    reveal_strlit("/");
    let n0 = replace(name, seq!['\\'], seq![]);
    let n1 = replace(n0, ".."@, seq![]);
    let n2 = if n1.len() > 0 && n1[0] == '/' { n1.drop_first() } else { n1 };
    let n3 = replace(n2, "//"@, "/"@);
    let e = trim_end_char(n3, '/');
    let n4 = trim_start_char(e, '/');
    // No backslash survives any step.
    lemma_bs_removed(name);
    lemma_replace_keeps_out(n0, ".."@, seq![], '\\');
    assert(!n2.contains('\\')) by {
        if n2.contains('\\') && n1.len() > 0 && n1[0] == '/' {
            let j = choose|j: int| 0 <= j < n2.len() && n2[j] == '\\';
            assert(n1[j + 1] == '\\');
        }
    }
    assert(!"/"@.contains('\\')) by {
        if "/"@.contains('\\') { let j = choose|j: int| 0 <= j < "/"@.len() && "/"@[j] == '\\'; }
    }
    lemma_replace_keeps_out(n2, "//"@, "/"@, '\\');
    lemma_trim_end_char_shape(n3, '/');
    lemma_trim_start_char_shape(e, '/');
    // No double dot survives either.
    lemma_dotdot_removed(n0);
    assert(no_double_dot(n2)) by {
        if n1.len() > 0 && n1[0] == '/' {
            assert forall|i: int| 0 <= i < n2.len() - 1 implies !(#[trigger] n2[i] == '.' && n2[i + 1] == '.') by {
                assert(n2[i] == n1[i + 1] && n2[i + 1] == n1[i + 2]);
            }
        }
    }
    lemma_slashes_collapsed(n2);
    let r = spec_sanitize_path(name);
    if n4.len() == 0 {
        assert(r == "unnamed.md"@);
    } else {
        assert(r == n4);
        assert(!r.contains('\\')) by {
            if r.contains('\\') {
                let j = choose|j: int| 0 <= j < r.len() && r[j] == '\\';
                let off = e.len() - n4.len();
                assert(n4[j] == e[j + off]);
                assert(e[j + off] == n3[j + off]);
            }
        }
        assert(no_double_dot(r)) by {
            let off = e.len() - n4.len();
            assert forall|i: int| 0 <= i < r.len() - 1 implies !(#[trigger] r[i] == '.' && r[i + 1] == '.') by {
                assert(r[i] == e[i + off] && r[i + 1] == e[i + 1 + off]);
                assert(e[i + off] == n3[i + off] && e[i + 1 + off] == n3[i + 1 + off]);
            }
        }
    }
    if contains(r, ".."@) {
        let i = choose|i: int| occurs_at(r, ".."@, i);
        assert(r.subrange(i, i + 2)[0] == r[i] && r.subrange(i, i + 2)[1] == r[i + 1]);
        if n4.len() == 0 {
            assert(r[i] == '.' && r[i + 1] == '.');
        }
    }
}

proof fn lemma_bs_removed(s: Seq<char>)
    ensures
        !replace(s, seq!['\\'], seq![]).contains('\\'),
    decreases s.len(),
{
    let r = replace(s, seq!['\\'], seq![]);
    if s.len() > 0 {
        if starts_with(s, seq!['\\']) {
            lemma_bs_removed(s.skip(1));
            assert(r =~= replace(s.skip(1), seq!['\\'], seq![]));
        } else {
            lemma_bs_removed(s.drop_first());
            let rt = replace(s.drop_first(), seq!['\\'], seq![]);
            assert(s.subrange(0, 1) =~= seq![s[0]]);
            assert(s[0] != '\\');
            if r.contains('\\') {
                let j = choose|j: int| 0 <= j < r.len() && r[j] == '\\';
                if j > 0 { assert(rt[j - 1] == '\\'); }
            }
        }
    }
}

/// Sanitizes a context file name; see [`spec_sanitize_path`].
pub fn sanitize_path(name: &str) -> (res: String)
    ensures
        res@ == spec_sanitize_path(name@),
{
    proof {
        reveal_strlit("..");
        reveal_strlit("//");
        reveal_strlit("/");
        reveal_strlit("");
    }
    let v = chars_of(name);
    let mut backslash: Vec<char> = Vec::new();
    backslash.push('\\');
    assert(backslash@ =~= seq!['\\']);
    let s1 = replace_exec(&v, &backslash, "");
    assert(""@ =~= Seq::<char>::empty());
    let v1 = chars_of(s1.as_str());
    let dots = chars_of("..");
    let s2 = replace_exec(&v1, &dots, "");
    let v2 = chars_of(s2.as_str());
    let v3 = if v2.len() > 0 && v2[0] == '/' {
        let t = sub_vec(&v2, 1, v2.len());
        assert(t@ =~= v2@.drop_first());
        t
    } else {
        v2
    };
    let double = chars_of("//");
    let s4 = replace_exec(&v3, &double, "/");
    let v4 = chars_of(s4.as_str());
    let mut hi = v4.len();
    assert(v4@.subrange(0, hi as int) =~= v4@);
    while hi > 0 && v4[hi - 1] == '/'
        invariant
            hi <= v4@.len(),
            trim_end_char(v4@, '/') == trim_end_char(v4@.subrange(0, hi as int), '/'),
        decreases hi,
    {
        assert(v4@.subrange(0, hi as int).drop_last() =~= v4@.subrange(0, hi - 1));
        hi = hi - 1;
    }
    assert(trim_end_char(v4@.subrange(0, hi as int), '/') == v4@.subrange(0, hi as int));
    let mut lo: usize = 0;
    assert(v4@.subrange(0, hi as int).subrange(0, hi as int) =~= v4@.subrange(0, hi as int));
    while lo < hi && v4[lo] == '/'
        invariant
            lo <= hi <= v4@.len(),
            trim_start_char(v4@.subrange(0, hi as int), '/') == trim_start_char(v4@.subrange(lo as int, hi as int), '/'),
        decreases hi - lo,
    {
        assert(v4@.subrange(lo as int, hi as int).drop_first() =~= v4@.subrange(lo + 1, hi as int));
        lo = lo + 1;
    }
    assert(trim_start_char(v4@.subrange(lo as int, hi as int), '/') == v4@.subrange(lo as int, hi as int));
    if lo == hi {
        String::from_str("unnamed.md")
    } else {
        string_of_range(&v4, lo, hi)
    }
}

/// Parser state: files so far, the file being read and its content.
pub struct ParseState {
    pub files: Seq<(Seq<char>, Seq<char>)>,
    pub current: Option<Seq<char>>,
    pub content: Seq<char>,
}

/// The name in a `<!-- FILE: name -->` marker line, if the line is one.
pub open spec fn marker_name(line: Seq<char>) -> Option<Seq<char>> {
    let t = trim(line);
    let rest = t.skip(10);
    if starts_with(t, "<!-- FILE:"@) && ends_with(rest, "-->"@) {
        Some(rest.take(rest.len() - 3))
    } else {
        None
    }
}

/// Files so far plus the current file, if its trimmed content is not empty.
pub open spec fn flush(st: ParseState) -> Seq<(Seq<char>, Seq<char>)> {
    match st.current {
        Some(f) => if trim(st.content).len() > 0 {
            st.files.push((f, trim(st.content)))
        } else {
            st.files
        },
        None => st.files,
    }
}

/// State after reading `ls`.
pub open spec fn parse_lines(ls: Seq<Seq<char>>) -> ParseState
    decreases ls.len(),
{
    if ls.len() == 0 {
        ParseState { files: seq![], current: None, content: seq![] }
    } else {
        let st = parse_lines(ls.drop_last());
        let line = ls.last();
        match marker_name(line) {
            Some(name) => ParseState { files: flush(st), current: Some(spec_sanitize_path(trim(name))), content: seq![] },
            None => if st.current is Some {
                ParseState { content: st.content + line + "\n"@, ..st }
            } else {
                st
            },
        }
    }
}

/// The files in an agent's output: each starts at a `<!-- FILE: name -->`
/// line and runs to the next one; contents are trimmed and empty files dropped.
pub open spec fn spec_parse_output(raw: Seq<char>) -> Seq<(Seq<char>, Seq<char>)> {
    flush(parse_lines(lines(raw)))
}

/// A safe context file name: not empty, no leading or trailing `/`, no
/// backslash and no `..`.
pub open spec fn clean_name(f: Seq<char>) -> bool {
    &&& f.len() > 0
    &&& f[0] != '/'
    &&& f.last() != '/'
    &&& !f.contains('\\')
    &&& !contains(f, ".."@)
}

/// A parsed file: a safe name and a non-empty, trimmed content.
pub open spec fn good_file(e: (Seq<char>, Seq<char>)) -> bool {
    clean_name(e.0) && e.1.len() > 0 && trim(e.1) == e.1
}

proof fn lemma_parse_lines_good(ls: Seq<Seq<char>>)
    ensures
        forall|k: int| 0 <= k < parse_lines(ls).files.len() ==> good_file(#[trigger] parse_lines(ls).files[k]),
        parse_lines(ls).current matches Some(f) ==> clean_name(f),
        (forall|j: int| 0 <= j < ls.len() ==> #[trigger] marker_name(ls[j]) is None) ==> parse_lines(ls).files.len() == 0
            && parse_lines(ls).current is None,
    decreases ls.len(),
{
    if ls.len() > 0 {
        let st = parse_lines(ls.drop_last());
        lemma_parse_lines_good(ls.drop_last());
        if (forall|j: int| 0 <= j < ls.len() ==> #[trigger] marker_name(ls[j]) is None) {
            assert forall|j: int| 0 <= j < ls.drop_last().len() implies #[trigger] marker_name(ls.drop_last()[j]) is None by {
                assert(ls.drop_last()[j] == ls[j]);
            }
            assert(marker_name(ls[ls.len() - 1]) is None);
        }
        match marker_name(ls.last()) {
            Some(name) => {
                let n = spec_sanitize_path(trim(name));
                lemma_sanitized_shape(trim(name));
                lemma_sanitized_clean(trim(name));
                lemma_flush_good(st);
            },
            None => {},
        }
    }
}

proof fn lemma_flush_good(st: ParseState)
    requires
        forall|k: int| 0 <= k < st.files.len() ==> good_file(#[trigger] st.files[k]),
        st.current matches Some(f) ==> clean_name(f),
    ensures
        forall|k: int| 0 <= k < flush(st).len() ==> good_file(#[trigger] flush(st)[k]),
{
    match st.current {
        Some(f) => {
            if trim(st.content).len() > 0 {
                lemma_trim_idempotent(st.content);
                let r = flush(st);
                assert forall|k: int| 0 <= k < r.len() implies good_file(#[trigger] r[k]) by {
                    if k < st.files.len() {
                        assert(r[k] == st.files[k]);
                    }
                }
            }
        },
        None => {},
    }
}

/// Every file parsed from an agent's output has a safe name (see
/// [`clean_name`]) and a non-empty, trimmed content; output without any
/// `<!-- FILE: name -->` line gives no files.
pub proof fn lemma_parsed_files_clean(raw: Seq<char>)
    ensures
        forall|k: int| 0 <= k < spec_parse_output(raw).len() ==> good_file(#[trigger] spec_parse_output(raw)[k]),
        (forall|j: int| 0 <= j < lines(raw).len() ==> #[trigger] marker_name(lines(raw)[j]) is None)
            ==> spec_parse_output(raw).len() == 0,
{
    lemma_parse_lines_good(lines(raw));
    lemma_flush_good(parse_lines(lines(raw)));
}

/// Views the files of an output.
pub open spec fn files_view(files: Seq<ContextFile>) -> Seq<(Seq<char>, Seq<char>)> {
    files.map_values(|f: ContextFile| (f.filename@, f.content@))
}

fn marker_name_exec(line: &str) -> (res: Option<String>)
    ensures
        opt_chars(res) == marker_name(line@),
{
    proof {
        reveal_strlit("<!-- FILE:");
        reveal_strlit("-->");
    }
    let v = chars_of(line);
    let (a, b) = trim_range(&v, 0, v.len());
    assert(v@.subrange(0, v@.len() as int) =~= v@);
    let ghost t = trim(line@);
    let open_tag = chars_of("<!-- FILE:");
    let close_tag = chars_of("-->");
    if b - a >= 13 && occurs_at_exec(&v, &open_tag, a) && occurs_at_exec(&v, &close_tag, b - 3) {
        assert(t.subrange(0, 10) =~= v@.subrange(a as int, a + 10));
        let ghost rest = t.skip(10);
        assert(rest.subrange(rest.len() - 3, rest.len() as int) =~= v@.subrange(b - 3, b as int));
        assert(rest.take(rest.len() - 3) =~= v@.subrange(a + 10, b - 3));
        return Some(string_of_range(&v, a + 10, b - 3));
    }
    assert(marker_name(line@) is None) by {
        if starts_with(t, "<!-- FILE:"@) && ends_with(t.skip(10), "-->"@) {
            assert(t.subrange(0, 10) =~= v@.subrange(a as int, a + 10));
            let rest = t.skip(10);
            assert(rest.subrange(rest.len() - 3, rest.len() as int) =~= v@.subrange(b - 3, b as int));
        }
    }
    None
}

fn flush_exec(files: &mut Vec<ContextFile>, current: Option<String>, content: &String)
    ensures
        files_view(final(files)@) == flush(ParseState { files: files_view(old(files)@), current: opt_chars(current), content: content@ }),
{
    match current {
        Some(filename) => {
            let trimmed = crate::text::str_trim(content.as_str());
            if !trimmed.as_str().is_empty() {
                let ghost before = files@;
                files.push(ContextFile { filename, content: trimmed });
                assert(files_view(files@) =~= files_view(before).push((filename@, trim(content@))));
            }
        },
        None => {},
    }
}

/// Parses the agent's output into context files; see [`spec_parse_output`].
pub fn parse_context_gen_output(raw: &str) -> (res: ContextGenOutput)
    ensures
        files_view(res.files@) == spec_parse_output(raw@),
{
    let v = chars_of(raw);
    let ls = split_lines(&v);
    let mut files: Vec<ContextFile> = Vec::new();
    let mut current: Option<String> = None;
    let mut content = String::new();
    let mut i: usize = 0;
    assert(ls.deep_view().take(0) =~= Seq::<Seq<char>>::empty());
    assert(files_view(files@) =~= Seq::<(Seq<char>, Seq<char>)>::empty());
    while i < ls.len()
        invariant
            i <= ls@.len(),
            ls.deep_view() == lines(raw@),
            ({
                let st = parse_lines(ls.deep_view().take(i as int));
                &&& st.files == files_view(files@)
                &&& st.current == opt_chars(current)
                &&& st.content == content@
            }),
        decreases ls@.len() - i,
    {
        let ghost dv = ls.deep_view();
        assert(dv.take(i + 1).drop_last() =~= dv.take(i as int));
        assert(dv.take(i + 1).last() == ls@[i as int]@);
        let line = ls[i].as_str();
        match marker_name_exec(line) {
            Some(name) => {
                let cur = current;
                current = None;
                flush_exec(&mut files, cur, &content);
                let trimmed = crate::text::str_trim(name.as_str());
                current = Some(sanitize_path(trimmed.as_str()));
                content = String::new();
            },
            None => {
                if current.is_some() {
                    content.append(line);
                    content.append("\n");
                }
            },
        }
        i = i + 1;
    }
    assert(ls.deep_view().take(i as int) =~= ls.deep_view());
    flush_exec(&mut files, current, &content);
    ContextGenOutput { files }
}


/// `s` without `"` at either end.
pub open spec fn trim_quotes(s: Seq<char>) -> Seq<char> {
    trim_start_char(trim_end_char(s, '"'), '"')
}

/// For a trimmed line `head(key=value)` or `head(value)`, the value with
/// quotes trimmed.
pub open spec fn tool_value(t: Seq<char>, head: Seq<char>, key: Seq<char>) -> Option<Seq<char>> {
    let rest = t.skip(head.len() as int);
    if starts_with(t, head) && ends_with(rest, ")"@) {
        let inner = rest.drop_last();
        let v = if starts_with(inner, key) { inner.skip(key.len() as int) } else { inner };
        Some(trim_quotes(v))
    } else {
        None
    }
}

/// The shown part of a command: its first 60 bytes when it is longer.
pub open spec fn short_command(cmd: Seq<char>) -> Seq<char> {
    if utf8_len(cmd) > 60 {
        byte_prefix(cmd, 60)
    } else {
        cmd
    }
}

/// Whether the line is a `Bash(...)` call whose command is cut inside a
/// character (the 60-byte cut would not fall on a character boundary).
pub open spec fn progress_cut_inside_char(raw: Seq<char>) -> bool {
    let t = trim(raw);
    &&& t.len() > 0
    &&& tool_value(t, "Read("@, "file="@) is None
    &&& tool_value(t, "Glob("@, "pattern="@) is None
    &&& tool_value(t, "Grep("@, "pattern="@) is None
    &&& tool_value(t, "Write("@, "file="@) is None
    &&& tool_value(t, "Bash("@, "command="@) is Some
    &&& utf8_len(tool_value(t, "Bash("@, "command="@)->0) > 60
    &&& utf8_len(byte_prefix(tool_value(t, "Bash("@, "command="@)->0, 60)) != 60
}

/// The status shown for a line of agent output; see the cases below.
pub open spec fn spec_progress(raw: Seq<char>) -> Option<Seq<char>> {
    let t = trim(raw);
    if t.len() == 0 {
        None
    } else if tool_value(t, "Read("@, "file="@) is Some {
        Some("reading "@ + tool_value(t, "Read("@, "file="@)->0)
    } else if tool_value(t, "Glob("@, "pattern="@) is Some {
        Some("searching "@ + tool_value(t, "Glob("@, "pattern="@)->0)
    } else if tool_value(t, "Grep("@, "pattern="@) is Some {
        Some("searching for "@ + tool_value(t, "Grep("@, "pattern="@)->0)
    } else if tool_value(t, "Write("@, "file="@) is Some {
        Some("writing "@ + tool_value(t, "Write("@, "file="@)->0)
    } else if tool_value(t, "Bash("@, "command="@) is Some {
        Some("running "@ + short_command(tool_value(t, "Bash("@, "command="@)->0))
    } else if contains(t, "\"tool\":"@) || contains(t, "tool_use"@) {
        if contains(t, "Read"@) || contains(t, "read"@) {
            Some("reading file..."@)
        } else if contains(t, "Glob"@) || contains(t, "glob"@) {
            Some("searching files..."@)
        } else if contains(t, "Grep"@) || contains(t, "grep"@) {
            Some("searching code..."@)
        } else if contains(t, "Write"@) || contains(t, "write"@) {
            Some("writing output..."@)
        } else {
            Some("agent working..."@)
        }
    } else if marker_name(raw) is Some {
        Some("writing "@ + trim(marker_name(raw)->0))
    } else if utf8_len(t) < 120 && !starts_with(t, "{"@) && !starts_with(t, "["@) {
        Some(t)
    } else {
        Some("agent working..."@)
    }
}

/// Bounds of the tool value within `v[a..b]` (the trimmed line).
fn tool_value_exec(v: &Vec<char>, a: usize, b: usize, head: &str, key: &str) -> (res: Option<(usize, usize)>)
    requires
        a <= b <= v@.len(),
    ensures
        match res {
            Some((x, y)) => x <= y <= v@.len() && tool_value(v@.subrange(a as int, b as int), head@, key@) == Some(v@.subrange(x as int, y as int)),
            None => tool_value(v@.subrange(a as int, b as int), head@, key@) is None,
        },
{
    let ghost t = v@.subrange(a as int, b as int);
    let hv = chars_of(head);
    let kv = chars_of(key);
    let hl = hv.len();
    if hl > b - a || !occurs_at_exec(v, &hv, a) || b - a - hl < 1 || v[b - 1] != ')' {
        assert(tool_value(t, head@, key@) is None) by {
            if starts_with(t, head@) && ends_with(t.skip(hl as int), ")"@) {
                reveal_strlit(")");
                assert(t.subrange(0, hl as int) =~= v@.subrange(a as int, a + hl));
                let rest = t.skip(hl as int);
                assert(rest[rest.len() - 1] == ")"@[0]);
            }
        }
        return None;
    }
    proof {
        reveal_strlit(")");
    }
    assert(t.subrange(0, hl as int) =~= v@.subrange(a as int, a + hl));
    let ghost rest = t.skip(hl as int);
    assert(rest.subrange(rest.len() - 1, rest.len() as int) =~= ")"@);
    let ghost inner = rest.drop_last();
    assert(inner =~= v@.subrange(a + hl, b - 1));
    let mut x = a + hl;
    let y0 = b - 1;
    if y0 - x >= kv.len() && occurs_at_exec(v, &kv, x) {
        assert(inner.subrange(0, kv@.len() as int) =~= v@.subrange(x as int, x + kv@.len()));
        assert(inner.skip(kv@.len() as int) =~= v@.subrange(x + kv@.len(), y0 as int));
        x = x + kv.len();
    } else {
        assert(!starts_with(inner, key@)) by {
            if starts_with(inner, key@) {
                assert(inner.subrange(0, kv@.len() as int) =~= v@.subrange(x as int, x + kv@.len()));
            }
        }
    }
    let ghost val = v@.subrange(x as int, y0 as int);
    let mut y = y0;
    assert(v@.subrange(x as int, y as int) == val);
    while y > x && v[y - 1] == '"'
        invariant
            x <= y <= y0 <= v@.len(),
            trim_end_char(val, '"') == trim_end_char(v@.subrange(x as int, y as int), '"'),
            val == v@.subrange(x as int, y0 as int),
        decreases y - x,
    {
        assert(v@.subrange(x as int, y as int).drop_last() =~= v@.subrange(x as int, y - 1));
        y = y - 1;
    }
    assert(trim_end_char(v@.subrange(x as int, y as int), '"') == v@.subrange(x as int, y as int));
    let ghost te = v@.subrange(x as int, y as int);
    while x < y && v[x] == '"'
        invariant
            x <= y <= v@.len(),
            trim_start_char(te, '"') == trim_start_char(v@.subrange(x as int, y as int), '"'),
        decreases y - x,
    {
        assert(v@.subrange(x as int, y as int).drop_first() =~= v@.subrange(x + 1, y as int));
        x = x + 1;
    }
    assert(trim_start_char(v@.subrange(x as int, y as int), '"') == v@.subrange(x as int, y as int));
    Some((x, y))
}

fn prefixed(prefix: &str, v: &Vec<char>, x: usize, y: usize) -> (res: Option<String>)
    requires
        x <= y <= v@.len(),
    ensures
        res is Some,
        res->0@ == prefix@ + v@.subrange(x as int, y as int),
{
    let mut out = String::from_str(prefix);
    crate::text::push_range(&mut out, v, x, y);
    Some(out)
}

/// A short status for a line of agent output, or `None` for blank lines:
/// tool calls such as `Read(file=...)` become "reading ...", JSON-ish tool
/// events a generic activity, file markers "writing ...", short plain lines
/// are shown as they are, anything else "agent working...".
#[verifier::rlimit(80)]
#[verifier::spinoff_prover]
pub fn parse_progress_line(raw: &str) -> (res: Option<String>)
    requires
        !progress_cut_inside_char(raw@),
    ensures
        opt_chars(res) == spec_progress(raw@),
{
    let v = chars_of(raw);
    let (a, b) = trim_range(&v, 0, v.len());
    assert(v@.subrange(0, v@.len() as int) =~= v@);
    let ghost t = trim(raw@);
    assert(v@.subrange(a as int, b as int) == t);
    if a == b {
        return None;
    }
    match tool_value_exec(&v, a, b, "Read(", "file=") {
        Some((x, y)) => { return prefixed("reading ", &v, x, y); },
        None => {},
    }
    match tool_value_exec(&v, a, b, "Glob(", "pattern=") {
        Some((x, y)) => { return prefixed("searching ", &v, x, y); },
        None => {},
    }
    match tool_value_exec(&v, a, b, "Grep(", "pattern=") {
        Some((x, y)) => { return prefixed("searching for ", &v, x, y); },
        None => {},
    }
    match tool_value_exec(&v, a, b, "Write(", "file=") {
        Some((x, y)) => { return prefixed("writing ", &v, x, y); },
        None => {},
    }
    match tool_value_exec(&v, a, b, "Bash(", "command=") {
        Some((x, y)) => {
            let n = utf8_len_capped(&v, x, y, 60);
            if n > 60 {
                let k = byte_prefix_len(&v, x, y, 60);
                return prefixed("running ", &v, x, x + k);
            }
            return prefixed("running ", &v, x, y);
        },
        None => {},
    }
    let tv = sub_vec(&v, a, b);
    if contains_exec(&tv, &chars_of("\"tool\":")) || contains_exec(&tv, &chars_of("tool_use")) {
        if contains_exec(&tv, &chars_of("Read")) || contains_exec(&tv, &chars_of("read")) {
            return Some(String::from_str("reading file..."));
        }
        if contains_exec(&tv, &chars_of("Glob")) || contains_exec(&tv, &chars_of("glob")) {
            return Some(String::from_str("searching files..."));
        }
        if contains_exec(&tv, &chars_of("Grep")) || contains_exec(&tv, &chars_of("grep")) {
            return Some(String::from_str("searching code..."));
        }
        if contains_exec(&tv, &chars_of("Write")) || contains_exec(&tv, &chars_of("write")) {
            return Some(String::from_str("writing output..."));
        }
        return Some(String::from_str("agent working..."));
    }
    match marker_name_exec(raw) {
        Some(name) => {
            let mut out = String::from_str("writing ");
            out.append(crate::text::str_trim(name.as_str()).as_str());
            return Some(out);
        },
        None => {},
    }
    let n = utf8_len_capped(&v, a, b, 120);
    if n < 120 && v[a] != '{' && v[a] != '[' {
        proof {
            reveal_strlit("{");
            reveal_strlit("[");
        }
        assert(!starts_with(t, "{"@) && !starts_with(t, "["@)) by {
            reveal_strlit("{");
            reveal_strlit("[");
            assert(t[0] == v@[a as int]);
            if starts_with(t, "{"@) {
                assert(t.subrange(0, 1)[0] == t[0]);
                assert("{"@[0] == '{');
            }
            if starts_with(t, "["@) {
                assert(t.subrange(0, 1)[0] == t[0]);
                assert("["@[0] == '[');
            }
        }
        return Some(string_of_range(&v, a, b));
    }
    assert(!(utf8_len(t) < 120 && !starts_with(t, "{"@) && !starts_with(t, "["@))) by {
        reveal_strlit("{");
        reveal_strlit("[");
        if n >= 120 {
        } else {
            assert(t[0] == v@[a as int]);
            if v@[a as int] == '{' {
                assert(t.subrange(0, 1) =~= "{"@);
            } else {
                assert(t.subrange(0, 1) =~= "["@);
            }
        }
    }
    Some(String::from_str("agent working..."))
}


/// A top-level entry of a repository: its name, whether it is a directory,
/// and the names in it (empty where the directory could not be read).
#[derive(Debug, Clone)]
pub struct RepoEntry {
    pub name: String,
    pub is_dir: bool,
    pub children: Vec<String>,
}

/// A crate directory under `crates/`, with its `src/lib.rs` where that
/// could be read.
#[derive(Debug, Clone)]
pub struct CrateSource {
    pub name: String,
    pub lib_rs: Option<String>,
}

/// A name that starts with a dot.
pub open spec fn hidden(name: Seq<char>) -> bool {
    starts_with(name, "."@)
}

/// The listing lines of the visible children of the directory `dir`.
pub open spec fn child_lines(dir: Seq<char>, children: Seq<Seq<char>>) -> Seq<Seq<char>>
    decreases children.len(),
{
    if children.len() == 0 {
        seq![]
    } else {
        let rest = child_lines(dir, children.drop_last());
        if hidden(children.last()) {
            rest
        } else {
            rest.push("  "@ + dir + "/"@ + children.last())
        }
    }
}

/// The listing lines of one top-level entry: none for a hidden one other
/// than `.othala`; its name; and for a directory its visible children.
pub open spec fn entry_lines(e: RepoEntry) -> Seq<Seq<char>> {
    if hidden(e.name@) && e.name@ != ".othala"@ {
        seq![]
    } else if e.is_dir {
        seq![e.name@] + child_lines(e.name@, e.children.deep_view())
    } else {
        seq![e.name@]
    }
}

/// The listing lines of all top-level entries, before ordering.
pub open spec fn tree_lines(es: Seq<RepoEntry>) -> Seq<Seq<char>>
    decreases es.len(),
{
    if es.len() == 0 {
        seq![]
    } else {
        tree_lines(es.drop_last()) + entry_lines(es.last())
    }
}

/// Each line followed by a line break.
pub open spec fn line_block(ls: Seq<Seq<char>>) -> Seq<char>
    decreases ls.len(),
{
    if ls.len() == 0 {
        seq![]
    } else {
        line_block(ls.drop_last()) + ls.last() + "\n"@
    }
}

/// The names of the crates, in the order given.
pub open spec fn crate_names(cs: Seq<CrateSource>) -> Seq<Seq<char>>
    decreases cs.len(),
{
    if cs.len() == 0 {
        seq![]
    } else {
        crate_names(cs.drop_last()).push(cs.last().name@)
    }
}

/// The `lib.rs` of the first crate named `name` from index `i` on, where
/// it could be read.
pub open spec fn lib_of(cs: Seq<CrateSource>, name: Seq<char>, i: int) -> Option<Seq<char>>
    decreases cs.len() - i,
{
    if i < 0 || i >= cs.len() {
        None
    } else if cs[i].name@ == name {
        match cs[i].lib_rs {
            Some(c) => Some(c@),
            None => None,
        }
    } else {
        lib_of(cs, name, i + 1)
    }
}

/// The first 80 lines of a source, joined by line breaks.
pub open spec fn lib_head(content: Seq<char>) -> Seq<char> {
    let ls = lines(content);
    join(ls.take(if ls.len() < 80 { ls.len() as int } else { 80 }), "\n"@)
}

/// The snapshot section of one crate's `lib.rs`.
pub open spec fn crate_section(name: Seq<char>, content: Seq<char>) -> Seq<char> {
    "## crates/"@ + name + "/src/lib.rs\n```rust\n"@ + lib_head(content) + "\n```\n\n"@
}

/// The sections of the crates named in `names` whose `lib.rs` was read.
pub open spec fn crate_sections(names: Seq<Seq<char>>, cs: Seq<CrateSource>) -> Seq<char>
    decreases names.len(),
{
    if names.len() == 0 {
        seq![]
    } else {
        crate_sections(names.drop_last(), cs) + match lib_of(cs, names.last(), 0) {
            Some(c) => crate_section(names.last(), c),
            None => seq![],
        }
    }
}

/// The repository snapshot handed to the context generator: the root
/// `Cargo.toml` and `README.md` where present, the top two levels of the
/// tree in character order, and the head of each crate's `lib.rs`, crates
/// in name order. `entries` is absent where the root could not be listed,
/// `crates` where there is no `crates` directory that could be listed.
pub open spec fn spec_repo_snapshot(
    cargo_toml: Option<String>,
    readme: Option<String>,
    entries: Option<Vec<RepoEntry>>,
    crates: Option<Vec<CrateSource>>,
) -> Seq<char> {
    "# Repository Snapshot\n\n"@ + match cargo_toml {
        Some(c) => "## Cargo.toml (workspace root)\n```toml\n"@ + c@ + "\n```\n\n"@,
        None => seq![],
    } + match readme {
        Some(r) => "## README.md\n"@ + r@ + "\n\n"@,
        None => seq![],
    } + "## Directory Structure\n```\n"@ + match entries {
        Some(es) => line_block(sort_strs(tree_lines(es@))),
        None => seq![],
    } + "```\n\n"@ + match crates {
        Some(cs) => crate_sections(sort_strs(crate_names(cs@)), cs@),
        None => seq![],
    }
}

fn push_child_lines(dir: &str, children: &Vec<String>, out: &mut Vec<String>)
    ensures
        final(out).deep_view() == old(out).deep_view() + child_lines(dir@, children.deep_view()),
{
    let ghost o0 = out.deep_view();
    let ghost cs = children.deep_view();
    let mut i: usize = 0;
    assert(cs.take(0) =~= Seq::<Seq<char>>::empty());
    assert(o0 + Seq::<Seq<char>>::empty() =~= o0);
    while i < children.len()
        invariant
            i <= children@.len(),
            cs == children.deep_view(),
            out.deep_view() == o0 + child_lines(dir@, cs.take(i as int)),
        decreases children@.len() - i,
    {
        assert(cs.take(i + 1).drop_last() =~= cs.take(i as int));
        assert(cs.take(i + 1).last() == children@[i as int]@);
        let c = &children[i];
        if !str_starts_with(c.as_str(), ".") {
            let mut line = String::from_str("  ");
            line.append(dir);
            line.append("/");
            line.append(c.as_str());
            let ghost before = out.deep_view();
            out.push(line);
            assert(out.deep_view() =~= before.push(line@));
            assert((o0 + child_lines(dir@, cs.take(i as int))).push(line@) =~= o0 + child_lines(dir@, cs.take(i as int)).push(line@));
        }
        i = i + 1;
    }
    assert(cs.take(cs.len() as int) =~= cs);
}

/// The listing lines of the top-level entries, before ordering.
fn listing_lines(entries: &Vec<RepoEntry>) -> (res: Vec<String>)
    ensures
        res.deep_view() == tree_lines(entries@),
{
    let mut out: Vec<String> = Vec::new();
    let mut i: usize = 0;
    assert(out.deep_view() =~= Seq::<Seq<char>>::empty());
    while i < entries.len()
        invariant
            i <= entries@.len(),
            out.deep_view() == tree_lines(entries@.take(i as int)),
        decreases entries@.len() - i,
    {
        assert(entries@.take(i + 1).drop_last() =~= entries@.take(i as int));
        let e = &entries[i];
        let ghost before = out.deep_view();
        if !str_starts_with(e.name.as_str(), ".") || str_eq(e.name.as_str(), ".othala") {
            out.push(e.name.clone());
            assert(out.deep_view() =~= before + seq![e.name@]);
            if e.is_dir {
                push_child_lines(e.name.as_str(), &e.children, &mut out);
                assert(before + seq![e.name@] + child_lines(e.name@, e.children.deep_view())
                    =~= before + (seq![e.name@] + child_lines(e.name@, e.children.deep_view())));
            }
        } else {
            assert(before + Seq::<Seq<char>>::empty() =~= before);
        }
        i = i + 1;
    }
    assert(entries@.take(entries@.len() as int) =~= entries@);
    out
}

/// The `lib.rs` of the first crate named `name`, where it could be read.
fn find_lib<'a>(cs: &'a Vec<CrateSource>, name: &str) -> (res: Option<&'a String>)
    ensures
        match (res, lib_of(cs@, name@, 0)) {
            (Some(c), Some(v)) => c@ == v,
            (None, None) => true,
            _ => false,
        },
{
    let mut j: usize = 0;
    while j < cs.len()
        invariant
            j <= cs@.len(),
            lib_of(cs@, name@, 0) == lib_of(cs@, name@, j as int),
        decreases cs@.len() - j,
    {
        if str_eq(cs[j].name.as_str(), name) {
            return match &cs[j].lib_rs {
                Some(c) => Some(c),
                None => None,
            };
        }
        j = j + 1;
    }
    None
}

/// The first 80 lines of a source, joined by line breaks.
fn head_of_lib(content: &str) -> (res: String)
    ensures
        res@ == lib_head(content@),
{
    let v = chars_of(content);
    let all = split_lines(&v);
    let k: usize = if all.len() < 80 { all.len() } else { 80 };
    let mut head: Vec<String> = Vec::new();
    let mut i: usize = 0;
    while i < k
        invariant
            k <= all@.len(),
            i <= k,
            head.deep_view() == all.deep_view().take(i as int),
        decreases k - i,
    {
        let ghost before = head.deep_view();
        let line = all[i].clone();
        assert(all.deep_view()[i as int] == all@[i as int]@);
        assert(all.deep_view().take(i + 1) =~= all.deep_view().take(i as int).push(all.deep_view()[i as int]));
        head.push(line);
        assert(head.deep_view() =~= before.push(line@));
        i = i + 1;
    }
    join_strings(&head, "\n")
}

fn push_listing(out: &mut String, entries: &Option<Vec<RepoEntry>>)
    ensures
        final(out)@ == old(out)@ + match entries {
            Some(es) => line_block(sort_strs(tree_lines(es@))),
            None => seq![],
        },
{
    let ghost mid = out@;
    match entries {
        Some(es) => {
            let listed = sort_strings(&listing_lines(es));
            let ghost ls = listed.deep_view();
            let mut i: usize = 0;
            assert(ls.take(0) =~= Seq::<Seq<char>>::empty());
            assert(mid + line_block(Seq::<Seq<char>>::empty()) =~= mid);
            while i < listed.len()
                invariant
                    i <= listed@.len(),
                    ls == listed.deep_view(),
                    out@ == mid + line_block(ls.take(i as int)),
                decreases listed@.len() - i,
            {
                assert(ls.take(i + 1).drop_last() =~= ls.take(i as int));
                assert(ls.take(i + 1).last() == listed@[i as int]@);
                out.append(listed[i].as_str());
                out.append("\n");
                assert(out@ =~= mid + line_block(ls.take(i + 1)));
                i = i + 1;
            }
            assert(ls.take(ls.len() as int) =~= ls);
        },
        None => {
            assert(out@ =~= mid + Seq::<char>::empty());
        },
    }
}

fn push_crate_sections(out: &mut String, crates: &Option<Vec<CrateSource>>)
    ensures
        final(out)@ == old(out)@ + match crates {
            Some(cs) => crate_sections(sort_strs(crate_names(cs@)), cs@),
            None => seq![],
        },
{
    let ghost mid2 = out@;
    match crates {
        Some(cs) => {
            let mut names: Vec<String> = Vec::new();
            let mut j: usize = 0;
            while j < cs.len()
                invariant
                    j <= cs@.len(),
                    names.deep_view() == crate_names(cs@.take(j as int)),
                decreases cs@.len() - j,
            {
                assert(cs@.take(j + 1).drop_last() =~= cs@.take(j as int));
                let ghost before = names.deep_view();
                names.push(cs[j].name.clone());
                assert(names.deep_view() =~= before.push(cs@[j as int].name@));
                j = j + 1;
            }
            assert(cs@.take(cs@.len() as int) =~= cs@);
            let sorted = sort_strings(&names);
            let ghost ns = sorted.deep_view();
            let mut i: usize = 0;
            assert(ns.take(0) =~= Seq::<Seq<char>>::empty());
            assert(mid2 + Seq::<char>::empty() =~= mid2);
            while i < sorted.len()
                invariant
                    i <= sorted@.len(),
                    ns == sorted.deep_view(),
                    out@ == mid2 + crate_sections(ns.take(i as int), cs@),
                decreases sorted@.len() - i,
            {
                assert(ns.take(i + 1).drop_last() =~= ns.take(i as int));
                assert(ns.take(i + 1).last() == sorted@[i as int]@);
                let name = &sorted[i];
                match find_lib(cs, name.as_str()) {
                    Some(c) => {
                        out.append("## crates/");
                        out.append(name.as_str());
                        out.append("/src/lib.rs\n```rust\n");
                        out.append(head_of_lib(c.as_str()).as_str());
                        out.append("\n```\n\n");
                        assert(out@ =~= mid2 + crate_sections(ns.take(i + 1), cs@));
                    },
                    None => {
                        assert(out@ =~= mid2 + crate_sections(ns.take(i + 1), cs@));
                    },
                }
                i = i + 1;
            }
            assert(ns.take(ns.len() as int) =~= ns);
        },
        None => {
            assert(out@ =~= mid2 + Seq::<char>::empty());
        },
    }
}

/// The repository snapshot handed to the context generator, from what was
/// read of the repository (see [`spec_repo_snapshot`]).
pub fn render_repo_snapshot(
    cargo_toml: Option<String>,
    readme: Option<String>,
    entries: Option<Vec<RepoEntry>>,
    crates: Option<Vec<CrateSource>>,
) -> (res: String)
    ensures
        res@ == spec_repo_snapshot(cargo_toml, readme, entries, crates),
{
    let mut out = String::from_str("# Repository Snapshot\n\n");
    match &cargo_toml {
        Some(c) => {
            out.append("## Cargo.toml (workspace root)\n```toml\n");
            out.append(c.as_str());
            out.append("\n```\n\n");
        },
        None => {},
    }
    match &readme {
        Some(r) => {
            out.append("## README.md\n");
            out.append(r.as_str());
            out.append("\n\n");
        },
        None => {},
    }
    out.append("## Directory Structure\n```\n");
    push_listing(&mut out, &entries);
    out.append("```\n\n");
    push_crate_sections(&mut out, &crates);
    out
}

/// The prompt for the context generator: the generator's template (where
/// it could be read) and a separator, then the repository snapshot.
pub open spec fn spec_context_gen_prompt(template: Option<Seq<char>>, snapshot: Seq<char>) -> Seq<char> {
    match template {
        Some(t) => t + "\n\n---\n\n"@ + snapshot,
        None => snapshot,
    }
}

/// The prompt for the context generator: the generator's template (where
/// it could be read) and a separator, then the repository snapshot.
pub fn context_gen_prompt(template: Option<&str>, snapshot: &str) -> (res: String)
    ensures
        res@ == spec_context_gen_prompt(
            match template {
                Some(t) => Some(t@),
                None => None,
            },
            snapshot@,
        ),
{
    let mut out = String::new();
    match template {
        Some(t) => {
            out.append(t);
            out.append("\n\n---\n\n");
        },
        None => {},
    }
    out.append(snapshot);
    out
}


/// What a poll of the background generation found of its process.
#[derive(Debug, Clone, Copy, PartialEq, Eq, Structural)]
pub enum GenProcess {
    /// There is no process handle.
    Missing,
    Running,
    /// The process has exited, or waiting on it failed.
    Exited,
}

/// A poll of the background generation: the status it leaves, and whether
/// the process's output is to be drained now. Nothing happens unless a
/// generation is running; a running generation without a process handle
/// has failed.
pub fn poll_step(status: ContextGenStatus, process: GenProcess) -> (res: (ContextGenStatus, bool))
    ensures
        status != ContextGenStatus::Running ==> res == (status, false),
        status == ContextGenStatus::Running ==> res == match process {
            GenProcess::Missing => (ContextGenStatus::Failed, false),
            GenProcess::Running => (ContextGenStatus::Running, false),
            GenProcess::Exited => (ContextGenStatus::Running, true),
        },
{
    if status != ContextGenStatus::Running {
        return (status, false);
    }
    match process {
        GenProcess::Missing => (ContextGenStatus::Failed, false),
        GenProcess::Running => (ContextGenStatus::Running, false),
        GenProcess::Exited => (ContextGenStatus::Running, true),
    }
}

/// What to do once the generator's process has exited.
#[derive(Debug)]
pub enum GenFinish {
    /// Write the files parsed from its output.
    Write(ContextGenOutput),
    /// It wrote the context itself (MAIN.md exists): stamp the head commit.
    StampWritten,
    /// It produced no context files.
    NoFiles,
}

/// The files parsed from the generator's output lines.
pub open spec fn finished_files(output_lines: Seq<Seq<char>>) -> Seq<(Seq<char>, Seq<char>)> {
    spec_parse_output(join(output_lines, "\n"@))
}

/// Decides what to do with the output of a finished generation: write the
/// files parsed from the lines joined by line breaks, or, where there are
/// none, adopt a MAIN.md the agent wrote itself, or report that nothing was
/// produced.
pub fn finish_generation(output_lines: &Vec<String>, main_md_exists: bool) -> (res: GenFinish)
    ensures
        match res {
            GenFinish::Write(out) => finished_files(output_lines.deep_view()).len() > 0
                && files_view(out.files@) == finished_files(output_lines.deep_view()),
            GenFinish::StampWritten => finished_files(output_lines.deep_view()).len() == 0 && main_md_exists,
            GenFinish::NoFiles => finished_files(output_lines.deep_view()).len() == 0 && !main_md_exists,
        },
{
    let raw = join_strings(output_lines, "\n");
    let parsed = parse_context_gen_output(raw.as_str());
    if parsed.files.len() > 0 {
        GenFinish::Write(parsed)
    } else if main_md_exists {
        GenFinish::StampWritten
    } else {
        GenFinish::NoFiles
    }
}

/// The status a finished generation leaves: completed where files were
/// written (`write_ok`) or adopted, failed otherwise.
pub fn generation_status(finish: &GenFinish, write_ok: bool) -> (res: ContextGenStatus)
    ensures
        res == match finish {
            GenFinish::Write(_) => if write_ok { ContextGenStatus::Completed } else { ContextGenStatus::Failed },
            GenFinish::StampWritten => ContextGenStatus::Completed,
            GenFinish::NoFiles => ContextGenStatus::Failed,
        },
{
    match finish {
        GenFinish::Write(_) => if write_ok { ContextGenStatus::Completed } else { ContextGenStatus::Failed },
        GenFinish::StampWritten => ContextGenStatus::Completed,
        GenFinish::NoFiles => ContextGenStatus::Failed,
    }
}

} // verus!
