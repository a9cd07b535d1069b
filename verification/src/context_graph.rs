//! Context graph: link extraction from markdown context files, path
//! normalisation and rendering of the loaded graph for prompts.

use vstd::prelude::*;
use crate::text::{
    chars_of, ends_with, find_first, find_from, is_ws, join, join_strings,
    last_char_index, lemma_find_first, lemma_last_char_index, lines, occurs_at, occurs_at_exec,
    split_lines, starts_with, string_of_range, sub_vec, trim, trim_end_char,
    trim_range, utf8_len, utf8_len_capped, utf8_width,
};
use crate::custom_commands::{contains_string, dedup};
use crate::context_manager::{cut, cut_ok, cut_text};

verus! {

/// One loaded context file.
#[derive(Debug, Clone)]
pub struct ContextNode {
    /// Path relative to the repository root.
    pub path: String,
    pub content: String,
    /// Links to other context files.
    pub links: Vec<String>,
    /// References to source files.
    pub source_refs: Vec<String>,
}

/// The loaded context graph.
#[derive(Debug, Clone)]
pub struct ContextGraph {
    pub nodes: Vec<ContextNode>,
    pub total_chars: usize,
}

/// Limits of context loading.
#[derive(Debug, Clone, Copy)]
pub struct ContextLoadConfig {
    /// Deepest link level followed from MAIN.md.
    pub max_depth: usize,
    /// Character budget.
    pub max_total_chars: usize,
}

impl Default for ContextLoadConfig {
    fn default() -> (res: Self)
        ensures
            res.max_depth == 10,
            res.max_total_chars == 80_000,
    {
        ContextLoadConfig { max_depth: 10, max_total_chars: 80_000 }
    }
}

/// Path components after normalisation: whether the path is rooted, and its names.
pub struct NormState {
    pub root: bool,
    pub names: Seq<Seq<char>>,
}

/// Applies one path segment: empty and `.` are skipped, `..` removes the
/// last component (the root too), others are appended.
pub open spec fn apply_segment(st: NormState, seg: Seq<char>) -> NormState {
    if seg.len() == 0 || seg == "."@ {
        st
    } else if seg == ".."@ {
        if st.names.len() > 0 {
            NormState { root: st.root, names: st.names.drop_last() }
        } else {
            NormState { root: false, names: st.names }
        }
    } else {
        NormState { root: st.root, names: st.names.push(seg) }
    }
}

/// Components after reading `s`, with `cur` the segment read so far.
pub open spec fn norm_fold(s: Seq<char>, st: NormState, cur: Seq<char>) -> NormState
    decreases s.len(),
{
    if s.len() == 0 {
        apply_segment(st, cur)
    } else if s[0] == '/' {
        norm_fold(s.drop_first(), apply_segment(st, cur), seq![])
    } else {
        norm_fold(s.drop_first(), st, cur.push(s[0]))
    }
}

/// Components of the normalised path.
pub open spec fn norm_state(path: Seq<char>) -> NormState {
    norm_fold(path, NormState { root: path.len() > 0 && path[0] == '/', names: seq![] }, seq![])
}

/// Renders components as a path.
pub open spec fn render_state(st: NormState) -> Seq<char> {
    (if st.root { "/"@ } else { seq![] }) + join(st.names, "/"@)
}

/// `path` with `.` and `..` resolved lexically, without the file system.
pub open spec fn spec_normalise(path: Seq<char>) -> Seq<char> {
    render_state(norm_state(path))
}

fn apply_segment_exec(root: &mut bool, names: &mut Vec<String>, v: &Vec<char>, lo: usize, hi: usize)
    requires
        lo <= hi <= v@.len(),
    ensures
        ({
            let st = apply_segment(NormState { root: *old(root), names: old(names).deep_view() }, v@.subrange(lo as int, hi as int));
            &&& *final(root) == st.root
            &&& final(names).deep_view() == st.names
        }),
{
    proof {
        reveal_strlit(".");
        reveal_strlit("..");
    }
    let ghost seg = v@.subrange(lo as int, hi as int);
    let n = hi - lo;
    if n == 0 || (n == 1 && v[lo] == '.') {
        if n == 1 {
            assert(seg =~= "."@);
        }
        return;
    }
    assert(seg != "."@) by {
        if seg == "."@ {
            assert(seg.len() == 1 && seg[0] == v@[lo as int]);
        }
    }
    if n == 2 && v[lo] == '.' && v[lo + 1] == '.' {
        assert(seg =~= ".."@);
        if names.len() > 0 {
            let ghost before = names.deep_view();
            names.pop();
            assert(names.deep_view() =~= before.drop_last());
        } else {
            *root = false;
        }
        return;
    }
    assert(seg != ".."@) by {
        if seg == ".."@ {
            assert(seg.len() == 2 && seg[0] == v@[lo as int] && seg[1] == v@[lo + 1]);
        }
    }
    let ghost before = names.deep_view();
    names.push(string_of_range(v, lo, hi));
    assert(names.deep_view() =~= before.push(seg));
}

/// Resolves `.` and `..` in a `/`-separated path; see [`spec_normalise`].
pub fn normalise_path(path: &str) -> (res: String)
    ensures
        res@ == spec_normalise(path@),
{
    let v = chars_of(path);
    let mut root = v.len() > 0 && v[0] == '/';
    let mut names: Vec<String> = Vec::new();
    let mut start: usize = 0;
    let mut i: usize = 0;
    assert(v@.skip(0) =~= v@);
    assert(v@.subrange(0, 0) =~= Seq::<char>::empty());
    assert(names.deep_view() =~= Seq::<Seq<char>>::empty());
    while i < v.len()
        invariant
            start <= i <= v@.len(),
            v@ == path@,
            norm_state(path@) == norm_fold(v@.skip(i as int), NormState { root: root, names: names.deep_view() }, v@.subrange(start as int, i as int)),
        decreases v@.len() - i,
    {
        assert(v@.skip(i as int).drop_first() =~= v@.skip(i + 1));
        if v[i] == '/' {
            apply_segment_exec(&mut root, &mut names, &v, start, i);
            assert(v@.subrange(i + 1, i + 1) =~= Seq::<char>::empty());
            start = i + 1;
        } else {
            assert(v@.subrange(start as int, i + 1) =~= v@.subrange(start as int, i as int).push(v@[i as int]));
        }
        i = i + 1;
    }
    assert(v@.skip(i as int) =~= Seq::<char>::empty());
    apply_segment_exec(&mut root, &mut names, &v, start, i);
    let mut out = if root { String::from_str("/") } else { String::new() };
    let joined = join_strings(&names, "/");
    out.append(joined.as_str());
    proof {
        reveal_strlit("");
        assert((if root { "/"@ } else { seq![] }) + join(names.deep_view(), "/"@) == out@);
    }
    out
}


/// `s` without trailing separators and trailing `.` components.
pub open spec fn strip_tail(s: Seq<char>) -> Seq<char>
    decreases s.len(),
{
    if s.len() > 0 && s.last() == '/' {
        strip_tail(s.drop_last())
    } else if s.len() >= 2 && s.last() == '.' && s[s.len() - 2] == '/' {
        strip_tail(s.drop_last())
    } else {
        s
    }
}

/// Directory that holds `p` (as `Path::parent`, with "." when there is none).
pub open spec fn parent_text(p: Seq<char>) -> Seq<char> {
    let t = strip_tail(p);
    let i = last_char_index(t, '/');
    if t.len() == 0 {
        "."@
    } else if i < 0 {
        seq![]
    } else if trim_end_char(t.take(i), '/').len() == 0 {
        "/"@
    } else {
        t.take(i)
    }
}

/// `target` resolved against directory `dir` and normalised.
pub open spec fn resolve(dir: Seq<char>, target: Seq<char>) -> Seq<char> {
    spec_normalise(
        if (target.len() > 0 && target[0] == '/') || dir.len() == 0 {
            target
        } else {
            dir + "/"@ + target
        },
    )
}

/// A normalised path names a markdown file under `.othala/`.
pub open spec fn is_context_path(r: Seq<char>) -> bool {
    let name = r.skip(last_char_index(r, '/') + 1);
    (r == ".othala"@ || starts_with(r, ".othala/"@)) && ends_with(name, ".md"@) && name.len() > 3
}

/// Links found so far: context files and other references.
pub struct LinkLists {
    pub ctx: Seq<Seq<char>>,
    pub src: Seq<Seq<char>>,
}

/// Concatenation of link lists.
pub open spec fn cat(a: LinkLists, b: LinkLists) -> LinkLists {
    LinkLists { ctx: a.ctx + b.ctx, src: a.src + b.src }
}

/// No links.
pub open spec fn no_links() -> LinkLists {
    LinkLists { ctx: seq![], src: seq![] }
}

/// One resolved path, filed as a context link or a source reference.
pub open spec fn classify(r: Seq<char>) -> LinkLists {
    if is_context_path(r) {
        LinkLists { ctx: seq![r], src: seq![] }
    } else {
        LinkLists { ctx: seq![], src: seq![r] }
    }
}

/// An occurrence found by [`find_first`] lies inside the sequence.
pub proof fn lemma_find_first_bound(s: Seq<char>, p: Seq<char>, i: int)
    requires
        0 <= i,
    ensures
        find_first(s, p, i) >= 0 ==> find_first(s, p, i) >= i && occurs_at(s, p, find_first(s, p, i)),
    decreases s.len() + 1 - i,
{
    if i <= s.len() && !occurs_at(s, p, i) {
        lemma_find_first_bound(s, p, i + 1);
    }
}

/// `[text](target)` links of a line, in order.
pub open spec fn md_links(s: Seq<char>, dir: Seq<char>) -> LinkLists
    decreases s.len(),
{
    let st = find_first(s, "]("@, 0);
    if st < 0 {
        no_links()
    } else {
        proof {
            lemma_find_first_bound(s, "]("@, 0);
            reveal_strlit("](");
        }
        let after = s.skip(st + "]("@.len());
        let e = find_first(after, ")"@, 0);
        if e < 0 {
            no_links()
        } else {
            proof {
                lemma_find_first_bound(after, ")"@, 0);
                reveal_strlit(")");
            }
            let target = trim(after.take(e));
            let item = if target.len() > 0 && !starts_with(target, "http"@) && !starts_with(target, "#"@) {
                classify(resolve(dir, target))
            } else {
                no_links()
            };
            cat(item, md_links(after.skip(e + ")"@.len()), dir))
        }
    }
}

/// `[[name]]` links of a line (to `name.md`), in order.
pub open spec fn wiki_links(s: Seq<char>, dir: Seq<char>) -> LinkLists
    decreases s.len(),
{
    let st = find_first(s, "[["@, 0);
    if st < 0 {
        no_links()
    } else {
        proof {
            lemma_find_first_bound(s, "[["@, 0);
            reveal_strlit("[[");
        }
        let after = s.skip(st + "[["@.len());
        let e = find_first(after, "]]"@, 0);
        if e < 0 {
            no_links()
        } else {
            proof {
                lemma_find_first_bound(after, "]]"@, 0);
                reveal_strlit("]]");
            }
            let target = trim(after.take(e));
            let item = if target.len() > 0 {
                classify(resolve(dir, target + ".md"@))
            } else {
                no_links()
            };
            cat(item, wiki_links(after.skip(e + "]]"@.len()), dir))
        }
    }
}

/// Index of the first whitespace character, or the length.
pub open spec fn ws_index(s: Seq<char>) -> int
    decreases s.len(),
{
    if s.len() == 0 || is_ws(s[0]) {
        0
    } else {
        1 + ws_index(s.drop_first())
    }
}

/// [`ws_index`] lies within the sequence.
pub proof fn lemma_ws_index(s: Seq<char>)
    ensures
        0 <= ws_index(s) <= s.len(),
    decreases s.len(),
{
    if s.len() > 0 && !is_ws(s[0]) {
        lemma_ws_index(s.drop_first());
    }
}

/// `@file:path` references of a line, in order.
pub open spec fn file_refs(s: Seq<char>, dir: Seq<char>) -> Seq<Seq<char>>
    decreases s.len(),
{
    let st = find_first(s, "@file:"@, 0);
    if st < 0 {
        seq![]
    } else {
        proof {
            lemma_find_first_bound(s, "@file:"@, 0);
            reveal_strlit("@file:");
        }
        let after = s.skip(st + 6);
        let e = ws_index(after);
        proof {
            lemma_ws_index(after);
        }
        let target = trim(after.take(e));
        let item: Seq<Seq<char>> = if target.len() > 0 { seq![resolve(dir, target)] } else { seq![] };
        item + file_refs(after.skip(e), dir)
    }
}

/// All links of one line: markdown links, then wiki links, then file references.
pub open spec fn line_links(line: Seq<char>, dir: Seq<char>) -> LinkLists {
    let f = file_refs(line, dir);
    cat(cat(md_links(line, dir), wiki_links(line, dir)), LinkLists { ctx: seq![], src: f })
}

/// Links of several lines, in order.
pub open spec fn lines_links(ls: Seq<Seq<char>>, dir: Seq<char>) -> LinkLists
    decreases ls.len(),
{
    if ls.len() == 0 {
        no_links()
    } else {
        cat(lines_links(ls.drop_last(), dir), line_links(ls.last(), dir))
    }
}

/// Links of a context file at `current`: targets resolved against its directory.
pub open spec fn spec_extract_links(content: Seq<char>, current: Seq<char>) -> LinkLists {
    lines_links(lines(content), parent_text(current))
}


/// Views two string lists as link lists.
pub open spec fn lists_view(ctx: Seq<String>, src: Seq<String>) -> LinkLists {
    LinkLists { ctx: ctx.map_values(|x: String| x@), src: src.map_values(|x: String| x@) }
}

fn parent_exec(p: &Vec<char>) -> (res: String)
    ensures
        res@ == parent_text(p@),
{
    let mut n = p.len();
    assert(p@.subrange(0, n as int) =~= p@);
    while n > 0 && (p[n - 1] == '/' || (n >= 2 && p[n - 1] == '.' && p[n - 2] == '/'))
        invariant
            n <= p@.len(),
            strip_tail(p@) == strip_tail(p@.subrange(0, n as int)),
        decreases n,
    {
        assert(p@.subrange(0, n as int).drop_last() =~= p@.subrange(0, n - 1));
        n = n - 1;
    }
    let ghost t = p@.subrange(0, n as int);
    assert(strip_tail(t) == t);
    if n == 0 {
        return String::from_str(".");
    }
    let mut i = n;
    while i > 0 && p[i - 1] != '/'
        invariant
            i <= n <= p@.len(),
            t == p@.subrange(0, n as int),
            forall|j: int| i <= j < n ==> t[j] != '/',
        decreases i,
    {
        i = i - 1;
    }
    proof {
        crate::text::lemma_last_char_index(t, '/', i - 1);
    }
    if i == 0 {
        return String::new();
    }
    let k = i - 1;
    let mut m = k;
    assert(t.take(k as int) =~= p@.subrange(0, k as int));
    while m > 0 && p[m - 1] == '/'
        invariant
            m <= k < n <= p@.len(),
            t == p@.subrange(0, n as int),
            trim_end_char(t.take(k as int), '/') == trim_end_char(p@.subrange(0, m as int), '/'),
        decreases m,
    {
        assert(p@.subrange(0, m as int).drop_last() =~= p@.subrange(0, m - 1));
        m = m - 1;
    }
    assert(trim_end_char(p@.subrange(0, m as int), '/') == p@.subrange(0, m as int));
    if m == 0 {
        String::from_str("/")
    } else {
        string_of_range(p, 0, k)
    }
}

fn resolve_exec(dir: &String, target: &Vec<char>) -> (res: String)
    ensures
        res@ == resolve(dir@, target@),
{
    let mut joined = String::new();
    if (target.len() > 0 && target[0] == '/') || dir.as_str().is_empty() {
        crate::text::push_range(&mut joined, target, 0, target.len());
        assert(target@.subrange(0, target@.len() as int) =~= target@);
    } else {
        joined.append(dir.as_str());
        joined.append("/");
        crate::text::push_range(&mut joined, target, 0, target.len());
        assert(target@.subrange(0, target@.len() as int) =~= target@);
    }
    normalise_path(joined.as_str())
}

fn is_context_path_exec(r: &String) -> (res: bool)
    ensures
        res == is_context_path(r@),
{
    proof {
        reveal_strlit(".othala");
        reveal_strlit(".othala/");
        reveal_strlit(".md");
    }
    let v = chars_of(r.as_str());
    let mut i = v.len();
    while i > 0 && v[i - 1] != '/'
        invariant
            i <= v@.len(),
            forall|j: int| i <= j < v@.len() ==> v@[j] != '/',
        decreases i,
    {
        i = i - 1;
    }
    proof {
        crate::text::lemma_last_char_index(v@, '/', i - 1);
    }
    let name = sub_vec(&v, i, v.len());
    assert(name@ =~= v@.skip(i as int));
    let dotmd = chars_of(".md");
    let ext_ok = name.len() > 3 && occurs_at_exec(&name, &dotmd, name.len() - 3);
    assert(ext_ok == (ends_with(name@, ".md"@) && name@.len() > 3));
    let dir_ok = crate::text::str_eq(r.as_str(), ".othala") || crate::text::str_starts_with(r.as_str(), ".othala/");
    dir_ok && ext_ok
}

fn push_classified(ctx: &mut Vec<String>, src: &mut Vec<String>, r: String)
    ensures
        lists_view(final(ctx)@, final(src)@) == cat(lists_view(old(ctx)@, old(src)@), classify(r@)),
{
    let ghost c0 = ctx@;
    let ghost s0 = src@;
    if is_context_path_exec(&r) {
        let ghost rv = r@;
        ctx.push(r);
        assert(ctx@.map_values(|x: String| x@) =~= c0.map_values(|x: String| x@) + seq![rv]);
        assert(src@.map_values(|x: String| x@) =~= s0.map_values(|x: String| x@) + Seq::<Seq<char>>::empty());
    } else {
        let ghost rv = r@;
        src.push(r);
        assert(src@.map_values(|x: String| x@) =~= s0.map_values(|x: String| x@) + seq![rv]);
        assert(ctx@.map_values(|x: String| x@) =~= c0.map_values(|x: String| x@) + Seq::<Seq<char>>::empty());
    }
}

proof fn lemma_cat_assoc(a: LinkLists, b: LinkLists, c: LinkLists)
    ensures
        cat(cat(a, b), c) == cat(a, cat(b, c)),
        cat(a, no_links()) == a,
{
    assert(cat(cat(a, b), c).ctx =~= cat(a, cat(b, c)).ctx);
    assert(cat(cat(a, b), c).src =~= cat(a, cat(b, c)).src);
    assert(cat(a, no_links()).ctx =~= a.ctx);
    assert(cat(a, no_links()).src =~= a.src);
}

fn find_exec(s: &Vec<char>, pat: &str) -> (res: Option<(usize, usize)>)
    ensures
        match res {
            Some((i, j)) => i as int == find_first(s@, pat@, 0) && j == i + pat@.len() && j <= s@.len(),
            None => find_first(s@, pat@, 0) < 0,
        },
{
    let pv = chars_of(pat);
    let r = find_from(s, &pv, 0);
    proof {
        crate::text::lemma_find_first(s@, pat@, 0, match r { Some(i) => Some(i as int), None => None });
    }
    let n = s.len();
    assert(n == s@.len());
    match r {
        Some(i) => Some((i, i + pv.len())),
        None => None,
    }
}

fn md_links_exec(line: &Vec<char>, dir: &String, ctx: &mut Vec<String>, src: &mut Vec<String>)
    ensures
        lists_view(final(ctx)@, final(src)@) == cat(lists_view(old(ctx)@, old(src)@), md_links(line@, dir@)),
{
    proof {
        reveal_strlit("](");
        reveal_strlit(")");
        reveal_strlit("http");
        reveal_strlit("#");
    }
    let mut cur = sub_vec(line, 0, line.len());
    assert(cur@ =~= line@);
    loop
        invariant
            cat(lists_view(ctx@, src@), md_links(cur@, dir@)) == cat(lists_view(old(ctx)@, old(src)@), md_links(line@, dir@)),
        ensures
            lists_view(ctx@, src@) == cat(lists_view(old(ctx)@, old(src)@), md_links(line@, dir@)),
        decreases cur@.len(),
    {
        proof {
            reveal_strlit("](");
            reveal_strlit(")");
            reveal_strlit("http");
            reveal_strlit("#");
        }
        let found = find_exec(&cur, "](");
        if found.is_none() {
            proof { lemma_cat_assoc(lists_view(ctx@, src@), no_links(), no_links()); }
            break;
        }
        let (st, st_end) = found.unwrap();
        let after = sub_vec(&cur, st_end, cur.len());
        assert(after@ =~= cur@.skip(st + "]("@.len()));
        let (e, e_end) = match find_exec(&after, ")") {
            Some(j) => j,
            None => {
                proof { lemma_cat_assoc(lists_view(ctx@, src@), no_links(), no_links()); }
                break;
            },
        };
        let (ta, tb) = trim_range(&after, 0, e);
        assert(after@.subrange(0, e as int) =~= after@.take(e as int));
        let target = sub_vec(&after, ta, tb);
        let ghost tv = target@;
        let ghost before = lists_view(ctx@, src@);
        let http = chars_of("http");
        let hash = chars_of("#");
        if target.len() > 0 && !occurs_at_exec(&target, &http, 0) && !occurs_at_exec(&target, &hash, 0) {
            let r = resolve_exec(dir, &target);
            push_classified(ctx, src, r);
        } else {
            proof { lemma_cat_assoc(before, no_links(), no_links()); }
        }
        let next = sub_vec(&after, e_end, after.len());
        assert(next@ =~= after@.skip(e + ")"@.len()));
        proof {
            let item = if tv.len() > 0 && !starts_with(tv, "http"@) && !starts_with(tv, "#"@) {
                classify(resolve(dir@, tv))
            } else {
                no_links()
            };
            lemma_cat_assoc(before, item, md_links(next@, dir@));
        }
        cur = next;
    }
}

fn wiki_links_exec(line: &Vec<char>, dir: &String, ctx: &mut Vec<String>, src: &mut Vec<String>)
    ensures
        lists_view(final(ctx)@, final(src)@) == cat(lists_view(old(ctx)@, old(src)@), wiki_links(line@, dir@)),
{
    proof {
        reveal_strlit("[[");
        reveal_strlit("]]");
        reveal_strlit(".md");
    }
    let mut cur = sub_vec(line, 0, line.len());
    assert(cur@ =~= line@);
    loop
        invariant
            cat(lists_view(ctx@, src@), wiki_links(cur@, dir@)) == cat(lists_view(old(ctx)@, old(src)@), wiki_links(line@, dir@)),
        ensures
            lists_view(ctx@, src@) == cat(lists_view(old(ctx)@, old(src)@), wiki_links(line@, dir@)),
        decreases cur@.len(),
    {
        proof {
            reveal_strlit("[[");
            reveal_strlit("]]");
            reveal_strlit(".md");
        }
        let found = find_exec(&cur, "[[");
        if found.is_none() {
            proof { lemma_cat_assoc(lists_view(ctx@, src@), no_links(), no_links()); }
            break;
        }
        let (st, st_end) = found.unwrap();
        let after = sub_vec(&cur, st_end, cur.len());
        assert(after@ =~= cur@.skip(st + "[["@.len()));
        let (e, e_end) = match find_exec(&after, "]]") {
            Some(j) => j,
            None => {
                proof { lemma_cat_assoc(lists_view(ctx@, src@), no_links(), no_links()); }
                break;
            },
        };
        let (ta, tb) = trim_range(&after, 0, e);
        assert(after@.subrange(0, e as int) =~= after@.take(e as int));
        let ghost before = lists_view(ctx@, src@);
        let ghost tv = after@.subrange(ta as int, tb as int);
        if tb > ta {
            let mut target = sub_vec(&after, ta, tb);
            target.push('.');
            target.push('m');
            target.push('d');
            assert(target@ =~= tv + ".md"@);
            let r = resolve_exec(dir, &target);
            push_classified(ctx, src, r);
        } else {
            proof { lemma_cat_assoc(before, no_links(), no_links()); }
        }
        let next = sub_vec(&after, e_end, after.len());
        assert(next@ =~= after@.skip(e + "]]"@.len()));
        proof {
            let item = if tv.len() > 0 { classify(resolve(dir@, tv + ".md"@)) } else { no_links() };
            lemma_cat_assoc(before, item, wiki_links(next@, dir@));
        }
        cur = next;
    }
}

fn file_refs_exec(line: &Vec<char>, dir: &String, src: &mut Vec<String>)
    ensures
        final(src)@.map_values(|x: String| x@) == old(src)@.map_values(|x: String| x@) + file_refs(line@, dir@),
{
    proof {
        reveal_strlit("@file:");
    }
    let mut cur = sub_vec(line, 0, line.len());
    assert(cur@ =~= line@);
    loop
        invariant
            src@.map_values(|x: String| x@) + file_refs(cur@, dir@) == old(src)@.map_values(|x: String| x@) + file_refs(line@, dir@),
        ensures
            src@.map_values(|x: String| x@) == old(src)@.map_values(|x: String| x@) + file_refs(line@, dir@),
        decreases cur@.len(),
    {
        proof {
            reveal_strlit("@file:");
        }
        let (st, st_end) = match find_exec(&cur, "@file:") {
            Some(i) => i,
            None => {
                assert(src@.map_values(|x: String| x@) + file_refs(cur@, dir@) =~= src@.map_values(|x: String| x@));
                break;
            },
        };
        let after = sub_vec(&cur, st_end, cur.len());
        assert(after@ =~= cur@.skip(st + 6));
        let mut e: usize = 0;
        assert(after@.skip(0) =~= after@);
        while e < after.len() && !crate::text::char_is_ws(after[e])
            invariant
                e <= after@.len(),
                ws_index(after@) == e + ws_index(after@.skip(e as int)),
            decreases after@.len() - e,
        {
            assert(after@.skip(e as int).drop_first() =~= after@.skip(e + 1));
            e = e + 1;
        }
        assert(after@.skip(0) =~= after@);
        proof {
            lemma_ws_index(after@);
        }
        let (ta, tb) = trim_range(&after, 0, e);
        assert(after@.subrange(0, e as int) =~= after@.take(e as int));
        let ghost before = src@.map_values(|x: String| x@);
        let ghost tv = after@.subrange(ta as int, tb as int);
        if tb > ta {
            let target = sub_vec(&after, ta, tb);
            let r = resolve_exec(dir, &target);
            let ghost rv = r@;
            src.push(r);
            assert(src@.map_values(|x: String| x@) =~= before.push(rv));
        }
        let next = sub_vec(&after, e, after.len());
        assert(next@ =~= after@.skip(e as int));
        proof {
            let item: Seq<Seq<char>> = if tv.len() > 0 { seq![resolve(dir@, tv)] } else { seq![] };
            assert(file_refs(cur@, dir@) == item + file_refs(next@, dir@));
            assert(src@.map_values(|x: String| x@) =~= before + item);
            assert(before + item + file_refs(next@, dir@) =~= before + (item + file_refs(next@, dir@)));
        }
        cur = next;
    }
}

/// Context links and source references of a context file at `current_path`.
pub fn extract_links(content: &str, current_path: &str) -> (res: (Vec<String>, Vec<String>))
    ensures
        lists_view(res.0@, res.1@) == spec_extract_links(content@, current_path@),
{
    let cv = chars_of(content);
    let pv = chars_of(current_path);
    let dir = parent_exec(&pv);
    let ls = split_lines(&cv);
    let mut ctx: Vec<String> = Vec::new();
    let mut src: Vec<String> = Vec::new();
    let mut i: usize = 0;
    assert(lists_view(ctx@, src@).ctx =~= no_links().ctx);
    assert(lists_view(ctx@, src@).src =~= no_links().src);
    while i < ls.len()
        invariant
            i <= ls@.len(),
            ls.deep_view() == lines(content@),
            dir@ == parent_text(current_path@),
            lists_view(ctx@, src@) == lines_links(ls.deep_view().take(i as int), dir@),
        decreases ls@.len() - i,
    {
        let ghost dv = ls.deep_view();
        assert(dv.take(i + 1).drop_last() =~= dv.take(i as int));
        let line = chars_of(ls[i].as_str());
        assert(line@ == dv[i as int]);
        let ghost before = lists_view(ctx@, src@);
        md_links_exec(&line, &dir, &mut ctx, &mut src);
        wiki_links_exec(&line, &dir, &mut ctx, &mut src);
        let ghost mid = lists_view(ctx@, src@);
        file_refs_exec(&line, &dir, &mut src);
        proof {
            let f = file_refs(line@, dir@);
            assert(lists_view(ctx@, src@) == cat(mid, LinkLists { ctx: seq![], src: f })) by {
                assert(lists_view(ctx@, src@).ctx =~= cat(mid, LinkLists { ctx: seq![], src: f }).ctx);
            }
            lemma_cat_assoc(before, md_links(line@, dir@), wiki_links(line@, dir@));
            lemma_cat_assoc(before, cat(md_links(line@, dir@), wiki_links(line@, dir@)), LinkLists { ctx: seq![], src: f });
        }
        i = i + 1;
    }
    assert(ls.deep_view().take(i as int) =~= ls.deep_view());
    (ctx, src)
}


/// One node's section of the rendered context.
pub open spec fn node_section(n: ContextNode) -> Seq<char> {
    "## "@ + n.path@ + "\n\n"@ + n.content@ + (if n.content@.len() > 0 && n.content@.last() == '\n' {
        seq![]
    } else {
        "\n"@
    }) + "\n"@
}

/// Sections of all nodes, in order.
pub open spec fn node_sections(ns: Seq<ContextNode>) -> Seq<char>
    decreases ns.len(),
{
    if ns.len() == 0 {
        seq![]
    } else {
        node_sections(ns.drop_last()) + node_section(ns.last())
    }
}

/// Every source reference of the nodes, in node order.
pub open spec fn all_source_refs(ns: Seq<ContextNode>) -> Seq<Seq<char>>
    decreases ns.len(),
{
    if ns.len() == 0 {
        seq![]
    } else {
        all_source_refs(ns.drop_last()) + ns.last().source_refs.deep_view()
    }
}

/// The source files the graph refers to, each once, in order of first
/// reference.
pub fn source_refs_in_order(graph: &ContextGraph) -> (res: Vec<String>)
    ensures
        res.deep_view() == dedup(all_source_refs(graph.nodes@)),
{
    let mut out: Vec<String> = Vec::new();
    let mut i: usize = 0;
    assert(out.deep_view() =~= dedup(all_source_refs(graph.nodes@.take(0))));
    while i < graph.nodes.len()
        invariant
            i <= graph.nodes@.len(),
            out.deep_view() == dedup(all_source_refs(graph.nodes@.take(i as int))),
        decreases graph.nodes@.len() - i,
    {
        let refs = &graph.nodes[i].source_refs;
        let ghost base = all_source_refs(graph.nodes@.take(i as int));
        assert(graph.nodes@.take(i + 1).drop_last() =~= graph.nodes@.take(i as int));
        let mut j: usize = 0;
        assert(base + refs.deep_view().take(0) =~= base);
        while j < refs.len()
            invariant
                j <= refs@.len(),
                out.deep_view() == dedup(base + refs.deep_view().take(j as int)),
            decreases refs@.len() - j,
        {
            let ghost seen = base + refs.deep_view().take(j as int);
            assert(base + refs.deep_view().take(j + 1) =~= seen.push(refs@[j as int]@));
            assert((seen.push(refs@[j as int]@)).drop_last() =~= seen);
            if !contains_string(&out, &refs[j]) {
                let ghost before = out.deep_view();
                out.push(String::from_str(refs[j].as_str()));
                assert(out.deep_view() =~= before.push(refs@[j as int]@));
            }
            j = j + 1;
        }
        assert(refs.deep_view().take(refs@.len() as int) =~= refs.deep_view());
        i = i + 1;
    }
    assert(graph.nodes@.take(graph.nodes@.len() as int) =~= graph.nodes@);
    out
}

/// The extension of a path's file name (after its last `.`, when the name
/// has one past its first character), else nothing.
pub open spec fn path_extension(p: Seq<char>) -> Seq<char> {
    let name = p.skip(last_char_index(p, '/') + 1);
    let d = last_char_index(name, '.');
    if d > 0 { name.skip(d + 1) } else { seq![] }
}

/// The text inlined for a source file with `remaining` bytes of budget
/// left: all of it, or its first `remaining` bytes marked as truncated.
pub open spec fn inlined_text(content: Seq<char>, remaining: nat) -> Seq<char> {
    if utf8_len(content) > remaining { cut(content, remaining) + "...(truncated)"@ } else { content }
}

/// The section for one referenced source file: its path as a heading and
/// its (possibly truncated) text in a code block marked with the file's
/// extension.
pub open spec fn source_section(path: Seq<char>, content: Seq<char>, remaining: nat) -> Seq<char> {
    let c = inlined_text(content, remaining);
    "## "@ + path + "\n\n```"@ + path_extension(path) + "\n"@ + c
        + (if c.len() > 0 && c.last() == '\n' { seq![] } else { "\n"@ }) + "```\n\n"@
}

proof fn lemma_utf8_len_add(a: Seq<char>, b: Seq<char>)
    ensures
        utf8_len(a + b) == utf8_len(a) + utf8_len(b),
    decreases a.len(),
{
    if a.len() > 0 {
        lemma_utf8_len_add(a.drop_first(), b);
        assert((a + b).drop_first() =~= a.drop_first() + b);
    } else {
        assert(a + b =~= b);
    }
}

fn extension_of(path: &str) -> (res: String)
    ensures
        res@ == path_extension(path@),
{
    let v = chars_of(path);
    let n = v.len();
    let mut s: usize = n;
    while s > 0 && v[s - 1] != '/'
        invariant
            s <= n == v@.len(),
            forall|j: int| s <= j < n ==> v@[j] != '/',
        decreases s,
    {
        s = s - 1;
    }
    proof {
        lemma_last_char_index(v@, '/', s - 1);
    }
    let name = sub_vec(&v, s, n);
    assert(name@ =~= path@.skip(s as int));
    let m = name.len();
    let mut d: usize = m;
    while d > 0 && name[d - 1] != '.'
        invariant
            d <= m == name@.len(),
            forall|j: int| d <= j < m ==> name@[j] != '.',
        decreases d,
    {
        d = d - 1;
    }
    proof {
        lemma_last_char_index(name@, '.', d - 1);
    }
    if d >= 2 {
        let e = string_of_range(&name, d, m);
        assert(name@.subrange(d as int, m as int) =~= name@.skip(d as int));
        e
    } else {
        String::new()
    }
}

/// The section for one referenced source file with `remaining` bytes of
/// budget left, and the bytes it counts against the budget (those of the
/// inlined text).
pub fn source_section_of(path: &str, content: &str, remaining: usize) -> (res: (String, usize))
    requires
        utf8_len(content@) < usize::MAX - 20,
        cut_ok(content@, remaining as nat),
    ensures
        res.0@ == source_section(path@, content@, remaining as nat),
        res.1 == utf8_len(inlined_text(content@, remaining as nat)),
{
    let v = chars_of(content);
    let n = v.len();
    assert(v@.subrange(0, n as int) =~= v@);
    let cap: usize = if remaining < usize::MAX - 21 { remaining } else { usize::MAX - 21 };
    let total = utf8_len_capped(&v, 0, n, cap);
    let (text, counted) = if total <= cap {
        (String::from_str(content), total)
    } else {
        let mut t = cut_text(content, remaining);
        t.append("...(truncated)");
        proof {
            reveal_strlit("...(truncated)");
            lemma_utf8_len_add(cut(content@, remaining as nat), "...(truncated)"@);
            assert(utf8_len("...(truncated)"@) == 14) by {
                reveal_with_fuel(utf8_len, 15);
            }
        }
        (t, remaining + 14)
    };
    let mut out = String::from_str("## ");
    out.append(path);
    out.append("\n\n```");
    let ext = extension_of(path);
    out.append(ext.as_str());
    out.append("\n");
    out.append(text.as_str());
    let tv = chars_of(text.as_str());
    if !(tv.len() > 0 && tv[tv.len() - 1] == '\n') {
        out.append("\n");
    }
    out.append("```\n\n");
    (out, counted)
}

/// The loaded context as one markdown document for a prompt.
pub fn render_context_for_prompt(graph: &ContextGraph) -> (res: String)
    ensures
        res@ == "# Repository Context\n\n"@ + node_sections(graph.nodes@),
{
    let mut out = String::from_str("# Repository Context\n\n");
    let mut i: usize = 0;
    while i < graph.nodes.len()
        invariant
            i <= graph.nodes@.len(),
            out@ == "# Repository Context\n\n"@ + node_sections(graph.nodes@.take(i as int)),
        decreases graph.nodes@.len() - i,
    {
        let node = &graph.nodes[i];
        assert(graph.nodes@.take(i + 1).drop_last() =~= graph.nodes@.take(i as int));
        let ghost before = out@;
        out.append("## ");
        out.append(node.path.as_str());
        out.append("\n\n");
        out.append(node.content.as_str());
        let cv = chars_of(node.content.as_str());
        if !(cv.len() > 0 && cv[cv.len() - 1] == '\n') {
            out.append("\n");
        }
        out.append("\n");
        assert(out@ =~= before + node_section(graph.nodes@[i as int]));
        i = i + 1;
    }
    assert(graph.nodes@.take(i as int) =~= graph.nodes@);
    out
}

} // verus!
