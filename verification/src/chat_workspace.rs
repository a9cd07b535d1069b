//! Naming of the branch and worktree that a chat task works in.

use vstd::prelude::*;
use crate::text::{chars_of, push_char};

verus! {

/// The branch and worktree of a chat task.
#[derive(Debug, Clone, PartialEq, Eq)]
pub struct ChatWorkspace {
    pub branch_name: String,
    pub worktree_path: String,
}

/// Whether a character may stay in a branch name component.
pub open spec fn branch_char_ok(c: char) -> bool {
    ('a' <= c && c <= 'z') || ('A' <= c && c <= 'Z') || ('0' <= c && c <= '9') || c == '-' || c == '_' || c == '.'
}

/// Every character that may not stay replaced by `-`.
pub open spec fn replace_bad_chars(s: Seq<char>) -> Seq<char> {
    s.map_values(|c: char| if branch_char_ok(c) { c } else { '-' })
}

/// Whether a character is cut from the ends of a component.
pub open spec fn edge_char(c: char) -> bool {
    c == '-' || c == '.'
}

/// `s` without leading `-` and `.` characters.
pub open spec fn strip_edge_start(s: Seq<char>) -> Seq<char>
    decreases s.len(),
{
    if s.len() > 0 && edge_char(s[0]) { strip_edge_start(s.drop_first()) } else { s }
}

/// `s` without trailing `-` and `.` characters.
pub open spec fn strip_edge_end(s: Seq<char>) -> Seq<char>
    decreases s.len(),
{
    if s.len() > 0 && edge_char(s.last()) { strip_edge_end(s.drop_last()) } else { s }
}

/// The branch name component for a raw task id: bad characters become `-`,
/// `-` and `.` are cut from both ends, and "chat" stands in for nothing.
pub open spec fn branch_component(raw: Seq<char>) -> Seq<char> {
    let t = strip_edge_end(strip_edge_start(replace_bad_chars(raw)));
    if t.len() == 0 { "chat"@ } else { t }
}

proof fn lemma_strip_start(s: Seq<char>, i: int)
    requires
        0 <= i <= s.len(),
        forall|j: int| 0 <= j < i ==> edge_char(#[trigger] s[j]),
    ensures
        strip_edge_start(s) == strip_edge_start(s.skip(i)),
    decreases i,
{
    if i > 0 {
        assert(s.skip(1) == s.drop_first());
        assert forall|j: int| 0 <= j < i - 1 implies edge_char(#[trigger] s.skip(1)[j]) by {
            assert(s.skip(1)[j] == s[j + 1]);
        }
        lemma_strip_start(s.skip(1), i - 1);
        assert(s.skip(1).skip(i - 1) =~= s.skip(i));
    } else {
        assert(s.skip(0) =~= s);
    }
}

proof fn lemma_strip_end(s: Seq<char>, k: int)
    requires
        0 <= k <= s.len(),
        forall|j: int| k <= j < s.len() ==> edge_char(#[trigger] s[j]),
    ensures
        strip_edge_end(s) == strip_edge_end(s.take(k)),
    decreases s.len() - k,
{
    if k < s.len() {
        assert(s.drop_last() == s.take(s.len() - 1));
        assert forall|j: int| k <= j < s.drop_last().len() implies edge_char(#[trigger] s.drop_last()[j]) by {
            assert(s.drop_last()[j] == s[j]);
        }
        lemma_strip_end(s.drop_last(), k);
        assert(s.drop_last().take(k) =~= s.take(k));
    } else {
        assert(s.take(k) =~= s);
    }
}

/// Makes a task id safe as a branch name component.
pub fn sanitize_branch_component(raw: &str) -> (res: String)
    ensures
        res@ == branch_component(raw@),
{
    let v = chars_of(raw);
    let mut m: Vec<char> = Vec::new();
    let mut i: usize = 0;
    while i < v.len()
        invariant
            i <= v@.len(),
            v@ == raw@,
            m@ == replace_bad_chars(v@.take(i as int)),
        decreases v@.len() - i,
    {
        let c = v[i];
        let ok = ('a' <= c && c <= 'z') || ('A' <= c && c <= 'Z') || ('0' <= c && c <= '9') || c == '-' || c == '_' || c == '.';
        m.push(if ok { c } else { '-' });
        assert(m@ =~= replace_bad_chars(v@.take(i + 1)));
        i = i + 1;
    }
    assert(v@.take(v@.len() as int) =~= v@);
    let ghost full = m@;
    let mut a: usize = 0;
    while a < m.len() && (m[a] == '-' || m[a] == '.')
        invariant
            a <= m@.len(),
            m@ == full,
            forall|j: int| 0 <= j < a ==> edge_char(#[trigger] m@[j]),
        decreases m@.len() - a,
    {
        a = a + 1;
    }
    proof {
        lemma_strip_start(full, a as int);
    }
    let ghost rest = full.skip(a as int);
    let mut b: usize = m.len();
    while b > a && (m[b - 1] == '-' || m[b - 1] == '.')
        invariant
            a <= b <= m@.len(),
            m@ == full,
            forall|j: int| b <= j < m@.len() ==> edge_char(#[trigger] m@[j]),
        decreases b,
    {
        b = b - 1;
    }
    proof {
        if a < m@.len() {
            assert(!edge_char(full[a as int]));
        }
        assert(strip_edge_start(rest) == rest) by {
            if rest.len() > 0 {
                assert(rest[0] == full[a as int]);
            }
        }
        assert forall|j: int| (b - a) <= j < rest.len() implies edge_char(#[trigger] rest[j]) by {
            assert(rest[j] == full[j + a]);
        }
        lemma_strip_end(rest, (b - a) as int);
        let t = rest.take((b - a) as int);
        assert(strip_edge_end(t) == t) by {
            if t.len() > 0 {
                assert(t.last() == full[b - 1]);
            }
        }
    }
    if a == b {
        proof {
            reveal_strlit("chat");
        }
        return String::from_str("chat");
    }
    let mut out = String::new();
    let mut k = a;
    while k < b
        invariant
            a <= k <= b <= m@.len(),
            m@ == full,
            out@ == full.subrange(a as int, k as int),
        decreases b - k,
    {
        push_char(&mut out, m[k]);
        assert(out@ =~= full.subrange(a as int, k + 1));
        k = k + 1;
    }
    assert(out@ =~= rest.take((b - a) as int));
    out
}

/// The branch of a chat task: `task/` and the sanitized task id.
pub fn branch_name_for_task(task_id: &str) -> (res: String)
    ensures
        res@ == "task/"@ + branch_component(task_id@),
{
    let s = sanitize_branch_component(task_id);
    let mut out = String::from_str("task/");
    out.append(s.as_str());
    out
}

} // verus!
