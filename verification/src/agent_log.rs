//! Where an agent's output is logged, and the last lines of such a log.

use vstd::prelude::*;
use crate::text::{chars_of, join_path, lines, path_join, split_lines};

verus! {

/// The directory holding the output of task `task_id` under `repo_root`.
pub open spec fn log_dir_of(repo_root: Seq<char>, task_id: Seq<char>) -> Seq<char> {
    path_join(path_join(repo_root, ".othala/agent-output"@), task_id)
}

/// The directory holding the output of task `task_id`.
pub fn agent_log_dir(repo_root: &str, task_id: &str) -> (res: String)
    ensures
        res@ == log_dir_of(repo_root@, task_id@),
{
    let base = join_path(repo_root, ".othala/agent-output");
    join_path(base.as_str(), task_id)
}

/// The log file of task `task_id`.
pub fn agent_log_path(repo_root: &str, task_id: &str) -> (res: String)
    ensures
        res@ == path_join(log_dir_of(repo_root@, task_id@), "latest.log"@),
{
    let dir = agent_log_dir(repo_root, task_id);
    join_path(dir.as_str(), "latest.log")
}

/// The last `n` lines of a log (all of them when there are fewer).
pub open spec fn tail_of(content: Seq<char>, n: nat) -> Seq<Seq<char>> {
    let ls = lines(content);
    if ls.len() <= n { ls } else { ls.skip(ls.len() - n) }
}

/// The last `n` lines of a log's content.
pub fn tail_lines(content: &str, n: usize) -> (res: Vec<String>)
    ensures
        res.deep_view() == tail_of(content@, n as nat),
{
    let all = split_lines(&chars_of(content));
    let len = all.len();
    let start = if len > n { len - n } else { 0 };
    let mut out: Vec<String> = Vec::new();
    let mut i = start;
    while i < len
        invariant
            start <= i <= len,
            len == all@.len(),
            out.deep_view() =~= all.deep_view().subrange(start as int, i as int),
        decreases len - i,
    {
        let ghost before = out.deep_view();
        out.push(all[i].clone());
        assert(out.deep_view() =~= before.push(all@[i as int]@));
        i = i + 1;
    }
    assert(all.deep_view().subrange(start as int, len as int) =~= tail_of(content@, n as nat));
    out
}

} // verus!
