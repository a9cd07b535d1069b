//! Where the JSONL event logs live: one global file and one file per task.

use vstd::prelude::*;
use crate::text::{join_path, path_join};

verus! {

/// The event log directory layout.
#[derive(Debug, Clone, PartialEq, Eq)]
pub struct JsonlEventLog {
    pub root: String,
    pub global_file: String,
    pub task_dir: String,
}

impl JsonlEventLog {
    /// The layout under `root`: `global.jsonl` and the `tasks` directory.
    pub fn new(root: &str) -> (res: Self)
        ensures
            res.root@ == root@,
            res.global_file@ == path_join(root@, "global.jsonl"@),
            res.task_dir@ == path_join(root@, "tasks"@),
    {
        JsonlEventLog {
            root: String::from_str(root),
            global_file: join_path(root, "global.jsonl"),
            task_dir: join_path(root, "tasks"),
        }
    }

    /// The log file of one task: `<task_id>.jsonl` in the task directory.
    pub fn task_log_path(&self, task_id: &str) -> (res: String)
        ensures
            res@ == path_join(self.task_dir@, task_id@ + ".jsonl"@),
    {
        let mut name = String::from_str(task_id);
        name.append(".jsonl");
        join_path(self.task_dir.as_str(), name.as_str())
    }

    /// The global log file.
    pub fn global_log_path(&self) -> (res: &str)
        ensures
            res@ == self.global_file@,
    {
        self.global_file.as_str()
    }
}

} // verus!
