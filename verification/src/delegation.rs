//! Delegation of a task to subtasks: the plan, its validation, the waves in
//! which its subtasks run, and the tracking of their progress.

use vstd::prelude::*;
use crate::json::{json_bool, json_get, json_items, json_of, json_str, json_u64, parse_json, JsonValue};
use crate::text::{
    chars_of, decimal, find_first, find_from, join, join_strings, lemma_find_first, push_decimal, str_eq,
    split_lines, starts_with, lines, str_starts_with, str_trim, str_trim_end, string_of_range, trim, trim_end,
};

verus! {

/// How subtasks are scheduled.
#[derive(Debug, Clone, Copy, PartialEq, Eq, Structural)]
pub enum DelegationStrategy {
    Sequential,
    Parallel,
    Conditional,
}

impl Default for DelegationStrategy {
    fn default() -> (res: Self)
        ensures
            res == DelegationStrategy::Sequential,
    {
        DelegationStrategy::Sequential
    }
}

/// The lower-case name of a strategy.
pub open spec fn strategy_name(s: DelegationStrategy) -> Seq<char> {
    match s {
        DelegationStrategy::Sequential => "sequential"@,
        DelegationStrategy::Parallel => "parallel"@,
        DelegationStrategy::Conditional => "conditional"@,
    }
}

impl DelegationStrategy {
    /// The strategy's name.
    pub fn as_str(&self) -> (res: &'static str)
        ensures
            res@ == strategy_name(*self),
    {
        match self {
            DelegationStrategy::Sequential => "sequential",
            DelegationStrategy::Parallel => "parallel",
            DelegationStrategy::Conditional => "conditional",
        }
    }

    /// The strategy's name, owned.
    pub fn to_string(&self) -> (res: String)
        ensures
            res@ == strategy_name(*self),
    {
        String::from_str(self.as_str())
    }
}

/// One subtask of a plan.
#[derive(Debug, Clone, PartialEq, Eq)]
pub struct SubTaskSpec {
    pub title: String,
    pub description: String,
    pub model: Option<String>,
    pub priority: Option<String>,
    /// Titles of the subtasks that must complete first.
    pub depends_on: Vec<String>,
    pub files: Vec<String>,
    pub verify_command: Option<String>,
}

/// A plan to split a task into subtasks.
/// A UTC time: whole seconds since the Unix epoch and the nanoseconds
/// past them.
#[derive(Debug, Clone, Copy, PartialEq, Eq, Structural)]
pub struct UtcTime {
    pub secs: i64,
    pub nanos: u32,
}

#[derive(Debug, Clone)]
pub struct DelegationPlan {
    pub parent_task_id: String,
    pub strategy: DelegationStrategy,
    pub subtasks: Vec<SubTaskSpec>,
    /// When the plan was made.
    pub created_at: UtcTime,
    pub max_parallel: usize,
    pub fail_fast: bool,
    pub timeout_secs: Option<u64>,
}

impl DelegationPlan {
    /// An empty sequential plan for `parent_id`, one subtask at a time,
    /// failing fast, with no timeout.
    pub fn new(parent_id: &str, created_at: UtcTime) -> (res: Self)
        ensures
            res.parent_task_id@ == parent_id@,
            res.strategy == DelegationStrategy::Sequential,
            res.subtasks@.len() == 0,
            res.created_at == created_at,
            res.max_parallel == 1,
            res.fail_fast,
            res.timeout_secs is None,
    {
        DelegationPlan {
            parent_task_id: String::from_str(parent_id),
            strategy: DelegationStrategy::default(),
            subtasks: Vec::new(),
            created_at,
            max_parallel: 1,
            fail_fast: true,
            timeout_secs: None,
        }
    }

    /// Appends a subtask.
    pub fn add_subtask(&mut self, spec: SubTaskSpec)
        ensures
            final(self).subtasks@ == old(self).subtasks@.push(spec),
            final(self).parent_task_id == old(self).parent_task_id,
            final(self).strategy == old(self).strategy,
            final(self).created_at == old(self).created_at,
            final(self).max_parallel == old(self).max_parallel,
            final(self).fail_fast == old(self).fail_fast,
            final(self).timeout_secs == old(self).timeout_secs,
    {
        self.subtasks.push(spec);
    }
}

/// The index of the first subtask, from `i` on, whose trimmed title is the
/// nonempty `t`; -1 when there is none.
pub open spec fn title_index_from(subs: Seq<SubTaskSpec>, t: Seq<char>, i: int) -> int
    decreases subs.len() - i,
{
    if i < 0 || i >= subs.len() {
        -1
    } else if t.len() > 0 && trim(subs[i].title@) == t {
        i
    } else {
        title_index_from(subs, t, i + 1)
    }
}

/// The index of the subtask titled `t`, or -1.
pub open spec fn title_index(subs: Seq<SubTaskSpec>, t: Seq<char>) -> int {
    title_index_from(subs, t, 0)
}

/// Whether two subtasks share a nonempty trimmed title.
pub open spec fn has_duplicate_title(subs: Seq<SubTaskSpec>) -> bool {
    exists|i: int, j: int|
        0 <= i < j < subs.len() && trim(#[trigger] subs[i].title@).len() > 0 && trim(subs[i].title@) == trim(
            #[trigger] subs[j].title@,
        )
}

/// Whether every dependency names a subtask.
pub open spec fn deps_found(subs: Seq<SubTaskSpec>) -> bool {
    forall|i: int, k: int|
        0 <= i < subs.len() && 0 <= k < subs[i].depends_on@.len() ==> title_index(subs, #[trigger] subs[i].depends_on@[k]@) >= 0
}

/// The title errors of the first `n` subtasks: empty titles and repeated
/// ones, in order.
pub open spec fn title_errors(subs: Seq<SubTaskSpec>, n: int) -> Seq<Seq<char>>
    decreases n,
{
    if n <= 0 {
        Seq::empty()
    } else {
        let rest = title_errors(subs, n - 1);
        let t = trim(subs[n - 1].title@);
        if t.len() == 0 {
            rest.push("subtask "@ + decimal((n - 1) as nat) + " has empty title"@)
        } else if exists|j: int| 0 <= j < n - 1 && trim(#[trigger] subs[j].title@) == t {
            rest.push("duplicate subtask title: "@ + t)
        } else {
            rest
        }
    }
}

/// The missing-dependency errors of subtask `i`'s first `k` dependencies.
pub open spec fn missing_errors_of(subs: Seq<SubTaskSpec>, i: int, k: int) -> Seq<Seq<char>>
    decreases k,
{
    if k <= 0 {
        Seq::empty()
    } else {
        let rest = missing_errors_of(subs, i, k - 1);
        let d = subs[i].depends_on@[k - 1]@;
        if title_index(subs, d) < 0 {
            rest.push("subtask "@ + decimal(i as nat) + " depends on missing subtask title: "@ + d)
        } else {
            rest
        }
    }
}

/// The missing-dependency errors of the first `n` subtasks.
pub open spec fn missing_errors(subs: Seq<SubTaskSpec>, n: int) -> Seq<Seq<char>>
    decreases n,
{
    if n <= 0 {
        Seq::empty()
    } else {
        missing_errors(subs, n - 1) + missing_errors_of(subs, n - 1, subs[n - 1].depends_on@.len() as int)
    }
}

fn trimmed_titles(subs: &Vec<SubTaskSpec>) -> (res: Vec<String>)
    ensures
        res@.len() == subs@.len(),
        forall|i: int| 0 <= i < subs@.len() ==> #[trigger] res@[i]@ == trim(subs@[i].title@),
{
    let mut out: Vec<String> = Vec::new();
    let mut i: usize = 0;
    while i < subs.len()
        invariant
            i <= subs@.len(),
            out@.len() == i,
            forall|j: int| 0 <= j < i ==> #[trigger] out@[j]@ == trim(subs@[j].title@),
        decreases subs@.len() - i,
    {
        out.push(str_trim(subs[i].title.as_str()));
        i = i + 1;
    }
    out
}

proof fn lemma_title_index_from(subs: Seq<SubTaskSpec>, t: Seq<char>, i: int)
    requires
        0 <= i <= subs.len(),
    ensures
        title_index_from(subs, t, i) == -1 || (i <= title_index_from(subs, t, i) < subs.len()
            && t.len() > 0 && trim(subs[title_index_from(subs, t, i)].title@) == t
            && forall|j: int| i <= j < title_index_from(subs, t, i) ==> trim(#[trigger] subs[j].title@) != t),
        title_index_from(subs, t, i) == -1 ==> forall|j: int| i <= j < subs.len() ==> (t.len() == 0 || trim(#[trigger] subs[j].title@) != t),
    decreases subs.len() - i,
{
    if i < subs.len() {
        lemma_title_index_from(subs, t, i + 1);
    }
}

fn find_title(trimmed: &Vec<String>, subs: &Vec<SubTaskSpec>, t: &str) -> (res: Option<usize>)
    requires
        trimmed@.len() == subs@.len(),
        forall|i: int| 0 <= i < subs@.len() ==> #[trigger] trimmed@[i]@ == trim(subs@[i].title@),
    ensures
        match res {
            Some(i) => i as int == title_index(subs@, t@),
            None => title_index(subs@, t@) == -1,
        },
{
    proof {
        lemma_title_index_from(subs@, t@, 0);
    }
    if t.is_empty() {
        return None;
    }
    let mut i: usize = 0;
    while i < trimmed.len()
        invariant
            i <= trimmed@.len(),
            trimmed@.len() == subs@.len(),
            forall|j: int| 0 <= j < subs@.len() ==> #[trigger] trimmed@[j]@ == trim(subs@[j].title@),
            t@.len() > 0,
            title_index(subs@, t@) == title_index_from(subs@, t@, i as int),
        decreases trimmed@.len() - i,
    {
        if str_eq(trimmed[i].as_str(), t) {
            return Some(i);
        }
        i = i + 1;
    }
    None
}

/// Whether subtask `i` can run once the subtasks marked in `removed` are
/// done: it is not done itself and every dependency is.
pub open spec fn is_ready(subs: Seq<SubTaskSpec>, removed: Seq<bool>, i: int) -> bool {
    &&& !removed[i]
    &&& forall|k: int| 0 <= k < subs[i].depends_on@.len() ==> {
        let d = #[trigger] title_index(subs, subs[i].depends_on@[k]@);
        0 <= d < removed.len() && removed[d]
    }
}

/// The ready subtasks below `n`, ascending.
pub open spec fn ready_upto(subs: Seq<SubTaskSpec>, removed: Seq<bool>, n: int) -> Seq<usize>
    decreases n,
{
    if n <= 0 {
        Seq::empty()
    } else {
        let r = ready_upto(subs, removed, n - 1);
        if is_ready(subs, removed, n - 1) { r.push((n - 1) as usize) } else { r }
    }
}

/// How many subtasks are not done.
pub open spec fn count_left(removed: Seq<bool>) -> nat
    decreases removed.len(),
{
    if removed.len() == 0 {
        0
    } else {
        count_left(removed.drop_last()) + if removed.last() { 0nat } else { 1nat }
    }
}

/// The done marks after every ready subtask has run.
pub open spec fn after_round(subs: Seq<SubTaskSpec>, removed: Seq<bool>) -> Seq<bool> {
    Seq::new(removed.len(), |j: int| removed[j] || is_ready(subs, removed, j))
}

/// The ready list holds exactly the ready subtasks, ascending.
pub proof fn lemma_ready_upto_members(subs: Seq<SubTaskSpec>, removed: Seq<bool>, n: int)
    requires
        0 <= n <= removed.len(),
        removed.len() <= usize::MAX,
    ensures
        forall|k: int| 0 <= k < ready_upto(subs, removed, n).len() ==> {
            let j = #[trigger] ready_upto(subs, removed, n)[k];
            j < n && is_ready(subs, removed, j as int)
        },
        forall|j: int| 0 <= j < n && is_ready(subs, removed, j) ==> ready_upto(subs, removed, n).contains(j as usize),
        forall|a: int, b: int| 0 <= a < b < ready_upto(subs, removed, n).len() ==> ready_upto(subs, removed, n)[a] < ready_upto(subs, removed, n)[b],
    decreases n,
{
    if n > 0 {
        lemma_ready_upto_members(subs, removed, n - 1);
        let r = ready_upto(subs, removed, n - 1);
        if is_ready(subs, removed, n - 1) {
            assert(r.push((n - 1) as usize)[r.len() as int] == (n - 1) as usize);
            assert forall|j: int| 0 <= j < n && is_ready(subs, removed, j) implies r.push((n - 1) as usize).contains(j as usize) by {
                if j < n - 1 {
                    let k = choose|k: int| 0 <= k < r.len() && r[k] == j as usize;
                    assert(r.push((n - 1) as usize)[k] == j as usize);
                }
            }
        }
    }
}

/// Marking more subtasks done never raises the count left.
pub proof fn lemma_count_drop(a: Seq<bool>, b: Seq<bool>)
    requires
        a.len() == b.len(),
        forall|j: int| 0 <= j < a.len() && a[j] ==> b[j],
    ensures
        count_left(b) <= count_left(a),
        (exists|j: int| 0 <= j < a.len() && !a[j] && b[j]) ==> count_left(b) < count_left(a),
    decreases a.len(),
{
    if a.len() > 0 {
        lemma_count_drop(a.drop_last(), b.drop_last());
        if exists|j: int| 0 <= j < a.len() && !a[j] && b[j] {
            let j = choose|j: int| 0 <= j < a.len() && !a[j] && b[j];
            if j < a.len() - 1 {
                assert(!a.drop_last()[j] && b.drop_last()[j]);
            }
        }
    }
}

/// A round with a ready subtask leaves fewer subtasks to do.
pub proof fn lemma_round_progress(subs: Seq<SubTaskSpec>, removed: Seq<bool>)
    requires
        removed.len() <= usize::MAX,
        ready_upto(subs, removed, removed.len() as int).len() > 0,
    ensures
        count_left(after_round(subs, removed)) < count_left(removed),
{
    lemma_ready_upto_members(subs, removed, removed.len() as int);
    let j = ready_upto(subs, removed, removed.len() as int)[0] as int;
    let b = after_round(subs, removed);
    assert(!removed[j] && b[j]);
    lemma_count_drop(removed, b);
}

/// The rounds of subtasks that run together when every round runs all
/// ready subtasks; `None` when some subtasks never become ready.
pub open spec fn peel(subs: Seq<SubTaskSpec>, removed: Seq<bool>) -> Option<Seq<Seq<usize>>>
    decreases count_left(removed),
{
    if count_left(removed) == 0 || removed.len() > usize::MAX {
        Some(Seq::empty())
    } else {
        let r = ready_upto(subs, removed, removed.len() as int);
        if r.len() == 0 {
            None
        } else {
            proof {
                lemma_round_progress(subs, removed);
            }
            match peel(subs, after_round(subs, removed)) {
                Some(w) => Some(seq![r] + w),
                None => None,
            }
        }
    }
}

/// Nothing done yet.
pub open spec fn none_done(n: nat) -> Seq<bool> {
    Seq::new(n, |_j: int| false)
}

/// The rounds of a plan's subtasks from the start.
pub open spec fn plan_rounds(subs: Seq<SubTaskSpec>) -> Option<Seq<Seq<usize>>> {
    peel(subs, none_done(subs.len()))
}

/// The views of a list of index lists.
pub open spec fn index_lists(v: Seq<Vec<usize>>) -> Seq<Seq<usize>> {
    v.map_values(|x: Vec<usize>| x@)
}

fn dep_table(subs: &Vec<SubTaskSpec>, trimmed: &Vec<String>) -> (res: Vec<Vec<usize>>)
    requires
        trimmed@.len() == subs@.len(),
        forall|i: int| 0 <= i < subs@.len() ==> #[trigger] trimmed@[i]@ == trim(subs@[i].title@),
        deps_found(subs@),
    ensures
        res@.len() == subs@.len(),
        forall|i: int| 0 <= i < subs@.len() ==> (#[trigger] res@[i])@.len() == subs@[i].depends_on@.len(),
        forall|i: int, k: int| 0 <= i < subs@.len() && 0 <= k < subs@[i].depends_on@.len() ==> (#[trigger] res@[i]@[k]) as int == title_index(subs@, subs@[i].depends_on@[k]@),
{
    let mut out: Vec<Vec<usize>> = Vec::new();
    let mut i: usize = 0;
    while i < subs.len()
        invariant
            i <= subs@.len(),
            trimmed@.len() == subs@.len(),
            forall|j: int| 0 <= j < subs@.len() ==> #[trigger] trimmed@[j]@ == trim(subs@[j].title@),
            deps_found(subs@),
            out@.len() == i,
            forall|j: int| 0 <= j < i ==> (#[trigger] out@[j])@.len() == subs@[j].depends_on@.len(),
            forall|j: int, k: int| 0 <= j < i && 0 <= k < subs@[j].depends_on@.len() ==> (#[trigger] out@[j]@[k]) as int == title_index(subs@, subs@[j].depends_on@[k]@),
        decreases subs@.len() - i,
    {
        let deps = &subs[i].depends_on;
        let mut row: Vec<usize> = Vec::new();
        let mut k: usize = 0;
        while k < deps.len()
            invariant
                k <= deps@.len(),
                deps == &subs@[i as int].depends_on,
                i < subs@.len(),
                trimmed@.len() == subs@.len(),
                forall|j: int| 0 <= j < subs@.len() ==> #[trigger] trimmed@[j]@ == trim(subs@[j].title@),
                deps_found(subs@),
                row@.len() == k,
                forall|m: int| 0 <= m < k ==> (#[trigger] row@[m]) as int == title_index(subs@, deps@[m]@),
            decreases deps@.len() - k,
        {
            assert(title_index(subs@, subs@[i as int].depends_on@[k as int]@) >= 0);
            match find_title(trimmed, subs, deps[k].as_str()) {
                Some(d) => row.push(d),
                None => {
                    assert(false);
                    row.push(0);
                },
            }
            k = k + 1;
        }
        out.push(row);
        i = i + 1;
    }
    out
}

/// What the dependency table holds: for each subtask, the index of each of
/// its dependencies.
pub open spec fn dep_table_of(subs: Seq<SubTaskSpec>, deps: Seq<Vec<usize>>) -> bool {
    &&& deps.len() == subs.len()
    &&& forall|i: int| 0 <= i < subs.len() ==> (#[trigger] deps[i])@.len() == subs[i].depends_on@.len()
    &&& forall|i: int, k: int| 0 <= i < subs.len() && 0 <= k < subs[i].depends_on@.len() ==> (#[trigger] deps[i]@[k]) as int == title_index(subs, subs[i].depends_on@[k]@)
}

proof fn lemma_found_in_range(subs: Seq<SubTaskSpec>, t: Seq<char>)
    requires
        title_index(subs, t) >= 0,
    ensures
        title_index(subs, t) < subs.len(),
{
    lemma_title_index_from(subs, t, 0);
}

fn ready_now(subs: &Vec<SubTaskSpec>, deps: &Vec<Vec<usize>>, removed: &Vec<bool>) -> (res: Vec<usize>)
    requires
        dep_table_of(subs@, deps@),
        deps_found(subs@),
        removed@.len() == subs@.len(),
    ensures
        res@ == ready_upto(subs@, removed@, removed@.len() as int),
{
    let n = removed.len();
    let mut out: Vec<usize> = Vec::new();
    let mut i: usize = 0;
    while i < n
        invariant
            n == removed@.len(),
            i <= n,
            dep_table_of(subs@, deps@),
            deps_found(subs@),
            removed@.len() == subs@.len(),
            out@ == ready_upto(subs@, removed@, i as int),
        decreases n - i,
    {
        let mut ok = !removed[i];
        let row = &deps[i];
        let mut k: usize = 0;
        while k < row.len()
            invariant
                row == &deps@[i as int],
                i < n,
                n == removed@.len(),
                k <= row@.len(),
                dep_table_of(subs@, deps@),
                deps_found(subs@),
                removed@.len() == subs@.len(),
                ok == (!removed@[i as int] && forall|m: int| 0 <= m < k ==> {
                    let d = #[trigger] title_index(subs@, subs@[i as int].depends_on@[m]@);
                    0 <= d < removed@.len() && removed@[d]
                }),
            decreases row@.len() - k,
        {
            let d = row[k];
            proof {
                assert(title_index(subs@, subs@[i as int].depends_on@[k as int]@) >= 0);
                lemma_found_in_range(subs@, subs@[i as int].depends_on@[k as int]@);
            }
            if !removed[d] {
                ok = false;
            }
            k = k + 1;
        }
        if ok {
            out.push(i);
        }
        i = i + 1;
    }
    out
}

fn count_undone(removed: &Vec<bool>) -> (res: usize)
    ensures
        res == count_left(removed@),
{
    let mut c: usize = 0;
    let mut i: usize = 0;
    while i < removed.len()
        invariant
            i <= removed@.len(),
            c == count_left(removed@.take(i as int)),
            c <= i,
        decreases removed@.len() - i,
    {
        assert(removed@.take(i + 1).drop_last() =~= removed@.take(i as int));
        if !removed[i] {
            c = c + 1;
        }
        i = i + 1;
    }
    assert(removed@.take(removed@.len() as int) =~= removed@);
    c
}

fn peel_rounds(subs: &Vec<SubTaskSpec>, deps: &Vec<Vec<usize>>) -> (res: Option<Vec<Vec<usize>>>)
    requires
        dep_table_of(subs@, deps@),
        deps_found(subs@),
    ensures
        match res {
            Some(r) => plan_rounds(subs@) == Some(index_lists(r@)),
            None => plan_rounds(subs@) is None,
        },
{
    let n = subs.len();
    let mut removed: Vec<bool> = Vec::new();
    let mut i: usize = 0;
    while i < n
        invariant
            i <= n,
            n == subs@.len(),
            removed@ == none_done(i as nat),
        decreases n - i,
    {
        removed.push(false);
        assert(removed@ =~= none_done((i + 1) as nat));
        i = i + 1;
    }
    let mut rounds: Vec<Vec<usize>> = Vec::new();
    let mut left = count_undone(&removed);
    assert(index_lists(rounds@) =~= Seq::<Seq<usize>>::empty());
    assert(Seq::<Seq<usize>>::empty() + Seq::<Seq<usize>>::empty() =~= Seq::<Seq<usize>>::empty());
    while left > 0
        invariant
            n == subs@.len(),
            removed@.len() == n,
            dep_table_of(subs@, deps@),
            deps_found(subs@),
            left == count_left(removed@),
            plan_rounds(subs@) == match peel(subs@, removed@) {
                Some(w) => Some(index_lists(rounds@) + w),
                None => None,
            },
        decreases count_left(removed@),
    {
        let r = ready_now(subs, deps, &removed);
        if r.len() == 0 {
            return None;
        }
        proof {
            lemma_ready_upto_members(subs@, removed@, n as int);
            lemma_round_progress(subs@, removed@);
        }
        let ghost old_removed = removed@;
        let mut k: usize = 0;
        while k < r.len()
            invariant
                k <= r@.len(),
                removed@.len() == old_removed.len(),
                r@ == ready_upto(subs@, old_removed, old_removed.len() as int),
                old_removed.len() == n,
                forall|m: int| 0 <= m < r@.len() ==> #[trigger] r@[m] < n,
                forall|j: int| 0 <= j < n ==> #[trigger] removed@[j] == (old_removed[j] || exists|m: int| 0 <= m < k && #[trigger] r@[m] == j as usize),
            decreases r@.len() - k,
        {
            let j = r[k];
            removed.set(j, true);
            assert forall|x: int| 0 <= x < n implies #[trigger] removed@[x] == (old_removed[x] || exists|m: int| 0 <= m < k + 1 && #[trigger] r@[m] == x as usize) by {
                if x == j as int {
                    assert(r@[k as int] == x as usize);
                }
            }
            k = k + 1;
        }
        assert(removed@ =~= after_round(subs@, old_removed)) by {
            assert forall|j: int| 0 <= j < n implies #[trigger] removed@[j] == after_round(subs@, old_removed)[j] by {
                if exists|m: int| 0 <= m < r@.len() && #[trigger] r@[m] == j as usize {
                    let m = choose|m: int| 0 <= m < r@.len() && #[trigger] r@[m] == j as usize;
                    assert(is_ready(subs@, old_removed, r@[m] as int));
                }
                if is_ready(subs@, old_removed, j) {
                    assert(r@.contains(j as usize));
                }
            }
        }
        let ghost prev_lists = index_lists(rounds@);
        rounds.push(r);
        assert(index_lists(rounds@) =~= prev_lists.push(r@));
        proof {
            match peel(subs@, removed@) {
                Some(w) => {
                    assert(prev_lists + (seq![r@] + w) =~= prev_lists.push(r@) + w);
                },
                None => {},
            }
        }
        left = count_undone(&removed);
    }
    assert(index_lists(rounds@) + Seq::<Seq<usize>>::empty() =~= index_lists(rounds@));
    Some(rounds)
}

/// Every problem of a plan, in order: title errors, missing dependencies,
/// then a cycle, looked for only when titles are unique and every
/// dependency is found.
pub open spec fn validation_errors(subs: Seq<SubTaskSpec>) -> Seq<Seq<char>> {
    title_errors(subs, subs.len() as int) + missing_errors(subs, subs.len() as int) + (if !has_duplicate_title(subs)
        && deps_found(subs) && plan_rounds(subs) is None {
        seq!["cyclic dependencies detected"@]
    } else {
        Seq::empty()
    })
}

proof fn lemma_missing_errors_of_empty(subs: Seq<SubTaskSpec>, i: int, k: int)
    requires
        0 <= i < subs.len(),
        0 <= k <= subs[i].depends_on@.len(),
        forall|m: int| 0 <= m < k ==> title_index(subs, #[trigger] subs[i].depends_on@[m]@) >= 0,
    ensures
        missing_errors_of(subs, i, k).len() == 0,
    decreases k,
{
    if k > 0 {
        lemma_missing_errors_of_empty(subs, i, k - 1);
    }
}

impl DelegationPlan {
    /// Checks the plan: every title nonempty and unique, every dependency a
    /// title, no cycle. Returns every error found.
    pub fn validate(&self) -> (res: Result<(), Vec<String>>)
        ensures
            match res {
                Ok(()) => validation_errors(self.subtasks@).len() == 0,
                Err(e) => e.deep_view() == validation_errors(self.subtasks@) && e@.len() > 0,
            },
    {
        let subs = &self.subtasks;
        let n = subs.len();
        let trimmed = trimmed_titles(subs);
        let mut errors: Vec<String> = Vec::new();
        let mut had_dup = false;
        let mut i: usize = 0;
        while i < n
            invariant
                n == subs@.len(),
                subs == &self.subtasks,
                i <= n,
                trimmed@.len() == n,
                forall|j: int| 0 <= j < n ==> #[trigger] trimmed@[j]@ == trim(subs@[j].title@),
                errors.deep_view() == title_errors(subs@, i as int),
                had_dup == exists|a: int, b: int|
                    0 <= a < b < i && trim(#[trigger] subs@[a].title@).len() > 0 && trim(subs@[a].title@) == trim(#[trigger] subs@[b].title@),
            decreases n - i,
        {
            let t = &trimmed[i];
            if t.as_str().is_empty() {
                let mut e = String::from_str("subtask ");
                push_decimal(&mut e, i as u64);
                e.append(" has empty title");
                errors.push(e);
                assert forall|a: int, b: int| 0 <= a < b < i + 1 && trim(#[trigger] subs@[a].title@).len() > 0 && trim(subs@[a].title@) == trim(#[trigger] subs@[b].title@) implies b < i by {}
            } else {
                let mut seen = false;
                let mut j: usize = 0;
                while j < i
                    invariant
                        j <= i,
                        i < n,
                        n == subs@.len(),
                        trimmed@.len() == n,
                        forall|x: int| 0 <= x < n ==> #[trigger] trimmed@[x]@ == trim(subs@[x].title@),
                        t == &trimmed@[i as int],
                        seen == exists|x: int| 0 <= x < j && #[trigger] trim(subs@[x].title@) == t@,
                    decreases i - j,
                {
                    if str_eq(trimmed[j].as_str(), t.as_str()) {
                        seen = true;
                    }
                    j = j + 1;
                }
                if seen {
                    let mut e = String::from_str("duplicate subtask title: ");
                    e.append(t.as_str());
                    errors.push(e);
                    had_dup = true;
                    proof {
                        let x = choose|x: int| 0 <= x < i && #[trigger] trim(subs@[x].title@) == t@;
                        assert(0 <= x < i + 1 && trim(subs@[x].title@).len() > 0 && trim(subs@[x].title@) == trim(subs@[i as int].title@));
                    }
                } else {
                    assert forall|a: int, b: int| 0 <= a < b < i + 1 && trim(#[trigger] subs@[a].title@).len() > 0 && trim(subs@[a].title@) == trim(#[trigger] subs@[b].title@) implies b < i by {
                        if b == i {
                            assert(trim(subs@[a].title@) == t@);
                        }
                    }
                }
            }
            assert(errors.deep_view() =~= title_errors(subs@, i + 1));
            i = i + 1;
        }
        let mut all_found = true;
        let mut i: usize = 0;
        while i < n
            invariant
                n == subs@.len(),
                subs == &self.subtasks,
                i <= n,
                trimmed@.len() == n,
                forall|j: int| 0 <= j < n ==> #[trigger] trimmed@[j]@ == trim(subs@[j].title@),
                errors.deep_view() == title_errors(subs@, n as int) + missing_errors(subs@, i as int),
                all_found == forall|a: int, k: int| 0 <= a < i && 0 <= k < subs@[a].depends_on@.len() ==> title_index(subs@, #[trigger] subs@[a].depends_on@[k]@) >= 0,
            decreases n - i,
        {
            let deps = &subs[i].depends_on;
            let ghost before = errors.deep_view();
            let mut row_found = true;
            let mut k: usize = 0;
            while k < deps.len()
                invariant
                    i < n,
                    n == subs@.len(),
                    deps == &subs@[i as int].depends_on,
                    k <= deps@.len(),
                    trimmed@.len() == n,
                    forall|j: int| 0 <= j < n ==> #[trigger] trimmed@[j]@ == trim(subs@[j].title@),
                    errors.deep_view() == before + missing_errors_of(subs@, i as int, k as int),
                    row_found == forall|m: int| 0 <= m < k ==> title_index(subs@, #[trigger] subs@[i as int].depends_on@[m]@) >= 0,
                decreases deps@.len() - k,
            {
                let ghost prev = errors.deep_view();
                assert(deps@[k as int] == subs@[i as int].depends_on@[k as int]);
                match find_title(&trimmed, subs, deps[k].as_str()) {
                    Some(_) => {
                        assert(missing_errors_of(subs@, i as int, k + 1) == missing_errors_of(subs@, i as int, k as int));
                    },
                    None => {
                        let mut e = String::from_str("subtask ");
                        push_decimal(&mut e, i as u64);
                        e.append(" depends on missing subtask title: ");
                        e.append(deps[k].as_str());
                        errors.push(e);
                        assert(errors.deep_view() =~= prev.push(e@));
                        row_found = false;
                    },
                }
                assert(errors.deep_view() =~= before + missing_errors_of(subs@, i as int, k + 1));
                k = k + 1;
            }
            if !row_found {
                all_found = false;
            }
            assert(errors.deep_view() =~= title_errors(subs@, n as int) + missing_errors(subs@, i + 1));
            i = i + 1;
        }
        let ghost before_cycle = errors.deep_view();
        if !had_dup && all_found {
            let deps = dep_table(subs, &trimmed);
            match peel_rounds(subs, &deps) {
                Some(_) => {},
                None => {
                    errors.push(String::from_str("cyclic dependencies detected"));
                },
            }
        }
        assert(errors.deep_view() =~= validation_errors(subs@));
        if errors.len() == 0 {
            Ok(())
        } else {
            Err(errors)
        }
    }
}

/// `r` cut into consecutive pieces of `size`, the last one shorter.
pub open spec fn chunks(r: Seq<usize>, size: nat) -> Seq<Seq<usize>>
    decreases r.len(),
{
    if r.len() == 0 || size == 0 {
        Seq::empty()
    } else if r.len() <= size {
        seq![r]
    } else {
        seq![r.take(size as int)] + chunks(r.skip(size as int), size)
    }
}

/// The waves of a list of rounds: each round cut into pieces of `size`.
pub open spec fn waves(rounds: Seq<Seq<usize>>, size: nat) -> Seq<Seq<usize>>
    decreases rounds.len(),
{
    if rounds.len() == 0 {
        Seq::empty()
    } else {
        waves(rounds.drop_last(), size) + chunks(rounds.last(), size)
    }
}

/// How many subtasks a wave holds: one when sequential, else the parallel
/// limit (at least one).
pub open spec fn wave_size(plan: DelegationPlan) -> nat {
    match plan.strategy {
        DelegationStrategy::Sequential => 1,
        _ => if plan.max_parallel == 0 { 1 } else { plan.max_parallel as nat },
    }
}

/// The waves in which a plan's subtasks run, or why there are none.
pub open spec fn execution_order_of(plan: DelegationPlan) -> Result<Seq<Seq<usize>>, Seq<char>> {
    let errs = validation_errors(plan.subtasks@);
    if errs.len() > 0 {
        Err(join(errs, "; "@))
    } else {
        match plan_rounds(plan.subtasks@) {
            Some(r) => Ok(waves(r, wave_size(plan))),
            None => Err("cyclic dependencies detected"@),
        }
    }
}

fn push_chunks(out: &mut Vec<Vec<usize>>, r: &Vec<usize>, size: usize)
    requires
        size > 0,
    ensures
        index_lists(final(out)@) == index_lists(old(out)@) + chunks(r@, size as nat),
{
    let mut start: usize = 0;
    assert(r@.skip(0) =~= r@);
    assert(index_lists(out@) + chunks(r@.skip(0), size as nat) =~= index_lists(old(out)@) + chunks(r@, size as nat));
    while start < r.len()
        invariant
            size > 0,
            start <= r@.len(),
            index_lists(out@) + chunks(r@.skip(start as int), size as nat) == index_lists(old(out)@) + chunks(r@, size as nat),
        decreases r@.len() - start,
    {
        let rest = r.len() - start;
        let end = if rest <= size { r.len() } else { start + size };
        let mut piece: Vec<usize> = Vec::new();
        let mut j = start;
        while j < end
            invariant
                start <= j <= end <= r@.len(),
                piece@ == r@.subrange(start as int, j as int),
            decreases end - j,
        {
            piece.push(r[j]);
            assert(piece@ =~= r@.subrange(start as int, j + 1));
            j = j + 1;
        }
        let ghost tail = r@.skip(start as int);
        let ghost prev = index_lists(out@);
        out.push(piece);
        assert(index_lists(out@) =~= prev.push(r@.subrange(start as int, end as int)));
        if rest <= size {
            assert(tail =~= r@.subrange(start as int, end as int));
            assert(r@.skip(end as int).len() == 0);
            assert(chunks(r@.skip(end as int), size as nat) =~= Seq::<Seq<usize>>::empty());
            assert(index_lists(out@) + chunks(r@.skip(end as int), size as nat) =~= prev + chunks(tail, size as nat));
        } else {
            assert(tail.take(size as int) =~= r@.subrange(start as int, end as int));
            assert(tail.skip(size as int) =~= r@.skip(end as int));
            assert(index_lists(out@) + chunks(r@.skip(end as int), size as nat) =~= prev + chunks(tail, size as nat));
        }
        start = end;
    }
}

proof fn lemma_missing_of_mono(subs: Seq<SubTaskSpec>, i: int, k1: int, k2: int)
    requires
        0 <= k1 <= k2,
    ensures
        missing_errors_of(subs, i, k1).len() <= missing_errors_of(subs, i, k2).len(),
    decreases k2,
{
    if k1 < k2 {
        lemma_missing_of_mono(subs, i, k1, k2 - 1);
    }
}

proof fn lemma_missing_mono(subs: Seq<SubTaskSpec>, m1: int, m2: int)
    requires
        0 <= m1 <= m2,
    ensures
        missing_errors(subs, m1).len() <= missing_errors(subs, m2).len(),
    decreases m2,
{
    if m1 < m2 {
        lemma_missing_mono(subs, m1, m2 - 1);
    }
}

proof fn lemma_missing_in_errors(subs: Seq<SubTaskSpec>, i: int, k: int)
    requires
        0 <= i < subs.len(),
        0 <= k < subs[i].depends_on@.len(),
        validation_errors(subs).len() == 0,
    ensures
        title_index(subs, subs[i].depends_on@[k]@) >= 0,
{
    let kk = subs[i].depends_on@.len() as int;
    lemma_missing_of_mono(subs, i, k + 1, kk);
    lemma_missing_mono(subs, i + 1, subs.len() as int);
    assert(missing_errors(subs, i + 1).len() >= missing_errors_of(subs, i, kk).len());
}

proof fn lemma_no_title_errors(subs: Seq<SubTaskSpec>, n: int)
    requires
        0 <= n <= subs.len(),
        title_errors(subs, n).len() == 0,
    ensures
        forall|i: int, j: int|
            0 <= i < j < n ==> !(trim(#[trigger] subs[i].title@).len() > 0 && trim(subs[i].title@) == trim(#[trigger] subs[j].title@)),
    decreases n,
{
    if n > 0 {
        lemma_no_title_errors(subs, n - 1);
        assert forall|i: int, j: int| 0 <= i < j < n implies !(trim(#[trigger] subs[i].title@).len() > 0 && trim(subs[i].title@) == trim(
            #[trigger] subs[j].title@,
        )) by {
            if j == n - 1 && trim(subs[i].title@).len() > 0 && trim(subs[i].title@) == trim(subs[j].title@) {
                assert(trim(subs[i].title@) == trim(subs[n - 1].title@));
                assert(exists|jj: int| 0 <= jj < n - 1 && trim(#[trigger] subs[jj].title@) == trim(subs[n - 1].title@));
                assert(title_errors(subs, n).len() > 0);
            }
        }
    }
}

/// A plan gets an order of execution exactly when it has no validation
/// errors: a valid plan never fails with cyclic dependencies.
pub proof fn lemma_valid_plan_has_order(plan: DelegationPlan)
    ensures
        execution_order_of(plan) is Ok <==> validation_errors(plan.subtasks@).len() == 0,
{
    let subs = plan.subtasks@;
    if validation_errors(subs).len() == 0 {
        lemma_no_title_errors(subs, subs.len() as int);
        assert(!has_duplicate_title(subs));
        assert forall|i: int, k: int| 0 <= i < subs.len() && 0 <= k < subs[i].depends_on@.len() implies title_index(
            subs,
            #[trigger] subs[i].depends_on@[k]@,
        ) >= 0 by {
            lemma_missing_in_errors(subs, i, k);
        }
        assert(deps_found(subs));
        assert(plan_rounds(subs) is Some);
    }
}

impl DelegationPlan {
    /// The waves in which the subtasks run: rounds of every subtask whose
    /// dependencies are done, in index order, each round cut by the wave
    /// size. Fails with the validation errors, joined by "; ".
    pub fn execution_order(&self) -> (res: Result<Vec<Vec<usize>>, String>)
        ensures
            match res {
                Ok(w) => execution_order_of(*self) == Ok::<Seq<Seq<usize>>, Seq<char>>(index_lists(w@)),
                Err(e) => execution_order_of(*self) == Err::<Seq<Seq<usize>>, Seq<char>>(e@),
            },
    {
        match self.validate() {
            Err(errors) => {
                let msg = join_strings(&errors, "; ");
                return Err(msg);
            },
            Ok(()) => {},
        }
        let subs = &self.subtasks;
        let trimmed = trimmed_titles(subs);
        assert(deps_found(subs@)) by {
            assert forall|i: int, k: int| 0 <= i < subs@.len() && 0 <= k < subs@[i].depends_on@.len() implies title_index(subs@, #[trigger] subs@[i].depends_on@[k]@) >= 0 by {
                lemma_missing_in_errors(subs@, i, k);
            }
        }
        let deps = dep_table(subs, &trimmed);
        let rounds = match peel_rounds(subs, &deps) {
            Some(r) => r,
            None => {
                return Err(String::from_str("cyclic dependencies detected"));
            },
        };
        let size: usize = match self.strategy {
            DelegationStrategy::Sequential => 1,
            _ => if self.max_parallel == 0 { 1 } else { self.max_parallel },
        };
        let mut out: Vec<Vec<usize>> = Vec::new();
        let mut i: usize = 0;
        assert(index_lists(out@) =~= waves(index_lists(rounds@).take(0), size as nat));
        while i < rounds.len()
            invariant
                size > 0,
                size as nat == wave_size(*self),
                i <= rounds@.len(),
                index_lists(out@) == waves(index_lists(rounds@).take(i as int), size as nat),
            decreases rounds@.len() - i,
        {
            assert(index_lists(rounds@).take(i + 1).drop_last() =~= index_lists(rounds@).take(i as int));
            push_chunks(&mut out, &rounds[i], size);
            i = i + 1;
        }
        assert(index_lists(rounds@).take(rounds@.len() as int) =~= index_lists(rounds@));
        Ok(out)
    }
}

/// `true` or `false`.
pub open spec fn bool_text(b: bool) -> Seq<char> {
    if b { "true"@ } else { "false"@ }
}

fn push_bool(out: &mut String, b: bool)
    ensures
        final(out)@ == old(out)@ + bool_text(b),
{
    if b {
        out.append("true");
    } else {
        out.append("false");
    }
}

/// The dependency list of a subtask for the summary.
pub open spec fn deps_text(s: SubTaskSpec) -> Seq<char> {
    if s.depends_on@.len() == 0 { "none"@ } else { join(s.depends_on.deep_view(), ", "@) }
}

/// The summary lines of the subtasks, from index 0.
pub open spec fn summary_lines(subs: Seq<SubTaskSpec>) -> Seq<char>
    decreases subs.len(),
{
    if subs.len() == 0 {
        Seq::empty()
    } else {
        summary_lines(subs.drop_last()) + summary_line((subs.len() - 1) as nat, subs.last())
    }
}

/// The one-paragraph description of a plan.
pub open spec fn summary_text(p: DelegationPlan) -> Seq<char> {
    "Delegation plan for "@ + p.parent_task_id@ + ": "@ + decimal(p.subtasks@.len()) + " subtask(s), strategy="@
        + strategy_name(p.strategy) + ", max_parallel="@ + decimal(p.max_parallel as nat) + ", fail_fast="@
        + bool_text(p.fail_fast) + (match p.timeout_secs {
        Some(t) => ", timeout="@ + decimal(t as nat) + "s"@,
        None => Seq::empty(),
    }) + summary_lines(p.subtasks@)
}

/// The summary line of subtask `i`.
pub open spec fn summary_line(i: nat, s: SubTaskSpec) -> Seq<char> {
    "\n"@ + decimal(i) + ": "@ + s.title@ + " (deps: "@ + deps_text(s) + ")"@
}

fn push_summary_line(out: &mut String, i: usize, s: &SubTaskSpec)
    ensures
        final(out)@ == old(out)@ + summary_line(i as nat, *s),
{
    out.append("\n");
    push_decimal(out, i as u64);
    out.append(": ");
    out.append(s.title.as_str());
    out.append(" (deps: ");
    if s.depends_on.len() == 0 {
        out.append("none");
    } else {
        let d = join_strings(&s.depends_on, ", ");
        out.append(d.as_str());
    }
    out.append(")");
}

impl DelegationPlan {
    /// Describes the plan: parent, counts, settings, then one line per
    /// subtask with its dependencies.
    pub fn summary(&self) -> (res: String)
        ensures
            res@ == summary_text(*self),
    {
        let mut out = String::from_str("Delegation plan for ");
        out.append(self.parent_task_id.as_str());
        out.append(": ");
        push_decimal(&mut out, self.subtasks.len() as u64);
        out.append(" subtask(s), strategy=");
        out.append(self.strategy.as_str());
        out.append(", max_parallel=");
        push_decimal(&mut out, self.max_parallel as u64);
        out.append(", fail_fast=");
        push_bool(&mut out, self.fail_fast);
        if let Some(t) = self.timeout_secs {
            out.append(", timeout=");
            push_decimal(&mut out, t);
            out.append("s");
        }
        let subs = &self.subtasks;
        let ghost start = out@;
        let mut i: usize = 0;
        while i < subs.len()
            invariant
                i <= subs@.len(),
                out@ == start + summary_lines(subs@.take(i as int)),
            decreases subs@.len() - i,
        {
            assert(subs@.take(i + 1).drop_last() =~= subs@.take(i as int));
            push_summary_line(&mut out, i, &subs[i]);
            i = i + 1;
        }
        assert(subs@.take(subs@.len() as int) =~= subs@);
        out
    }
}

/// A labelled line with `text`, or nothing when `text` is empty.
pub open spec fn text_line(label: Seq<char>, text: Seq<char>) -> Seq<char> {
    if text.len() > 0 { label + text + "\n"@ } else { Seq::empty() }
}

/// A labelled line with the items joined by commas, or nothing for none.
pub open spec fn list_line(label: Seq<char>, items: Seq<Seq<char>>) -> Seq<char> {
    if items.len() > 0 { label + join(items, ", "@) + "\n"@ } else { Seq::empty() }
}

/// A labelled line with the value, or nothing without one.
pub open spec fn opt_line(label: Seq<char>, v: Option<String>) -> Seq<char> {
    match v {
        Some(x) => label + x@ + "\n"@,
        None => Seq::empty(),
    }
}

/// The title, description, dependency and file lines of a subtask's prompt.
pub open spec fn prompt_subtask_head(n: nat, s: SubTaskSpec) -> Seq<char> {
    decimal(n) + ". "@ + s.title@ + "\n"@ + text_line("   - Description: "@, s.description@)
        + list_line("   - Depends On: "@, s.depends_on.deep_view()) + list_line("   - Files: "@, s.files.deep_view())
}

/// The model, priority and verify lines of a subtask's prompt.
pub open spec fn prompt_subtask_opts(s: SubTaskSpec) -> Seq<char> {
    opt_line("   - Model: "@, s.model) + opt_line("   - Priority: "@, s.priority) + opt_line("   - Verify: "@, s.verify_command)
}

/// The prompt lines of one subtask, numbered from 1.
pub open spec fn prompt_subtask(n: nat, s: SubTaskSpec) -> Seq<char> {
    prompt_subtask_head(n, s) + prompt_subtask_opts(s)
}

/// The prompt lines of the subtasks.
pub open spec fn prompt_subtasks(subs: Seq<SubTaskSpec>) -> Seq<char>
    decreases subs.len(),
{
    if subs.len() == 0 {
        Seq::empty()
    } else {
        prompt_subtasks(subs.drop_last()) + prompt_subtask(subs.len(), subs.last())
    }
}

/// The delegation prompt of a plan, before trailing whitespace is cut.
pub open spec fn prompt_body(p: DelegationPlan) -> Seq<char> {
    "Delegation Plan\nParent Task: "@ + p.parent_task_id@ + "\nStrategy: "@ + strategy_name(p.strategy)
        + "\nMax Parallel: "@ + decimal(p.max_parallel as nat) + "\nFail Fast: "@ + bool_text(p.fail_fast) + "\n"@
        + (match p.timeout_secs { Some(t) => "Timeout: "@ + decimal(t as nat) + "s\n"@, None => Seq::empty() })
        + "Subtasks:\n"@ + prompt_subtasks(p.subtasks@)
}

fn push_text_line(out: &mut String, label: &str, text: &str)
    ensures
        final(out)@ == old(out)@ + text_line(label@, text@),
{
    if !text.is_empty() {
        out.append(label);
        out.append(text);
        out.append("\n");
    }
}

fn push_list_line(out: &mut String, label: &str, items: &Vec<String>)
    ensures
        final(out)@ == old(out)@ + list_line(label@, items.deep_view()),
{
    if items.len() > 0 {
        out.append(label);
        let d = join_strings(items, ", ");
        out.append(d.as_str());
        out.append("\n");
    }
}

fn push_opt_line(out: &mut String, label: &str, v: &Option<String>)
    ensures
        final(out)@ == old(out)@ + opt_line(label@, *v),
{
    if let Some(x) = v {
        out.append(label);
        out.append(x.as_str());
        out.append("\n");
    }
}

fn push_subtask_head(out: &mut String, n: usize, s: &SubTaskSpec)
    ensures
        final(out)@ == old(out)@ + prompt_subtask_head(n as nat, *s),
{
    push_decimal(out, n as u64);
    out.append(". ");
    out.append(s.title.as_str());
    out.append("\n");
    push_text_line(out, "   - Description: ", s.description.as_str());
    push_list_line(out, "   - Depends On: ", &s.depends_on);
    push_list_line(out, "   - Files: ", &s.files);
}

fn push_subtask_opts(out: &mut String, s: &SubTaskSpec)
    ensures
        final(out)@ == old(out)@ + prompt_subtask_opts(*s),
{
    push_opt_line(out, "   - Model: ", &s.model);
    push_opt_line(out, "   - Priority: ", &s.priority);
    push_opt_line(out, "   - Verify: ", &s.verify_command);
}

/// The prompt that hands a plan to an agent: its settings, then each
/// subtask with its details; trailing whitespace removed.
pub fn format_delegation_prompt(plan: &DelegationPlan) -> (res: String)
    ensures
        res@ == trim_end(prompt_body(*plan)),
{
    let mut out = String::from_str("Delegation Plan\nParent Task: ");
    out.append(plan.parent_task_id.as_str());
    out.append("\nStrategy: ");
    out.append(plan.strategy.as_str());
    out.append("\nMax Parallel: ");
    push_decimal(&mut out, plan.max_parallel as u64);
    out.append("\nFail Fast: ");
    push_bool(&mut out, plan.fail_fast);
    out.append("\n");
    if let Some(t) = plan.timeout_secs {
        out.append("Timeout: ");
        push_decimal(&mut out, t);
        out.append("s\n");
    }
    out.append("Subtasks:\n");
    let subs = &plan.subtasks;
    let ghost start = out@;
    let mut i: usize = 0;
    while i < subs.len()
        invariant
            i <= subs@.len(),
            out@ == start + prompt_subtasks(subs@.take(i as int)),
        decreases subs@.len() - i,
    {
        assert(subs@.take(i + 1).drop_last() =~= subs@.take(i as int));
        push_subtask_head(&mut out, i + 1, &subs[i]);
        push_subtask_opts(&mut out, &subs[i]);
        i = i + 1;
    }
    assert(subs@.take(subs@.len() as int) =~= subs@);
    assert(out@ =~= prompt_body(*plan));
    str_trim_end(out.as_str())
}

/// Where a subtask stands.
#[derive(Debug, Clone, PartialEq, Eq)]
pub enum SubTaskStatus {
    Pending,
    Running,
    Completed,
    Failed(String),
    Skipped,
}

/// Progress of a plan's subtasks.
#[derive(Debug, Clone)]
pub struct DelegationTracker {
    pub plan: DelegationPlan,
    /// The status of each subtask, by index.
    pub statuses: Vec<SubTaskStatus>,
    /// The task running each subtask, by index, once started.
    pub task_id_mapping: Vec<Option<String>>,
    /// When the first subtask started, in nanoseconds since the Unix epoch.
    pub started_at: Option<i64>,
    /// When the last subtask finished, in nanoseconds since the Unix epoch.
    pub completed_at: Option<i64>,
}

/// Whether a status still needs work.
pub open spec fn is_open(s: SubTaskStatus) -> bool {
    s is Pending || s is Running
}

/// The index of the last subtask titled exactly `t`, or -1.
pub open spec fn last_title_index(subs: Seq<SubTaskSpec>, t: Seq<char>, n: int) -> int
    decreases n,
{
    if n <= 0 {
        -1
    } else if subs[n - 1].title@ == t {
        n - 1
    } else {
        last_title_index(subs, t, n - 1)
    }
}

impl DelegationTracker {
    /// One status and one task slot per subtask.
    pub open spec fn wf(&self) -> bool {
        &&& self.statuses@.len() == self.plan.subtasks@.len()
        &&& self.task_id_mapping@.len() == self.plan.subtasks@.len()
    }

    /// Whether no subtask is pending or running.
    pub open spec fn complete_spec(&self) -> bool {
        forall|i: int| 0 <= i < self.statuses@.len() ==> !is_open(#[trigger] self.statuses@[i])
    }

    /// Whether some subtask failed.
    pub open spec fn failed_spec(&self) -> bool {
        exists|i: int| 0 <= i < self.statuses@.len() && #[trigger] self.statuses@[i] is Failed
    }

    /// Whether subtask `i` may start: pending, not assigned, and every
    /// dependency (by exact title, the last subtask with it) completed.
    pub open spec fn runnable_spec(&self, i: int) -> bool {
        let subs = self.plan.subtasks@;
        &&& self.statuses@[i] is Pending
        &&& self.task_id_mapping@[i] is None
        &&& forall|k: int| 0 <= k < subs[i].depends_on@.len() ==> {
            let d = #[trigger] last_title_index(subs, subs[i].depends_on@[k]@, subs.len() as int);
            0 <= d < self.statuses@.len() && self.statuses@[d] is Completed
        }
    }

    /// Tracks `plan` with every subtask pending.
    pub fn new(plan: DelegationPlan) -> (res: Self)
        ensures
            res.wf(),
            res.plan == plan,
            forall|i: int| 0 <= i < res.statuses@.len() ==> #[trigger] res.statuses@[i] == SubTaskStatus::Pending,
            forall|i: int| 0 <= i < res.task_id_mapping@.len() ==> #[trigger] res.task_id_mapping@[i] is None,
            res.started_at is None,
            res.completed_at is None,
    {
        let n = plan.subtasks.len();
        let mut statuses: Vec<SubTaskStatus> = Vec::new();
        let mut ids: Vec<Option<String>> = Vec::new();
        let mut i: usize = 0;
        while i < n
            invariant
                i <= n,
                statuses@.len() == i,
                ids@.len() == i,
                forall|j: int| 0 <= j < i ==> #[trigger] statuses@[j] == SubTaskStatus::Pending,
                forall|j: int| 0 <= j < i ==> #[trigger] ids@[j] is None,
            decreases n - i,
        {
            statuses.push(SubTaskStatus::Pending);
            ids.push(None);
            i = i + 1;
        }
        DelegationTracker { plan, statuses, task_id_mapping: ids, started_at: None, completed_at: None }
    }

    /// Whether every subtask is completed, failed or skipped.
    pub fn is_complete(&self) -> (res: bool)
        ensures
            res == self.complete_spec(),
    {
        let mut i: usize = 0;
        while i < self.statuses.len()
            invariant
                i <= self.statuses@.len(),
                forall|j: int| 0 <= j < i ==> !is_open(#[trigger] self.statuses@[j]),
            decreases self.statuses@.len() - i,
        {
            match &self.statuses[i] {
                SubTaskStatus::Pending => { return false; },
                SubTaskStatus::Running => { return false; },
                _ => {},
            }
            i = i + 1;
        }
        true
    }

    /// Whether some subtask failed.
    pub fn is_failed(&self) -> (res: bool)
        ensures
            res == self.failed_spec(),
    {
        let mut i: usize = 0;
        while i < self.statuses.len()
            invariant
                i <= self.statuses@.len(),
                forall|j: int| 0 <= j < i ==> !(#[trigger] self.statuses@[j] is Failed),
            decreases self.statuses@.len() - i,
        {
            if let SubTaskStatus::Failed(_) = &self.statuses[i] {
                return true;
            }
            i = i + 1;
        }
        false
    }

    /// Marks subtask `idx` running as task `task_id`, noting the first start
    /// at `now`; an unknown index changes nothing.
    pub fn start_subtask(&mut self, idx: usize, task_id: &str, now: i64)
        requires
            old(self).wf(),
        ensures
            final(self).wf(),
            final(self).plan == old(self).plan,
            final(self).completed_at == old(self).completed_at,
            idx >= old(self).plan.subtasks@.len() ==> *final(self) == *old(self),
            idx < old(self).plan.subtasks@.len() ==> {
                &&& final(self).statuses@ == old(self).statuses@.update(idx as int, SubTaskStatus::Running)
                &&& final(self).task_id_mapping@.len() == old(self).task_id_mapping@.len()
                &&& forall|j: int| 0 <= j < old(self).task_id_mapping@.len() && j != idx ==> #[trigger] final(self).task_id_mapping@[j] == old(self).task_id_mapping@[j]
                &&& final(self).task_id_mapping@[idx as int] matches Some(t) && t@ == task_id@
                &&& final(self).started_at == (if old(self).started_at is None { Some(now) } else { old(self).started_at })
            },
    {
        if idx >= self.plan.subtasks.len() {
            return;
        }
        if self.started_at.is_none() {
            self.started_at = Some(now);
        }
        self.statuses.set(idx, SubTaskStatus::Running);
        self.task_id_mapping.set(idx, Some(String::from_str(task_id)));
    }

    fn finish(&mut self, idx: usize, status: SubTaskStatus, now: i64)
        requires
            old(self).wf(),
        ensures
            final(self).wf(),
            final(self).plan == old(self).plan,
            final(self).task_id_mapping == old(self).task_id_mapping,
            final(self).started_at == old(self).started_at,
            idx >= old(self).plan.subtasks@.len() ==> *final(self) == *old(self),
            idx < old(self).plan.subtasks@.len() ==> {
                &&& final(self).statuses@ == old(self).statuses@.update(idx as int, status)
                &&& final(self).completed_at == (if final(self).complete_spec() { Some(now) } else { old(self).completed_at })
            },
    {
        if idx >= self.plan.subtasks.len() {
            return;
        }
        self.statuses.set(idx, status);
        if self.is_complete() {
            self.completed_at = Some(now);
        }
    }

    /// Marks subtask `idx` completed; when nothing is left open, notes `now`
    /// as the completion time.
    pub fn complete_subtask(&mut self, idx: usize, now: i64)
        requires
            old(self).wf(),
        ensures
            final(self).wf(),
            final(self).plan == old(self).plan,
            final(self).task_id_mapping == old(self).task_id_mapping,
            final(self).started_at == old(self).started_at,
            idx >= old(self).plan.subtasks@.len() ==> *final(self) == *old(self),
            idx < old(self).plan.subtasks@.len() ==> {
                &&& final(self).statuses@ == old(self).statuses@.update(idx as int, SubTaskStatus::Completed)
                &&& final(self).completed_at == (if final(self).complete_spec() { Some(now) } else { old(self).completed_at })
            },
    {
        self.finish(idx, SubTaskStatus::Completed, now);
    }

    /// Marks subtask `idx` failed with `reason`; when nothing is left open,
    /// notes `now` as the completion time.
    pub fn fail_subtask(&mut self, idx: usize, reason: &str, now: i64)
        requires
            old(self).wf(),
        ensures
            final(self).wf(),
            final(self).plan == old(self).plan,
            final(self).task_id_mapping == old(self).task_id_mapping,
            final(self).started_at == old(self).started_at,
            idx >= old(self).plan.subtasks@.len() ==> *final(self) == *old(self),
            idx < old(self).plan.subtasks@.len() ==> {
                &&& final(self).statuses@.len() == old(self).statuses@.len()
                &&& forall|j: int| 0 <= j < old(self).statuses@.len() && j != idx ==> #[trigger] final(self).statuses@[j] == old(self).statuses@[j]
                &&& final(self).statuses@[idx as int] matches SubTaskStatus::Failed(r) && r@ == reason@
                &&& final(self).completed_at == (if final(self).complete_spec() { Some(now) } else { old(self).completed_at })
            },
    {
        self.finish(idx, SubTaskStatus::Failed(String::from_str(reason)), now);
    }

    /// Marks subtask `idx` skipped; when nothing is left open, notes `now`
    /// as the completion time.
    pub fn skip_subtask(&mut self, idx: usize, now: i64)
        requires
            old(self).wf(),
        ensures
            final(self).wf(),
            final(self).plan == old(self).plan,
            final(self).task_id_mapping == old(self).task_id_mapping,
            final(self).started_at == old(self).started_at,
            idx >= old(self).plan.subtasks@.len() ==> *final(self) == *old(self),
            idx < old(self).plan.subtasks@.len() ==> {
                &&& final(self).statuses@ == old(self).statuses@.update(idx as int, SubTaskStatus::Skipped)
                &&& final(self).completed_at == (if final(self).complete_spec() { Some(now) } else { old(self).completed_at })
            },
    {
        self.finish(idx, SubTaskStatus::Skipped, now);
    }
}

/// The runnable subtasks below `n`, ascending.
pub open spec fn runnable_upto(t: DelegationTracker, n: int) -> Seq<usize>
    decreases n,
{
    if n <= 0 {
        Seq::empty()
    } else {
        let r = runnable_upto(t, n - 1);
        if t.runnable_spec(n - 1) { r.push((n - 1) as usize) } else { r }
    }
}

/// The subtasks that may start now: none after a failure when failing
/// fast, else every runnable one, ascending.
pub open spec fn next_runnable_of(t: DelegationTracker) -> Seq<usize> {
    if t.plan.fail_fast && t.failed_spec() {
        Seq::empty()
    } else {
        runnable_upto(t, t.plan.subtasks@.len() as int)
    }
}

proof fn lemma_last_title_range(subs: Seq<SubTaskSpec>, t: Seq<char>, n: int)
    requires
        0 <= n <= subs.len(),
    ensures
        -1 <= last_title_index(subs, t, n) < n,
        last_title_index(subs, t, n) >= 0 ==> n > 0,
    decreases n,
{
    if n > 0 {
        lemma_last_title_range(subs, t, n - 1);
    }
}

fn find_last_title(subs: &Vec<SubTaskSpec>, t: &str) -> (res: Option<usize>)
    ensures
        match res {
            Some(i) => i as int == last_title_index(subs@, t@, subs@.len() as int) && i < subs@.len(),
            None => last_title_index(subs@, t@, subs@.len() as int) == -1,
        },
{
    let mut i = subs.len();
    proof {
        lemma_last_title_range(subs@, t@, subs@.len() as int);
    }
    while i > 0
        invariant
            i <= subs@.len(),
            last_title_index(subs@, t@, subs@.len() as int) == last_title_index(subs@, t@, i as int),
        decreases i,
    {
        if str_eq(subs[i - 1].title.as_str(), t) {
            return Some(i - 1);
        }
        i = i - 1;
    }
    None
}

/// Counts of subtasks by status: completed, running, pending, failed,
/// skipped.
pub open spec fn status_counts(s: Seq<SubTaskStatus>) -> (nat, nat, nat, nat, nat)
    decreases s.len(),
{
    if s.len() == 0 {
        (0, 0, 0, 0, 0)
    } else {
        let (c, r, p, f, k) = status_counts(s.drop_last());
        match s.last() {
            SubTaskStatus::Completed => (c + 1, r, p, f, k),
            SubTaskStatus::Running => (c, r + 1, p, f, k),
            SubTaskStatus::Pending => (c, r, p + 1, f, k),
            SubTaskStatus::Failed(_) => (c, r, p, f + 1, k),
            SubTaskStatus::Skipped => (c, r, p, f, k + 1),
        }
    }
}

/// The progress line of a tracker.
pub open spec fn progress_text(t: DelegationTracker) -> Seq<char> {
    let (c, r, p, f, k) = status_counts(t.statuses@);
    decimal(c) + "/"@ + decimal(t.plan.subtasks@.len()) + " complete, "@ + decimal(r) + " running, "@ + decimal(p) + " pending"@
        + (if f > 0 { ", "@ + decimal(f) + " failed"@ } else { Seq::empty() })
        + (if k > 0 { ", "@ + decimal(k) + " skipped"@ } else { Seq::empty() })
}

proof fn lemma_counts_bounded(s: Seq<SubTaskStatus>)
    ensures
        ({
            let (c, r, p, f, k) = status_counts(s);
            c + r + p + f + k == s.len()
        }),
    decreases s.len(),
{
    if s.len() > 0 {
        lemma_counts_bounded(s.drop_last());
    }
}

/// Whether the subtask titled `title` that a dependency names (the last
/// one with that title) has completed.
pub open spec fn dependency_completed(t: DelegationTracker, title: Seq<char>) -> bool {
    let subs = t.plan.subtasks@;
    exists|d: int|
        0 <= d < subs.len() && #[trigger] subs[d].title@ == title && t.statuses@[d] is Completed
            && forall|e: int| d < e < subs.len() ==> (#[trigger] subs[e].title@) != title
}

/// Whether subtask `i` may start: it is pending, has no task yet, and
/// every subtask it depends on has completed.
pub open spec fn may_start(t: DelegationTracker, i: int) -> bool {
    &&& t.statuses@[i] is Pending
    &&& t.task_id_mapping@[i] is None
    &&& forall|k: int| 0 <= k < t.plan.subtasks@[i].depends_on@.len()
        ==> dependency_completed(t, #[trigger] t.plan.subtasks@[i].depends_on@[k]@)
}

proof fn lemma_last_title_index(subs: Seq<SubTaskSpec>, title: Seq<char>, n: int)
    requires
        0 <= n <= subs.len(),
    ensures
        last_title_index(subs, title, n) == -1 ==> forall|e: int| 0 <= e < n ==> (#[trigger] subs[e].title@) != title,
        last_title_index(subs, title, n) != -1 ==> {
            let d = last_title_index(subs, title, n);
            0 <= d < n && subs[d].title@ == title && forall|e: int| d < e < n ==> (#[trigger] subs[e].title@) != title
        },
    decreases n,
{
    if n > 0 {
        lemma_last_title_index(subs, title, n - 1);
    }
}

proof fn lemma_dependency_completed(t: DelegationTracker, title: Seq<char>)
    requires
        t.wf(),
    ensures
        dependency_completed(t, title) <==> {
            let d = last_title_index(t.plan.subtasks@, title, t.plan.subtasks@.len() as int);
            0 <= d < t.statuses@.len() && t.statuses@[d] is Completed
        },
{
    let subs = t.plan.subtasks@;
    lemma_last_title_index(subs, title, subs.len() as int);
    let r = last_title_index(subs, title, subs.len() as int);
    if dependency_completed(t, title) {
        let d = choose|d: int|
            0 <= d < subs.len() && #[trigger] subs[d].title@ == title && t.statuses@[d] is Completed
                && forall|e: int| d < e < subs.len() ==> (#[trigger] subs[e].title@) != title;
        if r != d {
            if r == -1 {
                assert(subs[d].title@ != title);
            } else if r < d {
                assert(subs[d].title@ != title);
            } else {
                assert(subs[r].title@ != title);
            }
        }
    }
    if 0 <= r < t.statuses@.len() && t.statuses@[r] is Completed {
        assert(subs[r].title@ == title);
    }
}

proof fn lemma_may_start(t: DelegationTracker, i: int)
    requires
        t.wf(),
        0 <= i < t.plan.subtasks@.len(),
    ensures
        may_start(t, i) <==> t.runnable_spec(i),
{
    let deps = t.plan.subtasks@[i].depends_on@;
    assert forall|k: int| 0 <= k < deps.len() implies dependency_completed(t, #[trigger] deps[k]@) <==> {
        let d = last_title_index(t.plan.subtasks@, deps[k]@, t.plan.subtasks@.len() as int);
        0 <= d < t.statuses@.len() && t.statuses@[d] is Completed
    } by {
        lemma_dependency_completed(t, deps[k]@);
    }
}

proof fn lemma_runnable_upto(t: DelegationTracker, n: int)
    requires
        t.wf(),
        0 <= n <= t.plan.subtasks@.len(),
        t.plan.subtasks@.len() <= usize::MAX,
    ensures
        forall|j: int| 0 <= j < runnable_upto(t, n).len() ==> {
            let x = #[trigger] runnable_upto(t, n)[j] as int;
            0 <= x < n && may_start(t, x)
        },
        forall|x: int| 0 <= x < n && may_start(t, x) ==> #[trigger] runnable_upto(t, n).contains(x as usize),
    decreases n,
{
    if n > 0 {
        lemma_runnable_upto(t, n - 1);
        lemma_may_start(t, n - 1);
        let r = runnable_upto(t, n - 1);
        assert forall|j: int| 0 <= j < runnable_upto(t, n).len() implies {
            let x = #[trigger] runnable_upto(t, n)[j] as int;
            0 <= x < n && may_start(t, x)
        } by {
            if j < r.len() {
                assert(runnable_upto(t, n)[j] == r[j]);
            } else {
                assert(runnable_upto(t, n)[j] == (n - 1) as usize);
            }
        }
        assert forall|x: int| 0 <= x < n && may_start(t, x) implies #[trigger] runnable_upto(t, n).contains(x as usize) by {
            if x < n - 1 {
                assert(r.contains(x as usize));
                let j = choose|j: int| 0 <= j < r.len() && r[j] == x as usize;
                assert(runnable_upto(t, n)[j] == x as usize);
            } else {
                assert(runnable_upto(t, n)[r.len() as int] == x as usize);
            }
        }
    }
}

/// The subtasks offered to start are exactly those that may start: pending,
/// without a task, and every dependency (the last subtask with its title)
/// completed; a dependency still pending or running, or failed or skipped,
/// holds a subtask back. When the plan fails fast and a subtask has failed,
/// none is offered.
pub proof fn lemma_next_runnable_exact(t: DelegationTracker)
    requires
        t.wf(),
        t.plan.subtasks@.len() <= usize::MAX,
    ensures
        forall|j: int| 0 <= j < next_runnable_of(t).len() ==> {
            let x = #[trigger] next_runnable_of(t)[j] as int;
            0 <= x < t.plan.subtasks@.len() && may_start(t, x)
        },
        !(t.plan.fail_fast && exists|i: int| 0 <= i < t.statuses@.len() && t.statuses@[i] is Failed) ==> forall|x: int|
            0 <= x < t.plan.subtasks@.len() && may_start(t, x) ==> #[trigger] next_runnable_of(t).contains(x as usize),
        (t.plan.fail_fast && exists|i: int| 0 <= i < t.statuses@.len() && t.statuses@[i] is Failed)
            ==> next_runnable_of(t).len() == 0,
{
    lemma_runnable_upto(t, t.plan.subtasks@.len() as int);
}

impl DelegationTracker {
    /// The subtasks that may start now, ascending.
    pub fn next_runnable(&self) -> (res: Vec<usize>)
        requires
            self.wf(),
        ensures
            res@ == next_runnable_of(*self),
            forall|j: int| 0 <= j < res@.len() ==> {
                let x = #[trigger] res@[j] as int;
                0 <= x < self.plan.subtasks@.len() && may_start(*self, x)
            },
            !(self.plan.fail_fast && exists|i: int| 0 <= i < self.statuses@.len() && self.statuses@[i] is Failed)
                ==> forall|x: int| 0 <= x < self.plan.subtasks@.len() && may_start(*self, x) ==> #[trigger] res@.contains(x as usize),
    {
        let count = self.plan.subtasks.len();
        proof {
            assert(self.plan.subtasks@.len() == count);
            lemma_next_runnable_exact(*self);
        }
        if self.plan.fail_fast && self.is_failed() {
            return Vec::new();
        }
        let subs = &self.plan.subtasks;
        let n = subs.len();
        let mut out: Vec<usize> = Vec::new();
        let mut i: usize = 0;
        while i < n
            invariant
                self.wf(),
                subs == &self.plan.subtasks,
                n == subs@.len(),
                i <= n,
                out@ == runnable_upto(*self, i as int),
            decreases n - i,
        {
            let pending = match &self.statuses[i] {
                SubTaskStatus::Pending => true,
                _ => false,
            };
            let mut ok = pending && self.task_id_mapping[i].is_none();
            let deps = &subs[i].depends_on;
            let mut k: usize = 0;
            while k < deps.len()
                invariant
                    self.wf(),
                    subs == &self.plan.subtasks,
                    n == subs@.len(),
                    i < n,
                    deps == &subs@[i as int].depends_on,
                    k <= deps@.len(),
                    ok == (self.statuses@[i as int] is Pending && self.task_id_mapping@[i as int] is None
                        && forall|m: int| 0 <= m < k ==> {
                            let d = #[trigger] last_title_index(subs@, subs@[i as int].depends_on@[m]@, subs@.len() as int);
                            0 <= d < self.statuses@.len() && self.statuses@[d] is Completed
                        }),
                decreases deps@.len() - k,
            {
                match find_last_title(subs, deps[k].as_str()) {
                    Some(d) => {
                        let done = match &self.statuses[d] {
                            SubTaskStatus::Completed => true,
                            _ => false,
                        };
                        if !done {
                            ok = false;
                        }
                    },
                    None => {
                        ok = false;
                    },
                }
                k = k + 1;
            }
            if ok {
                out.push(i);
            }
            i = i + 1;
        }
        out
    }

    /// "C/N complete, R running, P pending", then failed and skipped counts
    /// when there are any.
    pub fn progress_summary(&self) -> (res: String)
        requires
            self.wf(),
        ensures
            res@ == progress_text(*self),
    {
        let mut c: usize = 0;
        let mut r: usize = 0;
        let mut p: usize = 0;
        let mut f: usize = 0;
        let mut k: usize = 0;
        let mut i: usize = 0;
        while i < self.statuses.len()
            invariant
                i <= self.statuses@.len(),
                (c as nat, r as nat, p as nat, f as nat, k as nat) == status_counts(self.statuses@.take(i as int)),
            decreases self.statuses@.len() - i,
        {
            assert(self.statuses@.take(i + 1).drop_last() =~= self.statuses@.take(i as int));
            proof {
                lemma_counts_bounded(self.statuses@.take(i as int));
            }
            match &self.statuses[i] {
                SubTaskStatus::Completed => { c = c + 1; },
                SubTaskStatus::Running => { r = r + 1; },
                SubTaskStatus::Pending => { p = p + 1; },
                SubTaskStatus::Failed(_) => { f = f + 1; },
                SubTaskStatus::Skipped => { k = k + 1; },
            }
            i = i + 1;
        }
        assert(self.statuses@.take(self.statuses@.len() as int) =~= self.statuses@);
        let mut out = String::new();
        push_decimal(&mut out, c as u64);
        out.append("/");
        push_decimal(&mut out, self.plan.subtasks.len() as u64);
        out.append(" complete, ");
        push_decimal(&mut out, r as u64);
        out.append(" running, ");
        push_decimal(&mut out, p as u64);
        out.append(" pending");
        if f > 0 {
            out.append(", ");
            push_decimal(&mut out, f as u64);
            out.append(" failed");
        }
        if k > 0 {
            out.append(", ");
            push_decimal(&mut out, k as u64);
            out.append(" skipped");
        }
        out
    }

    /// Every subtask's status with its index, ascending.
    pub fn all_results(&self) -> (res: Vec<(usize, &SubTaskStatus)>)
        ensures
            res@.len() == self.statuses@.len(),
            forall|i: int| 0 <= i < res@.len() ==> (#[trigger] res@[i]).0 == i && *res@[i].1 == self.statuses@[i],
    {
        let mut out: Vec<(usize, &SubTaskStatus)> = Vec::new();
        let mut i: usize = 0;
        while i < self.statuses.len()
            invariant
                i <= self.statuses@.len(),
                out@.len() == i,
                forall|j: int| 0 <= j < i ==> (#[trigger] out@[j]).0 == j && *out@[j].1 == self.statuses@[j],
            decreases self.statuses@.len() - i,
        {
            out.push((i, &self.statuses[i]));
            i = i + 1;
        }
        out
    }
}

/// Where the first complete JSON object of `s` lies, scanning from `i`
/// with the scanner's state: the object's first brace, the brace depth,
/// and whether it is inside a string and after a backslash there. Braces
/// inside strings do not count.
pub open spec fn object_scan(s: Seq<char>, i: int, start: int, depth: nat, in_str: bool, esc: bool) -> Option<(int, int)>
    decreases s.len() - i,
{
    if i < 0 || i >= s.len() {
        None
    } else {
        let c = s[i];
        if in_str {
            if esc {
                object_scan(s, i + 1, start, depth, true, false)
            } else if c == '\\' {
                object_scan(s, i + 1, start, depth, true, true)
            } else if c == '"' {
                object_scan(s, i + 1, start, depth, false, false)
            } else {
                object_scan(s, i + 1, start, depth, true, false)
            }
        } else if c == '"' {
            object_scan(s, i + 1, start, depth, true, false)
        } else if c == '{' {
            object_scan(s, i + 1, if start < 0 { i } else { start }, depth + 1, false, false)
        } else if c == '}' && depth > 0 {
            if depth == 1 {
                if start >= 0 { Some((start, i)) } else { None }
            } else {
                object_scan(s, i + 1, start, (depth - 1) as nat, false, false)
            }
        } else {
            object_scan(s, i + 1, start, depth, false, false)
        }
    }
}

/// The first complete JSON object in `s`, braces included.
pub open spec fn first_json_object(s: Seq<char>) -> Option<Seq<char>> {
    match object_scan(s, 0, -1, 0, false, false) {
        Some((a, b)) => Some(s.subrange(a, b + 1)),
        None => None,
    }
}

proof fn lemma_object_scan_range(s: Seq<char>, i: int, start: int, depth: nat, in_str: bool, esc: bool)
    requires
        0 <= i,
        start < i,
        depth > 0 ==> start >= 0,
    ensures
        object_scan(s, i, start, depth, in_str, esc) matches Some((a, b)) ==> 0 <= a <= b < s.len(),
    decreases s.len() - i,
{
    if i < s.len() {
        let c = s[i];
        if in_str {
            if esc {
                lemma_object_scan_range(s, i + 1, start, depth, true, false);
            } else if c == '\\' {
                lemma_object_scan_range(s, i + 1, start, depth, true, true);
            } else if c == '"' {
                lemma_object_scan_range(s, i + 1, start, depth, false, false);
            } else {
                lemma_object_scan_range(s, i + 1, start, depth, true, false);
            }
        } else if c == '"' {
            lemma_object_scan_range(s, i + 1, start, depth, true, false);
        } else if c == '{' {
            lemma_object_scan_range(s, i + 1, if start < 0 { i } else { start }, depth + 1, false, false);
        } else if c == '}' && depth > 0 {
            if depth != 1 {
                lemma_object_scan_range(s, i + 1, start, (depth - 1) as nat, false, false);
            }
        } else {
            lemma_object_scan_range(s, i + 1, start, depth, false, false);
        }
    }
}

/// Finds the first complete JSON object in `input`: from its first `{` to
/// the `}` that closes it, skipping braces inside strings.
pub fn extract_first_json_object(input: &str) -> (res: Option<String>)
    ensures
        match res {
            Some(o) => first_json_object(input@) == Some(o@),
            None => first_json_object(input@) is None,
        },
{
    let s = chars_of(input);
    let mut has_start = false;
    let mut start_ix: usize = 0;
    let mut depth: usize = 0;
    let mut in_str = false;
    let mut esc = false;
    let mut i: usize = 0;
    proof {
        lemma_object_scan_range(s@, 0, -1, 0, false, false);
    }
    while i < s.len()
        invariant
            s@ == input@,
            i <= s@.len(),
            has_start ==> start_ix < i,
            depth > 0 ==> has_start,
            !in_str ==> !esc,
            depth <= i,
            object_scan(s@, 0, -1, 0, false, false) == object_scan(s@, i as int, if has_start { start_ix as int } else { -1 }, depth as nat, in_str, esc),
        decreases s@.len() - i,
    {
        let c = s[i];
        if in_str {
            if esc {
                esc = false;
            } else if c == '\\' {
                esc = true;
            } else if c == '"' {
                in_str = false;
            }
        } else if c == '"' {
            in_str = true;
        } else if c == '{' {
            if !has_start {
                has_start = true;
                start_ix = i;
            }
            depth = depth + 1;
        } else if c == '}' && depth > 0 {
            if depth == 1 {
                proof {
                    lemma_object_scan_range(s@, 0, -1, 0, false, false);
                }
                return Some(string_of_range(&s, start_ix, i + 1));
            }
            depth = depth - 1;
        }
        i = i + 1;
    }
    None
}

/// The text of the JSON plan in a candidate: the first object in it, or,
/// when the candidate starts with `{` and holds no complete object, the
/// whole candidate.
pub open spec fn plan_json_text_of(candidate: Seq<char>) -> Option<Seq<char>> {
    if candidate.len() > 0 && candidate[0] == '{' {
        match first_json_object(candidate) {
            Some(o) => Some(o),
            None => Some(candidate),
        }
    } else {
        first_json_object(candidate)
    }
}

/// Picks the JSON text of a plan candidate.
pub fn plan_json_text(candidate: &str) -> (res: Option<String>)
    ensures
        match res {
            Some(t) => plan_json_text_of(candidate@) == Some(t@),
            None => plan_json_text_of(candidate@) is None,
        },
{
    let starts = str_starts_with(candidate, "{");
    proof {
        reveal_strlit("{");
        if candidate@.len() > 0 && candidate@[0] == '{' {
            assert(candidate@.subrange(0, 1) =~= "{"@);
        }
        if starts {
            assert(candidate@.subrange(0, 1)[0] == candidate@[0]);
        }
    }
    match extract_first_json_object(candidate) {
        Some(o) => Some(o),
        None => if starts { Some(String::from_str(candidate)) } else { None },
    }
}

/// The text after the first "DELEGATE:" marker, trimmed, with the text
/// before the marker.
pub open spec fn delegate_candidate_of(output: Seq<char>) -> Option<(Seq<char>, Seq<char>)> {
    let pos = find_first(output, "DELEGATE:"@, 0);
    if pos < 0 {
        None
    } else {
        Some((output.subrange(0, pos), trim(output.skip(pos + 9))))
    }
}

/// Splits an agent's output at its first "DELEGATE:" marker: the text
/// before it, and the trimmed text after it.
pub fn extract_delegate_json_candidate(output: &str) -> (res: Option<(String, String)>)
    ensures
        match res {
            Some((p, c)) => delegate_candidate_of(output@) == Some((p@, c@)),
            None => delegate_candidate_of(output@) is None,
        },
{
    let s = chars_of(output);
    let marker = chars_of("DELEGATE:");
    proof {
        reveal_strlit("DELEGATE:");
    }
    let found = find_from(&s, &marker, 0);
    proof {
        lemma_find_first(s@, marker@, 0, match found { Some(i) => Some(i as int), None => None });
    }
    match found {
        Some(pos) => {
            assert(marker@.len() == 9);
            let n = s.len();
            assert(pos + 9 <= n);
            let prefix = string_of_range(&s, 0, pos);
            let rest = string_of_range(&s, pos + 9, n);
            assert(s@.subrange(pos + 9, s@.len() as int) =~= s@.skip(pos + 9));
            let cand = str_trim(rest.as_str());
            Some((prefix, cand))
        },
        None => None,
    }
}

/// A subtask as character sequences: title, description, model,
/// priority, dependencies, files and verify command.
pub type SubView = (Seq<char>, Seq<char>, Option<Seq<char>>, Option<Seq<char>>, Seq<Seq<char>>, Seq<Seq<char>>, Option<Seq<char>>);

/// Views an optional string.
pub open spec fn opt_text(o: Option<String>) -> Option<Seq<char>> {
    match o {
        Some(s) => Some(s@),
        None => None,
    }
}

/// The view of a subtask.
pub open spec fn sub_view(s: SubTaskSpec) -> SubView {
    (s.title@, s.description@, opt_text(s.model), opt_text(s.priority), s.depends_on.deep_view(), s.files.deep_view(), opt_text(s.verify_command))
}

/// The views of a list of subtasks.
pub open spec fn sub_views(s: Seq<SubTaskSpec>) -> Seq<SubView> {
    s.map_values(|x: SubTaskSpec| sub_view(x))
}

/// The subtasks that a list of JSON items describes.
pub open spec fn json_subs(items: Seq<JsonValue>) -> Seq<SubView> {
    items.map_values(|i: JsonValue| sub_from_json(i))
}

/// The string items of an array, in order; other items are left out.
pub open spec fn string_items(items: Seq<JsonValue>) -> Seq<Seq<char>>
    decreases items.len(),
{
    if items.len() == 0 {
        Seq::empty()
    } else {
        let rest = string_items(items.drop_last());
        match items.last() {
            JsonValue::String(t) => rest.push(t@),
            _ => rest,
        }
    }
}

/// The strings of an optional array; none without one.
pub open spec fn string_list(v: Option<JsonValue>) -> Seq<Seq<char>> {
    match json_items(v) {
        Some(items) => string_items(items),
        None => Seq::empty(),
    }
}

/// The text of a member, or empty.
pub open spec fn text_or_empty(v: JsonValue, key: Seq<char>) -> Seq<char> {
    match json_str(json_get(v, key)) {
        Some(t) => t,
        None => Seq::empty(),
    }
}

/// The subtask that a JSON item describes.
pub open spec fn sub_from_json(item: JsonValue) -> SubView {
    (
        text_or_empty(item, "title"@),
        text_or_empty(item, "description"@),
        json_str(json_get(item, "model"@)),
        json_str(json_get(item, "priority"@)),
        string_list(json_get(item, "depends_on"@)),
        string_list(json_get(item, "files"@)),
        json_str(json_get(item, "verify_command"@)),
    )
}

/// The strategy a name selects; sequential for any other name.
pub open spec fn strategy_of(name: Option<Seq<char>>) -> DelegationStrategy {
    if name == Some("parallel"@) {
        DelegationStrategy::Parallel
    } else if name == Some("conditional"@) {
        DelegationStrategy::Conditional
    } else {
        DelegationStrategy::Sequential
    }
}

/// The parallel limit a number gives: at least one, at most `usize::MAX`;
/// one without a number.
pub open spec fn max_parallel_of(n: Option<u64>) -> usize {
    match n {
        Some(x) => if x == 0 { 1 } else if x > usize::MAX { usize::MAX } else { x as usize },
        None => 1,
    }
}

/// Whether `p` is the plan that the JSON object `v` describes: its
/// nonempty subtask list, parent (or `fallback`), strategy, limits and
/// flags.
pub open spec fn json_plan_matches(v: JsonValue, fallback: Seq<char>, created_at: UtcTime, p: DelegationPlan) -> bool {
    match json_items(json_get(v, "subtasks"@)) {
        Some(items) => {
            &&& items.len() > 0
            &&& p.parent_task_id@ == (match json_str(json_get(v, "parent_task_id"@)) { Some(t) => t, None => fallback })
            &&& p.strategy == strategy_of(json_str(json_get(v, "strategy"@)))
            &&& p.max_parallel == max_parallel_of(json_u64(json_get(v, "max_parallel"@)))
            &&& p.fail_fast == (match json_bool(json_get(v, "fail_fast"@)) { Some(b) => b, None => true })
            &&& p.timeout_secs == json_u64(json_get(v, "timeout_secs"@))
            &&& p.created_at == created_at
            &&& sub_views(p.subtasks@) == json_subs(items)
        },
        None => false,
    }
}

/// Whether `v` holds a nonempty subtask list.
pub open spec fn has_subtask_list(v: JsonValue) -> bool {
    json_items(json_get(v, "subtasks"@)) matches Some(items) && items.len() > 0
}

fn strings_of(v: Option<&JsonValue>) -> (res: Vec<String>)
    ensures
        res.deep_view() == string_list(match v { Some(x) => Some(*x), None => None }),
{
    let mut out: Vec<String> = Vec::new();
    match v {
        Some(x) => match x.as_array() {
            Some(items) => {
                let mut i: usize = 0;
                assert(out.deep_view() =~= string_items(items@.take(0)));
                while i < items.len()
                    invariant
                        i <= items@.len(),
                        out.deep_view() == string_items(items@.take(i as int)),
                    decreases items@.len() - i,
                {
                    assert(items@.take(i + 1).drop_last() =~= items@.take(i as int));
                    assert(items@.take(i + 1).last() == items@[i as int]);
                    if let Some(t) = items[i].as_str() {
                        let ghost before = out.deep_view();
                        out.push(String::from_str(t));
                        assert(out.deep_view() =~= before.push(t@));
                    }
                    i = i + 1;
                }
                assert(items@.take(items@.len() as int) =~= items@);
            },
            None => {},
        },
        None => {},
    }
    out
}

fn opt_string(v: Option<&JsonValue>) -> (res: Option<String>)
    ensures
        opt_text(res) == json_str(match v { Some(x) => Some(*x), None => None }),
{
    match v {
        Some(x) => match x.as_str() {
            Some(t) => Some(String::from_str(t)),
            None => None,
        },
        None => None,
    }
}

fn subtask_from_json(item: &JsonValue) -> (res: SubTaskSpec)
    ensures
        sub_view(res) == sub_from_json(*item),
{
    let title = match opt_string(item.get("title")) {
        Some(t) => t,
        None => String::new(),
    };
    let description = match opt_string(item.get("description")) {
        Some(t) => t,
        None => String::new(),
    };
    let model = opt_string(item.get("model"));
    let priority = opt_string(item.get("priority"));
    let depends_on = strings_of(item.get("depends_on"));
    let files = strings_of(item.get("files"));
    let verify_command = opt_string(item.get("verify_command"));
    SubTaskSpec { title, description, model, priority, depends_on, files, verify_command }
}

/// Reads a plan from a JSON object: its subtask list, parent (else
/// `fallback`), strategy, parallel limit, fail-fast flag and timeout. Gives
/// the plan only when the list is nonempty and the plan validates.
pub fn plan_from_json(value: &JsonValue, fallback: &str, created_at: UtcTime) -> (res: Option<DelegationPlan>)
    ensures
        match res {
            Some(p) => json_plan_matches(*value, fallback@, created_at, p) && validation_errors(p.subtasks@).len() == 0,
            None => !has_subtask_list(*value) || exists|p: DelegationPlan| #[trigger] json_plan_matches(*value, fallback@, created_at, p) && validation_errors(p.subtasks@).len() > 0,
        },
{
    let items = match value.get("subtasks") {
        Some(x) => match x.as_array() {
            Some(items) => items,
            None => {
                return None;
            },
        },
        None => {
            return None;
        },
    };
    if items.len() == 0 {
        return None;
    }
    let parent = match opt_string(value.get("parent_task_id")) {
        Some(t) => t,
        None => String::from_str(fallback),
    };
    let mut plan = DelegationPlan::new(parent.as_str(), created_at);
    proof {
        reveal_strlit("sequential");
        reveal_strlit("parallel");
        reveal_strlit("conditional");
        assert("sequential"@.len() == 10 && "parallel"@.len() == 8 && "conditional"@.len() == 11);
    }
    if let Some(name) = opt_string(value.get("strategy")) {
        plan.strategy = if str_eq(name.as_str(), "sequential") {
            DelegationStrategy::Sequential
        } else if str_eq(name.as_str(), "parallel") {
            DelegationStrategy::Parallel
        } else if str_eq(name.as_str(), "conditional") {
            DelegationStrategy::Conditional
        } else {
            DelegationStrategy::Sequential
        };
    }
    if let Some(mp) = value.get("max_parallel") {
        if let Some(x) = mp.as_u64() {
            plan.max_parallel = if x == 0 {
                1
            } else if x as u128 > usize::MAX as u128 {
                usize::MAX
            } else {
                x as usize
            };
        }
    }
    if let Some(ff) = value.get("fail_fast") {
        if let Some(b) = ff.as_bool() {
            plan.fail_fast = b;
        }
    }
    if let Some(t) = value.get("timeout_secs") {
        if let Some(x) = t.as_u64() {
            plan.timeout_secs = Some(x);
        }
    }
    let mut i: usize = 0;
    while i < items.len()
        invariant
            i <= items@.len(),
            sub_views(plan.subtasks@) == json_subs(items@.take(i as int)),
            plan.parent_task_id@ == parent@,
            plan.created_at == created_at,
            plan.strategy == strategy_of(json_str(json_get(*value, "strategy"@))),
            plan.max_parallel == max_parallel_of(json_u64(json_get(*value, "max_parallel"@))),
            plan.fail_fast == (match json_bool(json_get(*value, "fail_fast"@)) { Some(b) => b, None => true }),
            plan.timeout_secs == json_u64(json_get(*value, "timeout_secs"@)),
        decreases items@.len() - i,
    {
        let sub = subtask_from_json(&items[i]);
        let ghost before = plan.subtasks@;
        plan.add_subtask(sub);
        assert(sub_views(plan.subtasks@) =~= sub_views(before).push(sub_view(sub)));
        assert(json_subs(items@.take(i + 1)) =~= json_subs(items@.take(i as int)).push(sub_from_json(items@[i as int])));
        i = i + 1;
    }
    assert(items@.take(items@.len() as int) =~= items@);
    assert(json_plan_matches(*value, fallback@, created_at, plan));
    match plan.validate() {
        Ok(()) => Some(plan),
        Err(_) => None,
    }
}

/// The title of a markdown checkbox line ("- [ ] " or "* [ ] " after
/// trimming), when it has a nonempty one.
pub open spec fn checkbox_title(line: Seq<char>) -> Option<Seq<char>> {
    let t = trim(line);
    if starts_with(t, "- [ ] "@) || starts_with(t, "* [ ] "@) {
        let title = trim(t.skip(6));
        if title.len() > 0 { Some(title) } else { None }
    } else {
        None
    }
}

/// The checkbox titles of a list of lines, in order.
pub open spec fn checkbox_titles(ls: Seq<Seq<char>>) -> Seq<Seq<char>>
    decreases ls.len(),
{
    if ls.len() == 0 {
        Seq::empty()
    } else {
        let rest = checkbox_titles(ls.drop_last());
        match checkbox_title(ls.last()) {
            Some(t) => rest.push(t),
            None => rest,
        }
    }
}

/// The subtask that a checkbox title describes.
pub open spec fn checkbox_sub(t: Seq<char>) -> SubView {
    (t, t, None, None, Seq::empty(), Seq::empty(), None)
}

/// Whether `p` is the default plan of parent "parent" with one subtask per
/// checkbox title.
pub open spec fn checkbox_plan_matches(titles: Seq<Seq<char>>, created_at: UtcTime, p: DelegationPlan) -> bool {
    &&& p.parent_task_id@ == "parent"@
    &&& p.strategy == DelegationStrategy::Sequential
    &&& p.max_parallel == 1
    &&& p.fail_fast
    &&& p.timeout_secs is None
    &&& p.created_at == created_at
    &&& sub_views(p.subtasks@) == titles.map_values(|t: Seq<char>| checkbox_sub(t))
}

fn checkbox_title_exec(line: &str) -> (res: Option<String>)
    ensures
        opt_text(res) == checkbox_title(line@),
{
    let t = str_trim(line);
    let a = str_starts_with(t.as_str(), "- [ ] ");
    let b = str_starts_with(t.as_str(), "* [ ] ");
    if a || b {
        proof {
            reveal_strlit("- [ ] ");
            reveal_strlit("* [ ] ");
        }
        let v = chars_of(t.as_str());
        let rest = string_of_range(&v, 6, v.len());
        assert(v@.subrange(6, v@.len() as int) =~= t@.skip(6));
        let title = str_trim(rest.as_str());
        if title.as_str().is_empty() {
            None
        } else {
            Some(title)
        }
    } else {
        None
    }
}

/// A plan from the markdown checkboxes ("- [ ] title" or "* [ ] title") of
/// an agent's output: one subtask per nonempty title, described by the
/// title. Nothing when there is no checkbox or the plan does not validate.
pub fn plan_from_checkboxes(output: &str, created_at: UtcTime) -> (res: Option<DelegationPlan>)
    ensures
        match res {
            Some(p) => checkbox_titles(lines(output@)).len() > 0 && checkbox_plan_matches(checkbox_titles(lines(output@)), created_at, p)
                && validation_errors(p.subtasks@).len() == 0,
            None => checkbox_titles(lines(output@)).len() == 0 || exists|p: DelegationPlan|
                #[trigger] checkbox_plan_matches(checkbox_titles(lines(output@)), created_at, p) && validation_errors(p.subtasks@).len() > 0,
        },
{
    let chars = chars_of(output);
    let ls = split_lines(&chars);
    let ghost titles = checkbox_titles(lines(output@));
    let mut plan = DelegationPlan::new("parent", created_at);
    let mut i: usize = 0;
    assert(sub_views(plan.subtasks@) =~= checkbox_titles(ls.deep_view().take(0)).map_values(|t: Seq<char>| checkbox_sub(t)));
    while i < ls.len()
        invariant
            i <= ls@.len(),
            ls.deep_view() == lines(output@),
            plan.parent_task_id@ == "parent"@,
            plan.strategy == DelegationStrategy::Sequential,
            plan.max_parallel == 1,
            plan.fail_fast,
            plan.timeout_secs is None,
            plan.created_at == created_at,
            sub_views(plan.subtasks@) == checkbox_titles(ls.deep_view().take(i as int)).map_values(|t: Seq<char>| checkbox_sub(t)),
        decreases ls@.len() - i,
    {
        let ghost prefix = ls.deep_view().take(i as int);
        assert(ls.deep_view().take(i + 1).drop_last() =~= prefix);
        assert(ls.deep_view().take(i + 1).last() == ls@[i as int]@);
        if let Some(t) = checkbox_title_exec(ls[i].as_str()) {
            let sub = SubTaskSpec {
                title: t.clone(),
                description: t,
                model: None,
                priority: None,
                depends_on: Vec::new(),
                files: Vec::new(),
                verify_command: None,
            };
            let ghost before = plan.subtasks@;
            plan.add_subtask(sub);
            assert(sub.depends_on.deep_view() =~= Seq::<Seq<char>>::empty());
            assert(sub.files.deep_view() =~= Seq::<Seq<char>>::empty());
            assert(sub_views(plan.subtasks@) =~= sub_views(before).push(sub_view(sub)));
            assert(checkbox_titles(ls.deep_view().take(i + 1)).map_values(|t: Seq<char>| checkbox_sub(t)) =~= checkbox_titles(prefix).map_values(|t: Seq<char>| checkbox_sub(t)).push(checkbox_sub(sub.title@)));
        } else {
            assert(checkbox_titles(ls.deep_view().take(i + 1)) =~= checkbox_titles(prefix));
        }
        i = i + 1;
    }
    assert(ls.deep_view().take(ls@.len() as int) =~= ls.deep_view());
    assert(checkbox_plan_matches(titles, created_at, plan));
    if plan.subtasks.len() == 0 {
        return None;
    }
    match plan.validate() {
        Ok(()) => Some(plan),
        Err(_) => None,
    }
}


/// The subtask that dependency `q` of subtask `i` names.
pub open spec fn dep_of(subs: Seq<SubTaskSpec>, i: int, q: int) -> int {
    title_index(subs, subs[i].depends_on@[q]@)
}

proof fn lemma_count_zero(removed: Seq<bool>)
    requires
        count_left(removed) == 0,
    ensures
        forall|i: int| 0 <= i < removed.len() ==> removed[i],
    decreases removed.len(),
{
    if removed.len() > 0 {
        lemma_count_zero(removed.drop_last());
        assert forall|i: int| 0 <= i < removed.len() implies removed[i] by {
            if i < removed.len() - 1 {
                assert(removed.drop_last()[i] == removed[i]);
            }
        }
    }
}

/// What the rounds from a state of done marks satisfy: they hold exactly
/// the subtasks not yet done, each in one round, ascending within a round,
/// and each after the rounds of its dependencies.
pub open spec fn rounds_sound(subs: Seq<SubTaskSpec>, removed: Seq<bool>, rs: Seq<Seq<usize>>) -> bool {
    &&& forall|k: int, i: usize| 0 <= k < rs.len() && #[trigger] rs[k].contains(i) ==> i < subs.len() && !removed[i as int]
    &&& forall|i: int| 0 <= i < subs.len() && !removed[i] ==> exists|k: int| 0 <= k < rs.len() && #[trigger] rs[k].contains(i as usize)
    &&& forall|k1: int, k2: int, i: usize| 0 <= k1 < rs.len() && 0 <= k2 < rs.len() && #[trigger] rs[k1].contains(i) && #[trigger] rs[k2].contains(i) ==> k1 == k2
    &&& forall|k: int, a: int, b: int| 0 <= k < rs.len() && 0 <= a < b < rs[k].len() ==> #[trigger] rs[k][a] < #[trigger] rs[k][b]
    &&& forall|k: int, i: usize, q: int| #![trigger rs[k].contains(i), dep_of(subs, i as int, q)]
        0 <= k < rs.len() && rs[k].contains(i) && 0 <= q < subs[i as int].depends_on@.len() ==> {
            let d = dep_of(subs, i as int, q);
            0 <= d < subs.len() && (removed[d] || exists|k2: int| 0 <= k2 < k && #[trigger] rs[k2].contains(d as usize))
        }
}

proof fn lemma_peel_sound(subs: Seq<SubTaskSpec>, removed: Seq<bool>, rs: Seq<Seq<usize>>)
    requires
        removed.len() == subs.len(),
        subs.len() <= usize::MAX,
        peel(subs, removed) == Some(rs),
    ensures
        rounds_sound(subs, removed, rs),
    decreases count_left(removed),
{
    if count_left(removed) == 0 {
        lemma_count_zero(removed);
        assert(rs.len() == 0);
    } else {
        let n = removed.len() as int;
        let r = ready_upto(subs, removed, n);
        lemma_ready_upto_members(subs, removed, n);
        lemma_round_progress(subs, removed);
        let after = after_round(subs, removed);
        let rest = peel(subs, after).unwrap();
        lemma_peel_sound(subs, after, rest);
        assert(rs == seq![r] + rest);
        assert forall|k: int| 0 < k < rs.len() implies #[trigger] rs[k] == rest[k - 1] by {}
        assert(rs[0] == r);
        assert forall|k: int, i: usize| 0 <= k < rs.len() && #[trigger] rs[k].contains(i) implies i < subs.len() && !removed[i as int] by {
            if k == 0 {
                let j = choose|j: int| 0 <= j < r.len() && r[j] == i;
                assert(r[j] == i);
            } else {
                assert(rest[k - 1].contains(i));
            }
        }
        assert forall|i: int| 0 <= i < subs.len() && !removed[i] implies exists|k: int| 0 <= k < rs.len() && #[trigger] rs[k].contains(i as usize) by {
            if is_ready(subs, removed, i) {
                assert(rs[0].contains(i as usize));
            } else {
                assert(!after[i]);
                let k = choose|k: int| 0 <= k < rest.len() && #[trigger] rest[k].contains(i as usize);
                assert(rs[k + 1].contains(i as usize));
            }
        }
        assert forall|k1: int, k2: int, i: usize| 0 <= k1 < rs.len() && 0 <= k2 < rs.len() && #[trigger] rs[k1].contains(i) && #[trigger] rs[k2].contains(i) implies k1 == k2 by {
            if k1 == 0 && k2 > 0 {
                let j = choose|j: int| 0 <= j < r.len() && r[j] == i;
                assert(r[j] == i);
                assert(rest[k2 - 1].contains(i));
                assert(after[i as int]);
            } else if k2 == 0 && k1 > 0 {
                let j = choose|j: int| 0 <= j < r.len() && r[j] == i;
                assert(r[j] == i);
                assert(rest[k1 - 1].contains(i));
                assert(after[i as int]);
            } else if k1 > 0 && k2 > 0 {
                assert(rest[k1 - 1].contains(i));
                assert(rest[k2 - 1].contains(i));
            }
        }
        assert forall|k: int, a: int, b: int| 0 <= k < rs.len() && 0 <= a < b < rs[k].len() implies #[trigger] rs[k][a] < #[trigger] rs[k][b] by {
            if k > 0 {
                assert(rest[k - 1][a] < rest[k - 1][b]);
            }
        }
        assert forall|k: int, i: usize, q: int| #![trigger rs[k].contains(i), dep_of(subs, i as int, q)]
            0 <= k < rs.len() && rs[k].contains(i) && 0 <= q < subs[i as int].depends_on@.len() implies {
                let d = dep_of(subs, i as int, q);
                0 <= d < subs.len() && (removed[d] || exists|k2: int| 0 <= k2 < k && #[trigger] rs[k2].contains(d as usize))
            } by {
            let d = dep_of(subs, i as int, q);
            if k == 0 {
                let j = choose|j: int| 0 <= j < r.len() && r[j] == i;
                assert(r[j] == i);
                assert(is_ready(subs, removed, i as int));
                assert(0 <= title_index(subs, subs[i as int].depends_on@[q]@) < removed.len());
            } else {
                assert(rest[k - 1].contains(i));
                assert(0 <= d < subs.len() && (after[d] || exists|k2: int| 0 <= k2 < k - 1 && #[trigger] rest[k2].contains(d as usize)));
                if !removed[d] {
                    if after[d] {
                        assert(is_ready(subs, removed, d));
                        assert(rs[0].contains(d as usize));
                    } else {
                        let k2 = choose|k2: int| 0 <= k2 < k - 1 && #[trigger] rest[k2].contains(d as usize);
                        assert(rs[k2 + 1].contains(d as usize));
                    }
                }
            }
        }
    }
}


/// Whether a list of indices is strictly ascending.
pub open spec fn ascending(r: Seq<usize>) -> bool {
    forall|a: int, b: int| 0 <= a < b < r.len() ==> #[trigger] r[a] < #[trigger] r[b]
}

proof fn lemma_chunks_sound(r: Seq<usize>, size: nat)
    requires
        size > 0,
        ascending(r),
    ensures
        forall|c: int, i: usize| 0 <= c < chunks(r, size).len() && #[trigger] chunks(r, size)[c].contains(i) ==> r.contains(i),
        forall|i: usize| r.contains(i) ==> exists|c: int| 0 <= c < chunks(r, size).len() && #[trigger] chunks(r, size)[c].contains(i),
        forall|c1: int, c2: int, i: usize| 0 <= c1 < chunks(r, size).len() && 0 <= c2 < chunks(r, size).len()
            && #[trigger] chunks(r, size)[c1].contains(i) && #[trigger] chunks(r, size)[c2].contains(i) ==> c1 == c2,
        forall|c: int| 0 <= c < chunks(r, size).len() ==> ascending(#[trigger] chunks(r, size)[c]),
    decreases r.len(),
{
    let cs = chunks(r, size);
    if r.len() == 0 {
    } else if r.len() <= size {
        assert(cs == seq![r]);
        assert(cs[0] == r);
    } else {
        let head = r.take(size as int);
        let tail = r.skip(size as int);
        assert(ascending(tail)) by {
            assert forall|a: int, b: int| 0 <= a < b < tail.len() implies #[trigger] tail[a] < #[trigger] tail[b] by {
                assert(tail[a] == r[a + size]);
                assert(tail[b] == r[b + size]);
            }
        }
        assert(ascending(head)) by {
            assert forall|a: int, b: int| 0 <= a < b < head.len() implies #[trigger] head[a] < #[trigger] head[b] by {
                assert(head[a] == r[a]);
                assert(head[b] == r[b]);
            }
        }
        lemma_chunks_sound(tail, size);
        let rest = chunks(tail, size);
        assert(cs == seq![head] + rest);
        assert forall|c: int| 0 < c < cs.len() implies #[trigger] cs[c] == rest[c - 1] by {}
        assert forall|c: int, i: usize| 0 <= c < cs.len() && #[trigger] cs[c].contains(i) implies r.contains(i) by {
            if c == 0 {
                let j = choose|j: int| 0 <= j < head.len() && head[j] == i;
                assert(r[j] == i);
            } else {
                assert(rest[c - 1].contains(i));
                assert(tail.contains(i));
                let j = choose|j: int| 0 <= j < tail.len() && tail[j] == i;
                assert(r[j + size] == i);
            }
        }
        assert forall|i: usize| r.contains(i) implies exists|c: int| 0 <= c < cs.len() && #[trigger] cs[c].contains(i) by {
            let j = choose|j: int| 0 <= j < r.len() && r[j] == i;
            if j < size {
                assert(head[j] == i);
                assert(cs[0].contains(i));
            } else {
                assert(tail[j - size] == i);
                assert(tail.contains(i));
                let c = choose|c: int| 0 <= c < rest.len() && #[trigger] rest[c].contains(i);
                assert(cs[c + 1].contains(i));
            }
        }
        assert forall|c1: int, c2: int, i: usize| 0 <= c1 < cs.len() && 0 <= c2 < cs.len()
            && #[trigger] cs[c1].contains(i) && #[trigger] cs[c2].contains(i) implies c1 == c2 by {
            if c1 == 0 && c2 > 0 {
                let a = choose|a: int| 0 <= a < head.len() && head[a] == i;
                assert(rest[c2 - 1].contains(i));
                let b = choose|b: int| 0 <= b < tail.len() && tail[b] == i;
                assert(r[a] == i && r[b + size] == i);
                assert(r[a] < r[b + size]);
            } else if c2 == 0 && c1 > 0 {
                let a = choose|a: int| 0 <= a < head.len() && head[a] == i;
                assert(rest[c1 - 1].contains(i));
                let b = choose|b: int| 0 <= b < tail.len() && tail[b] == i;
                assert(r[a] == i && r[b + size] == i);
                assert(r[a] < r[b + size]);
            } else if c1 > 0 && c2 > 0 {
                assert(rest[c1 - 1].contains(i));
                assert(rest[c2 - 1].contains(i));
            }
        }
        assert forall|c: int| 0 <= c < cs.len() implies ascending(#[trigger] cs[c]) by {
            if c > 0 {
                assert(cs[c] == rest[c - 1]);
            }
        }
    }
}

/// What the waves cut from sound rounds satisfy: the same subtasks, each in
/// one wave, ascending within a wave, and in round order.
pub open spec fn waves_sound(rs: Seq<Seq<usize>>, w: Seq<Seq<usize>>) -> bool {
    &&& forall|k: int, i: usize| 0 <= k < w.len() && #[trigger] w[k].contains(i) ==> exists|m: int| 0 <= m < rs.len() && #[trigger] rs[m].contains(i)
    &&& forall|m: int, i: usize| 0 <= m < rs.len() && #[trigger] rs[m].contains(i) ==> exists|k: int| 0 <= k < w.len() && #[trigger] w[k].contains(i)
    &&& forall|k1: int, k2: int, i: usize| 0 <= k1 < w.len() && 0 <= k2 < w.len() && #[trigger] w[k1].contains(i) && #[trigger] w[k2].contains(i) ==> k1 == k2
    &&& forall|k: int| 0 <= k < w.len() ==> ascending(#[trigger] w[k])
    &&& forall|m1: int, m2: int, k1: int, k2: int, a: usize, b: usize|
        0 <= m1 < m2 < rs.len() && 0 <= k1 < w.len() && 0 <= k2 < w.len()
        && #[trigger] rs[m1].contains(a) && #[trigger] rs[m2].contains(b) && #[trigger] w[k1].contains(a) && #[trigger] w[k2].contains(b) ==> k1 < k2
}

/// Rounds in which no index appears twice, ascending within a round.
pub open spec fn rounds_disjoint(rs: Seq<Seq<usize>>) -> bool {
    &&& forall|k1: int, k2: int, i: usize| 0 <= k1 < rs.len() && 0 <= k2 < rs.len() && #[trigger] rs[k1].contains(i) && #[trigger] rs[k2].contains(i) ==> k1 == k2
    &&& forall|k: int| 0 <= k < rs.len() ==> ascending(#[trigger] rs[k])
}

proof fn lemma_waves_sound(rs: Seq<Seq<usize>>, size: nat)
    requires
        size > 0,
        rounds_disjoint(rs),
    ensures
        waves_sound(rs, waves(rs, size)),
    decreases rs.len(),
{
    let w = waves(rs, size);
    if rs.len() == 0 {
        assert(w.len() == 0);
    } else {
        let init = rs.drop_last();
        let last_i = rs.len() - 1;
        let last = rs.last();
        assert forall|k1: int, k2: int, i: usize| 0 <= k1 < init.len() && 0 <= k2 < init.len() && #[trigger] init[k1].contains(i) && #[trigger] init[k2].contains(i) implies k1 == k2 by {
            assert(rs[k1].contains(i) && rs[k2].contains(i));
        }
        assert forall|k: int| 0 <= k < init.len() implies ascending(#[trigger] init[k]) by {
            assert(init[k] == rs[k]);
        }
        lemma_waves_sound(init, size);
        assert(ascending(rs[last_i]));
        lemma_chunks_sound(last, size);
        let p = waves(init, size);
        let c = chunks(last, size);
        assert(w == p + c);
        let pl = p.len() as int;
        assert forall|k: int| 0 <= k < pl implies #[trigger] w[k] == p[k] by {}
        assert forall|k: int| pl <= k < w.len() implies #[trigger] w[k] == c[k - pl] by {}
        // An index in the first waves comes from an earlier round, so not from the last.
        assert forall|k: int, i: usize| 0 <= k < pl && #[trigger] w[k].contains(i) implies !last.contains(i) by {
            assert(p[k].contains(i));
            let m = choose|m: int| 0 <= m < init.len() && #[trigger] init[m].contains(i);
            assert(rs[m].contains(i));
            if last.contains(i) {
                assert(rs[last_i].contains(i));
            }
        }
        assert forall|k: int, i: usize| 0 <= k < w.len() && #[trigger] w[k].contains(i) implies exists|m: int| 0 <= m < rs.len() && #[trigger] rs[m].contains(i) by {
            if k < pl {
                assert(p[k].contains(i));
                let m = choose|m: int| 0 <= m < init.len() && #[trigger] init[m].contains(i);
                assert(rs[m].contains(i));
            } else {
                assert(c[k - pl].contains(i));
                assert(rs[last_i].contains(i));
            }
        }
        assert forall|m: int, i: usize| 0 <= m < rs.len() && #[trigger] rs[m].contains(i) implies exists|k: int| 0 <= k < w.len() && #[trigger] w[k].contains(i) by {
            if m < last_i {
                assert(init[m].contains(i));
                let k = choose|k: int| 0 <= k < p.len() && #[trigger] p[k].contains(i);
                assert(w[k].contains(i));
            } else {
                let cc = choose|cc: int| 0 <= cc < c.len() && #[trigger] c[cc].contains(i);
                assert(w[cc + pl].contains(i));
            }
        }
        assert forall|k1: int, k2: int, i: usize| 0 <= k1 < w.len() && 0 <= k2 < w.len() && #[trigger] w[k1].contains(i) && #[trigger] w[k2].contains(i) implies k1 == k2 by {
            if k1 < pl && k2 < pl {
                assert(p[k1].contains(i) && p[k2].contains(i));
            } else if k1 >= pl && k2 >= pl {
                assert(c[k1 - pl].contains(i) && c[k2 - pl].contains(i));
            } else if k1 < pl {
                assert(!last.contains(i));
                assert(c[k2 - pl].contains(i));
            } else {
                assert(!last.contains(i));
                assert(c[k1 - pl].contains(i));
            }
        }
        assert forall|k: int| 0 <= k < w.len() implies ascending(#[trigger] w[k]) by {
            if k < pl {
                assert(ascending(p[k]));
            } else {
                assert(ascending(c[k - pl]));
            }
        }
        assert forall|m1: int, m2: int, k1: int, k2: int, a: usize, b: usize|
            0 <= m1 < m2 < rs.len() && 0 <= k1 < w.len() && 0 <= k2 < w.len()
            && #[trigger] rs[m1].contains(a) && #[trigger] rs[m2].contains(b) && #[trigger] w[k1].contains(a) && #[trigger] w[k2].contains(b) implies k1 < k2 by {
            // `a` is not in the last round, so it sits in the first waves.
            assert(m1 != last_i);
            if k1 >= pl {
                assert(c[k1 - pl].contains(a));
                assert(rs[last_i].contains(a));
            }
            if m2 < last_i {
                if k2 >= pl {
                    assert(c[k2 - pl].contains(b));
                    assert(rs[last_i].contains(b));
                }
                assert(init[m1].contains(a) && init[m2].contains(b));
                assert(p[k1].contains(a) && p[k2].contains(b));
            }
        }
    }
}

/// Whether every dependency of a scheduled subtask runs in an earlier wave.
pub open spec fn deps_run_earlier(subs: Seq<SubTaskSpec>, w: Seq<Seq<usize>>) -> bool {
    forall|k: int, i: usize, q: int| 0 <= k < w.len() && 0 <= q < subs[i as int].depends_on@.len()
        && #[trigger] w[k].contains(i) ==> #[trigger] dep_earlier(subs, w, k, i as int, q)
}

/// Whether dependency `q` of subtask `i` runs in a wave before wave `k`.
pub open spec fn dep_earlier(subs: Seq<SubTaskSpec>, w: Seq<Seq<usize>>, k: int, i: int, q: int) -> bool {
    exists|k2: int| 0 <= k2 < k && #[trigger] w[k2].contains(dep_of(subs, i, q) as usize)
}

/// Whether index `i` is in one of the waves.
pub open spec fn scheduled(w: Seq<Seq<usize>>, i: usize) -> bool {
    exists|k: int| 0 <= k < w.len() && #[trigger] w[k].contains(i)
}

proof fn lemma_chunk_sizes(r: Seq<usize>, size: nat)
    requires
        size > 0,
    ensures
        forall|c: int| 0 <= c < chunks(r, size).len() ==> 0 < #[trigger] chunks(r, size)[c].len() <= size,
    decreases r.len(),
{
    if r.len() > size {
        lemma_chunk_sizes(r.skip(size as int), size);
        let rest = chunks(r.skip(size as int), size);
        assert forall|c: int| 0 <= c < chunks(r, size).len() implies 0 < #[trigger] chunks(r, size)[c].len() <= size by {
            if c > 0 {
                assert(chunks(r, size)[c] == rest[c - 1]);
            }
        }
    }
}

proof fn lemma_wave_sizes(rs: Seq<Seq<usize>>, size: nat)
    requires
        size > 0,
    ensures
        forall|k: int| 0 <= k < waves(rs, size).len() ==> 0 < #[trigger] waves(rs, size)[k].len() <= size,
    decreases rs.len(),
{
    if rs.len() > 0 {
        let init = waves(rs.drop_last(), size);
        let last = chunks(rs.last(), size);
        lemma_wave_sizes(rs.drop_last(), size);
        lemma_chunk_sizes(rs.last(), size);
        assert forall|k: int| 0 <= k < waves(rs, size).len() implies 0 < #[trigger] waves(rs, size)[k].len() <= size by {
            if k < init.len() {
                assert(waves(rs, size)[k] == init[k]);
            } else {
                assert(waves(rs, size)[k] == last[k - init.len()]);
            }
        }
    }
}

/// The order of execution is sound: every subtask of the plan runs in
/// exactly one wave, each wave is nonempty, ascending and holds at most
/// the plan's wave size (one subtask when sequential), and each subtask
/// runs in a later wave than every subtask it depends on.
pub proof fn lemma_execution_order_sound(plan: DelegationPlan, w: Seq<Seq<usize>>)
    requires
        execution_order_of(plan) == Ok::<Seq<Seq<usize>>, Seq<char>>(w),
    ensures
        forall|k: int, i: usize| 0 <= k < w.len() && #[trigger] w[k].contains(i) ==> i < plan.subtasks@.len(),
        forall|i: int| 0 <= i < plan.subtasks@.len() ==> #[trigger] scheduled(w, i as usize),
        forall|k1: int, k2: int, i: usize| 0 <= k1 < w.len() && 0 <= k2 < w.len() && #[trigger] w[k1].contains(i) && #[trigger] w[k2].contains(i) ==> k1 == k2,
        forall|k: int, a: int, b: int| 0 <= k < w.len() && 0 <= a < b < w[k].len() ==> #[trigger] w[k][a] < #[trigger] w[k][b],
        forall|k: int| 0 <= k < w.len() ==> 0 < #[trigger] w[k].len() <= wave_size(plan),
        plan.strategy == DelegationStrategy::Sequential ==> forall|k: int| 0 <= k < w.len() ==> #[trigger] w[k].len() == 1,
        deps_run_earlier(plan.subtasks@, w),
{
    let subs = plan.subtasks@;
    assert(plan.subtasks.len() == subs.len());
    let rs = plan_rounds(subs).unwrap();
    let removed = none_done(subs.len());
    lemma_peel_sound(subs, removed, rs);
    assert(rounds_disjoint(rs));
    lemma_waves_sound(rs, wave_size(plan));
    assert(w == waves(rs, wave_size(plan)));
    assert forall|k: int, i: usize| 0 <= k < w.len() && #[trigger] w[k].contains(i) implies i < subs.len() by {
        let m = choose|m: int| 0 <= m < rs.len() && #[trigger] rs[m].contains(i);
    }
    assert forall|i: int| 0 <= i < subs.len() implies #[trigger] scheduled(w, i as usize) by {
        assert(!removed[i]);
        let m = choose|m: int| 0 <= m < rs.len() && #[trigger] rs[m].contains(i as usize);
        let k = choose|k: int| 0 <= k < w.len() && #[trigger] w[k].contains(i as usize);
    }
    assert forall|k: int, a: int, b: int| 0 <= k < w.len() && 0 <= a < b < w[k].len() implies #[trigger] w[k][a] < #[trigger] w[k][b] by {
        assert(ascending(w[k]));
    }
    lemma_wave_sizes(rs, wave_size(plan));
    assert forall|k: int, i: usize, q: int| 0 <= k < w.len() && 0 <= q < subs[i as int].depends_on@.len()
        && #[trigger] w[k].contains(i) implies #[trigger] dep_earlier(subs, w, k, i as int, q) by {
        let m = choose|m: int| 0 <= m < rs.len() && #[trigger] rs[m].contains(i);
        let d = dep_of(subs, i as int, q);
        assert(0 <= d < subs.len() && (removed[d] || exists|m2: int| 0 <= m2 < m && #[trigger] rs[m2].contains(d as usize)));
        assert(!removed[d]);
        let m2 = choose|m2: int| 0 <= m2 < m && #[trigger] rs[m2].contains(d as usize);
        let k2 = choose|k2: int| 0 <= k2 < w.len() && #[trigger] w[k2].contains(d as usize);
        assert(k2 < k);
        assert(w[k2].contains(dep_of(subs, i as int, q) as usize));
    }
    assert(deps_run_earlier(subs, w));
}


/// What chrono's `str::parse::<DateTime<Utc>>` makes of `text`, as whole
/// seconds since the Unix epoch and the nanoseconds past them: nothing
/// when it does not parse.
pub uninterp spec fn utc_time_of(text: Seq<char>) -> Option<(i64, u32)>;

/// Parses a date-time as chrono's `DateTime<Utc>` does (the form serde
/// reads one in) and gives its seconds since the Unix epoch and the
/// nanoseconds past them; the result is named by [`utc_time_of`].
#[verifier::external_body]
fn parse_utc_time(text: &str) -> (res: Option<(i64, u32)>)
    ensures
        res == utc_time_of(text@),
{
    match text.parse::<chrono::DateTime<chrono::Utc>>() {
        Ok(t) => Some((t.timestamp(), t.timestamp_subsec_nanos())),
        Err(_) => None,
    }
}

/// An optional string field as a typed reader takes it: absent or null is
/// no value, a string is a value, anything else is a type error.
pub open spec fn opt_field(v: Option<JsonValue>) -> Option<Option<Seq<char>>> {
    match v {
        None => Some(None),
        Some(JsonValue::Null) => Some(None),
        Some(JsonValue::String(t)) => Some(Some(t@)),
        _ => None,
    }
}

/// The strings of a list whose items are all strings.
pub open spec fn all_strings(items: Seq<JsonValue>) -> Option<Seq<Seq<char>>>
    decreases items.len(),
{
    if items.len() == 0 {
        Some(Seq::empty())
    } else {
        match (all_strings(items.drop_last()), items.last()) {
            (Some(rest), JsonValue::String(t)) => Some(rest.push(t@)),
            _ => None,
        }
    }
}

/// A required list-of-strings field.
pub open spec fn str_list_field(v: Option<JsonValue>) -> Option<Seq<Seq<char>>> {
    match v {
        Some(JsonValue::Array(items)) => all_strings(items@),
        _ => None,
    }
}

/// A subtask read with every field of its declared type: title and
/// description strings, string lists of dependencies and files, optional
/// strings for the rest.
pub open spec fn typed_sub(v: JsonValue) -> Option<SubView> {
    match (json_str(json_get(v, "title"@)), json_str(json_get(v, "description"@)), opt_field(json_get(v, "model"@)),
        opt_field(json_get(v, "priority"@)), str_list_field(json_get(v, "depends_on"@)), str_list_field(json_get(v, "files"@)),
        opt_field(json_get(v, "verify_command"@))) {
        (Some(t), Some(d), Some(m), Some(p), Some(deps), Some(fs), Some(vc)) => Some((t, d, m, p, deps, fs, vc)),
        _ => None,
    }
}

/// The subtasks of a list, each read with its declared types.
pub open spec fn typed_subs(items: Seq<JsonValue>) -> Option<Seq<SubView>>
    decreases items.len(),
{
    if items.len() == 0 {
        Some(Seq::empty())
    } else {
        match (typed_subs(items.drop_last()), typed_sub(items.last())) {
            (Some(rest), Some(x)) => Some(rest.push(x)),
            _ => None,
        }
    }
}

/// A strategy named exactly as the plan format writes it.
pub open spec fn exact_strategy(name: Option<Seq<char>>) -> Option<DelegationStrategy> {
    match name {
        Some(n) => if n == "sequential"@ {
            Some(DelegationStrategy::Sequential)
        } else if n == "parallel"@ {
            Some(DelegationStrategy::Parallel)
        } else if n == "conditional"@ {
            Some(DelegationStrategy::Conditional)
        } else {
            None
        },
        None => None,
    }
}

/// An optional whole-number field: absent or null is none.
pub open spec fn opt_u64_field(v: Option<JsonValue>) -> Option<Option<u64>> {
    match v {
        None => Some(None),
        Some(JsonValue::Null) => Some(None),
        Some(JsonValue::Number(Some(n))) => Some(Some(n)),
        _ => None,
    }
}

/// A fully written plan: parent, strategy, subtasks, creation time,
/// parallel limit, fail-fast flag and timeout.
pub type TypedPlan = (Seq<char>, DelegationStrategy, Seq<SubView>, UtcTime, usize, bool, Option<u64>);

/// The plan a JSON object spells out field by field in the plan's own
/// format, read with every field of its declared type; nothing when a
/// field is missing or of another type.
pub open spec fn typed_plan(v: JsonValue) -> Option<TypedPlan> {
    let parent = json_str(json_get(v, "parent_task_id"@));
    let strategy = exact_strategy(json_str(json_get(v, "strategy"@)));
    let subs = match json_items(json_get(v, "subtasks"@)) {
        Some(items) => typed_subs(items),
        None => None,
    };
    let created = match json_str(json_get(v, "created_at"@)) {
        Some(t) => match utc_time_of(t) {
            Some((secs, nanos)) => Some(UtcTime { secs, nanos }),
            None => None,
        },
        None => None,
    };
    let mp = json_u64(json_get(v, "max_parallel"@));
    let ff = json_bool(json_get(v, "fail_fast"@));
    let to = opt_u64_field(json_get(v, "timeout_secs"@));
    match (parent, strategy, subs, created, mp, ff, to) {
        (Some(a), Some(b), Some(c), Some(d), Some(e), Some(f), Some(g)) => if e <= usize::MAX {
            Some((a, b, c, d, e as usize, f, g))
        } else {
            None
        },
        _ => None,
    }
}

/// Whether `p` is the plan `tp` spells out.
pub open spec fn plan_is_typed(p: DelegationPlan, tp: TypedPlan) -> bool {
    &&& p.parent_task_id@ == tp.0
    &&& p.strategy == tp.1
    &&& sub_views(p.subtasks@) == tp.2
    &&& p.created_at == tp.3
    &&& p.max_parallel == tp.4
    &&& p.fail_fast == tp.5
    &&& p.timeout_secs == tp.6
}

fn opt_field_exec(v: Option<&JsonValue>) -> (res: Option<Option<String>>)
    ensures
        match res {
            Some(o) => opt_field(match v { Some(x) => Some(*x), None => None }) == Some(opt_text(o)),
            None => opt_field(match v { Some(x) => Some(*x), None => None }) is None,
        },
{
    match v {
        None => Some(None),
        Some(JsonValue::Null) => Some(None),
        Some(JsonValue::String(t)) => Some(Some(String::from_str(t.as_str()))),
        _ => None,
    }
}

fn str_list_exec(v: Option<&JsonValue>) -> (res: Option<Vec<String>>)
    ensures
        match res {
            Some(l) => str_list_field(match v { Some(x) => Some(*x), None => None }) == Some(l.deep_view()),
            None => str_list_field(match v { Some(x) => Some(*x), None => None }) is None,
        },
{
    let items = match v {
        Some(JsonValue::Array(items)) => items,
        _ => {
            return None;
        },
    };
    let mut out: Vec<String> = Vec::new();
    let mut i: usize = 0;
    assert(items@.take(0) =~= Seq::<JsonValue>::empty());
    assert(out.deep_view() =~= Seq::<Seq<char>>::empty());
    while i < items.len()
        invariant
            i <= items@.len(),
            all_strings(items@.take(i as int)) == Some(out.deep_view()),
            str_list_field(match v { Some(x) => Some(*x), None => None }) == all_strings(items@),
        decreases items@.len() - i,
    {
        assert(items@.take(i + 1).drop_last() =~= items@.take(i as int));
        assert(items@.take(i + 1).last() == items@[i as int]);
        match &items[i] {
            JsonValue::String(t) => {
                let ghost before = out.deep_view();
                out.push(String::from_str(t.as_str()));
                assert(out.deep_view() =~= before.push(t@));
            },
            _ => {
                proof {
                    lemma_all_strings_prefix_none(items@, i + 1);
                }
                return None;
            },
        }
        i = i + 1;
    }
    assert(items@.take(items@.len() as int) =~= items@);
    Some(out)
}

proof fn lemma_all_strings_prefix_none(items: Seq<JsonValue>, n: int)
    requires
        0 <= n <= items.len(),
        all_strings(items.take(n)) is None,
    ensures
        all_strings(items) is None,
    decreases items.len() - n,
{
    if n < items.len() {
        assert(items.take(n + 1).drop_last() =~= items.take(n));
        lemma_all_strings_prefix_none(items, n + 1);
    } else {
        assert(items.take(n) =~= items);
    }
}

proof fn lemma_typed_subs_prefix_none(items: Seq<JsonValue>, n: int)
    requires
        0 <= n <= items.len(),
        typed_subs(items.take(n)) is None,
    ensures
        typed_subs(items) is None,
    decreases items.len() - n,
{
    if n < items.len() {
        assert(items.take(n + 1).drop_last() =~= items.take(n));
        lemma_typed_subs_prefix_none(items, n + 1);
    } else {
        assert(items.take(n) =~= items);
    }
}

fn typed_subtask(item: &JsonValue) -> (res: Option<SubTaskSpec>)
    ensures
        match res {
            Some(s) => typed_sub(*item) == Some(sub_view(s)),
            None => typed_sub(*item) is None,
        },
{
    let title = match item.get("title") { Some(x) => x.as_str(), None => None };
    let description = match item.get("description") { Some(x) => x.as_str(), None => None };
    let model = opt_field_exec(item.get("model"));
    let priority = opt_field_exec(item.get("priority"));
    let depends_on = str_list_exec(item.get("depends_on"));
    let files = str_list_exec(item.get("files"));
    let verify_command = opt_field_exec(item.get("verify_command"));
    match (title, description, model, priority, depends_on, files, verify_command) {
        (Some(t), Some(d), Some(m), Some(p), Some(deps), Some(fs), Some(vc)) => Some(SubTaskSpec {
            title: String::from_str(t),
            description: String::from_str(d),
            model: m,
            priority: p,
            depends_on: deps,
            files: fs,
            verify_command: vc,
        }),
        _ => None,
    }
}

/// Reads a plan that a JSON object spells out in the plan's own format
/// (see [`typed_plan`]).
fn typed_plan_from_json(value: &JsonValue) -> (res: Option<DelegationPlan>)
    ensures
        match res {
            Some(p) => typed_plan(*value) matches Some(tp) && plan_is_typed(p, tp),
            None => typed_plan(*value) is None,
        },
{
    proof {
        reveal_strlit("sequential");
        reveal_strlit("parallel");
        reveal_strlit("conditional");
        assert("sequential"@.len() == 10 && "parallel"@.len() == 8 && "conditional"@.len() == 11);
    }
    let parent = match value.get("parent_task_id") { Some(x) => x.as_str(), None => None };
    let strategy = match value.get("strategy") {
        Some(x) => match x.as_str() {
            Some(n) => if str_eq(n, "sequential") {
                Some(DelegationStrategy::Sequential)
            } else if str_eq(n, "parallel") {
                Some(DelegationStrategy::Parallel)
            } else if str_eq(n, "conditional") {
                Some(DelegationStrategy::Conditional)
            } else {
                None
            },
            None => None,
        },
        None => None,
    };
    let created = match value.get("created_at") {
        Some(x) => match x.as_str() {
            Some(t) => match parse_utc_time(t) {
                Some((secs, nanos)) => Some(UtcTime { secs, nanos }),
                None => None,
            },
            None => None,
        },
        None => None,
    };
    let mp = match value.get("max_parallel") { Some(x) => x.as_u64(), None => None };
    let ff = match value.get("fail_fast") { Some(x) => x.as_bool(), None => None };
    let to: Option<Option<u64>> = match value.get("timeout_secs") {
        None => Some(None),
        Some(JsonValue::Null) => Some(None),
        Some(JsonValue::Number(Some(n))) => Some(Some(*n)),
        _ => None,
    };
    let (parent, strategy, created, mp, ff, to) = match (parent, strategy, created, mp, ff, to) {
        (Some(a), Some(b), Some(d), Some(e), Some(f), Some(g)) => (a, b, d, e, f, g),
        _ => {
            return None;
        },
    };
    if mp as u128 > usize::MAX as u128 {
        return None;
    }
    assert(mp <= usize::MAX);
    let items = match value.get("subtasks") {
        Some(x) => match x.as_array() {
            Some(items) => items,
            None => {
                return None;
            },
        },
        None => {
            return None;
        },
    };
    let ghost typed_rest = match typed_subs(items@) {
        Some(c) => Some((parent@, strategy, c, created, mp as usize, ff, to)),
        None => None,
    };
    assert(typed_plan(*value) == typed_rest);
    let mut plan = DelegationPlan::new(parent, created);
    plan.strategy = strategy;
    plan.max_parallel = mp as usize;
    plan.fail_fast = ff;
    plan.timeout_secs = to;
    let mut i: usize = 0;
    assert(items@.take(0) =~= Seq::<JsonValue>::empty());
    assert(sub_views(plan.subtasks@) =~= Seq::<SubView>::empty());
    while i < items.len()
        invariant
            i <= items@.len(),
            typed_subs(items@.take(i as int)) == Some(sub_views(plan.subtasks@)),
            plan.parent_task_id@ == parent@,
            plan.strategy == strategy,
            plan.created_at == created,
            plan.max_parallel == mp as usize,
            plan.fail_fast == ff,
            plan.timeout_secs == to,
            typed_plan(*value) == typed_rest,
            typed_rest == (match typed_subs(items@) {
                Some(c) => Some((parent@, strategy, c, created, mp as usize, ff, to)),
                None => None::<TypedPlan>,
            }),
            mp <= usize::MAX,
        decreases items@.len() - i,
    {
        assert(items@.take(i + 1).drop_last() =~= items@.take(i as int));
        assert(items@.take(i + 1).last() == items@[i as int]);
        match typed_subtask(&items[i]) {
            Some(sub) => {
                let ghost before = plan.subtasks@;
                plan.add_subtask(sub);
                assert(sub_views(plan.subtasks@) =~= sub_views(before).push(sub_view(sub)));
            },
            None => {
                proof {
                    lemma_typed_subs_prefix_none(items@, i + 1);
                }
                return None;
            },
        }
        i = i + 1;
    }
    assert(items@.take(items@.len() as int) =~= items@);
    Some(plan)
}

/// Whether the typed reading of `v` gives no valid plan.
pub open spec fn typed_fails(v: JsonValue) -> bool {
    match typed_plan(v) {
        None => true,
        Some(tp) => exists|p: DelegationPlan| #[trigger] plan_is_typed(p, tp) && validation_errors(p.subtasks@).len() > 0,
    }
}

/// Whether `r` is what reading the plan candidate `candidate` gives: its
/// JSON text (see [`plan_json_text_of`]) must parse; a value that spells
/// out a valid plan in the plan's own format (see [`typed_plan`]) gives
/// that plan; otherwise the value must describe a valid plan with a
/// nonempty subtask list (see [`json_plan_matches`]); otherwise nothing.
pub open spec fn candidate_result(candidate: Seq<char>, fallback: Seq<char>, created_at: UtcTime, r: Option<DelegationPlan>) -> bool {
    match plan_json_text_of(candidate) {
        None => r is None,
        Some(t) => match json_of(t) {
            Err(_) => r is None,
            Ok(v) => match r {
                Some(p) => (typed_plan(v) matches Some(tp) && plan_is_typed(p, tp) && validation_errors(p.subtasks@).len() == 0)
                    || (typed_fails(v) && json_plan_matches(v, fallback, created_at, p) && validation_errors(p.subtasks@).len() == 0),
                None => typed_fails(v) && (!has_subtask_list(v) || exists|p: DelegationPlan| #[trigger] json_plan_matches(v, fallback, created_at, p) && validation_errors(p.subtasks@).len() > 0),
            },
        },
    }
}

/// Reads a plan from a candidate text: its first JSON object (or the whole
/// text when it starts with `{` and holds no complete object), parsed; an
/// object that spells out a valid plan in the plan's own format is that
/// plan, else it is read as a plan whose parent is `fallback` unless the
/// object names one. Nothing when no text, parse or valid nonempty plan
/// comes of it.
pub fn parse_plan_candidate(candidate: &str, fallback: &str, created_at: UtcTime) -> (res: Option<DelegationPlan>)
    ensures
        candidate_result(candidate@, fallback@, created_at, res),
{
    let text = match plan_json_text(candidate) {
        Some(t) => t,
        None => {
            return None;
        },
    };
    match parse_json(text.as_str()) {
        Ok(v) => {
            if let Some(p) = typed_plan_from_json(&v) {
                if p.validate().is_ok() {
                    return Some(p);
                }
            }
            plan_from_json(&v, fallback, created_at)
        },
        Err(_) => None,
    }
}

/// Whether `r` is what the checkbox reading of `output` gives (see
/// [`plan_from_checkboxes`]).
pub open spec fn checkbox_result(output: Seq<char>, created_at: UtcTime, r: Option<DelegationPlan>) -> bool {
    let titles = checkbox_titles(lines(output));
    match r {
        Some(p) => titles.len() > 0 && checkbox_plan_matches(titles, created_at, p) && validation_errors(p.subtasks@).len() == 0,
        None => titles.len() == 0 || exists|p: DelegationPlan| #[trigger] checkbox_plan_matches(titles, created_at, p) && validation_errors(p.subtasks@).len() > 0,
    }
}

/// Whether the text after a "DELEGATE:" marker gives no plan.
pub open spec fn marked_fails(output: Seq<char>, created_at: UtcTime) -> bool {
    match delegate_candidate_of(output) {
        Some((prefix, c)) => candidate_result(c, prefix, created_at, None),
        None => true,
    }
}

/// Whether the first JSON object of the output gives no plan.
pub open spec fn object_fails(output: Seq<char>, created_at: UtcTime) -> bool {
    match first_json_object(output) {
        Some(o) => candidate_result(o, "parent"@, created_at, None),
        None => true,
    }
}

/// Reads a delegation plan from an agent's output, trying in turn the text
/// after a "DELEGATE:" marker (with the text before the marker as the
/// fallback parent), the first JSON object of the output (parent
/// "parent"), and the markdown checkboxes of the output.
pub fn parse_delegation_from_agent_output(output: &str, created_at: UtcTime) -> (res: Option<DelegationPlan>)
    ensures
        match res {
            Some(p) => {
                ||| (delegate_candidate_of(output@) matches Some((prefix, c)) && candidate_result(c, prefix, created_at, Some(p)))
                ||| (marked_fails(output@, created_at) && (first_json_object(output@) matches Some(o)
                    && candidate_result(o, "parent"@, created_at, Some(p))))
                ||| (marked_fails(output@, created_at) && object_fails(output@, created_at)
                    && checkbox_result(output@, created_at, Some(p)))
            },
            None => marked_fails(output@, created_at) && object_fails(output@, created_at)
                && checkbox_result(output@, created_at, None),
        },
{
    if let Some((prefix, candidate)) = extract_delegate_json_candidate(output) {
        if let Some(plan) = parse_plan_candidate(candidate.as_str(), prefix.as_str(), created_at) {
            return Some(plan);
        }
    }
    if let Some(candidate) = extract_first_json_object(output) {
        if let Some(plan) = parse_plan_candidate(candidate.as_str(), "parent", created_at) {
            return Some(plan);
        }
    }
    plan_from_checkboxes(output, created_at)
}

} // verus!
