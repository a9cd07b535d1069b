//! Decisions of the daemon loop that do not touch the outside world: restack
//! retry backoff, token budgets, shutdown draining and the reading of `gh`
//! output. Times are nanoseconds since the Unix epoch.

use vstd::prelude::*;
use crate::str_map::KeyMap;
use crate::text::{str_eq, str_trim, trim};

verus! {

/// How many restack attempts a task gets.
pub const RESTACK_RETRY_MAX_RETRIES: u32 = 3;

/// The wait before the second restack attempt, in seconds.
pub const RESTACK_RETRY_INITIAL_BACKOFF_SECS: u64 = 5;

/// Restack retries of one task: attempts so far, their limit, the time of
/// the last attempt, and the wait before the next one.
#[derive(Debug, Clone, Copy, PartialEq, Eq, Structural)]
pub struct RestackRetryState {
    pub attempts: u32,
    pub max_retries: u32,
    pub last_attempt: i64,
    pub backoff_secs: u64,
}

impl View for RestackRetryState {
    type V = RestackRetryState;

    open spec fn view(&self) -> RestackRetryState {
        *self
    }
}

/// `b * 2`, or `u64::MAX` where that overflows.
pub open spec fn doubled(b: u64) -> u64 {
    if b * 2 > u64::MAX { u64::MAX } else { (b * 2) as u64 }
}

/// The retry state after a further attempt at `now`, or `None` once the
/// attempts are used up.
pub open spec fn next_retry(s: RestackRetryState, now: i64) -> Option<RestackRetryState> {
    if s.attempts >= s.max_retries {
        None
    } else {
        Some(RestackRetryState {
            attempts: (s.attempts + 1) as u32,
            max_retries: s.max_retries,
            last_attempt: now,
            backoff_secs: doubled(s.backoff_secs),
        })
    }
}

/// The state of a first attempt at `now`.
pub open spec fn first_retry(now: i64) -> RestackRetryState {
    RestackRetryState {
        attempts: 1,
        max_retries: RESTACK_RETRY_MAX_RETRIES,
        last_attempt: now,
        backoff_secs: RESTACK_RETRY_INITIAL_BACKOFF_SECS,
    }
}

/// When the next attempt may run.
pub open spec fn ready_at(s: RestackRetryState) -> int {
    s.last_attempt + s.backoff_secs * 1_000_000_000
}

/// Whether a retry state's next attempt time fits the clock.
pub open spec fn ready_time_fits(s: RestackRetryState) -> bool {
    s.backoff_secs <= i64::MAX / 1000 && i64::MIN <= ready_at(s) <= i64::MAX
}

impl RestackRetryState {
    /// The first attempt, at `now`.
    pub fn first(now: i64) -> (res: Self)
        ensures
            res == first_retry(now),
    {
        RestackRetryState {
            attempts: 1,
            max_retries: RESTACK_RETRY_MAX_RETRIES,
            last_attempt: now,
            backoff_secs: RESTACK_RETRY_INITIAL_BACKOFF_SECS,
        }
    }

    /// A further attempt at `now`, doubling the wait; `None` once
    /// `max_retries` attempts were made.
    pub fn next(&self, now: i64) -> (res: Option<Self>)
        ensures
            res == next_retry(*self, now),
    {
        if self.attempts >= self.max_retries {
            return None;
        }
        let backoff = match self.backoff_secs.checked_mul(2) {
            Some(v) => v,
            None => u64::MAX,
        };
        Some(RestackRetryState {
            attempts: self.attempts + 1,
            max_retries: self.max_retries,
            last_attempt: now,
            backoff_secs: backoff,
        })
    }

    /// When the next attempt may run.
    pub fn retry_ready_at(&self) -> (res: i64)
        requires
            ready_time_fits(*self),
        ensures
            res == ready_at(*self),
    {
        let wide: i128 = self.last_attempt as i128 + (self.backoff_secs as i128) * 1_000_000_000i128;
        wide as i64
    }

    /// Whether the next attempt may run at `now`.
    pub fn is_ready(&self, now: i64) -> (res: bool)
        requires
            ready_time_fits(*self),
        ensures
            res == (now >= ready_at(*self)),
    {
        now >= self.retry_ready_at()
    }
}

/// Token budget limits.
#[derive(Debug, Clone, Copy, PartialEq, Eq, Structural)]
pub struct BudgetConfig {
    pub enabled: bool,
    pub daily_token_limit: u64,
    pub monthly_token_limit: u64,
}

/// The daemon's state between ticks that its own decisions read: restack
/// retries by task, token use, and shutdown.
#[derive(Debug)]
pub struct DaemonState {
    pub restack_retries: KeyMap<RestackRetryState>,
    pub shutdown_requested: bool,
    /// The monotonic time by which running agents must have drained.
    pub shutdown_deadline: Option<i64>,
    pub budget_used_today: u64,
    pub budget_used_month: u64,
    pub budget_last_reset_day: Option<u32>,
    pub budget_last_reset_month: Option<u32>,
    pub budget_output_chars_by_task: KeyMap<u64>,
    /// The head commit at which each task's worktree last passed verify.
    pub verify_cache: KeyMap<String>,
}

/// Whether work may be spawned under the budget.
pub open spec fn within_budget(today: u64, month: u64, c: BudgetConfig) -> bool {
    !c.enabled || (today < c.daily_token_limit && month < c.monthly_token_limit)
}

impl DaemonState {
    /// No retries, no shutdown, nothing used.
    pub fn new() -> (res: Self)
        ensures
            res.restack_retries@ == Map::<Seq<char>, RestackRetryState>::empty(),
            !res.shutdown_requested,
            res.shutdown_deadline is None,
            res.budget_used_today == 0,
            res.budget_used_month == 0,
            res.budget_last_reset_day is None,
            res.budget_last_reset_month is None,
            res.budget_output_chars_by_task@ == Map::<Seq<char>, u64>::empty(),
            res.verify_cache@ == Map::<Seq<char>, Seq<char>>::empty(),
    {
        DaemonState {
            restack_retries: KeyMap::new(),
            shutdown_requested: false,
            shutdown_deadline: None,
            budget_used_today: 0,
            budget_used_month: 0,
            budget_last_reset_day: None,
            budget_last_reset_month: None,
            budget_output_chars_by_task: KeyMap::new(),
            verify_cache: KeyMap::new(),
        }
    }

    /// Starts draining: new work stops, and running agents have until
    /// `drain_timeout_secs` after `now` (monotonic nanoseconds).
    pub fn request_shutdown(&mut self, drain_timeout_secs: u64, now: i64)
        requires
            now + drain_timeout_secs * 1_000_000_000 <= i64::MAX,
        ensures
            final(self).shutdown_requested,
            final(self).shutdown_deadline == Some((now + drain_timeout_secs * 1_000_000_000) as i64),
            final(self).restack_retries@ == old(self).restack_retries@,
            final(self).budget_used_today == old(self).budget_used_today,
            final(self).budget_used_month == old(self).budget_used_month,
    {
        self.shutdown_requested = true;
        let wide: i128 = now as i128 + (drain_timeout_secs as i128) * 1_000_000_000i128;
        self.shutdown_deadline = Some(wide as i64);
    }

    /// Whether the budget allows more work.
    pub fn check_budget(&self, config: &BudgetConfig) -> (res: bool)
        ensures
            res == within_budget(self.budget_used_today, self.budget_used_month, *config),
    {
        if !config.enabled {
            return true;
        }
        self.budget_used_today < config.daily_token_limit && self.budget_used_month < config.monthly_token_limit
    }

    /// Starts a new day or month of budget: the day's use is cleared when
    /// `today` differs from the last reset day, the month's likewise.
    pub fn maybe_reset_budget(&mut self, today: u32, month: u32)
        ensures
            final(self).budget_last_reset_day == Some(today),
            final(self).budget_last_reset_month == Some(month),
            final(self).budget_used_today == if old(self).budget_last_reset_day == Some(today) { old(self).budget_used_today } else { 0 },
            final(self).budget_used_month == if old(self).budget_last_reset_month == Some(month) { old(self).budget_used_month } else { 0 },
            final(self).restack_retries@ == old(self).restack_retries@,
            final(self).shutdown_requested == old(self).shutdown_requested,
    {
        if self.budget_last_reset_day != Some(today) {
            self.budget_used_today = 0;
            self.budget_last_reset_day = Some(today);
        }
        if self.budget_last_reset_month != Some(month) {
            self.budget_used_month = 0;
            self.budget_last_reset_month = Some(month);
        }
    }

    /// Schedules a restack retry of `task_id` at `now`: the first attempt,
    /// or the next one; once the attempts are used up the task's retry state
    /// is dropped and `None` returned.
    pub fn schedule_restack_retry(&mut self, task_id: &str, now: i64) -> (res: Option<RestackRetryState>)
        ensures
            res == match old(self).restack_retries@.get(task_id@) {
                Some(s) => next_retry(s, now),
                None => Some(first_retry(now)),
            },
            final(self).restack_retries@ == match res {
                Some(s) => old(self).restack_retries@.insert(task_id@, s),
                None => old(self).restack_retries@.remove(task_id@),
            },
            final(self).budget_used_today == old(self).budget_used_today,
            final(self).budget_used_month == old(self).budget_used_month,
    {
        let next = match self.restack_retries.get(task_id) {
            Some(existing) => existing.next(now),
            None => Some(RestackRetryState::first(now)),
        };
        match next {
            Some(state) => {
                self.restack_retries.insert(String::from_str(task_id), state);
                Some(state)
            },
            None => {
                self.restack_retries.remove(task_id);
                None
            },
        }
    }

    /// Adds the characters of an agent's output lines to the task's count.
    pub fn track_output_chars(&mut self, task_id: &str, lines: &Vec<String>)
        requires
            total_chars(lines.deep_view()) + match old(self).budget_output_chars_by_task@.get(task_id@) {
                Some(c) => c as int,
                None => 0int,
            } <= u64::MAX,
        ensures
            final(self).budget_output_chars_by_task@ == old(self).budget_output_chars_by_task@.insert(
                task_id@,
                (total_chars(lines.deep_view()) + match old(self).budget_output_chars_by_task@.get(task_id@) {
                    Some(c) => c as int,
                    None => 0int,
                }) as u64,
            ),
            final(self).restack_retries@ == old(self).restack_retries@,
            final(self).budget_used_today == old(self).budget_used_today,
    {
        let chars = sum_chars(lines);
        let before: u64 = match self.budget_output_chars_by_task.get(task_id) {
            Some(c) => *c,
            None => 0,
        };
        self.budget_output_chars_by_task.insert(String::from_str(task_id), before + chars);
    }

    /// Forgets the restack retries of tasks whose pipeline is gone: only
    /// the entries keyed by a task in `live` stay.
    pub fn keep_restack_retries_of(&mut self, live: &Vec<String>)
        ensures
            final(self).restack_retries@ == old(self).restack_retries@.restrict(live.deep_view().to_set()),
            final(self).budget_output_chars_by_task@ == old(self).budget_output_chars_by_task@,
            final(self).budget_used_today == old(self).budget_used_today,
            final(self).budget_used_month == old(self).budget_used_month,
            final(self).shutdown_requested == old(self).shutdown_requested,
    {
        self.restack_retries.retain_keys(live);
    }

    /// Whether verify can be skipped for `task_id`: its worktree's head
    /// commit is known and is the one at which verify last passed.
    pub fn verify_cache_hit(&self, task_id: &str, head_sha: Option<&str>) -> (res: bool)
        ensures
            res == match head_sha {
                Some(sha) => self.verify_cache@.get(task_id@) == Some(sha@),
                None => false,
            },
    {
        match head_sha {
            Some(sha) => match self.verify_cache.get(task_id) {
                Some(cached) => str_eq(cached.as_str(), sha),
                None => false,
            },
            None => false,
        }
    }

    /// Records how verify of `task_id` went: a pass at a known head commit
    /// is remembered, a failure forgets the task's entry, and a pass at an
    /// unknown head leaves the cache as it was.
    pub fn record_verify(&mut self, task_id: &str, passed: bool, head_sha: Option<&str>)
        ensures
            final(self).verify_cache@ == if passed {
                match head_sha {
                    Some(sha) => old(self).verify_cache@.insert(task_id@, sha@),
                    None => old(self).verify_cache@,
                }
            } else {
                old(self).verify_cache@.remove(task_id@)
            },
            final(self).restack_retries@ == old(self).restack_retries@,
            final(self).budget_output_chars_by_task@ == old(self).budget_output_chars_by_task@,
            final(self).budget_used_today == old(self).budget_used_today,
            final(self).budget_used_month == old(self).budget_used_month,
    {
        if passed {
            match head_sha {
                Some(sha) => {
                    self.verify_cache.insert(String::from_str(task_id), String::from_str(sha));
                },
                None => {},
            }
        } else {
            self.verify_cache.remove(task_id);
        }
    }

    /// Closes the output count of a finished run of `task_id`: its entry is
    /// removed, its verify cache entry is forgotten, and the tokens it stands for (see
    /// [`estimate_tokens_from_char_count`]) are added to the day's and the
    /// month's use, saturating at `u64::MAX`. Returns those tokens.
    pub fn settle_run_usage(&mut self, task_id: &str) -> (tokens: u64)
        ensures
            tokens == (match old(self).budget_output_chars_by_task@.get(task_id@) {
                Some(c) => c as int,
                None => 0int,
            } + 3) / 4,
            final(self).budget_output_chars_by_task@ == old(self).budget_output_chars_by_task@.remove(task_id@),
            final(self).verify_cache@ == old(self).verify_cache@.remove(task_id@),
            final(self).budget_used_today == saturated(old(self).budget_used_today as int + tokens),
            final(self).budget_used_month == saturated(old(self).budget_used_month as int + tokens),
            final(self).budget_used_today >= old(self).budget_used_today,
            final(self).budget_used_month >= old(self).budget_used_month,
            final(self).restack_retries@ == old(self).restack_retries@,
            final(self).shutdown_requested == old(self).shutdown_requested,
            final(self).budget_last_reset_day == old(self).budget_last_reset_day,
            final(self).budget_last_reset_month == old(self).budget_last_reset_month,
    {
        self.verify_cache.remove(task_id);
        let chars: u64 = match self.budget_output_chars_by_task.remove(task_id) {
            Some(c) => c,
            None => 0,
        };
        let tokens = estimate_tokens_from_char_count(chars);
        self.budget_used_today = self.budget_used_today.saturating_add(tokens);
        self.budget_used_month = self.budget_used_month.saturating_add(tokens);
        tokens
    }
}

/// What a task's pipeline does at its verify stage.
#[derive(Debug, Clone, Copy, PartialEq, Eq, Structural)]
pub enum VerifyAction {
    /// Move the pipeline to its next stage.
    Advance,
    /// Run the verify command.
    Run,
    /// Fail the pipeline, drop it, and hand the task to the retry path.
    FailAndRetry,
}

impl DaemonState {
    /// One decision at a pipeline's verify stage. Before verify has run
    /// (`outcome` is `None`) a cache hit at the worktree's head commit
    /// advances the pipeline without running it, and otherwise verify runs;
    /// nothing changes. After a run, the outcome is recorded in the cache; a
    /// pass advances, and a failure also drops the task's restack retry
    /// state and sends the task to the retry path.
    pub fn verify_step(&mut self, task_id: &str, head_sha: Option<&str>, outcome: Option<bool>) -> (res: VerifyAction)
        ensures
            outcome is None ==> {
                &&& res == (if (match head_sha {
                    Some(sha) => old(self).verify_cache@.get(task_id@) == Some(sha@),
                    None => false,
                }) {
                    VerifyAction::Advance
                } else {
                    VerifyAction::Run
                })
                &&& final(self).verify_cache@ == old(self).verify_cache@
                &&& final(self).restack_retries@ == old(self).restack_retries@
            },
            outcome == Some(true) ==> {
                &&& res == VerifyAction::Advance
                &&& final(self).verify_cache@ == match head_sha {
                    Some(sha) => old(self).verify_cache@.insert(task_id@, sha@),
                    None => old(self).verify_cache@,
                }
                &&& final(self).restack_retries@ == old(self).restack_retries@
            },
            outcome == Some(false) ==> {
                &&& res == VerifyAction::FailAndRetry
                &&& final(self).verify_cache@ == old(self).verify_cache@.remove(task_id@)
                &&& final(self).restack_retries@ == old(self).restack_retries@.remove(task_id@)
            },
            final(self).budget_output_chars_by_task@ == old(self).budget_output_chars_by_task@,
            final(self).budget_used_today == old(self).budget_used_today,
            final(self).budget_used_month == old(self).budget_used_month,
    {
        match outcome {
            None => {
                if self.verify_cache_hit(task_id, head_sha) {
                    VerifyAction::Advance
                } else {
                    VerifyAction::Run
                }
            },
            Some(passed) => {
                self.record_verify(task_id, passed, head_sha);
                if passed {
                    VerifyAction::Advance
                } else {
                    self.restack_retries.remove(task_id);
                    VerifyAction::FailAndRetry
                }
            },
        }
    }
}

/// `n` capped at `u64::MAX`.
pub open spec fn saturated(n: int) -> u64 {
    if n > u64::MAX { u64::MAX } else { n as u64 }
}

impl Default for DaemonState {
    /// The same as [`DaemonState::new`].
    fn default() -> (res: Self)
        ensures
            res.restack_retries@ == Map::<Seq<char>, RestackRetryState>::empty(),
            !res.shutdown_requested,
            res.shutdown_deadline is None,
            res.budget_used_today == 0,
            res.budget_used_month == 0,
            res.budget_last_reset_day is None,
            res.budget_last_reset_month is None,
            res.budget_output_chars_by_task@ == Map::<Seq<char>, u64>::empty(),
            res.verify_cache@ == Map::<Seq<char>, Seq<char>>::empty(),
    {
        DaemonState::new()
    }
}

/// The number of characters over all lines.
pub open spec fn total_chars(lines: Seq<Seq<char>>) -> nat
    decreases lines.len(),
{
    if lines.len() == 0 {
        0
    } else {
        total_chars(lines.drop_last()) + lines.last().len()
    }
}

fn sum_chars(lines: &Vec<String>) -> (res: u64)
    requires
        total_chars(lines.deep_view()) <= u64::MAX,
    ensures
        res == total_chars(lines.deep_view()),
{
    let ghost dv = lines.deep_view();
    let mut total: u64 = 0;
    let mut i: usize = 0;
    while i < lines.len()
        invariant
            dv == lines.deep_view(),
            i <= dv.len(),
            total == total_chars(dv.take(i as int)),
            total_chars(dv) <= u64::MAX,
        decreases dv.len() - i,
    {
        proof {
            assert(dv.take(i + 1).drop_last() =~= dv.take(i as int));
            lemma_total_chars_prefix(dv, i + 1);
        }
        let n = lines[i].as_str().unicode_len();
        assert(n == dv[i as int].len());
        total = total + n as u64;
        i = i + 1;
    }
    assert(dv.take(dv.len() as int) =~= dv);
    total
}

proof fn lemma_total_chars_prefix(s: Seq<Seq<char>>, k: int)
    requires
        0 <= k <= s.len(),
    ensures
        total_chars(s.take(k)) <= total_chars(s),
    decreases s.len() - k,
{
    if k < s.len() {
        lemma_total_chars_prefix(s, k + 1);
        assert(s.take(k + 1).drop_last() =~= s.take(k));
    } else {
        assert(s.take(k) =~= s);
    }
}

/// Tokens estimated from a character count: one per four characters,
/// rounded up.
pub fn estimate_tokens_from_char_count(chars: u64) -> (res: u64)
    ensures
        res == (chars + 3) / 4,
{
    chars / 4 + if chars % 4 != 0 { 1 } else { 0 }
}

/// What `String::from_utf8_lossy` makes of `bytes`: the characters they
/// encode, with each invalid sequence replaced by U+FFFD.
pub uninterp spec fn utf8_lossy(bytes: Seq<u8>) -> Seq<char>;

/// Decodes bytes with `String::from_utf8_lossy`. Bytes that are all ASCII
/// decode one character per byte.
#[verifier::external_body]
fn decode_lossy(bytes: &[u8]) -> (res: String)
    ensures
        res@ == utf8_lossy(bytes@),
        (forall|i: int| 0 <= i < bytes@.len() ==> bytes@[i] < 128) ==> res@ == bytes@.map_values(|b: u8| b as char),
{
    String::from_utf8_lossy(bytes).into_owned()
}

/// Whether the output of `gh pr view --json state --jq .state` says the
/// pull request is merged.
pub fn is_gh_pr_state_merged(stdout: &[u8]) -> (res: bool)
    ensures
        res == (trim(utf8_lossy(stdout@)) == "MERGED"@),
{
    let text = decode_lossy(stdout);
    let trimmed = str_trim(text.as_str());
    str_eq(trimmed.as_str(), "MERGED")
}

} // verus!
