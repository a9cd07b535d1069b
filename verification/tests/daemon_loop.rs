use orchd::daemon_loop::{
    estimate_tokens_from_char_count, is_gh_pr_state_merged, BudgetConfig, DaemonState,
    RestackRetryState,
};

const T0: i64 = 1_700_000_000_000_000_000;
const SEC: i64 = 1_000_000_000;

#[test]
fn check_pr_merged_parses_state() {
    assert!(is_gh_pr_state_merged(b"MERGED\n"));
    assert!(!is_gh_pr_state_merged(b"OPEN\n"));
    assert!(!is_gh_pr_state_merged(b"CLOSED\n"));
}

#[test]
fn pr_state_tolerates_surrounding_space_but_not_other_text() {
    assert!(is_gh_pr_state_merged(b"  MERGED \r\n"));
    assert!(!is_gh_pr_state_merged(b"merged"));
    assert!(!is_gh_pr_state_merged(b""));
    assert!(!is_gh_pr_state_merged(b"MERGED\xff"));
}

#[test]
fn check_budget_passes_when_disabled() {
    let mut state = DaemonState::new();
    state.budget_used_today = u64::MAX;
    state.budget_used_month = u64::MAX;
    let config = BudgetConfig { enabled: false, daily_token_limit: 1, monthly_token_limit: 1 };
    assert!(state.check_budget(&config));
}

#[test]
fn check_budget_fails_when_daily_exceeded() {
    let mut state = DaemonState::new();
    state.budget_used_today = 100;
    state.budget_used_month = 10;
    let config = BudgetConfig { enabled: true, daily_token_limit: 100, monthly_token_limit: 1_000 };
    assert!(!state.check_budget(&config));
}

#[test]
fn check_budget_fails_when_monthly_exceeded() {
    let mut state = DaemonState::new();
    state.budget_used_today = 10;
    state.budget_used_month = 200;
    let config = BudgetConfig { enabled: true, daily_token_limit: 1_000, monthly_token_limit: 200 };
    assert!(!state.check_budget(&config));
}

#[test]
fn check_budget_passes_under_both_limits() {
    let mut state = DaemonState::new();
    state.budget_used_today = 99;
    state.budget_used_month = 199;
    let config = BudgetConfig { enabled: true, daily_token_limit: 100, monthly_token_limit: 200 };
    assert!(state.check_budget(&config));
}

#[test]
fn maybe_reset_budget_resets_on_new_day() {
    let today: u32 = 15;
    let mut state = DaemonState::new();
    state.budget_used_today = 123;
    state.budget_last_reset_day = Some(today - 1);
    state.maybe_reset_budget(today, 6);
    assert_eq!(state.budget_used_today, 0);
    assert_eq!(state.budget_last_reset_day, Some(today));
}

#[test]
fn maybe_reset_budget_keeps_the_same_day() {
    let mut state = DaemonState::new();
    state.budget_used_today = 123;
    state.budget_used_month = 456;
    state.budget_last_reset_day = Some(3);
    state.budget_last_reset_month = Some(6);
    state.maybe_reset_budget(3, 7);
    assert_eq!(state.budget_used_today, 123);
    assert_eq!(state.budget_used_month, 0);
    assert_eq!(state.budget_last_reset_month, Some(7));
}

#[test]
fn request_shutdown_sets_deadline() {
    let mut state = DaemonState::new();
    state.request_shutdown(30, 1_000);
    assert!(state.shutdown_requested);
    assert!(state.shutdown_deadline.is_some());
    assert_eq!(state.shutdown_deadline, Some(1_000 + 30 * SEC));
}

#[test]
fn restack_retry_state_uses_exponential_backoff_and_max_retries() {
    let mut state = DaemonState::new();
    let first = state.schedule_restack_retry("T-RS-1", T0).expect("first retry");
    assert_eq!(first.attempts, 1);
    assert_eq!(first.max_retries, 3);
    assert_eq!(first.backoff_secs, 5);

    let second = state.schedule_restack_retry("T-RS-1", T0 + SEC).expect("second retry");
    assert_eq!(second.attempts, 2);
    assert_eq!(second.backoff_secs, 10);

    let third = state.schedule_restack_retry("T-RS-1", T0 + 2 * SEC).expect("third retry");
    assert_eq!(third.attempts, 3);
    assert_eq!(third.backoff_secs, 20);

    let exhausted = state.schedule_restack_retry("T-RS-1", T0 + 3 * SEC);
    assert!(exhausted.is_none());
    assert!(!state.restack_retries.contains_key("T-RS-1"));
}

#[test]
fn restack_retry_is_ready_after_its_backoff() {
    let s = RestackRetryState::first(T0);
    assert_eq!(s.retry_ready_at(), T0 + 5 * SEC);
    assert!(!s.is_ready(T0 + 4 * SEC));
    assert!(s.is_ready(T0 + 5 * SEC));
    let big = RestackRetryState { attempts: 1, max_retries: 5, last_attempt: 0, backoff_secs: u64::MAX / 2 + 1 };
    assert_eq!(big.next(7).unwrap().backoff_secs, u64::MAX);
}

#[test]
fn output_chars_accumulate_per_task() {
    let mut state = DaemonState::new();
    state.track_output_chars("T1", &vec!["héllo".to_string(), "ab".to_string()]);
    state.track_output_chars("T1", &vec!["xyz".to_string()]);
    assert_eq!(state.budget_output_chars_by_task.get("T1"), Some(&10));
    assert_eq!(state.budget_output_chars_by_task.get("T2"), None);
}

#[test]
fn token_estimate_rounds_up() {
    assert_eq!(estimate_tokens_from_char_count(0), 0);
    assert_eq!(estimate_tokens_from_char_count(1), 1);
    assert_eq!(estimate_tokens_from_char_count(8), 2);
    assert_eq!(estimate_tokens_from_char_count(9), 3);
    assert_eq!(estimate_tokens_from_char_count(u64::MAX), u64::MAX / 4 + 1);
}
