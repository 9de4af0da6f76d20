use agent_core::limiter::TPMLimiter;

const T0: u64 = 1_000_000;

#[test]
fn over_budget_window_forces_a_wait() {
    let mut limiter = TPMLimiter::new(100, 0);
    limiter.add_token_usage(60, T0);
    limiter.add_token_usage(50, T0 + 1_000);
    let wait = limiter.wait_if_needed(T0 + 2_000);
    // 110 tokens in the window exceed the budget of 100: wait until the
    // oldest entry (at T0) ages out of the 60 s window, plus the margin
    assert!(wait > 0);
    assert_eq!(wait, 58_100);
}

#[test]
fn pruning_after_a_minute_keeps_only_recent_entries() {
    let mut limiter = TPMLimiter::new(100, 0);
    limiter.add_token_usage(60, T0);
    limiter.add_token_usage(50, T0 + 1_000);
    assert_eq!(limiter.get_current_tpm(T0 + 2_000), 110);
    assert_eq!(limiter.get_current_tpm(T0 + 61_000), 50);
    assert_eq!(limiter.get_current_tpm(T0 + 62_000), 0);
}

#[test]
fn under_budget_window_needs_no_wait() {
    let mut limiter = TPMLimiter::new(1_000, 0);
    limiter.add_token_usage(60, T0);
    assert_eq!(limiter.wait_if_needed(T0 + 1_000), 0);
}

#[test]
fn minimum_interval_is_owed_first() {
    let mut limiter = TPMLimiter::new(1_000_000, 10);
    assert_eq!(limiter.wait_if_needed(T0), 0);
    // 3 s elapsed of a 10 s minimum interval: 7 s still owed
    assert_eq!(limiter.wait_if_needed(T0 + 3_000), 7_000);
    // the last request time moved to the second call's time
    assert_eq!(limiter.wait_if_needed(T0 + 14_000), 0);
}

#[test]
fn lifetime_counter_is_never_pruned() {
    let mut limiter = TPMLimiter::new(100, 0);
    assert_eq!(limiter.get_total_tokens(), 0);
    limiter.add_token_usage(60, T0);
    limiter.add_token_usage(50, T0 + 120_000);
    assert_eq!(limiter.get_total_tokens(), 110);
    assert_eq!(limiter.get_current_tpm(T0 + 120_000), 50);
}

#[test]
fn refine_last_usage_corrects_the_estimate() {
    let mut limiter = TPMLimiter::new(1_000, 0);
    limiter.add_token_usage(500, T0);
    limiter.add_token_usage(100, T0 + 1_000);
    limiter.refine_last_usage(250);
    assert_eq!(limiter.get_current_tpm(T0 + 1_000), 750);
    // the lifetime counter keeps the original estimates
    assert_eq!(limiter.get_total_tokens(), 600);
}

#[test]
fn max_tpm_is_remembered() {
    let limiter = TPMLimiter::new(20_000, 1);
    assert_eq!(limiter.max_tpm(), 20_000);
}
