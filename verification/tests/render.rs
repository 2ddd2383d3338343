use linkchecker::render::{Settle, LOAD_DEADLINE_MS, SETTLE_BEFORE_LOAD_MS, SETTLE_MS};

#[test]
fn a_page_is_loaded_once_its_counts_hold_still_after_load() {
    let mut settle = Settle::start(1000);
    assert_eq!(settle.deadline, 1000 + LOAD_DEADLINE_MS);
    assert!(!settle.observe(1000, "complete", 3, 5));
    assert!(!settle.observe(1100, "complete", 3, 5));
    assert!(!settle.observe(1000 + SETTLE_MS - 1, "complete", 3, 5));
    assert!(settle.observe(1000 + SETTLE_MS, "complete", 3, 5));
}

#[test]
fn a_change_restarts_the_clock() {
    let mut settle = Settle::start(0);
    assert!(!settle.observe(0, "complete", 1, 1));
    assert!(!settle.observe(1400, "complete", 2, 1));
    assert_eq!(settle.stable_since, 1400);
    assert!(!settle.observe(2000, "complete", 2, 1));
    assert!(settle.observe(1400 + SETTLE_MS, "complete", 2, 1));
}

#[test]
fn before_load_the_quiet_spell_is_longer_and_a_loading_page_never_settles() {
    let mut settle = Settle::start(0);
    assert!(!settle.observe(0, "interactive", 4, 4));
    assert!(!settle.observe(SETTLE_MS, "interactive", 4, 4));
    assert!(settle.observe(SETTLE_BEFORE_LOAD_MS, "interactive", 4, 4));
    let mut loading = Settle::start(0);
    assert!(!loading.observe(0, "loading", 0, 0));
    assert!(!loading.observe(9000, "loading", 0, 0));
    assert!(!loading.expired(9999));
    assert!(loading.expired(LOAD_DEADLINE_MS));
}

#[test]
fn the_deadline_saturates() {
    let settle = Settle::start(u64::MAX - 1);
    assert_eq!(settle.deadline, u64::MAX);
}
