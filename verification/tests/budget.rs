use diff_pipeline::budget::{
    checked_concurrency_budget, concurrency_budget, detect_concurrency_budget, thread_limit,
    FAN_OUT, RESULT_CHANNEL_CAPACITY, THREADS_PER_CORE_THREAD,
};

#[test]
fn constants_have_their_values() {
    assert_eq!(FAN_OUT, 4);
    assert_eq!(RESULT_CHANNEL_CAPACITY, 32);
    assert_eq!(THREADS_PER_CORE_THREAD, 2);
}

#[test]
fn thread_limit_is_twice_the_core_threads() {
    assert_eq!(thread_limit(0), 0);
    assert_eq!(thread_limit(1), 2);
    assert_eq!(thread_limit(6), 12);
    assert_eq!(thread_limit(u16::MAX), 131_070);
}

#[test]
fn budget_without_request_is_four_per_processor() {
    assert_eq!(concurrency_budget(1, None), 4);
    assert_eq!(concurrency_budget(8, None), 32);
    assert_eq!(concurrency_budget(0, None), 0);
}

#[test]
fn budget_takes_the_smaller_of_request_and_machine() {
    assert_eq!(concurrency_budget(8, Some(2)), 8);
    assert_eq!(concurrency_budget(2, Some(8)), 8);
    assert_eq!(concurrency_budget(8, Some(8)), 32);
    assert_eq!(concurrency_budget(8, Some(0)), 0);
    assert_eq!(concurrency_budget(3, Some(u16::MAX)), 12);
}

#[test]
fn budget_does_not_cut_a_large_machine_down() {
    assert_eq!(concurrency_budget(70_000, None), 280_000);
    assert_eq!(concurrency_budget(70_000, Some(u16::MAX)), 4 * 65_535);
}

#[test]
fn checked_budget_agrees_where_the_budget_fits() {
    assert_eq!(checked_concurrency_budget(8, None), Some(32));
    assert_eq!(checked_concurrency_budget(8, Some(2)), Some(8));
    assert_eq!(checked_concurrency_budget(usize::MAX / 4, None), Some(usize::MAX / 4 * 4));
    assert_eq!(checked_concurrency_budget(usize::MAX, Some(3)), Some(12));
}

#[test]
fn checked_budget_is_none_where_the_budget_does_not_fit() {
    assert_eq!(checked_concurrency_budget(usize::MAX, None), None);
    assert_eq!(checked_concurrency_budget(usize::MAX / 4 + 1, None), None);
}

#[test]
fn detected_budget_follows_the_request() {
    assert_eq!(detect_concurrency_budget(Some(0)), Some(0));
    assert_eq!(detect_concurrency_budget(Some(1)), Some(4));
}

#[test]
fn detected_budget_is_a_positive_multiple_of_the_fan_out() {
    let budget = detect_concurrency_budget(None).unwrap();
    assert!(budget >= 4);
    assert_eq!(budget % 4, 0);
    let capped = detect_concurrency_budget(Some(3)).unwrap();
    assert!(capped == 4 || capped == 8 || capped == 12);
}
