use erc20_monitor::tracker::BlockTracker;

#[test]
fn tracker_starts_at_zero() {
    let tracker = BlockTracker::new();
    assert_eq!(tracker.last_processed, 0);
}

#[test]
fn should_process_admits_new_number_and_commits_it() {
    let mut tracker = BlockTracker::new();
    assert!(tracker.should_process(17));
    assert_eq!(tracker.last_processed, 17);
}

#[test]
fn should_process_rejects_the_number_it_holds() {
    let mut tracker = BlockTracker::new();
    assert!(tracker.should_process(17));
    assert!(!tracker.should_process(17));
    assert!(!tracker.should_process(17));
    assert_eq!(tracker.last_processed, 17);
}

#[test]
fn two_distinct_blocks_are_each_processed_once() {
    let mut tracker = BlockTracker::new();
    let seen = [100u64, 100, 100, 101, 101, 101, 101];
    let mut processed: Vec<u64> = Vec::new();
    for number in seen {
        if tracker.should_process(number) {
            processed.push(number);
        }
    }
    assert_eq!(processed, vec![100, 101]);
}

#[test]
fn skipped_numbers_are_not_made_up_for() {
    let mut tracker = BlockTracker::new();
    assert!(tracker.should_process(5));
    assert!(tracker.should_process(8));
    assert_eq!(tracker.last_processed, 8);
    assert!(!tracker.should_process(8));
}

#[test]
fn block_zero_looks_processed_to_a_fresh_tracker() {
    let mut tracker = BlockTracker::new();
    assert!(!tracker.should_process(0));
    assert_eq!(tracker.last_processed, 0);
}

#[test]
fn a_number_that_returns_after_another_is_processed_again() {
    let mut tracker = BlockTracker::new();
    assert!(tracker.should_process(7));
    assert!(tracker.should_process(8));
    assert!(tracker.should_process(7));
}

#[test]
fn largest_block_number_is_tracked() {
    let mut tracker = BlockTracker::new();
    assert!(tracker.should_process(u64::MAX));
    assert!(!tracker.should_process(u64::MAX));
    assert_eq!(tracker.last_processed, u64::MAX);
}
