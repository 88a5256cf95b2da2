use hive_hydra::turn_tracker::{cleanup_old_hashes, TurnTracker, TurnTracking, HASH_RETENTION_NANOS};
use std::collections::HashMap;

#[test]
fn new_tracker_tracks_nothing() {
    let t = TurnTracker::new();
    assert!(!t.is_tracked(0));
    assert!(!t.is_tracked(42));
}

#[test]
fn processing_makes_tracked() {
    let mut t = TurnTracker::new();
    t.processing_at(7, 100);
    assert!(t.is_tracked(7));
    assert!(!t.is_tracked(8));
}

#[test]
fn processed_stays_tracked() {
    let mut t = TurnTracker::new();
    t.processing_at(7, 100);
    t.processed_at(7, 200);
    assert!(t.is_tracked(7));
}

#[test]
fn cleanup_keeps_recent_and_forgets_expired() {
    let mut t = TurnTracker::new();
    t.processed_at(1, 0);
    t.processed_at(2, 1_000_000);
    // At exactly the retention period the first turn is forgotten.
    t.cleanup_at(HASH_RETENTION_NANOS);
    assert!(!t.is_tracked(1));
    assert!(t.is_tracked(2));
    // One millisecond before its retention period ends it is still kept.
    t.cleanup_at(1_000_000 + HASH_RETENTION_NANOS - 1);
    assert!(t.is_tracked(2));
    t.cleanup_at(1_000_000 + HASH_RETENTION_NANOS);
    assert!(!t.is_tracked(2));
}

#[test]
fn cleanup_leaves_turns_in_work() {
    let mut t = TurnTracker::new();
    t.processing_at(5, 0);
    t.cleanup_at(10 * HASH_RETENTION_NANOS);
    assert!(t.is_tracked(5));
}

#[test]
fn cleanup_with_clock_earlier_than_stamp_keeps() {
    let mut t = TurnTracker::new();
    t.processed_at(3, 5_000);
    t.cleanup_at(10);
    assert!(t.is_tracked(3));
}

#[test]
fn cleanup_twice_same_result() {
    let mut t = TurnTracker::new();
    t.processed_at(1, 0);
    t.processed_at(2, HASH_RETENTION_NANOS);
    t.cleanup_at(HASH_RETENTION_NANOS + 1);
    let first = (t.is_tracked(1), t.is_tracked(2));
    t.cleanup_at(HASH_RETENTION_NANOS + 1);
    assert_eq!(first, (t.is_tracked(1), t.is_tracked(2)));
    assert_eq!(first, (false, true));
}

#[test]
fn clock_based_operations() {
    let mut t = TurnTracker::new();
    t.processing(11);
    assert!(t.is_tracked(11));
    t.processed(11);
    assert!(t.is_tracked(11));
    // Right after being answered a turn is within the retention period.
    t.cleanup();
    assert!(t.is_tracked(11));
}

#[test]
fn cleanup_old_hashes_drops_only_expired() {
    let mut m: HashMap<u64, u128> = HashMap::new();
    m.insert(1, 0);
    m.insert(2, 5);
    m.insert(4, 6);
    m.insert(3, HASH_RETENTION_NANOS);
    cleanup_old_hashes(&mut m, HASH_RETENTION_NANOS + 5);
    assert!(!m.contains_key(&1));
    assert!(!m.contains_key(&2));
    assert_eq!(m.get(&3), Some(&HASH_RETENTION_NANOS));
    assert_eq!(m.get(&4), Some(&6));
    assert_eq!(m.len(), 2);
}

#[test]
fn retention_is_exact_to_the_nanosecond() {
    let mut t = TurnTracker::new();
    // Answered 0.9 ms after the start: cleaned one nanosecond before the
    // hour is up, it is kept; at the hour it is forgotten.
    t.processed_at(1, 900_000);
    t.cleanup_at(900_000 + HASH_RETENTION_NANOS - 1);
    assert!(t.is_tracked(1));
    t.cleanup_at(900_000 + HASH_RETENTION_NANOS);
    assert!(!t.is_tracked(1));
    assert_eq!(HASH_RETENTION_NANOS, 3_600_000_000_000);
}

#[test]
fn cleanup_after_late_stamp_uses_later_clock() {
    let mut t = TurnTracker::new();
    // A reading far in the future moves the tracker's clock; the clock-based
    // cleanup then cleans no earlier than that reading.
    t.processed_at(1, 0);
    t.processed_at(2, 2 * HASH_RETENTION_NANOS);
    t.cleanup();
    assert!(!t.is_tracked(1));
    assert!(t.is_tracked(2));
}
