use mq_core::commit::{on_commit_confirmation, CommitCoordinator};
use mq_core::offset_map::OffsetTable;
use mq_core::types::{CommitError, CommitMode, OffsetMarker, TopicPartition};

fn tp(topic: &str, partition: u32) -> TopicPartition {
    TopicPartition::new(topic.to_string(), partition)
}

#[test]
fn record_processed_sets_next_offset_per_partition() {
    let mut c = CommitCoordinator::new();
    assert_eq!(c.commit_point(&tp("T", 0)), None);
    c.record_processed(&tp("T", 0), 10);
    assert_eq!(c.commit_point(&tp("T", 0)), Some(11));
    c.record_processed(&tp("T", 0), 11);
    assert_eq!(c.commit_point(&tp("T", 0)), Some(12));
    // partitions are tracked independently
    c.record_processed(&tp("T", 1), 0);
    assert_eq!(c.commit_point(&tp("T", 1)), Some(1));
    assert_eq!(c.commit_point(&tp("T", 0)), Some(12));
    assert_eq!(c.commit_point(&tp("U", 0)), None);
}

#[test]
fn request_pairs_carry_all_tracked_partitions() {
    let mut c = CommitCoordinator::new();
    c.record_processed(&tp("T", 0), 4);
    c.record_processed(&tp("T", 2), 9);
    let pairs = c.request_pairs();
    assert_eq!(pairs.len(), 2);
    assert!(pairs.iter().any(|(p, o)| p.key_eq(&tp("T", 0)) && *o == 5));
    assert!(pairs.iter().any(|(p, o)| p.key_eq(&tp("T", 2)) && *o == 10));
}

#[test]
fn invalid_offset_marker_is_skipped_without_error() {
    // a confirmation reports the "invalid" marker for partition 2
    let entries = vec![
        (tp("T", 0), OffsetMarker::At(5)),
        (tp("T", 2), OffsetMarker::Invalid),
        (tp("T", 1), OffsetMarker::At(7)),
    ];
    let r = on_commit_confirmation(Ok(()), &entries);
    let confirmed = r.expect("an invalid marker must not raise a commit error");
    assert_eq!(confirmed.len(), 2);
    assert!(confirmed[0].0.key_eq(&tp("T", 0)));
    assert_eq!(confirmed[0].1, 5);
    assert!(confirmed[1].0.key_eq(&tp("T", 1)));
    assert_eq!(confirmed[1].1, 7);
}

#[test]
fn all_invalid_markers_confirm_nothing() {
    let entries = vec![(tp("T", 2), OffsetMarker::Invalid)];
    let r = on_commit_confirmation(Ok(()), &entries);
    assert_eq!(r.expect("still no error").len(), 0);
}

#[test]
fn failed_commit_is_surfaced_as_error() {
    let entries = vec![(tp("T", 0), OffsetMarker::At(5))];
    let r = on_commit_confirmation(Err("coordinator not available".to_string()), &entries);
    assert_eq!(
        r.unwrap_err(),
        CommitError::Broker("coordinator not available".to_string())
    );
}

#[test]
fn commit_modes_are_distinct() {
    assert_ne!(CommitMode::Sync, CommitMode::Async);
}

#[test]
fn offset_table_put_and_lookup() {
    let mut t = OffsetTable::new();
    assert_eq!(t.lookup(&tp("T", 0)), None);
    t.put(&tp("T", 0), 3);
    t.put(&tp("U", 0), 8);
    assert_eq!(t.lookup(&tp("T", 0)), Some(3));
    assert_eq!(t.lookup(&tp("U", 0)), Some(8));
    // same topic, other partition, is another key
    assert_eq!(t.lookup(&tp("T", 1)), None);
    // a later put replaces the earlier entry
    t.put(&tp("T", 0), 4);
    assert_eq!(t.lookup(&tp("T", 0)), Some(4));
    assert_eq!(t.len(), 2);
}

#[test]
fn topic_partition_key_equality_and_clone() {
    let a = tp("T", 0);
    assert!(a.key_eq(&a.clone()));
    assert!(!a.key_eq(&tp("T", 1)));
    assert!(!a.key_eq(&tp("U", 0)));
}
