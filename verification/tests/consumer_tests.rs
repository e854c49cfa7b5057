use mq_core::assignment::{AssignmentMonitor, RebalanceEvent};
use mq_core::consume::ConsumptionLoop;
use mq_core::types::{
    ConsumeError, FailurePolicy, FetchGate, LoopDirective, ProcessOutcome, TopicPartition,
};

fn tp(topic: &str, partition: u32) -> TopicPartition {
    TopicPartition::new(topic.to_string(), partition)
}

#[test]
fn monitor_starts_unassigned_and_replaces_wholesale() {
    let mut m = AssignmentMonitor::new();
    assert!(!m.owns_partition(&tp("T", 0)));
    assert!(m.on_rebalance(RebalanceEvent::Assigned(vec![tp("T", 0), tp("T", 1)])).is_none());
    assert!(m.owns_partition(&tp("T", 0)));
    assert!(m.owns_partition(&tp("T", 1)));
    assert!(!m.owns_partition(&tp("T", 2)));
    assert!(!m.owns_partition(&tp("U", 0)));
    // a new assign event fully supersedes the prior set
    assert!(m.on_rebalance(RebalanceEvent::Assigned(vec![tp("T", 2)])).is_none());
    assert!(!m.owns_partition(&tp("T", 0)));
    assert!(m.owns_partition(&tp("T", 2)));
    // revoke empties the set
    assert!(m.on_rebalance(RebalanceEvent::Revoked).is_none());
    assert!(!m.owns_partition(&tp("T", 2)));
}

#[test]
fn monitor_error_reported_and_state_unchanged() {
    let mut m = AssignmentMonitor::new();
    m.on_rebalance(RebalanceEvent::Assigned(vec![tp("T", 3)]));
    let r = m.on_rebalance(RebalanceEvent::Error("group coordinator moved".to_string()));
    assert_eq!(r, Some("group coordinator moved".to_string()));
    assert!(m.owns_partition(&tp("T", 3)));
}

#[test]
fn in_order_consumption_advances_commit_point() {
    let mut l = ConsumptionLoop::new(FailurePolicy::HaltOnFailure, true);
    l.on_rebalance(RebalanceEvent::Assigned(vec![tp("T", 0)]));
    for offset in 10..=12u64 {
        assert_eq!(l.begin_fetch(&tp("T", 0), offset), FetchGate::Accepted);
        assert_eq!(l.finish_message(ProcessOutcome::Processed), Ok(LoopDirective::Continue));
        assert_eq!(l.commit_point(&tp("T", 0)), Some(offset + 1));
    }
}

#[test]
fn processing_failure_withholds_commit_and_halts() {
    // messages at offsets 10, 11, 12 on partition 0; processing fails at 11
    let mut l = ConsumptionLoop::new(FailurePolicy::HaltOnFailure, true);
    l.on_rebalance(RebalanceEvent::Assigned(vec![tp("T", 0)]));
    assert_eq!(l.begin_fetch(&tp("T", 0), 10), FetchGate::Accepted);
    assert_eq!(l.finish_message(ProcessOutcome::Processed), Ok(LoopDirective::Continue));
    assert_eq!(l.commit_point(&tp("T", 0)), Some(11));
    assert_eq!(l.begin_fetch(&tp("T", 0), 11), FetchGate::Accepted);
    assert_eq!(l.finish_message(ProcessOutcome::ProcessFailed), Ok(LoopDirective::Halt));
    // the commit point stays one past the last success, never reaches 12
    assert_eq!(l.commit_point(&tp("T", 0)), Some(11));
    assert!(l.is_halted());
    assert_eq!(l.begin_fetch(&tp("T", 0), 12), FetchGate::Halted);
    assert_eq!(l.commit_point(&tp("T", 0)), Some(11));
}

#[test]
fn decode_failure_is_distinct_and_withholds_commit() {
    let mut l = ConsumptionLoop::new(FailurePolicy::HaltOnFailure, true);
    l.on_rebalance(RebalanceEvent::Assigned(vec![tp("T", 0)]));
    assert_eq!(l.begin_fetch(&tp("T", 0), 0), FetchGate::Accepted);
    assert_ne!(ProcessOutcome::DecodeFailed, ProcessOutcome::ProcessFailed);
    assert_eq!(l.finish_message(ProcessOutcome::DecodeFailed), Ok(LoopDirective::Halt));
    assert_eq!(l.commit_point(&tp("T", 0)), None);
}

#[test]
fn skip_policy_surfaces_failure_and_continues() {
    let mut l = ConsumptionLoop::new(FailurePolicy::SkipAndContinue, true);
    l.on_rebalance(RebalanceEvent::Assigned(vec![tp("T", 0)]));
    assert_eq!(l.begin_fetch(&tp("T", 0), 10), FetchGate::Accepted);
    assert_eq!(l.finish_message(ProcessOutcome::Processed), Ok(LoopDirective::Continue));
    assert_eq!(l.begin_fetch(&tp("T", 0), 11), FetchGate::Accepted);
    assert_eq!(l.finish_message(ProcessOutcome::ProcessFailed), Ok(LoopDirective::Continue));
    // the failed message is never marked committed
    assert_eq!(l.commit_point(&tp("T", 0)), Some(11));
    assert_eq!(l.begin_fetch(&tp("T", 0), 12), FetchGate::Accepted);
    assert_eq!(l.finish_message(ProcessOutcome::Processed), Ok(LoopDirective::Continue));
    assert_eq!(l.commit_point(&tp("T", 0)), Some(13));
}

#[test]
fn per_partition_order_is_enforced() {
    let mut l = ConsumptionLoop::new(FailurePolicy::HaltOnFailure, true);
    l.on_rebalance(RebalanceEvent::Assigned(vec![tp("T", 0), tp("T", 1)]));
    assert_eq!(l.begin_fetch(&tp("T", 0), 5), FetchGate::Accepted);
    assert_eq!(l.finish_message(ProcessOutcome::Processed), Ok(LoopDirective::Continue));
    // the same or an earlier offset cannot be fetched again on partition 0
    assert_eq!(l.begin_fetch(&tp("T", 0), 5), FetchGate::OutOfOrder);
    assert_eq!(l.begin_fetch(&tp("T", 0), 4), FetchGate::OutOfOrder);
    // the other partition has its own order
    assert_eq!(l.begin_fetch(&tp("T", 1), 0), FetchGate::Accepted);
    assert_eq!(l.finish_message(ProcessOutcome::Processed), Ok(LoopDirective::Continue));
    assert_eq!(l.begin_fetch(&tp("T", 0), 6), FetchGate::Accepted);
}

#[test]
fn fetch_gates_reject_unowned_busy_and_overflow() {
    let mut l = ConsumptionLoop::new(FailurePolicy::HaltOnFailure, true);
    assert_eq!(l.begin_fetch(&tp("T", 0), 0), FetchGate::NotOwned);
    l.on_rebalance(RebalanceEvent::Assigned(vec![tp("T", 0)]));
    assert_eq!(l.begin_fetch(&tp("U", 0), 0), FetchGate::NotOwned);
    assert_eq!(l.begin_fetch(&tp("T", 0), u64::MAX), FetchGate::OffsetLimit);
    assert_eq!(l.begin_fetch(&tp("T", 0), 0), FetchGate::Accepted);
    assert_eq!(l.begin_fetch(&tp("T", 0), 1), FetchGate::Busy);
    assert_eq!(l.finish_message(ProcessOutcome::Processed), Ok(LoopDirective::Continue));
}

#[test]
fn finish_without_in_flight_message_is_an_error() {
    let mut l = ConsumptionLoop::new(FailurePolicy::HaltOnFailure, true);
    assert_eq!(
        l.finish_message(ProcessOutcome::Processed),
        Err(ConsumeError::NoMessageInFlight)
    );
}

#[test]
fn revoke_stops_fetches_but_in_flight_completes_within_boundary() {
    let mut l = ConsumptionLoop::new(FailurePolicy::HaltOnFailure, true);
    l.on_rebalance(RebalanceEvent::Assigned(vec![tp("T", 0)]));
    assert_eq!(l.begin_fetch(&tp("T", 0), 5), FetchGate::Accepted);
    // the revoke arrives while offset 5 is still being processed
    assert!(l.on_rebalance(RebalanceEvent::Revoked).is_none());
    assert!(!l.may_fetch(&tp("T", 0)));
    // the in-flight message completes and commits only its own offset
    assert_eq!(l.finish_message(ProcessOutcome::Processed), Ok(LoopDirective::Continue));
    assert_eq!(l.commit_point(&tp("T", 0)), Some(6));
    // but no new fetch is issued for the revoked partition
    assert_eq!(l.begin_fetch(&tp("T", 0), 6), FetchGate::NotOwned);
    assert_eq!(l.commit_point(&tp("T", 0)), Some(6));
}

#[test]
fn reassignment_resets_fetch_cursors_for_redelivery() {
    let mut l = ConsumptionLoop::new(FailurePolicy::HaltOnFailure, true);
    l.on_rebalance(RebalanceEvent::Assigned(vec![tp("T", 0)]));
    assert_eq!(l.begin_fetch(&tp("T", 0), 20), FetchGate::Accepted);
    assert_eq!(l.finish_message(ProcessOutcome::Processed), Ok(LoopDirective::Continue));
    l.on_rebalance(RebalanceEvent::Revoked);
    l.on_rebalance(RebalanceEvent::Assigned(vec![tp("T", 0)]));
    // after the new assignment the broker may redeliver from the commit point
    assert_eq!(l.begin_fetch(&tp("T", 0), 10), FetchGate::Accepted);
    assert_eq!(l.finish_message(ProcessOutcome::Processed), Ok(LoopDirective::Continue));
}

#[test]
fn auto_commit_mode_leaves_manual_commit_points_untouched() {
    let mut l = ConsumptionLoop::new(FailurePolicy::HaltOnFailure, false);
    l.on_rebalance(RebalanceEvent::Assigned(vec![tp("T", 0)]));
    assert_eq!(l.begin_fetch(&tp("T", 0), 10), FetchGate::Accepted);
    assert_eq!(l.finish_message(ProcessOutcome::Processed), Ok(LoopDirective::Continue));
    assert_eq!(l.commit_point(&tp("T", 0)), None);
}

#[test]
fn loop_error_event_changes_nothing() {
    let mut l = ConsumptionLoop::new(FailurePolicy::HaltOnFailure, true);
    l.on_rebalance(RebalanceEvent::Assigned(vec![tp("T", 0)]));
    assert_eq!(l.begin_fetch(&tp("T", 0), 1), FetchGate::Accepted);
    assert_eq!(l.finish_message(ProcessOutcome::Processed), Ok(LoopDirective::Continue));
    let r = l.on_rebalance(RebalanceEvent::Error("transient".to_string()));
    assert_eq!(r, Some("transient".to_string()));
    assert_eq!(l.commit_point(&tp("T", 0)), Some(2));
    assert_eq!(l.begin_fetch(&tp("T", 0), 2), FetchGate::Accepted);
}
