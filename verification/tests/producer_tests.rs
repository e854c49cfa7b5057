use mq_core::producer::ProducerCore;
use mq_core::types::{
    AckError, DeliveryAck, DeliveryOutcome, FailureReason, FlushError, Message, SubmitError,
};

fn msg(topic: &str, key: &str, payload: &str) -> Message {
    Message {
        topic: topic.to_string(),
        partition: None,
        key: Some(key.as_bytes().to_vec()),
        payload: payload.as_bytes().to_vec(),
    }
}

#[test]
fn five_submissions_each_get_one_success() {
    let mut p = ProducerCore::new(1024);
    let mut ids = Vec::new();
    for i in 1..=5u32 {
        let key = format!("key-{}", i);
        let value = format!("value-{}", i);
        let id = p.submit(msg("T", &key, &value)).expect("submit should accept");
        ids.push(id);
    }
    assert_eq!(p.pending_count(), 5);
    // the transport acknowledges all five, two partitions, offsets rising
    for (n, id) in ids.iter().enumerate() {
        let partition = (n as u32) % 2;
        let offset = 100 + (n as u64);
        p.on_delivery(*id, DeliveryAck::Delivered { partition, offset })
            .expect("ack should resolve the message");
    }
    let records = p.tracker.records();
    assert_eq!(records.len(), 5);
    let mut last_by_partition: [Option<u64>; 2] = [None, None];
    for (_, outcome) in records.iter() {
        match outcome {
            DeliveryOutcome::Success { partition, offset, key } => {
                assert!(key.is_some());
                let prev = last_by_partition[*partition as usize];
                if let Some(prev) = prev {
                    assert!(*offset >= prev, "offsets per partition must not decrease");
                }
                last_by_partition[*partition as usize] = Some(*offset);
            }
            DeliveryOutcome::Failure { .. } => panic!("all five must succeed"),
        }
    }
    assert!(p.flush().is_ok());
}

#[test]
fn oversized_payload_rejected_at_submission() {
    let mut p = ProducerCore::new(4);
    let r = p.submit(msg("T", "k", "hello"));
    assert_eq!(
        r.unwrap_err(),
        SubmitError::PayloadTooLarge { size: 5, limit: 4 }
    );
    assert_eq!(p.pending_count(), 0);
    assert_eq!(p.tracker.len(), 0);
}

#[test]
fn transport_failure_reports_reason_and_message() {
    let mut p = ProducerCore::new(64);
    let id = p.submit(msg("T", "k1", "v1")).unwrap();
    p.on_delivery(
        id,
        DeliveryAck::Rejected { reason: "broker unreachable".to_string() },
    )
    .unwrap();
    let records = p.tracker.records();
    assert_eq!(records.len(), 1);
    match &records[0].1 {
        DeliveryOutcome::Failure { reason, message } => {
            assert_eq!(*reason, FailureReason::Transport("broker unreachable".to_string()));
            assert_eq!(message.key.as_deref(), Some("k1".as_bytes()));
            assert_eq!(message.payload, "v1".as_bytes().to_vec());
        }
        DeliveryOutcome::Success { .. } => panic!("expected a failure outcome"),
    }
}

#[test]
fn duplicate_ack_cannot_create_second_outcome() {
    let mut p = ProducerCore::new(64);
    let id = p.submit(msg("T", "k", "v")).unwrap();
    p.on_delivery(id, DeliveryAck::Delivered { partition: 0, offset: 7 }).unwrap();
    let r = p.on_delivery(id, DeliveryAck::Delivered { partition: 0, offset: 8 });
    assert_eq!(r.unwrap_err(), AckError::UnknownSequence);
    assert_eq!(p.tracker.len(), 1);
}

#[test]
fn ack_for_unknown_sequence_rejected() {
    let mut p = ProducerCore::new(64);
    let r = p.on_delivery(42, DeliveryAck::Delivered { partition: 0, offset: 0 });
    assert_eq!(r.unwrap_err(), AckError::UnknownSequence);
}

#[test]
fn flush_times_out_while_pending_then_succeeds_twice() {
    let mut p = ProducerCore::new(64);
    let id = p.submit(msg("T", "k", "v")).unwrap();
    assert_eq!(p.flush().unwrap_err(), FlushError::TimedOut);
    p.on_delivery(id, DeliveryAck::Delivered { partition: 0, offset: 1 }).unwrap();
    // flush is idempotent: with no new submissions in between, success twice
    assert!(p.flush().is_ok());
    assert!(p.flush().is_ok());
}

#[test]
fn teardown_aborts_in_flight_messages() {
    let mut p = ProducerCore::new(64);
    p.submit(msg("T", "k1", "v1")).unwrap();
    p.submit(msg("T", "k2", "v2")).unwrap();
    p.abort_pending();
    assert_eq!(p.pending_count(), 0);
    assert!(p.flush().is_ok());
    let records = p.tracker.records();
    assert_eq!(records.len(), 2);
    for (n, (_, outcome)) in records.iter().enumerate() {
        match outcome {
            DeliveryOutcome::Failure { reason, message } => {
                assert_eq!(*reason, FailureReason::Aborted);
                let expected = format!("k{}", n + 1);
                assert_eq!(message.key.as_deref(), Some(expected.as_bytes()));
            }
            DeliveryOutcome::Success { .. } => panic!("aborted messages must fail"),
        }
    }
}

#[test]
fn every_submission_resolves_exactly_once_under_failures() {
    let mut p = ProducerCore::new(64);
    let mut ids = Vec::new();
    for i in 0..10u64 {
        let key = format!("key-{}", i);
        ids.push(p.submit(msg("T", &key, "v")).unwrap());
    }
    // even numbers delivered, odd numbers failed by the transport
    for id in &ids {
        let ack = if id % 2 == 0 {
            DeliveryAck::Delivered { partition: 0, offset: *id }
        } else {
            DeliveryAck::Rejected { reason: "induced failure".to_string() }
        };
        p.on_delivery(*id, ack).unwrap();
    }
    assert_eq!(p.pending_count(), 0);
    let records = p.tracker.records();
    assert_eq!(records.len(), 10);
    // one outcome per sequence number, no duplicates, no loss
    let mut seen: Vec<u64> = records.iter().map(|(id, _)| *id).collect();
    seen.sort();
    assert_eq!(seen, ids);
}

#[test]
fn outcome_key_present_on_both_paths() {
    let mut p = ProducerCore::new(64);
    let a = p.submit(msg("T", "ka", "va")).unwrap();
    let b = p.submit(msg("T", "kb", "vb")).unwrap();
    p.on_delivery(a, DeliveryAck::Delivered { partition: 1, offset: 3 }).unwrap();
    p.on_delivery(b, DeliveryAck::Rejected { reason: "queue full".to_string() }).unwrap();
    let records = p.tracker.records();
    assert_eq!(records[0].1.key().as_deref(), Some("ka".as_bytes()));
    assert_eq!(records[1].1.key().as_deref(), Some("kb".as_bytes()));
    assert!(records[0].1.is_success());
    assert!(!records[1].1.is_success());
}
