use peerchat::broadcast::{run_delivery, AttemptOutcome, DeliveryReport, MessageIdCounter,
    PendingSend};
use peerchat::constants::MAX_RETRY;

#[test]
fn ids_start_at_one_and_grow() {
    let mut counter = MessageIdCounter::new();
    assert_eq!(counter.allocate(), 1);
    assert_eq!(counter.allocate(), 2);
    assert_eq!(counter.allocate(), 3);
}

#[test]
fn no_ack_makes_exactly_max_retry_sends_and_fails() {
    let events: Vec<Option<u64>> = vec![None, None, None];
    let DeliveryReport { attempts, delivered } = run_delivery(9, b"msg".to_vec(), &events);
    assert_eq!(attempts, MAX_RETRY);
    assert!(!delivered);
}

#[test]
fn matching_ack_on_first_attempt_stops_sending() {
    let events: Vec<Option<u64>> = vec![Some(9), None, None];
    let report = run_delivery(9, b"msg".to_vec(), &events);
    assert_eq!(report.attempts, 1);
    assert!(report.delivered);
}

#[test]
fn matching_ack_on_second_attempt_stops_sending() {
    let events: Vec<Option<u64>> = vec![None, Some(9), Some(9)];
    let report = run_delivery(9, b"msg".to_vec(), &events);
    assert_eq!(report.attempts, 2);
    assert!(report.delivered);
}

#[test]
fn unrelated_acks_do_not_count_as_delivery() {
    let events: Vec<Option<u64>> = vec![Some(8), Some(10), Some(8)];
    let report = run_delivery(9, b"msg".to_vec(), &events);
    assert_eq!(report.attempts, MAX_RETRY);
    assert!(!report.delivered);
}

#[test]
fn step_machine_reports_each_outcome() {
    let mut p = PendingSend::new(5, b"x".to_vec());
    assert_eq!(p.attempts_used, 0);
    assert!(matches!(p.record_attempt(None), AttemptOutcome::RetryNeeded));
    assert_eq!(p.attempts_used, 1);
    assert!(matches!(p.record_attempt(Some(6)), AttemptOutcome::RetryNeeded));
    assert!(matches!(p.record_attempt(None), AttemptOutcome::Exhausted));
    assert_eq!(p.attempts_used, MAX_RETRY);

    let mut q = PendingSend::new(5, b"x".to_vec());
    assert!(matches!(q.record_attempt(Some(5)), AttemptOutcome::Delivered));
    assert_eq!(q.attempts_used, 1);
}
