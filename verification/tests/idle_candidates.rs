use std::time::Duration;

use centaur_session_store::idle::{
    effective_idle_timeout_nanos, idle_candidate_from_row, idle_deadline_elapsed,
    IdleSandboxCandidateRow,
};

const NANOS_PER_SECOND: i128 = 1_000_000_000;

fn now() -> i128 {
    time::OffsetDateTime::now_utc().unix_timestamp_nanos()
}

fn idle_row(metadata: serde_json::Value, completed_at: i128) -> IdleSandboxCandidateRow {
    IdleSandboxCandidateRow {
        thread_key: "test:idle-row".to_owned(),
        sandbox_id: "sbx-idle-row".to_owned(),
        execution_id: "exe-idle-row".to_owned(),
        completed_at,
        metadata,
    }
}

fn metadata(text: &str) -> serde_json::Value {
    serde_json::from_str(text).unwrap()
}

#[test]
fn idle_candidate_uses_persisted_timeout_deadline() {
    let now = now();
    let candidate = idle_candidate_from_row(
        idle_row(metadata(r#"{"idle_timeout_ms": 1000}"#), now - 2 * NANOS_PER_SECOND),
        Duration::from_secs(3600).as_nanos(),
        now,
    )
    .unwrap()
    .expect("candidate should use persisted timeout");

    assert_eq!(candidate.idle_timeout, Duration::from_secs(1).as_nanos());
}

#[test]
fn idle_candidate_waits_for_persisted_timeout_even_when_backstop_elapsed() {
    let now = now();
    let candidate = idle_candidate_from_row(
        idle_row(metadata(r#"{"idle_timeout_ms": 10000}"#), now - 2 * NANOS_PER_SECOND),
        Duration::from_secs(1).as_nanos(),
        now,
    )
    .unwrap();

    assert!(candidate.is_none());
}

#[test]
fn idle_candidate_falls_back_to_backstop_for_missing_or_invalid_timeout() {
    let now = now();
    let candidate = idle_candidate_from_row(
        idle_row(
            metadata(r#"{"idle_timeout_ms": "not-a-number"}"#),
            now - 2 * NANOS_PER_SECOND,
        ),
        Duration::from_secs(1).as_nanos(),
        now,
    )
    .unwrap()
    .expect("candidate should use backstop");

    assert_eq!(candidate.idle_timeout, Duration::from_secs(1).as_nanos());
}

#[test]
fn candidate_keeps_the_row_identity() {
    let candidate = idle_candidate_from_row(
        idle_row(metadata("{}"), 0),
        5,
        NANOS_PER_SECOND,
    )
    .unwrap()
    .unwrap();
    assert_eq!(candidate.thread_key.as_str(), "test:idle-row");
    assert_eq!(candidate.sandbox_id, "sbx-idle-row");
    assert_eq!(candidate.execution_id, "exe-idle-row");
    assert_eq!(candidate.idle_timeout, 1_000_000);
}

#[test]
fn invalid_persisted_thread_key_is_an_error_once_due() {
    let mut row = idle_row(metadata("{}"), 0);
    row.thread_key = "has space".to_owned();
    assert!(idle_candidate_from_row(row, 1, NANOS_PER_SECOND).is_err());
}

#[test]
fn zero_or_missing_persisted_timeout_uses_backstop_of_at_least_a_millisecond() {
    assert_eq!(effective_idle_timeout_nanos(None, 0), 1_000_000);
    assert_eq!(effective_idle_timeout_nanos(Some(0), 7_000_000), 7_000_000);
    assert_eq!(effective_idle_timeout_nanos(Some(3), 7_000_000), 3_000_000);
}

#[test]
fn deadline_is_reached_exactly_at_the_timeout() {
    assert!(idle_deadline_elapsed(100, 50, 150));
    assert!(!idle_deadline_elapsed(100, 50, 149));
    assert!(!idle_deadline_elapsed(100, 0, 99));
    assert!(idle_deadline_elapsed(100, 0, 100));
}
