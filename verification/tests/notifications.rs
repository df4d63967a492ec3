use centaur_session_store::error::SessionStoreError;
use centaur_session_store::notification::{
    listens_to, notification_result, SessionEventNotification, SESSION_EVENTS_CHANNEL,
};

#[test]
fn listener_reads_only_the_session_events_channel() {
    assert!(listens_to(SESSION_EVENTS_CHANNEL));
    assert!(listens_to("centaur_session_events"));
    assert!(!listens_to("other_channel"));
    assert!(!listens_to(""));
}

#[test]
fn a_read_notification_is_passed_on_as_it_is() {
    let read = SessionEventNotification { thread_key: "cli:test".to_owned(), event_id: 42 };
    let result = notification_result(
        SESSION_EVENTS_CHANNEL,
        r#"{"thread_key":"cli:test","event_id":42}"#,
        Ok(read.clone()),
    );
    assert_eq!(result.unwrap(), read);
}

#[test]
fn an_unreadable_payload_is_an_invalid_notification() {
    let result = notification_result(
        SESSION_EVENTS_CHANNEL,
        r#"{"thread_key":"cli:test"}"#,
        Err("missing field `event_id`".to_owned()),
    );
    match result {
        Err(SessionStoreError::InvalidNotification { channel, payload, error }) => {
            assert_eq!(channel, SESSION_EVENTS_CHANNEL);
            assert_eq!(payload, r#"{"thread_key":"cli:test"}"#);
            assert_eq!(error, "missing field `event_id`");
        }
        other => panic!("unexpected: {other:?}"),
    }
}
