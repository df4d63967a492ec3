use centaur_session_store::checks::{bool_member, text_member};
use centaur_session_store::json::{default_metadata, normalize_parts};
use centaur_session_store::lease::stdout_lease_expires_at;
use centaur_session_store::records::{message_from_row, SessionMessageRow};
use centaur_session_store::types::MessageRole;
use serde_json::Value;

fn doc(text: &str) -> Value {
    serde_json::from_str(text).unwrap()
}

#[test]
fn members_are_read_by_name_and_type() {
    let body = doc(r#"{"ok": true, "ready": "yes", "name": "n"}"#);
    assert_eq!(bool_member(&body, "ok"), Some(true));
    assert_eq!(bool_member(&body, "ready"), None);
    assert_eq!(bool_member(&body, "missing"), None);
    assert_eq!(text_member(&body, "name"), Some("n".to_owned()));
    assert_eq!(text_member(&body, "ok"), None);
    assert_eq!(text_member(&doc(r#"["name"]"#), "name"), None);
}

#[test]
fn missing_metadata_becomes_an_empty_object() {
    assert_eq!(default_metadata(None), doc("{}"));
    assert_eq!(default_metadata(Some(doc(r#"{"a": 1}"#))), doc(r#"{"a": 1}"#));
}

#[test]
fn parts_are_listed_from_arrays_or_single_documents() {
    assert_eq!(normalize_parts(doc(r#"[{"type": "text"}, 2]"#)), vec![doc(r#"{"type": "text"}"#), doc("2")]);
    assert_eq!(normalize_parts(doc(r#"{"type": "text"}"#)), vec![doc(r#"{"type": "text"}"#)]);
    let message = message_from_row(SessionMessageRow {
        message_id: "msg_1".to_owned(),
        client_message_id: None,
        thread_key: "cli:test".to_owned(),
        role: "user".to_owned(),
        parts: doc(r#""hello""#),
        metadata: doc("{}"),
        created_at: 5,
    })
    .unwrap();
    assert_eq!(message.parts, vec![doc(r#""hello""#)]);
    assert_eq!(message.role, MessageRole::User);
}

#[test]
fn leases_end_after_now() {
    let before = time::OffsetDateTime::now_utc().unix_timestamp_nanos();
    let deadline = stdout_lease_expires_at(60_000_000_000).unwrap();
    assert!(deadline >= before + 60_000_000_000);
    assert_eq!(stdout_lease_expires_at(u128::MAX), None);
}
