use centaur_session_store::decimal::{is_decimal_of_i64, is_decimal_of_u64};
use centaur_session_store::ids::{id_with_token, prefixed_id};
use centaur_session_store::report::{test_thread_key, thread_key_with_token};
use centaur_session_store::error::{DatabaseFailure, SessionStoreError};
use centaur_session_store::lease::{lease_expiry_from, MAX_UNIX_NANOS};
use centaur_session_store::records::SessionMessageInput;
use centaur_session_store::store::events::{
    delivery_next, fenced_append_next, DeliveryAction, DeliveryFinding, FencedAppendAction,
    FencedAppendFinding,
};
use centaur_session_store::store::SessionStore;
use centaur_session_store::types::{HarnessType, MessageRole, ThreadKey};
use serde_json::Value;

const T0: i128 = 1_700_000_000_000_000_000;

fn key(text: &str) -> ThreadKey {
    ThreadKey::parse(text.to_owned()).unwrap()
}

fn empty() -> Value {
    Value::Object(serde_json::Map::new())
}

fn doc(text: &str) -> Value {
    serde_json::from_str(text).unwrap()
}

fn message(client: Option<&str>, text: &str) -> SessionMessageInput {
    SessionMessageInput {
        client_message_id: client.map(str::to_owned),
        role: MessageRole::User,
        parts: vec![Value::String(text.to_owned())],
        metadata: empty(),
    }
}

#[test]
fn lease_expiry_is_the_sum_while_it_is_representable() {
    assert_eq!(lease_expiry_from(100, 5), Some(105));
    assert_eq!(lease_expiry_from(-100, 40), Some(-60));
    assert_eq!(lease_expiry_from(MAX_UNIX_NANOS, 0), Some(MAX_UNIX_NANOS));
    assert_eq!(lease_expiry_from(MAX_UNIX_NANOS, 1), None);
    assert_eq!(lease_expiry_from(MAX_UNIX_NANOS - 10, 10), Some(MAX_UNIX_NANOS));
    assert_eq!(lease_expiry_from(0, u128::MAX), None);
}

#[test]
fn a_drawn_execution_id_already_stored_is_refused() {
    let mut store = SessionStore::new();
    let thread = key("test:drawn-exec");
    store.create_or_get_session(&thread, &HarnessType::Codex, None, empty(), T0).unwrap();
    let first = store.create_execution(&thread, None, empty(), T0).unwrap().execution.execution_id;
    let refused = store.insert_drawn_execution(first.clone(), &thread, None, empty(), T0 + 1);
    assert!(matches!(refused, Err(SessionStoreError::Sqlx(DatabaseFailure::UniqueViolation))));
    assert_eq!(store.list_active_executions().len(), 1);
    let made = store
        .insert_drawn_execution("exe_fixed".to_owned(), &thread, Some("turn-9"), empty(), T0 + 2)
        .unwrap();
    assert!(made.created);
    assert_eq!(made.execution.execution_id, "exe_fixed");
    assert_eq!(made.execution.idempotency_key.as_deref(), Some("turn-9"));
    assert_eq!(store.list_active_executions().len(), 2);
}

#[test]
fn message_batches_take_their_fresh_ids_or_are_refused_on_a_collision() {
    let mut store = SessionStore::new();
    let thread = key("test:drawn-msg");
    store.create_or_get_session(&thread, &HarnessType::Codex, None, empty(), T0).unwrap();
    let ids = store
        .append_messages_with_ids(
            &thread,
            &vec![message(Some("c1"), "a"), message(None, "b")],
            &vec!["msg_one".to_owned(), "msg_two".to_owned()],
            T0,
        )
        .unwrap();
    assert_eq!(ids, vec!["msg_one".to_owned(), "msg_two".to_owned()]);
    let replay = store
        .append_messages_with_ids(
            &thread,
            &vec![message(Some("c1"), "again"), message(None, "c")],
            &vec!["msg_unused".to_owned(), "msg_three".to_owned()],
            T0 + 1,
        )
        .unwrap();
    assert_eq!(replay, vec!["msg_one".to_owned(), "msg_three".to_owned()]);
    let collided = store.append_messages_with_ids(
        &thread,
        &vec![message(None, "d"), message(None, "e")],
        &vec!["msg_four".to_owned(), "msg_two".to_owned()],
        T0 + 2,
    );
    assert!(matches!(collided, Err(SessionStoreError::Sqlx(DatabaseFailure::UniqueViolation))));
    assert_eq!(store.list_messages(&thread).len(), 3);
    let within = store.append_messages_with_ids(
        &thread,
        &vec![message(None, "f"), message(None, "g")],
        &vec!["msg_five".to_owned(), "msg_five".to_owned()],
        T0 + 3,
    );
    assert!(within.is_err());
    assert_eq!(store.list_messages(&thread).len(), 3);
}

#[test]
fn delivery_steps_follow_what_the_statements_found() {
    assert_eq!(delivery_next(DeliveryFinding::Session(false)), DeliveryAction::ReturnNothing);
    assert_eq!(delivery_next(DeliveryFinding::Session(true)), DeliveryAction::LockExecution);
    assert_eq!(delivery_next(DeliveryFinding::Execution(false)), DeliveryAction::ReturnNothing);
    assert_eq!(delivery_next(DeliveryFinding::Execution(true)), DeliveryAction::FindReceipt);
    assert_eq!(delivery_next(DeliveryFinding::Receipt(true)), DeliveryAction::ReturnReceipt);
    assert_eq!(delivery_next(DeliveryFinding::Receipt(false)), DeliveryAction::InsertReceipt);
}

#[test]
fn fenced_appends_insert_only_after_a_renewal() {
    assert_eq!(
        fenced_append_next(FencedAppendFinding::Session(false)),
        FencedAppendAction::ReturnNothing
    );
    assert_eq!(fenced_append_next(FencedAppendFinding::Session(true)), FencedAppendAction::RenewLease);
    assert_eq!(fenced_append_next(FencedAppendFinding::Renewed(0)), FencedAppendAction::ReturnNothing);
    assert_eq!(fenced_append_next(FencedAppendFinding::Renewed(1)), FencedAppendAction::InsertEvent);
}

#[test]
fn integers_are_compared_by_their_decimal_text() {
    assert!(is_decimal_of_u64(0, "0"));
    assert!(is_decimal_of_u64(10, "10"));
    assert!(is_decimal_of_u64(u64::MAX, "18446744073709551615"));
    assert!(!is_decimal_of_u64(10, "010"));
    assert!(!is_decimal_of_u64(5, ""));
    assert!(!is_decimal_of_u64(12, "21"));
    assert!(is_decimal_of_i64(-7, "-7"));
    assert!(is_decimal_of_i64(i64::MIN, "-9223372036854775808"));
    assert!(!is_decimal_of_i64(-7, "7"));
    assert!(!is_decimal_of_i64(7, "-7"));
    assert!(!is_decimal_of_i64(-7, "-"));
}

#[test]
fn a_workflow_run_id_written_as_an_integer_matches_its_text() {
    let mut store = SessionStore::new();
    for (name, run) in [("workflow:42:a", "42"), ("workflow:m7:a", "-7"), ("workflow:text:a", "\"42\"")] {
        let metadata = doc(&format!(r#"{{"workflow_owned_thread": true, "workflow_run_id": {run}}}"#));
        store.create_or_get_session(&key(name), &HarnessType::Codex, None, metadata, T0).unwrap();
    }
    let listed = store.list_workflow_owned_sandboxes("42").unwrap();
    assert_eq!(listed.len(), 2);
    assert_eq!(listed[0].thread_key, key("workflow:42:a"));
    assert_eq!(listed[1].thread_key, key("workflow:text:a"));
    assert_eq!(store.list_workflow_owned_sandboxes("-7").unwrap().len(), 1);
    assert!(store.list_workflow_owned_sandboxes("042").unwrap().is_empty());
}

#[test]
fn ids_and_test_keys_are_assembled_around_their_token() {
    assert_eq!(id_with_token("exe", "0123abcd"), "exe_0123abcd");
    assert_eq!(thread_key_with_token("feed", "turn"), "api-integration-test:feed:turn");
    let id = prefixed_id("msg");
    assert_eq!(id.len(), 36);
    assert!(id.starts_with("msg_"));
    assert!(id[4..].chars().all(|c| c.is_ascii_digit() || ('a'..='f').contains(&c)));
    let key = test_thread_key("turn");
    assert!(key.starts_with("api-integration-test:"));
    assert!(key.ends_with(":turn"));
    assert_eq!(key.len(), "api-integration-test:".len() + 32 + ":turn".len());
}
