use centaur_session_store::error::{DatabaseFailure, SessionStoreError};
use centaur_session_store::store::fences::ReleaseSessionResult;
use centaur_session_store::store::SessionStore;
use centaur_session_store::types::{
    ExecutionStatus, HarnessType, SandboxCapabilities, SandboxRepoCacheAccess, SessionStatus,
    ThreadKey,
};
use serde_json::Value;

const T0: i128 = 1_700_000_000_000_000_000;
const MS: i128 = 1_000_000;
const SECOND: u128 = 1_000_000_000;

fn key(text: &str) -> ThreadKey {
    ThreadKey::parse(text.to_owned()).unwrap()
}

fn empty() -> Value {
    Value::Object(serde_json::Map::new())
}

fn doc(text: &str) -> Value {
    serde_json::from_str(text).unwrap()
}

fn enabled() -> SandboxCapabilities {
    SandboxCapabilities {
        repo_cache: SandboxRepoCacheAccess::ReadOnly,
        observability_enabled: true,
        api_server_enabled: true,
    }
}

/// A store with one session for `thread` and one running execution.
fn running_execution(store: &mut SessionStore, thread: &ThreadKey, now: i128) -> String {
    store
        .create_or_get_session(thread, &HarnessType::Codex, None, empty(), now)
        .expect("create session");
    let execution_id = store
        .create_execution(thread, None, empty(), now)
        .expect("create execution")
        .execution
        .execution_id;
    let claim = store.mark_execution_running(&execution_id, now).expect("mark running");
    assert!(claim.claimed);
    execution_id
}

#[test]
fn execution_delivery_receipt_is_thread_bound_and_idempotent() {
    let mut store = SessionStore::new();
    let thread_key = key("slack:CDELIVERY:1");
    let other_thread = key("slack:COTHER:1");
    for thread in [&thread_key, &other_thread] {
        store
            .create_or_get_session(thread, &HarnessType::Codex, None, empty(), T0)
            .expect("create session");
    }
    let execution_id = store
        .create_execution(&thread_key, None, empty(), T0)
        .expect("create execution")
        .execution
        .execution_id;

    assert!(store
        .record_execution_delivery(
            &other_thread,
            &execution_id,
            "session.delivery_completed",
            doc(r#"{"outcome": "forged"}"#),
            T0,
        )
        .expect("cross-thread record")
        .is_none());

    let first = store
        .record_execution_delivery(
            &thread_key,
            &execution_id,
            "session.delivery_completed",
            doc(r#"{"outcome": "primary", "message_id": "1780000000.000100"}"#),
            T0,
        )
        .expect("first receipt")
        .expect("bound execution");
    assert!(first.created);

    let replay = store
        .record_execution_delivery(
            &thread_key,
            &execution_id,
            "session.delivery_completed",
            doc(r#"{"outcome": "fallback", "message_id": "different"}"#),
            T0 + MS,
        )
        .expect("replayed receipt")
        .expect("bound execution");
    assert!(!replay.created);
    assert_eq!(replay.event.event_id, first.event.event_id);
    assert_eq!(replay.event.payload, first.event.payload);
    assert!(store.execution_event_exists(&execution_id, "session.delivery_completed"));

    let receipts = store
        .list_events_after(&thread_key, 0, Some(&execution_id), 100)
        .expect("count receipts");
    assert_eq!(receipts.len(), 1);
    store
        .complete_execution(&execution_id, T0 + 2 * MS)
        .expect("complete first execution before concurrency case");

    let concurrent_execution_id = store
        .create_execution(&thread_key, None, empty(), T0 + 3 * MS)
        .expect("create concurrent execution")
        .execution
        .execution_id;
    let left = store
        .record_execution_delivery(
            &thread_key,
            &concurrent_execution_id,
            "session.delivery_completed",
            doc(r#"{"outcome": "primary", "message_id": "1780000001.000100"}"#),
            T0 + 4 * MS,
        )
        .expect("left receipt")
        .expect("left execution");
    let right = store
        .record_execution_delivery(
            &thread_key,
            &concurrent_execution_id,
            "session.delivery_completed",
            doc(r#"{"outcome": "primary", "message_id": "1780000001.000100"}"#),
            T0 + 4 * MS,
        )
        .expect("right receipt")
        .expect("right execution");
    assert_ne!(left.created, right.created);
    assert_eq!(left.event.event_id, right.event.event_id);
}

#[test]
fn principal_bound_session_rejects_cross_principal_restart_before_mutation() {
    let mut store = SessionStore::new();
    let thread_key = key("feedback-improvement:test:1");
    let created = store
        .create_or_get_session_for_principal(
            &thread_key,
            &HarnessType::Codex,
            None,
            doc(r#"{"source": "principal-a"}"#),
            "prn_a",
            T0,
        )
        .expect("create principal A session");
    assert_eq!(created.iron_control_principal.as_deref(), Some("prn_a"));

    let error = store
        .create_or_get_session_for_principal(
            &thread_key,
            &HarnessType::Amp,
            None,
            doc(r#"{"source": "principal-b"}"#),
            "prn_b",
            T0 + MS,
        )
        .expect_err("principal B must not reach harness restart handling");
    assert!(matches!(
        error,
        SessionStoreError::PrincipalConflict {
            existing: Some(existing),
            requested,
            ..
        } if existing == "prn_a" && requested == "prn_b"
    ));

    let unchanged = store.get_session(&thread_key).expect("principal A session remains");
    assert_eq!(unchanged.harness_type, HarnessType::Codex);
    assert_eq!(unchanged.iron_control_principal.as_deref(), Some("prn_a"));
}

#[test]
fn stdout_owner_fences_output_and_terminal_updates() {
    let mut store = SessionStore::new();
    let thread_key = key("test:stdout-owner-1");
    let execution_id = running_execution(&mut store, &thread_key, T0);
    let lease = 25 * MS as u128;

    assert!(store.claim_stdout_owner(&execution_id, "owner-a", lease, T0));
    assert!(store
        .append_event_if_stdout_owner(
            &thread_key,
            &execution_id,
            "owner-a",
            lease,
            "session.output.line",
            Value::String("line-from-owner-a".to_owned()),
            T0,
        )
        .expect("owner-a appends")
        .is_some());
    assert!(store
        .append_event_if_stdout_owner(
            &thread_key,
            &execution_id,
            "owner-b",
            lease,
            "session.output.line",
            Value::String("line-from-stale-owner-b".to_owned()),
            T0,
        )
        .expect("owner-b append is fenced")
        .is_none());
    assert!(store
        .complete_execution_if_active_and_stdout_owner(&execution_id, "owner-b", T0)
        .is_none());

    let later = T0 + 40 * MS;
    assert!(store.claim_expired_stdout_owner(&execution_id, "owner-b", 5 * SECOND, later));
    assert!(store
        .append_event_if_stdout_owner(
            &thread_key,
            &execution_id,
            "owner-a",
            5 * SECOND,
            "session.output.line",
            Value::String("line-from-expired-owner-a".to_owned()),
            later,
        )
        .expect("expired owner-a append is fenced")
        .is_none());
    let completed = store
        .complete_execution_if_active_and_stdout_owner(&execution_id, "owner-b", later)
        .expect("completion should be recorded");
    assert_eq!(completed.status, ExecutionStatus::Completed);
}

#[test]
fn live_lease_cannot_be_taken_over() {
    let mut store = SessionStore::new();
    let thread_key = key("test:live-lease");
    let execution_id = running_execution(&mut store, &thread_key, T0);
    assert!(store.claim_stdout_owner(&execution_id, "owner-a", 60 * SECOND, T0));
    assert!(!store.claim_expired_stdout_owner(&execution_id, "owner-b", 60 * SECOND, T0 + MS));
    assert!(!store.claim_stdout_owner(&execution_id, "owner-b", 60 * SECOND, T0 + MS));
    assert!(store.claim_stdout_owner(&execution_id, "owner-a", 60 * SECOND, T0 + MS));
    assert!(store.renew_stdout_owner(&execution_id, "owner-a", 60 * SECOND, T0 + 2 * MS));
    assert!(!store.renew_stdout_owner(&execution_id, "owner-b", 60 * SECOND, T0 + 2 * MS));
}

#[test]
fn canonical_release_requires_cancellation_and_fences_the_old_stdout_owner() {
    let mut store = SessionStore::new();
    let thread_key = key("test:release-1");
    let sandbox_id = "sbx-release-1";
    store
        .create_or_get_session(&thread_key, &HarnessType::Codex, None, empty(), T0)
        .expect("create session");
    store.update_sandbox_id(&thread_key, Some(sandbox_id), T0).expect("assign sandbox");
    store
        .update_harness_thread_id(&thread_key, Some("codex-thread-old"), T0)
        .expect("assign harness thread");
    let execution_id = store
        .create_execution(&thread_key, None, empty(), T0)
        .expect("create execution")
        .execution
        .execution_id;
    store.mark_execution_running(&execution_id, T0).expect("mark execution running");
    assert!(store.claim_stdout_owner(&execution_id, "old-owner", 60 * SECOND, T0));

    let rejected = store
        .release_session_if_sandbox_matches(
            &thread_key,
            Some(sandbox_id),
            false,
            "release requested",
            T0 + MS,
        )
        .expect("release decision");
    assert!(matches!(rejected, ReleaseSessionResult::ActiveExecution(_)));
    assert_eq!(
        store
            .get_session(&thread_key)
            .expect("session after rejected release")
            .sandbox_id
            .as_deref(),
        Some(sandbox_id)
    );

    let released = store
        .release_session_if_sandbox_matches(
            &thread_key,
            Some(sandbox_id),
            true,
            "release requested",
            T0 + 2 * MS,
        )
        .expect("release session");
    let ReleaseSessionResult::Released { session, cancelled_execution } = released else {
        panic!("expected released session");
    };
    assert_eq!(session.sandbox_id, None);
    assert_eq!(session.harness_thread_id, None);
    assert_eq!(session.status, SessionStatus::Idle);
    assert_eq!(
        cancelled_execution.as_ref().map(|execution| &execution.status),
        Some(&ExecutionStatus::Cancelled)
    );

    assert!(store
        .append_event_if_stdout_owner(
            &thread_key,
            &execution_id,
            "old-owner",
            60 * SECOND,
            "session.output.line",
            Value::String("stale output".to_owned()),
            T0 + 3 * MS,
        )
        .expect("stale owner append is fenced")
        .is_none());
    assert!(store
        .complete_execution_if_active_and_stdout_owner(&execution_id, "old-owner", T0 + 3 * MS)
        .is_none());
}

#[test]
fn release_of_another_sandbox_reports_the_current_one() {
    let mut store = SessionStore::new();
    let thread_key = key("test:release-mismatch");
    store
        .create_or_get_session(&thread_key, &HarnessType::Codex, None, empty(), T0)
        .expect("create session");
    store.update_sandbox_id(&thread_key, Some("sbx-now"), T0).expect("assign sandbox");
    let result = store
        .release_session_if_sandbox_matches(&thread_key, Some("sbx-old"), true, "r", T0 + MS)
        .expect("release decision");
    match result {
        ReleaseSessionResult::SandboxMismatch { current_sandbox_id } => {
            assert_eq!(current_sandbox_id.as_deref(), Some("sbx-now"));
        }
        other => panic!("unexpected: {other:?}"),
    }
}

#[test]
fn cancelled_execution_cannot_assign_a_sandbox_after_null_release() {
    let mut store = SessionStore::new();
    let thread_key = key("test:release-before-bind-1");
    let execution_id = running_execution(&mut store, &thread_key, T0);
    assert!(store.claim_stdout_owner(&execution_id, "released-owner", 60 * SECOND, T0));
    assert!(matches!(
        store
            .release_session_if_sandbox_matches(
                &thread_key,
                None,
                true,
                "release before sandbox bind",
                T0 + MS,
            )
            .expect("release session"),
        ReleaseSessionResult::Released { .. }
    ));
    let assigned = store
        .assign_sandbox_to_active_execution(
            &thread_key,
            &execution_id,
            "released-owner",
            None,
            "sbx-too-late",
            None,
            &enabled(),
            T0 + 2 * MS,
        )
        .expect("fenced assignment");
    assert!(assigned.is_none());
    assert_eq!(
        store.get_session(&thread_key).expect("session after fenced assignment").sandbox_id,
        None
    );
    let status = store
        .latest_execution_for_thread(&thread_key)
        .expect("cancelled execution status")
        .status;
    assert_eq!(status.as_str(), ExecutionStatus::Cancelled.as_str());
}

#[test]
fn stale_stdout_owner_cannot_assign_or_clear_after_lease_takeover() {
    let mut store = SessionStore::new();
    let thread_key = key("test:owner-before-bind-1");
    let execution_id = running_execution(&mut store, &thread_key, T0);
    assert!(store.claim_stdout_owner(&execution_id, "owner-a", 60 * SECOND, T0));
    let expired = T0 + 61 * SECOND as i128;
    assert!(store.claim_stdout_owner(&execution_id, "owner-b", 60 * SECOND, expired));
    assert!(store
        .assign_sandbox_to_active_execution(
            &thread_key,
            &execution_id,
            "owner-a",
            None,
            "sbx-stale-owner",
            None,
            &enabled(),
            expired,
        )
        .expect("stale owner assignment")
        .is_none());
    assert!(store
        .assign_sandbox_to_active_execution(
            &thread_key,
            &execution_id,
            "owner-b",
            None,
            "sbx-current-owner",
            None,
            &enabled(),
            expired,
        )
        .expect("current owner assignment")
        .is_some());
    assert!(store
        .clear_sandbox_from_active_execution(
            &thread_key,
            &execution_id,
            "owner-a",
            "sbx-current-owner",
            expired,
        )
        .expect("stale owner clear")
        .is_none());
    assert!(store
        .clear_sandbox_from_active_execution(
            &thread_key,
            &execution_id,
            "owner-b",
            "sbx-current-owner",
            expired,
        )
        .expect("current owner clear")
        .is_some());
    assert_eq!(
        store.get_session(&thread_key).expect("session after current owner clear").sandbox_id,
        None
    );
}

#[test]
fn releases_all_stdout_leases_held_by_one_owner() {
    let mut store = SessionStore::new();
    let owner = "owner-1";
    let peer = "peer-1";
    let mut owned = Vec::new();
    for label in ["a", "b"] {
        let thread_key = key(&format!("test:handoff-{label}-1"));
        let execution_id = running_execution(&mut store, &thread_key, T0);
        assert!(store.claim_stdout_owner(&execution_id, owner, 60 * SECOND, T0));
        owned.push((execution_id, thread_key));
    }
    let bystander_thread = key("test:handoff-bystander-1");
    let bystander_execution = running_execution(&mut store, &bystander_thread, T0);
    let bystander = "bystander-1";
    assert!(store.claim_stdout_owner(&bystander_execution, bystander, 60 * SECOND, T0));
    assert_eq!(store.count_executions_with_stdout_owner(owner), 2);
    let released = store.release_stdout_owned_executions(owner, T0 + MS);
    assert_eq!(released.len(), 2);
    for (execution_id, thread_key) in &owned {
        assert!(
            released.iter().any(|execution| {
                execution.execution_id == *execution_id && execution.thread_key == *thread_key
            }),
            "released set must include {execution_id}"
        );
    }
    assert_eq!(store.count_executions_with_stdout_owner(owner), 0);
    assert!(store.claim_stdout_owner(&owned[0].0, peer, 60 * SECOND, T0 + 2 * MS));
    assert_eq!(
        store.count_executions_with_stdout_owner(bystander),
        1,
        "release must be scoped to the requested owner"
    );
    store.fail_execution_if_active(&bystander_execution, "test cleanup", T0 + 3 * MS);
    for (execution_id, _) in &owned {
        store.fail_execution_if_active(execution_id, "test cleanup", T0 + 3 * MS);
    }
    assert!(store.release_stdout_owned_executions(peer, T0 + 4 * MS).is_empty());
}

#[test]
fn warm_eviction_reservation_blocks_later_claims() {
    let mut store = SessionStore::new();
    let sandbox_id = "sbx-warm-evict-1";
    let workload_key = "workload-warm-evict-1";
    store.insert_ready_warm_sandbox(sandbox_id, workload_key, T0).expect("insert warm sandbox");
    let reserved = store
        .reserve_ready_warm_sandboxes_for_eviction(1, T0 + MS)
        .expect("reserve warm sandbox");
    assert_eq!(reserved, vec![sandbox_id.to_owned()]);
    assert_eq!(store.claim_ready_warm_sandbox(workload_key, "test-thread", T0 + 2 * MS), None);
    assert!(store.list_referenced_sandbox_ids().contains(&sandbox_id.to_owned()));
    store.mark_warm_sandbox_failed(sandbox_id, "test cleanup", T0 + 3 * MS);
    assert!(!store.list_referenced_sandbox_ids().contains(&sandbox_id.to_owned()));
}

#[test]
fn eviction_reserves_the_oldest_first_and_refuses_a_negative_limit() {
    let mut store = SessionStore::new();
    store.insert_ready_warm_sandbox("sbx-new", "w", T0 + 5 * MS).expect("insert");
    store.insert_ready_warm_sandbox("sbx-old", "w", T0).expect("insert");
    assert!(store.reserve_ready_warm_sandboxes_for_eviction(-1, T0 + 6 * MS).is_err());
    assert_eq!(
        store.reserve_ready_warm_sandboxes_for_eviction(1, T0 + 6 * MS).expect("reserve"),
        vec!["sbx-old".to_owned()]
    );
    assert_eq!(store.count_ready_warm_sandboxes("w"), 1);
    assert_eq!(
        store.claim_ready_warm_sandbox("w", "thread", T0 + 7 * MS),
        Some("sbx-new".to_owned())
    );
}

#[test]
fn stale_ready_failure_cannot_overwrite_a_concurrent_claim() {
    let mut store = SessionStore::new();
    let sandbox_id = "sbx-warm-claim-race-1";
    let workload_key = "workload-warm-claim-race-1";
    let thread_key = key("test:warm-claim-race-1");
    store
        .create_or_get_session(&thread_key, &HarnessType::Codex, None, empty(), T0)
        .expect("create session");
    store.insert_ready_warm_sandbox(sandbox_id, workload_key, T0).expect("insert warm sandbox");
    assert_eq!(
        store.claim_ready_warm_sandbox(workload_key, thread_key.as_str(), T0 + MS),
        Some(sandbox_id.to_owned())
    );
    assert!(!store.mark_ready_warm_sandbox_failed_if_unclaimed(
        sandbox_id,
        "stale backend status",
        T0 + 2 * MS,
    ));
    assert!(store.list_referenced_sandbox_ids().contains(&sandbox_id.to_owned()));
    assert!(store.list_ready_warm_sandbox_ids().is_empty());
    store.mark_warm_sandbox_failed(sandbox_id, "test cleanup", T0 + 3 * MS);
}

#[test]
fn idempotent_create_returns_the_first_execution() {
    let mut store = SessionStore::new();
    let thread_key = key("test:idem");
    store
        .create_or_get_session(&thread_key, &HarnessType::Codex, None, empty(), T0)
        .expect("create session");
    let first = store
        .create_execution(&thread_key, Some("turn-1"), empty(), T0)
        .expect("first create");
    assert!(first.created);
    assert!(first.execution.execution_id.starts_with("exe_"));
    assert_eq!(first.execution.execution_id.len(), 36);
    let replay = store
        .create_execution(&thread_key, Some("turn-1"), doc(r#"{"replay": true}"#), T0 + MS)
        .expect("replay");
    assert!(!replay.created);
    assert_eq!(replay.execution.execution_id, first.execution.execution_id);
    assert_eq!(replay.execution.metadata, empty());
}

#[test]
fn create_execution_for_unknown_session_is_not_found() {
    let mut store = SessionStore::new();
    let error = store.create_execution(&key("test:none"), None, empty(), T0).unwrap_err();
    assert!(matches!(error, SessionStoreError::NotFound { .. }));
}

#[test]
fn running_claim_happens_once() {
    let mut store = SessionStore::new();
    let thread_key = key("test:claim-once");
    let execution_id = running_execution(&mut store, &thread_key, T0);
    let again = store.mark_execution_running(&execution_id, T0 + MS).expect("second claim");
    assert!(!again.claimed);
    assert_eq!(again.execution.status, ExecutionStatus::Running);
    assert_eq!(store.get_session(&thread_key).unwrap().status, SessionStatus::Executing);
    assert!(store.mark_execution_running("exe_missing", T0).is_err());
}

#[test]
fn event_ids_increase_and_listing_filters_by_thread_and_id() {
    let mut store = SessionStore::new();
    let a = key("test:events-a");
    let b = key("test:events-b");
    for thread in [&a, &b] {
        store
            .create_or_get_session(thread, &HarnessType::Codex, None, empty(), T0)
            .expect("create session");
    }
    let e1 = store.append_event(&a, None, "x", empty(), T0).unwrap();
    let e2 = store.append_event(&b, None, "x", empty(), T0).unwrap();
    let e3 = store.append_event(&a, None, "y", empty(), T0).unwrap();
    assert!(e1.event_id < e2.event_id && e2.event_id < e3.event_id);
    let after = store.list_events_after(&a, e1.event_id, None, 10).unwrap();
    assert_eq!(after.len(), 1);
    assert_eq!(after[0].event_id, e3.event_id);
    assert_eq!(store.list_events_after(&a, 0, None, 1).unwrap().len(), 1);
    assert!(store.list_events_after(&a, 0, None, -1).is_err());
    let missing = store.append_event(&key("test:nobody"), None, "x", empty(), T0);
    assert!(matches!(missing, Err(SessionStoreError::Sqlx(_))));
}

#[test]
fn session_binding_refuses_another_harness_or_persona() {
    let mut store = SessionStore::new();
    let thread_key = key("test:binding");
    store
        .create_or_get_session(&thread_key, &HarnessType::Codex, Some("p1"), empty(), T0)
        .expect("create session");
    assert!(matches!(
        store.create_or_get_session(&thread_key, &HarnessType::Amp, Some("p1"), empty(), T0),
        Err(SessionStoreError::HarnessConflict { .. })
    ));
    assert!(matches!(
        store.create_or_get_session(&thread_key, &HarnessType::Codex, Some("p2"), empty(), T0),
        Err(SessionStoreError::PersonaConflict { .. })
    ));
    let again = store
        .create_or_get_session(&thread_key, &HarnessType::Codex, Some("p1"), empty(), T0 + MS)
        .expect("same request");
    assert_eq!(again.created_at, T0);
    assert_eq!(again.persona_id.as_deref(), Some("p1"));
}

fn message(client: Option<&str>, text: &str) -> centaur_session_store::records::SessionMessageInput {
    centaur_session_store::records::SessionMessageInput {
        client_message_id: client.map(str::to_owned),
        role: centaur_session_store::types::MessageRole::User,
        parts: vec![Value::String(text.to_owned())],
        metadata: empty(),
    }
}

#[test]
fn messages_with_a_known_client_id_are_not_stored_again() {
    let mut store = SessionStore::new();
    let thread_key = key("test:messages");
    store
        .create_or_get_session(&thread_key, &HarnessType::Codex, None, empty(), T0)
        .expect("create session");
    let first = store
        .append_messages(&thread_key, &vec![message(Some("c1"), "hello"), message(None, "bye")], T0)
        .expect("first append");
    assert_eq!(first.len(), 2);
    assert!(first.iter().all(|id| id.starts_with("msg_") && id.len() == 36));
    let replay = store
        .append_messages(
            &thread_key,
            &vec![message(Some("c1"), "changed"), message(Some("c2"), "new"), message(Some("c2"), "again")],
            T0 + MS,
        )
        .expect("replay");
    assert_eq!(replay[0], first[0]);
    assert_eq!(replay[1], replay[2]);
    let listed = store.list_messages(&thread_key);
    assert_eq!(listed.len(), 3);
    let hello = listed.iter().position(|m| m.parts == vec![Value::String("hello".to_owned())]);
    assert!(matches!(hello, Some(0) | Some(1)));
    assert_eq!(listed[0].created_at, T0);
    assert_eq!(listed[1].created_at, T0);
    assert!(listed[0].message_id < listed[1].message_id);
    assert_eq!(listed[2].client_message_id.as_deref(), Some("c2"));
    assert_eq!(listed[2].parts, vec![Value::String("new".to_owned())]);
    let title_parts = store.title_generation_candidate(&thread_key).expect("untitled session");
    assert_eq!(title_parts.len(), 3);
    assert!(store.set_session_title_if_empty(&thread_key, "Greetings", T0 + 2 * MS));
    assert!(!store.set_session_title_if_empty(&thread_key, "Other", T0 + 3 * MS));
    assert_eq!(store.get_session_title(&thread_key).as_deref(), Some("Greetings"));
    assert!(store.title_generation_candidate(&thread_key).is_none());
}

#[test]
fn messages_for_an_unknown_session_are_refused_whole() {
    let mut store = SessionStore::new();
    let result = store.append_messages(&key("test:nobody"), &vec![message(None, "x")], T0);
    assert!(matches!(
        result,
        Err(SessionStoreError::Sqlx(DatabaseFailure::ForeignKeyViolation))
    ));
    assert!(store.list_messages(&key("test:nobody")).is_empty());
}

#[test]
fn database_failures_are_reported_by_kind() {
    let mut store = SessionStore::new();
    store.insert_ready_warm_sandbox("sbx-1", "w", T0).expect("insert");
    assert!(matches!(
        store.insert_ready_warm_sandbox("sbx-1", "w", T0),
        Err(SessionStoreError::Sqlx(DatabaseFailure::UniqueViolation))
    ));
    assert!(matches!(
        store.update_sandbox_id(&key("test:none"), Some("sbx"), T0),
        Err(SessionStoreError::Sqlx(DatabaseFailure::RowNotFound))
    ));
    assert!(matches!(
        store.mark_execution_running("exe_missing", T0),
        Err(SessionStoreError::Sqlx(DatabaseFailure::RowNotFound))
    ));
    assert!(matches!(
        store.switch_session_harness(&key("test:none"), &HarnessType::Amp, T0),
        Err(SessionStoreError::NotFound { .. })
    ));
    assert_eq!(
        SessionStoreError::Migrate("migration 3 failed".to_owned()).message(),
        "migration 3 failed"
    );
}

#[test]
fn switching_harness_resets_the_sandbox_and_thread() {
    let mut store = SessionStore::new();
    let thread_key = key("test:switch");
    store
        .create_or_get_session(&thread_key, &HarnessType::Codex, None, empty(), T0)
        .expect("create session");
    store
        .update_sandbox_assignment(&thread_key, "sbx-1", Some("rev-1"), &enabled(), T0)
        .expect("assign");
    store.update_harness_thread_id(&thread_key, Some("thread-1"), T0).expect("thread");
    let switched = store
        .switch_session_harness(&thread_key, &HarnessType::Amp, T0 + MS)
        .expect("switch");
    assert_eq!(switched.harness_type, HarnessType::Amp);
    assert_eq!(switched.sandbox_id, None);
    assert_eq!(switched.sandbox_content_revision, None);
    assert_eq!(switched.harness_thread_id, None);
    assert_eq!(switched.status, SessionStatus::Idle);
    assert!(!store.touch_session_sandbox_activity(&thread_key, T0 + 2 * MS));
}

#[test]
fn idle_candidates_use_persisted_execution_idle_timeout() {
    let mut store = SessionStore::new();
    let thread_key = key("test:idle-cleanup-1");
    let sandbox_id = "sbx-idle-1";
    store
        .create_or_get_session(&thread_key, &HarnessType::Codex, None, empty(), T0)
        .expect("create session");
    store.update_sandbox_id(&thread_key, Some(sandbox_id), T0).expect("set sandbox id");
    let execution_id = store
        .create_execution(&thread_key, None, doc(r#"{"idle_timeout_ms": 1000}"#), T0)
        .expect("create execution")
        .execution
        .execution_id;
    store.complete_execution(&execution_id, T0).expect("complete execution");

    let now = T0 + 2 * SECOND as i128;
    let candidates = store
        .list_idle_sandbox_candidates(3600 * SECOND, now)
        .expect("list idle sandbox candidates");
    let candidate = candidates
        .iter()
        .find(|candidate| candidate.thread_key == thread_key)
        .expect("candidate should use execution idle timeout, not backstop");

    assert_eq!(candidate.sandbox_id, sandbox_id);
    assert_eq!(candidate.execution_id, execution_id);
    assert_eq!(candidate.idle_timeout, SECOND);
}

#[test]
fn idle_sweep_skips_busy_threads_and_fresh_sandboxes() {
    let mut store = SessionStore::new();
    let busy = key("test:idle-busy");
    let fresh = key("test:idle-fresh");
    for thread in [&busy, &fresh] {
        store
            .create_or_get_session(thread, &HarnessType::Codex, None, empty(), T0)
            .expect("create session");
        store.update_sandbox_id(thread, Some("sbx"), T0).expect("set sandbox id");
    }
    let done = store.create_execution(&busy, None, empty(), T0).unwrap().execution.execution_id;
    store.complete_execution(&done, T0).unwrap();
    store.create_execution(&busy, None, empty(), T0 + MS).unwrap();
    let recent = store.create_execution(&fresh, None, empty(), T0).unwrap().execution.execution_id;
    store.complete_execution(&recent, T0 + 10 * SECOND as i128).unwrap();
    let candidates = store
        .list_idle_sandbox_candidates(60 * SECOND, T0 + 20 * SECOND as i128)
        .expect("list idle sandbox candidates");
    assert!(candidates.is_empty());
    let later = store
        .list_idle_sandbox_candidates(60 * SECOND, T0 + 71 * SECOND as i128)
        .expect("list idle sandbox candidates");
    assert_eq!(later.len(), 1);
    assert_eq!(later[0].thread_key, fresh);
    assert_eq!(later[0].idle_timeout, 60 * SECOND);
}

#[test]
fn workflow_owned_sessions_are_listed_by_run() {
    let mut store = SessionStore::new();
    let owned = key("workflow:run-1:a");
    let other_run = key("workflow:run-2:a");
    let unmarked = key("workflow:run-1:b");
    let marked_as_text = key("workflow:run-1:c");
    store
        .create_or_get_session(
            &owned,
            &HarnessType::Codex,
            None,
            doc(r#"{"workflow_owned_thread": true, "workflow_run_id": "run-1"}"#),
            T0,
        )
        .unwrap();
    store.update_sandbox_id(&owned, Some("sbx-a"), T0).unwrap();
    store
        .create_or_get_session(
            &other_run,
            &HarnessType::Codex,
            None,
            doc(r#"{"workflow_owned_thread": true, "workflow_run_id": "run-2"}"#),
            T0,
        )
        .unwrap();
    store
        .create_or_get_session(
            &unmarked,
            &HarnessType::Codex,
            None,
            doc(r#"{"workflow_run_id": "run-1"}"#),
            T0,
        )
        .unwrap();
    store
        .create_or_get_session(
            &marked_as_text,
            &HarnessType::Codex,
            None,
            doc(r#"{"workflow_owned_thread": "true", "workflow_run_id": "run-1"}"#),
            T0,
        )
        .unwrap();
    let listed = store.list_workflow_owned_sandboxes("run-1").unwrap();
    assert_eq!(listed.len(), 2);
    assert_eq!(listed[0].thread_key, owned);
    assert_eq!(listed[0].sandbox_id.as_deref(), Some("sbx-a"));
    assert_eq!(listed[1].thread_key, marked_as_text);
    assert_eq!(listed[1].sandbox_id, None);
}

#[test]
fn capacity_sweep_picks_the_longest_unused_unpaused_idle_sandboxes() {
    let mut store = SessionStore::new();
    let a = key("test:cap-a");
    let b = key("test:cap-b");
    let paused = key("test:cap-paused");
    let busy = key("test:cap-busy");
    let excluded = key("test:cap-excluded");
    let recent = key("test:cap-recent");
    let assignments = [
        (&b, "sbx-b", T0 + 5 * SECOND as i128),
        (&a, "sbx-a", T0),
        (&paused, "sbx-p", T0),
        (&busy, "sbx-busy", T0),
        (&excluded, "sbx-x", T0),
        (&recent, "sbx-r", T0 + 9_500 * MS),
    ];
    for (thread, sandbox, at) in assignments {
        store
            .create_or_get_session(thread, &HarnessType::Codex, None, empty(), T0)
            .expect("create session");
        store.update_sandbox_id(thread, Some(sandbox), at).expect("assign sandbox");
    }
    store
        .append_event(&paused, None, "session.sandbox_paused", doc(r#"{"sandbox_id": "sbx-p"}"#), T0)
        .expect("pause event");
    store.create_execution(&busy, None, empty(), T0).expect("busy execution");
    let now = T0 + 10 * SECOND as i128;
    let two = store
        .list_sandbox_capacity_candidates(Some(&excluded), SECOND, 2, now)
        .expect("capacity candidates");
    assert_eq!(two.len(), 2);
    assert_eq!(two[0].thread_key, a);
    assert_eq!(two[0].sandbox_id, "sbx-a");
    assert_eq!(two[0].last_active_at, T0);
    assert_eq!(two[0].latest_execution_id, None);
    assert_eq!(two[1].thread_key, b);
    let all = store
        .list_sandbox_capacity_candidates(None, SECOND, 10, now)
        .expect("capacity candidates");
    assert_eq!(all.len(), 3);
    assert_eq!(all[2].thread_key, b);
    assert!(store.list_sandbox_capacity_candidates(None, SECOND, -1, now).is_err());
    store
        .append_event(&paused, None, "session.sandbox_resumed", doc(r#"{"sandbox_id": "sbx-p"}"#), T0 + MS)
        .expect("resume event");
    let resumed = store
        .list_sandbox_capacity_candidates(Some(&excluded), SECOND, 10, now)
        .expect("capacity candidates");
    assert_eq!(resumed.len(), 3);
}

#[test]
fn warm_sandboxes_created_together_are_taken_by_sandbox_id() {
    let mut store = SessionStore::new();
    store.insert_ready_warm_sandbox("sbx-b", "w", T0).expect("insert");
    store.insert_ready_warm_sandbox("sbx-c", "w", T0 - MS).expect("insert");
    store.insert_ready_warm_sandbox("sbx-a", "w", T0).expect("insert");
    assert_eq!(
        store.list_ready_warm_sandbox_ids(),
        vec!["sbx-c".to_owned(), "sbx-a".to_owned(), "sbx-b".to_owned()]
    );
    assert_eq!(store.claim_ready_warm_sandbox("w", "thread-1", T0 + MS), Some("sbx-c".to_owned()));
    assert_eq!(store.claim_ready_warm_sandbox("w", "thread-2", T0 + MS), Some("sbx-a".to_owned()));
    assert_eq!(store.list_ready_warm_sandbox_ids(), vec!["sbx-b".to_owned()]);
}

#[test]
fn eviction_reserves_equal_ages_by_sandbox_id() {
    let mut store = SessionStore::new();
    store.insert_ready_warm_sandbox("sbx-z", "w", T0).expect("insert");
    store.insert_ready_warm_sandbox("sbx-y", "w", T0).expect("insert");
    store.insert_ready_warm_sandbox("sbx-x", "w", T0 + MS).expect("insert");
    assert_eq!(
        store.reserve_ready_warm_sandboxes_for_eviction(2, T0 + 2 * MS).expect("reserve"),
        vec!["sbx-y".to_owned(), "sbx-z".to_owned()]
    );
    assert_eq!(
        store.list_stale_evicting_warm_sandbox_ids(0, T0 + 2 * MS),
        vec!["sbx-y".to_owned(), "sbx-z".to_owned()]
    );
}

#[test]
fn active_executions_are_listed_oldest_first() {
    let mut store = SessionStore::new();
    let newer = key("test:list-newer");
    let older = key("test:list-older");
    for thread in [&newer, &older] {
        store
            .create_or_get_session(thread, &HarnessType::Codex, None, empty(), T0)
            .expect("create session");
    }
    let newer_id = store.create_execution(&newer, None, empty(), T0 + MS).unwrap().execution.execution_id;
    let older_id = store.create_execution(&older, None, empty(), T0).unwrap().execution.execution_id;
    let listed = store.list_active_executions();
    assert_eq!(listed.len(), 2);
    assert_eq!(listed[0].execution_id, older_id);
    assert_eq!(listed[1].execution_id, newer_id);
    let owned = store.list_active_executions_with_ownership(T0 + 2 * MS);
    assert_eq!(owned.len(), 2);
    assert_eq!(owned[0].execution.execution_id, older_id);
    assert!(!owned[0].stdout_owner_lease_active);
}

#[test]
fn workflow_owned_sessions_are_listed_by_thread_key() {
    let mut store = SessionStore::new();
    let owned_doc = r#"{"workflow_owned_thread": true, "workflow_run_id": "run-9"}"#;
    for name in ["workflow:run-9:b", "workflow:run-9:a"] {
        store
            .create_or_get_session(&key(name), &HarnessType::Codex, None, doc(owned_doc), T0)
            .unwrap();
    }
    let listed = store.list_workflow_owned_sandboxes("run-9").unwrap();
    assert_eq!(listed.len(), 2);
    assert_eq!(listed[0].thread_key, key("workflow:run-9:a"));
    assert_eq!(listed[1].thread_key, key("workflow:run-9:b"));
}

#[test]
fn idle_candidates_are_listed_by_when_their_execution_ended() {
    let mut store = SessionStore::new();
    let late = key("test:idle-late");
    let early = key("test:idle-early");
    for thread in [&late, &early] {
        store
            .create_or_get_session(thread, &HarnessType::Codex, None, empty(), T0)
            .expect("create session");
        store.update_sandbox_id(thread, Some("sbx"), T0).expect("set sandbox id");
    }
    let late_id = store.create_execution(&late, None, empty(), T0).unwrap().execution.execution_id;
    store.complete_execution(&late_id, T0 + 2 * SECOND as i128).unwrap();
    let early_id = store.create_execution(&early, None, empty(), T0).unwrap().execution.execution_id;
    store.complete_execution(&early_id, T0 + SECOND as i128).unwrap();
    let listed = store
        .list_idle_sandbox_candidates(SECOND, T0 + 10 * SECOND as i128)
        .expect("list idle sandbox candidates");
    assert_eq!(listed.len(), 2);
    assert_eq!(listed[0].thread_key, early);
    assert_eq!(listed[1].thread_key, late);
}

#[test]
fn capacity_sweep_breaks_equal_idleness_by_thread_key() {
    let mut store = SessionStore::new();
    let z = key("test:cap-tie-z");
    let y = key("test:cap-tie-y");
    for (thread, sandbox) in [(&z, "sbx-z"), (&y, "sbx-y")] {
        store
            .create_or_get_session(thread, &HarnessType::Codex, None, empty(), T0)
            .expect("create session");
        store.update_sandbox_id(thread, Some(sandbox), T0).expect("set sandbox id");
    }
    let listed = store
        .list_sandbox_capacity_candidates(None, SECOND, 10, T0 + 5 * SECOND as i128)
        .expect("capacity candidates");
    assert_eq!(listed.len(), 2);
    assert_eq!(listed[0].last_active_at, listed[1].last_active_at);
    assert_eq!(listed[0].thread_key, y);
    assert_eq!(listed[1].thread_key, z);
}
