use centaur_session_store::checks::{
    append_accepted, check_created_run, check_created_session, check_execute_response,
    check_run_output, contains, first_missing_metric, health_ok, only_run, read_turn_event,
    readiness_ok, replay_matches, run_status_step, schedule_listed, turn_step, ExecuteCheckFailure,
    RunCreateFailure, RunOutputFailure, RunStatusStep, SessionCheckFailure, TurnEvent, TurnStep,
    TEST_MODEL,
};
use centaur_session_store::error::{DatabaseFailure, SessionStoreError};

#[test]
fn contains_finds_substrings() {
    assert!(contains("abc", "bc"));
    assert!(contains("abc", ""));
    assert!(!contains("abc", "cd"));
    assert!(!contains("", "a"));
    assert!(contains("héllo wörld", "ö"));
}

#[test]
fn health_and_readiness_need_explicit_true() {
    assert!(health_ok(Some(true)));
    assert!(!health_ok(Some(false)));
    assert!(!health_ok(None));
    assert!(readiness_ok(Some(true), Some(true)));
    assert!(!readiness_ok(Some(true), None));
    assert!(!readiness_ok(None, Some(true)));
}

#[test]
fn created_session_is_checked_in_order() {
    assert_eq!(check_created_session(Some("k"), Some("codex"), Some("idle"), "k", "codex"), Ok(()));
    assert_eq!(
        check_created_session(Some("x"), None, None, "k", "codex"),
        Err(SessionCheckFailure::ThreadKeyMismatch)
    );
    assert_eq!(
        check_created_session(Some("k"), Some("amp"), Some("idle"), "k", "codex"),
        Err(SessionCheckFailure::HarnessMismatch)
    );
    assert_eq!(
        check_created_session(Some("k"), Some("codex"), Some("executing"), "k", "codex"),
        Err(SessionCheckFailure::NotIdle)
    );
}

#[test]
fn append_and_execute_responses() {
    assert!(append_accepted(Some(true), 1));
    assert!(!append_accepted(Some(true), 2));
    assert!(!append_accepted(None, 1));
    assert_eq!(
        check_execute_response(Some(true), Some("k"), Some("exe_1".to_owned()), "k"),
        Ok("exe_1".to_owned())
    );
    assert_eq!(
        check_execute_response(Some(false), Some("k"), Some("exe_1".to_owned()), "k"),
        Err(ExecuteCheckFailure::NotOk)
    );
    assert_eq!(
        check_execute_response(Some(true), Some("other"), None, "k"),
        Err(ExecuteCheckFailure::ThreadKeyMismatch)
    );
    assert_eq!(
        check_execute_response(Some(true), Some("k"), None, "k"),
        Err(ExecuteCheckFailure::MissingExecutionId)
    );
    assert!(replay_matches(Some("exe_1"), "exe_1"));
    assert!(!replay_matches(None, "exe_1"));
}

#[test]
fn turn_watch_needs_the_answer_before_completion() {
    let line = read_turn_event(
        "session.output.line",
        r#"{"type":"item.agentMessage.delta","delta":"PONG model=gpt-api-integration-test harness=codex"}"#,
    )
    .unwrap();
    assert_eq!(
        turn_step(false, line, "exe_1", TEST_MODEL, "codex"),
        TurnStep::Continue { saw_output: true }
    );
    let other_line = read_turn_event(
        "session.output.line",
        r#"{"type":"item.agentMessage.delta","delta":"PONG model=other harness=codex"}"#,
    )
    .unwrap();
    assert_eq!(
        turn_step(false, other_line, "exe_1", TEST_MODEL, "codex"),
        TurnStep::Continue { saw_output: false }
    );
    let done = read_turn_event("session.execution_completed", r#"{"execution_id":"exe_1"}"#).unwrap();
    assert_eq!(turn_step(true, done, "exe_1", TEST_MODEL, "codex"), TurnStep::Done);
    let early = read_turn_event("session.execution_completed", r#"{"execution_id":"exe_1"}"#).unwrap();
    assert_eq!(
        turn_step(false, early, "exe_1", TEST_MODEL, "codex"),
        TurnStep::CompletedWithoutOutput
    );
    let elsewhere =
        read_turn_event("session.execution_completed", r#"{"execution_id":"exe_2"}"#).unwrap();
    assert_eq!(
        turn_step(true, elsewhere, "exe_1", TEST_MODEL, "codex"),
        TurnStep::Continue { saw_output: true }
    );
    let failed = read_turn_event("session.execution_failed", "boom").unwrap();
    assert_eq!(
        turn_step(true, failed, "exe_1", TEST_MODEL, "codex"),
        TurnStep::Failed { data: "boom".to_owned() }
    );
    assert!(matches!(read_turn_event("session.started", "{"), Ok(TurnEvent::Other)));
    assert_eq!(
        read_turn_event("session.output.line", "{").unwrap_err(),
        "parse event payload as JSON: {"
    );
}

#[test]
fn metrics_page_must_show_all_counters() {
    let all = [
        r#"http_server_requests_total{method="GET",route="/healthz",status="200"} 3"#,
        r#"http_server_requests_total{method="POST",route="/api/session/{thread_key}",status="200"} 2"#,
        r#"http_server_requests_total{method="POST",route="/api/session/{thread_key}/execute",status="200"} 1"#,
    ]
    .join("\n");
    let all = all.as_str();
    assert_eq!(first_missing_metric(all), None);
    assert_eq!(
        first_missing_metric(""),
        Some(r#"http_server_requests_total{method="GET",route="/healthz",status="200"}"#)
    );
}

#[test]
fn workflow_run_checks() {
    let expected = ["completed"];
    assert_eq!(run_status_step("completed", &expected), RunStatusStep::Reached);
    assert_eq!(run_status_step("failed", &expected), RunStatusStep::Terminal);
    assert_eq!(run_status_step("running", &expected), RunStatusStep::Pending);
    assert_eq!(run_status_step("cancelled", &["cancelled"]), RunStatusStep::Reached);
    assert!(schedule_listed(&[None, Some("wf".to_owned())], "wf"));
    assert!(!schedule_listed(&[Some("other".to_owned())], "wf"));
    assert_eq!(check_created_run(Some(true), Some(true), Some("run".to_owned())), Ok("run".to_owned()));
    assert_eq!(check_created_run(Some(true), Some(false), None), Err(RunCreateFailure::NotCreated));
    assert_eq!(check_created_run(None, Some(true), None), Err(RunCreateFailure::NotOk));
    assert_eq!(check_created_run(Some(true), Some(true), None), Err(RunCreateFailure::MissingRunId));
    assert_eq!(check_run_output(Some("wf"), Some("case"), "wf", "case"), Ok(()));
    assert_eq!(
        check_run_output(Some("wf"), None, "wf", "case"),
        Err(RunOutputFailure::InputNotEchoed)
    );
    assert_eq!(
        check_run_output(None, Some("case"), "wf", "case"),
        Err(RunOutputFailure::WorkflowNameNotEchoed)
    );
    assert!(only_run(&[Some("run".to_owned())], "run"));
    assert!(!only_run(&[Some("run".to_owned()), Some("run".to_owned())], "run"));
    assert!(!only_run(&[], "run"));
}

#[test]
fn error_messages_name_what_failed() {
    let e = SessionStoreError::PrincipalConflict {
        thread_key: "k".to_owned(),
        existing: Some("prn_a".to_owned()),
        requested: "prn_b".to_owned(),
    };
    assert_eq!(
        e.message(),
        "session k is bound to principal Some(\"prn_a\"), requested principal prn_b"
    );
    let e = SessionStoreError::PersonaConflict {
        thread_key: "k".to_owned(),
        existing: None,
        requested: Some("p".to_owned()),
    };
    assert_eq!(e.message(), "session k already exists with persona_id None, requested Some(\"p\")");
    assert_eq!(
        SessionStoreError::NotFound { thread_key: "k".to_owned() }.message(),
        "session not found for thread_key k"
    );
    assert_eq!(
        SessionStoreError::Sqlx(DatabaseFailure::RowNotFound).message(),
        "no rows returned by a query that expected to return at least one row"
    );
}
