use centaur_session_store::config::{
    require_rollback_bridge_migrations_disabled, service_api_key_envs, trim,
    validate_service_api_key_separation, CONTROL_API_KEY_ENV,
};

#[test]
fn control_key_is_required_and_every_service_key_is_pairwise_distinct() {
    let service_api_key_envs = service_api_key_envs();
    assert!(validate_service_api_key_separation(&[]).is_err());
    assert!(validate_service_api_key_separation(&[(CONTROL_API_KEY_ENV, "control")]).is_ok());
    for (index, left) in service_api_key_envs.iter().enumerate() {
        for right in &service_api_key_envs[index + 1..] {
            let error = validate_service_api_key_separation(&[
                (CONTROL_API_KEY_ENV, "control"),
                (*left, "shared"),
                (*right, "shared"),
            ])
            .expect_err("reused service key must fail startup");
            assert!(error.contains(*left), "unexpected error: {error}");
            assert!(error.contains(*right), "unexpected error: {error}");
            assert!(!error.contains("shared"), "secret leaked in error: {error}");
        }
    }
    assert!(validate_service_api_key_separation(&[
        (CONTROL_API_KEY_ENV, "control"),
        ("SLACKBOT_API_KEY", "bot"),
        ("WORKFLOW_API_KEY", "workflow"),
        ("GITHUBBOT_API_KEY", ""),
    ])
    .is_ok());
}

#[test]
fn service_key_names_are_the_eight_services() {
    assert_eq!(
        service_api_key_envs(),
        vec![
            "CENTAUR_CONTROL_API_KEY",
            "SLACKBOT_API_KEY",
            "GITHUBBOT_API_KEY",
            "LINEARBOT_API_KEY",
            "DISCORDBOT_API_KEY",
            "TEAMSBOT_API_KEY",
            "WORKFLOW_API_KEY",
            "SLACK_FEEDBACK_API_KEY",
        ]
    );
}

#[test]
fn missing_control_key_is_refused_with_its_name() {
    assert_eq!(
        validate_service_api_key_separation(&[("SLACKBOT_API_KEY", "bot")]),
        Err("rollback bridge refuses to start unless CENTAUR_CONTROL_API_KEY is configured"
            .to_owned())
    );
}

#[test]
fn blank_control_key_counts_as_missing() {
    assert_eq!(
        validate_service_api_key_separation(&[(CONTROL_API_KEY_ENV, " \t\n ")]),
        Err("rollback bridge refuses to start unless CENTAUR_CONTROL_API_KEY is configured"
            .to_owned())
    );
}

#[test]
fn values_are_compared_after_trimming() {
    assert_eq!(
        validate_service_api_key_separation(&[
            (CONTROL_API_KEY_ENV, "control"),
            ("SLACKBOT_API_KEY", "  same\n"),
            ("TEAMSBOT_API_KEY", "same"),
        ]),
        Err("rollback bridge refuses to start because SLACKBOT_API_KEY and TEAMSBOT_API_KEY must contain distinct service credentials".to_owned())
    );
}

#[test]
fn first_repeated_value_names_its_earlier_holder() {
    assert_eq!(
        validate_service_api_key_separation(&[
            (CONTROL_API_KEY_ENV, "a"),
            ("SLACKBOT_API_KEY", "b"),
            ("GITHUBBOT_API_KEY", "b"),
            ("LINEARBOT_API_KEY", "a"),
        ]),
        Err("rollback bridge refuses to start because SLACKBOT_API_KEY and GITHUBBOT_API_KEY must contain distinct service credentials".to_owned())
    );
}

#[test]
fn control_key_may_appear_anywhere() {
    assert!(validate_service_api_key_separation(&[
        ("SLACKBOT_API_KEY", "bot"),
        (CONTROL_API_KEY_ENV, "control"),
    ])
    .is_ok());
}

#[test]
fn trim_removes_unicode_white_space_at_both_ends() {
    assert_eq!(trim("  a b \t"), "a b");
    assert_eq!(trim("\u{3000}x\u{a0}"), "x");
    assert_eq!(trim(" \n "), "");
    assert_eq!(trim("plain"), "plain");
}

#[test]
fn migrations_are_refused() {
    assert_eq!(require_rollback_bridge_migrations_disabled(false), Ok(()));
    assert_eq!(
        require_rollback_bridge_migrations_disabled(true),
        Err("rollback bridge refuses to start with RUN_MIGRATIONS=true; the reviewed forward runtime owns schema migration".to_owned())
    );
}
