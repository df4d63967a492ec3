use centaur_session_store::report::{
    all_passed, api_base_url, decimal, render_report, session_url, source_link, test_thread_key,
    SourceOrigin, TestResult, SOURCE_PATH,
};

fn unset() -> SourceOrigin {
    SourceOrigin { server: None, repository: None, source_sha: None, github_sha: None }
}

fn forge() -> SourceOrigin {
    SourceOrigin {
        server: Some("https://github.com".to_owned()),
        repository: Some("acme/centaur".to_owned()),
        source_sha: None,
        github_sha: Some("abc123".to_owned()),
    }
}

#[test]
fn decimal_writes_numbers_without_leading_zeros() {
    assert_eq!(decimal(0), "0");
    assert_eq!(decimal(7), "7");
    assert_eq!(decimal(10), "10");
    assert_eq!(decimal(305), "305");
    assert_eq!(decimal(u32::MAX), "4294967295");
}

#[test]
fn source_link_without_forge_is_the_repository_path() {
    assert_eq!(
        source_link(52, &unset()),
        "services/api-rs/crates/centaur-api-integration-test/src/main.rs#L52"
    );
}

#[test]
fn source_link_points_at_the_build_commit() {
    assert_eq!(
        source_link(52, &forge()),
        format!("https://github.com/acme/centaur/blob/abc123/{SOURCE_PATH}#L52")
    );
}

#[test]
fn named_source_commit_wins_over_the_build_commit() {
    let mut origin = forge();
    origin.source_sha = Some("def456".to_owned());
    assert_eq!(
        source_link(1, &origin),
        format!("https://github.com/acme/centaur/blob/def456/{SOURCE_PATH}#L1")
    );
}

#[test]
fn empty_forge_parts_fall_back_to_the_repository_path() {
    let mut origin = forge();
    origin.repository = Some(String::new());
    assert_eq!(source_link(9, &origin), format!("{SOURCE_PATH}#L9"));
    let mut origin = forge();
    origin.source_sha = Some(String::new());
    assert_eq!(source_link(9, &origin), format!("{SOURCE_PATH}#L9"));
}

#[test]
fn report_lists_each_result_with_its_link() {
    let results = vec![
        TestResult { summary: "API health endpoint responds", line: 51, passed: true },
        TestResult { summary: "Metrics expose API request counters", line: 91, passed: false },
    ];
    assert_eq!(
        render_report(&results, &unset()),
        format!(
            "| Test | Result |\n| --- | --- |\n\
             | [API health endpoint responds]({SOURCE_PATH}#L51) | Passed |\n\
             | [Metrics expose API request counters]({SOURCE_PATH}#L91) | Failed |\n"
        )
    );
    assert!(!all_passed(&results));
}

#[test]
fn empty_report_is_the_table_head() {
    assert_eq!(render_report(&[], &forge()), "| Test | Result |\n| --- | --- |\n");
    assert!(all_passed(&[]));
}

#[test]
fn session_url_appends_the_thread_key() {
    assert_eq!(
        session_url("http://127.0.0.1:18080", "api-integration-test:x:turn"),
        "http://127.0.0.1:18080/api/session/api-integration-test:x:turn"
    );
}

#[test]
fn base_url_defaults_and_drops_trailing_slashes() {
    assert_eq!(api_base_url(None), "http://127.0.0.1:18080");
    assert_eq!(api_base_url(Some("http://api:8080//")), "http://api:8080");
    assert_eq!(api_base_url(Some("http://api:8080")), "http://api:8080");
    assert_eq!(api_base_url(Some("///")), "");
}

#[test]
fn test_thread_keys_are_fresh_and_shaped() {
    let a = test_thread_key("turn");
    let b = test_thread_key("turn");
    assert_ne!(a, b);
    let parts: Vec<&str> = a.split(':').collect();
    assert_eq!(parts.len(), 3);
    assert_eq!(parts[0], "api-integration-test");
    assert_eq!(parts[1].len(), 32);
    assert!(parts[1].chars().all(|c| c.is_ascii_hexdigit() && !c.is_ascii_uppercase()));
    assert_eq!(parts[2], "turn");
}
