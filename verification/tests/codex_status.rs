use aqbot_core::codex_session_visibility::session_files::{collect_rollout_change, SessionScan};
use aqbot_core::codex_session_visibility::sqlite_state::{
    count_from_row, cwd_params, has_column, quote_sql_identifier, read_provider_counts,
    sqlite_exec_failure, sqlite_failure, threads_columns_sql, user_event_thread_params,
    SqliteStatus,
};
use aqbot_core::codex_session_visibility::status::{
    build_status, collect_session_provider_counts, provider_counts_have_room, collect_file_provider, provider_row, read_first_line, SessionProviderCounts,
};
use aqbot_core::codex_session_visibility::{
    codex_home_source, encrypted_content_warning, ensure_codex_home, read_target_provider,
    HomeSource, SqliteUpdateResult,
};
use aqbot_core::error::AQBotError;

const STAMP: &str = "2026-06-09T00:00:00.000Z";

fn rollout(thread: &str, provider: &str, cwd: &str) -> Vec<u8> {
    format!(
        "{{\"payload\":{{\"cwd\":\"{cwd}\",\"id\":\"{thread}\",\"model_provider\":\"{provider}\",\"timestamp\":\"{STAMP}\"}},\"timestamp\":\"{STAMP}\",\"type\":\"session_meta\"}}\n{{\"payload\":{{\"message\":\"hello\",\"type\":\"user_message\"}},\"type\":\"event_msg\"}}\n{{\"payload\":{{\"encrypted_content\":\"cipher\"}},\"type\":\"event_msg\"}}\n"
    )
    .into_bytes()
}

fn s(v: &[&str]) -> Vec<String> {
    v.iter().map(|x| x.to_string()).collect()
}

#[test]
fn target_provider_comes_from_config() {
    assert_eq!(read_target_provider(Some("model_provider = \"any\"\n")).unwrap(), "any");
    assert_eq!(read_target_provider(Some("sandbox_mode = \"workspace-write\"\n")).unwrap(), "openai");
    assert_eq!(read_target_provider(Some("model_provider = \"  \"\n")).unwrap(), "openai");
    assert_eq!(read_target_provider(None).unwrap(), "openai");
    let with_table = "model_provider = \"any\"\n\n[model_providers.any]\nbase_url = \"http://localhost:1234/v1\"\n";
    assert_eq!(read_target_provider(Some(with_table)).unwrap(), "any");
    let only_table = "[model_providers.any]\nmodel_provider = \"nested\"\n";
    assert_eq!(read_target_provider(Some(only_table)).unwrap(), "openai");
    match read_target_provider(Some("model_provider = ")) {
        Err(AQBotError::Gateway(m)) => assert!(m.starts_with("Failed to parse Codex config.toml: ")),
        _ => panic!("expected a parse error"),
    }
}

#[test]
fn codex_home_must_exist_and_comes_from_the_environment() {
    assert!(ensure_codex_home(true, "/home/u/.codex").is_ok());
    match ensure_codex_home(false, "/nowhere") {
        Err(AQBotError::NotFound(m)) => assert_eq!(m, "Codex home not found: /nowhere"),
        _ => panic!("expected not found"),
    }
    assert_eq!(codex_home_source(true, true, true).unwrap(), HomeSource::CodexHome);
    assert_eq!(codex_home_source(false, true, true).unwrap(), HomeSource::Home);
    assert_eq!(codex_home_source(false, false, true).unwrap(), HomeSource::UserProfile);
    match codex_home_source(false, false, false) {
        Err(AQBotError::NotFound(m)) => assert_eq!(m, "Could not determine home directory"),
        _ => panic!("expected not found"),
    }
}

#[test]
fn encrypted_content_warning_names_other_providers() {
    let counts = vec![("any".to_string(), 1), ("openai".to_string(), 2), ("zeta".to_string(), 0)];
    assert_eq!(
        encrypted_content_warning(&counts, "any"),
        Some("3 rollout file(s) contain encrypted_content from provider(s) openai. Visibility metadata can be synchronized to any, but continuing or compacting those histories may fail with invalid_encrypted_content.".to_string())
    );
    let counts = vec![("a".to_string(), 1), ("b".to_string(), 1)];
    assert!(encrypted_content_warning(&counts, "c").unwrap().contains("provider(s) a, b."));
    assert_eq!(encrypted_content_warning(&vec![("any".to_string(), 4)], "any"), None);
    assert_eq!(encrypted_content_warning(&Vec::new(), "any"), None);
}

#[test]
fn provider_rows_flag_other_providers() {
    let row = provider_row("sessions", "openai", 3, "any");
    assert_eq!((row.mismatched_count, row.status.as_str()), (3, "needs_repair"));
    let row = provider_row("sessions", "any", 3, "any");
    assert_eq!((row.mismatched_count, row.status.as_str()), (0, "ok"));
    assert_eq!(row.provider, Some("any".to_string()));
}

#[test]
fn sqlite_statements_and_messages() {
    assert_eq!(quote_sql_identifier("threads"), "\"threads\"");
    assert_eq!(quote_sql_identifier("a\"b"), "\"a\"\"b\"");
    assert_eq!(threads_columns_sql(), "PRAGMA table_info(\"threads\")");
    match sqlite_failure("open state_5.sqlite", None) {
        AQBotError::Gateway(m) => assert_eq!(m, "Failed to open state_5.sqlite: unknown SQLite error"),
        _ => panic!("expected gateway"),
    }
    match sqlite_exec_failure(None, Some("database is locked")) {
        AQBotError::Gateway(m) => assert_eq!(m, "state_5.sqlite: Failed to execute: database is locked"),
        _ => panic!("expected gateway"),
    }
    match sqlite_exec_failure(Some("file is not a database"), Some("x")) {
        AQBotError::Gateway(m) => assert_eq!(m, "state_5.sqlite: file is not a database"),
        _ => panic!("expected gateway"),
    }
}

#[test]
fn provider_counts_from_rows() {
    let rows = vec![
        (Some("any".to_string()), 1),
        (Some(" ".to_string()), 2),
        (None, 3),
        (Some("openai".to_string()), -4),
    ];
    assert_eq!(
        read_provider_counts(&rows),
        vec![("(missing)".to_string(), 3), ("any".to_string(), 1), ("openai".to_string(), 0)]
    );
    assert_eq!(count_from_row(-1), 0);
    assert_eq!(count_from_row(7), 7);
    let status = SqliteStatus::from_counts(vec![("any".to_string(), 1), ("openai".to_string(), 1)], "any", 1, 1);
    assert!(status.present);
    assert_eq!((status.rows, status.mismatched_rows), (2, 1));
    let absent = SqliteStatus::absent();
    assert!(!absent.present);
}

#[test]
fn update_parameters_follow_the_table_columns() {
    let mut scan = SessionScan::new();
    collect_rollout_change(0, &rollout("thread-a", "any", "/tmp/project-alpha"), "any", &mut scan).unwrap();
    let columns = s(&["id", "model_provider", "cwd", "has_user_event"]);
    assert!(has_column(&columns, "cwd"));
    assert!(!has_column(&columns, "title"));
    assert_eq!(user_event_thread_params(&columns, &scan), s(&["thread-a"]));
    assert_eq!(
        cwd_params(&columns, &scan),
        vec![("thread-a".to_string(), "/tmp/project-alpha".to_string())]
    );
    let bare = s(&["id", "model_provider"]);
    assert!(user_event_thread_params(&bare, &scan).is_empty());
    assert!(cwd_params(&bare, &scan).is_empty());
}

#[test]
fn status_fixture_reports_mismatches() {
    let a = rollout("thread-a", "any", "/tmp/project-alpha");
    let b = rollout("thread-b", "openai", "/tmp/project-beta");
    let mut counts = SessionProviderCounts::new();
    collect_file_provider("sessions", &a, &mut counts).unwrap();
    collect_file_provider("archived_sessions", &b, &mut counts).unwrap();
    collect_file_provider("sessions", b"", &mut counts).unwrap();
    assert_eq!(counts.total, 2);
    let mut scan = SessionScan::new();
    collect_rollout_change(0, &a, "any", &mut scan).unwrap();
    collect_rollout_change(1, &b, "any", &mut scan).unwrap();
    let sqlite = SqliteStatus::from_counts(vec![("any".to_string(), 1), ("openai".to_string(), 1)], "any", 1, 1);
    let status = build_status("any".to_string(), "/tmp/codex".to_string(), &scan, &counts, sqlite, 1);

    assert_eq!(status.target_provider, "any");
    assert_eq!(status.total_session_files, 2);
    assert_eq!(status.mismatched_session_files, 1);
    assert!(status.sqlite_present);
    assert_eq!(status.sqlite_rows, 2);
    assert_eq!(status.sqlite_mismatched_rows, 1);
    assert_eq!(status.sqlite_user_event_rows_needing_repair, 1);
    assert_eq!(status.sqlite_cwd_rows_needing_repair, 1);
    assert_eq!(status.workspace_roots_needing_update, 1);
    assert!(status.status_rows.iter().any(|row| row.scope == "archived_sessions"
        && row.provider.as_deref() == Some("openai")
        && row.mismatched_count == 1));
    assert!(status.status_rows.iter().any(|row| row.scope == ".codex-global-state.json"
        && row.provider.is_none()
        && row.status == "needs_repair"));
    assert!(status.encrypted_content_warning.unwrap().starts_with("2 rollout file(s)"));
}

#[test]
fn first_line_read_for_status() {
    assert_eq!(read_first_line(b"abc\ndef").unwrap(), Some("abc".to_string()));
    assert_eq!(read_first_line(b"").unwrap(), None);
    assert_eq!(read_first_line(b"line\r\n").unwrap(), Some("line".to_string()));
    assert!(matches!(read_first_line(b"\xff\n"), Err(AQBotError::Io(_))));
}

#[test]
fn sqlite_update_totals() {
    let r = SqliteUpdateResult { present: true, provider_rows: 2, user_event_rows: 1, cwd_rows: 4 };
    assert_eq!(r.total_rows(), 7);
    assert_eq!(SqliteUpdateResult::absent().total_rows(), 0);
}

#[test]
fn counting_a_list_of_files_by_directory() {
    let scopes = vec!["archived_sessions".to_string(), "sessions".to_string(), "sessions".to_string(), "sessions".to_string()];
    let contents = vec![
        rollout("thread-b", "openai", "/tmp/b"),
        rollout("thread-a", "any", "/tmp/a"),
        b"{\"type\":\"event_msg\"}\n".to_vec(),
        rollout("thread-c", "any", "/tmp/c"),
    ];
    let read = |i: usize| -> Result<Vec<u8>, AQBotError> { Ok(contents[i].clone()) };
    let counts = collect_session_provider_counts(&scopes, &read).unwrap();
    assert_eq!(counts.total, 3);
    assert_eq!(
        counts.counts,
        vec![
            ("archived_sessions".to_string(), vec![("openai".to_string(), 1)]),
            ("sessions".to_string(), vec![("any".to_string(), 2)]),
        ]
    );
    assert!(provider_counts_have_room(&counts));
    let broken = |i: usize| -> Result<Vec<u8>, AQBotError> {
        if i == 1 { Ok(b"{oops\n".to_vec()) } else { Ok(contents[i].clone()) }
    };
    assert!(matches!(collect_session_provider_counts(&scopes, &broken), Err(AQBotError::Gateway(_))));
}
