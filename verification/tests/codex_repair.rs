use aqbot_core::codex_session_visibility::backup::{
    backup_dir_components, backup_metadata_text, state_files_to_back_up,
};
use aqbot_core::codex_session_visibility::repair::{
    build_result, restore_global_state, GlobalStateRestore, RepairAction, RepairEvent,
    RepairMachine, RepairPhase,
};
use aqbot_core::codex_session_visibility::session_files::{collect_rollout_change, SessionScan};
use aqbot_core::codex_session_visibility::SqliteUpdateResult;
use aqbot_core::error::AQBotError;

fn scan_with_one_change() -> SessionScan {
    let line = "{\"payload\":{\"cwd\":\"/tmp/project-alpha\",\"id\":\"thread-a\",\"model_provider\":\"openai\"},\"type\":\"session_meta\"}\n";
    let mut scan = SessionScan::new();
    collect_rollout_change(0, line.as_bytes(), "any", &mut scan).unwrap();
    assert_eq!(scan.changes.len(), 1);
    scan
}

fn start(m: &mut RepairMachine, config: Option<&str>) {
    assert!(matches!(m.step(RepairEvent::Started), RepairAction::CheckHome));
    let a = m.step(RepairEvent::HomeChecked { exists: true, display: "/tmp/codex".to_string() });
    assert!(matches!(a, RepairAction::ReadConfig));
    match m.step(RepairEvent::ConfigRead(Ok(config.map(|c| c.to_string())))) {
        RepairAction::ScanSessions { target } => assert_eq!(target, "any"),
        _ => panic!("expected a scan"),
    }
}

#[test]
fn repair_without_backup_or_database_reports_changes() {
    let mut m = RepairMachine::new(false);
    start(&mut m, Some("model_provider = \"any\"\n"));
    assert!(matches!(m.step(RepairEvent::Scanned(Ok(scan_with_one_change()))), RepairAction::CheckSqliteWritable));
    assert!(matches!(m.step(RepairEvent::SqliteChecked(Ok(()))), RepairAction::ReadGlobalState));
    assert!(matches!(m.step(RepairEvent::GlobalStateRead(Ok(None))), RepairAction::CheckDatabase));
    assert!(matches!(m.step(RepairEvent::DatabaseChecked { exists: false }), RepairAction::ApplySessionChanges));
    let a = m.step(RepairEvent::ChangesApplied { applied: vec![0], outcome: Ok(()) });
    assert!(matches!(a, RepairAction::SyncWorkspaceRoots));
    match m.step(RepairEvent::RootsSynced(Ok(0))) {
        RepairAction::Finish(Ok(result)) => {
            assert_eq!(result.target_provider, "any");
            assert_eq!(result.changed_session_files, 1);
            assert!(result.backup_dir.is_none());
            assert!(!result.sqlite_present);
            assert_eq!(result.sqlite_rows_updated, 0);
            assert_eq!(result.updated_workspace_roots, 0);
        },
        _ => panic!("expected success"),
    }
    assert!(m.phase == RepairPhase::Done);
}

#[test]
fn repair_with_backup_and_database_commits() {
    let mut m = RepairMachine::new(true);
    start(&mut m, Some("model_provider = \"any\"\n"));
    m.step(RepairEvent::Scanned(Ok(scan_with_one_change())));
    match m.step(RepairEvent::SqliteChecked(Ok(()))) {
        RepairAction::CreateBackup { changes } => assert_eq!(changes, vec![0]),
        _ => panic!("expected a backup"),
    }
    let a = m.step(RepairEvent::BackupCreated(Ok("/tmp/codex/backups_state/x".to_string())));
    assert!(matches!(a, RepairAction::CheckDatabase));
    assert!(matches!(m.step(RepairEvent::DatabaseChecked { exists: true }), RepairAction::OpenTransaction));
    assert!(matches!(m.step(RepairEvent::TransactionOpened(Ok(()))), RepairAction::UpdateThreads));
    let stats = SqliteUpdateResult { present: true, provider_rows: 1, user_event_rows: 1, cwd_rows: 0 };
    assert!(matches!(m.step(RepairEvent::ThreadsUpdated(Ok(stats))), RepairAction::ApplySessionChanges));
    m.step(RepairEvent::ChangesApplied { applied: vec![0], outcome: Ok(()) });
    assert!(matches!(m.step(RepairEvent::RootsSynced(Ok(2))), RepairAction::Commit));
    match m.step(RepairEvent::Committed(Ok(()))) {
        RepairAction::Finish(Ok(result)) => {
            assert_eq!(result.sqlite_rows_updated, 2);
            assert_eq!(result.sqlite_provider_rows_updated, 1);
            assert!(result.sqlite_present);
            assert_eq!(result.updated_workspace_roots, 2);
            assert_eq!(result.backup_dir, Some("/tmp/codex/backups_state/x".to_string()));
        },
        _ => panic!("expected success"),
    }
}

#[test]
fn malformed_database_stops_before_any_write() {
    let mut m = RepairMachine::new(false);
    start(&mut m, Some("model_provider = \"any\"\n"));
    m.step(RepairEvent::Scanned(Ok(scan_with_one_change())));
    let err = AQBotError::Gateway("Failed to open state_5.sqlite: file is not a database".to_string());
    match m.step(RepairEvent::SqliteChecked(Err(err))) {
        RepairAction::Finish(Err(AQBotError::Gateway(msg))) => assert!(msg.contains("not a database")),
        _ => panic!("expected the error"),
    }
}

#[test]
fn failed_write_rolls_back_and_restores_applied_changes() {
    let mut m = RepairMachine::new(false);
    start(&mut m, Some("model_provider = \"any\"\n"));
    m.step(RepairEvent::Scanned(Ok(scan_with_one_change())));
    m.step(RepairEvent::SqliteChecked(Ok(())));
    m.step(RepairEvent::GlobalStateRead(Ok(Some("{}".to_string()))));
    m.step(RepairEvent::DatabaseChecked { exists: true });
    m.step(RepairEvent::TransactionOpened(Ok(())));
    let stats = SqliteUpdateResult { present: true, provider_rows: 1, user_event_rows: 0, cwd_rows: 0 };
    m.step(RepairEvent::ThreadsUpdated(Ok(stats)));
    m.step(RepairEvent::ChangesApplied { applied: vec![0], outcome: Ok(()) });
    let a = m.step(RepairEvent::RootsSynced(Err(AQBotError::Io("disk full".to_string()))));
    assert!(matches!(a, RepairAction::Rollback));
    match m.step(RepairEvent::RolledBack) {
        RepairAction::Restore { changes, global_state } => {
            assert_eq!(changes, vec![0]);
            assert!(matches!(global_state, GlobalStateRestore::Keep));
        },
        _ => panic!("expected a restore"),
    }
    match m.step(RepairEvent::Restored) {
        RepairAction::Finish(Err(AQBotError::Io(m))) => assert_eq!(m, "disk full"),
        _ => panic!("expected the error"),
    }
}

#[test]
fn missing_home_and_bad_config_stop_the_repair() {
    let mut m = RepairMachine::new(true);
    m.step(RepairEvent::Started);
    match m.step(RepairEvent::HomeChecked { exists: false, display: "/nope".to_string() }) {
        RepairAction::Finish(Err(AQBotError::NotFound(msg))) => assert_eq!(msg, "Codex home not found: /nope"),
        _ => panic!("expected not found"),
    }
    let mut m = RepairMachine::new(true);
    m.step(RepairEvent::Started);
    m.step(RepairEvent::HomeChecked { exists: true, display: "/x".to_string() });
    match m.step(RepairEvent::ConfigRead(Ok(Some("model_provider = ".to_string())))) {
        RepairAction::Finish(Err(AQBotError::Gateway(msg))) => assert!(msg.starts_with("Failed to parse Codex config.toml")),
        _ => panic!("expected a parse error"),
    }
}

#[test]
fn global_state_restore_choice() {
    assert!(matches!(restore_global_state(false, &Some("d".to_string()), &None), GlobalStateRestore::Keep));
    assert!(matches!(restore_global_state(true, &Some("d".to_string()), &None), GlobalStateRestore::FromBackup));
    match restore_global_state(true, &None, &Some("{}".to_string())) {
        GlobalStateRestore::FromText(Some(t)) => assert_eq!(t, "{}"),
        _ => panic!("expected the text"),
    }
}

#[test]
fn result_counts_every_listed_change() {
    let result = build_result(
        "any".to_string(),
        scan_with_one_change(),
        SqliteUpdateResult { present: true, provider_rows: 3, user_event_rows: 2, cwd_rows: 1 },
        4,
        None,
    );
    assert_eq!(result.changed_session_files, 1);
    assert_eq!(result.skipped_locked_session_files, 0);
    assert_eq!(result.sqlite_rows_updated, 6);
    assert_eq!(result.updated_workspace_roots, 4);
    assert_eq!(result.encrypted_content_warning, None);
}

#[test]
fn backup_layout_and_metadata() {
    assert_eq!(
        backup_dir_components("20260609-000000-000"),
        vec!["backups_state", "aqbot-session-visibility", "20260609-000000-000"]
    );
    assert_eq!(
        state_files_to_back_up(),
        vec!["state_5.sqlite", ".codex-global-state.json", ".codex-global-state.json.bak"]
    );
    assert_eq!(
        backup_metadata_text("2026-06-09T00:00:00+00:00", 2).unwrap(),
        "{\n  \"changedSessionFiles\": 2,\n  \"createdAt\": \"2026-06-09T00:00:00+00:00\",\n  \"namespace\": \"aqbot-session-visibility\",\n  \"version\": 1\n}"
    );
}
