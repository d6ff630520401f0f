use aqbot_core::codex_session_visibility::session_files::{
    collect_rollout_change, collect_session_changes, scan_has_room, is_rollout_file, line_has_user_event, parse_session_meta,
    plan_first_line_rewrite, read_first_line_record, restored_content, SessionScan,
};
use aqbot_core::codex_session_visibility::apply_changes::{apply_session_changes, restore_applied_changes};
use aqbot_core::error::AQBotError;
use std::cell::RefCell;

const STAMP: &str = "2026-06-09T00:00:00.000Z";

fn meta_line(thread: &str, provider: &str, cwd: &str) -> String {
    format!(
        "{{\"payload\":{{\"cli_version\":\"0.121.0\",\"cwd\":\"{cwd}\",\"id\":\"{thread}\",\"model_provider\":\"{provider}\",\"source\":\"cli\",\"timestamp\":\"{STAMP}\"}},\"timestamp\":\"{STAMP}\",\"type\":\"session_meta\"}}"
    )
}

fn user_line() -> String {
    format!("{{\"payload\":{{\"message\":\"hello\",\"type\":\"user_message\"}},\"timestamp\":\"{STAMP}\",\"type\":\"event_msg\"}}")
}

fn encrypted_line() -> String {
    format!("{{\"payload\":{{\"encrypted_content\":\"cipher\",\"type\":\"assistant_message\"}},\"timestamp\":\"{STAMP}\",\"type\":\"event_msg\"}}")
}

fn rollout(thread: &str, provider: &str, cwd: &str, user: bool) -> Vec<u8> {
    let mut lines = vec![meta_line(thread, provider, cwd)];
    if user {
        lines.push(user_line());
    }
    lines.push(encrypted_line());
    format!("{}\n", lines.join("\n")).into_bytes()
}

#[test]
fn rollout_file_names() {
    assert!(is_rollout_file(Some("rollout-thread-a.jsonl")));
    assert!(!is_rollout_file(Some("rollout-thread-a.json")));
    assert!(!is_rollout_file(Some("session-thread-a.jsonl")));
    assert!(!is_rollout_file(None));
}

#[test]
fn first_line_record_splits_on_line_feed() {
    let r = read_first_line_record(b"first\r\nsecond\n");
    assert_eq!(r.first_line, "first");
    assert_eq!(r.separator, "\r\n");
    assert_eq!(r.offset, 7);
    let r = read_first_line_record(b"one\ntwo");
    assert_eq!((r.first_line.as_str(), r.separator.as_str(), r.offset), ("one", "\n", 4));
    let r = read_first_line_record(b"no newline");
    assert_eq!((r.first_line.as_str(), r.separator.as_str(), r.offset), ("no newline", "", 10));
    let r = read_first_line_record(b"a\xffb\nrest");
    assert_eq!(r.first_line, "a\u{fffd}b");
    let r = read_first_line_record(b"");
    assert_eq!((r.first_line.as_str(), r.separator.as_str(), r.offset), ("", "", 0));
}

#[test]
fn user_events_are_recognised() {
    assert!(line_has_user_event(&user_line()));
    assert!(line_has_user_event("{\"item\":{\"role\":\"user\",\"type\":\"message\"}}"));
    assert!(line_has_user_event("{\"msg\":{\"role\":\"user\",\"type\":\"message\"}}"));
    assert!(!line_has_user_event("{\"item\":{\"role\":\"assistant\",\"type\":\"message\"}}"));
    assert!(!line_has_user_event(&encrypted_line()));
    assert!(!line_has_user_event("not json"));
}

#[test]
fn session_meta_is_null_unless_it_is_one() {
    assert!(parse_session_meta("   ").unwrap().is_null());
    assert!(parse_session_meta(&user_line()).unwrap().is_null());
    let meta = parse_session_meta(&meta_line("thread-a", "openai", "/tmp/p")).unwrap();
    assert!(meta.is_object());
    match parse_session_meta("{not json") {
        Err(AQBotError::Gateway(m)) => assert!(m.starts_with("Failed to process Codex JSON metadata: ")),
        _ => panic!("expected a JSON error"),
    }
}

#[test]
fn scan_lists_a_rollout_of_another_provider() {
    let bytes = rollout("thread-a", "openai", "/tmp/project-alpha/", true);
    let mut scan = SessionScan::new();
    collect_rollout_change(0, &bytes, "any", &mut scan).expect("scan succeeds");

    assert_eq!(scan.changes.len(), 1);
    let change = &scan.changes[0];
    assert_eq!(change.file_index, 0);
    assert_eq!(change.original_first_line, meta_line("thread-a", "openai", "/tmp/project-alpha/"));
    assert_eq!(change.updated_first_line, meta_line("thread-a", "any", "/tmp/project-alpha/"));
    assert_eq!(change.separator, "\n");
    assert_eq!(change.offset as usize, meta_line("thread-a", "openai", "/tmp/project-alpha/").len() + 1);
    assert_eq!(scan.user_event_thread_ids, vec!["thread-a".to_string()]);
    assert_eq!(
        scan.thread_cwd_by_id,
        vec![("thread-a".to_string(), "/tmp/project-alpha".to_string())]
    );
    assert_eq!(scan.encrypted_content_by_provider, vec![("openai".to_string(), 1)]);
}

#[test]
fn scan_records_facts_of_a_rollout_already_on_target() {
    let mut scan = SessionScan::new();
    collect_rollout_change(0, &rollout("thread-b", "any", "/tmp/b", false), "any", &mut scan).unwrap();
    collect_rollout_change(1, &rollout("thread-a", "any", "/tmp/a", true), "any", &mut scan).unwrap();
    collect_rollout_change(2, b"", "any", &mut scan).unwrap();
    collect_rollout_change(3, user_line().as_bytes(), "any", &mut scan).unwrap();
    assert!(scan.changes.is_empty());
    assert_eq!(scan.user_event_thread_ids, vec!["thread-a".to_string()]);
    assert_eq!(
        scan.thread_cwd_by_id,
        vec![
            ("thread-a".to_string(), "/tmp/a".to_string()),
            ("thread-b".to_string(), "/tmp/b".to_string())
        ]
    );
    assert_eq!(scan.encrypted_content_by_provider, vec![("any".to_string(), 2)]);
}

#[test]
fn scan_stops_on_a_broken_first_line() {
    let mut scan = SessionScan::new();
    let r = collect_rollout_change(0, b"{broken\n", "any", &mut scan);
    assert!(matches!(r, Err(AQBotError::Gateway(_))));
}

#[test]
fn rewrite_then_restore_gives_the_file_back() {
    for ending in ["\n", "\r\n", ""] {
        let original = format!("{}{}{}\n", meta_line("thread-a", "openai", "/tmp/x"), ending, user_line());
        let original = if ending.is_empty() { meta_line("thread-a", "openai", "/tmp/x") } else { original };
        let bytes = original.into_bytes();
        let mut scan = SessionScan::new();
        collect_rollout_change(0, &bytes, "any", &mut scan).unwrap();
        let change = &scan.changes[0];
        let rewritten = plan_first_line_rewrite(change, &bytes).expect("change applies");
        assert!(rewritten.starts_with(meta_line("thread-a", "any", "/tmp/x").as_bytes()));
        assert_eq!(plan_first_line_rewrite(change, &rewritten), None);
        let restored = restored_content(&change.original_first_line, &change.separator, &rewritten);
        assert_eq!(restored, bytes);
        let mut rescan = SessionScan::new();
        collect_rollout_change(0, &rewritten, "any", &mut rescan).unwrap();
        assert!(rescan.changes.is_empty());
    }
}

#[test]
fn rewritten_first_lines_name_the_target() {
    let mut scan = SessionScan::new();
    collect_rollout_change(0, &rollout("thread-a", "openai", "/tmp/project-alpha", true), "any", &mut scan).unwrap();
    collect_rollout_change(1, &rollout("thread-b", "old-provider", "/tmp/project-alpha", false), "any", &mut scan).unwrap();
    assert_eq!(scan.changes.len(), 2);
    for change in &scan.changes {
        let meta = aqbot_core::json::parse_json(&change.updated_first_line).unwrap();
        let payload = meta.get("payload").unwrap();
        assert_eq!(payload.get_str("model_provider"), Some(&"any".to_string()));
        assert_eq!(payload.get_str("cwd"), Some(&"/tmp/project-alpha".to_string()));
        assert_eq!(meta.get_str("type"), Some(&"session_meta".to_string()));
    }
    assert_eq!(scan.user_event_thread_ids, vec!["thread-a".to_string()]);
    assert_eq!(
        scan.encrypted_content_by_provider,
        vec![("old-provider".to_string(), 1), ("openai".to_string(), 1)]
    );
}

#[test]
fn scanning_a_list_of_files_stops_at_the_first_error() {
    let contents: Vec<Result<Vec<u8>, AQBotError>> = vec![
        Ok(rollout("thread-a", "openai", "/tmp/a", true)),
        Ok(rollout("thread-b", "any", "/tmp/b", false)),
        Ok(b"\n".to_vec()),
    ];
    let read = |i: usize| match &contents[i] {
        Ok(b) => Ok(b.clone()),
        Err(e) => Err(e.duplicate()),
    };
    let scan = collect_session_changes(contents.len(), &read, "any").unwrap();
    assert_eq!(scan.changes.len(), 1);
    assert_eq!(scan.changes[0].file_index, 0);
    assert_eq!(scan.encrypted_content_by_provider, vec![("any".to_string(), 1), ("openai".to_string(), 1)]);
    assert!(scan_has_room(&scan));

    let failing: Vec<Result<Vec<u8>, AQBotError>> = vec![
        Ok(rollout("thread-a", "openai", "/tmp/a", true)),
        Err(AQBotError::Io("permission denied".to_string())),
        Ok(b"{broken\n".to_vec()),
    ];
    let read = |i: usize| match &failing[i] {
        Ok(b) => Ok(b.clone()),
        Err(e) => Err(e.duplicate()),
    };
    match collect_session_changes(failing.len(), &read, "any") {
        Err(AQBotError::Io(m)) => assert_eq!(m, "permission denied"),
        _ => panic!("expected the read error"),
    }
}

#[test]
fn applying_changes_writes_those_that_still_apply() {
    let files = RefCell::new(vec![
        rollout("thread-a", "openai", "/tmp/a", true),
        rollout("thread-b", "any", "/tmp/b", false),
        rollout("thread-c", "old", "/tmp/c", false),
    ]);
    let snapshot = files.borrow().clone();
    let read_all = |i: usize| -> Result<Vec<u8>, AQBotError> { Ok(snapshot[i].clone()) };
    let scan = collect_session_changes(3, &read_all, "any").unwrap();
    assert_eq!(scan.changes.len(), 2);
    // the third file changed since it was scanned: its change no longer applies
    files.borrow_mut()[2] = rollout("thread-c", "other", "/tmp/c", false);
    let read = |i: usize| -> Result<Vec<u8>, AQBotError> { Ok(files.borrow()[i].clone()) };
    let write = |i: usize, content: Vec<u8>| -> Result<(), AQBotError> {
        files.borrow_mut()[i] = content;
        Ok(())
    };
    let mut applied = Vec::new();
    apply_session_changes(&scan.changes, &read, &write, &mut applied).unwrap();
    assert_eq!(applied, vec![0]);
    assert!(files.borrow()[0].starts_with(meta_line("thread-a", "any", "/tmp/a").as_bytes()));

    restore_applied_changes(&scan.changes, &applied, &read, &write);
    assert_eq!(files.borrow()[0], snapshot[0]);
    assert_eq!(files.borrow()[1], snapshot[1]);
}

#[test]
fn applying_changes_stops_at_a_failed_write() {
    let contents = vec![
        rollout("thread-a", "openai", "/tmp/a", true),
        rollout("thread-b", "openai", "/tmp/b", false),
    ];
    let read = |i: usize| -> Result<Vec<u8>, AQBotError> { Ok(contents[i].clone()) };
    let scan = collect_session_changes(2, &read, "any").unwrap();
    let written = RefCell::new(Vec::new());
    let write = |i: usize, _content: Vec<u8>| -> Result<(), AQBotError> {
        written.borrow_mut().push(i);
        if i == 1 { Err(AQBotError::Io("disk full".to_string())) } else { Ok(()) }
    };
    let mut applied = Vec::new();
    match apply_session_changes(&scan.changes, &read, &write, &mut applied) {
        Err(AQBotError::Io(m)) => assert_eq!(m, "disk full"),
        _ => panic!("expected the write error"),
    }
    assert_eq!(applied, vec![0]);
    assert_eq!(*written.borrow(), vec![0, 1]);
}
