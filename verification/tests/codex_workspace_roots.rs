use aqbot_core::codex_session_visibility::workspace_roots::{
    count_array_changes, dedupe_paths, normalize_comparable_path, plan_workspace_roots_sync,
    preview_workspace_roots, resolve_paths, resolve_stored_path, rewrite_workspace_root_state,
    to_desktop_workspace_path,
};
use aqbot_core::error::AQBotError;
use aqbot_core::json::parse_json;

fn s(v: &[&str]) -> Vec<String> {
    v.iter().map(|x| x.to_string()).collect()
}

fn cwds() -> Vec<(String, String)> {
    vec![
        ("thread-a".to_string(), "/tmp/project-alpha".to_string()),
        ("thread-b".to_string(), "/tmp/project-beta".to_string()),
    ]
}

#[test]
fn desktop_paths_drop_verbatim_prefixes_and_trailing_separators() {
    assert_eq!(to_desktop_workspace_path("  /tmp/project-alpha/ "), "/tmp/project-alpha");
    assert_eq!(to_desktop_workspace_path(r"\\?\C:\work/repo"), r"C:\work\repo");
    assert_eq!(to_desktop_workspace_path(r"\\?\UNC\server\share/dir"), r"\\server\share\dir");
    assert_eq!(to_desktop_workspace_path(r"C:\work\"), r"C:\work");
}

#[test]
fn comparable_paths_ignore_case_and_separators() {
    assert_eq!(normalize_comparable_path("/Tmp/Project/"), r"\tmp\project");
    assert_eq!(normalize_comparable_path(r"C:\"), r"c:");
    assert_eq!(normalize_comparable_path(r"\\?\C:\"), r"c:\");
    assert_eq!(normalize_comparable_path("   "), "");
}

#[test]
fn dedupe_keeps_first_of_equal_paths_and_drops_blanks() {
    let paths = s(&["/tmp/A/", "", "/tmp/a", "/tmp/b", "  ", "/TMP/B/"]);
    let once = dedupe_paths(&paths);
    assert_eq!(once, s(&["/tmp/A/", "/tmp/b"]));
    assert_eq!(dedupe_paths(&once), once);
}

#[test]
fn stored_paths_resolve_to_known_directories() {
    let known = s(&["/tmp/project-alpha", "/tmp/Project-Beta"]);
    assert_eq!(resolve_stored_path("/tmp/project-alpha/", &known), "/tmp/project-alpha");
    assert_eq!(resolve_stored_path("/TMP/project-beta", &known), "/tmp/Project-Beta");
    assert_eq!(resolve_stored_path("/tmp/other/", &known), "/tmp/other");
    assert_eq!(
        resolve_paths(&s(&["/tmp/other/", "/tmp/project-alpha/"]), &known),
        s(&["/tmp/other", "/tmp/project-alpha"])
    );
}

#[test]
fn array_changes_count_positions() {
    assert_eq!(count_array_changes(&s(&["a", "b"]), &s(&["a", "b"])), 0);
    assert_eq!(count_array_changes(&s(&["a", "b"]), &s(&["a", "c", "d"])), 2);
    assert_eq!(count_array_changes(&s(&["a", "c", "d"]), &s(&["a", "b"])), 2);
    assert_eq!(count_array_changes(&s(&[]), &s(&["x"])), 1);
}

#[test]
fn status_fixture_needs_one_workspace_root_update() {
    let text = r#"{"electron-saved-workspace-roots":["/tmp/project-alpha/"],"project-order":[]}"#;
    assert_eq!(preview_workspace_roots(Some(text), &cwds()).unwrap(), 1);
    assert_eq!(preview_workspace_roots(None, &cwds()).unwrap(), 0);
}

#[test]
fn sync_rewrites_saved_roots_and_project_order() {
    let text = r#"{"electron-saved-workspace-roots":["/tmp/project-alpha/"],"project-order":[]}"#;
    let plan = plan_workspace_roots_sync(text, &cwds(), true).unwrap();
    assert_eq!(plan.changed, 1);
    assert_eq!(
        plan.next_text,
        Some(
            "{\n  \"electron-saved-workspace-roots\": [\n    \"/tmp/project-alpha\"\n  ],\n  \"project-order\": [\n    \"/tmp/project-alpha\"\n  ]\n}\n"
                .to_string()
        )
    );
    let settled = plan.next_text.unwrap();
    let again = plan_workspace_roots_sync(&settled, &cwds(), false).unwrap();
    assert_eq!(again.changed, 0);
    assert_eq!(again.next_text, None);
    let backup_missing = plan_workspace_roots_sync(&settled, &cwds(), true).unwrap();
    assert_eq!(backup_missing.changed, 0);
    assert_eq!(backup_missing.next_text, Some(settled.clone()));
}

#[test]
fn sync_rewrites_labels_preferences_and_active_root() {
    let text = r#"{"active-workspace-roots":"/tmp/project-beta/","electron-workspace-root-labels":{"/tmp/project-alpha/":"Alpha"},"open-in-target-preferences":{"perPath":{"/TMP/PROJECT-BETA":"code"}},"project-order":["/tmp/project-beta/"]}"#;
    let mut state = parse_json(text).unwrap();
    let known = s(&["/tmp/project-alpha", "/tmp/project-beta"]);
    let changed = rewrite_workspace_root_state(&mut state, &known);
    assert_eq!(changed, 1);
    let saved = state.get("electron-saved-workspace-roots").unwrap();
    assert!(saved.is_array());
    assert_eq!(state.get_str("active-workspace-roots"), Some(&"/tmp/project-beta".to_string()));
    let labels = state.get("electron-workspace-root-labels").unwrap();
    assert_eq!(labels.get_str("/tmp/project-alpha"), Some(&"Alpha".to_string()));
    let per_path = state.get("open-in-target-preferences").unwrap().get("perPath").unwrap();
    assert_eq!(per_path.get_str("/tmp/project-beta"), Some(&"code".to_string()));
}

#[test]
fn sync_refuses_broken_or_non_object_state() {
    match plan_workspace_roots_sync("{oops", &cwds(), false) {
        Err(AQBotError::Gateway(m)) => assert!(m.starts_with("Failed to process Codex JSON metadata: ")),
        _ => panic!("expected a JSON error"),
    }
    assert!(matches!(plan_workspace_roots_sync("[1, 2]", &cwds(), false), Err(AQBotError::Gateway(_))));
}
