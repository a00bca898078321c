use termi::commands::{
    check_launch_dir, check_project_dir, focus_tab_args, launch_args, validate_attach_request, validate_rename_request,
    validate_reorder_request,
    PathKind,
};
use termi::debug_log::{DebugLog, MAX_LOG_ENTRIES};
use termi::error::AppError;
use termi::models::{Activity, Info, Store};
use termi::processes::{add_shell_folder, collect_descendants, is_shell_executable};
use termi::reminder::{dispatch_plan, reminder_label, reminder_notice, reminder_tick, DispatchAction, Reminder};
use termi::store::{now_timestamp, reorder_projects, reorder_projects_in_path, timestamp_text};
use termi::wt_settings::{
    find_wt_settings_in, move_tab_binding, plan_move_tab_binding, strip_json_comments, wt_settings_candidate_path,
    ActionsField, MoveTabEdit, TERMI_MOVE_TAB_KEYS,
};

// ---------------------------------------------------------------------------
// Reminders.
// ---------------------------------------------------------------------------

#[test]
fn insert_fake_active_and_has_active_and_active_count() {
    let mut reminder = Reminder::new_for_test();
    assert_eq!(reminder.active_count(), 0);
    assert!(!reminder.has_active("t1"));
    reminder.insert_fake_active("t1");
    assert!(reminder.has_active("t1"));
    assert!(!reminder.has_active("t2"));
    assert_eq!(reminder.active_count(), 1);
    reminder.insert_fake_active("t2");
    assert!(reminder.has_active("t2"));
    assert_eq!(reminder.active_count(), 2);
}

#[test]
fn stop_reminder_removes_active_entry() {
    let mut reminder = Reminder::new_for_test();
    reminder.insert_fake_active("t1");
    reminder.insert_fake_active("t2");
    assert_eq!(reminder.active_count(), 2);
    reminder.stop_reminder("t1");
    assert!(!reminder.has_active("t1"));
    assert!(reminder.has_active("t2"));
    assert_eq!(reminder.active_count(), 1);
}

#[test]
fn stop_reminder_on_nonexistent_id_is_noop() {
    let mut reminder = Reminder::new_for_test();
    reminder.insert_fake_active("t1");
    assert!(!reminder.stop_reminder("nonexistent"));
    assert_eq!(reminder.active_count(), 1);
    assert!(reminder.has_active("t1"));
}

#[test]
fn stop_all_clears_all_active_reminders() {
    let mut reminder = Reminder::new_for_test();
    reminder.insert_fake_active("t1");
    reminder.insert_fake_active("t2");
    reminder.insert_fake_active("t3");
    assert_eq!(reminder.active_count(), 3);
    let stopped = reminder.stop_all();
    assert_eq!(stopped.len(), 3);
    assert_eq!(reminder.active_count(), 0);
    assert!(!reminder.has_active("t1"));
    assert!(!reminder.has_active("t2"));
    assert!(!reminder.has_active("t3"));
}

#[test]
fn update_settings_with_enabled_false_stops_all_active() {
    let mut reminder = Reminder::new_for_test();
    reminder.insert_fake_active("t1");
    reminder.insert_fake_active("t2");
    assert_eq!(reminder.active_count(), 2);
    reminder.update_settings(false, 5, 10, "en");
    assert_eq!(reminder.active_count(), 0);
    assert!(!reminder.has_active("t1"));
    assert!(!reminder.has_active("t2"));
}

#[test]
fn update_settings_with_enabled_true_keeps_active() {
    let mut reminder = Reminder::new_for_test();
    reminder.insert_fake_active("t1");
    assert_eq!(reminder.active_count(), 1);
    reminder.update_settings(true, 10, 5, "en");
    assert_eq!(reminder.active_count(), 1);
    assert!(reminder.has_active("t1"));
    assert_eq!(reminder.interval_minutes(), 10);
    assert_eq!(reminder.max_repeat(), 5);
}

#[test]
fn start_reminder_replaces_a_running_one() {
    let mut reminder = Reminder::new(true, 2, 4, "ko");
    let first = reminder.start_reminder("t1").unwrap();
    assert!(!first.replaced);
    assert_eq!(first.interval_secs, 120);
    assert_eq!(first.max_repeat, 4);
    assert_eq!(first.language, "ko");
    let second = reminder.start_reminder("t1").unwrap();
    assert!(second.replaced);
    assert_eq!(reminder.active_count(), 1);
    let mut off = Reminder::new(false, 2, 4, "ko");
    assert!(off.start_reminder("t1").is_none());
    assert_eq!(off.active_count(), 0);
}

#[test]
fn reminder_notices_and_ticks() {
    assert_eq!(reminder_label("ko"), "리마인더");
    assert_eq!(reminder_label("en"), "Reminder");
    let (name, tname) = reminder_notice("proj", "Terminal 1", "en", 2, 3);
    assert_eq!(name, "proj (Reminder 2/3)");
    assert_eq!(tname, "Terminal 1 (Reminder)");
    assert_eq!(reminder_tick(0, 3), (1, true, false));
    assert_eq!(reminder_tick(2, 3), (3, true, true));
    assert_eq!(reminder_tick(3, 3), (3, false, true));
    assert_eq!(reminder_tick(0, 0), (0, false, true));
}

#[test]
fn dispatch_plan_follows_the_activity() {
    let idle = ("t1".to_string(), "/p".to_string(), "P".to_string(), "T".to_string(), Activity::Idle, true, true, Some("9Z".to_string()));
    let d = dispatch_plan(&idle);
    assert_eq!(d.action, DispatchAction::NotifyThenRemind);
    assert_eq!(d.payload.terminal_id, "t1");
    assert_eq!(d.payload.project_path, "/p");
    assert_eq!(d.payload.last_idle_at, Some("9Z".to_string()));
    let muted = ("t1".to_string(), "/p".to_string(), "P".to_string(), "T".to_string(), Activity::Idle, false, true, None);
    assert_eq!(dispatch_plan(&muted).action, DispatchAction::Nothing);
    let active = ("t1".to_string(), "/p".to_string(), "P".to_string(), "T".to_string(), Activity::Active, true, false, None);
    assert_eq!(dispatch_plan(&active).action, DispatchAction::StopReminder);
}

// ---------------------------------------------------------------------------
// The debug log.
// ---------------------------------------------------------------------------

#[test]
fn new_debug_log_is_empty() {
    let log = DebugLog::new_for_test();
    assert!(log.get_all().is_empty());
}

#[test]
fn push_adds_entry() {
    let mut log = DebugLog::new_for_test();
    log.push("TEST", "hello".to_string());
    let entries = log.get_all();
    assert_eq!(entries.len(), 1);
    assert_eq!(entries[0].category, "TEST");
    assert_eq!(entries[0].message, "hello");
}

#[test]
fn push_respects_max_entries() {
    let mut log = DebugLog::new_for_test();
    for i in 0..MAX_LOG_ENTRIES + 10 {
        log.push("TEST", format!("msg-{}", i));
    }
    let entries = log.get_all();
    assert_eq!(entries.len(), MAX_LOG_ENTRIES);
    assert_eq!(entries[0].message, "msg-10");
}

#[test]
fn clear_removes_all_entries() {
    let mut log = DebugLog::new_for_test();
    log.push("TEST", "a".to_string());
    log.push("TEST", "b".to_string());
    log.clear();
    assert!(log.get_all().is_empty());
}

#[test]
fn timestamp_is_nonzero() {
    let mut log = DebugLog::new_for_test();
    log.push("TEST", "x".to_string());
    assert!(log.get_all()[0].timestamp > 0);
}

#[test]
fn entries_preserve_order() {
    let mut log = DebugLog::new_for_test();
    log.push("A", "first".to_string());
    log.push("B", "second".to_string());
    log.push("C", "third".to_string());
    let entries = log.get_all();
    assert_eq!(entries[0].message, "first");
    assert_eq!(entries[1].message, "second");
    assert_eq!(entries[2].message, "third");
}

#[test]
fn push_at_records_the_given_time() {
    let mut log = DebugLog::new();
    log.push_at("X", "m".to_string(), 42);
    assert_eq!(log.get_all()[0].timestamp, 42);
}

// ---------------------------------------------------------------------------
// Windows Terminal settings.
// ---------------------------------------------------------------------------

#[test]
fn strip_json_comments_removes_line_comments() {
    let input = r#"{
    // This is a comment
    "name": "value",
    // Another comment
    "number": 42
}"#;
    let stripped = strip_json_comments(input);
    let parsed: serde_json::Value = serde_json::from_str(&stripped).unwrap();
    assert_eq!(parsed["name"], "value");
    assert_eq!(parsed["number"], 42);
}

#[test]
fn strip_json_comments_preserves_urls() {
    let input = r#"{
    "$schema": "https://aka.ms/terminal-profiles-schema",
    "name": "test"
}"#;
    let stripped = strip_json_comments(input);
    let parsed: serde_json::Value = serde_json::from_str(&stripped).unwrap();
    assert_eq!(parsed["$schema"], "https://aka.ms/terminal-profiles-schema");
}

#[test]
fn strip_json_comments_keeps_lines_and_drops_cr() {
    assert_eq!(strip_json_comments("a\r\n  // c\nb"), "a\n\nb\n");
    assert_eq!(strip_json_comments(""), "");
    assert_eq!(strip_json_comments("x\n"), "x\n");
    assert_eq!(strip_json_comments("x\r"), "x\r\n");
}

#[test]
fn returns_error_when_no_settings_found() {
    let base = "/termi-no-such-folder-7f3a".to_string();
    let result = find_wt_settings_in(&base, |p: &str| std::path::Path::new(p).exists());
    assert!(result.is_err());
    match result {
        Err(AppError::Terminal(m)) => assert_eq!(m, "Windows Terminal 설정 파일을 찾을 수 없습니다"),
        _ => panic!("expected a terminal error"),
    }
}

#[test]
fn find_wt_settings_prefers_store_then_preview_then_unpackaged() {
    let store = "C:\\Users\\u\\AppData\\Local\\Packages\\Microsoft.WindowsTerminal_8wekyb3d8bbwe\\LocalState\\settings.json";
    let preview = "C:\\Users\\u\\AppData\\Local\\Packages\\Microsoft.WindowsTerminalPreview_8wekyb3d8bbwe\\LocalState\\settings.json";
    let unpackaged = "C:\\Users\\u\\AppData\\Local\\Microsoft\\Windows Terminal\\settings.json";
    let base = "C:\\Users\\u\\AppData\\Local";
    assert_eq!(wt_settings_candidate_path(base, 0), store);
    assert_eq!(wt_settings_candidate_path(base, 1), preview);
    assert_eq!(wt_settings_candidate_path(base, 2), unpackaged);
    assert_eq!(find_wt_settings_in(base, |_: &str| true).unwrap(), store);
    assert_eq!(find_wt_settings_in(base, |p: &str| p == preview || p == unpackaged).unwrap(), preview);
    assert_eq!(find_wt_settings_in(base, |p: &str| p == unpackaged).unwrap(), unpackaged);
    assert_eq!(wt_settings_candidate_path("C:\\base\\", 2), "C:\\base\\Microsoft\\Windows Terminal\\settings.json");
}

#[test]
fn inject_plans_follow_the_actions_field() {
    assert_eq!(plan_move_tab_binding(&ActionsField::Missing).unwrap(), (true, MoveTabEdit::Append));
    match plan_move_tab_binding(&ActionsField::NotArray) {
        Err(AppError::Terminal(m)) => assert_eq!(m, "actions 필드가 배열이 아닙니다"),
        _ => panic!("expected a terminal error"),
    }
    let keys = vec![Some("ctrl+c".to_string()), None, Some(TERMI_MOVE_TAB_KEYS.to_string())];
    assert_eq!(plan_move_tab_binding(&ActionsField::Array(keys)).unwrap(), (false, MoveTabEdit::SetWindow(2)));
    let keys = vec![Some("ctrl+c".to_string())];
    assert_eq!(plan_move_tab_binding(&ActionsField::Array(keys)).unwrap(), (false, MoveTabEdit::Append));
    let (keys, action, direction, window) = move_tab_binding("termi_abc");
    assert_eq!(keys, "ctrl+shift+alt+f24");
    assert_eq!(action, "moveTab");
    assert_eq!(direction, "forward");
    assert_eq!(window, "termi_abc");
}

// ---------------------------------------------------------------------------
// Commands.
// ---------------------------------------------------------------------------

#[test]
fn rename_requests_are_checked() {
    assert!(validate_rename_request("t1", "Build").is_ok());
    match validate_rename_request("t1", "") {
        Err(AppError::Validation(m)) => assert_eq!(m, "터미널 이름은 1~50자여야 합니다"),
        _ => panic!("expected a validation error"),
    }
    assert!(validate_rename_request("t1", &"a".repeat(51)).is_err());
    assert!(validate_rename_request("t1", &"a".repeat(50)).is_ok());
    match validate_rename_request("t1", "a\tb") {
        Err(AppError::Validation(m)) => assert_eq!(m, "터미널 이름에 허용되지 않는 제어 문자가 포함되어 있습니다"),
        _ => panic!("expected a validation error"),
    }
    assert!(validate_rename_request("bad id", "x").is_err());
}

#[test]
fn attach_requests_are_checked() {
    assert!(validate_attach_request("p1", 5, &vec![1], "tab").is_ok());
    match validate_attach_request("p1", 0, &vec![1], "tab") {
        Err(AppError::Validation(m)) => assert_eq!(m, "hwnd는 0일 수 없습니다"),
        _ => panic!("expected a validation error"),
    }
    match validate_attach_request("p1", 5, &vec![], "tab") {
        Err(AppError::Validation(m)) => assert_eq!(m, "runtime_id는 비어 있을 수 없습니다"),
        _ => panic!("expected a validation error"),
    }
    match validate_attach_request("p1", 5, &vec![1], &"t".repeat(201)) {
        Err(AppError::Validation(m)) => assert_eq!(m, "탭 타이틀은 1~200자여야 합니다"),
        _ => panic!("expected a validation error"),
    }
}

#[test]
fn project_dir_checks() {
    assert!(check_project_dir("C:\\p", &PathKind::Directory).is_ok());
    match check_project_dir("C:\\p", &PathKind::NotDirectory) {
        Err(AppError::Validation(m)) => assert_eq!(m, "프로젝트 경로가 디렉터리가 아닙니다: C:\\p"),
        _ => panic!("expected a validation error"),
    }
    match check_project_dir("C:\\p", &PathKind::Missing("gone".to_string())) {
        Err(AppError::Validation(m)) => assert_eq!(m, "프로젝트 경로를 찾을 수 없습니다: C:\\p"),
        _ => panic!("expected a validation error"),
    }
    match check_launch_dir("C:\\p", &PathKind::Missing("gone".to_string())) {
        Err(AppError::Io(m)) => assert_eq!(m, "gone"),
        _ => panic!("expected an I/O error"),
    }
    match check_launch_dir("C:\\p", &PathKind::NotDirectory) {
        Err(AppError::Validation(m)) => assert_eq!(m, "Not a directory: C:\\p"),
        _ => panic!("expected a validation error"),
    }
}

#[test]
fn wt_command_lines() {
    assert_eq!(
        launch_args("p1", "My App", "C:\\code"),
        vec!["-w", "termi_p1", "nt", "--title", "termi: My App", "-d", "C:\\code"]
    );
    assert_eq!(focus_tab_args("p1", 3), vec!["-w", "termi_p1", "focus-tab", "-t", "3"]);
}

#[test]
fn shell_processes_and_folders() {
    assert!(is_shell_executable("PowerShell.EXE"));
    assert!(is_shell_executable("zsh.exe"));
    assert!(!is_shell_executable("code.exe"));
    let mut cwds: Vec<String> = vec![];
    add_shell_folder(&mut cwds, "C:\\A".to_string());
    add_shell_folder(&mut cwds, "c:\\a".to_string());
    add_shell_folder(&mut cwds, "".to_string());
    add_shell_folder(&mut cwds, "C:\\B".to_string());
    assert_eq!(cwds, vec!["C:\\A".to_string(), "C:\\B".to_string()]);
}

// ---------------------------------------------------------------------------
// The project store.
// ---------------------------------------------------------------------------

fn project(id: &str, sort_order: u32) -> Info {
    Info {
        id: id.to_string(),
        name: id.to_uppercase(),
        path: format!("/{}", id),
        created_at: "2026-01-01".to_string(),
        sort_order,
    }
}

#[test]
fn reorder_projects_assigns_sort_order_by_id_sequence() {
    let mut data = Store { projects: vec![project("a", 0), project("b", 1), project("c", 2)] };
    let ids = vec!["c".to_string(), "a".to_string(), "b".to_string()];
    let result = reorder_projects_in_path(&mut data, &ids);
    let order: Vec<&str> = result.iter().map(|p| p.id.as_str()).collect();
    assert_eq!(order, vec!["c", "a", "b"]);
    assert_eq!(result[0].sort_order, 0);
    assert_eq!(result[1].sort_order, 1);
    assert_eq!(result[2].sort_order, 2);
    assert_eq!(data.projects.len(), 3);
    assert_eq!(data.projects[0].id, "c");
}

#[test]
fn reorder_projects_ignores_unknown_ids() {
    let projects = vec![project("a", 0), project("b", 1), project("c", 2)];
    let ids = vec!["x".to_string(), "b".to_string()];
    let result = reorder_projects(projects, &ids);
    let order: Vec<&str> = result.iter().map(|p| p.id.as_str()).collect();
    assert_eq!(order, vec!["b", "a", "c"]);
    assert_eq!(result.iter().map(|p| p.sort_order).collect::<Vec<u32>>(), vec![0, 1, 2]);
}

#[test]
fn timestamps_are_epoch_seconds_with_z() {
    assert_eq!(timestamp_text(1710500000), "1710500000Z");
    assert_eq!(timestamp_text(0), "0Z");
    let now = now_timestamp();
    assert!(now.ends_with('Z'));
    assert!(now.len() > 1);
}

#[test]
fn descendants_follow_the_process_tree() {
    let procs = vec![
        (2u32, 1u32, "pwsh.exe".to_string()),
        (3, 2, "bash.exe".to_string()),
        (4, 9, "cmd.exe".to_string()),
        (5, 5, "idle".to_string()),
        (1, 1, "self".to_string()),
        (6, 1, "nu.exe".to_string()),
    ];
    let found = collect_descendants(1, &procs);
    let mut pids: Vec<u32> = found.iter().map(|e| e.0).collect();
    pids.sort();
    assert_eq!(pids, vec![2, 3, 6]);
    assert!(found.contains(&(3, "bash.exe".to_string())));
    assert!(collect_descendants(42, &procs).is_empty());
}

#[test]
fn descendants_survive_a_cycle_in_the_table() {
    let procs = vec![(2u32, 1u32, "a".to_string()), (1, 2, "b".to_string())];
    let found = collect_descendants(1, &procs);
    assert_eq!(found, vec![(2, "a".to_string()), (1, "b".to_string())]);
}

#[test]
fn reorder_request_limits_and_ids() {
    let many: Vec<String> = (0..1001).map(|i| format!("id{i}")).collect();
    match validate_reorder_request(&many) {
        Err(AppError::Validation(m)) => assert_eq!(m, "project_ids 배열이 너무 깁니다 (최대 1000개)"),
        other => panic!("unexpected: {other:?}"),
    }
    let exactly: Vec<String> = (0..1000).map(|i| format!("id{i}")).collect();
    assert!(validate_reorder_request(&exactly).is_ok());
    let bad = vec!["good-id".to_string(), "bad id!".to_string()];
    assert!(matches!(validate_reorder_request(&bad), Err(AppError::Validation(_))));
    assert!(validate_reorder_request(&Vec::new()).is_ok());
}

#[test]
fn descendants_come_in_last_in_first_out_order() {
    let procs = vec![
        (2u32, 1u32, "a".to_string()),
        (3, 1, "b".to_string()),
        (4, 2, "c".to_string()),
        (5, 3, "d".to_string()),
    ];
    let pids: Vec<u32> = collect_descendants(1, &procs).into_iter().map(|e| e.0).collect();
    assert_eq!(pids, vec![2, 3, 5, 4]);
}

#[test]
fn strip_json_comments_cuts_trailing_comments_outside_strings() {
    let input = "{\n  \"a\": 1 // note\n}";
    let parsed: serde_json::Value = serde_json::from_str(&strip_json_comments(input)).unwrap();
    assert_eq!(parsed["a"], 1);
    assert_eq!(strip_json_comments("\"u\": \"http://x\" // c"), "\"u\": \"http://x\" \n");
    assert_eq!(strip_json_comments("\"q\\\"//\": 2"), "\"q\\\"//\": 2\n");
}

#[test]
fn move_tab_binding_added_twice_is_added_once() {
    let first = plan_move_tab_binding(&ActionsField::Array(vec![None, Some("ctrl+t".to_string())])).unwrap();
    assert_eq!(first, (false, MoveTabEdit::Append));
    let after = ActionsField::Array(vec![None, Some("ctrl+t".to_string()), Some(TERMI_MOVE_TAB_KEYS.to_string())]);
    assert_eq!(plan_move_tab_binding(&after).unwrap(), (false, MoveTabEdit::SetWindow(2)));
    assert_eq!(plan_move_tab_binding(&after).unwrap(), (false, MoveTabEdit::SetWindow(2)));
}
