use termi::hooks::{
    find_event, find_termi_hook_in_settings, get_hook_status_impl, hook_command_for, register_hooks_impl,
    unregister_hooks_impl, ClaudeSettings, HookEventEntry, HookItem, HooksMap, HOOK_COMMAND_KEY, HOOK_EVENT_STOP,
    HOOK_EVENT_USER_PROMPT_SUBMIT, HOOK_MARKER,
};
use termi::models::{Activity, Instance, Status};
use termi::terminals::Manager;

fn make_hook_entry(hook_path: &str) -> HookEventEntry {
    HookEventEntry {
        matcher: String::new(),
        hooks: vec![HookItem { hook_type: HOOK_COMMAND_KEY.to_string(), command: hook_path.to_string() }],
    }
}

fn make_settings_with_hooks(hook_path: &str) -> ClaudeSettings {
    let entry = make_hook_entry(hook_path);
    let hooks_map: HooksMap = vec![
        (HOOK_EVENT_STOP.to_string(), vec![entry.clone()]),
        (HOOK_EVENT_USER_PROMPT_SUBMIT.to_string(), vec![entry]),
    ];
    ClaudeSettings { hooks: Some(hooks_map), rest: serde_json::Map::new() }
}

fn event<'a>(m: &'a HooksMap, name: &str) -> Option<&'a Vec<HookEventEntry>> {
    find_event(m, name).map(|i| &m[i].1)
}

#[test]
fn find_termi_hook_detects_registered_hook() {
    let settings = make_settings_with_hooks("C:\\path\\to\\termi-hook.cmd");
    let result = find_termi_hook_in_settings(&settings);
    assert!(result.is_some());
    assert!(result.unwrap().contains(HOOK_MARKER));
}

#[test]
fn find_termi_hook_returns_none_when_not_registered() {
    let entry = make_hook_entry("other-hook.cmd");
    let hooks_map: HooksMap = vec![(HOOK_EVENT_STOP.to_string(), vec![entry])];
    let settings = ClaudeSettings { hooks: Some(hooks_map), rest: serde_json::Map::new() };
    assert!(find_termi_hook_in_settings(&settings).is_none());
}

#[test]
fn find_termi_hook_returns_none_for_empty_settings() {
    let settings = ClaudeSettings { hooks: None, rest: serde_json::Map::new() };
    assert!(find_termi_hook_in_settings(&settings).is_none());
}

#[test]
fn find_termi_hook_case_insensitive() {
    let settings = make_settings_with_hooks("C:\\Path\\To\\TERMI-HOOK.CMD");
    assert!(find_termi_hook_in_settings(&settings).is_some());
}

#[test]
fn hook_status_reports_the_found_command() {
    let status = get_hook_status_impl(&make_settings_with_hooks("C:\\x\\termi-hook.ps1"));
    assert!(status.registered);
    assert_eq!(status.hook_path, Some("C:\\x\\termi-hook.ps1".to_string()));
    let none = get_hook_status_impl(&ClaudeSettings { hooks: None, rest: serde_json::Map::new() });
    assert!(!none.registered);
    assert!(none.hook_path.is_none());
}

#[test]
fn unregister_removes_only_termi_hooks_preserving_others() {
    let other_entry = make_hook_entry("C:\\other\\hook.cmd");
    let termi_entry = make_hook_entry("C:\\path\\termi-hook.cmd");
    let hooks_map: HooksMap = vec![
        (HOOK_EVENT_STOP.to_string(), vec![other_entry, termi_entry.clone()]),
        (HOOK_EVENT_USER_PROMPT_SUBMIT.to_string(), vec![termi_entry]),
    ];
    let mut rest = serde_json::Map::new();
    rest.insert("other_key".to_string(), serde_json::Value::String("preserved".to_string()));
    let mut settings = ClaudeSettings { hooks: Some(hooks_map), rest };

    let status = unregister_hooks_impl(&mut settings);
    assert!(!status.registered);

    let hooks_map = settings.hooks.as_ref().unwrap();
    let stop_hooks = event(hooks_map, HOOK_EVENT_STOP).unwrap();
    assert_eq!(stop_hooks.len(), 1);
    assert!(stop_hooks[0].hooks[0].command.contains("other"));
    assert!(event(hooks_map, HOOK_EVENT_USER_PROMPT_SUBMIT).is_none());
    assert_eq!(settings.rest.get("other_key").unwrap(), "preserved");
}

#[test]
fn unregister_drops_hooks_when_nothing_is_left() {
    let mut settings = make_settings_with_hooks("C:\\path\\termi-hook.cmd");
    unregister_hooks_impl(&mut settings);
    assert!(settings.hooks.is_none());
}

#[test]
fn register_creates_correct_hook_structure() {
    let mut settings = ClaudeSettings { hooks: None, rest: serde_json::Map::new() };
    let hook_path = "C:\\test\\termi-hook.cmd";
    let (status, changed) = register_hooks_impl(&mut settings, hook_path);
    assert!(status.registered);
    assert!(changed);

    let hooks_map = settings.hooks.as_ref().unwrap();
    let stop = event(hooks_map, HOOK_EVENT_STOP).unwrap();
    assert_eq!(stop.len(), 1);
    assert_eq!(stop[0].matcher, "");
    assert_eq!(stop[0].hooks[0].hook_type, HOOK_COMMAND_KEY);
    assert_eq!(stop[0].hooks[0].command, hook_path);

    let prompt = event(hooks_map, HOOK_EVENT_USER_PROMPT_SUBMIT).unwrap();
    assert_eq!(prompt.len(), 1);
    assert_eq!(prompt[0].hooks[0].command, hook_path);
}

#[test]
fn register_preserves_existing_hooks() {
    let existing_entry = make_hook_entry("C:\\existing\\hook.cmd");
    let hooks_map_init: HooksMap = vec![(HOOK_EVENT_STOP.to_string(), vec![existing_entry])];
    let mut settings = ClaudeSettings { hooks: Some(hooks_map_init), rest: serde_json::Map::new() };

    let hook_path = "C:\\test\\termi-hook.cmd";
    register_hooks_impl(&mut settings, hook_path);

    let hooks_map = settings.hooks.as_ref().unwrap();
    let stop = event(hooks_map, HOOK_EVENT_STOP).unwrap();
    assert_eq!(stop.len(), 2);
    assert!(stop[0].hooks[0].command.contains("existing"));
    assert!(stop[1].hooks[0].command.contains(HOOK_MARKER));
}

#[test]
fn register_twice_changes_nothing_the_second_time() {
    let mut settings = ClaudeSettings { hooks: None, rest: serde_json::Map::new() };
    register_hooks_impl(&mut settings, "C:\\a\\termi-hook.ps1");
    let (status, changed) = register_hooks_impl(&mut settings, "C:\\b\\termi-hook.ps1");
    assert!(!changed);
    assert_eq!(status.hook_path, Some("C:\\b\\termi-hook.ps1".to_string()));
    let hooks_map = settings.hooks.as_ref().unwrap();
    assert_eq!(event(hooks_map, HOOK_EVENT_STOP).unwrap().len(), 1);
}

#[test]
fn register_then_unregister_removes_the_hook() {
    let mut settings = ClaudeSettings { hooks: None, rest: serde_json::Map::new() };
    register_hooks_impl(&mut settings, "C:\\a\\termi-hook.ps1");
    assert!(find_termi_hook_in_settings(&settings).is_some());
    unregister_hooks_impl(&mut settings);
    assert!(find_termi_hook_in_settings(&settings).is_none());
}

#[test]
fn hook_command_uses_forward_slashes() {
    assert_eq!(
        hook_command_for("C:\\app\\scripts\\termi-hook.ps1"),
        "powershell -NoProfile -ExecutionPolicy Bypass -File \"C:/app/scripts/termi-hook.ps1\""
    );
}

// ---------------------------------------------------------------------------
// Hook events reaching the terminals.
// ---------------------------------------------------------------------------

fn make_instance(id: &str, project_id: &str, name: &str) -> Instance {
    Instance {
        id: id.to_string(),
        project_id: project_id.to_string(),
        project_name: name.to_string(),
        project_path: format!("C:\\projects\\{}", name),
        terminal_name: "터미널 1".to_string(),
        status: Status::Running,
        launched_at: "12345Z".to_string(),
        activity: Activity::Active,
        notification_enabled: true,
        monitored: false,
        attached: false,
        last_idle_at: None,
    }
}

#[test]
fn handle_hook_event_stop_transitions_active_to_idle() {
    let mut pm = Manager::new();
    pm.register_terminal_for_test(make_instance("t1", "p1", "test-project"));
    let transitions = pm.handle_hook_event("sess-1", "C:\\projects\\test-project", "Stop");
    assert_eq!(transitions.len(), 1);
    assert_eq!(transitions[0].0, "t1");
    assert_eq!(transitions[0].4, Activity::Idle);
    let all = pm.get_all();
    assert_eq!(all[0].activity, Activity::Idle);
    assert!(all[0].monitored);
}

#[test]
fn handle_hook_event_stop_ignores_already_idle() {
    let mut pm = Manager::new();
    let mut instance = make_instance("t1", "p1", "test-project");
    instance.activity = Activity::Idle;
    pm.register_terminal_for_test(instance);
    let transitions = pm.handle_hook_event("sess-1", "C:\\projects\\test-project", "Stop");
    assert!(transitions.is_empty(), "already Idle → no transition");
}

#[test]
fn handle_hook_event_prompt_transitions_idle_to_active() {
    let mut pm = Manager::new();
    let mut instance = make_instance("t1", "p1", "test-project");
    instance.activity = Activity::Idle;
    pm.register_terminal_for_test(instance);
    let transitions = pm.handle_hook_event("sess-1", "C:\\projects\\test-project", "UserPromptSubmit");
    assert_eq!(transitions.len(), 1);
    assert_eq!(transitions[0].4, Activity::Active);
}

#[test]
fn handle_hook_event_prompt_ignores_already_active() {
    let mut pm = Manager::new();
    pm.register_terminal_for_test(make_instance("t1", "p1", "test-project"));
    let transitions = pm.handle_hook_event("sess-1", "C:\\projects\\test-project", "UserPromptSubmit");
    assert!(transitions.is_empty(), "already Active → no transition");
}

#[test]
fn handle_hook_event_no_matching_terminal() {
    let mut pm = Manager::new();
    pm.register_terminal_for_test(make_instance("t1", "p1", "other-project"));
    let transitions = pm.handle_hook_event("sess-1", "C:\\projects\\not-registered", "Stop");
    assert!(transitions.is_empty());
}

#[test]
fn handle_hook_event_session_id_maps_to_one_terminal_only() {
    let mut pm = Manager::new();
    let mut i1 = make_instance("t1", "p1", "shared");
    i1.project_path = "C:\\projects\\shared".to_string();
    let mut i2 = make_instance("t2", "p1", "shared");
    i2.project_path = "C:\\projects\\shared".to_string();
    pm.register_terminal_for_test(i1);
    pm.register_terminal_for_test(i2);

    let transitions = pm.handle_hook_event("sess-A", "C:\\projects\\shared", "Stop");
    assert_eq!(transitions.len(), 1, "session_id should map to exactly one terminal");
    let transitioned_id = transitions[0].0.clone();

    let transitions2 = pm.handle_hook_event("sess-A", "C:\\projects\\shared", "Stop");
    assert!(transitions2.is_empty());

    let transitions3 = pm.handle_hook_event("sess-B", "C:\\projects\\shared", "Stop");
    assert_eq!(transitions3.len(), 1);
    assert_ne!(transitions3[0].0, transitioned_id, "different session should map to different terminal");
}

#[test]
fn handle_hook_event_session_id_persists_across_calls() {
    let mut pm = Manager::new();
    pm.register_terminal_for_test(make_instance("t1", "p1", "test-project"));
    pm.handle_hook_event("sess-1", "C:\\projects\\test-project", "Stop");
    let transitions = pm.handle_hook_event("sess-1", "C:\\projects\\test-project", "UserPromptSubmit");
    assert_eq!(transitions.len(), 1);
    assert_eq!(transitions[0].0, "t1");
    assert_eq!(transitions[0].4, Activity::Active);
}

#[test]
fn handle_hook_event_path_matching_case_insensitive() {
    let mut pm = Manager::new();
    let mut instance = make_instance("t1", "p1", "test-project");
    instance.project_path = "C:\\Projects\\Test-Project".to_string();
    pm.register_terminal_for_test(instance);
    let transitions = pm.handle_hook_event("sess-1", "c:\\projects\\test-project", "Stop");
    assert_eq!(transitions.len(), 1);
}

#[test]
fn handle_hook_event_stop_sets_last_idle_at() {
    let mut pm = Manager::new();
    pm.register_terminal_for_test(make_instance("t1", "p1", "test-project"));
    let transitions = pm.handle_hook_event("sess-1", "C:\\projects\\test-project", "Stop");
    assert_eq!(transitions.len(), 1);
    assert!(transitions[0].7.is_some(), "last_idle_at should be Some after Idle transition");
    let all = pm.get_all();
    assert!(all[0].last_idle_at.is_some(), "instance.last_idle_at should be set");
}

#[test]
fn handle_hook_event_prompt_preserves_last_idle_at() {
    let mut pm = Manager::new();
    let mut instance = make_instance("t1", "p1", "test-project");
    instance.activity = Activity::Idle;
    instance.last_idle_at = Some("1710500000Z".to_string());
    pm.register_terminal_for_test(instance);
    let transitions = pm.handle_hook_event("sess-1", "C:\\projects\\test-project", "UserPromptSubmit");
    assert_eq!(transitions.len(), 1);
    assert_eq!(transitions[0].7, Some("1710500000Z".to_string()));
    let all = pm.get_all();
    assert_eq!(all[0].last_idle_at, Some("1710500000Z".to_string()));
}

#[test]
fn apply_hook_event_records_the_given_time_and_trailing_slash_paths_match() {
    let mut pm = Manager::new();
    pm.register_terminal_for_test(make_instance("t1", "p1", "test-project"));
    let t = pm.apply_hook_event("s", "c:/projects/test-project/", "Stop", "1700000000Z");
    assert_eq!(t.len(), 1);
    assert_eq!(t[0].7, Some("1700000000Z".to_string()));
    let t2 = pm.apply_hook_event("s", "elsewhere", "Stop", "1700000001Z");
    assert!(t2.is_empty());
}

#[test]
fn hook_script_must_lie_in_an_allowed_folder() {
    let c = |v: &[&str]| v.iter().map(|s| s.to_string()).collect::<Vec<String>>();
    let roots = vec![c(&["C:", "\\", "app"]), c(&["C:", "\\", "dev"])];
    assert!(termi::hooks::script_within(&c(&["C:", "\\", "app", "scripts", "termi-hook.ps1"]), &roots));
    assert!(termi::hooks::script_within(&c(&["C:", "\\", "dev", "scripts", "termi-hook.ps1"]), &roots));
    assert!(!termi::hooks::script_within(&c(&["C:", "\\", "other", "termi-hook.ps1"]), &roots));
    assert!(!termi::hooks::script_within(&c(&["C:", "\\"]), &roots));
}

#[test]
fn event_files_settle_after_the_debounce() {
    assert!(termi::hooks::event_settled(None));
    assert!(termi::hooks::event_settled(Some(300)));
    assert!(!termi::hooks::event_settled(Some(299)));
}
