use termi::error::AppError;
use termi::attach::{match_tab_to_project, match_tab_to_project_with_cwds, plan_auto_attach};
use termi::commands::{close_and_stop_reminder, stop_reminders_for_closed};
use termi::models::{Activity, ExternalTerminalInfo, Info, Instance, Status, TabInfo};
use termi::reminder::Reminder;
use termi::terminals::{close_action, CloseAction, Manager};

fn make_instance(id: &str, project_id: &str, name: &str) -> Instance {
    Instance {
        id: id.to_string(),
        project_id: project_id.to_string(),
        project_name: name.to_string(),
        project_path: format!("C:\\projects\\{}", name),
        terminal_name: "터미널 1".to_string(),
        status: Status::Running,
        launched_at: "12345Z".to_string(),
        activity: Activity::Active,
        notification_enabled: true,
        monitored: false,
        attached: false,
        last_idle_at: None,
    }
}

fn info(id: &str, name: &str, path: &str) -> Info {
    Info {
        id: id.to_string(),
        name: name.to_string(),
        path: path.to_string(),
        created_at: "2026-01-01".to_string(),
        sort_order: 0,
    }
}

fn test_dir() -> String {
    ".".to_string()
}

fn is_dir(p: &str) -> bool {
    std::path::Path::new(p).is_dir()
}

const FAKE_EXCLUDED_HWND: isize = 99999;
const FAKE_ATTACH_HWND: isize = 55555;
const FAKE_AOT_HWND: isize = 88888;

// ---------------------------------------------------------------------------
// Matching tabs to projects.
// ---------------------------------------------------------------------------

#[test]
fn match_tab_to_project_termi_prefix() {
    let projects = vec![info("p1", "my-project", "C:\\projects\\my-project")];
    let result = match_tab_to_project("termi: my-project", &projects);
    assert!(result.is_some());
    let (project, is_termi_tab) = result.unwrap();
    assert_eq!(project.id, "p1");
    assert!(is_termi_tab);
}

#[test]
fn match_tab_to_project_path_in_title() {
    let projects = vec![info("p1", "my-project", "C:\\projects\\my-project")];
    let result = match_tab_to_project("C:\\projects\\my-project", &projects);
    assert!(result.is_some());
    let (project, is_termi_tab) = result.unwrap();
    assert_eq!(project.id, "p1");
    assert!(!is_termi_tab);
}

#[test]
fn match_tab_to_project_path_case_insensitive() {
    let projects = vec![info("p1", "my-project", "C:\\Projects\\My-Project")];
    let result = match_tab_to_project("c:\\projects\\my-project", &projects);
    assert!(result.is_some());
}

#[test]
fn match_tab_to_project_no_match() {
    let projects = vec![info("p1", "my-project", "C:\\projects\\my-project")];
    let result = match_tab_to_project("PowerShell", &projects);
    assert!(result.is_none());
}

#[test]
fn match_tab_to_project_termi_prefix_priority() {
    let projects = vec![
        info("p1", "my-project", "C:\\projects\\my-project"),
        info("p2", "other", "C:\\projects\\other"),
    ];
    let result = match_tab_to_project("termi: my-project", &projects);
    assert!(result.is_some());
    let (project, is_termi) = result.unwrap();
    assert_eq!(project.id, "p1");
    assert!(is_termi);
}

#[test]
fn match_tab_to_project_cwd_match() {
    let projects = vec![info("p1", "my-project", "C:\\projects\\my-project")];
    let cwds = vec!["C:\\projects\\my-project".to_string()];
    let result = match_tab_to_project_with_cwds("some random title", &projects, &cwds);
    assert!(result.is_some());
    let (project, is_termi) = result.unwrap();
    assert_eq!(project.id, "p1");
    assert!(!is_termi);
}

#[test]
fn match_tab_to_project_title_priority_over_cwd() {
    let projects = vec![
        info("p1", "proj-a", "C:\\projects\\proj-a"),
        info("p2", "proj-b", "C:\\projects\\proj-b"),
    ];
    let cwds = vec!["C:\\projects\\proj-b".to_string()];
    let result = match_tab_to_project_with_cwds("termi: proj-a", &projects, &cwds);
    assert!(result.is_some());
    let (project, is_termi) = result.unwrap();
    assert_eq!(project.id, "p1");
    assert!(is_termi);
}

#[test]
fn match_tab_prefix_trims_and_accepts_suffixes() {
    let projects = vec![info("p1", "api", "C:\\x\\api")];
    let (p, t) = match_tab_to_project("termi:   api \u{2733}", &projects).unwrap();
    assert_eq!(p.id, "p1");
    assert!(t);
}

#[test]
fn match_tab_cwd_folds_slashes_and_subfolders() {
    let projects = vec![info("p1", "a", "C:/Projects/A")];
    let cwds = vec!["c:\\projects\\a\\src".to_string()];
    let (p, t) = match_tab_to_project_with_cwds("pwsh", &projects, &cwds).unwrap();
    assert_eq!(p.id, "p1");
    assert!(!t);
    let cwds2 = vec!["c:\\projects\\ab".to_string()];
    assert!(match_tab_to_project_with_cwds("pwsh", &projects, &cwds2).is_none());
}

// ---------------------------------------------------------------------------
// The registry.
// ---------------------------------------------------------------------------

#[test]
fn new_process_manager_has_empty_terminal_list() {
    let pm = Manager::new();
    let terminals = pm.get_all();
    assert!(terminals.is_empty());
}

#[test]
fn register_terminal_adds_to_list() {
    let mut pm = Manager::new();
    pm.register_terminal_for_test(make_instance("t1", "p1", "test-project"));
    let all = pm.get_all();
    assert_eq!(all.len(), 1);
    assert_eq!(all[0].id, "t1");
    assert_eq!(all[0].project_name, "test-project");
    assert_eq!(all[0].status, Status::Running);
}

#[test]
fn get_all_returns_multiple_terminals() {
    let mut pm = Manager::new();
    for i in 0..3 {
        pm.register_terminal_for_test(make_instance(
            &format!("t{}", i),
            &format!("p{}", i),
            &format!("project-{}", i),
        ));
    }
    assert_eq!(pm.get_all().len(), 3);
}

#[test]
fn register_terminal_with_same_id_overwrites() {
    let mut pm = Manager::new();
    pm.register_terminal_for_test(make_instance("t1", "p1", "first"));
    pm.register_terminal_for_test(make_instance("t1", "p2", "second"));
    let all = pm.get_all();
    assert_eq!(all.len(), 1);
    assert_eq!(all[0].project_name, "second");
}

#[test]
fn focus_returns_error_for_unknown_terminal() {
    let mut pm = Manager::new();
    assert!(pm.focus_target("nonexistent", false).is_err());
}

#[test]
fn focus_target_counts_earlier_tabs_of_the_project() {
    let mut pm = Manager::new();
    pm.register_terminal_for_test(make_instance("t1", "p1", "a"));
    pm.register_terminal_for_test(make_instance("t2", "p1", "a"));
    pm.register_terminal_for_test(make_instance("t3", "p2", "b"));
    let f = pm.focus_target("t2", false).unwrap();
    assert_eq!(f.effective_index, 1);
    assert_eq!(f.project_id, "p1");
    assert_eq!(pm.get("t2").unwrap().tab_index, 1);
    assert_eq!(pm.get("t3").unwrap().tab_index, 0);
}

#[test]
fn remove_terminal_from_map_directly() {
    let mut pm = Manager::new();
    pm.register_terminal_for_test(make_instance("t1", "p1", "test"));
    pm.register_terminal_for_test(make_instance("t2", "p2", "test2"));
    pm.remove("t1");
    let all = pm.get_all();
    assert_eq!(all.len(), 1);
    assert_eq!(all[0].id, "t2");
}

#[test]
fn removing_one_terminal_does_not_affect_others() {
    let mut pm = Manager::new();
    for i in 0..5 {
        pm.register_terminal_for_test(make_instance(
            &format!("t{}", i),
            &format!("p{}", i),
            &format!("project-{}", i),
        ));
    }
    pm.remove("t2");
    let all = pm.get_all();
    assert_eq!(all.len(), 4);
    assert!(all.iter().all(|t| t.id != "t2"));
}

#[test]
fn toggle_notification_enabled() {
    let mut pm = Manager::new();
    pm.register_terminal_for_test(make_instance("t1", "p1", "test"));
    let all = pm.get_all();
    assert!(all[0].notification_enabled);
    pm.toggle_notification("t1").unwrap();
    let all = pm.get_all();
    assert!(!all[0].notification_enabled);
    pm.toggle_notification("t1").unwrap();
    let all = pm.get_all();
    assert!(all[0].notification_enabled);
}

#[test]
fn toggle_notification_returns_error_for_unknown_terminal() {
    let mut pm = Manager::new();
    assert!(pm.toggle_notification("nonexistent").is_err());
}

#[test]
fn rename_checks_the_name_and_the_terminal() {
    let mut pm = Manager::new();
    pm.register_terminal_for_test(make_instance("t1", "p1", "test"));
    assert_eq!(pm.rename("t1", "Build-2").unwrap().terminal_name, "Build-2");
    assert!(pm.rename("t1", "bad/name").is_err());
    assert!(pm.rename("t9", "ok").is_err());
    assert_eq!(pm.get_all()[0].terminal_name, "Build-2");
}

#[test]
fn close_stops_reminder_for_closed_terminal() {
    let mut pm = Manager::new();
    let mut reminder = Reminder::new_for_test();
    pm.register_terminal_for_test(make_instance("t1", "p1", "test-project"));
    reminder.insert_fake_active("t1");
    assert!(reminder.has_active("t1"), "precondition: reminder should be active");
    close_and_stop_reminder(&mut pm, &mut reminder, "t1");
    assert!(!reminder.has_active("t1"), "reminder should be stopped after close");
    assert!(pm.get_all().is_empty());
}

#[test]
fn close_stops_only_closed_terminal_reminder_others_remain() {
    let mut pm = Manager::new();
    let mut reminder = Reminder::new_for_test();
    pm.register_terminal_for_test(make_instance("t1", "p1", "project-a"));
    pm.register_terminal_for_test(make_instance("t2", "p2", "project-b"));
    reminder.insert_fake_active("t1");
    reminder.insert_fake_active("t2");
    assert_eq!(reminder.active_count(), 2);
    close_and_stop_reminder(&mut pm, &mut reminder, "t1");
    assert!(!reminder.has_active("t1"), "closed terminal's reminder should be stopped");
    assert!(reminder.has_active("t2"), "other terminal's reminder should remain active");
}

#[test]
fn monitoring_loop_batch_close_stops_all_closed_reminders() {
    let mut pm = Manager::new();
    let mut reminder = Reminder::new_for_test();
    pm.register_terminal_for_test(make_instance("t1", "p1", "project-a"));
    pm.register_terminal_for_test(make_instance("t2", "p2", "project-b"));
    pm.register_terminal_for_test(make_instance("t3", "p3", "project-c"));
    reminder.insert_fake_active("t1");
    reminder.insert_fake_active("t2");
    reminder.insert_fake_active("t3");
    assert_eq!(reminder.active_count(), 3);
    let closed_ids = vec!["t1".to_string(), "t3".to_string()];
    for id in &closed_ids {
        pm.remove(id);
    }
    stop_reminders_for_closed(&mut reminder, &closed_ids);
    assert!(!reminder.has_active("t1"), "closed t1 reminder should be stopped");
    assert!(reminder.has_active("t2"), "surviving t2 reminder should remain active");
    assert!(!reminder.has_active("t3"), "closed t3 reminder should be stopped");
}

#[test]
fn close_plan_and_action() {
    let mut pm = Manager::new();
    pm.register_terminal_for_test(make_instance("t1", "p1", "a"));
    pm.register_terminal_for_test(make_instance("t2", "p1", "a"));
    pm.set_hwnd("t1", 7);
    pm.set_hwnd("t2", 7);
    let plan = pm.remove_for_close("t1").unwrap();
    assert!(plan.siblings_in_same_hwnd);
    assert_eq!(plan.effective_index, 0);
    assert_eq!(close_action(&plan, true, 2), CloseAction::CloseTab);
    assert_eq!(close_action(&plan, false, 2), CloseAction::KillProcess);
    let plan2 = pm.remove_for_close("t2").unwrap();
    assert!(!plan2.siblings_in_same_hwnd);
    assert_eq!(close_action(&plan2, true, 1), CloseAction::CloseWindow);
    assert!(pm.remove_for_close("t2").is_err());
}

// ---------------------------------------------------------------------------
// Attaching outside tabs.
// ---------------------------------------------------------------------------

#[test]
fn attach_terminal_creates_instance_with_attached_true() {
    let mut pm = Manager::new();
    let dir = test_dir();
    let result = pm.attach_terminal(12345, vec![1, 2, 3], "proj-1", "my-project", &dir, "ko", is_dir(&dir));
    assert!(result.is_ok());
    let instance = result.unwrap();
    assert!(instance.attached);
    assert_eq!(instance.project_id, "proj-1");
    assert_eq!(instance.project_name, "my-project");
    assert_eq!(instance.project_path, test_dir());
    assert_eq!(instance.status, Status::Running);
    assert_eq!(instance.activity, Activity::Active);
    assert!(instance.notification_enabled);
    assert!(!instance.monitored);
}

#[test]
fn attach_terminal_adds_to_terminal_list() {
    let mut pm = Manager::new();
    let dir = test_dir();
    pm.attach_terminal(99999, vec![10], "p1", "test", &dir, "en", is_dir(&dir)).unwrap();
    let all = pm.get_all();
    assert_eq!(all.len(), 1);
    assert!(all[0].attached);
}

#[test]
fn attach_terminal_has_correct_managed_terminal_fields() {
    let mut pm = Manager::new();
    let dir = test_dir();
    let instance = pm.attach_terminal(FAKE_ATTACH_HWND, vec![7, 8], "p1", "test", &dir, "ko", is_dir(&dir)).unwrap();
    let mt = pm.get(&instance.id).unwrap();
    assert_eq!(mt.hwnd, Some(FAKE_ATTACH_HWND));
    assert_eq!(mt.runtime_id, Some(vec![7, 8]));
    assert!(mt.tab_renamed);
    assert!(mt.instance.attached);
}

#[test]
fn attach_terminal_terminal_name_in_korean() {
    let mut pm = Manager::new();
    let dir = test_dir();
    let instance = pm.attach_terminal(1, vec![1], "p1", "test", &dir, "ko", is_dir(&dir)).unwrap();
    assert!(instance.terminal_name.contains("터미널"));
}

#[test]
fn attach_terminal_terminal_name_in_english() {
    let mut pm = Manager::new();
    let dir = test_dir();
    let instance = pm.attach_terminal(1, vec![1], "p1", "test", &dir, "en", is_dir(&dir)).unwrap();
    assert!(instance.terminal_name.contains("Terminal"));
}

#[test]
fn attached_terminal_has_no_child_process() {
    let mut pm = Manager::new();
    let dir = test_dir();
    let instance = pm.attach_terminal(FAKE_AOT_HWND, vec![1], "p1", "test", &dir, "ko", is_dir(&dir)).unwrap();
    let mt = pm.get(&instance.id).unwrap();
    assert!(mt.attached);
    assert_eq!(mt.hwnd, Some(FAKE_AOT_HWND));
}

#[test]
fn attach_terminal_rejects_bad_input() {
    let mut pm = Manager::new();
    assert!(pm.attach_terminal(1, vec![1], "p/1", "test", "C:\\x", "en", true).is_err());
    match pm.attach_terminal(1, vec![1], "p1", "test", "C:\\missing", "en", false) {
        Err(termi::error::AppError::Validation(m)) => assert_eq!(m, "Invalid project path: C:\\missing"),
        _ => panic!("expected a validation error"),
    }
    assert!(pm.get_all().is_empty());
}

#[test]
fn second_terminal_of_a_project_is_numbered_after_the_first() {
    let mut pm = Manager::new();
    let dir = test_dir();
    let a = pm.attach_terminal(1, vec![1], "p1", "test", &dir, "en", true).unwrap();
    let b = pm.attach_terminal(1, vec![2], "p1", "test", &dir, "en", true).unwrap();
    assert_eq!(a.terminal_name, "Terminal 1");
    assert_eq!(b.terminal_name, "Terminal 2");
    assert_eq!(pm.get(&b.id).unwrap().tab_index, 1);
}

fn tab(rid: Vec<i32>, title: &str) -> TabInfo {
    TabInfo { runtime_id: rid, title: title.to_string() }
}

#[test]
fn discover_external_terminals_returns_vec() {
    let pm = Manager::new();
    let result = pm.discover_external_terminals(&vec![]);
    assert!(result.is_empty());
}

#[test]
fn discover_external_terminals_excludes_managed_hwnds() {
    let mut pm = Manager::new();
    pm.register_terminal_for_test(make_instance("t1", "p1", "test"));
    pm.set_hwnd("t1", FAKE_EXCLUDED_HWND);
    let windows = vec![
        ExternalTerminalInfo {
            hwnd: FAKE_EXCLUDED_HWND,
            window_title: "w".to_string(),
            tabs: vec![tab(vec![1], "a")],
            process_cwds: vec![],
        },
        ExternalTerminalInfo {
            hwnd: 5,
            window_title: "other".to_string(),
            tabs: vec![tab(vec![2], "b")],
            process_cwds: vec!["C:\\x".to_string()],
        },
    ];
    let result = pm.discover_external_terminals(&windows);
    assert!(result.iter().all(|info| info.hwnd != FAKE_EXCLUDED_HWND));
    assert_eq!(result.len(), 1);
    assert_eq!(result[0].process_cwds, vec!["C:\\x".to_string()]);
}

#[test]
fn discover_keeps_only_unmanaged_tabs() {
    let mut pm = Manager::new();
    let dir = test_dir();
    pm.attach_terminal(5, vec![1], "p1", "test", &dir, "en", true).unwrap();
    let windows = vec![ExternalTerminalInfo {
        hwnd: 5,
        window_title: "w".to_string(),
        tabs: vec![tab(vec![1], "managed"), tab(vec![2], "free")],
        process_cwds: vec![],
    }];
    let result = pm.discover_external_terminals(&windows);
    assert_eq!(result.len(), 1);
    assert_eq!(result[0].tabs.len(), 1);
    assert_eq!(result[0].tabs[0].title, "free");
}

#[test]
fn auto_attach_returns_empty_when_disabled() {
    let mut pm = Manager::new();
    let projects = vec![];
    let result = pm.auto_attach_on_startup(false, &projects, &vec![], &vec![], "ko");
    assert!(result.is_ok());
    assert!(result.unwrap().is_empty());
}

#[test]
fn auto_attach_returns_empty_when_no_projects() {
    let mut pm = Manager::new();
    let projects = vec![];
    let result = pm.auto_attach_on_startup(true, &projects, &vec![], &vec![], "ko");
    assert!(result.is_ok());
    assert!(result.unwrap().is_empty());
}

#[test]
fn auto_attach_matches_termi_prefix_tab() {
    let mut pm = Manager::new();
    let projects = vec![info("p1", "my-project", "C:\\projects\\my-project")];
    let externals = vec![ExternalTerminalInfo {
        hwnd: 42,
        window_title: "w".to_string(),
        tabs: vec![tab(vec![9], "termi: my-project"), tab(vec![10], "PowerShell")],
        process_cwds: vec![],
    }];
    let result = pm.auto_attach_on_startup(true, &projects, &externals, &vec![true], "ko");
    assert!(result.is_ok());
    let attached = result.unwrap();
    assert_eq!(attached.len(), 1);
    assert_eq!(attached[0].project_id, "p1");
    let mt = pm.get(&attached[0].id).unwrap();
    assert!(!mt.tab_renamed);
    assert_eq!(mt.runtime_id, Some(vec![9]));
}

#[test]
fn auto_attach_stops_at_a_project_folder_that_is_gone() {
    let mut pm = Manager::new();
    let projects = vec![info("p1", "a", "C:\\a")];
    let externals = vec![ExternalTerminalInfo {
        hwnd: 42,
        window_title: "w".to_string(),
        tabs: vec![tab(vec![1], "C:\\a")],
        process_cwds: vec![],
    }];
    let plans = plan_auto_attach(true, &projects, &externals);
    assert_eq!(plans.len(), 1);
    assert!(!plans[0].title_prefixed);
    let result = pm.auto_attach_on_startup(true, &projects, &externals, &vec![false], "en");
    assert!(result.is_err());
    assert!(pm.get_all().is_empty());
}

#[test]
fn focusing_an_idle_terminal_makes_it_active() {
    let mut pm = Manager::new();
    let mut inst = make_instance("t1", "p1", "a");
    inst.activity = Activity::Idle;
    inst.last_idle_at = Some("1710500000Z".to_string());
    pm.register_terminal_for_test(inst);
    let f = pm.focus_target("t1", false).unwrap();
    assert_eq!(f.instance.activity, Activity::Active);
    let stored = pm.get("t1").unwrap();
    assert_eq!(stored.instance.activity, Activity::Active);
    assert_eq!(stored.pending_active_since, None);
    assert_eq!(stored.instance.last_idle_at.as_deref(), Some("1710500000Z"));
}

#[test]
fn focusing_a_terminal_whose_window_closed_is_refused() {
    let mut pm = Manager::new();
    let mut inst = make_instance("t1", "p1", "a");
    inst.activity = Activity::Idle;
    pm.register_terminal_for_test(inst);
    // No window known yet: the terminal is focused as usual.
    assert!(pm.focus_target("t1", true).is_ok());
    pm.set_hwnd("t1", 42);
    match pm.focus_target("t1", true) {
        Err(AppError::Terminal(m)) => assert_eq!(m, "터미널 창이 닫혔습니다: t1"),
        other => panic!("unexpected: {other:?}"),
    }
}
