use termi::models::{Activity, Instance, Status, TabInfo};
use termi::monitor::compute_terminal_order;
use termi::terminals::{ManagedTerminal, Manager};

fn make_mt(id: &str, runtime_id: Option<Vec<i32>>) -> ManagedTerminal {
    ManagedTerminal {
        instance: Instance {
            id: id.to_string(),
            project_id: "p1".to_string(),
            project_name: "test".to_string(),
            project_path: "C:\\test".to_string(),
            terminal_name: format!("Terminal {}", id),
            status: Status::Running,
            launched_at: "2024-01-01T00:00:00Z".to_string(),
            activity: Activity::Active,
            notification_enabled: true,
            monitored: false,
            attached: false,
            last_idle_at: None,
        },
        hwnd: Some(1000),
        tab_index: 0,
        runtime_id,
        title_tracking: false,
        pending_active_since: None,
        hook_session_id: None,
        tab_renamed: false,
        attached: false,
    }
}

fn tab(rid: Vec<i32>, title: &str) -> TabInfo {
    TabInfo { runtime_id: rid, title: title.to_string() }
}

fn ids(v: &[&str]) -> Vec<String> {
    v.iter().map(|s| s.to_string()).collect()
}

#[test]
fn empty_data_returns_empty() {
    let uia_data: Vec<(isize, Vec<TabInfo>)> = vec![];
    let terminals: Vec<ManagedTerminal> = vec![];
    let result = compute_terminal_order(&uia_data, &terminals);
    assert!(result.is_empty());
}

#[test]
fn single_terminal_is_excluded() {
    let hwnd: isize = 1000;
    let rid = vec![1, 2, 3];
    let uia_data = vec![(hwnd, vec![tab(rid.clone(), "tab1")])];
    let terminals = vec![make_mt("t1", Some(rid))];
    let result = compute_terminal_order(&uia_data, &terminals);
    assert!(result.is_empty(), "단일 터미널은 결과에 포함되지 않아야 함");
}

#[test]
fn multiple_terminals_ordered_by_uia_tab_position() {
    let hwnd: isize = 2000;
    let rid1 = vec![10, 20];
    let rid2 = vec![10, 30];
    let rid3 = vec![10, 40];
    let uia_data = vec![(hwnd, vec![
        tab(rid1.clone(), "tab A"),
        tab(rid2.clone(), "tab B"),
        tab(rid3.clone(), "tab C"),
    ])];
    let mut mt1 = make_mt("t1", Some(rid1));
    mt1.hwnd = Some(hwnd);
    let mut mt2 = make_mt("t2", Some(rid2));
    mt2.hwnd = Some(hwnd);
    let mut mt3 = make_mt("t3", Some(rid3));
    mt3.hwnd = Some(hwnd);
    let terminals = vec![mt3, mt1, mt2];
    let result = compute_terminal_order(&uia_data, &terminals);
    assert_eq!(result.len(), 1);
    assert_eq!(result[0].0, hwnd);
    assert_eq!(result[0].1, ids(&["t1", "t2", "t3"]));
}

#[test]
fn unmanaged_tabs_are_skipped() {
    let hwnd: isize = 3000;
    let rid1 = vec![5, 1];
    let rid_unmanaged = vec![5, 2];
    let rid3 = vec![5, 3];
    let uia_data = vec![(hwnd, vec![
        tab(rid1.clone(), "managed tab 1"),
        tab(rid_unmanaged, "external tab"),
        tab(rid3.clone(), "managed tab 2"),
    ])];
    let mut mt1 = make_mt("t1", Some(rid1));
    mt1.hwnd = Some(hwnd);
    let mut mt3 = make_mt("t3", Some(rid3));
    mt3.hwnd = Some(hwnd);
    let terminals = vec![mt1, mt3];
    let result = compute_terminal_order(&uia_data, &terminals);
    assert_eq!(result.len(), 1);
    assert_eq!(result[0].1, ids(&["t1", "t3"]));
}

#[test]
fn terminals_without_runtime_id_are_skipped() {
    let hwnd: isize = 4000;
    let rid1 = vec![7, 1];
    let rid2 = vec![7, 2];
    let uia_data = vec![(hwnd, vec![tab(rid1.clone(), "tab 1"), tab(rid2, "tab 2")])];
    let mut mt1 = make_mt("t1", Some(rid1));
    mt1.hwnd = Some(hwnd);
    let mut mt2 = make_mt("t2", None);
    mt2.hwnd = Some(hwnd);
    let terminals = vec![mt1, mt2];
    let result = compute_terminal_order(&uia_data, &terminals);
    assert!(result.is_empty(), "RuntimeId 없는 터미널은 매칭 불가 → 1개만 매칭되면 제외");
}

#[test]
fn multiple_hwnds_each_tracked_independently() {
    let hwnd_a: isize = 5000;
    let hwnd_b: isize = 6000;
    let uia_data = vec![
        (hwnd_a, vec![tab(vec![1, 1], "a-tab1"), tab(vec![1, 2], "a-tab2")]),
        (hwnd_b, vec![tab(vec![2, 1], "b-tab1"), tab(vec![2, 2], "b-tab2")]),
    ];
    let mut ta1 = make_mt("ta1", Some(vec![1, 1]));
    ta1.hwnd = Some(hwnd_a);
    let mut ta2 = make_mt("ta2", Some(vec![1, 2]));
    ta2.hwnd = Some(hwnd_a);
    let mut tb1 = make_mt("tb1", Some(vec![2, 1]));
    tb1.hwnd = Some(hwnd_b);
    let mut tb2 = make_mt("tb2", Some(vec![2, 2]));
    tb2.hwnd = Some(hwnd_b);
    let terminals = vec![ta1, ta2, tb1, tb2];
    let result = compute_terminal_order(&uia_data, &terminals);
    assert_eq!(result.len(), 2);
    let a = result.iter().find(|(h, _)| *h == hwnd_a).unwrap();
    let b = result.iter().find(|(h, _)| *h == hwnd_b).unwrap();
    assert_eq!(a.1, ids(&["ta1", "ta2"]));
    assert_eq!(b.1, ids(&["tb1", "tb2"]));
}

#[test]
fn uia_hwnd_with_no_matching_terminals_excluded() {
    let hwnd: isize = 7000;
    let uia_data = vec![(hwnd, vec![tab(vec![9, 1], "tab 1"), tab(vec![9, 2], "tab 2")])];
    let terminals: Vec<ManagedTerminal> = vec![];
    let result = compute_terminal_order(&uia_data, &terminals);
    assert!(result.is_empty());
}

// ---------------------------------------------------------------------------
// Rounds of watching.
// ---------------------------------------------------------------------------

fn manager_with(mts: Vec<ManagedTerminal>) -> Manager {
    let mut m = Manager::new();
    for mt in mts {
        m.insert(mt);
    }
    m
}

#[test]
fn running_windows_lists_each_window_once() {
    let mut a = make_mt("a", None);
    a.hwnd = Some(1);
    let mut b = make_mt("b", None);
    b.hwnd = Some(1);
    let mut c = make_mt("c", None);
    c.hwnd = Some(2);
    c.instance.status = Status::Stopped;
    let mut d = make_mt("d", None);
    d.hwnd = None;
    let m = manager_with(vec![a, b, c, d]);
    assert_eq!(m.running_windows(), vec![1]);
}

#[test]
fn round_closes_terminals_of_dead_windows_and_lost_tabs() {
    let mut a = make_mt("a", Some(vec![1]));
    a.hwnd = Some(10);
    let mut b = make_mt("b", Some(vec![2]));
    b.hwnd = Some(20);
    let mut c = make_mt("c", Some(vec![3]));
    c.hwnd = Some(20);
    let mut m = manager_with(vec![a, b, c]);
    let mut prev: Vec<(isize, Vec<String>)> = vec![];
    let uia = vec![(20, vec![tab(vec![3], "termi: x")])];
    let report = m.monitor_step(&uia, &vec![], &vec![10], &mut prev, 1000, "1Z");
    assert_eq!(report.closed_ids, ids(&["a", "b"]));
    let left: Vec<String> = m.get_all().into_iter().map(|i| i.id).collect();
    assert_eq!(left, ids(&["c"]));
    assert!(report.transitions.is_empty());
    assert!(report.order_changed.is_none());
}

#[test]
fn round_assigns_unclaimed_tabs_in_tab_index_order() {
    let mut a = make_mt("a", None);
    a.hwnd = Some(5);
    a.tab_index = 1;
    let mut b = make_mt("b", None);
    b.hwnd = Some(5);
    b.tab_index = 0;
    let mut c = make_mt("c", Some(vec![7]));
    c.hwnd = Some(5);
    let mut m = manager_with(vec![a, b, c]);
    let mut prev: Vec<(isize, Vec<String>)> = vec![];
    let uia = vec![(5, vec![tab(vec![7], "seven"), tab(vec![8], "eight"), tab(vec![9], "nine")])];
    let report = m.monitor_step(&uia, &vec![], &vec![], &mut prev, 0, "0Z");
    assert!(report.closed_ids.is_empty());
    assert_eq!(m.get("b").unwrap().runtime_id, Some(vec![8]));
    assert_eq!(m.get("a").unwrap().runtime_id, Some(vec![9]));
    // The order changed from nothing: tab indices follow the positions.
    assert_eq!(report.order_changed, Some(ids(&["c", "b", "a"])));
    assert_eq!(m.get("c").unwrap().tab_index, 0);
    assert_eq!(m.get("b").unwrap().tab_index, 1);
    assert_eq!(m.get("a").unwrap().tab_index, 2);
    assert_eq!(prev, vec![(5, ids(&["c", "b", "a"]))]);
    // The same tabs again: nothing is reported.
    let again = m.monitor_step(&uia, &vec![], &vec![], &mut prev, 0, "0Z");
    assert!(again.order_changed.is_none());
}

#[test]
fn round_watches_the_idle_marker_with_debounce() {
    let mut a = make_mt("a", Some(vec![1]));
    a.hwnd = Some(5);
    let mut m = manager_with(vec![a]);
    let mut prev: Vec<(isize, Vec<String>)> = vec![];
    let idle = vec![(5, vec![tab(vec![1], "\u{2733} termi: test")])];
    let busy = vec![(5, vec![tab(vec![1], "termi: test")])];

    let r1 = m.monitor_step(&idle, &vec![], &vec![], &mut prev, 1_000, "100Z");
    assert_eq!(r1.transitions.len(), 1);
    assert_eq!(r1.transitions[0].4, Activity::Idle);
    assert_eq!(r1.transitions[0].7, Some("100Z".to_string()));
    let mt = m.get("a").unwrap();
    assert!(mt.title_tracking);
    assert!(mt.instance.monitored);

    let r2 = m.monitor_step(&idle, &vec![], &vec![], &mut prev, 2_000, "101Z");
    assert!(r2.transitions.is_empty());

    // The marker goes away: the debounce starts.
    let r3 = m.monitor_step(&busy, &vec![], &vec![], &mut prev, 10_000, "110Z");
    assert!(r3.transitions.is_empty());
    assert_eq!(m.get("a").unwrap().pending_active_since, Some(10_000));
    let r4 = m.monitor_step(&busy, &vec![], &vec![], &mut prev, 12_999, "112Z");
    assert!(r4.transitions.is_empty());
    let r5 = m.monitor_step(&busy, &vec![], &vec![], &mut prev, 13_000, "113Z");
    assert_eq!(r5.transitions.len(), 1);
    assert_eq!(r5.transitions[0].4, Activity::Active);
    assert_eq!(m.get("a").unwrap().instance.activity, Activity::Active);
}

#[test]
fn round_detects_a_renamed_tab_and_uses_window_titles() {
    let mut a = make_mt("a", Some(vec![1]));
    a.hwnd = Some(5);
    let mut b = make_mt("b", None);
    b.hwnd = Some(6);
    let mut m = manager_with(vec![a, b]);
    let mut prev: Vec<(isize, Vec<String>)> = vec![];
    let uia = vec![(5, vec![tab(vec![1], "my build")])];
    let titles = vec![(6, "\u{2733} agent".to_string())];
    let r = m.monitor_step(&uia, &titles, &vec![], &mut prev, 0, "0Z");
    assert!(m.get("a").unwrap().tab_renamed);
    assert!(!m.get("b").unwrap().tab_renamed);
    assert_eq!(r.transitions.len(), 1);
    assert_eq!(r.transitions[0].0, "b");
}
