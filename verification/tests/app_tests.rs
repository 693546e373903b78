use portman::app::{action_at, auto_refresh_due, Action, App, Effect, ScanPoll, View, ACTION_COUNT, IDLE_MS, REFRESH_MS};
use portman::ui::{footer_for, row_marker, scroll_indicator, Footer};
use portman::event::{handle_key, Key, KeyPress};
use portman::scanner::PortInfo;

fn info(port: u16, pid: u32, fw: &str, lang: &str, project: &str) -> PortInfo {
    PortInfo {
        port,
        pid,
        name: "node".into(),
        cmdline: "node x".into(),
        start_cmd: "npm run dev".into(),
        cwd: None,
        project: project.into(),
        framework: fw.into(),
        language: lang.into(),
        user: "alice".into(),
    }
}

fn sample() -> Vec<PortInfo> {
    vec![
        info(22, 1, "Unknown", "Unknown", "—"),
        info(3000, 10, "Next.js", "JS/TS", "web"),
        info(3001, 10, "Next.js", "JS/TS", "web"),
        info(5432, 20, "Unknown", "Unknown", "db"),
        info(8000, 30, "FastAPI", "Python", "api"),
    ]
}

fn loaded() -> App {
    let mut app = App::new();
    app.check_scan(ScanPoll::Ready(sample()));
    app
}

fn ports(app: &App) -> Vec<u16> {
    app.entries.iter().map(|e| e.port).collect()
}

fn labels(app: &App) -> Vec<String> {
    app.filters.iter().map(|f| f.label.clone()).collect()
}

fn key(code: Key) -> KeyPress {
    KeyPress { code, ctrl: false }
}

#[test]
fn new_state() {
    let app = App::new();
    assert!(app.scanning);
    assert!(app.running);
    assert_eq!(labels(&app), vec!["Dev", "All"]);
    assert!(app.entries.is_empty());
    assert_eq!(app.table_height, 20);
    assert!(app.view == View::List);
}

#[test]
fn scan_result_builds_tabs_and_dev_list() {
    let app = loaded();
    assert!(!app.scanning);
    assert_eq!(labels(&app), vec!["Dev", "All", "JS/TS", "Python"]);
    assert_eq!(app.filter_idx, 0);
    assert_eq!(ports(&app), vec![3000, 8000]);
}

#[test]
fn scan_ignored_when_not_scanning() {
    let mut app = loaded();
    app.check_scan(ScanPoll::Ready(vec![]));
    assert_eq!(ports(&app), vec![3000, 8000]);
}

#[test]
fn scan_pending_and_closed() {
    let mut app = App::new();
    app.check_scan(ScanPoll::Pending);
    assert!(app.scanning);
    app.check_scan(ScanPoll::Closed);
    assert!(!app.scanning);
    assert!(app.entries.is_empty());
}

#[test]
fn cycle_filters_and_toast() {
    let mut app = loaded();
    app.cycle_filter_next();
    assert_eq!(app.filter_idx, 1);
    assert_eq!(ports(&app), vec![22, 3000, 3001, 5432, 8000]);
    assert_eq!(app.toast.as_ref().unwrap().message, "Filter: All");
    assert!(!app.toast.as_ref().unwrap().is_error);
    app.cycle_filter_next();
    assert_eq!(ports(&app), vec![3000, 3001]);
    app.cycle_filter_next();
    app.cycle_filter_next();
    assert_eq!(app.filter_idx, 0);
    app.cycle_filter_prev();
    assert_eq!(app.filter_idx, 3);
    assert_eq!(ports(&app), vec![8000]);
    assert_eq!(app.toast.as_ref().unwrap().message, "Filter: Python");
}

#[test]
fn cycle_round_trip_restores_list() {
    let mut app = loaded();
    app.cycle_filter_next();
    app.cycle_filter_next();
    let before = ports(&app);
    let idx = app.filter_idx;
    app.cycle_filter_next();
    app.cycle_filter_prev();
    assert_eq!(app.filter_idx, idx);
    assert_eq!(ports(&app), before);
    app.cycle_filter_prev();
    app.cycle_filter_next();
    assert_eq!(ports(&app), before);
}

#[test]
fn search_filters_by_fields() {
    let mut app = loaded();
    app.cycle_filter_next(); // All
    app.search_open();
    assert!(app.searching);
    app.search_push('5');
    assert_eq!(app.search_query, "5");
    assert_eq!(ports(&app), vec![5432]);
    app.search_pop();
    assert_eq!(ports(&app), vec![22, 3000, 3001, 5432, 8000]);
    app.search_push('A');
    app.search_push('P');
    // "ap" matches project "api" and framework "FastAPI"
    assert_eq!(ports(&app), vec![8000]);
    app.search_confirm();
    assert!(!app.searching);
    assert_eq!(app.search_query, "AP");
    app.search_cancel();
    assert_eq!(app.search_query, "");
    assert_eq!(ports(&app), vec![22, 3000, 3001, 5432, 8000]);
}

#[test]
fn search_push_pop_round_trip() {
    let mut app = loaded();
    app.search_push('3');
    let before = ports(&app);
    let q = app.search_query.clone();
    app.search_push('z');
    assert!(app.entries.is_empty());
    app.search_pop();
    assert_eq!(app.search_query, q);
    assert_eq!(ports(&app), before);
}

#[test]
fn search_matches_pid_digits() {
    let mut app = loaded();
    app.cycle_filter_next();
    app.search_push('3');
    app.search_push('0');
    // port 3000/3001 and pid 30
    assert_eq!(ports(&app), vec![3000, 3001, 8000]);
}

#[test]
fn search_open_keeps_list_until_typing() {
    let mut app = loaded();
    app.search_push('8');
    assert_eq!(ports(&app), vec![8000]);
    app.search_open();
    assert_eq!(app.search_query, "");
    assert_eq!(ports(&app), vec![8000]);
}

#[test]
fn navigation_and_scrolling() {
    let mut app = App::new();
    let many: Vec<PortInfo> = (0..30).map(|i| info(4000 + i, 100 + i as u32, "Go", "Go", "g")).collect();
    app.check_scan(ScanPoll::Ready(many));
    app.table_height = 8; // five rows visible
    app.select_last();
    assert_eq!(app.selected, 29);
    assert_eq!(app.scroll_offset, 25);
    assert_eq!(app.visible_range(), 25..30);
    app.select_next();
    assert_eq!(app.selected, 29);
    app.select_first();
    assert_eq!((app.selected, app.scroll_offset), (0, 0));
    for _ in 0..6 {
        app.select_next();
    }
    assert_eq!(app.selected, 6);
    assert_eq!(app.scroll_offset, 2);
    app.select_prev();
    app.select_prev();
    app.select_prev();
    assert_eq!(app.selected, 3);
    assert_eq!(app.scroll_offset, 2);
    app.select_prev();
    app.select_prev();
    assert_eq!(app.scroll_offset, 1);
    assert_eq!(app.selected_entry().unwrap().port, 4001);
}

#[test]
fn visible_range_clamped_to_list() {
    let app = loaded();
    assert_eq!(app.visible_range(), 0..2);
}

#[test]
fn rescan_keeps_selected_port() {
    let mut app = loaded();
    app.select_next();
    assert_eq!(app.selected_entry().unwrap().port, 8000);
    app.refresh();
    let mut next = sample();
    next.insert(1, info(2999, 40, "Vite", "JS/TS", "ui"));
    app.check_scan(ScanPoll::Ready(next));
    assert_eq!(ports(&app), vec![2999, 3000, 8000]);
    assert_eq!(app.selected_entry().unwrap().port, 8000);
}

#[test]
fn rescan_clamps_selection() {
    let mut app = loaded();
    app.select_next();
    assert!(app.refresh());
    assert!(!app.refresh());
    app.check_scan(ScanPoll::Ready(vec![info(3000, 10, "Next.js", "JS/TS", "web")]));
    assert_eq!(app.selected, 0);
    assert_eq!(labels(&app), vec!["Dev", "All", "JS/TS"]);
}

#[test]
fn rescan_keeps_tab_or_falls_back() {
    let mut app = loaded();
    app.cycle_filter_prev(); // Python
    assert_eq!(app.filter_idx, 3);
    app.refresh();
    app.check_scan(ScanPoll::Ready(vec![
        info(1, 1, "Gin", "Go", "a"),
        info(2, 2, "FastAPI", "Python", "b"),
    ]));
    assert_eq!(labels(&app), vec!["Dev", "All", "Go", "Python"]);
    assert_eq!(app.filter_idx, 3);
    app.refresh();
    app.check_scan(ScanPoll::Ready(vec![info(1, 1, "Gin", "Go", "a")]));
    assert_eq!(app.filter_idx, 0);
}

#[test]
fn actions_panel() {
    let mut app = loaded();
    app.open_actions();
    assert!(app.view == View::Actions);
    assert_eq!(app.action_idx, 0);
    app.action_prev();
    assert_eq!(app.action_idx, 0);
    for _ in 0..10 {
        app.action_next();
    }
    assert_eq!(app.action_idx, ACTION_COUNT - 1);
    assert!(action_at(app.action_idx) == Action::Back);
    assert!(!app.execute_action());
    assert!(app.view == View::List);
    app.open_actions();
    app.action_next();
    assert!(!app.execute_action());
    assert!(app.view == View::Confirm);
    assert!(app.confirm_force);
    assert_eq!(app.kill_target(), Some((3000, true)));
    app.go_back();
    assert!(app.view == View::Actions);
    app.go_back();
    assert!(app.view == View::List);
    app.go_back();
    assert!(app.view == View::List);
}

#[test]
fn refresh_action_asks_for_scan() {
    let mut app = loaded();
    app.open_actions();
    app.action_next();
    app.action_next();
    assert!(app.execute_action());
    assert!(app.scanning);
    assert_eq!(app.toast.as_ref().unwrap().message, "Refreshed");
    assert!(app.view == View::List);
}

#[test]
fn open_actions_needs_entries() {
    let mut app = App::new();
    app.open_actions();
    assert!(app.view == View::List);
}

#[test]
fn kill_report_toast() {
    let mut app = loaded();
    app.view = View::Confirm;
    assert!(app.do_kill(Some((false, "Failed".to_string()))));
    assert!(app.toast.as_ref().unwrap().is_error);
    assert_eq!(app.toast.as_ref().unwrap().message, "Failed");
    assert!(app.view == View::List);
    app.view = View::Confirm;
    assert!(!app.do_kill(None));
    assert!(app.view == View::List);
}

#[test]
fn toast_expiry() {
    let mut app = loaded();
    app.set_toast("hi".to_string(), false);
    app.expire_toast(2);
    assert!(app.toast.is_some());
    app.tick_toast();
    assert!(app.toast.is_some());
    app.expire_toast(3);
    assert!(app.toast.is_none());
}

#[test]
fn labels_of_actions() {
    assert_eq!(Action::Kill.label(), "Kill (SIGTERM)");
    assert_eq!(Action::ForceKill.label(), "Force Kill (SIGKILL)");
    assert_eq!(Action::Refresh.label(), "Refresh");
    assert_eq!(Action::Back.label(), "Back");
}

#[test]
fn keys_quit_and_ctrl_c() {
    let mut app = loaded();
    assert_eq!(handle_key(&mut app, KeyPress { code: Key::Char('c'), ctrl: true }), (false, Effect::Nothing));
    assert!(!app.running);
    let mut app = loaded();
    assert_eq!(handle_key(&mut app, key(Key::Char('q'))), (false, Effect::Nothing));
    assert!(!app.running);
}

#[test]
fn keys_escape_clears_search_first() {
    let mut app = loaded();
    handle_key(&mut app, key(Key::Char('/')));
    handle_key(&mut app, key(Key::Char('x')));
    assert_eq!(app.search_query, "x");
    handle_key(&mut app, key(Key::Enter));
    assert!(!app.searching);
    assert_eq!(handle_key(&mut app, key(Key::Esc)), (true, Effect::Nothing));
    assert!(app.running);
    assert_eq!(app.search_query, "");
    assert_eq!(handle_key(&mut app, key(Key::Esc)), (false, Effect::Nothing));
}

#[test]
fn keys_navigation_and_kill_flow() {
    let mut app = loaded();
    handle_key(&mut app, key(Key::Tab));
    assert_eq!(app.filter_idx, 1);
    handle_key(&mut app, key(Key::PageDown));
    assert_eq!(app.selected, 4);
    handle_key(&mut app, key(Key::Char('g')));
    assert_eq!(app.selected, 0);
    handle_key(&mut app, key(Key::Char('j')));
    handle_key(&mut app, key(Key::Right));
    assert!(app.view == View::Actions);
    handle_key(&mut app, key(Key::Enter));
    assert!(app.view == View::Confirm);
    assert_eq!(
        handle_key(&mut app, key(Key::Char('y'))),
        (true, Effect::Kill { port: 3000, force: false })
    );
    assert!(app.view == View::Confirm);
    assert!(app.do_kill(Some((true, "Killed".to_string()))));
    assert!(app.view == View::List);
    assert!(app.scanning);
}

#[test]
fn keys_refresh_effect() {
    let mut app = loaded();
    handle_key(&mut app, key(Key::Enter));
    handle_key(&mut app, key(Key::Down));
    handle_key(&mut app, key(Key::Down));
    assert_eq!(handle_key(&mut app, key(Key::Enter)), (true, Effect::Scan));
    app.open_actions();
    handle_key(&mut app, key(Key::Down));
    handle_key(&mut app, key(Key::Down));
    // a scan is already under way
    assert_eq!(handle_key(&mut app, key(Key::Enter)), (true, Effect::Nothing));
}

#[test]
fn keys_ignored() {
    let mut app = loaded();
    assert_eq!(handle_key(&mut app, key(Key::Other)), (true, Effect::Nothing));
    assert_eq!(handle_key(&mut app, key(Key::Char('z'))), (true, Effect::Nothing));
    assert_eq!(handle_key(&mut app, key(Key::BackTab)), (true, Effect::Nothing));
    assert_eq!(app.filter_idx, 3);
    handle_key(&mut app, key(Key::PageUp));
    assert_eq!(app.selected, 0);
    handle_key(&mut app, key(Key::End));
    assert_eq!(app.selected, 0);
}

#[test]
fn force_kill_confirmed_with_sigkill() {
    let mut app = loaded();
    handle_key(&mut app, key(Key::Down));
    handle_key(&mut app, key(Key::Enter));
    handle_key(&mut app, key(Key::Down));
    assert_eq!(handle_key(&mut app, key(Key::Enter)), (true, Effect::Nothing));
    assert!(app.confirm_force);
    assert_eq!(
        handle_key(&mut app, key(Key::Enter)),
        (true, Effect::Kill { port: 8000, force: true })
    );
    assert_eq!(handle_key(&mut app, key(Key::Char('n'))), (true, Effect::Nothing));
    assert!(app.view == View::Actions);
}

#[test]
fn typing_q_while_searching_is_text() {
    let mut app = loaded();
    handle_key(&mut app, key(Key::Char('/')));
    assert_eq!(handle_key(&mut app, key(Key::Char('q'))), (true, Effect::Nothing));
    assert!(app.running);
    assert_eq!(app.search_query, "q");
    handle_key(&mut app, key(Key::Backspace));
    assert_eq!(app.search_query, "");
    handle_key(&mut app, key(Key::Esc));
    assert!(!app.searching);
}

#[test]
fn listed_entries_come_from_scan() {
    let mut app = loaded();
    for _ in 0..4 {
        let scanned = sample();
        for e in &app.entries {
            assert!(scanned.iter().any(|s| s.port == e.port && s.pid == e.pid));
        }
        app.cycle_filter_next();
    }
}

#[test]
fn dev_tab_one_entry_per_process() {
    let app = loaded();
    let mut pids: Vec<u32> = app.entries.iter().map(|e| e.pid).collect();
    let n = pids.len();
    pids.dedup();
    assert_eq!(pids.len(), n);
    assert!(app.entries.iter().all(|e| e.framework != "Unknown"));
}

#[test]
fn auto_refresh_rule() {
    assert_eq!((REFRESH_MS, IDLE_MS), (3000, 500));
    assert!(auto_refresh_due(3000, 500, false));
    assert!(!auto_refresh_due(2999, 10_000, false));
    assert!(!auto_refresh_due(10_000, 499, false));
    assert!(!auto_refresh_due(10_000, 10_000, true));
}

#[test]
fn footer_by_mode() {
    let mut app = loaded();
    assert_eq!(footer_for(&app), Footer::List);
    app.search_open();
    assert_eq!(footer_for(&app), Footer::SearchInput);
    app.search_push('w');
    app.search_confirm();
    assert_eq!(footer_for(&app), Footer::SearchActive);
    app.open_actions();
    assert_eq!(footer_for(&app), Footer::Actions);
    app.view = View::Confirm;
    assert_eq!(footer_for(&app), Footer::Confirm);
}

#[test]
fn row_marker_and_position() {
    assert_eq!(row_marker(2, 2), "▸ ");
    assert_eq!(row_marker(2, 3), "  ");
    assert_eq!(scroll_indicator(4, 10, 8), Some((5, 10)));
    assert_eq!(scroll_indicator(4, 6, 8), None);
    assert_eq!(scroll_indicator(0, 1, 0), Some((1, 1)));
}

#[test]
fn cycling_without_tabs_changes_nothing() {
    let mut app = loaded();
    app.filters.clear();
    app.cycle_filter_next();
    app.cycle_filter_prev();
    assert_eq!(app.filter_idx, 0);
    assert!(app.toast.is_none());
}

#[test]
fn scan_keeps_out_of_range_tab_index() {
    let mut app = App::new();
    app.filters.clear();
    app.filter_idx = 1;
    app.check_scan(ScanPoll::Ready(sample()));
    assert_eq!(app.filter_idx, 1);
    assert_eq!(labels(&app), vec!["Dev", "All", "JS/TS", "Python"]);
    assert_eq!(ports(&app).len(), 5);
}
