use sysmon::app::{ActivePanel, App, InputMode, KeyAction, KeyCode, KeyEvent, HISTORY_LEN};
use sysmon::network::NetworkStats;
use sysmon::process::{ProcessInfo, SortBy};

fn key(code: KeyCode) -> KeyEvent {
    KeyEvent { code, control: false }
}

fn ch(c: char) -> KeyEvent {
    key(KeyCode::Char(c))
}

fn proc_info(pid: u32, name: &str, cpu: f32) -> ProcessInfo {
    ProcessInfo { pid, name: name.to_string(), cpu_bits: cpu.to_bits(), memory: 0, status: String::new() }
}

fn procs() -> Vec<ProcessInfo> {
    vec![proc_info(5, "b", 1.0), proc_info(6, "a", 3.0), proc_info(7, "c", 2.0)]
}

#[test]
fn new_app_starts_running_in_normal_mode() {
    let app = App::new();
    assert!(app.running);
    assert_eq!(app.input_mode, InputMode::Normal);
    assert_eq!(app.active_panel, ActivePanel::Charts);
    assert_eq!(app.terminal_size, (0, 0));
    assert_eq!(app.selected_row, None);
    assert!(app.logs.is_empty());
    assert_eq!(app.net_rx_history.iter().len(), 0);
}

#[test]
fn capital_q_quits() {
    let mut app = App::new();
    assert_eq!(app.on_key(ch('Q'), &vec![]), KeyAction::Nothing);
    assert!(!app.running);
    assert_eq!(app.input_mode, InputMode::Normal);
    assert_eq!(app.active_panel, ActivePanel::Charts);
    assert!(app.logs.is_empty());
}

#[test]
fn capital_q_is_typed_while_editing() {
    let mut app = App::new();
    app.on_key(ch('/'), &vec![]);
    app.on_key(ch('Q'), &vec![]);
    assert!(app.running);
    assert_eq!(app.process.filter, "Q");
}

#[test]
fn q_quits_and_ctrl_c_quits() {
    let mut app = App::new();
    assert_eq!(app.on_key(ch('q'), &vec![]), KeyAction::Nothing);
    assert!(!app.running);

    let mut app = App::new();
    app.on_key(ch('c'), &vec![]);
    assert!(app.running);
    app.on_key(KeyEvent { code: KeyCode::Char('c'), control: true }, &vec![]);
    assert!(!app.running);
}

#[test]
fn l_and_h_toggle_panels() {
    let mut app = App::new();
    app.on_key(ch('l'), &vec![]);
    assert_eq!(app.active_panel, ActivePanel::Logs);
    app.on_key(ch('L'), &vec![]);
    assert_eq!(app.active_panel, ActivePanel::Charts);
    app.on_key(ch('h'), &vec![]);
    assert_eq!(app.active_panel, ActivePanel::History);
    app.on_key(ch('l'), &vec![]);
    assert_eq!(app.active_panel, ActivePanel::Logs);
    app.on_key(ch('H'), &vec![]);
    assert_eq!(app.active_panel, ActivePanel::History);
    app.on_key(ch('h'), &vec![]);
    assert_eq!(app.active_panel, ActivePanel::Charts);
}

#[test]
fn s_toggles_sort_mode() {
    let mut app = App::new();
    app.on_key(ch('s'), &vec![]);
    assert_eq!(app.process.sort_mode, SortBy::Memory);
    app.on_key(ch('S'), &vec![]);
    assert_eq!(app.process.sort_mode, SortBy::Pid);
}

#[test]
fn k_and_e_ask_for_work() {
    let mut app = App::new();
    app.process.selected_pid = Some(9);
    assert_eq!(app.on_key(ch('k'), &vec![]), KeyAction::KillSelected);
    assert!(app.logs.is_empty());
    assert_eq!(app.on_key(ch('E'), &vec![]), KeyAction::Export);
    assert_eq!(app.on_key(ch('x'), &vec![]), KeyAction::Nothing);
}

#[test]
fn slash_edits_the_filter() {
    let mut app = App::new();
    app.on_key(ch('/'), &vec![]);
    assert_eq!(app.input_mode, InputMode::Editing);
    for c in ['f', 'q', 'x'] {
        app.on_key(ch(c), &vec![]);
    }
    assert_eq!(app.process.filter, "fqx");
    assert!(app.running);
    app.on_key(key(KeyCode::Backspace), &vec![]);
    assert_eq!(app.process.filter, "fq");
    app.on_key(key(KeyCode::Up), &vec![]);
    assert_eq!(app.process.filter, "fq");
    app.on_key(key(KeyCode::Esc), &vec![]);
    assert_eq!(app.input_mode, InputMode::Normal);
    app.on_key(ch('/'), &vec![]);
    app.on_key(key(KeyCode::Enter), &vec![]);
    assert_eq!(app.input_mode, InputMode::Normal);
}

#[test]
fn backspace_on_empty_filter_does_nothing() {
    let mut app = App::new();
    app.on_key(ch('/'), &vec![]);
    app.on_key(key(KeyCode::Backspace), &vec![]);
    assert_eq!(app.process.filter, "");
    assert_eq!(app.input_mode, InputMode::Editing);
}

#[test]
fn down_and_up_wrap_and_select_pid_in_display_order() {
    let ps = procs();
    let mut app = App::new();
    // Sorted by CPU: pid 6 (3.0), pid 7 (2.0), pid 5 (1.0).
    app.on_key(key(KeyCode::Down), &ps);
    assert_eq!(app.selected_row, Some(0));
    assert_eq!(app.process.selected_pid, Some(6));
    app.on_key(key(KeyCode::Down), &ps);
    assert_eq!(app.selected_row, Some(1));
    assert_eq!(app.process.selected_pid, Some(7));
    app.on_key(key(KeyCode::Down), &ps);
    app.on_key(key(KeyCode::Down), &ps);
    assert_eq!(app.selected_row, Some(0));
    assert_eq!(app.process.selected_pid, Some(6));
    app.on_key(key(KeyCode::Up), &ps);
    assert_eq!(app.selected_row, Some(2));
    assert_eq!(app.process.selected_pid, Some(5));
}

#[test]
fn up_without_selection_selects_first_row() {
    let mut app = App::new();
    app.on_key(key(KeyCode::Up), &procs());
    assert_eq!(app.selected_row, Some(0));
    assert_eq!(app.process.selected_pid, Some(6));
}

#[test]
fn navigation_without_processes_changes_nothing() {
    let mut app = App::new();
    app.on_key(key(KeyCode::Down), &vec![]);
    assert_eq!(app.selected_row, None);
    assert_eq!(app.process.selected_pid, None);
}

#[test]
fn navigation_wraps_over_shown_rows() {
    let ps = procs();
    let mut app = App::new();
    app.on_key(key(KeyCode::Down), &ps);
    app.on_key(key(KeyCode::Down), &ps);
    assert_eq!(app.process.selected_pid, Some(7));
    // With the filter "a" only pid 6 is shown: the selection wraps over one row.
    app.on_key(ch('/'), &ps);
    app.on_key(ch('a'), &ps);
    app.on_key(key(KeyCode::Esc), &ps);
    assert_eq!(app.process.filter, "a");
    app.on_key(key(KeyCode::Down), &ps);
    assert_eq!(app.selected_row, Some(0));
    assert_eq!(app.process.selected_pid, Some(6));
    app.on_key(key(KeyCode::Up), &ps);
    assert_eq!(app.selected_row, Some(0));
    assert_eq!(app.process.selected_pid, Some(6));
}

#[test]
fn stale_row_moved_up_keeps_pid() {
    let ps = procs();
    let mut app = App::new();
    app.selected_row = Some(5);
    app.process.selected_pid = Some(99);
    app.on_key(key(KeyCode::Up), &ps);
    assert_eq!(app.selected_row, Some(4));
    assert_eq!(app.process.selected_pid, Some(99));
}

#[test]
fn kill_with_no_selection_fails_and_logs() {
    let mut app = App::new();
    assert_eq!(app.on_key(ch('k'), &procs()), KeyAction::Logged);
    assert_eq!(app.logs, vec!["Failed to kill process".to_string()]);
    assert!(app.running);
    assert_eq!(app.input_mode, InputMode::Normal);
    assert_eq!(app.on_key(ch('K'), &procs()), KeyAction::Nothing);
    assert_eq!(app.logs.len(), 1);
}

#[test]
fn down_then_up_returns_to_row() {
    let ps = procs();
    for start in 0..3usize {
        let mut app = App::new();
        app.selected_row = Some(start);
        app.next_process(&ps);
        app.previous_process(&ps);
        assert_eq!(app.selected_row, Some(start));
        app.previous_process(&ps);
        app.next_process(&ps);
        assert_eq!(app.selected_row, Some(start));
    }
}

#[test]
fn kill_results_are_logged() {
    let mut app = App::new();
    app.process.selected_pid = Some(42);
    assert!(app.on_kill_result(true));
    assert!(!app.on_kill_result(true));
    assert!(app.on_kill_result(false));
    assert_eq!(app.logs, vec!["Killed process PID Some(Pid(42))".to_string(), "Failed to kill process".to_string()]);
}

#[test]
fn export_results_are_logged() {
    let mut app = App::new();
    app.on_export_result(Ok("sysmon_export_1.csv".to_string()));
    app.on_export_result(Err("disk full".to_string()));
    assert_eq!(
        app.logs,
        vec!["Exported data to sysmon_export_1.csv".to_string(), "Export failed: disk full".to_string()]
    );
}

#[test]
fn add_log_skips_repeats_and_keeps_bound() {
    let mut app = App::new();
    assert!(app.add_log("a".to_string()));
    assert!(!app.add_log("a".to_string()));
    assert!(app.add_log("b".to_string()));
    assert!(app.add_log("a".to_string()));
    assert_eq!(app.logs, vec!["a", "b", "a"]);
    for i in 0..100 {
        app.add_log(format!("m{}", i));
    }
    assert_eq!(app.logs.len(), 51);
    assert_eq!(app.logs[0], "m49");
    assert_eq!(app.logs[50], "m99");
}

#[test]
fn resize_and_tick_update_state() {
    let mut app = App::new();
    app.on_resize(120, 40);
    assert_eq!(app.terminal_size, (120, 40));
    for i in 0..(HISTORY_LEN as u64 + 5) {
        app.on_tick(&NetworkStats { rx_speed: i, tx_speed: 2 * i });
    }
    let rx: Vec<u64> = app.net_rx_history.iter().copied().collect();
    assert_eq!(rx.len(), HISTORY_LEN);
    assert_eq!(app.net_rx_history.len(), HISTORY_LEN);
    assert_eq!(app.net_tx_history.len(), HISTORY_LEN);
    assert_eq!(rx[0], 5);
    assert_eq!(app.net_tx_history.latest(), Some(&(2 * (HISTORY_LEN as u64 + 4))));
}
