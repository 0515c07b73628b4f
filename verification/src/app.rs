use crate::history::{window_bound, window_push, HistoryBuffer};
use crate::network::NetworkStats;
use crate::process::{next_sort, ProcessInfo, ProcessManager, SortBy};
use crate::text::{decimal, pop_char, push_char, push_decimal};
use vstd::prelude::*;
use vstd::string::StringExecFns;

verus! {

/// How many samples each history keeps.
pub const HISTORY_LEN: usize = 100;

/// Once the alert log holds more than this many entries, the oldest is
/// dropped before a new one is added.
pub const MAX_LOGS: usize = 50;

/// The panel shown beside the process table.
#[derive(Debug, Clone, Copy, PartialEq, Eq, Structural)]
pub enum ActivePanel {
    Charts,
    Logs,
    History,
}

/// Whether keys drive the application or edit the process filter.
#[derive(Debug, Clone, Copy, PartialEq, Eq, Structural)]
pub enum InputMode {
    Normal,
    Editing,
}

/// A key as the application reads it.
#[derive(Debug, Clone, Copy, PartialEq, Eq, Structural)]
pub enum KeyCode {
    Char(char),
    Enter,
    Esc,
    Backspace,
    Up,
    Down,
    Other,
}

/// A key press, with whether Control was held.
#[derive(Debug, Clone, Copy, PartialEq, Eq, Structural)]
pub struct KeyEvent {
    pub code: KeyCode,
    pub control: bool,
}

/// Work a key asks of the caller, which reports the outcome of a kill or an
/// export back with `App::on_kill_result` or `App::on_export_result`.
#[derive(Debug, Clone, Copy, PartialEq, Eq, Structural)]
pub enum KeyAction {
    Nothing,
    /// The key logged an alert, now the latest entry of `logs`, for the
    /// caller to write to the session log.
    Logged,
    /// Kill the process `process.selected_pid` (one is selected).
    KillSelected,
    /// Export the histories to a file.
    Export,
}

/// The texts of a list of strings.
pub open spec fn texts(v: Seq<String>) -> Seq<Seq<char>> {
    v.map_values(|s: String| s@)
}

/// An alert is logged unless it repeats the latest one.
pub open spec fn log_accepts(logs: Seq<Seq<char>>, msg: Seq<char>) -> bool {
    logs.len() == 0 || logs.last() != msg
}

/// The alert log after `msg` is logged (when `log_accepts` holds).
pub open spec fn log_append(logs: Seq<Seq<char>>, msg: Seq<char>) -> Seq<Seq<char>> {
    if logs.len() > MAX_LOGS {
        logs.drop_first().push(msg)
    } else {
        logs.push(msg)
    }
}

/// The alert log after an attempt to log `msg`.
pub open spec fn log_after(logs: Seq<Seq<char>>, msg: Seq<char>) -> Seq<Seq<char>> {
    if log_accepts(logs, msg) {
        log_append(logs, msg)
    } else {
        logs
    }
}

/// No entry of the log repeats the one before it.
pub open spec fn no_adjacent_repeats(logs: Seq<Seq<char>>) -> bool {
    forall|i: int| 0 <= i < logs.len() - 1 ==> #[trigger] logs[i] != logs[i + 1]
}

pub open spec fn is_char(key: KeyEvent, lower: char, upper: char) -> bool {
    key.code == KeyCode::Char(lower) || key.code == KeyCode::Char(upper)
}

/// The key stops the application: `q` or `Q`, or Control-C.
pub open spec fn quits(mode: InputMode, key: KeyEvent) -> bool {
    mode == InputMode::Normal && (is_char(key, 'q', 'Q') || (key.code == KeyCode::Char('c') && key.control))
}

/// The input mode after the key.
pub open spec fn next_input_mode(mode: InputMode, key: KeyEvent) -> InputMode {
    match mode {
        InputMode::Normal => if key.code == KeyCode::Char('/') {
            InputMode::Editing
        } else {
            InputMode::Normal
        },
        InputMode::Editing => if key.code == KeyCode::Enter || key.code == KeyCode::Esc {
            InputMode::Normal
        } else {
            InputMode::Editing
        },
    }
}

/// The panel after the key: `l` toggles the log panel, `h` the history panel.
pub open spec fn next_panel(mode: InputMode, panel: ActivePanel, key: KeyEvent) -> ActivePanel {
    if mode == InputMode::Normal && is_char(key, 'l', 'L') {
        if panel == ActivePanel::Logs {
            ActivePanel::Charts
        } else {
            ActivePanel::Logs
        }
    } else if mode == InputMode::Normal && is_char(key, 'h', 'H') {
        if panel == ActivePanel::History {
            ActivePanel::Charts
        } else {
            ActivePanel::History
        }
    } else {
        panel
    }
}

/// The sort mode after the key.
pub open spec fn sort_after_key(mode: InputMode, sort: SortBy, key: KeyEvent) -> SortBy {
    if mode == InputMode::Normal && is_char(key, 's', 'S') {
        next_sort(sort)
    } else {
        sort
    }
}

/// The filter text after the key: in editing mode characters are typed and
/// Backspace removes the last one.
pub open spec fn filter_after_key(mode: InputMode, filter: Seq<char>, key: KeyEvent) -> Seq<char> {
    if mode == InputMode::Editing {
        match key.code {
            KeyCode::Char(c) => filter.push(c),
            KeyCode::Backspace => if filter.len() > 0 {
                filter.drop_last()
            } else {
                filter
            },
            _ => filter,
        }
    } else {
        filter
    }
}

/// The key asks to kill the selected process.
pub open spec fn kill_requested(mode: InputMode, key: KeyEvent) -> bool {
    mode == InputMode::Normal && is_char(key, 'k', 'K')
}

/// The work the key asks of the caller. A kill with no process selected
/// fails at once, without any signal, and logs that it failed.
pub open spec fn action_of_key(mode: InputMode, key: KeyEvent, selected: Option<u32>, logs: Seq<Seq<char>>) -> KeyAction {
    if kill_requested(mode, key) {
        if selected is Some {
            KeyAction::KillSelected
        } else if log_accepts(logs, kill_message(false, selected)) {
            KeyAction::Logged
        } else {
            KeyAction::Nothing
        }
    } else if mode == InputMode::Normal && is_char(key, 'e', 'E') {
        KeyAction::Export
    } else {
        KeyAction::Nothing
    }
}

/// The alert log after the key: only a kill with no process selected logs
/// (its failure).
pub open spec fn logs_after_key(mode: InputMode, key: KeyEvent, selected: Option<u32>, logs: Seq<Seq<char>>) -> Seq<Seq<char>> {
    if kill_requested(mode, key) && selected is None {
        log_after(logs, kill_message(false, selected))
    } else {
        logs
    }
}

/// The process id on `row` of the shown table; a row past its end (a stale
/// selection moved up after the table shrank) leaves `current` selected.
pub open spec fn pid_on_row(shown: Seq<ProcessInfo>, row: nat, current: Option<u32>) -> Option<u32> {
    if row < shown.len() {
        Some(shown[row as int].pid)
    } else {
        current
    }
}

/// The row selected after moving down a table of `n > 0` rows (wrapping to the top).
pub open spec fn row_below(selected: Option<usize>, n: nat) -> nat {
    match selected {
        Some(i) => if i >= n - 1 {
            0
        } else {
            (i + 1) as nat
        },
        None => 0,
    }
}

/// The row selected after moving up a table of `n > 0` rows (wrapping to the bottom).
pub open spec fn row_above(selected: Option<usize>, n: nat) -> nat {
    match selected {
        Some(i) => if i == 0 {
            (n - 1) as nat
        } else {
            (i - 1) as nat
        },
        None => 0,
    }
}

/// The row a navigation key moves to, if it is one and there are rows.
pub open spec fn row_after_key(mode: InputMode, selected: Option<usize>, n: nat, key: KeyEvent) -> Option<nat> {
    if mode == InputMode::Normal && n > 0 && key.code == KeyCode::Down {
        Some(row_below(selected, n))
    } else if mode == InputMode::Normal && n > 0 && key.code == KeyCode::Up {
        Some(row_above(selected, n))
    } else {
        None
    }
}

/// `Debug` text of an optional process id, as `Some(Pid(42))` or `None`.
pub open spec fn pid_debug(pid: Option<u32>) -> Seq<char> {
    match pid {
        Some(p) => "Some(Pid("@ + decimal(p as nat) + "))"@,
        None => "None"@,
    }
}

/// The alert logged after a kill was attempted.
pub open spec fn kill_message(killed: bool, pid: Option<u32>) -> Seq<char> {
    if killed {
        "Killed process PID "@ + pid_debug(pid)
    } else {
        "Failed to kill process"@
    }
}

/// The alert logged after an export was attempted.
pub open spec fn export_message(outcome: Result<Seq<char>, Seq<char>>) -> Seq<char> {
    match outcome {
        Ok(file) => "Exported data to "@ + file,
        Err(err) => "Export failed: "@ + err,
    }
}

/// The state that the keys and ticks of the monitor drive.
pub struct App {
    pub running: bool,
    pub input_mode: InputMode,
    pub active_panel: ActivePanel,
    pub terminal_size: (u16, u16),
    pub process: ProcessManager,
    /// The highlighted row of the process table.
    pub selected_row: Option<usize>,
    /// Bytes received per tick.
    pub net_rx_history: HistoryBuffer<u64>,
    /// Bytes sent per tick.
    pub net_tx_history: HistoryBuffer<u64>,
    /// Alerts, oldest first.
    pub logs: Vec<String>,
}

impl App {
    /// Running, in normal mode, showing the charts, with empty histories and log.
    pub fn new() -> (r: Self)
        ensures
            r.running,
            r.input_mode == InputMode::Normal,
            r.active_panel == ActivePanel::Charts,
            r.terminal_size == (0u16, 0u16),
            r.process.sort_mode == SortBy::Cpu,
            r.process.selected_pid is None,
            r.process.filter@ == Seq::<char>::empty(),
            r.selected_row is None,
            r.net_rx_history@ == Seq::<u64>::empty(),
            r.net_rx_history.capacity() == HISTORY_LEN,
            r.net_tx_history@ == Seq::<u64>::empty(),
            r.net_tx_history.capacity() == HISTORY_LEN,
            r.logs@ == Seq::<String>::empty(),
    {
        App {
            running: true,
            input_mode: InputMode::Normal,
            active_panel: ActivePanel::Charts,
            terminal_size: (0, 0),
            process: ProcessManager::new(),
            selected_row: None,
            net_rx_history: HistoryBuffer::new(HISTORY_LEN),
            net_tx_history: HistoryBuffer::new(HISTORY_LEN),
            logs: Vec::new(),
        }
    }

    /// Records one tick's network traffic.
    pub fn on_tick(&mut self, net: &NetworkStats)
        ensures
            final(self).net_rx_history@ == window_push(
                old(self).net_rx_history.capacity(),
                old(self).net_rx_history@,
                net.rx_speed,
            ),
            final(self).net_tx_history@ == window_push(
                old(self).net_tx_history.capacity(),
                old(self).net_tx_history@,
                net.tx_speed,
            ),
            final(self).net_rx_history.capacity() == old(self).net_rx_history.capacity(),
            final(self).net_tx_history.capacity() == old(self).net_tx_history.capacity(),
            final(self).net_rx_history@.len() <= window_bound(old(self).net_rx_history.capacity()),
            final(self).net_tx_history@.len() <= window_bound(old(self).net_tx_history.capacity()),
            final(self).running == old(self).running,
            final(self).input_mode == old(self).input_mode,
            final(self).active_panel == old(self).active_panel,
            final(self).terminal_size == old(self).terminal_size,
            final(self).process == old(self).process,
            final(self).selected_row == old(self).selected_row,
            final(self).logs == old(self).logs,
    {
        self.net_rx_history.push(net.rx_speed);
        self.net_tx_history.push(net.tx_speed);
    }

    /// Records the new terminal size.
    pub fn on_resize(&mut self, w: u16, h: u16)
        ensures
            final(self).terminal_size == (w, h),
            final(self).running == old(self).running,
            final(self).input_mode == old(self).input_mode,
            final(self).active_panel == old(self).active_panel,
            final(self).process == old(self).process,
            final(self).selected_row == old(self).selected_row,
            final(self).net_rx_history == old(self).net_rx_history,
            final(self).net_tx_history == old(self).net_tx_history,
            final(self).logs == old(self).logs,
    {
        self.terminal_size = (w, h);
    }

    /// Logs an alert unless it repeats the latest one, dropping the oldest
    /// entry when the log is over its bound. Returns whether it was logged
    /// (the caller then writes it to the session log).
    pub fn add_log(&mut self, msg: String) -> (accepted: bool)
        ensures
            accepted == log_accepts(texts(old(self).logs@), msg@),
            texts(final(self).logs@) == log_after(texts(old(self).logs@), msg@),
            final(self).running == old(self).running,
            final(self).input_mode == old(self).input_mode,
            final(self).active_panel == old(self).active_panel,
            final(self).terminal_size == old(self).terminal_size,
            final(self).process == old(self).process,
            final(self).selected_row == old(self).selected_row,
            final(self).net_rx_history == old(self).net_rx_history,
            final(self).net_tx_history == old(self).net_tx_history,
    {
        let n = self.logs.len();
        let repeats = n > 0 && self.logs[n - 1] == msg;
        if !repeats {
            let ghost before = self.logs@;
            if n > MAX_LOGS {
                let _ = self.logs.remove(0);
            }
            self.logs.push(msg);
            proof {
                if n > MAX_LOGS {
                    assert(texts(self.logs@) =~= texts(before).drop_first().push(msg@));
                } else {
                    assert(texts(self.logs@) =~= texts(before).push(msg@));
                }
            }
            true
        } else {
            false
        }
    }

    /// Applies a key: mode changes, panel toggles, sort toggling, filter
    /// editing and table navigation happen here; killing and exporting are
    /// returned as work for the caller. `procs` are the processes now running,
    /// in the order the system lists them.
    pub fn on_key(&mut self, key: KeyEvent, procs: &Vec<ProcessInfo>) -> (action: KeyAction)
        ensures
            action == action_of_key(
                old(self).input_mode,
                key,
                old(self).process.selected_pid,
                texts(old(self).logs@),
            ),
            texts(final(self).logs@) == logs_after_key(
                old(self).input_mode,
                key,
                old(self).process.selected_pid,
                texts(old(self).logs@),
            ),
            final(self).running == (old(self).running && !quits(old(self).input_mode, key)),
            final(self).input_mode == next_input_mode(old(self).input_mode, key),
            final(self).active_panel == next_panel(old(self).input_mode, old(self).active_panel, key),
            final(self).process.sort_mode == sort_after_key(
                old(self).input_mode,
                old(self).process.sort_mode,
                key,
            ),
            final(self).process.filter@ == filter_after_key(
                old(self).input_mode,
                old(self).process.filter@,
                key,
            ),
            ({
                let shown = old(self).process.shown(procs@);
                match row_after_key(old(self).input_mode, old(self).selected_row, shown.len(), key) {
                    None => {
                        &&& final(self).selected_row == old(self).selected_row
                        &&& final(self).process.selected_pid == old(self).process.selected_pid
                    },
                    Some(row) => {
                        &&& final(self).selected_row == Some(row as usize)
                        &&& final(self).process.selected_pid == pid_on_row(
                            shown,
                            row,
                            old(self).process.selected_pid,
                        )
                    },
                }
            }),
            final(self).terminal_size == old(self).terminal_size,
            final(self).net_rx_history == old(self).net_rx_history,
            final(self).net_tx_history == old(self).net_tx_history,
    {
        match self.input_mode {
            InputMode::Normal => match key.code {
                KeyCode::Char('/') => {
                    self.input_mode = InputMode::Editing;
                    KeyAction::Nothing
                },
                KeyCode::Char('q') | KeyCode::Char('Q') => {
                    self.running = false;
                    KeyAction::Nothing
                },
                KeyCode::Char('c') if key.control => {
                    self.running = false;
                    KeyAction::Nothing
                },
                KeyCode::Char('l') | KeyCode::Char('L') => {
                    self.active_panel = match self.active_panel {
                        ActivePanel::Logs => ActivePanel::Charts,
                        _ => ActivePanel::Logs,
                    };
                    KeyAction::Nothing
                },
                KeyCode::Char('h') | KeyCode::Char('H') => {
                    self.active_panel = match self.active_panel {
                        ActivePanel::History => ActivePanel::Charts,
                        _ => ActivePanel::History,
                    };
                    KeyAction::Nothing
                },
                KeyCode::Char('k') | KeyCode::Char('K') => {
                    if self.process.selected_pid.is_some() {
                        KeyAction::KillSelected
                    } else if self.on_kill_result(false) {
                        KeyAction::Logged
                    } else {
                        KeyAction::Nothing
                    }
                },
                KeyCode::Char('s') | KeyCode::Char('S') => {
                    self.process.toggle_sort();
                    KeyAction::Nothing
                },
                KeyCode::Char('e') | KeyCode::Char('E') => KeyAction::Export,
                KeyCode::Down => {
                    self.next_process(procs);
                    KeyAction::Nothing
                },
                KeyCode::Up => {
                    self.previous_process(procs);
                    KeyAction::Nothing
                },
                _ => KeyAction::Nothing,
            },
            InputMode::Editing => {
                match key.code {
                    KeyCode::Enter | KeyCode::Esc => {
                        self.input_mode = InputMode::Normal;
                    },
                    KeyCode::Char(c) => {
                        let mut current = self.process.filter.clone();
                        push_char(&mut current, c);
                        self.process.set_filter(current);
                    },
                    KeyCode::Backspace => {
                        let mut current = self.process.filter.clone();
                        let _ = pop_char(&mut current);
                        self.process.set_filter(current);
                    },
                    _ => {},
                }
                KeyAction::Nothing
            },
        }
    }

    /// Moves the selection one row down the table of shown processes,
    /// wrapping to the top, and selects the process on that row.
    pub fn next_process(&mut self, procs: &Vec<ProcessInfo>)
        ensures
            old(self).process.shown(procs@).len() == 0 ==> *final(self) == *old(self),
            old(self).process.shown(procs@).len() > 0 ==> {
                let shown = old(self).process.shown(procs@);
                let row = row_below(old(self).selected_row, shown.len());
                &&& final(self).selected_row == Some(row as usize)
                &&& final(self).process.selected_pid == Some(shown[row as int].pid)
            },
            final(self).running == old(self).running,
            final(self).input_mode == old(self).input_mode,
            final(self).active_panel == old(self).active_panel,
            final(self).terminal_size == old(self).terminal_size,
            final(self).process.sort_mode == old(self).process.sort_mode,
            final(self).process.filter == old(self).process.filter,
            final(self).net_rx_history == old(self).net_rx_history,
            final(self).net_tx_history == old(self).net_tx_history,
            final(self).logs == old(self).logs,
    {
        let shown = self.process.get_sorted_processes(procs);
        let shown_len = shown.len();
        if shown_len == 0 {
            return;
        }
        let i = match self.selected_row {
            Some(i) => if i >= shown_len - 1 {
                0
            } else {
                i + 1
            },
            None => 0,
        };
        self.selected_row = Some(i);
        self.update_selected_pid(i, &shown);
    }

    /// Moves the selection one row up the table of shown processes,
    /// wrapping to the bottom, and selects the process on that row.
    pub fn previous_process(&mut self, procs: &Vec<ProcessInfo>)
        ensures
            old(self).process.shown(procs@).len() == 0 ==> *final(self) == *old(self),
            old(self).process.shown(procs@).len() > 0 ==> {
                let shown = old(self).process.shown(procs@);
                let row = row_above(old(self).selected_row, shown.len());
                &&& final(self).selected_row == Some(row as usize)
                &&& final(self).process.selected_pid == pid_on_row(shown, row, old(self).process.selected_pid)
            },
            final(self).running == old(self).running,
            final(self).input_mode == old(self).input_mode,
            final(self).active_panel == old(self).active_panel,
            final(self).terminal_size == old(self).terminal_size,
            final(self).process.sort_mode == old(self).process.sort_mode,
            final(self).process.filter == old(self).process.filter,
            final(self).net_rx_history == old(self).net_rx_history,
            final(self).net_tx_history == old(self).net_tx_history,
            final(self).logs == old(self).logs,
    {
        let shown = self.process.get_sorted_processes(procs);
        let shown_len = shown.len();
        if shown_len == 0 {
            return;
        }
        let i = match self.selected_row {
            Some(i) => if i == 0 {
                shown_len - 1
            } else {
                i - 1
            },
            None => 0,
        };
        self.selected_row = Some(i);
        self.update_selected_pid(i, &shown);
    }

    /// Selects the process on row `index` of the shown table, if there is one.
    fn update_selected_pid(&mut self, index: usize, shown: &Vec<ProcessInfo>)
        ensures
            final(self).process.selected_pid == (if index < shown.len() {
                Some(shown@[index as int].pid)
            } else {
                old(self).process.selected_pid
            }),
            final(self).running == old(self).running,
            final(self).input_mode == old(self).input_mode,
            final(self).active_panel == old(self).active_panel,
            final(self).terminal_size == old(self).terminal_size,
            final(self).selected_row == old(self).selected_row,
            final(self).process.sort_mode == old(self).process.sort_mode,
            final(self).process.filter == old(self).process.filter,
            final(self).net_rx_history == old(self).net_rx_history,
            final(self).net_tx_history == old(self).net_tx_history,
            final(self).logs == old(self).logs,
    {
        if index < shown.len() {
            self.process.selected_pid = Some(shown[index].pid);
        }
    }

    /// Logs the outcome of a kill that `on_key` asked for.
    pub fn on_kill_result(&mut self, killed: bool) -> (accepted: bool)
        ensures
            accepted == log_accepts(texts(old(self).logs@), kill_message(killed, old(self).process.selected_pid)),
            texts(final(self).logs@) == log_after(
                texts(old(self).logs@),
                kill_message(killed, old(self).process.selected_pid),
            ),
            final(self).running == old(self).running,
            final(self).input_mode == old(self).input_mode,
            final(self).active_panel == old(self).active_panel,
            final(self).terminal_size == old(self).terminal_size,
            final(self).process == old(self).process,
            final(self).selected_row == old(self).selected_row,
            final(self).net_rx_history == old(self).net_rx_history,
            final(self).net_tx_history == old(self).net_tx_history,
    {
        let msg = if killed {
            let mut m = String::from_str("Killed process PID ");
            match self.process.selected_pid {
                Some(p) => {
                    m.append("Some(Pid(");
                    push_decimal(&mut m, p as u64);
                    m.append("))");
                    assert(m@ =~= "Killed process PID "@ + ("Some(Pid("@ + decimal(p as nat) + "))"@));
                },
                None => {
                    m.append("None");
                },
            }
            m
        } else {
            String::from_str("Failed to kill process")
        };
        assert(msg@ == kill_message(killed, self.process.selected_pid));
        self.add_log(msg)
    }

    /// Logs the outcome of an export that `on_key` asked for: the file
    /// written, or the error's text.
    pub fn on_export_result(&mut self, outcome: Result<String, String>) -> (accepted: bool)
        ensures
            ({
                let msg = export_message(
                    match outcome {
                        Ok(f) => Ok(f@),
                        Err(e) => Err(e@),
                    },
                );
                &&& accepted == log_accepts(texts(old(self).logs@), msg)
                &&& texts(final(self).logs@) == log_after(texts(old(self).logs@), msg)
            }),
            final(self).running == old(self).running,
            final(self).input_mode == old(self).input_mode,
            final(self).active_panel == old(self).active_panel,
            final(self).terminal_size == old(self).terminal_size,
            final(self).process == old(self).process,
            final(self).selected_row == old(self).selected_row,
            final(self).net_rx_history == old(self).net_rx_history,
            final(self).net_tx_history == old(self).net_tx_history,
    {
        let msg = match outcome {
            Ok(file) => String::from_str("Exported data to ").concat(file.as_str()),
            Err(err) => String::from_str("Export failed: ").concat(err.as_str()),
        };
        self.add_log(msg)
    }
}

/// The alert log never holds more than `MAX_LOGS + 1` entries.
pub proof fn lemma_log_stays_bounded(logs: Seq<Seq<char>>, msg: Seq<char>)
    requires
        logs.len() <= MAX_LOGS + 1,
    ensures
        log_after(logs, msg).len() <= MAX_LOGS + 1,
{
}

/// No alert in the log repeats the one before it.
pub proof fn lemma_log_never_repeats(logs: Seq<Seq<char>>, msg: Seq<char>)
    requires
        no_adjacent_repeats(logs),
    ensures
        no_adjacent_repeats(log_after(logs, msg)),
{
    let r = log_after(logs, msg);
    if log_accepts(logs, msg) {
        let kept = if logs.len() > MAX_LOGS {
            logs.drop_first()
        } else {
            logs
        };
        assert forall|i: int| 0 <= i < r.len() - 1 implies #[trigger] r[i] != r[i + 1] by {
            if i + 1 < kept.len() {
                if logs.len() > MAX_LOGS {
                    assert(r[i] == logs[i + 1] && r[i + 1] == logs[i + 2]);
                } else {
                    assert(r[i] == logs[i] && r[i + 1] == logs[i + 1]);
                }
            } else {
                assert(r[i] == logs.last());
            }
        }
    }
}

/// After an alert is logged, it is the latest entry of the log.
pub proof fn lemma_log_ends_with_latest(logs: Seq<Seq<char>>, msg: Seq<char>)
    ensures
        log_after(logs, msg).len() > 0,
        log_after(logs, msg).last() == msg,
{
}

/// Moving down then up, or up then down, returns to the row one started on.
pub proof fn lemma_rows_round_trip(i: usize, n: nat)
    requires
        i < n,
        n <= usize::MAX,
    ensures
        row_above(Some(row_below(Some(i), n) as usize), n) == i,
        row_below(Some(row_above(Some(i), n) as usize), n) == i,
{
}

/// Pressing Down then Up (or Up then Down) on a table of `n` shown rows
/// brings the selection back to the row it was on.
pub proof fn lemma_down_up_round_trip(i: usize, n: nat, c1: bool, c2: bool)
    requires
        i < n,
        n <= usize::MAX,
    ensures
        ({
            let down = KeyEvent { code: KeyCode::Down, control: c1 };
            let up = KeyEvent { code: KeyCode::Up, control: c2 };
            &&& row_after_key(InputMode::Normal, Some(i), n, down) == Some(row_below(Some(i), n))
            &&& row_after_key(InputMode::Normal, Some(row_below(Some(i), n) as usize), n, up) == Some(i as nat)
            &&& row_after_key(InputMode::Normal, Some(i), n, up) == Some(row_above(Some(i), n))
            &&& row_after_key(InputMode::Normal, Some(row_above(Some(i), n) as usize), n, down) == Some(i as nat)
        }),
{
    lemma_rows_round_trip(i, n);
}

/// Pressing `l` twice, or `h` twice, brings back the panel one started
/// from, unless `l` starts from the history panel or `h` from the log panel.
pub proof fn lemma_panel_toggles_back(panel: ActivePanel, key: KeyEvent)
    requires
        is_char(key, 'l', 'L') ==> panel != ActivePanel::History,
        is_char(key, 'h', 'H') ==> panel != ActivePanel::Logs,
    ensures
        next_panel(InputMode::Normal, next_panel(InputMode::Normal, panel, key), key) == panel,
{
}

/// Typing a character into the filter and erasing it restores the filter.
pub proof fn lemma_type_then_erase(filter: Seq<char>, c: char, control: bool, erase_control: bool)
    ensures
        filter_after_key(
            InputMode::Editing,
            filter_after_key(InputMode::Editing, filter, KeyEvent { code: KeyCode::Char(c), control }),
            KeyEvent { code: KeyCode::Backspace, control: erase_control },
        ) == filter,
{
    assert(filter.push(c).drop_last() =~= filter);
}


/// Down moves one row down a table of `n` rows and wraps from the last row to
/// the first; Up moves one row up and wraps from the first row to the last;
/// with no row selected yet, either selects the first row.
pub proof fn lemma_row_moves(i: usize, n: nat)
    requires
        i < n,
    ensures
        row_below(Some(i), n) == (i + 1) % (n as int),
        row_above(Some(i), n) == (i + n - 1) % (n as int),
        row_below(None, n) == 0,
        row_above(None, n) == 0,
{
    if i + 1 < n {
        assert((i + 1) % (n as int) == i + 1) by (nonlinear_arith)
            requires
                0 <= i + 1 < n,
        ;
    } else {
        assert((i + 1) % (n as int) == 0) by (nonlinear_arith)
            requires
                i + 1 == n,
                n > 0,
        ;
    }
    if i == 0 {
        assert((n - 1) % (n as int) == n - 1) by (nonlinear_arith)
            requires
                0 <= n - 1 < n,
        ;
    } else {
        assert((i + n - 1) % (n as int) == i - 1) by (nonlinear_arith)
            requires
                1 <= i < n,
        ;
    }
}

/// Logging an alert appends it and, once the log is over its bound, drops
/// only the single oldest entry: the result is the log with the alert added,
/// less at most its first entry.
pub proof fn lemma_log_drops_only_oldest(logs: Seq<Seq<char>>, msg: Seq<char>)
    ensures
        ({
            let r = log_append(logs, msg);
            let all = logs.push(msg);
            let dropped = if logs.len() > MAX_LOGS { 1int } else { 0int };
            &&& r.len() == all.len() - dropped
            &&& forall|i: int| 0 <= i < r.len() ==> #[trigger] r[i] == all[i + dropped]
        }),
        log_accepts(logs, msg) ==> log_after(logs, msg) == log_append(logs, msg),
        !log_accepts(logs, msg) ==> log_after(logs, msg) == logs,
        logs.len() <= MAX_LOGS ==> log_append(logs, msg).len() == logs.len() + 1,
        logs.len() == MAX_LOGS + 1 ==> log_append(logs, msg).len() == MAX_LOGS + 1,
{
    let r = log_append(logs, msg);
    let all = logs.push(msg);
    let dropped = if logs.len() > MAX_LOGS { 1int } else { 0int };
    assert forall|i: int| 0 <= i < r.len() implies #[trigger] r[i] == all[i + dropped] by {
        if logs.len() > MAX_LOGS && i + 1 < logs.len() {
            assert(r[i] == logs.drop_first()[i]);
        }
    }
}

} // verus!
