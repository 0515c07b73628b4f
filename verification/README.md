# sysmon

A terminal system monitor (CPU, memory, network, processes) whose logic is
verified with Verus.

- `src/` is the verified library: the sliding-window histories
  (`history`), process ordering and filtering (`process`), network byte
  accounting (`network`), the key-driven application state (`app`), the
  event-loop timing decisions (`event`) and the text the screen shows (`ui`,
  `export`, `text`).
- `app/` is the program around it: it reads the system through `sysinfo`,
  draws with `ratatui`, reads keys with `crossterm`, writes the session log
  and CSV exports, and keeps the floating-point CPU and memory histories.
- `tests/` exercise the library on concrete values.
