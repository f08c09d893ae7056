# oom-tui

OOM-killer forensics for Linux. The kernel reports one OOM kill as several
scattered log lines (the allocation that failed, the constraint and cgroup, the
kill itself, the reaper's confirmation); `oom-tui` joins them back into one
event, says whether a host or a cgroup limit was exhausted, which workload the
cgroup path belongs to, whether the victim was really the largest task, and
when it happened — as an interactive console, a table, or JSON.

## Layout

- `src/` — the library, verified with Verus:
  - `parser.rs` — the log grammar (timestamps, trigger, constraint, kill and
    reaper lines) and the reconstruction of events, specified line by line;
  - `model.rs` — the event and what it answers (resident set, largest tasks,
    whether the victim was the largest);
  - `container.rs` — decoding a cgroup path into a workload identity;
  - `analysis.rs` — the summary and diagnosis text;
  - `timestamp.rs` — dating uptime, `dmesg -T` and syslog stamps;
  - `source.rs`, `system.rs` — which log backend to ask and how, host details;
  - `app.rs` — the console's navigation state and what every key does;
  - `console.rs`, `report.rs` — the text the console and the table show;
  - `tasks.rs` — the task table and `Mem-Info` lines of a kill report;
  - `clipboard.rs` — copying a pane to the terminal's clipboard (OSC 52);
  - `text.rs` — character-level helpers (trimming, lines, numbers, padding).
- `app/` — the program: command line, reading logs and `/proc`, the terminal,
  drawing with ratatui, and the JSON documents.
- `tests/` — tests of the library.
