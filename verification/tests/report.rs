use oom_tui::parser::parse_log;
use oom_tui::report::{resolve_format, to_table, truncate, OutputFormat};

fn sample() -> Vec<oom_tui::model::OomEvent> {
    parse_log(
        "Memory cgroup out of memory: Killed process 42 (node) total-vm:100kB, anon-rss:50kB, file-rss:0kB, shmem-rss:0kB, UID:0 pgtables:4kB oom_score_adj:0",
    )
}

#[test]
fn table_has_a_header_and_one_row_per_event() {
    let table = to_table(&sample(), "test");
    assert!(table.contains("VICTIM"));
    assert!(table.contains("node"));
    assert!(table.contains("cgroup"));
}

#[test]
fn table_columns_are_fixed_width() {
    let table = to_table(&sample(), "test");
    let expected = format!(
        "# 1 OOM-kill event from test\n{:<24} {:<24} {:>9} {:>12}  {:<7} {}\n{:<24} {:<24} {:>9} {:>12}  {:<7} {}\n",
        "TIMESTAMP", "VICTIM", "PID", "RSS", "SCOPE", "CGROUP", "-", "node", 42, "0.0 MiB", "cgroup", "-"
    );
    assert_eq!(table, expected);
    assert_eq!(to_table(&vec![], "x"), format!("# 0 OOM-kill events from x\n{:<24} {:<24} {:>9} {:>12}  {:<7} {}\n", "TIMESTAMP", "VICTIM", "PID", "RSS", "SCOPE", "CGROUP"));
}

#[test]
fn long_names_are_cut_with_an_ellipsis() {
    assert_eq!(truncate("abcdef", 6), "abcdef");
    assert_eq!(truncate("abcdef", 4), "abc…");
    assert_eq!(truncate("abcdef", 0), "…");
    assert_eq!(truncate("ééééé", 3), "éé…");
}

#[test]
fn auto_format_depends_on_the_terminal() {
    assert_eq!(resolve_format(OutputFormat::Auto, true), OutputFormat::Tui);
    assert_eq!(resolve_format(OutputFormat::Auto, false), OutputFormat::Table);
    assert_eq!(resolve_format(OutputFormat::Jsonl, true), OutputFormat::Jsonl);
}
