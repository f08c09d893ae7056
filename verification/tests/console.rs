use oom_tui::app::{App, FocusPane};
use oom_tui::console::{
    impact, impact_of_parts, when_with_date,
    ago, allocation, centered_rect, detail_lines, exact_memory, footer_hints, header_info,
    highlight_raw_line, landing_system_lines, memory, option_i32, option_u32, present, status_tone,
    swap, timeline_context, timeline_height, truncate_to_width, workload, wrapped_line_count,
    Area, DetailLine, Impact, SegmentKind, Tone, focus_label, scope_label, scope_short, reaper,
};
use oom_tui::model::{MemInfo, OomEvent, ProcessEntry};
use oom_tui::source::SourceOptions;
use oom_tui::system::DeviceInfo;
use unicode_width::UnicodeWidthStr;

fn device() -> DeviceInfo {
    DeviceInfo { ram: "8.0 GiB".to_string(), cpu: "cpu".to_string(), os: "os".to_string() }
}

fn event(with_peers: bool, with_memory: bool) -> OomEvent {
    let mut event = OomEvent {
        timestamp: Some("+12.5s".to_string()),
        victim_name: "worker-with-a-very-long-name".to_string(),
        victim_pid: 42,
        anon_rss_kb: Some(512_000),
        file_rss_kb: Some(0),
        shmem_rss_kb: Some(0),
        cgroup: Some("/kubepods.slice/a-cgroup-path-that-is-deliberately-long".to_string()),
        raw_lines: vec!["Out of memory: Killed process 42 (worker) oom_score_adj=0".to_string()],
        ..Default::default()
    };
    if with_memory {
        event.mem = Some(MemInfo { total_ram_kb: Some(1_024_000), ..Default::default() });
    }
    event.processes.push(ProcessEntry {
        pid: 42,
        name: "worker-with-a-very-long-name".to_string(),
        rss_kb: 512_000,
        ..Default::default()
    });
    if with_peers {
        event.processes.push(ProcessEntry {
            pid: 77,
            name: "peer-with-a-very-long-name".to_string(),
            rss_kb: 600_000,
            ..Default::default()
        });
    }
    event
}

#[test]
fn truncation_respects_display_width_and_marks_omission() {
    let truncated = truncate_to_width("wide界界value", 7);
    assert!(UnicodeWidthStr::width(truncated.as_str()) <= 7);
    assert!(truncated.ends_with('…'));
}

#[test]
fn truncation_keeps_what_fits_and_cuts_the_rest() {
    assert_eq!(truncate_to_width("short", 10), "short");
    assert_eq!(truncate_to_width("wide界界value", 7), "wide界…");
    assert_eq!(truncate_to_width("abcdef", 1), "…");
    assert_eq!(truncate_to_width("abcdef", 0), "");
    assert_eq!(truncate_to_width("abcdef", 4), "abc…");
}

#[test]
fn the_investigation_pane_shows_every_section() {
    let lines = detail_lines(&event(true, true), "+12.5s".to_string());
    let sections: Vec<String> = lines
        .iter()
        .filter_map(|l| match l {
            DetailLine::Section(s) => Some(s.clone()),
            _ => None,
        })
        .collect();
    assert_eq!(sections, vec!["SUMMARY", "DIAGNOSIS", "MEMORY", "SYSTEM", "TIMELINE", "TASK SNAPSHOT"]);
    match &lines[0] {
        DetailLine::Alert(text) => assert_eq!(
            text,
            " ⚠ CULPRIT MISMATCH: Victim was collateral damage! Real culprit: peer-with-a-very-long-name (PID 77)"
        ),
        other => panic!("expected the culprit warning first, got {other:?}"),
    }
    assert!(lines.iter().any(|l| matches!(l, DetailLine::RamImpact(512_000, 1_024_000))));
    let tasks: Vec<String> = lines
        .iter()
        .filter_map(|l| match l {
            DetailLine::Plain(s) => Some(s.clone()),
            _ => None,
        })
        .collect();
    assert_eq!(tasks[0], "       77  peer-with-a-very-long-name  585.9 MiB · 600000 KiB");
    assert_eq!(tasks[1], "       42  worker-with-a-very-long-name  500.0 MiB · 512000 KiB");
    assert!(lines.iter().any(|l| matches!(l, DetailLine::Row(label, value, Tone::Text) if label == "Timestamp" && value == "+12.5s")));
}

#[test]
fn a_pane_without_a_task_table_says_so() {
    let mut e = event(false, false);
    e.processes.clear();
    let lines = detail_lines(&e, "x".to_string());
    assert!(matches!(lines.last(), Some(DetailLine::Muted(s)) if s == "  — not reported by kernel"));
    assert!(!lines.iter().any(|l| matches!(l, DetailLine::RamImpact(..))));
    assert!(lines.iter().any(|l| matches!(l, DetailLine::Impact(None))));
}

#[test]
fn small_values_spell_what_was_recorded_or_say_it_was_not() {
    assert_eq!(memory(Some(2048)), "2.0 MiB");
    assert_eq!(memory(None), "— not reported by kernel");
    assert_eq!(exact_memory(Some(1536)), "1.5 MiB · 1536 KiB");
    assert_eq!(present(Some("x".to_string())), "x");
    assert_eq!(present(None), "— not reported by kernel");
    assert_eq!(option_u32(Some(7)), "7");
    assert_eq!(option_i32(Some(-1000)), "-1000");
    assert_eq!(option_i32(None), "— not reported by kernel");
    assert_eq!(focus_label(FocusPane::Evidence), "evidence");
    assert_eq!(Impact::Critical.label(), "CRITICAL");
    assert_eq!(Impact::High.marker(), "!!");
    assert_eq!(Impact::Unknown.marker(), "?");
}

#[test]
fn event_labels_follow_the_recorded_fields() {
    let mut e = event(false, false);
    assert_eq!(scope_label(&e), "host-wide exhaustion");
    assert_eq!(scope_short(&e), "host");
    assert_eq!(reaper(&e), "not confirmed in log");
    assert_eq!(allocation(&e), "— not reported by kernel");
    e.gfp_mask = Some("GFP_KERNEL".to_string());
    assert_eq!(allocation(&e), "GFP_KERNEL");
    e.order = Some(3);
    assert_eq!(allocation(&e), "order 3 · GFP_KERNEL");
    assert_eq!(swap(&e), "— not reported by kernel");
    e.mem = Some(MemInfo { swap_total_kb: Some(2048), swap_free_kb: Some(1024), total_ram_kb: None });
    assert_eq!(swap(&e), "1.0 MiB free of 2.0 MiB");
    e.mem = Some(MemInfo { swap_total_kb: Some(2048), swap_free_kb: None, total_ram_kb: None });
    assert_eq!(swap(&e), "2.0 MiB total");
    e.memcg_kill = true;
    e.reaped = true;
    assert_eq!(scope_label(&e), "cgroup memory limit");
    assert_eq!(reaper(&e), "confirmed — memory reclaimed");
    assert_eq!(timeline_context(&e), "  [CGROUP] · ✓ reaped · +12.5s");
    e.cgroup = Some("/system.slice/nginx.service".to_string());
    assert_eq!(workload(&e), "systemd · nginx.service");
}

#[test]
fn ages_are_given_in_whole_units() {
    assert_eq!(ago(0, 59_999), "just now");
    assert_eq!(ago(0, 60_000), "1m ago");
    assert_eq!(ago(0, 3_599_999), "59m ago");
    assert_eq!(ago(0, 3_600_000), "1h ago");
    assert_eq!(ago(0, 47 * 3_600_000 + 59 * 60_000), "47h ago");
    assert_eq!(ago(0, 48 * 3_600_000), "2d ago");
    assert_eq!(ago(1_000_000, 0), "just now");
}

#[test]
fn undated_events_show_their_raw_stamp() {
    let e = event(false, false);
    assert_eq!(oom_tui::console::when(&e, 0), "+12.5s");
    let mut dated = e.clone();
    dated.occurred_at = Some(0);
    assert!(oom_tui::console::when(&dated, 7_200_000).ends_with(" (2h ago)"));
}

#[test]
fn raw_lines_highlight_the_kill_and_its_context() {
    let segs = highlight_raw_line("[ 1.0] Out of memory: Killed process 42 (x) oom_score_adj:0");
    let parts: Vec<(&str, SegmentKind)> = segs.iter().map(|s| (s.text.as_str(), s.kind)).collect();
    assert_eq!(
        parts,
        vec![
            ("[ 1.0] ", SegmentKind::Plain),
            ("Out of memory", SegmentKind::Critical),
            (": ", SegmentKind::Plain),
            ("Killed process", SegmentKind::Critical),
            (" 42 (x) ", SegmentKind::Plain),
            ("oom_score_adj", SegmentKind::Context),
            (":0", SegmentKind::Plain),
        ]
    );
    // the longer phrase wins where two start together
    let memcg = highlight_raw_line("Memory cgroup out of memory: x");
    assert_eq!(memcg[0].text, "Memory cgroup out of memory");
    let empty = highlight_raw_line("");
    assert_eq!(empty.len(), 1);
    assert_eq!(empty[0].text, "");
    assert_eq!(highlight_raw_line("nothing here")[0].kind, SegmentKind::Plain);
}

#[test]
fn footer_displays_contextual_keybinds_per_page() {
    let landing = App::new(vec![], "test log".to_string(), SourceOptions::default(), None, device());
    let hints = footer_hints(&landing).join("");
    assert!(hints.contains("h:console"));
    assert!(hints.contains("1-4:sources"));
    assert!(!hints.contains("Tab:incidents"));
    let mut console = App::new(vec![event(true, true)], "test log".to_string(), SourceOptions::default(), None, device());
    let hints = footer_hints(&console).join("");
    assert!(hints.contains("h:landing"));
    assert!(hints.contains("Tab:incidents"));
    console.focus = FocusPane::Evidence;
    assert!(footer_hints(&console).iter().any(|h| h == " ←/→:h-scroll "));
}

#[test]
fn header_counts_incidents_and_cgroup_kills() {
    let mut cg = event(false, false);
    cg.memcg_kill = true;
    let app = App::new(vec![event(false, false), cg], "a log source".to_string(), SourceOptions::default(), None, device());
    let h = header_info(&app, 20);
    assert_eq!(h.incidents, " 2 INCIDENTS ");
    assert_eq!(h.selected, " SELECTED 2/2 ");
    assert_eq!(h.scope, " cgroup ");
    assert_eq!(h.cgroups, " 1 CGROUP ");
    assert_eq!(h.ram, " 8.0 GiB ");
    assert_eq!(h.mode, "[ MODE: INCIDENT CONSOLE ]");
    assert_eq!(h.viewing, "a log s…");
}

#[test]
fn the_landing_panel_reports_health() {
    let app = App::new(vec![], "src".to_string(), SourceOptions::default(), Some("careful".to_string()), device());
    let lines = landing_system_lines(&app);
    assert!(lines.iter().any(|l| matches!(l, DetailLine::Note(s, Tone::Good) if s.contains("CLEAN"))));
    assert!(matches!(lines.last(), Some(DetailLine::Note(s, Tone::Warning)) if s == "  ⚠ Warning: careful"));
}

#[test]
fn status_colours() {
    assert_eq!(status_tone("loaded source — 0 event(s)"), Tone::Good);
    assert_eq!(status_tone("Failed to read"), Tone::Critical);
    assert_eq!(status_tone("theme — midnight"), Tone::Warning);
}

#[test]
fn timeline_height_fits_the_terminal() {
    assert_eq!(timeline_height(45, 1), 5);
    assert_eq!(timeline_height(45, 3), 8);
    assert_eq!(timeline_height(45, 10), 10);
    assert_eq!(timeline_height(20, 10), 3);
    assert_eq!(timeline_height(0, 0), 3);
}

#[test]
fn wrapping_counts_rows() {
    assert_eq!(wrapped_line_count(&vec![0, 5, 10, 11], 5), 1 + 1 + 2 + 3);
    assert_eq!(wrapped_line_count(&vec![3, 4], 0), 2);
}

#[test]
fn popups_are_centred() {
    let r = centered_rect(74, 18, Area { x: 0, y: 0, width: 140, height: 40 });
    assert_eq!(r, Area { x: 18, y: 11, width: 103, height: 18 });
    let tiny = centered_rect(74, 18, Area { x: 2, y: 3, width: 1, height: 1 });
    assert_eq!(tiny, Area { x: 2, y: 3, width: 1, height: 1 });
}

#[test]
fn a_dated_event_shows_its_local_date_and_age() {
    let mut e = event(false, false);
    assert_eq!(when_with_date(&e, Some("2026-01-01 00:00:00".to_string()), 0), "+12.5s");
    e.occurred_at = Some(0);
    assert_eq!(
        when_with_date(&e, Some("2026-01-01 00:00:00".to_string()), 3 * 3_600_000),
        "2026-01-01 00:00:00 (3h ago)"
    );
    assert_eq!(when_with_date(&e, None, 0), "+12.5s");
}

#[test]
fn impact_requires_recorded_machine_memory() {
    assert_eq!(impact(&event(false, false)), Impact::Unknown);
    assert_eq!(impact(&event(false, true)), Impact::Critical);
    assert_eq!(impact_of_parts(Some((50, 100))), Impact::Critical);
    assert_eq!(impact_of_parts(Some((49, 100))), Impact::High);
    assert_eq!(impact_of_parts(Some((20, 100))), Impact::High);
    assert_eq!(impact_of_parts(Some((19, 100))), Impact::Low);
    assert_eq!(impact_of_parts(None), Impact::Unknown);
}

#[test]
fn highlighted_pieces_join_back_into_the_line() {
    let line = "Out of memory: Killed process 42 (worker) oom_score_adj=0";
    let texts: Vec<String> = highlight_raw_line(line).into_iter().map(|s| s.text).collect();
    assert_eq!(texts, vec!["Out of memory", ": ", "Killed process", " 42 (worker) ", "oom_score_adj", "=0"]);
    assert_eq!(texts.concat(), line);
}

#[test]
fn every_instant_chrono_holds_is_dated() {
    let last = chrono::NaiveDate::MAX.and_hms_milli_opt(23, 59, 59, 999).unwrap().and_utc().timestamp_millis();
    let first = chrono::NaiveDate::MIN.and_hms_opt(0, 0, 0).unwrap().and_utc().timestamp_millis();
    let mut e = event(false, false);
    for (at, dated) in [(0, true), (last, true), (first, true), (last + 1, false), (first - 1, false)] {
        e.occurred_at = Some(at);
        let shown = oom_tui::console::when(&e, 0);
        assert_eq!(shown != "+12.5s", dated, "{at}");
        if dated {
            assert!(shown.ends_with(')'));
        }
    }
}
