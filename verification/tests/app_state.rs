use oom_tui::app::{quick_source_options, Action, App, FocusPane, Key, QuickSource, Theme};
use oom_tui::model::OomEvent;
use oom_tui::source::{BootScope, SourceOptions};
use oom_tui::system::DeviceInfo;

fn device() -> DeviceInfo {
    DeviceInfo { ram: "8.0 GiB".to_string(), cpu: "cpu".to_string(), os: "os".to_string() }
}

fn app() -> App {
    App::new(
        vec![OomEvent {
            raw_lines: vec!["one".to_string(), "two".to_string()],
            ..Default::default()
        }],
        "test".to_string(),
        SourceOptions::default(),
        None,
        device(),
    )
}

#[test]
fn evidence_and_details_have_independent_scroll_positions() {
    let mut app = app();
    app.set_raw_scroll_limits(2, 1, 20, 10);
    app.set_detail_scroll_limits(3, 1);
    app.scroll_raw(1);
    assert_eq!(app.raw_scroll, 1);

    app.scroll_details(1);
    assert_eq!(app.detail_scroll, 1);
}

#[test]
fn scroll_limits_follow_rendered_viewports() {
    let mut app = app();
    app.set_raw_scroll_limits(10, 4, 40, 12);
    app.set_detail_scroll_limits(12, 5);
    app.scroll_raw(100);
    app.scroll_raw_horizontal(100);
    app.scroll_details(100);
    assert_eq!(app.raw_scroll, 6);
    assert_eq!(app.raw_horizontal_scroll, 28);
    assert_eq!(app.detail_scroll, 7);
}

#[test]
fn changing_incidents_resets_evidence_scroll_positions() {
    let mut app = app();
    app.events.push(OomEvent::default());
    app.select(Some(0));
    app.raw_scroll = 1;
    app.detail_scroll = 1;
    app.select_next();
    assert_eq!(app.raw_scroll, 0);
    assert_eq!(app.detail_scroll, 0);
}

#[test]
fn focus_cycles_through_all_master_detail_panes() {
    let mut app = app();
    assert_eq!(app.focus, FocusPane::Incidents);
    app.focus_next();
    assert_eq!(app.focus, FocusPane::Details);
    app.focus_next();
    assert_eq!(app.focus, FocusPane::Evidence);
    app.focus_next();
    assert_eq!(app.focus, FocusPane::Incidents);
}

#[test]
fn themes_cycle_through_every_available_palette() {
    let mut app = app();
    assert_eq!(app.theme, Theme::Midnight);
    app.cycle_theme();
    assert_eq!(app.theme, Theme::Gruvbox);
    app.cycle_theme();
    assert_eq!(app.theme, Theme::Catppuccin);
    app.cycle_theme();
    assert_eq!(app.theme, Theme::Midnight);
}

#[test]
fn narrow_layouts_skip_the_hidden_evidence_pane() {
    let mut app = app();
    app.set_layout_width(80);
    app.focus_next();
    assert_eq!(app.focus, FocusPane::Details);
    app.focus_next();
    assert_eq!(app.focus, FocusPane::Incidents);
    app.set_layout_width(120);
    app.focus_next();
    app.focus_next();
    assert_eq!(app.focus, FocusPane::Evidence);
    app.set_layout_width(60);
    assert_eq!(app.focus, FocusPane::Incidents);
}

#[test]
fn a_new_console_selects_the_newest_incident() {
    let app = App::new(
        vec![OomEvent::default(), OomEvent::default(), OomEvent::default()],
        "x".to_string(),
        SourceOptions::default(),
        None,
        device(),
    );
    assert_eq!(app.selected, Some(2));
    assert!(!app.show_landing);
    let empty = App::new(vec![], "x".to_string(), SourceOptions::default(), None, device());
    assert_eq!(empty.selected, None);
    assert!(empty.show_landing);
    assert!(empty.selected().is_none());
}

#[test]
fn selection_stops_at_both_ends() {
    let mut app = App::new(
        vec![OomEvent::default(), OomEvent::default()],
        "x".to_string(),
        SourceOptions::default(),
        None,
        device(),
    );
    app.select_next();
    assert_eq!(app.selected, Some(1));
    app.select_prev();
    app.select_prev();
    assert_eq!(app.selected, Some(0));
}

#[test]
fn keys_follow_the_focused_pane() {
    let mut app = app();
    app.set_raw_scroll_limits(50, 10, 100, 10);
    assert_eq!(app.handle_key(Key::Tab), Action::Stay);
    assert_eq!(app.handle_key(Key::Tab), Action::Stay);
    assert_eq!(app.focus, FocusPane::Evidence);
    app.handle_key(Key::PageDown);
    assert_eq!(app.raw_scroll, 20);
    app.handle_key(Key::Char('G'));
    assert_eq!(app.raw_scroll, 40);
    app.handle_key(Key::Right);
    assert_eq!(app.raw_horizontal_scroll, 8);
    app.handle_key(Key::Char('g'));
    assert_eq!(app.raw_scroll, 0);
    app.handle_key(Key::Char('?'));
    assert!(app.help_visible);
    assert_eq!(app.handle_key(Key::Esc), Action::Stay);
    assert!(!app.help_visible);
    assert_eq!(app.handle_key(Key::Char('t')), Action::Stay);
    assert_eq!(app.status.as_deref(), Some("theme — gruvbox"));
    assert_eq!(app.handle_key(Key::Char('r')), Action::Reload);
    assert_eq!(app.handle_key(Key::Char('3')), Action::Load(QuickSource::PrevBoot));
    assert_eq!(app.handle_key(Key::Home), Action::Stay);
    assert!(app.show_landing);
    assert_eq!(app.handle_key(Key::Esc), Action::Quit);
    assert_eq!(app.handle_key(Key::Char('q')), Action::Quit);
}

#[test]
fn reloading_keeps_the_same_victim_selected() {
    let ev = |pid: u32| OomEvent { victim_pid: pid, ..Default::default() };
    let mut app = App::new(vec![ev(1), ev(2), ev(3)], "x".to_string(), SourceOptions::default(), None, device());
    app.select(Some(1));
    app.apply_loaded(vec![ev(9), ev(2), ev(2), ev(7)], "y".to_string(), None, SourceOptions::default());
    assert_eq!(app.selected, Some(1));
    assert_eq!(app.status.as_deref(), Some("loaded source — 4 event(s)"));
    assert_eq!(app.source_description, "y");
    app.apply_loaded(vec![ev(5), ev(6)], "z".to_string(), Some("w".to_string()), SourceOptions::default());
    assert_eq!(app.selected, Some(1));
    assert_eq!(app.warning.as_deref(), Some("w"));
    app.apply_loaded(vec![], "e".to_string(), None, SourceOptions::default());
    assert_eq!(app.selected, None);
    app.load_failed("permission denied");
    assert_eq!(app.status.as_deref(), Some("source load failed: permission denied"));
}

#[test]
fn quick_sources_ask_for_the_right_window() {
    assert_eq!(quick_source_options(QuickSource::CurrentBoot).unwrap().boot, BootScope::Offset(0));
    assert_eq!(quick_source_options(QuickSource::AllBoots).unwrap().boot, BootScope::All);
    assert_eq!(quick_source_options(QuickSource::PrevBoot).unwrap().boot, BootScope::Offset(-1));
    // the sample is the built-in demo, not a file that may not exist
    assert!(quick_source_options(QuickSource::SampleLog).is_none());
}

#[test]
fn theme_labels_and_cycle() {
    assert_eq!(Theme::Midnight.label(), "MIDNIGHT");
    assert_eq!(Theme::Catppuccin.next(), Theme::Midnight);
    assert_eq!(Theme::Midnight.next().next().next(), Theme::Midnight);
}

#[test]
fn scrolling_back_undoes_a_scroll_within_bounds() {
    let mut app = app();
    app.set_raw_scroll_limits(30, 10, 0, 10);
    app.scroll_raw(5);
    app.scroll_raw(-5);
    assert_eq!(app.raw_scroll, 0);
    app.scroll_raw(-3);
    assert_eq!(app.raw_scroll, 0);
    app.scroll_raw(7);
    app.set_raw_scroll_limits(12, 10, 0, 10);
    assert_eq!(app.raw_scroll, 2);
}

#[test]
fn panes_can_be_focused_directly() {
    let mut app = app();
    app.focus_evidence();
    assert_eq!(app.focus, FocusPane::Evidence);
    app.focus_details();
    assert_eq!(app.focus, FocusPane::Details);
}
