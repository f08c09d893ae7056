use oom_tui::app::{Action, App, FocusPane, Key};
use oom_tui::clipboard::{base64_encode, copied_status, evidence_text, osc52};
use oom_tui::model::OomEvent;
use oom_tui::source::SourceOptions;
use oom_tui::system::DeviceInfo;

fn app() -> App {
    App::new(
        vec![OomEvent { raw_lines: vec!["one".to_string(), "two".to_string()], ..Default::default() }],
        "test".to_string(),
        SourceOptions::default(),
        None,
        DeviceInfo { ram: "8.0 GiB".to_string(), cpu: "cpu".to_string(), os: "os".to_string() },
    )
}

#[test]
fn base64_pads_short_final_groups() {
    assert_eq!(base64_encode(&b"".to_vec()), "");
    assert_eq!(base64_encode(&b"M".to_vec()), "TQ==");
    assert_eq!(base64_encode(&b"Ma".to_vec()), "TWE=");
    assert_eq!(base64_encode(&b"Man".to_vec()), "TWFu");
    assert_eq!(base64_encode(&b"Many hands".to_vec()), "TWFueSBoYW5kcw==");
    assert_eq!(base64_encode(&vec![0xff, 0xfe, 0x00]), "//4A");
}

#[test]
fn osc52_wraps_the_encoded_text() {
    assert_eq!(osc52(&b"hi".to_vec()), "\x1b]52;c;aGk=\x07");
}

#[test]
fn evidence_text_keeps_one_line_per_log_line() {
    let event = OomEvent {
        raw_lines: vec!["first".to_string(), "second".to_string(), "third".to_string()],
        ..Default::default()
    };
    assert_eq!(evidence_text(&event), "first\nsecond\nthird");
    assert_eq!(evidence_text(&OomEvent::default()), "");
}

#[test]
fn copy_key_names_the_focused_pane() {
    let mut app = app();
    assert_eq!(app.handle_key(Key::Char('c')), Action::Copy(FocusPane::Incidents));
    app.handle_key(Key::Tab);
    assert_eq!(app.handle_key(Key::Char('c')), Action::Copy(FocusPane::Details));
    assert_eq!(app.status, None);
}

#[test]
fn copied_status_names_the_pane() {
    assert_eq!(copied_status(FocusPane::Evidence), "Copied evidence pane to clipboard");
}
