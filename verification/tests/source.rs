use oom_tui::source::{
    describe_journal, dmesg_source, fallback_warning, file_source, journal_source, journalctl_args,
    after_read, first_attempt, next_attempt, usable_output, Attempt, BootScope, SourceOptions, SourceStep,
};

#[test]
fn current_boot_uses_the_dmesg_shorthand() {
    let args = journalctl_args(&SourceOptions::default());
    assert!(args.contains(&"-k".to_string()));
    assert!(!args.iter().any(|a| a.starts_with("_TRANSPORT")));
}

#[test]
fn all_boots_avoids_dash_k_because_it_implies_current_boot() {
    let opts = SourceOptions {
        boot: BootScope::All,
        ..Default::default()
    };
    let args = journalctl_args(&opts);
    assert!(args.contains(&"_TRANSPORT=kernel".to_string()));
    // -k would silently re-restrict us to the current boot.
    assert!(!args.contains(&"-k".to_string()));
}

#[test]
fn boot_offset_is_passed_through() {
    let opts = SourceOptions {
        boot: BootScope::Offset(-1),
        ..Default::default()
    };
    let args = journalctl_args(&opts);
    assert!(args.contains(&"-b".to_string()));
    assert!(args.contains(&"-1".to_string()));
}

#[test]
fn time_range_is_passed_through() {
    let opts = SourceOptions {
        since: Some("2 days ago".into()),
        until: Some("1 hour ago".into()),
        ..Default::default()
    };
    let args = journalctl_args(&opts);
    assert!(args.windows(2).any(|w| w == ["--since", "2 days ago"]));
    assert!(args.windows(2).any(|w| w == ["--until", "1 hour ago"]));
}

#[test]
fn fallback_sources_are_flagged_when_filters_were_requested() {
    assert!(SourceOptions {
        boot: BootScope::All,
        ..Default::default()
    }
    .needs_journal());
    assert!(!SourceOptions::default().needs_journal());
}

#[test]
fn journal_invocation_is_exact() {
    let opts = SourceOptions {
        boot: BootScope::Offset(-2),
        since: Some("yesterday".into()),
        ..Default::default()
    };
    assert_eq!(
        journalctl_args(&opts),
        vec!["-k", "-b", "-2", "--since", "yesterday", "-o", "short", "--no-pager"]
    );
    assert_eq!(
        journalctl_args(&SourceOptions::default()),
        vec!["-k", "-o", "short", "--no-pager"]
    );
}

#[test]
fn journal_descriptions_name_the_scope_and_window() {
    assert_eq!(describe_journal(&SourceOptions::default()), "journalctl (current boot)");
    let opts = SourceOptions {
        boot: BootScope::Offset(-1),
        since: Some("2 days ago".into()),
        until: Some("1 hour ago".into()),
        ..Default::default()
    };
    assert_eq!(
        describe_journal(&opts),
        "journalctl (boot -1) since 2 days ago until 1 hour ago"
    );
    let all = SourceOptions {
        boot: BootScope::All,
        ..Default::default()
    };
    assert_eq!(describe_journal(&all), "journalctl (all boots)");
}

#[test]
fn only_the_current_boot_journal_is_live() {
    let live = journal_source(&SourceOptions::default(), "x".to_string());
    assert!(live.is_live_local);
    assert!(live.warning.is_none());
    let zero = journal_source(
        &SourceOptions {
            boot: BootScope::Offset(0),
            ..Default::default()
        },
        "x".to_string(),
    );
    assert!(zero.is_live_local);
    assert_eq!(zero.description, "journalctl (boot 0)");
    let past = journal_source(&SourceOptions { boot: BootScope::Offset(-1), ..Default::default() }, "x".to_string());
    assert!(!past.is_live_local);
    let all = journal_source(&SourceOptions { boot: BootScope::All, ..Default::default() }, "x".to_string());
    assert!(!all.is_live_local);
}

#[test]
fn fallback_sources_carry_the_warning_only_when_filters_were_asked_for() {
    let filtered = SourceOptions {
        since: Some("today".into()),
        ..Default::default()
    };
    assert_eq!(
        fallback_warning(&filtered).as_deref(),
        Some("journalctl unavailable - boot/time filters were ignored by this source")
    );
    assert!(fallback_warning(&SourceOptions::default()).is_none());
    let d = dmesg_source(&filtered, true, "t".to_string());
    assert_eq!(d.description, "dmesg -T");
    assert!(d.is_live_local);
    assert!(d.warning.is_some());
    let plain = dmesg_source(&SourceOptions::default(), false, "t".to_string());
    assert_eq!(plain.description, "dmesg");
    assert!(plain.warning.is_none());
}

#[test]
fn files_and_stdin_are_described_by_where_they_came_from() {
    let opts = SourceOptions::default();
    assert_eq!(file_source(&opts, "-", false, String::new()).description, "stdin");
    let f = file_source(&opts, "/tmp/kern.log", false, String::new());
    assert_eq!(f.description, "file: /tmp/kern.log");
    assert!(!f.is_live_local);
    let sys = file_source(&opts, "/var/log/syslog", true, String::new());
    assert_eq!(sys.description, "file: /var/log/syslog");
}

#[test]
fn blank_or_failed_command_output_is_not_a_source() {
    assert_eq!(usable_output(true, "kernel line\n".to_string()).as_deref(), Some("kernel line\n"));
    assert!(usable_output(true, "  \n\t".to_string()).is_none());
    assert!(usable_output(false, "kernel line".to_string()).is_none());
}

#[test]
fn command_line_options_pick_the_boot_scope() {
    let all = SourceOptions::from_args(None, Some(-1), true, None, None);
    assert_eq!(all.boot, BootScope::All);
    let prev = SourceOptions::from_args(Some("f".into()), Some(-1), false, Some("s".into()), None);
    assert_eq!(prev.boot, BootScope::Offset(-1));
    assert_eq!(prev.file.as_deref(), Some("f"));
    assert_eq!(prev.since.as_deref(), Some("s"));
    assert_eq!(SourceOptions::from_args(None, None, false, None, None).boot, BootScope::Current);
}

#[test]
fn sources_are_tried_in_order() {
    assert_eq!(first_attempt(&SourceOptions::default()), Attempt::Journal);
    let file = SourceOptions { file: Some("x.log".to_string()), ..Default::default() };
    assert_eq!(first_attempt(&file), Attempt::File);
    assert_eq!(next_attempt(Attempt::File), Attempt::GiveUp);
    let mut order = vec![Attempt::Journal];
    while *order.last().unwrap() != Attempt::GiveUp {
        order.push(next_attempt(*order.last().unwrap()));
    }
    assert_eq!(
        order,
        vec![Attempt::Journal, Attempt::DmesgHuman, Attempt::Dmesg, Attempt::SyslogFile, Attempt::MessagesFile, Attempt::GiveUp]
    );
}

#[test]
fn a_read_either_makes_the_source_or_moves_on() {
    let opts = SourceOptions { boot: BootScope::Offset(-1), ..Default::default() };
    match after_read(&opts, Attempt::DmesgHuman, Some("x".to_string())) {
        SourceStep::Found(s) => {
            assert_eq!(s.description, "dmesg -T");
            assert_eq!(s.text, "x");
            assert!(s.is_live_local);
            assert!(s.warning.is_some());
        }
        _ => panic!("expected a source"),
    }
    match after_read(&opts, Attempt::SyslogFile, Some("y".to_string())) {
        SourceStep::Found(s) => {
            assert_eq!(s.description, "file: /var/log/syslog");
            assert!(!s.is_live_local);
        }
        _ => panic!("expected a source"),
    }
    assert!(matches!(after_read(&opts, Attempt::Journal, None), SourceStep::Try(Attempt::DmesgHuman)));
    assert!(matches!(after_read(&opts, Attempt::MessagesFile, None), SourceStep::Exhausted));
}
