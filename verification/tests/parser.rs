use oom_tui::parser::{parse_log, strip_prefix};

const SAMPLE: &str = "\
[ 767.925606] stress invoked oom-killer: gfp_mask=0x100cca(GFP_HIGHUSER_MOVABLE), order=0, oom_score_adj=0
[ 767.925620] oom-kill:constraint=CONSTRAINT_NONE,nodemask=(null),cpuset=/,mems_allowed=0,global_oom,task_memcg=/user.slice/user-1000.slice/session-1.scope,task=stress,pid=1433,uid=1000
[ 767.925620] Out of memory: Killed process 1433 (stress) total-vm:265804kB, anon-rss:222856kB, file-rss:0kB, shmem-rss:0kB, UID:1000 pgtables:496kB oom_score_adj:0
[ 767.973170] oom_reaper: reaped process 1433 (stress), now anon-rss:0kB, file-rss:0kB, shmem-rss:0kB
";

const SYSLOG_SAMPLE: &str = "Mar 24 18:41:04 PLEDXDBOR0G kernel: Out of memory: Killed process 2475067 (postgres) total-vm:2484556kB, anon-rss:143224kB, file-rss:0kB, shmem-rss:452kB, UID:1011 pgtables:588kB oom_score_adj:900";

const DMESG_HUMAN_SAMPLE: &str = "[Sat Jul 18 09:03:34 2026] Out of memory: Killed process 99 (worker) total-vm:1024kB, anon-rss:512kB, file-rss:0kB, shmem-rss:0kB, UID:1000 pgtables:16kB oom_score_adj:0";

const MEMCG_SAMPLE: &str = "Memory cgroup out of memory: Killed process 42 (stress-ng-vm) total-vm:524288kB, anon-rss:262144kB, file-rss:0kB, shmem-rss:0kB, UID:1000 pgtables:512kB oom_score_adj:0";

#[test]
fn parses_full_dmesg_sequence() {
    let events = parse_log(SAMPLE);
    assert_eq!(events.len(), 1);
    let e = &events[0];
    assert_eq!(e.victim_name, "stress");
    assert_eq!(e.victim_pid, 1433);
    assert_eq!(e.trigger_process.as_deref(), Some("stress"));
    assert_eq!(e.constraint.as_deref(), Some("CONSTRAINT_NONE"));
    assert_eq!(
        e.cgroup.as_deref(),
        Some("/user.slice/user-1000.slice/session-1.scope")
    );
    assert_eq!(e.anon_rss_kb, Some(222856));
    assert_eq!(e.uid, Some(1000));
    assert!(e.reaped);
    assert_eq!(e.rss_total_kb(), Some(222856));
}

#[test]
fn parses_bare_syslog_line_with_no_trigger_context() {
    let events = parse_log(SYSLOG_SAMPLE);
    assert_eq!(events.len(), 1);
    let e = &events[0];
    assert_eq!(e.victim_name, "postgres");
    assert_eq!(e.victim_pid, 2475067);
    assert_eq!(e.uid, Some(1011));
    assert_eq!(e.oom_score_adj, Some(900));
    assert!(e.trigger_process.is_none());
    assert!(!e.reaped);
}

#[test]
fn parses_human_readable_dmesg_timestamp() {
    let events = parse_log(DMESG_HUMAN_SAMPLE);
    assert_eq!(events.len(), 1);
    assert_eq!(events[0].timestamp.as_deref(), Some("Sat Jul 18 09:03:34 2026"));
    assert_eq!(events[0].victim_name, "worker");
}

#[test]
fn parses_memory_cgroup_kill() {
    let events = parse_log(MEMCG_SAMPLE);
    assert_eq!(events.len(), 1);
    assert_eq!(events[0].victim_pid, 42);
    assert_eq!(events[0].victim_name, "stress-ng-vm");
}

#[test]
fn ignores_unrelated_log_noise() {
    let text = "Jan  1 00:00:01 host kernel: Linux version 6.1.0\nJan  1 00:00:02 host systemd[1]: Started foo.service\n";
    let events = parse_log(text);
    assert!(events.is_empty());
}

#[test]
fn full_sequence_keeps_every_field_and_its_raw_lines() {
    let e = &parse_log(SAMPLE)[0];
    assert_eq!(e.timestamp.as_deref(), Some("+767.925620s"));
    assert_eq!(e.gfp_mask.as_deref(), Some("0x100cca(GFP_HIGHUSER_MOVABLE)"));
    assert_eq!(e.order, Some(0));
    assert_eq!(e.total_vm_kb, Some(265804));
    assert_eq!(e.file_rss_kb, Some(0));
    assert_eq!(e.shmem_rss_kb, Some(0));
    assert_eq!(e.pgtables_kb, Some(496));
    assert_eq!(e.oom_score_adj, Some(0));
    assert!(!e.memcg_kill);
    assert!(e.limit_cgroup.is_none());
    assert!(e.occurred_at.is_none());
    let lines: Vec<&str> = SAMPLE.lines().collect();
    assert_eq!(e.raw_lines, lines);
}

#[test]
fn cgroup_kill_is_marked_by_its_message() {
    let events = parse_log(MEMCG_SAMPLE);
    assert!(events[0].memcg_kill);
}

#[test]
fn memcg_constraint_records_the_limit_cgroup() {
    let text = "\
[ 10.000000] node invoked oom-killer: gfp_mask=0xcc0(GFP_KERNEL), order=2, oom_score_adj=0
[ 10.000001] oom-kill:constraint=CONSTRAINT_MEMCG,nodemask=(null),cpuset=/,mems_allowed=0,oom_memcg=/kubepods.slice/kubepods-burstable.slice,task_memcg=/kubepods.slice/kubepods-burstable.slice/pod1/cri-containerd-abc.scope,task=node,pid=77,uid=0
[ 10.000002] Memory cgroup out of memory: Killed process 77 (node) total-vm:100kB, anon-rss:50kB, file-rss:1kB, shmem-rss:2kB, UID:0 pgtables:4kB oom_score_adj:-998
";
    let events = parse_log(text);
    assert_eq!(events.len(), 1);
    let e = &events[0];
    assert!(e.memcg_kill);
    assert_eq!(e.constraint.as_deref(), Some("CONSTRAINT_MEMCG"));
    assert_eq!(e.limit_cgroup.as_deref(), Some("/kubepods.slice/kubepods-burstable.slice"));
    assert_eq!(
        e.cgroup.as_deref(),
        Some("/kubepods.slice/kubepods-burstable.slice/pod1/cri-containerd-abc.scope")
    );
    assert_eq!(e.order, Some(2));
    assert_eq!(e.oom_score_adj, Some(-998));
    assert_eq!(e.rss_total_kb(), Some(53));
    assert!(!e.reaped);
}

#[test]
fn rsyslog_lines_with_both_prefixes_are_read() {
    let text = "Mar 24 18:41:04 host kernel: [ 767.925620] Out of memory: Killed process 5 (leaky) total-vm:10kB, anon-rss:9kB, file-rss:0kB, shmem-rss:0kB, UID:0 pgtables:1kB oom_score_adj:0";
    let events = parse_log(text);
    assert_eq!(events.len(), 1);
    assert_eq!(events[0].timestamp.as_deref(), Some("Mar 24 18:41:04"));
    assert_eq!(events[0].victim_name, "leaky");
}

#[test]
fn older_kills_with_uid_before_the_sizes_are_read() {
    let text = "Out of memory: Killed process 7 (old), UID 1000, total-vm:10kB, anon-rss:9kB, file-rss:0kB, shmem-rss:0kB pgtables:1kB oom_score_adj:0";
    let events = parse_log(text);
    assert_eq!(events.len(), 1);
    assert_eq!(events[0].uid, Some(1000));
}

#[test]
fn a_reaper_line_for_another_pid_does_not_confirm() {
    let text = "\
Out of memory: Killed process 11 (a) total-vm:1kB, anon-rss:1kB, file-rss:0kB, shmem-rss:0kB, UID:0 pgtables:1kB oom_score_adj:0
oom_reaper: reaped process 12 (b), now anon-rss:0kB
";
    let events = parse_log(text);
    assert!(!events[0].reaped);
    assert_eq!(events[0].raw_lines.len(), 1);
}

#[test]
fn context_lines_between_trigger_and_kill_are_kept_but_bounded() {
    let mut text = String::from("[ 1.0] x invoked oom-killer: gfp_mask=0x0, order=0, oom_score_adj=0\n");
    for i in 0..300 {
        text.push_str(&format!("[ 1.0] noise line {i}\n"));
    }
    text.push_str("[ 1.1] Out of memory: Killed process 3 (x) total-vm:1kB, anon-rss:1kB, file-rss:0kB, shmem-rss:0kB, UID:0 pgtables:1kB oom_score_adj:0\n");
    let events = parse_log(&text);
    assert_eq!(events.len(), 1);
    // 200 pending lines at most, then the kill line itself.
    assert_eq!(events[0].raw_lines.len(), 201);
}

#[test]
fn each_kill_makes_one_event_in_order() {
    let text = format!("{MEMCG_SAMPLE}\n{SYSLOG_SAMPLE}\n{DMESG_HUMAN_SAMPLE}\n");
    let events = parse_log(&text);
    let pids: Vec<u32> = events.iter().map(|e| e.victim_pid).collect();
    assert_eq!(pids, vec![42, 2475067, 99]);
}

#[test]
fn unicode_white_space_separates_fields_as_the_regex_did() {
    // U+00A0 is `\s` to the regex crate.
    let text = "Out of memory:\u{a0}Killed process 9 (nb) total-vm:1kB, anon-rss:1kB, file-rss:0kB, shmem-rss:0kB, UID:0 pgtables:1kB oom_score_adj:0";
    let events = parse_log(text);
    assert_eq!(events.len(), 1);
    assert_eq!(events[0].victim_pid, 9);
}

#[test]
fn prefixes_are_stripped_with_their_timestamps() {
    assert_eq!(
        strip_prefix("[ 767.925606] hello"),
        (Some("+767.925606s".to_string()), "hello".to_string())
    );
    assert_eq!(
        strip_prefix("[Sat Jul 18 09:03:34 2026] hello"),
        (Some("Sat Jul 18 09:03:34 2026".to_string()), "hello".to_string())
    );
    assert_eq!(
        strip_prefix("Mar 24 18:41:04 host kernel: hello"),
        (Some("Mar 24 18:41:04".to_string()), "hello".to_string())
    );
    assert_eq!(strip_prefix("plain"), (None, "plain".to_string()));
}

#[test]
fn unicode_digits_and_letters_count_as_the_regex_counted_them() {
    // `\d` takes any Unicode decimal digit; such a PID does not parse, so it is 0.
    let text = "Out of memory: Killed process \u{0661}\u{0662} (ar) total-vm:1kB, anon-rss:1kB, file-rss:0kB, shmem-rss:0kB, UID:0 pgtables:1kB oom_score_adj:0";
    let events = parse_log(text);
    assert_eq!(events.len(), 1);
    assert_eq!(events[0].victim_pid, 0);
    // `\w` takes any Unicode letter in a syslog month.
    let (ts, rest) = strip_prefix("M\u{e4}r 24 18:41:04 host kernel: hello");
    assert_eq!(ts.as_deref(), Some("M\u{e4}r 24 18:41:04"));
    assert_eq!(rest, "hello");
}

#[test]
fn the_reaper_search_stops_at_the_next_report() {
    let text = "\
Out of memory: Killed process 11 (a) total-vm:1kB, anon-rss:1kB, file-rss:0kB, shmem-rss:0kB, UID:0 pgtables:1kB oom_score_adj:0
b invoked oom-killer: gfp_mask=0x0, order=0, oom_score_adj=0
oom_reaper: reaped process 11 (a), now anon-rss:0kB
";
    let events = parse_log(text);
    assert!(!events[0].reaped);
    assert_eq!(events[0].raw_lines.last().unwrap(), text.lines().next().unwrap());
    let confirmed = "\
Out of memory: Killed process 11 (a) total-vm:1kB, anon-rss:1kB, file-rss:0kB, shmem-rss:0kB, UID:0 pgtables:1kB oom_score_adj:0
unrelated
oom_reaper: reaped process 11 (a), now anon-rss:0kB
";
    let events = parse_log(confirmed);
    assert!(events[0].reaped);
    let lines: Vec<&str> = confirmed.lines().collect();
    assert_eq!(events[0].raw_lines, vec![lines[0].to_string(), lines[2].to_string()]);
}

/// The Unicode `White_Space` property, as the library's specification lists it.
fn listed_white_space(c: char) -> bool {
    let u = c as u32;
    (0x09..=0x0D).contains(&u)
        || u == 0x20
        || u == 0x85
        || u == 0xA0
        || u == 0x1680
        || (0x2000..=0x200A).contains(&u)
        || u == 0x2028
        || u == 0x2029
        || u == 0x202F
        || u == 0x205F
        || u == 0x3000
}

#[test]
fn white_space_is_the_listed_property_for_std_and_regex() {
    let space = regex::Regex::new("^\\s$").unwrap();
    let mut buf = [0u8; 4];
    for u in 0..=0x10FFFFu32 {
        if let Some(c) = char::from_u32(u) {
            assert_eq!(c.is_whitespace(), listed_white_space(c), "U+{u:04X}");
            assert_eq!(space.is_match(c.encode_utf8(&mut buf)), listed_white_space(c), "U+{u:04X}");
        }
    }
}
