use oom_tui::model::MemInfo;
use oom_tui::parser::parse_log;

const LAPTOP: &str = "\
[ 8123.400001] Chrome_ChildIOT invoked oom-killer: gfp_mask=0x140cca(GFP_HIGHUSER_MOVABLE|__GFP_COMP), order=0, oom_score_adj=300
[ 8123.400010] Mem-Info:
[ 8123.400020] 2097152 pages RAM
[ 8123.400021] Free swap  = 0kB
[ 8123.400022] Total swap = 2097148kB
[ 8123.400030] Tasks state (memory values in pages):
[ 8123.400031] [  pid  ]   uid  tgid total_vm      rss pgtables_bytes swapents oom_score_adj name
[ 8123.400032] [   1201]  1000  1201  1700000  1284000 10887168        0             0 python3
[ 8123.400033] [   2210]  1000  2210  9300000   445000  5439488        0           300 chrome
[ 8123.400034] [   3300]  1000  3300     1000      500    65536       12          -100 Web Content
[ 8123.400040] oom-kill:constraint=CONSTRAINT_NONE,nodemask=(null),cpuset=/,mems_allowed=0,global_oom,task_memcg=/user.slice/user-1000.slice/session-2.scope,task=chrome,pid=2210,uid=1000
[ 8123.400050] Out of memory: Killed process 2210 (chrome) total-vm:37200000kB, anon-rss:1780000kB, file-rss:0kB, shmem-rss:0kB, UID:1000 pgtables:5312kB oom_score_adj:300
[ 8123.450000] oom_reaper: reaped process 2210 (chrome), now anon-rss:0kB, file-rss:0kB, shmem-rss:0kB
";

#[test]
fn the_process_table_is_read_into_the_event() {
    let events = parse_log(LAPTOP);
    assert_eq!(events.len(), 1);
    let e = &events[0];
    assert_eq!(e.processes.len(), 3);
    let python = &e.processes[0];
    assert_eq!(python.pid, 1201);
    assert_eq!(python.uid, 1000);
    assert_eq!(python.tgid, 1201);
    assert_eq!(python.total_vm_kb, 6_800_000);
    assert_eq!(python.rss_kb, 5_136_000);
    assert_eq!(python.swapents, 0);
    assert_eq!(python.oom_score_adj, 0);
    assert_eq!(python.name, "python3");
    assert_eq!(e.processes[2].name, "Web Content");
    assert_eq!(e.processes[2].oom_score_adj, -100);
    assert_eq!(e.processes[2].swapents, 12);
}

#[test]
fn the_memory_figures_are_read_into_the_event() {
    let e = &parse_log(LAPTOP)[0];
    assert_eq!(
        e.mem,
        Some(MemInfo { total_ram_kb: Some(8_388_608), swap_total_kb: Some(2_097_148), swap_free_kb: Some(0) })
    );
    assert_eq!(e.rss_share_parts(), Some((1_780_000, 8_388_608)));
}

#[test]
fn the_real_culprit_is_named_when_the_victim_was_smaller() {
    let e = &parse_log(LAPTOP)[0];
    assert_eq!(e.victim_was_largest(), Some(false));
    let top: Vec<u32> = e.top_consumers(usize::MAX).iter().map(|p| p.pid).collect();
    assert_eq!(top, vec![1201, 2210, 3300]);
    let report = oom_tui::analysis::investigate(e);
    assert_eq!(report.diagnosis.last().unwrap(), "Largest recorded task: python3 (PID 1201).");
}

#[test]
fn older_kernels_table_layout_is_read() {
    let text = "\
[  100.000000] bash invoked oom-killer: gfp_mask=0x24201ca, order=0, oom_score_adj=0
[  100.000001] [ pid ]   uid  tgid total_vm      rss nr_ptes nr_pmds swapents oom_score_adj name
[  100.000002] [  312]     0   312    12345     1234      28       3        0             0 systemd-journal
[  100.000003] [  999]  1000   999   500000   400000     800       4        7           200 leaky
[  100.000004] Out of memory: Killed process 999 (leaky) total-vm:2000000kB, anon-rss:1600000kB, file-rss:0kB, shmem-rss:0kB
";
    // this kill line lacks the pgtables field the grammar asks for, so no event
    assert!(parse_log(text).is_empty());
    let text = text.replace(
        "shmem-rss:0kB\n",
        "shmem-rss:0kB, UID:1000 pgtables:800kB oom_score_adj:200\n",
    );
    let events = parse_log(&text);
    assert_eq!(events.len(), 1);
    let e = &events[0];
    assert_eq!(e.processes.len(), 2);
    assert_eq!(e.processes[1].pid, 999);
    assert_eq!(e.processes[1].rss_kb, 1_600_000);
    assert_eq!(e.processes[1].swapents, 7);
    assert_eq!(e.processes[1].oom_score_adj, 200);
    assert_eq!(e.victim_was_largest(), Some(true));
    assert!(e.mem.is_none());
}

#[test]
fn a_truncated_report_does_not_bleed_into_the_next() {
    let text = "\
[ 1.0] a invoked oom-killer: gfp_mask=0x0, order=0, oom_score_adj=0
[ 1.1] [  pid  ]   uid  tgid total_vm      rss pgtables_bytes swapents oom_score_adj name
[ 1.2] [     10]     0    10      100   900000        0        0             0 huge
[ 2.0] b invoked oom-killer: gfp_mask=0x0, order=0, oom_score_adj=0
[ 2.1] Out of memory: Killed process 20 (b) total-vm:1kB, anon-rss:1kB, file-rss:0kB, shmem-rss:0kB, UID:0 pgtables:1kB oom_score_adj:0
";
    let events = parse_log(text);
    assert_eq!(events.len(), 1);
    assert!(events[0].processes.is_empty());
    assert_eq!(events[0].victim_was_largest(), None);
}

#[test]
fn rows_without_a_header_are_not_guessed_at() {
    let text = "\
[ 1.0] a invoked oom-killer: gfp_mask=0x0, order=0, oom_score_adj=0
[ 1.2] [     10]     0    10      100   900000        0        0             0 huge
[ 2.1] Out of memory: Killed process 20 (b) total-vm:1kB, anon-rss:1kB, file-rss:0kB, shmem-rss:0kB, UID:0 pgtables:1kB oom_score_adj:0
";
    let events = parse_log(text);
    assert!(events[0].processes.is_empty());
    // the row is still kept as raw evidence
    assert_eq!(events[0].raw_lines.len(), 3);
}
