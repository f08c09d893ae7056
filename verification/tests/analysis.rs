use oom_tui::analysis::{investigate, memory};
use oom_tui::model::{OomEvent, ProcessEntry};

#[test]
fn host_diagnosis_only_uses_recorded_facts() {
    let event = OomEvent {
        victim_name: "postgres".to_string(),
        victim_pid: 1433,
        anon_rss_kb: Some(320_000),
        file_rss_kb: Some(0),
        shmem_rss_kb: Some(0),
        gfp_mask: Some("GFP_KERNEL".to_string()),
        order: Some(0),
        ..Default::default()
    };
    let report = investigate(&event);
    assert!(report.summary[0].contains("Host-wide"));
    assert!(report.summary.iter().any(|line| line.contains("Anonymous RSS")));
    assert!(report.diagnosis.iter().any(|line| line.contains("No cgroup limit")));
    assert!(report.diagnosis.iter().any(|line| line.contains("not reported")));
    assert!(report.summary.len() <= 5);
    assert!(report.diagnosis.len() <= 5);
}

#[test]
fn cgroup_diagnosis_keeps_missing_limit_explicit() {
    let event = OomEvent {
        victim_name: "redis".to_string(),
        victim_pid: 9,
        memcg_kill: true,
        ..Default::default()
    };
    let report = investigate(&event);
    assert!(report.diagnosis[0].contains("Memory cgroup"));
    assert!(report.diagnosis.iter().any(|line| line.contains("not reported by kernel")));
}

#[test]
fn investigation_text_is_exact() {
    let event = OomEvent {
        victim_name: "postgres".to_string(),
        victim_pid: 1433,
        anon_rss_kb: Some(320_000),
        file_rss_kb: Some(0),
        shmem_rss_kb: Some(0),
        gfp_mask: Some("GFP_KERNEL".to_string()),
        order: Some(0),
        trigger_process: Some("psql".to_string()),
        ..Default::default()
    };
    let report = investigate(&event);
    assert_eq!(
        report.summary,
        vec![
            "Host-wide memory exhaustion caused the kernel to terminate postgres (PID 1433).",
            "Victim RSS: 312.5 MiB.",
            "Anonymous RSS accounts for 312.5 MiB.",
            "Allocation failed: order 0 using GFP_KERNEL.",
        ]
    );
    assert_eq!(
        report.diagnosis,
        vec![
            "Kernel invoked the host-wide OOM killer.",
            "postgres (PID 1433) was selected as the victim.",
            "No cgroup limit was reported.",
            "Failed allocation was triggered by psql.",
        ]
    );
}

#[test]
fn a_victim_smaller_than_another_task_names_the_larger_one() {
    let mut event = OomEvent {
        victim_name: "chrome".to_string(),
        victim_pid: 10,
        memcg_kill: true,
        limit_cgroup: Some("/user.slice".to_string()),
        ..Default::default()
    };
    event.processes.push(ProcessEntry { pid: 10, name: "chrome".to_string(), rss_kb: 100, ..Default::default() });
    event.processes.push(ProcessEntry { pid: 20, name: "python3".to_string(), rss_kb: 500, ..Default::default() });
    let report = investigate(&event);
    assert_eq!(report.diagnosis[2], "Reported limit cgroup: /user.slice.");
    assert_eq!(report.diagnosis[4], "Largest recorded task: python3 (PID 20).");
    assert_eq!(report.summary[1], "Victim RSS: not reported by kernel.");
}

#[test]
fn memory_is_mebibytes_with_one_decimal() {
    assert_eq!(memory(0), "0.0 MiB");
    assert_eq!(memory(1024), "1.0 MiB");
    assert_eq!(memory(222856), "217.6 MiB");
    // agrees with the floating-point formatting it stands for
    for kb in [1u64, 51, 52, 102, 153, 512, 1535, 999_999, 123_456_789, u64::MAX, (1u64 << 53) + 1, 9_007_199_254_740_993] {
        assert_eq!(memory(kb), format!("{:.1} MiB", kb as f64 / 1024.0), "kb = {kb}");
    }
}

#[test]
fn the_diagnosis_opens_with_the_scope_and_names_a_larger_task() {
    let p = |pid: u32, rss_kb: u64| ProcessEntry { pid, rss_kb, name: format!("p{pid}"), ..Default::default() };
    let e = OomEvent { victim_pid: 1, processes: vec![p(1, 5), p(2, 9)], ..Default::default() };
    let r = investigate(&e);
    assert_eq!(r.diagnosis[0], "Kernel invoked the host-wide OOM killer.");
    assert_eq!(r.summary[1], "Victim RSS: not reported by kernel.");
    assert!(r.diagnosis.iter().any(|l| l.starts_with("Largest recorded task:")));
    let tied = OomEvent { victim_pid: 1, processes: vec![p(1, 9), p(2, 9)], ..Default::default() };
    assert!(!investigate(&tied).diagnosis.iter().any(|l| l.starts_with("Largest recorded task:")));
}
