use oom_tui::model::{MemInfo, OomEvent, ProcessEntry};

fn proc(pid: u32, rss_kb: u64) -> ProcessEntry {
    ProcessEntry { pid, rss_kb, name: format!("p{pid}"), ..Default::default() }
}

#[test]
fn rss_total_is_the_sum_of_its_parts() {
    let e = OomEvent { anon_rss_kb: Some(10), file_rss_kb: Some(20), shmem_rss_kb: Some(30), ..Default::default() };
    assert_eq!(e.rss_total_kb(), Some(60));
    let partial = OomEvent { anon_rss_kb: Some(10), file_rss_kb: None, shmem_rss_kb: Some(30), ..Default::default() };
    assert_eq!(partial.rss_total_kb(), None);
}

#[test]
fn rss_total_saturates_on_hostile_input() {
    let e = OomEvent {
        anon_rss_kb: Some(u64::MAX - 1),
        file_rss_kb: Some(u64::MAX - 1),
        shmem_rss_kb: Some(u64::MAX - 1),
        ..Default::default()
    };
    assert_eq!(e.rss_total_kb(), Some(u64::MAX));
}

#[test]
fn top_consumers_are_largest_first_and_stable() {
    let mut e = OomEvent::default();
    for (pid, rss) in [(1, 5), (2, 9), (3, 5), (4, 1), (5, 9)] {
        e.processes.push(proc(pid, rss));
    }
    let order: Vec<u32> = e.top_consumers(usize::MAX).iter().map(|p| p.pid).collect();
    assert_eq!(order, vec![2, 5, 1, 3, 4]);
    let top2: Vec<u32> = e.top_consumers(2).iter().map(|p| p.pid).collect();
    assert_eq!(top2, vec![2, 5]);
    assert!(e.top_consumers(0).is_empty());
    assert!(OomEvent::default().top_consumers(8).is_empty());
}

#[test]
fn the_victim_is_compared_with_the_largest() {
    let mut e = OomEvent { victim_pid: 2, ..Default::default() };
    assert_eq!(e.victim_was_largest(), None);
    e.processes.push(proc(1, 3));
    e.processes.push(proc(2, 9));
    assert_eq!(e.victim_was_largest(), Some(true));
    e.processes.push(proc(3, 9));
    // a tie for the largest still counts as the largest
    assert_eq!(e.victim_was_largest(), Some(true));
    e.processes.push(proc(4, 10));
    assert_eq!(e.victim_was_largest(), Some(false));
}

#[test]
fn share_of_ram_needs_both_figures() {
    let mut e = OomEvent { anon_rss_kb: Some(512), file_rss_kb: Some(0), shmem_rss_kb: Some(0), ..Default::default() };
    assert_eq!(e.rss_share_parts(), None);
    e.mem = Some(MemInfo { total_ram_kb: Some(0), ..Default::default() });
    assert_eq!(e.rss_share_parts(), None);
    e.mem = Some(MemInfo { total_ram_kb: Some(2048), ..Default::default() });
    assert_eq!(e.rss_share_parts(), Some((512, 2048)));
}

#[test]
fn defaults_are_empty() {
    let e = OomEvent::default();
    assert!(e.timestamp.is_none() && e.victim_name.is_empty() && e.processes.is_empty() && e.raw_lines.is_empty());
    assert_eq!(MemInfo::default(), MemInfo { total_ram_kb: None, swap_total_kb: None, swap_free_kb: None });
    assert_eq!(ProcessEntry::default().rss_kb, 0);
}

#[test]
fn a_victim_tied_for_the_largest_was_the_largest() {
    let e = OomEvent { victim_pid: 1, processes: vec![proc(1, 100), proc(2, 100)], ..Default::default() };
    assert_eq!(e.victim_was_largest(), Some(true));
    let e = OomEvent { victim_pid: 2, processes: vec![proc(1, 100), proc(2, 100)], ..Default::default() };
    assert_eq!(e.victim_was_largest(), Some(true));
    let e = OomEvent { victim_pid: 2, processes: vec![proc(1, 100), proc(2, 99)], ..Default::default() };
    assert_eq!(e.victim_was_largest(), Some(false));
    let e = OomEvent { victim_pid: 3, processes: vec![proc(1, 100)], ..Default::default() };
    assert_eq!(e.victim_was_largest(), Some(false));
}

#[test]
fn equal_tasks_keep_their_listed_order() {
    let e = OomEvent { processes: vec![proc(1, 5), proc(2, 9), proc(3, 5), proc(4, 9), proc(5, 1)], ..Default::default() };
    let all: Vec<u32> = e.top_consumers(usize::MAX).iter().map(|p| p.pid).collect();
    assert_eq!(all, vec![2, 4, 1, 3, 5]);
    let three: Vec<u32> = e.top_consumers(3).iter().map(|p| p.pid).collect();
    assert_eq!(three, vec![2, 4, 1]);
}
