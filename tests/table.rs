use proc_manager::entry::{ProcessInfo, Status};
use proc_manager::launch::split_command;
use proc_manager::liveness::{alive_among, live_pids, reap_processes, PidState};
use proc_manager::table::{group_target, parse_pid, register_process, ProcessTable};

fn info(cmd: &str, name: &str, status: Status, start_ms: u64, timeout_ms: Option<u64>) -> ProcessInfo {
    ProcessInfo {
        cmd_str: cmd.to_string(),
        log_file: format!("/tmp/{}.log", name),
        status,
        start_time_ms: start_ms,
        timeout_ms,
        script_name: name.to_string(),
        working_dir: "/tmp".to_string(),
        display_name: name.to_string(),
    }
}

fn status_of(t: &ProcessTable, pid: u32) -> Option<Status> {
    t.get(pid).map(|i| i.status)
}

#[test]
fn sequential_registers_keep_every_entry() {
    let mut t = ProcessTable::new();
    for k in 0..10u32 {
        register_process(
            &mut t,
            1000 + k,
            format!("job {}", k),
            None,
            format!("/tmp/job{}.log", k),
            "job".to_string(),
            "/tmp".to_string(),
            format!("job{}", k),
            5000,
        );
    }
    assert_eq!(t.len(), 10);
    for k in 0..10u32 {
        let i = t.get(1000 + k).unwrap();
        assert_eq!(i.status, Status::Running);
        assert_eq!(i.display_name, format!("job{}", k));
        assert_eq!(i.start_time_ms, 5000);
    }
}

#[test]
fn register_same_pid_replaces_entry() {
    let mut t = ProcessTable::new();
    t.register(7, info("a", "a", Status::Completed, 1, None));
    t.register(7, info("b", "b", Status::Running, 2, None));
    assert_eq!(t.len(), 1);
    assert_eq!(t.get(7).unwrap().cmd_str, "b");
}

#[test]
fn reap_twice_gives_same_table() {
    let mut t = ProcessTable::new();
    t.register(1, info("a", "a", Status::Running, 0, Some(1000)));
    t.register(2, info("b", "b", Status::Running, 0, None));
    t.register(3, info("c", "c", Status::Running, 0, Some(100_000)));
    t.register(4, info("d", "d", Status::KilledManual, 0, None));
    let live = vec![1, 3];
    let kills = t.reap(5000, &live);
    assert_eq!(kills, vec![1]);
    let first: Vec<Option<Status>> = (1..=4).map(|p| status_of(&t, p)).collect();
    assert_eq!(
        first,
        vec![
            Some(Status::KilledTimeout),
            Some(Status::Completed),
            Some(Status::Running),
            Some(Status::KilledManual)
        ]
    );
    let kills2 = t.reap(5000, &live);
    assert!(kills2.is_empty());
    let second: Vec<Option<Status>> = (1..=4).map(|p| status_of(&t, p)).collect();
    assert_eq!(first, second);
}

#[test]
fn timeout_kills_exactly_at_the_limit() {
    let mut t = ProcessTable::new();
    t.register(9, info("sleep 100", "s", Status::Running, 1000, Some(5000)));
    let live = vec![9];
    assert!(t.reap(5999, &live).is_empty());
    assert_eq!(status_of(&t, 9), Some(Status::Running));
    assert_eq!(t.reap(6000, &live), vec![9]);
    assert_eq!(status_of(&t, 9), Some(Status::KilledTimeout));
}

#[test]
fn clock_before_start_never_times_out() {
    let mut t = ProcessTable::new();
    t.register(9, info("x", "x", Status::Running, 10_000, Some(0)));
    assert!(t.reap(5_000, &vec![9]).is_empty());
    assert_eq!(status_of(&t, 9), Some(Status::Running));
}

#[test]
fn dead_process_completes_even_past_timeout() {
    let mut t = ProcessTable::new();
    t.register(9, info("x", "x", Status::Running, 0, Some(10)));
    assert!(t.reap(1_000_000, &vec![]).is_empty());
    assert_eq!(status_of(&t, 9), Some(Status::Completed));
}

#[test]
fn manual_stop_is_never_revived() {
    let mut t = ProcessTable::new();
    t.register(5, info("a", "a", Status::Running, 0, None));
    t.register(6, info("b", "b", Status::Running, 0, None));
    assert!(t.mark_stopped(5));
    assert!(!t.mark_stopped(5));
    assert_eq!(status_of(&t, 5), Some(Status::KilledManual));
    assert_eq!(t.revive_candidates(&vec![]), vec![6]);
    t.reap(0, &vec![]);
    assert_eq!(status_of(&t, 5), Some(Status::KilledManual));
}

#[test]
fn restart_echo_hi_replaces_the_entry() {
    let mut t = ProcessTable::new();
    t.register(42, info("echo hi", "echo", Status::Completed, 100, Some(3000)));
    t.register(50, info("other", "other", Status::Running, 100, None));
    let cmd = split_command(&t.get(42).unwrap().cmd_str).unwrap();
    assert_eq!(cmd.program, "echo");
    assert_eq!(cmd.args, vec!["hi".to_string()]);
    assert!(t.relaunch(42, 43, 9000));
    assert_eq!(t.len(), 2);
    assert!(t.get(42).is_none());
    let n = t.get(43).unwrap();
    assert_eq!(n.status, Status::Running);
    assert_eq!(n.cmd_str, "echo hi");
    assert_eq!(n.start_time_ms, 9000);
    assert_eq!(n.timeout_ms, Some(3000));
    assert!(!t.relaunch(42, 44, 9000));
    assert_eq!(t.len(), 2);
}

#[test]
fn prune_keeps_running_and_second_prune_removes_nothing() {
    let mut t = ProcessTable::new();
    t.register(1, info("a", "a", Status::Running, 0, None));
    t.register(2, info("b", "b", Status::Completed, 0, None));
    t.register(3, info("c", "c", Status::KilledManual, 0, None));
    t.register(4, info("d", "d", Status::Running, 0, None));
    t.register(5, info("e", "e", Status::KilledTimeout, 0, None));
    assert_eq!(t.prune(), 3);
    let pids: Vec<u32> = t.entries().iter().map(|e| e.pid).collect();
    assert_eq!(pids, vec![1, 4]);
    assert_eq!(t.prune(), 0);
    assert_eq!(t.len(), 2);
}

#[test]
fn remove_and_find() {
    let mut t = ProcessTable::new();
    t.register(1, info("a", "a", Status::Running, 0, None));
    t.register(2, info("b", "b", Status::Running, 0, None));
    assert_eq!(t.find_index(2), Some(1));
    let gone = t.remove(1).unwrap();
    assert_eq!(gone.cmd_str, "a");
    assert!(t.remove(1).is_none());
    assert_eq!(t.find_index(2), Some(0));
    assert!(t.is_running(2));
    assert!(!t.is_running(1));
}

#[test]
fn resolve_by_pid_then_by_name() {
    let mut t = ProcessTable::new();
    t.register(12, info("a", "web", Status::Running, 0, None));
    t.register(34, info("b", "12x", Status::Running, 0, None));
    t.register(56, info("c", "web", Status::Running, 0, None));
    assert_eq!(t.resolve_target("34"), Some(34));
    assert_eq!(t.resolve_target("web"), Some(12));
    assert_eq!(t.resolve_target("12x"), Some(34));
    assert_eq!(t.resolve_target("012"), None);
    assert_eq!(t.resolve_target("nothing"), None);
}

#[test]
fn running_name_lookup_ignores_terminal_entries() {
    let mut t = ProcessTable::new();
    t.register(1, info("a", "S:web", Status::KilledManual, 0, None));
    assert!(!t.has_running_named("S:web"));
    t.register(2, info("a", "S:web", Status::Running, 0, None));
    assert!(t.has_running_named("S:web"));
}

#[test]
fn sorted_snapshot_is_latest_first() {
    let mut t = ProcessTable::new();
    t.register(1, info("a", "a", Status::Running, 300, None));
    t.register(2, info("b", "b", Status::Completed, 900, None));
    t.register(3, info("c", "c", Status::Running, 100, None));
    t.register(4, info("d", "d", Status::Running, 500, None));
    let pids: Vec<u32> = t.into_sorted_by_start().iter().map(|e| e.pid).collect();
    assert_eq!(pids, vec![2, 4, 1, 3]);
}

#[test]
fn status_spellings_round_trip() {
    for s in [Status::Running, Status::Completed, Status::KilledManual, Status::KilledTimeout] {
        assert_eq!(Status::from_text(s.as_text()), s);
    }
    assert_eq!(Status::KilledTimeout.as_text(), "killed (timeout)");
    assert_eq!(Status::from_text("stopped"), Status::Completed);
}

#[test]
fn pid_keys_parse() {
    assert_eq!(parse_pid("1234"), Some(1234));
    assert_eq!(parse_pid("2147483647"), Some(2147483647));
    assert_eq!(parse_pid("2147483648"), None);
    assert_eq!(parse_pid("4294967295"), None);
    assert_eq!(parse_pid("0"), None);
    assert_eq!(parse_pid("12a"), None);
    assert_eq!(parse_pid(""), None);
}

#[test]
fn live_pids_asks_the_os() {
    let mut t = ProcessTable::new();
    t.register(1, info("init", "init", Status::Running, 0, None));
    t.register(4_000_000_000, info("none", "none", Status::Running, 0, None));
    t.register(2_000_000_000, info("done", "done", Status::Completed, 0, None));
    assert_eq!(live_pids(&t), vec![1]);
}

#[test]
fn unsignalable_pids_are_never_killed() {
    let mut t = ProcessTable::new();
    t.register(0, info("a", "a", Status::Running, 0, Some(10)));
    t.register(3_000_000_000, info("b", "b", Status::Running, 0, Some(10)));
    t.register(8, info("c", "c", Status::Running, 0, Some(10)));
    let kills = t.reap(1_000, &vec![0, 3_000_000_000, 8]);
    assert_eq!(kills, vec![8]);
    assert_eq!(status_of(&t, 0), Some(Status::KilledTimeout));
}

#[test]
fn group_targets() {
    assert_eq!(group_target(1234), Some(-1234));
    assert_eq!(group_target(i32::MAX as u32), Some(-i32::MAX));
    assert_eq!(group_target(0), None);
    assert_eq!(group_target(2_147_483_648), None);
}

#[test]
fn failed_relaunch_changes_nothing() {
    let mut t = ProcessTable::new();
    t.register(42, info("echo hi", "echo", Status::Running, 100, None));
    assert!(!t.finish_relaunch(42, None, 500));
    assert_eq!(t.len(), 1);
    assert_eq!(t.get(42).unwrap().start_time_ms, 100);
    assert!(t.finish_relaunch(42, Some(43), 500));
    assert!(t.get(42).is_none());
    assert_eq!(t.get(43).unwrap().start_time_ms, 500);
}

#[test]
fn only_present_processes_count_as_alive() {
    let pids = vec![1, 2, 3, 4, 5, 6];
    let states = vec![
        PidState::Run,
        PidState::Zombie,
        PidState::Missing,
        PidState::Dead,
        PidState::Sleep,
        PidState::Unknown(7),
    ];
    assert_eq!(alive_among(&pids, &states), vec![1, 5, 6]);
    assert!(!PidState::Dead.is_alive());
    assert!(PidState::UninterruptibleDiskSleep.is_alive());
}

#[test]
fn revive_relaunches_only_running_entries() {
    let mut t = ProcessTable::new();
    t.register(20, info("prog a  b", "p", Status::Running, 100, Some(7)));
    t.register(21, info("prog", "q", Status::KilledManual, 100, None));
    t.register(22, info("   ", "r", Status::Running, 100, None));
    let plan = t.revive_plan(20).unwrap();
    assert_eq!(plan.program, "prog");
    assert_eq!(plan.args, vec!["a".to_string(), "b".to_string()]);
    assert_eq!(plan.working_dir, "/tmp");
    assert_eq!(plan.log_file, "/tmp/p.log");
    assert!(t.revive_plan(21).is_none());
    assert!(t.respawn_plan(21).is_some());
    assert!(t.revive_plan(22).is_none());
    assert!(t.revive_plan(99).is_none());

    assert!(!t.apply_revive(20, None, 500));
    assert_eq!(t.get(20).unwrap().start_time_ms, 100);
    assert!(!t.apply_revive(21, Some(30), 500));
    assert_eq!(status_of(&t, 21), Some(Status::KilledManual));
    assert!(t.get(30).is_none());
    assert!(t.apply_revive(20, Some(31), 500));
    assert!(t.get(20).is_none());
    let n = t.get(31).unwrap();
    assert_eq!(n.status, Status::Running);
    assert_eq!(n.cmd_str, "prog a  b");
    assert_eq!(n.start_time_ms, 500);
    assert_eq!(n.timeout_ms, Some(7));
    assert_eq!(t.len(), 3);
}

#[test]
fn reap_hands_back_sorted_entries() {
    let mut t = ProcessTable::new();
    t.register(4_000_000_000, info("gone", "gone", Status::Running, 200, None));
    t.register(1, info("init", "init", Status::Running, 500, None));
    t.register(2_000_000_000, info("old", "old", Status::Completed, 900, None));
    let out = reap_processes(&mut t, 1_000);
    assert!(out.kills.is_empty());
    let pids: Vec<u32> = out.entries.iter().map(|e| e.pid).collect();
    assert_eq!(pids, vec![2_000_000_000, 1, 4_000_000_000]);
    assert_eq!(out.entries[2].info.status, Status::Completed);
    assert_eq!(out.entries[1].info.status, Status::Running);
    assert_eq!(t.sorted_by_start().len(), 3);
}
