use proc_manager::entry::{ProcessInfo, Status};
use proc_manager::schedule::{
    add_job, correlation_name_of, daemon_running, disable_job, frequency_value_of, job_launch_args,
    parse_frequency, remove_job, scheduler_tick, ScheduledJob, DAEMON_NAME,
};
use proc_manager::table::ProcessTable;

fn job(name: &str, freq: &str, start_at: u64, last_run: Option<u64>, enabled: bool) -> ScheduledJob {
    ScheduledJob {
        name: name.to_string(),
        command: "run.sh".to_string(),
        args: vec!["--fast".to_string(), "x".to_string()],
        frequency: freq.to_string(),
        start_at,
        working_dir: "/srv".to_string(),
        last_run,
        enabled,
    }
}

fn entry(name: &str, status: Status) -> ProcessInfo {
    ProcessInfo {
        cmd_str: "run.sh --fast x".to_string(),
        log_file: "/tmp/run.log".to_string(),
        status,
        start_time_ms: 0,
        timeout_ms: None,
        script_name: "run.sh".to_string(),
        working_dir: "/srv".to_string(),
        display_name: name.to_string(),
    }
}

#[test]
fn frequency_examples() {
    assert_eq!(parse_frequency("1m"), 60);
    assert_eq!(parse_frequency("2h"), 7200);
    assert_eq!(parse_frequency("3d"), 259200);
    assert_eq!(parse_frequency("10s"), 10);
    assert_eq!(parse_frequency("xyz"), 60);
}

#[test]
fn frequency_edge_cases() {
    assert_eq!(frequency_value_of("5"), None);
    assert_eq!(frequency_value_of("m"), None);
    assert_eq!(frequency_value_of(""), None);
    assert_eq!(frequency_value_of("5x"), None);
    assert_eq!(frequency_value_of("+5m"), Some(300));
    assert_eq!(frequency_value_of("0s"), Some(0));
    assert_eq!(frequency_value_of("-5m"), None);
    assert_eq!(frequency_value_of("213503982334602d"), None);
    assert_eq!(parse_frequency("213503982334602d"), 60);
    assert_eq!(frequency_value_of("213503982334601d"), Some(18446744073709526400));
}

#[test]
fn disabled_job_never_spawns() {
    let mut jobs = vec![job("idle", "1s", 0, None, false), job("idle2", "1s", 0, Some(0), false)];
    let table = ProcessTable::new();
    let out = scheduler_tick(&mut jobs, &table, 1_000_000);
    assert!(out.spawn.is_empty());
    assert!(!out.changed);
    assert_eq!(jobs[0].last_run, None);
    assert_eq!(jobs[1].last_run, Some(0));
}

#[test]
fn running_job_is_not_duplicated() {
    let mut jobs = vec![job("web", "1m", 0, Some(100), true)];
    let mut table = ProcessTable::new();
    table.register(77, entry("S:web", Status::Running));
    let out = scheduler_tick(&mut jobs, &table, 200);
    assert!(out.spawn.is_empty());
    assert!(out.changed);
    assert_eq!(jobs[0].last_run, Some(200));
}

#[test]
fn manually_killed_job_is_relaunched_when_due() {
    let mut jobs = vec![job("web", "1m", 0, Some(100), true)];
    let mut table = ProcessTable::new();
    table.register(77, entry("S:web", Status::KilledManual));
    let out = scheduler_tick(&mut jobs, &table, 160);
    assert_eq!(out.spawn, vec![0]);
    assert_eq!(jobs[0].last_run, Some(160));
}

#[test]
fn tick_checks_start_and_period() {
    let mut jobs = vec![
        job("later", "1m", 500, None, true),
        job("fresh", "1m", 0, None, true),
        job("recent", "1m", 0, Some(150), true),
        job("due", "1m", 0, Some(140), true),
        job("badfreq", "zz", 0, Some(100), true),
    ];
    let table = ProcessTable::new();
    let out = scheduler_tick(&mut jobs, &table, 200);
    assert_eq!(out.spawn, vec![1, 3, 4]);
    assert!(out.changed);
    let last: Vec<Option<u64>> = jobs.iter().map(|j| j.last_run).collect();
    assert_eq!(last, vec![None, Some(200), Some(150), Some(200), Some(200)]);
}

#[test]
fn job_names_are_unique() {
    let mut jobs = Vec::new();
    assert!(add_job(&mut jobs, job("a", "1m", 0, None, true)));
    assert!(add_job(&mut jobs, job("b", "1m", 0, None, true)));
    assert!(!add_job(&mut jobs, job("a", "5m", 0, None, true)));
    assert_eq!(jobs.len(), 2);
    assert_eq!(jobs[0].frequency, "1m");
    assert!(disable_job(&mut jobs, "b"));
    assert!(!jobs[1].enabled);
    assert!(!disable_job(&mut jobs, "c"));
    assert!(remove_job(&mut jobs, "a"));
    assert!(!remove_job(&mut jobs, "a"));
    assert_eq!(jobs.len(), 1);
    assert_eq!(jobs[0].name, "b");
}

#[test]
fn job_command_line_and_name() {
    let j = job("web", "1m", 0, None, true);
    assert_eq!(job_launch_args(&j), vec!["run.sh".to_string(), "--fast".to_string(), "x".to_string()]);
    assert_eq!(correlation_name_of("web"), "S:web");
}

#[test]
fn daemon_detected_by_its_running_entry() {
    let mut table = ProcessTable::new();
    assert!(!daemon_running(&table));
    table.register(3, entry(DAEMON_NAME, Status::Completed));
    assert!(!daemon_running(&table));
    table.register(4, entry(DAEMON_NAME, Status::Running));
    assert!(daemon_running(&table));
}
