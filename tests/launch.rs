use proc_manager::launch::{
    command_line, find_script, first_script, is_python_script, join_path, log_file_path, parse_timeout, plan_launch,
    plan_launch_from, sanitize_name, split_command,
};
use proc_manager::text::{parse_u64, split_whitespace, u64_to_text};

fn strings(v: &[&str]) -> Vec<String> {
    v.iter().map(|s| s.to_string()).collect()
}

#[test]
fn timeouts_in_milliseconds() {
    assert_eq!(parse_timeout("30"), Some(30_000));
    assert_eq!(parse_timeout("30s"), Some(30_000));
    assert_eq!(parse_timeout("  1.5s \n"), Some(1_500));
    assert_eq!(parse_timeout(".5"), Some(500));
    assert_eq!(parse_timeout("2."), Some(2_000));
    assert_eq!(parse_timeout("1.2345"), Some(1_234));
    assert_eq!(parse_timeout("+3"), Some(3_000));
    assert_eq!(parse_timeout("abc"), None);
    assert_eq!(parse_timeout("."), None);
    assert_eq!(parse_timeout("1.2.3"), None);
    assert_eq!(parse_timeout(""), None);
    assert_eq!(parse_timeout("s"), None);
    assert_eq!(parse_timeout("18446744073709552"), None);
}

#[test]
fn words_split_at_whitespace() {
    assert_eq!(split_whitespace("  python3  app.py\t--epochs 80 \n"), strings(&["python3", "app.py", "--epochs", "80"]));
    assert!(split_whitespace(" \t ").is_empty());
    assert!(split_command("   ").is_none());
    let c = split_command("ls -la /tmp").unwrap();
    assert_eq!(c.program, "ls");
    assert_eq!(c.args, strings(&["-la", "/tmp"]));
}

#[test]
fn decimal_text_and_parse() {
    assert_eq!(u64_to_text(0), "0");
    assert_eq!(u64_to_text(907), "907");
    assert_eq!(u64_to_text(u64::MAX), "18446744073709551615");
    assert_eq!(parse_u64("18446744073709551615"), Some(u64::MAX));
    assert_eq!(parse_u64("18446744073709551616"), None);
    assert_eq!(parse_u64("+7"), Some(7));
    assert_eq!(parse_u64("+"), None);
}

#[test]
fn paths_join_like_unix() {
    assert_eq!(join_path("/opt/app", "scripts"), "/opt/app/scripts");
    assert_eq!(join_path("/opt/app/", "scripts"), "/opt/app/scripts");
    assert_eq!(join_path("", "scripts"), "scripts");
    assert_eq!(join_path("/opt/app", "/etc/x"), "/etc/x");
}

#[test]
fn python_extension_detection() {
    assert!(is_python_script("/a/scripts/run.py"));
    assert!(!is_python_script("/a/scripts/run.sh"));
    assert!(!is_python_script("/a/scripts/.py"));
    assert!(!is_python_script("/a/b.py/run"));
    assert!(!is_python_script("/a/scripts/run.pyc"));
}

#[test]
fn log_names_are_sanitized() {
    assert_eq!(sanitize_name("my script.py"), "myscriptpy");
    assert_eq!(sanitize_name("a_b-c/../d"), "a_b-cd");
    assert_eq!(sanitize_name("naïve"), "naïve");
    assert_eq!(log_file_path("/var/log/pm", "job.sh", 1_700_000_123), "/var/log/pm/jobsh_123.log");
    assert_eq!(log_file_path("/l", "x", 99_999), "/l/x_99999.log");
}

#[test]
fn command_lines_are_joined() {
    assert_eq!(command_line("echo", &strings(&["hi", "there"])), "echo hi there");
    assert_eq!(command_line("ls", &Vec::new()), "ls ");
}

#[test]
fn plan_for_python_script() {
    let p = plan_launch_from(
        Some("/opt/scripts/train.py".to_string()),
        "/opt/logs",
        &strings(&["train", "--epochs", "3"]),
        Some(5_000),
        None,
        "/work".to_string(),
        42,
    );
    assert_eq!(p.program, "python3");
    assert_eq!(p.args, strings(&["/opt/scripts/train.py", "--epochs", "3"]));
    assert!(!p.make_executable);
    assert_eq!(p.cmd_str, "python3 /opt/scripts/train.py --epochs 3");
    assert_eq!(p.log_file, "/opt/logs/train_42.log");
    assert_eq!(p.display_name, "train");
    assert_eq!(p.script_name, "train");
    assert_eq!(p.working_dir, "/work");
    assert_eq!(p.timeout_ms, Some(5_000));
}

#[test]
fn plan_for_shell_script_and_plain_command() {
    let p = plan_launch_from(
        Some("/opt/scripts/backup.sh".to_string()),
        "/opt/logs",
        &strings(&["backup", "now"]),
        None,
        Some("nightly".to_string()),
        "/".to_string(),
        7,
    );
    assert_eq!(p.program, "/opt/scripts/backup.sh");
    assert_eq!(p.args, strings(&["now"]));
    assert!(p.make_executable);
    assert_eq!(p.display_name, "nightly");
    let q = plan_launch_from(None, "/opt/logs", &strings(&["echo", "hi"]), None, None, "/".to_string(), 7);
    assert_eq!(q.program, "echo");
    assert_eq!(q.args, strings(&["hi"]));
    assert!(!q.make_executable);
    assert_eq!(q.cmd_str, "echo hi");
}

#[test]
fn first_found_candidate_wins() {
    let c = |s: &str| s.to_string();
    assert_eq!(first_script(c("a.py"), c("a.sh"), c("a"), true, true, true), Some(c("a.py")));
    assert_eq!(first_script(c("a.py"), c("a.sh"), c("a"), false, true, true), Some(c("a.sh")));
    assert_eq!(first_script(c("a.py"), c("a.sh"), c("a"), false, false, true), Some(c("a")));
    assert_eq!(first_script(c("a.py"), c("a.sh"), c("a"), false, false, false), None);
}

#[test]
fn tokens_with_a_slash_name_no_script() {
    assert_eq!(find_script("/", "bin/sh"), None);
    assert_eq!(find_script("/", "/bin/sh"), None);
    assert_eq!(find_script("/", ""), None);
    let p = plan_launch("/", "/l", &strings(&["/bin/sh", "-c", "true"]), None, None, "/".to_string(), 1);
    assert_eq!(p.program, "/bin/sh");
    assert!(!p.make_executable);
}

#[test]
fn missing_scripts_fall_back_to_the_token() {
    assert_eq!(find_script("/nonexistent/dir/for/tests", "nothing"), None);
    let p = plan_launch("/nonexistent/dir/for/tests", "/l", &strings(&["echo", "hi"]), None, None, "/".to_string(), 1);
    assert_eq!(p.program, "echo");
}
