use shell_jobs::job::{next_free_id, Job, JobStatus};
use shell_jobs::session::{builtin_of, cd_target, echo_line, read_command_line, Builtin, CdTarget, Session};
use shell_jobs::cmd::kill::Kill;
use shell_jobs::signal::{classify_wait, WaitOutcome};

fn args(a: &[&str]) -> Vec<String> {
    a.iter().map(|s| s.to_string()).collect()
}

#[test]
fn background_command_lines() {
    let c = read_command_line("  sleep 50000 &  ").unwrap();
    assert_eq!(c.line, "sleep 50000 &");
    assert_eq!(c.words, args(&["sleep", "50000"]));
    assert_eq!(c.name, "sleep");
    assert_eq!(c.args, args(&["50000"]));
    assert!(c.background);
    let c = read_command_line("tar -czf archive.tar.gz .&").unwrap();
    assert_eq!(c.words, args(&["tar", "-czf", "archive.tar.gz", "."]));
    assert!(c.background);
    let c = read_command_line("echo a&&").unwrap();
    assert_eq!(c.words, args(&["echo", "a&"]));
    let c = read_command_line("\"ls\" -l").unwrap();
    assert_eq!(c.name, "ls");
    assert_eq!(c.words[0], "\"ls\"");
    assert!(!c.background);
    assert!(read_command_line("   \t ").is_none());
    assert!(read_command_line(" & ").is_none());
}

#[test]
fn echo_strips_quotes() {
    assert_eq!(echo_line(&args(&["\"hello\"", "'world'", "x"])), "hello world x");
    assert_eq!(echo_line(&args(&[])), "");
}

#[test]
fn cd_targets() {
    assert!(matches!(cd_target(&args(&[])), CdTarget::Home));
    assert!(matches!(cd_target(&args(&["a", "b"])), CdTarget::TooMany));
    match cd_target(&args(&["/tmp"])) {
        CdTarget::Path(p) => assert_eq!(p, "/tmp"),
        _ => panic!(),
    }
}

#[test]
fn builtins_by_name() {
    assert_eq!(builtin_of("jobs"), Builtin::Jobs);
    assert_eq!(builtin_of("fg"), Builtin::Fg);
    assert_eq!(builtin_of("kill"), Builtin::Kill);
    assert_eq!(builtin_of("exit"), Builtin::Exit);
    assert_eq!(builtin_of("sleep"), Builtin::External);
    assert_eq!(builtin_of(""), Builtin::External);
}

#[test]
fn background_jobs_get_least_free_numbers() {
    let mut s = Session::new();
    assert_eq!(s.start_background(500, "sleep 1 &".to_string()), "[1] 500");
    assert_eq!(s.start_background(501, "sleep 2 &".to_string()), "[2] 501");
    assert_eq!(s.next_id, 3);
    s.reap(500);
    assert_eq!(s.jobs.len(), 1);
    assert_eq!(s.jobs[0].id, 2);
    assert_eq!(s.start_background(502, "sleep 3 &".to_string()), "[1] 502");
    assert_eq!(s.next_id, 3);
}

#[test]
fn stopped_jobs_take_the_kept_number() {
    let mut s = Session::new();
    let line = s.record_stopped(600, "vim".to_string());
    assert_eq!(line, format!("\n[1]+  {:<25}vim", "Stopped"));
    assert_eq!(s.jobs[0].status, JobStatus::Stopped);
    // the number kept for the next stopped job was chosen before this one joined
    assert_eq!(s.next_id, 1);
    s.record_stopped(601, "less".to_string());
    assert_eq!(s.jobs[1].id, 1);
}

#[test]
fn reaping_unknown_process_keeps_table() {
    let mut s = Session::new();
    s.start_background(700, "a &".to_string());
    s.reap(9);
    assert_eq!(s.jobs.len(), 1);
}

#[test]
fn least_free_number() {
    let j = |id| Job { id, pid: 1, command: String::new(), status: JobStatus::Running };
    assert_eq!(next_free_id(&vec![]), 1);
    assert_eq!(next_free_id(&vec![j(1), j(2), j(3)]), 4);
    assert_eq!(next_free_id(&vec![j(3), j(1)]), 2);
    assert_eq!(next_free_id(&vec![j(2), j(2)]), 1);
}

#[test]
fn signal_numbers_and_wait_status() {
    assert_eq!(Kill::parse_signal("-"), Ok(libc::SIGTERM));
    assert_eq!(Kill::parse_signal("-"), Ok(15));
    for st in [0, 1 << 8, 0x137f, 0x057f, 9, 15, 0x8f, 0xffff, 0x7f].iter() {
        let expected = if libc::WIFEXITED(*st) {
            WaitOutcome::Exited
        } else if libc::WIFSTOPPED(*st) {
            WaitOutcome::Stopped
        } else if libc::WIFSIGNALED(*st) {
            WaitOutcome::Signaled
        } else {
            WaitOutcome::Other
        };
        assert_eq!(classify_wait(*st), expected, "status {:#x}", st);
    }
    assert_eq!(classify_wait(0), WaitOutcome::Exited);
    assert_eq!(classify_wait(0x137f), WaitOutcome::Stopped);
    assert_eq!(classify_wait(9), WaitOutcome::Signaled);
    assert_eq!(classify_wait(0xffff), WaitOutcome::Other);
}
