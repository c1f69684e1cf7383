use shell_jobs::cmd::bg::Bg;
use shell_jobs::cmd::fg::{Fg, FgPlan};
use shell_jobs::cmd::jobs::Jobs;
use shell_jobs::cmd::kill::{Kill, KillPlan};
use shell_jobs::job::{Job, JobStatus};
use shell_jobs::report::Report;

fn job(id: usize, pid: i32, command: &str, status: JobStatus) -> Job {
    Job { id, pid, command: command.to_string(), status }
}

fn table() -> Vec<Job> {
    vec![
        job(1, 101, "sleep 50000 &", JobStatus::Running),
        job(2, 102, "vim notes", JobStatus::Stopped),
        job(3, 103, "tar -czf a.tgz . &", JobStatus::Running),
    ]
}

fn args(a: &[&str]) -> Vec<String> {
    a.iter().map(|s| s.to_string()).collect()
}

fn out(r: &Report) -> Vec<String> {
    r.out.clone()
}

fn ids(jobs: &[Job]) -> Vec<usize> {
    jobs.iter().map(|j| j.id).collect()
}

#[test]
fn jobs_lists_every_job_with_markers() {
    let t = table();
    let r = Jobs::new(args(&[]), &t).execute();
    assert_eq!(
        out(&r),
        vec![
            format!("[1]   {:<22}{}", "Running", "sleep 50000 &"),
            format!("[2]-  {:<22}{}", "Stopped", "vim notes"),
            format!("[3]+  {:<22}{}", "Running", "tar -czf a.tgz . &"),
        ]
    );
    assert!(r.err.is_empty());
}

#[test]
fn jobs_long_format_shows_pids() {
    let t = table();
    let r = Jobs::new(args(&["-l"]), &t).execute();
    assert_eq!(out(&r)[1], format!("[2]-  102 {:<20}vim notes", "Stopped"));
}

#[test]
fn jobs_pids_only() {
    let t = table();
    let r = Jobs::new(args(&["-p"]), &t).execute();
    assert_eq!(out(&r), vec!["101", "102", "103"]);
}

#[test]
fn jobs_running_and_stopped_filters() {
    let t = table();
    let r = Jobs::new(args(&["-r"]), &t).execute();
    assert_eq!(out(&r).len(), 2);
    assert!(out(&r).iter().all(|l| l.contains("Running")));
    let s = Jobs::new(args(&["-s"]), &t).execute();
    assert_eq!(out(&s), vec![format!("[2]-  {:<22}vim notes", "Stopped")]);
    let both = Jobs::new(args(&["-r", "-s"]), &t).execute();
    assert!(out(&both).is_empty());
}

#[test]
fn jobs_single_job_and_errors() {
    let t = table();
    let r = Jobs::new(args(&["%3"]), &t).execute();
    assert_eq!(out(&r), vec![format!("[3]+  {:<22}tar -czf a.tgz . &", "Running")]);
    let missing = Jobs::new(args(&["%+9"]), &t).execute();
    assert!(missing.out.is_empty());
    assert_eq!(missing.err, vec!["jobs: %9: no such job"]);
    let bad = Jobs::new(args(&["-p", "-x", "%1"]), &t).execute();
    assert!(bad.out.is_empty());
    assert_eq!(bad.err, vec!["jobs: -x: invalid option", "jobs: usage: jobs [-lprs] [%job_number]"]);
}

#[test]
fn jobs_done_state_and_empty_table() {
    let t = vec![job(1, 7, "make", JobStatus::DonePending)];
    let r = Jobs::new(args(&[]), &t).execute();
    assert_eq!(out(&r), vec![format!("[1]+  {:<22}make", "Done")]);
    let empty: Vec<Job> = Vec::new();
    assert!(Jobs::new(args(&[]), &empty).execute().out.is_empty());
}

#[test]
fn bg_resumes_current_job() {
    let mut t = table();
    t[2].status = JobStatus::Stopped;
    let r = Bg::new(args(&[]), &mut t).execute();
    assert_eq!(r.report.out, vec![format!("[3]+  {:<25}tar -czf a.tgz . &", "Continued")]);
    assert_eq!(r.resume, Some(-103));
    assert_eq!(t[2].status, JobStatus::Running);
}

#[test]
fn bg_job_specs() {
    let mut t = table();
    let r = Bg::new(args(&["%1"]), &mut t).execute();
    assert_eq!(r.report.out, vec![format!("[1]   {:<25}sleep 50000 &", "Continued")]);
    assert_eq!(r.resume, Some(-101));
    let r = Bg::new(args(&["%-"]), &mut t).execute();
    assert_eq!(r.resume, Some(-102));
    assert_eq!(t[1].status, JobStatus::Running);
    for spec in ["%", "%%", "%+"].iter() {
        let r = Bg::new(args(&[spec]), &mut t).execute();
        assert_eq!(r.resume, Some(-103));
    }
    let r = Bg::new(args(&["2"]), &mut t).execute();
    assert_eq!(r.resume, Some(-102));
    assert_eq!(ids(&t), vec![1, 2, 3]);
    assert_eq!(t.len(), 3);
}

#[test]
fn bg_no_such_job() {
    let mut t = table();
    let r = Bg::new(args(&["%7"]), &mut t).execute();
    assert_eq!(r.report.err, vec!["bg: %7: no such job"]);
    assert_eq!(r.resume, None);
    let mut one = vec![job(1, 5, "x", JobStatus::Stopped)];
    let r = Bg::new(args(&["%-"]), &mut one).execute();
    assert_eq!(r.report.err, vec!["bg: %-: no such job"]);
    let mut none: Vec<Job> = Vec::new();
    let r = Bg::new(args(&[]), &mut none).execute();
    assert_eq!(r.report.err, vec!["bg: current: no such job"]);
}

#[test]
fn fg_chooses_job() {
    let mut t = table();
    match Fg::new(args(&["%2"]), &mut t).prepare() {
        FgPlan::Foreground { index, pid, group, echo } => {
            assert_eq!((index, pid, group), (1, 102, -102));
            assert_eq!(echo, "vim notes");
        }
        FgPlan::Refuse(_) => panic!("job 2 exists"),
    }
    match Fg::new(args(&[]), &mut t).prepare() {
        FgPlan::Foreground { index, .. } => assert_eq!(index, 2),
        FgPlan::Refuse(_) => panic!("current job exists"),
    }
    for (a, msg) in [("1", "bash: fg: 1: no such job"), ("%x", "bash: fg: %x: no such job"), ("%9", "bash: fg: %9: no such job")].iter() {
        match Fg::new(args(&[a]), &mut t).prepare() {
            FgPlan::Refuse(r) => assert_eq!(r.out, vec![msg.to_string()]),
            FgPlan::Foreground { .. } => panic!("no such job"),
        }
    }
    let mut none: Vec<Job> = Vec::new();
    match Fg::new(args(&[]), &mut none).prepare() {
        FgPlan::Refuse(r) => assert_eq!(r.out, vec!["bash: fg: current: no such job"]),
        FgPlan::Foreground { .. } => panic!("empty table"),
    }
}

#[test]
fn fg_outcomes() {
    let mut t = table();
    let r = Fg::new(args(&["%2"]), &mut t).conclude(1, 0x137f);
    assert_eq!(r.out, vec![format!("\n[2]+  {:<25}vim notes", "Stopped")]);
    assert_eq!(t[1].status, JobStatus::Stopped);
    assert_eq!(t.len(), 3);
    let r = Fg::new(args(&["%1"]), &mut t).conclude(0, 0);
    assert!(r.out.is_empty());
    assert_eq!(ids(&t), vec![1, 2]);
    assert_eq!(t[0].pid, 102);
    Fg::new(args(&[]), &mut t).conclude(1, 9);
    assert_eq!(ids(&t), vec![1]);
    Fg::new(args(&[]), &mut t).conclude(0, 0xffff);
    assert_eq!(ids(&t), vec![1]);
}

#[test]
fn kill_plans() {
    let mut t = table();
    let plan = |a: &[&str], t: &mut Vec<Job>| Kill::new(args(a), t).prepare();
    match plan(&["%2"], &mut t) {
        KillPlan::Send { pid, signal } => assert_eq!((pid, signal), (102, 15)),
        KillPlan::Refuse(_) => panic!(),
    }
    match plan(&["-9", "12345"], &mut t) {
        KillPlan::Send { pid, signal } => assert_eq!((pid, signal), (12345, 9)),
        KillPlan::Refuse(_) => panic!(),
    }
    match plan(&["-", "%3"], &mut t) {
        KillPlan::Send { pid, signal } => assert_eq!((pid, signal), (103, 15)),
        KillPlan::Refuse(_) => panic!(),
    }
    let refusals = [
        (vec![], "kill: usage: kill [-signal] pid"),
        (vec!["-9"], "kill: missing pid"),
        (vec!["-x", "1"], "kill: invalid signal '-x'"),
        (vec!["abc"], "kill: invalid pid 'abc'"),
        (vec!["%5"], "kill: %5: no such job"),
        (vec!["%z"], "kill: %z: no such job"),
    ];
    for (a, msg) in refusals.iter() {
        match plan(a, &mut t) {
            KillPlan::Refuse(r) => {
                assert_eq!(r.err, vec![msg.to_string()]);
                assert!(r.out.is_empty());
            }
            KillPlan::Send { .. } => panic!("{:?} should be refused", a),
        }
    }
}

#[test]
fn kill_signal_and_pid_parsing() {
    assert_eq!(Kill::parse_signal("-"), Ok(15));
    assert_eq!(Kill::parse_signal("-9"), Ok(9));
    assert_eq!(Kill::parse_signal("--9"), Ok(-9));
    assert_eq!(Kill::parse_signal("-KILL"), Err("kill: invalid signal '-KILL'".to_string()));
    assert_eq!(Kill::parse_signal("19"), Ok(15));
    assert_eq!(Kill::parse_signal(""), Ok(15));
    assert_eq!(Kill::parse_signal("é9"), Ok(15));
    assert_eq!(Kill::parse_pid("-1"), Ok(-1));
    assert_eq!(Kill::parse_pid("99999999999"), Err("kill: invalid pid '99999999999'".to_string()));
}

#[test]
fn kill_outcomes() {
    let mut t = table();
    let r = Kill::new(args(&["%2"]), &mut t).conclude(102, Ok(()));
    assert_eq!(r.out, vec!["[2]-  Terminated              vim notes"]);
    assert_eq!(ids(&t), vec![1, 2]);
    assert_eq!(t[1].pid, 103);
    let r = Kill::new(args(&["%2"]), &mut t).conclude(103, Ok(()));
    assert_eq!(r.out, vec!["[2]+  Terminated              tar -czf a.tgz . &"]);
    assert_eq!(ids(&t), vec![1]);
    let r = Kill::new(args(&["4242"]), &mut t).conclude(4242, Ok(()));
    assert!(r.out.is_empty() && r.err.is_empty());
    let r = Kill::new(args(&["%1"]), &mut t).conclude(101, Err("No such process (os error 3)".to_string()));
    assert_eq!(r.err, vec!["kill: No such process (os error 3)"]);
    assert_eq!(ids(&t), vec![1]);
}
