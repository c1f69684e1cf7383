//! The `kill` builtin: sends a signal to a process, or to the process of a
//! job `%N`. Choosing the signal and the process is decided here; sending it
//! is the caller's part, which then reports back whether it was delivered.

use vstd::prelude::*;

use crate::cmd::bg::{lemma_numbered_job_in_range, numbered_job};
use crate::job::{index_of_id, lemma_first_with_id, lemma_pid_finds_job, pids_distinct, find_by_id, find_by_pid, index_of_pid, remove_and_renumber, renumbered, Job};
use crate::num::{decimal, parse_i32_at, parse_i32_spec, parse_usize_at, parse_usize_spec};
use crate::report::Report;
use crate::signal::default_signal;
use crate::text::{chars_of, owned, push_char, push_str, texts};

verus! {

/// The `kill` builtin over the session's job table.
pub struct Kill<'a> {
    pub args: Vec<String>,
    pub jobs: &'a mut Vec<Job>,
}

/// What `kill` does before sending: refuse (with a line for standard
/// error), or send `signal` to `pid`.
pub enum KillPlan {
    Refuse(Report),
    Send { pid: i32, signal: i32 },
}

/// The signal of a signal argument `-N`, or the line `kill` prints for it;
/// an argument that does not start with `-`, or is just `-`, gives `SIGTERM`.
pub open spec fn signal_of(arg: Seq<char>) -> Result<i32, Seq<char>> {
    if arg.len() == 0 || arg[0] != '-' || arg.len() == 1 {
        Ok(15)
    } else {
        match parse_i32_spec(arg.drop_first()) {
            Some(s) => Ok(s),
            None => Err("kill: invalid signal '"@ + arg + "'"@),
        }
    }
}

/// The process id of a process argument, or the line `kill` prints for it:
/// `%N` names the process of the first job numbered `N`; anything else is
/// read as a process id.
pub open spec fn pid_of(arg: Seq<char>, jobs: Seq<Job>) -> Result<i32, Seq<char>> {
    if arg.len() > 0 && arg[0] == '%' {
        match numbered_job(jobs, arg.drop_first()) {
            Some(i) => Ok(jobs[i as int].pid),
            None => Err("kill: "@ + arg + ": no such job"@),
        }
    } else {
        match parse_i32_spec(arg) {
            Some(p) => Ok(p),
            None => Err("kill: invalid pid '"@ + arg + "'"@),
        }
    }
}

/// The signal and process `kill` picks from its arguments, or the line it
/// prints instead: an optional `-N` first, then the process.
pub open spec fn kill_plan(args: Seq<Seq<char>>, jobs: Seq<Job>) -> Result<(i32, i32), Seq<char>> {
    if args.len() == 0 {
        Err("kill: usage: kill [-signal] pid"@)
    } else {
        let has_signal = args[0].len() > 0 && args[0][0] == '-';
        let at: int = if has_signal { 1 } else { 0 };
        let signal = if has_signal { signal_of(args[0]) } else { Ok(15) };
        match signal {
            Err(line) => Err(line),
            Ok(sig) => if at >= args.len() {
                Err("kill: missing pid"@)
            } else {
                match pid_of(args[at], jobs) {
                    Ok(pid) => Ok((pid, sig)),
                    Err(line) => Err(line),
                }
            },
        }
    }
}

/// The line `kill` prints for the job at `pos` of a table of `len` jobs that
/// it terminated.
pub open spec fn terminated_line(job: Job, pos: int, len: int) -> Seq<char> {
    seq!['['] + decimal(job.id as nat) + seq![']'] + (if pos == len - 1 {
        seq!['+']
    } else {
        seq!['-']
    }) + "  Terminated              "@ + job.command@
}

impl<'a> Kill<'a> {
    pub fn new(args: Vec<String>, jobs: &'a mut Vec<Job>) -> (r: Self)
        ensures
            r.args == args,
            *r.jobs == *old(jobs),
            *final(r.jobs) == *final(jobs),
    {
        Self { args, jobs }
    }

    /// The signal of a signal argument: `-N` gives `N`; an argument that
    /// does not start with `-`, or is just `-`, gives `SIGTERM`.
    pub fn parse_signal(arg: &str) -> (r: Result<i32, String>)
        ensures
            match r {
                Ok(s) => signal_of(arg@) == Ok::<i32, Seq<char>>(s),
                Err(m) => signal_of(arg@) == Err::<i32, Seq<char>>(m@),
            },
    {
        let cs = chars_of(arg);
        if cs.len() == 0 || cs[0] != '-' || cs.len() == 1 {
            return Ok(default_signal());
        }
        assert(cs@.skip(1) =~= cs@.drop_first());
        match parse_i32_at(&cs, 1) {
            Some(s) => Ok(s),
            None => {
                let mut m = owned("kill: invalid signal '");
                push_str(&mut m, arg);
                push_str(&mut m, "'");
                Err(m)
            },
        }
    }

    /// The process id of a process argument.
    pub fn parse_pid(arg: &str) -> (r: Result<i32, String>)
        ensures
            match r {
                Ok(p) => parse_i32_spec(arg@) == Some(p),
                Err(m) => parse_i32_spec(arg@) is None && m@ == "kill: invalid pid '"@ + arg@ + "'"@,
            },
    {
        match crate::num::parse_i32(arg) {
            Some(p) => Ok(p),
            None => {
                let mut m = owned("kill: invalid pid '");
                push_str(&mut m, arg);
                push_str(&mut m, "'");
                Err(m)
            },
        }
    }

    /// The process a process argument names.
    fn resolve_pid(arg: &String, jobs: &Vec<Job>) -> (r: Result<i32, String>)
        ensures
            match r {
                Ok(p) => pid_of(arg@, jobs@) == Ok::<i32, Seq<char>>(p),
                Err(m) => pid_of(arg@, jobs@) == Err::<i32, Seq<char>>(m@),
            },
    {
        let cs = chars_of(arg.as_str());
        if cs.len() > 0 && cs[0] == '%' {
            assert(cs@.skip(1) =~= cs@.drop_first());
            let found = match parse_usize_at(&cs, 1) {
                Some(id) => find_by_id(jobs, id),
                None => None,
            };
            match found {
                Some(i) => Ok(jobs[i].pid),
                None => {
                    let mut m = owned("kill: ");
                    push_str(&mut m, arg.as_str());
                    push_str(&mut m, ": no such job");
                    Err(m)
                },
            }
        } else {
            Self::parse_pid(arg.as_str())
        }
    }

    /// What `kill` does before sending.
    pub fn prepare(&self) -> (r: KillPlan)
        ensures
            match kill_plan(texts(self.args@), old(self.jobs)@) {
                Err(line) => r matches KillPlan::Refuse(rep) && rep.err_lines() == seq![line]
                    && rep.out_lines() == Seq::<Seq<char>>::empty(),
                Ok((pid, signal)) => r matches KillPlan::Send { pid: p, signal: s } && p == pid
                    && s == signal,
            },
    {
        let ghost a = texts(self.args@);
        if self.args.len() == 0 {
            return KillPlan::Refuse(Report::err_line(owned("kill: usage: kill [-signal] pid")));
        }
        assert(a[0] == self.args@[0]@);
        let first = chars_of(self.args[0].as_str());
        let mut signal = default_signal();
        let mut at: usize = 0;
        if first.len() > 0 && first[0] == '-' {
            signal = match Self::parse_signal(self.args[0].as_str()) {
                Ok(s) => s,
                Err(m) => {
                    return KillPlan::Refuse(Report::err_line(m));
                },
            };
            at = 1;
        }
        if at >= self.args.len() {
            return KillPlan::Refuse(Report::err_line(owned("kill: missing pid")));
        }
        assert(a[at as int] == self.args@[at as int]@);
        match Self::resolve_pid(&self.args[at], &*self.jobs) {
            Ok(pid) => KillPlan::Send { pid, signal },
            Err(m) => KillPlan::Refuse(Report::err_line(m)),
        }
    }

    /// Records the sending of a signal to `pid`: when it failed, prints
    /// `kill: ` and the reason; when it succeeded, removes the first job of
    /// that process from the table (printing its line) and numbers the rest
    /// anew.
    pub fn conclude(&mut self, pid: i32, sent: Result<(), String>) -> (r: Report)
        ensures
            final(self).args == old(self).args,
            match sent {
                Err(reason) => {
                    &&& final(self).jobs@ == old(self).jobs@
                    &&& r.out_lines() == Seq::<Seq<char>>::empty()
                    &&& r.err_lines() == seq!["kill: "@ + reason@]
                },
                Ok(()) => match index_of_pid(old(self).jobs@, pid) {
                    None => {
                        &&& final(self).jobs@ == old(self).jobs@
                        &&& r.out_lines() == Seq::<Seq<char>>::empty()
                        &&& r.err_lines() == Seq::<Seq<char>>::empty()
                    },
                    Some(p) => {
                        &&& p < old(self).jobs@.len()
                        &&& old(self).jobs@[p as int].pid == pid
                        &&& final(self).jobs@ == renumbered(old(self).jobs@.remove(p as int))
                        &&& r.out_lines() == seq![
                            terminated_line(old(self).jobs@[p as int], p as int, old(self).jobs@.len() as int),
                        ]
                        &&& r.err_lines() == Seq::<Seq<char>>::empty()
                    },
                },
            },
    {
        match sent {
            Err(reason) => {
                let mut m = owned("kill: ");
                push_str(&mut m, reason.as_str());
                Report::err_line(m)
            },
            Ok(()) => {
                let ghost jobs0 = self.jobs@;
                let n = self.jobs.len();
                match find_by_pid(&*self.jobs, pid) {
                    None => Report::silent(),
                    Some(p) => {
                        let mut line = String::new();
                        push_char(&mut line, '[');
                        crate::num::push_decimal(&mut line, self.jobs[p].id as u64);
                        push_char(&mut line, ']');
                        if p == n - 1 {
                            push_char(&mut line, '+');
                        } else {
                            push_char(&mut line, '-');
                        }
                        push_str(&mut line, "  Terminated              ");
                        push_str(&mut line, self.jobs[p].command.as_str());
                        assert(line@ == terminated_line(jobs0[p as int], p as int, n as int));
                        remove_and_renumber(self.jobs, p);
                        Report::out_line(line)
                    },
                }
            },
        }
    }
}

/// When no two jobs share a process id, the job `kill %N` removes after a
/// delivered signal is job `N` itself.
pub proof fn lemma_kill_job_removes_it(arg: Seq<char>, jobs: Seq<Job>)
    requires
        jobs.len() <= usize::MAX,
        pids_distinct(jobs),
        arg.len() > 0,
        arg[0] == '%',
    ensures
        pid_of(arg, jobs) matches Ok(pid) ==> index_of_pid(jobs, pid) == numbered_job(
            jobs,
            arg.drop_first(),
        ),
{
    lemma_numbered_job_in_range(jobs, arg.drop_first());
    if let Some(i) = numbered_job(jobs, arg.drop_first()) {
        lemma_pid_finds_job(jobs, i as int);
    }
}

/// `kill %N` (alone, or after a signal argument `-S`) sends to the process of
/// the first job numbered `N`, with `SIGTERM` or with signal `S`; it refuses
/// with "no such job" exactly when no job has number `N`.
pub proof fn lemma_kill_job_number(text: Seq<char>, sig_arg: Seq<char>, jobs: Seq<Job>, i: int)
    requires
        jobs.len() <= usize::MAX,
        parse_usize_spec(text) is Some,
        sig_arg.len() > 1,
        sig_arg[0] == '-',
        parse_i32_spec(sig_arg.drop_first()) is Some,
    ensures
        ({
            let n = parse_usize_spec(text)->0;
            let a = seq!['%'] + text;
            let sig = parse_i32_spec(sig_arg.drop_first())->0;
            &&& (0 <= i < jobs.len() && jobs[i].id == n && forall|k: int| 0 <= k < i ==> jobs[k].id != n)
                ==> {
                &&& kill_plan(seq![a], jobs) == Ok::<(i32, i32), Seq<char>>((jobs[i].pid, 15i32))
                &&& kill_plan(seq![sig_arg, a], jobs) == Ok::<(i32, i32), Seq<char>>((jobs[i].pid, sig))
            }
            &&& (forall|k: int| 0 <= k < jobs.len() ==> jobs[k].id != n) ==> {
                &&& kill_plan(seq![a], jobs) == Err::<(i32, i32), Seq<char>>("kill: "@ + a + ": no such job"@)
                &&& kill_plan(seq![sig_arg, a], jobs) == Err::<(i32, i32), Seq<char>>(
                    "kill: "@ + a + ": no such job"@,
                )
            }
        }),
{
    let n = parse_usize_spec(text)->0;
    let a = seq!['%'] + text;
    assert(a[0] == '%');
    assert(a.drop_first() =~= text);
    assert(seq![a][0] == a);
    assert(seq![sig_arg, a][0] == sig_arg && seq![sig_arg, a][1] == a);
    lemma_first_with_id(jobs, n, 0);
    if 0 <= i < jobs.len() && jobs[i].id == n && forall|k: int| 0 <= k < i ==> jobs[k].id != n {
        match index_of_id(jobs, n) {
            Some(j) => {
                if (j as int) < i {
                    assert(jobs[j as int].id != n);
                }
                if (j as int) > i {
                    assert(jobs[i].id != n);
                }
            },
            None => {
                assert(jobs[i].id != n);
            },
        }
    }
}

} // verus!
