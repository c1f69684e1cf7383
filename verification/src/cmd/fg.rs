//! The `fg` builtin: brings a job to the foreground. Choosing the job is
//! decided here; handing it the terminal and waiting for it is the caller's
//! part, which then reports back the wait status.

use vstd::prelude::*;

use crate::cmd::bg::{lemma_numbered_job_in_range, numbered_job};
use crate::job::{index_of_id, lemma_first_with_id, find_by_id, remove_and_renumber, renumbered, with_status, Job, JobStatus};
use crate::num::{decimal, parse_usize_at, parse_usize_spec};
use crate::report::Report;
use crate::signal::{classify_wait, wait_outcome, WaitOutcome};
use crate::text::{chars_of, owned, pad_right, push_char, push_padded, push_str, texts};

verus! {

/// The `fg` builtin over the session's job table.
pub struct Fg<'a> {
    pub args: Vec<String>,
    pub jobs: &'a mut Vec<Job>,
}

/// What `fg` does before waiting: refuse (with a line for standard output),
/// or bring the job at `index` to the foreground, after printing its command
/// line `echo`; `pid` is its process group and `group` the first argument for
/// `kill` with `SIGCONT`.
pub enum FgPlan {
    Refuse(Report),
    Foreground { index: usize, pid: i32, group: i32, echo: String },
}

/// The line `fg` prints when it finds no job for the argument.
pub open spec fn fg_no_such_job(arg: Seq<char>) -> Seq<char> {
    "bash: fg: "@ + arg + ": no such job"@
}

/// The job `fg` brings to the foreground, or the line it prints instead:
/// the current job without argument, else the first job with the number `N`
/// of an argument `%N`.
pub open spec fn fg_target(args: Seq<Seq<char>>, jobs: Seq<Job>) -> Result<usize, Seq<char>> {
    if args.len() == 0 {
        if jobs.len() == 0 {
            Err("bash: fg: current: no such job"@)
        } else {
            Ok((jobs.len() - 1) as usize)
        }
    } else {
        let arg = args[0];
        if !(arg.len() > 0 && arg[0] == '%') {
            Err(fg_no_such_job(arg))
        } else {
            match numbered_job(jobs, arg.drop_first()) {
                Some(i) => Ok(i),
                None => Err(fg_no_such_job(arg)),
            }
        }
    }
}

/// The line `fg` prints when the job stops again.
pub open spec fn stopped_line(job: Job) -> Seq<char> {
    seq!['\n', '['] + decimal(job.id as nat) + "]+  "@ + pad_right("Stopped"@, 25) + job.command@
}

impl<'a> Fg<'a> {
    pub fn new(args: Vec<String>, jobs: &'a mut Vec<Job>) -> (r: Self)
        ensures
            r.args == args,
            *r.jobs == *old(jobs),
            *final(r.jobs) == *final(jobs),
    {
        Self { args, jobs }
    }

    /// The index of the job `fg` brings to the foreground, or what it prints
    /// instead.
    pub fn target(args: &Vec<String>, jobs: &Vec<Job>) -> (r: Result<usize, String>)
        ensures
            match r {
                Ok(i) => fg_target(texts(args@), jobs@) == Ok::<usize, Seq<char>>(i) && i < jobs.len(),
                Err(m) => fg_target(texts(args@), jobs@) == Err::<usize, Seq<char>>(m@),
            },
    {
        let n = jobs.len();
        if args.len() == 0 {
            if n == 0 {
                return Err(owned("bash: fg: current: no such job"));
            }
            return Ok(n - 1);
        }
        let cs = chars_of(args[0].as_str());
        assert(texts(args@)[0] == cs@);
        let ghost arg = cs@;
        let found = if cs.len() > 0 && cs[0] == '%' {
            assert(cs@.skip(1) =~= cs@.drop_first());
            proof {
                lemma_numbered_job_in_range(jobs@, cs@.drop_first());
            }
            match parse_usize_at(&cs, 1) {
                Some(id) => find_by_id(jobs, id),
                None => None,
            }
        } else {
            None
        };
        match found {
            Some(i) => Ok(i),
            None => {
                let mut m = owned("bash: fg: ");
                push_str(&mut m, args[0].as_str());
                push_str(&mut m, ": no such job");
                Err(m)
            },
        }
    }

    /// What `fg` does before waiting for the job.
    pub fn prepare(&self) -> (r: FgPlan)
        requires
            fg_target(texts(self.args@), old(self.jobs)@) matches Ok(i) ==> old(self.jobs)@[i as int].pid
                != i32::MIN,
        ensures
            match fg_target(texts(self.args@), old(self.jobs)@) {
                Err(line) => r matches FgPlan::Refuse(rep) && rep.out_lines() == seq![line]
                    && rep.err_lines() == Seq::<Seq<char>>::empty(),
                Ok(i) => r matches FgPlan::Foreground { index, pid, group, echo } && index == i
                    && i < old(self.jobs)@.len()
                    && pid == old(self.jobs)@[i as int].pid
                    && group == (-pid) as i32
                    && echo@ == old(self.jobs)@[i as int].command@,
            },
    {
        match Self::target(&self.args, &*self.jobs) {
            Err(m) => FgPlan::Refuse(Report::out_line(m)),
            Ok(i) => {
                let pid = self.jobs[i].pid;
                let echo = self.jobs[i].command.clone();
                FgPlan::Foreground { index: i, pid, group: -pid, echo }
            },
        }
    }

    /// Records how the foreground job ended up, from its `waitpid` status: a
    /// job that exited or was killed leaves the table, which is numbered
    /// anew; a job that stopped is marked stopped and its line printed.
    pub fn conclude(&mut self, index: usize, status: i32) -> (r: Report)
        requires
            index < old(self).jobs@.len(),
        ensures
            final(self).args == old(self).args,
            r.err_lines() == Seq::<Seq<char>>::empty(),
            match wait_outcome(status) {
                WaitOutcome::Exited | WaitOutcome::Signaled => {
                    &&& final(self).jobs@ == renumbered(old(self).jobs@.remove(index as int))
                    &&& r.out_lines() == Seq::<Seq<char>>::empty()
                },
                WaitOutcome::Stopped => {
                    &&& final(self).jobs@ == old(self).jobs@.update(
                        index as int,
                        with_status(old(self).jobs@[index as int], JobStatus::Stopped),
                    )
                    &&& r.out_lines() == seq![stopped_line(old(self).jobs@[index as int])]
                },
                WaitOutcome::Other => {
                    &&& final(self).jobs@ == old(self).jobs@
                    &&& r.out_lines() == Seq::<Seq<char>>::empty()
                },
            },
    {
        match classify_wait(status) {
            WaitOutcome::Exited | WaitOutcome::Signaled => {
                remove_and_renumber(self.jobs, index);
                Report::silent()
            },
            WaitOutcome::Stopped => {
                let ghost jobs0 = self.jobs@;
                self.jobs[index].status = JobStatus::Stopped;
                assert(self.jobs@ =~= jobs0.update(
                    index as int,
                    with_status(jobs0[index as int], JobStatus::Stopped),
                ));
                let mut line = String::new();
                push_char(&mut line, '\n');
                push_char(&mut line, '[');
                crate::num::push_decimal(&mut line, self.jobs[index].id as u64);
                push_str(&mut line, "]+  ");
                push_padded(&mut line, "Stopped", 25);
                push_str(&mut line, self.jobs[index].command.as_str());
                assert(line@ == stopped_line(jobs0[index as int]));
                Report::out_line(line)
            },
            WaitOutcome::Other => Report::silent(),
        }
    }
}

/// `fg %N` chooses the first job numbered `N`, wherever it stands in the
/// table (the last job included), and refuses with "no such job" exactly
/// when no job has number `N`; without an argument it chooses the last job.
pub proof fn lemma_fg_job_number(text: Seq<char>, jobs: Seq<Job>, i: int)
    requires
        jobs.len() <= usize::MAX,
        parse_usize_spec(text) is Some,
    ensures
        ({
            let n = parse_usize_spec(text)->0;
            let a = seq!['%'] + text;
            &&& (0 <= i < jobs.len() && jobs[i].id == n && forall|k: int| 0 <= k < i ==> jobs[k].id != n)
                ==> fg_target(seq![a], jobs) == Ok::<usize, Seq<char>>(i as usize)
            &&& (forall|k: int| 0 <= k < jobs.len() ==> jobs[k].id != n) ==> fg_target(seq![a], jobs)
                == Err::<usize, Seq<char>>("bash: fg: "@ + a + ": no such job"@)
            &&& jobs.len() > 0 ==> fg_target(Seq::empty(), jobs) == Ok::<usize, Seq<char>>(
                (jobs.len() - 1) as usize,
            )
        }),
{
    let n = parse_usize_spec(text)->0;
    let a = seq!['%'] + text;
    assert(a[0] == '%');
    assert(a.drop_first() =~= text);
    assert(seq![a][0] == a);
    lemma_first_with_id(jobs, n, 0);
    if 0 <= i < jobs.len() && jobs[i].id == n && forall|k: int| 0 <= k < i ==> jobs[k].id != n {
        match index_of_id(jobs, n) {
            Some(j) => {
                if (j as int) < i {
                    assert(jobs[j as int].id != n);
                }
                if (j as int) > i {
                    assert(jobs[i].id != n);
                }
            },
            None => {
                assert(jobs[i].id != n);
            },
        }
    }
}

} // verus!
