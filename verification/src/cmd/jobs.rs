//! The `jobs` builtin: lists the jobs of the session, filtered and
//! formatted by its options.

use vstd::prelude::*;

use crate::job::{id_used, marker, Job, JobStatus, find_by_id};
use crate::num::{decimal, parse_usize_at, parse_usize_spec, push_decimal, push_signed_decimal, signed_decimal};
use crate::report::Report;
use crate::text::{chars_of, owned, pad_right, push_char, push_padded, push_str, texts};

verus! {

/// The `jobs` builtin over the session's job table.
pub struct Jobs<'a> {
    pub args: Vec<String>,
    pub jobs: &'a Vec<Job>,
}

/// The options of `jobs`: `-p` (process ids only), `-l` (long format),
/// `-r` (running jobs only), `-s` (stopped jobs only) and `%N` (job `N` only).
#[derive(Clone, Copy, Debug)]
pub struct JobsOptions {
    pub pids_only: bool,
    pub long: bool,
    pub running_only: bool,
    pub stopped_only: bool,
    pub job: Option<usize>,
}

/// The job number of a job specification `%N`.
pub open spec fn percent_number(a: Seq<char>) -> Option<usize> {
    if a.len() > 0 && a[0] == '%' {
        parse_usize_spec(a.drop_first())
    } else {
        None
    }
}

/// The options after one more argument `a` (at index `idx`), or the index of
/// the first argument that is not an option.
pub open spec fn apply_jobs_arg(o: JobsOptions, a: Seq<char>, idx: int) -> Result<JobsOptions, int> {
    if a == seq!['-', 'p'] {
        Ok(JobsOptions { pids_only: true, ..o })
    } else if a == seq!['-', 'l'] {
        Ok(JobsOptions { long: true, ..o })
    } else if a == seq!['-', 'r'] {
        Ok(JobsOptions { running_only: true, ..o })
    } else if a == seq!['-', 's'] {
        Ok(JobsOptions { stopped_only: true, ..o })
    } else {
        match percent_number(a) {
            Some(n) => Ok(JobsOptions { job: Some(n), ..o }),
            None => Err(idx),
        }
    }
}

/// No option given.
pub open spec fn no_options() -> JobsOptions {
    JobsOptions { pids_only: false, long: false, running_only: false, stopped_only: false, job: None }
}

/// The options of the first `n` arguments, read left to right; the index of
/// the first argument that is not an option stops the reading.
pub open spec fn jobs_options(args: Seq<Seq<char>>, n: int) -> Result<JobsOptions, int>
    decreases n,
{
    if n <= 0 {
        Ok(no_options())
    } else {
        match jobs_options(args, n - 1) {
            Ok(o) => apply_jobs_arg(o, args[n - 1], n - 1),
            Err(e) => Err(e),
        }
    }
}

/// Once an argument is not an option, the reading stays at it.
proof fn lemma_jobs_options_err_stays(args: Seq<Seq<char>>, m: int, n: int)
    requires
        0 <= m <= n,
        jobs_options(args, m) is Err,
    ensures
        jobs_options(args, n) == jobs_options(args, m),
    decreases n - m,
{
    if m < n {
        lemma_jobs_options_err_stays(args, m, n - 1);
    }
}

/// The word `jobs` shows for a state.
pub open spec fn status_word(s: JobStatus) -> Seq<char> {
    match s {
        JobStatus::Running => "Running"@,
        JobStatus::Stopped => "Stopped"@,
        JobStatus::DonePending => "Done"@,
    }
}

/// Whether `jobs` with options `o` lists `job`.
pub open spec fn listed(o: JobsOptions, job: Job) -> bool {
    &&& (o.job matches Some(n) ==> job.id == n)
    &&& (o.running_only ==> job.status == JobStatus::Running)
    &&& (o.stopped_only ==> job.status == JobStatus::Stopped)
}

/// The line `jobs` prints for the job at `i`.
pub open spec fn job_line(o: JobsOptions, jobs: Seq<Job>, i: int) -> Seq<char> {
    let j = jobs[i];
    if o.pids_only {
        signed_decimal(j.pid as int)
    } else if o.long {
        seq!['['] + decimal(j.id as nat) + seq![']'] + marker(i, jobs.len() as int) + "  "@
            + signed_decimal(j.pid as int) + seq![' '] + pad_right(status_word(j.status), 20)
            + j.command@
    } else {
        seq!['['] + decimal(j.id as nat) + seq![']'] + marker(i, jobs.len() as int) + "  "@
            + pad_right(status_word(j.status), 22) + j.command@
    }
}

/// The lines for the first `n` jobs of the table.
pub open spec fn listing(o: JobsOptions, jobs: Seq<Job>, n: int) -> Seq<Seq<char>>
    decreases n,
{
    if n <= 0 {
        seq![]
    } else if listed(o, jobs[n - 1]) {
        listing(o, jobs, n - 1).push(job_line(o, jobs, n - 1))
    } else {
        listing(o, jobs, n - 1)
    }
}

/// The message for an argument that is not an option.
pub open spec fn invalid_option_lines(arg: Seq<char>) -> Seq<Seq<char>> {
    seq!["jobs: "@ + arg + ": invalid option"@, "jobs: usage: jobs [-lprs] [%job_number]"@]
}

/// The message for a job number that no job has.
pub open spec fn no_such_job_line(n: usize) -> Seq<char> {
    "jobs: %"@ + decimal(n as nat) + ": no such job"@
}

/// Appends the marker of the job at `idx` in a table of `len` jobs.
pub fn push_marker(out: &mut String, idx: usize, len: usize)
    requires
        idx < len,
    ensures
        final(out)@ == old(out)@ + marker(idx as int, len as int),
{
    if idx + 1 == len {
        push_char(out, '+');
    } else if len > 1 && idx + 1 == len - 1 {
        push_char(out, '-');
    } else {
        push_char(out, ' ');
    }
}

/// `cs` is the flag `-f`.
fn is_flag(cs: &Vec<char>, f: char) -> (b: bool)
    ensures
        b == (cs@ == seq!['-', f]),
{
    let b = cs.len() == 2 && cs[0] == '-' && cs[1] == f;
    if b {
        assert(cs@ =~= seq!['-', f]);
    }
    b
}

/// The job number of a job specification `%N`.
pub fn parse_percent_number(cs: &Vec<char>) -> (r: Option<usize>)
    ensures
        r == percent_number(cs@),
{
    if cs.len() > 0 && cs[0] == '%' {
        assert(cs@.skip(1) =~= cs@.drop_first());
        parse_usize_at(cs, 1)
    } else {
        None
    }
}

fn status_str(s: JobStatus) -> (r: &'static str)
    ensures
        r@ == status_word(s),
{
    match s {
        JobStatus::Running => "Running",
        JobStatus::Stopped => "Stopped",
        JobStatus::DonePending => "Done",
    }
}

impl<'a> Jobs<'a> {
    pub fn new(args: Vec<String>, jobs: &'a Vec<Job>) -> (r: Self)
        ensures
            r.args == args,
            r.jobs == jobs,
    {
        Self { args, jobs }
    }

    /// The options of all the arguments, or the index of the first argument
    /// that is not an option.
    pub fn options(&self) -> (r: Result<JobsOptions, usize>)
        ensures
            match r {
                Ok(o) => jobs_options(texts(self.args@), self.args.len() as int) == Ok::<JobsOptions, int>(o),
                Err(i) => jobs_options(texts(self.args@), self.args.len() as int) == Err::<JobsOptions, int>(i as int)
                    && i < self.args.len(),
            },
    {
        let ghost a = texts(self.args@);
        let mut o = JobsOptions {
            pids_only: false,
            long: false,
            running_only: false,
            stopped_only: false,
            job: None,
        };
        let mut i: usize = 0;
        while i < self.args.len()
            invariant
                i <= self.args.len(),
                a == texts(self.args@),
                jobs_options(a, i as int) == Ok::<JobsOptions, int>(o),
            decreases self.args.len() - i,
        {
            let cs = chars_of(self.args[i].as_str());
            assert(a[i as int] == cs@);
            if is_flag(&cs, 'p') {
                o.pids_only = true;
            } else if is_flag(&cs, 'l') {
                o.long = true;
            } else if is_flag(&cs, 'r') {
                o.running_only = true;
            } else if is_flag(&cs, 's') {
                o.stopped_only = true;
            } else {
                match parse_percent_number(&cs) {
                    Some(n) => {
                        o.job = Some(n);
                    },
                    None => {
                        proof {
                            lemma_jobs_options_err_stays(a, i as int + 1, self.args.len() as int);
                        }
                        return Err(i);
                    },
                }
            }
            i += 1;
        }
        Ok(o)
    }

    /// The line for the job at `i`.
    fn line(&self, o: JobsOptions, i: usize) -> (r: String)
        requires
            i < self.jobs.len(),
        ensures
            r@ == job_line(o, self.jobs@, i as int),
    {
        let job = &self.jobs[i];
        let mut s = String::new();
        if o.pids_only {
            push_signed_decimal(&mut s, job.pid);
        } else {
            push_char(&mut s, '[');
            push_decimal(&mut s, job.id as u64);
            push_char(&mut s, ']');
            push_marker(&mut s, i, self.jobs.len());
            push_str(&mut s, "  ");
            if o.long {
                push_signed_decimal(&mut s, job.pid);
                push_char(&mut s, ' ');
                push_padded(&mut s, status_str(job.status), 20);
            } else {
                push_padded(&mut s, status_str(job.status), 22);
            }
            push_str(&mut s, job.command.as_str());
        }
        s
    }

    /// What `jobs` prints: the usage message for an argument that is not an
    /// option, a message for a job number that no job has, or else one line
    /// for each listed job, in table order.
    pub fn execute(&self) -> (r: Report)
        ensures
            match jobs_options(texts(self.args@), self.args.len() as int) {
                Err(i) => r.out_lines() == Seq::<Seq<char>>::empty()
                    && r.err_lines() == invalid_option_lines(self.args@[i]@),
                Ok(o) => if o.job is Some && !id_used(self.jobs@, o.job->0 as int) {
                    r.out_lines() == Seq::<Seq<char>>::empty()
                        && r.err_lines() == seq![no_such_job_line(o.job->0)]
                } else {
                    r.out_lines() == listing(o, self.jobs@, self.jobs@.len() as int)
                        && r.err_lines() == Seq::<Seq<char>>::empty()
                },
            },
    {
        let o = match self.options() {
            Ok(o) => o,
            Err(i) => {
                let mut l1 = owned("jobs: ");
                push_str(&mut l1, self.args[i].as_str());
                push_str(&mut l1, ": invalid option");
                let l2 = owned("jobs: usage: jobs [-lprs] [%job_number]");
                let mut err = Vec::new();
                err.push(l1);
                err.push(l2);
                let r = Report { out: Vec::new(), err };
                assert(r.err_lines() =~= invalid_option_lines(self.args@[i as int]@));
                assert(r.out_lines() =~= Seq::<Seq<char>>::empty());
                return r;
            },
        };
        if let Some(n) = o.job {
            let found = find_by_id(self.jobs, n);
            if found.is_none() {
                let mut l = owned("jobs: %");
                push_decimal(&mut l, n as u64);
                push_str(&mut l, ": no such job");
                return Report::err_line(l);
            }
            proof {
                let k = found.unwrap();
                assert(self.jobs@[k as int].id == n);
            }
        }
        let mut out: Vec<String> = Vec::new();
        let mut i: usize = 0;
        while i < self.jobs.len()
            invariant
                i <= self.jobs.len(),
                texts(out@) == listing(o, self.jobs@, i as int),
            decreases self.jobs.len() - i,
        {
            let job = &self.jobs[i];
            let skip = match o.job {
                Some(n) => job.id != n,
                None => false,
            } || (o.running_only && job.status != JobStatus::Running) || (o.stopped_only
                && job.status != JobStatus::Stopped);
            if !skip {
                let l = self.line(o, i);
                let ghost before = out@;
                out.push(l);
                assert(texts(out@) =~= texts(before).push(l@));
            }
            i += 1;
        }
        let r = Report { out, err: Vec::new() };
        assert(r.err_lines() =~= Seq::<Seq<char>>::empty());
        r
    }
}

/// Without options, `jobs` prints one line for every job.
pub proof fn lemma_listing_all(jobs: Seq<Job>, n: int)
    requires
        0 <= n <= jobs.len(),
    ensures
        listing(no_options(), jobs, n).len() == n,
    decreases n,
{
    if n > 0 {
        lemma_listing_all(jobs, n - 1);
    }
}

/// `jobs` prints one line for each of the first `n` jobs that its options
/// let through, and so never more lines than jobs.
pub proof fn lemma_listing_filters(o: JobsOptions, jobs: Seq<Job>, n: int)
    requires
        0 <= n <= jobs.len(),
    ensures
        listing(o, jobs, n).len() <= n,
        listing(o, jobs, n).len() == Seq::new(n as nat, |i: int| jobs[i]).filter(|j: Job| listed(o, j)).len(),
    decreases n,
{
    let f = |j: Job| listed(o, j);
    let s = Seq::new(n as nat, |i: int| jobs[i]);
    if n > 0 {
        lemma_listing_filters(o, jobs, n - 1);
        let s0 = Seq::new((n - 1) as nat, |i: int| jobs[i]);
        assert(s.drop_last() =~= s0);
        reveal_with_fuel(Seq::filter, 1);
        assert(s.filter(f) == if f(s.last()) { s0.filter(f).push(s.last()) } else { s0.filter(f) });
    } else {
        assert(s =~= Seq::<Job>::empty());
        reveal_with_fuel(Seq::filter, 1);
    }
}

proof fn lemma_listing_indices(o: JobsOptions, jobs: Seq<Job>, n: int)
    requires
        0 <= n <= jobs.len(),
    ensures
        listing(o, jobs, n) == Seq::new(n as nat, |i: int| i).filter(
            |i: int|
                (o.job is None || jobs[i].id == o.job->0) && (!o.running_only || jobs[i].status
                    == JobStatus::Running) && (!o.stopped_only || jobs[i].status == JobStatus::Stopped),
        ).map_values(|i: int| job_line(o, jobs, i)),
    decreases n,
{
    let keep = |i: int|
        (o.job is None || jobs[i].id == o.job->0) && (!o.running_only || jobs[i].status
            == JobStatus::Running) && (!o.stopped_only || jobs[i].status == JobStatus::Stopped);
    let line = |i: int| job_line(o, jobs, i);
    let s = Seq::new(n as nat, |i: int| i);
    reveal_with_fuel(Seq::filter, 1);
    if n > 0 {
        lemma_listing_indices(o, jobs, n - 1);
        let s0 = Seq::new((n - 1) as nat, |i: int| i);
        assert(s.drop_last() =~= s0);
        assert(s.last() == n - 1);
        assert(s.filter(keep) == if keep(n - 1) { s0.filter(keep).push(n - 1) } else { s0.filter(keep) });
        assert(keep(n - 1) == listed(o, jobs[n - 1]));
        if keep(n - 1) {
            assert(s0.filter(keep).push(n - 1).map_values(line) =~= s0.filter(keep).map_values(line).push(line(n - 1)));
        }
    } else {
        assert(s =~= Seq::<int>::empty());
        assert(s.filter(keep) =~= Seq::<int>::empty());
        assert(s.filter(keep).map_values(line) =~= Seq::<Seq<char>>::empty());
    }
}

/// `jobs` prints, in table order, the line of each job that passes every
/// filter given: job number `N` for `%N`, state Running for `-r`, state
/// Stopped for `-s`. The filters apply alike whether lines show the whole job
/// (`-l` or the default) or only its process id (`-p`): with `-p` the lines are
/// the process ids of exactly the jobs listed without it, in the same order.
pub proof fn lemma_jobs_lines(o: JobsOptions, jobs: Seq<Job>)
    ensures
        listing(o, jobs, jobs.len() as int) == Seq::new(jobs.len(), |i: int| i).filter(
            |i: int|
                (o.job is None || jobs[i].id == o.job->0) && (!o.running_only || jobs[i].status
                    == JobStatus::Running) && (!o.stopped_only || jobs[i].status == JobStatus::Stopped),
        ).map_values(|i: int| job_line(o, jobs, i)),
        listing(JobsOptions { pids_only: true, ..o }, jobs, jobs.len() as int) == Seq::new(
            jobs.len(),
            |i: int| i,
        ).filter(
            |i: int|
                (o.job is None || jobs[i].id == o.job->0) && (!o.running_only || jobs[i].status
                    == JobStatus::Running) && (!o.stopped_only || jobs[i].status == JobStatus::Stopped),
        ).map_values(|i: int| signed_decimal(jobs[i].pid as int)),
        listing(JobsOptions { pids_only: true, ..o }, jobs, jobs.len() as int).len() == listing(
            JobsOptions { pids_only: false, ..o },
            jobs,
            jobs.len() as int,
        ).len(),
{
    let op = JobsOptions { pids_only: true, ..o };
    let on = JobsOptions { pids_only: false, ..o };
    lemma_listing_indices(o, jobs, jobs.len() as int);
    lemma_listing_indices(op, jobs, jobs.len() as int);
    lemma_listing_indices(on, jobs, jobs.len() as int);
    let keep = |i: int|
        (o.job is None || jobs[i].id == o.job->0) && (!o.running_only || jobs[i].status
            == JobStatus::Running) && (!o.stopped_only || jobs[i].status == JobStatus::Stopped);
    let idx = Seq::new(jobs.len(), |i: int| i).filter(keep);
    assert(idx.map_values(|i: int| job_line(op, jobs, i)) =~= idx.map_values(
        |i: int| signed_decimal(jobs[i].pid as int),
    ));
}

/// A flag among the arguments of `jobs` sets its option: when the arguments
/// read as options, `-p`, `-l`, `-r` and `-s` each turn on theirs if given,
/// and a `%N` argument sets the job filter.
pub proof fn lemma_jobs_flags(args: Seq<Seq<char>>, n: int)
    requires
        0 <= n <= args.len(),
    ensures
        jobs_options(args, n) matches Ok(o) ==> {
            &&& (exists|k: int| 0 <= k < n && args[k] == seq!['-', 'p']) ==> o.pids_only
            &&& (exists|k: int| 0 <= k < n && args[k] == seq!['-', 'l']) ==> o.long
            &&& (exists|k: int| 0 <= k < n && args[k] == seq!['-', 'r']) ==> o.running_only
            &&& (exists|k: int| 0 <= k < n && args[k] == seq!['-', 's']) ==> o.stopped_only
            &&& (exists|k: int| 0 <= k < n && percent_number(args[k]) is Some) ==> o.job is Some
        },
    decreases n,
{
    if n > 0 {
        lemma_jobs_flags(args, n - 1);
        let a = args[n - 1];
        assert(seq!['-', 'p'] != seq!['-', 'l'] && seq!['-', 'p'] != seq!['-', 'r'] && seq!['-', 'p']
            != seq!['-', 's']) by {
            assert(seq!['-', 'p'][1] != seq!['-', 'l'][1]);
            assert(seq!['-', 'p'][1] != seq!['-', 'r'][1]);
            assert(seq!['-', 'p'][1] != seq!['-', 's'][1]);
        }
        assert(seq!['-', 'l'] != seq!['-', 'r'] && seq!['-', 'l'] != seq!['-', 's'] && seq!['-', 'r']
            != seq!['-', 's']) by {
            assert(seq!['-', 'l'][1] != seq!['-', 'r'][1]);
            assert(seq!['-', 'l'][1] != seq!['-', 's'][1]);
            assert(seq!['-', 'r'][1] != seq!['-', 's'][1]);
        }
        assert(percent_number(seq!['-', 'p']) is None && percent_number(seq!['-', 'l']) is None
            && percent_number(seq!['-', 'r']) is None && percent_number(seq!['-', 's']) is None) by {
            assert(seq!['-', 'p'][0] != '%');
            assert(seq!['-', 'l'][0] != '%');
            assert(seq!['-', 'r'][0] != '%');
            assert(seq!['-', 's'][0] != '%');
        }
    }
}

} // verus!
