//! The `bg` builtin: resumes a job in the background.

use vstd::prelude::*;

use crate::cmd::jobs::push_marker;
use crate::job::{
    find_by_id, find_by_pid, index_of_id, index_of_pid, lemma_first_with_id,
    lemma_pid_finds_job, marker, pids_distinct, with_status, Job, JobStatus,
};
use crate::num::{decimal, parse_usize_at, parse_usize_spec, push_decimal};
use crate::report::Report;
use crate::text::{chars_of, owned, pad_right, push_char, push_padded, push_str, texts};

verus! {

/// The `bg` builtin over the session's job table.
pub struct Bg<'a> {
    pub args: Vec<String>,
    pub jobs: &'a mut Vec<Job>,
}

/// What `bg` printed, and the process group it resumes: the first argument
/// for `kill` with `SIGCONT`.
pub struct BgReply {
    pub report: Report,
    pub resume: Option<i32>,
}

/// The index of the last job, the current one.
pub open spec fn last_index(jobs: Seq<Job>) -> Option<usize> {
    if jobs.len() > 0 {
        Some((jobs.len() - 1) as usize)
    } else {
        None
    }
}

/// The job a job number `spec` (without `%`) names.
pub open spec fn numbered_job(jobs: Seq<Job>, spec: Seq<char>) -> Option<usize> {
    match parse_usize_spec(spec) {
        Some(id) => index_of_id(jobs, id),
        None => None,
    }
}

/// The job `bg` resumes: the current job without argument or with `%`,
/// `%%` or `%+`; the previous one with `%-`; else the first job with the
/// number given as `%N` or `N`.
pub open spec fn bg_target(args: Seq<Seq<char>>, jobs: Seq<Job>) -> Option<usize> {
    if args.len() == 0 {
        last_index(jobs)
    } else {
        let spec = args[0];
        if spec.len() > 0 && spec[0] == '%' {
            let rest = spec.drop_first();
            if rest.len() == 0 || rest == seq!['+'] || rest == seq!['%'] {
                last_index(jobs)
            } else if rest == seq!['-'] {
                if jobs.len() > 1 {
                    Some((jobs.len() - 2) as usize)
                } else {
                    None
                }
            } else {
                numbered_job(jobs, rest)
            }
        } else {
            numbered_job(jobs, spec)
        }
    }
}

/// The message when no job matches.
pub open spec fn bg_no_such_job(args: Seq<Seq<char>>) -> Seq<char> {
    if args.len() == 0 {
        "bg: current: no such job"@
    } else {
        "bg: "@ + args[0] + ": no such job"@
    }
}

/// The line `bg` prints for a resumed job: its number and command, with the
/// marker of the first job of the same process id.
pub open spec fn continued_line(job: Job, pos: int, len: int) -> Seq<char> {
    seq!['['] + decimal(job.id as nat) + seq![']'] + marker(pos, len) + "  "@ + pad_right(
        "Continued"@,
        25,
    ) + job.command@
}

/// A job number names a job of the table, if any.
pub proof fn lemma_numbered_job_in_range(jobs: Seq<Job>, spec: Seq<char>)
    requires
        jobs.len() <= usize::MAX,
    ensures
        numbered_job(jobs, spec) matches Some(t) ==> t < jobs.len() && jobs[t as int].id
            == parse_usize_spec(spec)->0,
{
    if let Some(id) = parse_usize_spec(spec) {
        lemma_first_with_id(jobs, id, 0);
    }
}

/// The job `bg` chooses is in the table.
pub proof fn lemma_bg_target_in_range(args: Seq<Seq<char>>, jobs: Seq<Job>)
    requires
        jobs.len() <= usize::MAX,
    ensures
        bg_target(args, jobs) matches Some(t) ==> t < jobs.len(),
{
    if args.len() > 0 {
        lemma_numbered_job_in_range(jobs, args[0]);
        lemma_numbered_job_in_range(jobs, args[0].drop_first());
    }
}

/// The index of the first job with a job number `s` (the text after `%`, or
/// a bare argument).
fn find_numbered(jobs: &Vec<Job>, cs: &Vec<char>, start: usize) -> (r: Option<usize>)
    requires
        start <= cs.len(),
    ensures
        r == numbered_job(jobs@, cs@.skip(start as int)),
{
    match parse_usize_at(cs, start) {
        Some(id) => find_by_id(jobs, id),
        None => None,
    }
}

/// The characters of `cs` after the first one are exactly `w`.
fn rest_is(cs: &Vec<char>, w: char) -> (b: bool)
    requires
        cs.len() > 0,
    ensures
        b == (cs@.drop_first() == seq![w]),
{
    let b = cs.len() == 2 && cs[1] == w;
    if b {
        assert(cs@.drop_first() =~= seq![w]);
    } else if cs.len() == 2 {
        assert(cs@.drop_first()[0] == cs@[1]);
        assert(seq![w][0] == w);
        assert(cs@.drop_first() != seq![w]);
    } else {
        assert(cs@.drop_first().len() != seq![w].len());
    }
    b
}

impl<'a> Bg<'a> {
    pub fn new(args: Vec<String>, jobs: &'a mut Vec<Job>) -> (r: Self)
        ensures
            r.args == args,
            *r.jobs == *old(jobs),
            *final(r.jobs) == *final(jobs),
    {
        Self { args, jobs }
    }

    /// The index of the job `bg` resumes.
    pub fn target(args: &Vec<String>, jobs: &Vec<Job>) -> (r: Option<usize>)
        ensures
            r == bg_target(texts(args@), jobs@),
            r matches Some(t) ==> t < jobs.len(),
    {
        let n = jobs.len();
        proof {
            lemma_bg_target_in_range(texts(args@), jobs@);
        }
        if args.len() == 0 {
            return if n > 0 {
                Some(n - 1)
            } else {
                None
            };
        }
        let cs = chars_of(args[0].as_str());
        assert(texts(args@)[0] == cs@);
        if cs.len() > 0 && cs[0] == '%' {
            assert(cs@.skip(1) =~= cs@.drop_first());
            if cs.len() == 1 || rest_is(&cs, '+') || rest_is(&cs, '%') {
                if n > 0 {
                    Some(n - 1)
                } else {
                    None
                }
            } else if rest_is(&cs, '-') {
                if n > 1 {
                    Some(n - 2)
                } else {
                    None
                }
            } else {
                find_numbered(jobs, &cs, 1)
            }
        } else {
            assert(cs@.skip(0) =~= cs@);
            find_numbered(jobs, &cs, 0)
        }
    }

    /// Resumes the chosen job: marks the first job with its process id as
    /// running and prints its line, or prints that no job matches.
    pub fn execute(&mut self) -> (r: BgReply)
        requires
            bg_target(texts(old(self).args@), old(self).jobs@) matches Some(t) ==> old(self).jobs@[t as int].pid
                != i32::MIN,
        ensures
            final(self).args == old(self).args,
            match bg_target(texts(old(self).args@), old(self).jobs@) {
                None => {
                    &&& final(self).jobs@ == old(self).jobs@
                    &&& r.report.out_lines() == Seq::<Seq<char>>::empty()
                    &&& r.report.err_lines() == seq![bg_no_such_job(texts(old(self).args@))]
                    &&& r.resume is None
                },
                Some(t) => {
                    let jobs = old(self).jobs@;
                    let job = jobs[t as int];
                    let p = index_of_pid(jobs, job.pid)->0;
                    &&& index_of_pid(jobs, job.pid) is Some
                    &&& p <= t
                    &&& final(self).jobs@ == jobs.update(p as int, with_status(jobs[p as int], JobStatus::Running))
                    &&& r.report.out_lines() == seq![continued_line(job, p as int, jobs.len() as int)]
                    &&& r.report.err_lines() == Seq::<Seq<char>>::empty()
                    &&& r.resume == Some((-job.pid) as i32)
                },
            },
    {
        let ghost jobs0 = self.jobs@;
        let t = match Self::target(&self.args, &*self.jobs) {
            Some(t) => t,
            None => {
                let msg = if self.args.len() == 0 {
                    owned("bg: current: no such job")
                } else {
                    let mut m = owned("bg: ");
                    push_str(&mut m, self.args[0].as_str());
                    push_str(&mut m, ": no such job");
                    assert(texts(self.args@)[0] == self.args@[0]@);
                    m
                };
                assert(msg@ == bg_no_such_job(texts(self.args@)));
                return BgReply { report: Report::err_line(msg), resume: None };
            },
        };
        let pid = self.jobs[t].pid;
        assert(pid != i32::MIN);
        let p = find_by_pid(self.jobs, pid).unwrap();
        let mut line = String::new();
        push_char(&mut line, '[');
        push_decimal(&mut line, self.jobs[t].id as u64);
        push_char(&mut line, ']');
        push_marker(&mut line, p, self.jobs.len());
        push_str(&mut line, "  ");
        push_padded(&mut line, "Continued", 25);
        push_str(&mut line, self.jobs[t].command.as_str());
        assert(line@ == continued_line(jobs0[t as int], p as int, jobs0.len() as int));
        self.jobs[p].status = JobStatus::Running;
        assert(self.jobs@ =~= jobs0.update(p as int, with_status(jobs0[p as int], JobStatus::Running)));
        BgReply { report: Report::out_line(line), resume: Some(-pid) }
    }
}

/// When no two jobs share a process id, `bg` marks running exactly the job
/// it names, and that job's marker is the one it prints.
pub proof fn lemma_bg_resumes_named_job(args: Seq<Seq<char>>, jobs: Seq<Job>)
    requires
        jobs.len() <= usize::MAX,
        pids_distinct(jobs),
    ensures
        bg_target(args, jobs) matches Some(t) ==> index_of_pid(jobs, jobs[t as int].pid) == Some(t),
{
    lemma_bg_target_in_range(args, jobs);
    if let Some(t) = bg_target(args, jobs) {
        lemma_pid_finds_job(jobs, t as int);
    }
}

/// `bg` chooses the last job (the current one) without argument or with `%`,
/// `%%` or `%+`, the one before it with `%-` (when the table holds at least
/// two jobs, and none otherwise), and the first job numbered `N` for `%N` or
/// `N`, finding none exactly when no job has number `N`.
pub proof fn lemma_bg_choice(text: Seq<char>, jobs: Seq<Job>, i: int)
    requires
        jobs.len() <= usize::MAX,
        parse_usize_spec(text) is Some,
    ensures
        ({
            let len = jobs.len() as int;
            let current: Option<usize> = if len > 0 { Some((len - 1) as usize) } else { None };
            let n = parse_usize_spec(text)->0;
            &&& bg_target(Seq::empty(), jobs) == current
            &&& bg_target(seq![seq!['%']], jobs) == current
            &&& bg_target(seq![seq!['%', '%']], jobs) == current
            &&& bg_target(seq![seq!['%', '+']], jobs) == current
            &&& bg_target(seq![seq!['%', '-']], jobs) == if len >= 2 {
                Some((len - 2) as usize)
            } else {
                None::<usize>
            }
            &&& (0 <= i < len && jobs[i].id == n && forall|k: int| 0 <= k < i ==> jobs[k].id != n) ==> {
                &&& bg_target(seq![seq!['%'] + text], jobs) == Some(i as usize)
                &&& bg_target(seq![text], jobs) == Some(i as usize)
            }
            &&& (forall|k: int| 0 <= k < len ==> jobs[k].id != n) ==> {
                &&& bg_target(seq![seq!['%'] + text], jobs) is None
                &&& bg_target(seq![text], jobs) is None
            }
        }),
{
    let n = parse_usize_spec(text)->0;
    let a = seq!['%'] + text;
    assert(a[0] == '%');
    assert(a.drop_first() =~= text);
    assert(seq![a][0] == a);
    assert(seq![text][0] == text);
    assert(seq![seq!['%']][0] == seq!['%']);
    assert(seq![seq!['%', '%']][0] == seq!['%', '%']);
    assert(seq![seq!['%', '+']][0] == seq!['%', '+']);
    assert(seq![seq!['%', '-']][0] == seq!['%', '-']);
    assert(seq!['%'].drop_first() =~= Seq::<char>::empty());
    assert(seq!['%', '%'].drop_first() =~= seq!['%']);
    assert(seq!['%', '+'].drop_first() =~= seq!['+']);
    assert(seq!['%', '-'].drop_first() =~= seq!['-']);
    assert(seq!['-'] != seq!['+'] && seq!['-'] != seq!['%']) by {
        assert(seq!['-'][0] != seq!['+'][0]);
        assert(seq!['-'][0] != seq!['%'][0]);
    }
    assert(text[0] != '%') by {
        if text[0] == '%' {
            crate::num::lemma_parse_usize_digits(text);
        }
    }
    assert(text != seq!['+'] && text != seq!['%'] && text != seq!['-']) by {
        if text == seq!['-'] || text == seq!['%'] || text == seq!['+'] {
            crate::num::lemma_parse_usize_digits(text);
        }
    }
    lemma_first_with_id(jobs, n, 0);
    if 0 <= i < jobs.len() && jobs[i].id == n && forall|k: int| 0 <= k < i ==> jobs[k].id != n {
        match index_of_id(jobs, n) {
            Some(j) => {
                if (j as int) < i {
                    assert(jobs[j as int].id != n);
                }
                if (j as int) > i {
                    assert(jobs[i].id != n);
                }
            },
            None => {
                assert(jobs[i].id != n);
            },
        }
    }
}

} // verus!
