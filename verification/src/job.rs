//! The job table: jobs, their lookup by job number and by process id, the
//! renumbering after a removal, and the choice of a fresh job number.

use vstd::prelude::*;
use vstd::set_lib::*;

verus! {

/// The state of a job.
#[derive(Clone, Copy, Debug, PartialEq, Eq, Structural)]
pub enum JobStatus {
    Running,
    Stopped,
    DonePending,
}

/// A job of the shell: its job number, the process (group) id, the command
/// line that started it, and its state.
#[derive(Clone, Debug)]
pub struct Job {
    pub id: usize,
    pub pid: i32,
    pub command: String,
    pub status: JobStatus,
}

/// The first index at or after `from` of a job with job number `id`.
pub open spec fn first_with_id(jobs: Seq<Job>, id: usize, from: int) -> Option<usize>
    decreases jobs.len() - from,
{
    if from < 0 || from >= jobs.len() {
        None
    } else if jobs[from].id == id {
        Some(from as usize)
    } else {
        first_with_id(jobs, id, from + 1)
    }
}

/// The first index at or after `from` of a job with process id `pid`.
pub open spec fn first_with_pid(jobs: Seq<Job>, pid: i32, from: int) -> Option<usize>
    decreases jobs.len() - from,
{
    if from < 0 || from >= jobs.len() {
        None
    } else if jobs[from].pid == pid {
        Some(from as usize)
    } else {
        first_with_pid(jobs, pid, from + 1)
    }
}

/// The index of the first job with job number `id`.
pub open spec fn index_of_id(jobs: Seq<Job>, id: usize) -> Option<usize> {
    first_with_id(jobs, id, 0)
}

/// The index of the first job with process id `pid`.
pub open spec fn index_of_pid(jobs: Seq<Job>, pid: i32) -> Option<usize> {
    first_with_pid(jobs, pid, 0)
}

/// Some job has job number `id`.
pub open spec fn id_used(jobs: Seq<Job>, id: int) -> bool {
    exists|i: int| 0 <= i < jobs.len() && jobs[i].id == id
}

/// `job` with job number `id` and everything else kept.
pub open spec fn with_id(job: Job, id: int) -> Job {
    Job { id: id as usize, pid: job.pid, command: job.command, status: job.status }
}

/// `job` in state `status` and everything else kept.
pub open spec fn with_status(job: Job, status: JobStatus) -> Job {
    Job { id: job.id, pid: job.pid, command: job.command, status }
}

/// The jobs in the same order, numbered 1, 2, 3, ...
pub open spec fn renumbered(jobs: Seq<Job>) -> Seq<Job> {
    Seq::new(jobs.len(), |i: int| with_id(jobs[i], i + 1))
}

/// `id` is the least positive job number that no job has.
pub open spec fn is_least_free(jobs: Seq<Job>, id: int) -> bool {
    &&& id >= 1
    &&& !id_used(jobs, id)
    &&& forall|k: int| 1 <= k < id ==> id_used(jobs, k)
}

/// No two jobs share a job number.
pub open spec fn ids_distinct(jobs: Seq<Job>) -> bool {
    forall|i: int, j: int| 0 <= i < jobs.len() && 0 <= j < jobs.len() && i != j ==> jobs[i].id != jobs[j].id
}

/// The marker of the job at `idx` in a table of `len` jobs in a listing:
/// `+` for the current (last) job, `-` for the previous one, else a space.
pub open spec fn marker(idx: int, len: int) -> Seq<char> {
    if idx + 1 == len {
        seq!['+']
    } else if len > 1 && idx + 1 == len - 1 {
        seq!['-']
    } else {
        seq![' ']
    }
}

/// Looking a job up by number finds the first job that carries it, and
/// finds none exactly when no job carries it.
pub proof fn lemma_first_with_id(jobs: Seq<Job>, id: usize, from: int)
    requires
        0 <= from,
        jobs.len() <= usize::MAX,
    ensures
        match first_with_id(jobs, id, from) {
            Some(i) => from <= i < jobs.len() && jobs[i as int].id == id && forall|k: int|
                from <= k < i ==> jobs[k].id != id,
            None => forall|k: int| from <= k < jobs.len() ==> jobs[k].id != id,
        },
    decreases jobs.len() - from,
{
    if from < jobs.len() && jobs[from].id != id {
        lemma_first_with_id(jobs, id, from + 1);
    }
}

/// Looking a job up by process id finds the first job with it, and finds
/// none exactly when no job has it.
pub proof fn lemma_first_with_pid(jobs: Seq<Job>, pid: i32, from: int)
    requires
        0 <= from,
        jobs.len() <= usize::MAX,
    ensures
        match first_with_pid(jobs, pid, from) {
            Some(i) => from <= i < jobs.len() && jobs[i as int].pid == pid && forall|k: int|
                from <= k < i ==> jobs[k].pid != pid,
            None => forall|k: int| from <= k < jobs.len() ==> jobs[k].pid != pid,
        },
    decreases jobs.len() - from,
{
    if from < jobs.len() && jobs[from].pid != pid {
        lemma_first_with_pid(jobs, pid, from + 1);
    }
}

/// The index of the first job with job number `id`.
pub fn find_by_id(jobs: &Vec<Job>, id: usize) -> (r: Option<usize>)
    ensures
        r == index_of_id(jobs@, id),
        match r {
            Some(i) => i < jobs.len() && jobs@[i as int].id == id && forall|k: int|
                0 <= k < i ==> jobs@[k].id != id,
            None => forall|k: int| 0 <= k < jobs.len() ==> jobs@[k].id != id,
        },
{
    let mut i: usize = 0;
    while i < jobs.len()
        invariant
            i <= jobs.len(),
            index_of_id(jobs@, id) == first_with_id(jobs@, id, i as int),
            forall|k: int| 0 <= k < i ==> jobs@[k].id != id,
        decreases jobs.len() - i,
    {
        if jobs[i].id == id {
            return Some(i);
        }
        i += 1;
    }
    None
}

/// The index of the first job with process id `pid`.
pub fn find_by_pid(jobs: &Vec<Job>, pid: i32) -> (r: Option<usize>)
    ensures
        r == index_of_pid(jobs@, pid),
        match r {
            Some(i) => i < jobs.len() && jobs@[i as int].pid == pid && forall|k: int|
                0 <= k < i ==> jobs@[k].pid != pid,
            None => forall|k: int| 0 <= k < jobs.len() ==> jobs@[k].pid != pid,
        },
{
    let mut i: usize = 0;
    while i < jobs.len()
        invariant
            i <= jobs.len(),
            index_of_pid(jobs@, pid) == first_with_pid(jobs@, pid, i as int),
            forall|k: int| 0 <= k < i ==> jobs@[k].pid != pid,
        decreases jobs.len() - i,
    {
        if jobs[i].pid == pid {
            return Some(i);
        }
        i += 1;
    }
    None
}

/// Numbers the jobs 1, 2, 3, ... in table order.
pub fn renumber(jobs: &mut Vec<Job>)
    ensures
        final(jobs)@ == renumbered(old(jobs)@),
{
    let ghost orig = jobs@;
    let mut i: usize = 0;
    while i < jobs.len()
        invariant
            i <= jobs.len(),
            jobs@.len() == orig.len(),
            forall|k: int| 0 <= k < i ==> jobs@[k] == with_id(orig[k], k + 1),
            forall|k: int| i <= k < jobs@.len() ==> jobs@[k] == orig[k],
        decreases jobs.len() - i,
    {
        jobs[i].id = i + 1;
        i += 1;
    }
    assert(jobs@ =~= renumbered(orig));
}

/// Removes the job at `idx` and numbers the rest 1, 2, 3, ... in order.
pub fn remove_and_renumber(jobs: &mut Vec<Job>, idx: usize)
    requires
        idx < old(jobs).len(),
    ensures
        final(jobs)@ == renumbered(old(jobs)@.remove(idx as int)),
{
    jobs.remove(idx);
    renumber(jobs);
}

/// A table of `n` jobs cannot use every job number from 1 to `n + 1`.
pub proof fn lemma_some_number_free(jobs: Seq<Job>)
    ensures
        exists|k: int| 1 <= k <= jobs.len() + 1 && !id_used(jobs, k),
{
    let ids = jobs.map_values(|j: Job| j.id as int);
    let range = set_int_range(1, jobs.len() as int + 2);
    lemma_int_range(1, jobs.len() as int + 2);
    ids.lemma_cardinality_of_set();
    vstd::seq_lib::seq_to_set_is_finite(ids);
    if forall|k: int| 1 <= k <= jobs.len() + 1 ==> id_used(jobs, k) {
        assert forall|x: int| range.contains(x) implies ids.to_set().contains(x) by {
            assert(id_used(jobs, x));
            let i = choose|i: int| 0 <= i < jobs.len() && jobs[i].id == x;
            assert(ids[i] == x);
        }
        lemma_len_subset(range, ids.to_set());
        assert(false);
    }
}

/// The least positive job number that no job has; the `(1..).find(..)` of
/// the job table.
pub fn next_free_id(jobs: &Vec<Job>) -> (r: usize)
    requires
        jobs.len() < usize::MAX,
    ensures
        is_least_free(jobs@, r as int),
        r <= jobs.len() + 1,
{
    let mut c: usize = 1;
    while c <= jobs.len() && find_by_id(jobs, c).is_some()
        invariant
            1 <= c <= jobs.len() + 1,
            jobs.len() < usize::MAX,
            forall|k: int| 1 <= k < c ==> id_used(jobs@, k),
        decreases jobs.len() + 1 - c,
    {
        proof {
            lemma_first_with_id(jobs@, c, 0);
            let i = index_of_id(jobs@, c).unwrap();
            assert(jobs@[i as int].id == c);
        }
        c += 1;
    }
    proof {
        lemma_first_with_id(jobs@, c, 0);
        if c as int == jobs.len() + 1 {
            lemma_some_number_free(jobs@);
        }
    }
    c
}

/// After renumbering, no two jobs share a number, and `%n` names the
/// `n`-th job of the table for every `n` from 1 to its length.
pub proof fn lemma_renumbered_lookup(jobs: Seq<Job>, n: usize)
    requires
        jobs.len() <= usize::MAX,
    ensures
        ids_distinct(renumbered(jobs)),
        1 <= n <= jobs.len() ==> index_of_id(renumbered(jobs), n) == Some((n - 1) as usize),
        n < 1 || n > jobs.len() ==> index_of_id(renumbered(jobs), n) is None,
{
    let r = renumbered(jobs);
    lemma_first_with_id(r, n, 0);
    if 1 <= n <= jobs.len() {
        assert(r[n - 1].id == n);
    }
}

/// No two jobs share a process id.
pub open spec fn pids_distinct(jobs: Seq<Job>) -> bool {
    forall|i: int, j: int| 0 <= i < jobs.len() && 0 <= j < jobs.len() && i != j ==> jobs[i].pid != jobs[j].pid
}

/// When no two jobs share a process id, looking up a job's process id finds
/// that very job.
pub proof fn lemma_pid_finds_job(jobs: Seq<Job>, i: int)
    requires
        jobs.len() <= usize::MAX,
        pids_distinct(jobs),
        0 <= i < jobs.len(),
    ensures
        index_of_pid(jobs, jobs[i].pid) == Some(i as usize),
{
    lemma_first_with_pid(jobs, jobs[i].pid, 0);
}

/// The `+` marker goes to the last job alone, and `-` to the one before it.
pub proof fn lemma_marker(idx: int, len: int)
    requires
        0 <= idx < len,
    ensures
        (marker(idx, len) == seq!['+']) <==> idx == len - 1,
        (marker(idx, len) == seq!['-']) <==> (len > 1 && idx == len - 2),
{
    if marker(idx, len) == seq!['+'] && idx != len - 1 {
        if len > 1 && idx + 1 == len - 1 {
            assert(seq!['-'][0] != seq!['+'][0]);
        } else {
            assert(seq![' '][0] != seq!['+'][0]);
        }
    }
    if marker(idx, len) == seq!['-'] && !(len > 1 && idx == len - 2) {
        if idx + 1 == len {
            assert(seq!['+'][0] != seq!['-'][0]);
        } else {
            assert(seq![' '][0] != seq!['-'][0]);
        }
    }
}

/// Changing a job's state changes no job's number: distinct numbers stay
/// distinct, and every number names the same job as before.
pub proof fn lemma_status_change_keeps_numbers(jobs: Seq<Job>, p: int, status: JobStatus, id: usize)
    requires
        0 <= p < jobs.len(),
    ensures
        ids_distinct(jobs) ==> ids_distinct(jobs.update(p, with_status(jobs[p], status))),
        index_of_id(jobs.update(p, with_status(jobs[p], status)), id) == index_of_id(jobs, id),
{
    let u = jobs.update(p, with_status(jobs[p], status));
    assert forall|k: int| 0 <= k < jobs.len() implies #[trigger] u[k].id == jobs[k].id by {}
    lemma_same_ids_same_lookup(jobs, u, id, 0);
}

proof fn lemma_same_ids_same_lookup(a: Seq<Job>, b: Seq<Job>, id: usize, from: int)
    requires
        a.len() == b.len(),
        forall|k: int| 0 <= k < a.len() ==> #[trigger] b[k].id == a[k].id,
    ensures
        first_with_id(b, id, from) == first_with_id(a, id, from),
    decreases a.len() - from,
{
    if 0 <= from < a.len() {
        assert(b[from].id == a[from].id);
        lemma_same_ids_same_lookup(a, b, id, from + 1);
    }
}

/// Removing a job keeps the numbers of the others distinct.
pub proof fn lemma_remove_keeps_distinct(jobs: Seq<Job>, p: int)
    requires
        0 <= p < jobs.len(),
        ids_distinct(jobs),
    ensures
        ids_distinct(jobs.remove(p)),
{
    let r = jobs.remove(p);
    assert forall|i: int, j: int| 0 <= i < r.len() && 0 <= j < r.len() && i != j implies r[i].id != r[j].id by {
        let i2 = if i < p { i } else { i + 1 };
        let j2 = if j < p { j } else { j + 1 };
        assert(r[i] == jobs[i2]);
        assert(r[j] == jobs[j2]);
    }
}

} // verus!
