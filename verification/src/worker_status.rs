//! What the server knows of a worker, and what a worker knows of itself:
//! its threads, the job waiting to be sent to it, and the jobs it runs.

use vstd::prelude::*;
use crate::ip::IpValue;
use crate::job::{Job, JobView};
use crate::text::{decimal, decimal_text, push_char, push_text};

verus! {

/// Whether the server's thread that talks to a worker has run.
#[derive(Clone, Copy, Debug, PartialEq, Eq, Structural)]
pub enum ThreadStatus {
    NeverStarted,
    Running,
    Stopped,
}

/// The state of a worker.
#[derive(Debug)]
pub struct WorkerStatus {
    pub ip: Option<IpValue>,
    pub total_threads: usize,
    pub available_threads: usize,
    /// The job assigned to the worker and not yet sent to it.
    pub next_job: Option<Job>,
    pub running_jobs: Vec<Job>,
    pub thread_status: ThreadStatus,
}

impl Default for WorkerStatus {
    fn default() -> (s: Self)
        ensures
            s.ip is None,
            s.total_threads == 0,
            s.available_threads == 0,
            s.next_job is None,
            s.running_jobs@.len() == 0,
            s.thread_status is NeverStarted,
    {
        WorkerStatus {
            ip: None,
            total_threads: 0,
            available_threads: 0,
            next_job: None,
            running_jobs: Vec::new(),
            thread_status: ThreadStatus::NeverStarted,
        }
    }
}

/// The settings of a list of jobs.
pub open spec fn views(jobs: Seq<Job>) -> Seq<JobView> {
    jobs.map_values(|j: Job| j@)
}

/// The threads that a list of jobs asks for, together.
pub open spec fn threads_sum(jobs: Seq<JobView>) -> int
    decreases jobs.len(),
{
    if jobs.len() == 0 {
        0
    } else {
        threads_sum(jobs.drop_last()) + jobs.last().threads
    }
}

/// The threads a worker's state accounts for: free ones and those of running jobs.
pub open spec fn accounted_threads(s: WorkerStatus) -> int {
    s.available_threads + threads_sum(views(s.running_jobs@))
}

/// A worker's threads are all accounted for: the free ones and those of its
/// running jobs make up its total.
pub open spec fn balanced(s: WorkerStatus) -> bool {
    accounted_threads(s) == s.total_threads
}

/// The job number reported with the first exited process whose id is `pid`.
pub open spec fn exited_job(exited: Seq<(u32, usize)>, pid: u32) -> Option<usize>
    decreases exited.len(),
{
    if exited.len() == 0 {
        None
    } else if exited[0].0 == pid {
        Some(exited[0].1)
    } else {
        exited_job(exited.drop_first(), pid)
    }
}

/// Whether a job's process has exited.
pub open spec fn has_exited(j: JobView, exited: Seq<(u32, usize)>) -> bool {
    exited_job(exited, j.pid as u32) is Some
}

/// The jobs whose process has not exited, in order.
pub open spec fn still_running(jobs: Seq<JobView>, exited: Seq<(u32, usize)>) -> Seq<JobView>
    decreases jobs.len(),
{
    if jobs.len() == 0 {
        seq![]
    } else if has_exited(jobs.last(), exited) {
        still_running(jobs.drop_last(), exited)
    } else {
        still_running(jobs.drop_last(), exited).push(jobs.last())
    }
}

/// The threads of the jobs whose process has exited.
pub open spec fn freed_threads(jobs: Seq<JobView>, exited: Seq<(u32, usize)>) -> int
    decreases jobs.len(),
{
    if jobs.len() == 0 {
        0
    } else if has_exited(jobs.last(), exited) {
        freed_threads(jobs.drop_last(), exited) + jobs.last().threads
    } else {
        freed_threads(jobs.drop_last(), exited)
    }
}

/// The report of finished jobs: for each job whose process has exited, in
/// order, the reported job number and a space.
pub open spec fn finished_report(jobs: Seq<JobView>, exited: Seq<(u32, usize)>) -> Seq<char>
    decreases jobs.len(),
{
    if jobs.len() == 0 {
        seq![]
    } else {
        finished_report(jobs.drop_last(), exited) + match exited_job(exited, jobs.last().pid as u32) {
            Some(jid) => decimal(jid as nat).push(' '),
            None => seq![],
        }
    }
}

/// The job numbers of the finished jobs, in order.
pub open spec fn finished_ids(jobs: Seq<JobView>, exited: Seq<(u32, usize)>) -> Seq<usize>
    decreases jobs.len(),
{
    if jobs.len() == 0 {
        seq![]
    } else {
        finished_ids(jobs.drop_last(), exited) + match exited_job(exited, jobs.last().pid as u32) {
            Some(jid) => seq![jid],
            None => seq![],
        }
    }
}

/// Every job is either still running or freed: their threads add up.
pub proof fn lemma_split_threads(jobs: Seq<JobView>, exited: Seq<(u32, usize)>)
    ensures
        freed_threads(jobs, exited) + threads_sum(still_running(jobs, exited)) == threads_sum(jobs),
        freed_threads(jobs, exited) >= 0,
        threads_sum(still_running(jobs, exited)) >= 0,
    decreases jobs.len(),
{
    if jobs.len() > 0 {
        lemma_split_threads(jobs.drop_last(), exited);
        let k = still_running(jobs.drop_last(), exited);
        if !has_exited(jobs.last(), exited) {
            assert(still_running(jobs, exited).drop_last() =~= k);
        }
    }
}

/// A worker whose threads are all accounted for can always take back the
/// threads of its finished jobs: what is freed fits beside what is free.
/// With `with_threads` starting balanced and `start_job` and `finish_jobs`
/// keeping it so, the threads stay accounted for through any run of finished
/// and started jobs, with no bound beyond the worker's own total.
pub proof fn lemma_balanced_worker_frees_within_bounds(s: WorkerStatus, exited: Seq<(u32, usize)>)
    requires
        balanced(s),
    ensures
        s.available_threads + freed_threads(views(s.running_jobs@), exited) <= s.total_threads,
        s.available_threads + freed_threads(views(s.running_jobs@), exited) <= usize::MAX,
{
    lemma_split_threads(views(s.running_jobs@), exited);
}

fn exited_job_of(exited: &Vec<(u32, usize)>, pid: u32) -> (r: Option<usize>)
    ensures
        r == exited_job(exited@, pid),
{
    let mut i: usize = 0;
    assert(exited@.skip(0) =~= exited@);
    while i < exited.len()
        invariant
            i <= exited.len(),
            exited_job(exited@, pid) == exited_job(exited@.skip(i as int), pid),
        decreases exited.len() - i,
    {
        assert(exited@.skip(i as int).drop_first() =~= exited@.skip(i + 1));
        if exited[i].0 == pid {
            return Some(exited[i].1);
        }
        i = i + 1;
    }
    None
}

impl WorkerStatus {
    /// A worker with `total` threads, all of them free.
    pub fn with_threads(total: usize) -> (s: Self)
        ensures
            s.ip is None,
            s.total_threads == total,
            s.available_threads == total,
            s.next_job is None,
            s.running_jobs@.len() == 0,
            s.thread_status is NeverStarted,
            balanced(s),
    {
        let mut s = WorkerStatus::default();
        s.total_threads = total;
        s.available_threads = total;
        s
    }

    /// Drops the jobs whose process has exited, frees their threads, and
    /// gives the report for the server: a space, then each finished job's
    /// number followed by a space. `exited` pairs the id of each exited process
    /// with its job's number.
    pub fn finish_jobs(&mut self, exited: &Vec<(u32, usize)>) -> (report: String)
        requires
            old(self).available_threads + freed_threads(views(old(self).running_jobs@), exited@) <= usize::MAX,
        ensures
            report@ == seq![' '] + finished_report(views(old(self).running_jobs@), exited@),
            views(final(self).running_jobs@) == still_running(views(old(self).running_jobs@), exited@),
            final(self).available_threads == old(self).available_threads
                + freed_threads(views(old(self).running_jobs@), exited@),
            accounted_threads(*final(self)) == accounted_threads(*old(self)),
            balanced(*old(self)) ==> balanced(*final(self)),
            final(self).total_threads == old(self).total_threads,
            final(self).next_job == old(self).next_job,
            final(self).ip == old(self).ip,
            final(self).thread_status == old(self).thread_status,
    {
        let ghost jobs = views(self.running_jobs@);
        let mut kept: Vec<Job> = Vec::new();
        let mut report = String::new();
        push_char(&mut report, ' ');
        let mut freed: usize = 0;
        proof {
            lemma_split_threads(jobs, exited@);
        }
        for i in 0..self.running_jobs.len()
            invariant
                views(self.running_jobs@) == jobs,
                self.available_threads + freed_threads(jobs, exited@) <= usize::MAX,
                views(kept@) == still_running(jobs.take(i as int), exited@),
                freed == freed_threads(jobs.take(i as int), exited@),
                report@ == seq![' '] + finished_report(jobs.take(i as int), exited@),
        {
            let ghost prefix = jobs.take(i + 1);
            assert(prefix.drop_last() =~= jobs.take(i as int));
            assert(prefix.last() == jobs[i as int]);
            proof {
                lemma_split_threads(prefix, exited@);
                lemma_prefix_freed(jobs, i + 1, exited@);
            }
            let job = &self.running_jobs[i];
            match exited_job_of(exited, job.pid() as u32) {
                Some(jid) => {
                    let text = decimal_text(jid);
                    push_text(&mut report, text.as_str());
                    push_char(&mut report, ' ');
                    freed = freed + job.threads();
                },
                None => {
                    let c = job.clone();
                    kept.push(c);
                    assert(views(kept@) =~= still_running(jobs.take(i as int), exited@).push(c@));
                },
            }
        }
        assert(jobs.take(jobs.len() as int) =~= jobs);
        proof {
            lemma_split_threads(jobs, exited@);
        }
        self.running_jobs = kept;
        self.available_threads = self.available_threads + freed;
        report
    }
}

impl WorkerStatus {
    /// Records a job the worker has just started: its threads are taken from
    /// the free ones and it joins the running jobs.
    pub fn start_job(&mut self, job: Job)
        requires
            old(self).available_threads >= job@.threads,
        ensures
            final(self).available_threads == old(self).available_threads - job@.threads,
            views(final(self).running_jobs@) == views(old(self).running_jobs@).push(job@),
            accounted_threads(*final(self)) == accounted_threads(*old(self)),
            balanced(*old(self)) ==> balanced(*final(self)),
            final(self).total_threads == old(self).total_threads,
            final(self).next_job == old(self).next_job,
            final(self).ip == old(self).ip,
            final(self).thread_status == old(self).thread_status,
    {
        let ghost before = views(self.running_jobs@);
        self.available_threads = self.available_threads - job.threads();
        self.running_jobs.push(job);
        assert(views(self.running_jobs@) =~= before.push(job@));
        assert(views(self.running_jobs@).drop_last() =~= before);
    }

    /// Takes `threads` of the worker's free threads for a job, if no job is
    /// waiting to be sent to it and enough threads are free; otherwise
    /// changes nothing.
    pub fn reserve_threads(&mut self, threads: usize) -> (taken: bool)
        ensures
            taken == (old(self).next_job is None && old(self).available_threads >= threads),
            taken ==> final(self).available_threads == old(self).available_threads - threads,
            !taken ==> final(self).available_threads == old(self).available_threads,
            final(self).running_jobs == old(self).running_jobs,
            final(self).total_threads == old(self).total_threads,
            final(self).next_job == old(self).next_job,
            final(self).ip == old(self).ip,
            final(self).thread_status == old(self).thread_status,
    {
        if self.next_job.is_some() {
            return false;
        }
        if self.available_threads >= threads {
            self.available_threads = self.available_threads - threads;
            true
        } else {
            false
        }
    }

    /// Makes `job` the job to send to the worker next, and counts it among its
    /// running jobs.
    pub fn hand_over(&mut self, job: Job)
        ensures
            final(self).next_job matches Some(j) && j@ == job@,
            views(final(self).running_jobs@) == views(old(self).running_jobs@).push(job@),
            threads_sum(views(final(self).running_jobs@)) == threads_sum(views(old(self).running_jobs@)) + job@.threads,
            final(self).available_threads == old(self).available_threads,
            final(self).total_threads == old(self).total_threads,
            final(self).ip == old(self).ip,
            final(self).thread_status == old(self).thread_status,
    {
        let ghost before = views(self.running_jobs@);
        self.next_job = Some(job.clone());
        self.running_jobs.push(job);
        assert(views(self.running_jobs@) =~= before.push(job@));
        assert(views(self.running_jobs@).drop_last() =~= before);
    }

    /// Takes the job waiting to be sent to the worker, leaving none.
    pub fn take_next_job(&mut self) -> (job: Option<Job>)
        ensures
            job == old(self).next_job,
            final(self).next_job is None,
            final(self).running_jobs == old(self).running_jobs,
            final(self).available_threads == old(self).available_threads,
            final(self).total_threads == old(self).total_threads,
            final(self).ip == old(self).ip,
            final(self).thread_status == old(self).thread_status,
    {
        let job = self.next_job.take();
        job
    }
}

/// Whether a worker can take a job that asks for `threads`: no job waits to
/// be sent to it and enough of its threads are free.
pub open spec fn can_take(s: WorkerStatus, threads: usize) -> bool {
    s.next_job is None && s.available_threads >= threads
}

/// The first worker, in the order given, that can take a job asking for
/// `threads`; `None` when none can.
pub fn first_eligible(workers: &Vec<&WorkerStatus>, threads: usize) -> (i: Option<usize>)
    ensures
        i matches Some(k) ==> k < workers@.len() && can_take(*workers@[k as int], threads),
        forall|j: int| 0 <= j < (match i { Some(k) => k as int, None => workers@.len() as int })
            ==> !can_take(*#[trigger] workers@[j], threads),
{
    let mut k: usize = 0;
    while k < workers.len()
        invariant
            k <= workers@.len(),
            forall|j: int| 0 <= j < k ==> !can_take(*#[trigger] workers@[j], threads),
        decreases workers.len() - k,
    {
        let w: &WorkerStatus = workers[k];
        if w.next_job.is_none() && w.available_threads >= threads {
            return Some(k);
        }
        k = k + 1;
    }
    None
}

proof fn lemma_prefix_freed(jobs: Seq<JobView>, n: int, exited: Seq<(u32, usize)>)
    requires
        0 <= n <= jobs.len(),
    ensures
        freed_threads(jobs.take(n), exited) <= freed_threads(jobs, exited),
    decreases jobs.len(),
{
    if n < jobs.len() {
        assert(jobs.drop_last().take(n) =~= jobs.take(n));
        lemma_prefix_freed(jobs.drop_last(), n, exited);
    } else {
        assert(jobs.take(n) =~= jobs);
    }
}

} // verus!
