//! The conversation between the server, its workers and the batch client:
//! what each side makes of the words it receives.

use vstd::prelude::*;
use crate::job::{Job, JobView};
use crate::text::{
    all_digits, chars_of, decimal, is_digit, lemma_decimal_digits, lemma_parse_decimal,
    parse_usize, parse_usize_range, parse_usize_spec, push_range, push_text, text_equals,
};
use crate::worker_status::{finished_ids, finished_report, exited_job};
use crate::worker_status::ThreadStatus;

verus! {

/// The prefix of the order that sends a job to a worker.
pub open spec fn run_prefix() -> Seq<char> {
    seq!['R', 'U', 'N', '\n']
}

/// The order that sends a job to a worker: `RUN`, a newline, and the job's script.
pub fn run_order(job: &Job) -> (order: String)
    ensures
        order@ == run_prefix() + job@.script,
{
    let mut order = String::new();
    push_text(&mut order, "RUN\n");
    proof {
        reveal_strlit("RUN\n");
        assert("RUN\n"@ =~= run_prefix());
    }
    push_text(&mut order, job.script().as_str());
    order
}

/// What a worker is asked to do.
pub enum WorkerOrder {
    /// Report the jobs that have finished.
    NewFinishedJobs,
    /// Report the number of free threads.
    AvailableThreads,
    /// Report the number of threads.
    TotalThreads,
    /// Run the script.
    Run(String),
    /// Anything else.
    Unexpected,
}

/// The order `NEWFINISHEDJOBS`.
pub open spec fn new_finished_jobs_word() -> Seq<char> {
    seq!['N', 'E', 'W', 'F', 'I', 'N', 'I', 'S', 'H', 'E', 'D', 'J', 'O', 'B', 'S']
}

/// The order `AVAILABLETHREADS`.
pub open spec fn available_threads_word() -> Seq<char> {
    seq!['A', 'V', 'A', 'I', 'L', 'A', 'B', 'L', 'E', 'T', 'H', 'R', 'E', 'A', 'D', 'S']
}

/// The order `TOTALTHREADS`.
pub open spec fn total_threads_word() -> Seq<char> {
    seq!['T', 'O', 'T', 'A', 'L', 'T', 'H', 'R', 'E', 'A', 'D', 'S']
}

/// How a worker reads an order.
pub open spec fn worker_order_spec(msg: Seq<char>) -> Option<Seq<char>> {
    if msg == new_finished_jobs_word() || msg == available_threads_word() || msg == total_threads_word() {
        None
    } else if msg.len() >= 4 && msg.take(4) == run_prefix() {
        Some(msg.skip(4))
    } else {
        None
    }
}

/// Reads an order sent to a worker: one of the three report words, or `RUN`
/// and a newline followed by the script to run.
pub fn worker_order(msg: &String) -> (order: WorkerOrder)
    ensures
        order is NewFinishedJobs <==> msg@ == new_finished_jobs_word(),
        order is AvailableThreads <==> msg@ == available_threads_word(),
        order is TotalThreads <==> msg@ == total_threads_word(),
        order is Run <==> worker_order_spec(msg@) is Some,
        order matches WorkerOrder::Run(script) ==> Some(script@) == worker_order_spec(msg@),
{
    proof {
        reveal_strlit("NEWFINISHEDJOBS");
        reveal_strlit("AVAILABLETHREADS");
        reveal_strlit("TOTALTHREADS");
        assert("NEWFINISHEDJOBS"@ =~= new_finished_jobs_word());
        assert("AVAILABLETHREADS"@ =~= available_threads_word());
        assert("TOTALTHREADS"@ =~= total_threads_word());
        assert(new_finished_jobs_word() != available_threads_word());
        assert(new_finished_jobs_word() != total_threads_word());
        assert(available_threads_word()[0] != total_threads_word()[0]);
    }
    if text_equals(msg, "NEWFINISHEDJOBS") {
        return WorkerOrder::NewFinishedJobs;
    }
    if text_equals(msg, "AVAILABLETHREADS") {
        return WorkerOrder::AvailableThreads;
    }
    if text_equals(msg, "TOTALTHREADS") {
        return WorkerOrder::TotalThreads;
    }
    let v = chars_of(msg.as_str());
    if v.len() >= 4 && v[0] == 'R' && v[1] == 'U' && v[2] == 'N' && v[3] == '\n' {
        assert(v@.take(4) =~= run_prefix());
        let mut script = String::new();
        push_range(&mut script, &v, 4, v.len());
        assert(v@.subrange(4, v@.len() as int) =~= v@.skip(4));
        WorkerOrder::Run(script)
    } else {
        assert(v@.len() >= 4 ==> v@.take(4)[0] == v@[0] && v@.take(4)[1] == v@[1]
            && v@.take(4)[2] == v@[2] && v@.take(4)[3] == v@[3]);
        WorkerOrder::Unexpected
    }
}

/// A worker reads the script of a job from the order that sends it.
pub proof fn lemma_run_order_round_trip(job: JobView)
    ensures
        worker_order_spec(run_prefix() + job.script) == Some(job.script),
{
    let msg = run_prefix() + job.script;
    assert(msg.take(4) =~= run_prefix());
    assert(msg.skip(4) =~= job.script);
    assert(msg[3] == '\n');
    assert(new_finished_jobs_word()[3] != '\n');
    assert(available_threads_word()[3] != '\n');
    assert(total_threads_word()[3] != '\n');
}

/// The length of the run of non-space characters that `s` starts with.
pub open spec fn word_len(s: Seq<char>) -> int
    decreases s.len(),
{
    if s.len() == 0 || s[0] == ' ' {
        0
    } else {
        1 + word_len(s.drop_first())
    }
}

/// A word ends within the text, at a space or at the end.
pub proof fn lemma_word_len_bounds(s: Seq<char>)
    ensures
        0 <= word_len(s) <= s.len(),
        s.len() > 0 && s[0] != ' ' ==> word_len(s) >= 1,
        word_len(s) < s.len() ==> s[word_len(s)] == ' ',
        forall|i: int| 0 <= i < word_len(s) ==> s[i] != ' ',
    decreases s.len(),
{
    if s.len() > 0 && s[0] != ' ' {
        lemma_word_len_bounds(s.drop_first());
        assert forall|i: int| 0 <= i < word_len(s) implies s[i] != ' ' by {
            if i > 0 {
                assert(s[i] == s.drop_first()[i - 1]);
            }
        }
    }
}

/// The words of `s`: its maximal runs of characters other than a space, as
/// `s.split(" ")` gives them once the empty pieces are dropped.
pub open spec fn words(s: Seq<char>) -> Seq<Seq<char>>
    decreases s.len(),
{
    if s.len() == 0 {
        seq![]
    } else if s[0] == ' ' {
        words(s.drop_first())
    } else {
        let j = word_len(s);
        proof {
            lemma_word_len_bounds(s);
        }
        seq![s.take(j)] + words(s.skip(j))
    }
}

/// The job numbers of a list of words, read in order up to the first word
/// that is not a number, and whether every word was one.
pub open spec fn parse_words(ws: Seq<Seq<char>>) -> (Seq<usize>, bool)
    decreases ws.len(),
{
    if ws.len() == 0 {
        (seq![], true)
    } else {
        let (ids, ok) = parse_words(ws.drop_last());
        if !ok {
            (ids, false)
        } else {
            match parse_usize_spec(ws.last()) {
                Some(n) => (ids.push(n), true),
                None => (ids, false),
            }
        }
    }
}

/// Reads a report of finished jobs: the numbers of its words in order,
/// `Ok` when every word is a number, `Err` with the numbers before the first
/// word that is not.
pub fn finished_job_ids(report: &String) -> (r: Result<Vec<usize>, Vec<usize>>)
    ensures
        match r {
            Ok(all) => parse_words(words(report@)) == (all@, true),
            Err(some) => parse_words(words(report@)) == (some@, false),
        },
{
    let v = chars_of(report.as_str());
    let n: usize = v.len();
    let mut bounds: Vec<(usize, usize)> = Vec::new();
    let mut pos: usize = 0;
    let ghost ws = words(v@);
    assert(v@.skip(0) =~= v@);
    assert(Seq::new(0, |k: int| v@.subrange(bounds@[k].0 as int, bounds@[k].1 as int)) =~= Seq::<Seq<char>>::empty());
    while pos < n
        invariant
            pos <= n == v@.len(),
            ws == words(v@),
            v@ == report@,
            forall|k: int| 0 <= k < bounds@.len() ==> #[trigger] bounds@[k].0 <= bounds@[k].1 <= n,
            ws == Seq::new(bounds@.len(), |k: int| v@.subrange(bounds@[k].0 as int, bounds@[k].1 as int))
                + words(v@.skip(pos as int)),
        decreases n - pos,
    {
        let ghost rest = v@.skip(pos as int);
        if v[pos] == ' ' {
            assert(rest.drop_first() =~= v@.skip(pos + 1));
            pos = pos + 1;
        } else {
            let mut j: usize = pos;
            while j < n && v[j] != ' '
                invariant
                    pos <= j <= n == v@.len(),
                    forall|k: int| pos <= k < j ==> v@[k] != ' ',
                decreases n - j,
            {
                j = j + 1;
            }
            proof {
                lemma_word_len_bounds(rest);
                let w = word_len(rest);
                if w < j - pos {
                    assert(rest[w] == v@[pos + w]);
                }
                if w > j - pos {
                    assert(rest[j - pos] == v@[j as int]);
                }
                assert(w == j - pos);
                assert(rest.take(w) =~= v@.subrange(pos as int, j as int));
                assert(rest.skip(w) =~= v@.skip(j as int));
            }
            let ghost before = bounds@;
            bounds.push((pos, j));
            assert forall|k: int| 0 <= k < bounds@.len() implies #[trigger] bounds@[k].0 <= bounds@[k].1 <= n by {
                if k < before.len() {
                    assert(bounds@[k] == before[k]);
                }
            }
            assert(Seq::new(bounds@.len(), |k: int| v@.subrange(bounds@[k].0 as int, bounds@[k].1 as int))
                =~= Seq::new(before.len(), |k: int| v@.subrange(before[k].0 as int, before[k].1 as int))
                + seq![v@.subrange(pos as int, j as int)]);
            pos = j;
        }
    }
    assert(words(v@.skip(n as int)) =~= Seq::<Seq<char>>::empty()) by {
        assert(v@.skip(n as int) =~= Seq::<char>::empty());
    }
    assert(ws =~= Seq::new(bounds@.len(), |k: int| v@.subrange(bounds@[k].0 as int, bounds@[k].1 as int)));
    let mut ids: Vec<usize> = Vec::new();
    for i in 0..bounds.len()
        invariant
            n == v@.len(),
            v@ == report@,
            ws == words(report@),
            forall|k: int| 0 <= k < bounds@.len() ==> #[trigger] bounds@[k].0 <= bounds@[k].1 <= n,
            ws.len() == bounds@.len(),
            forall|k: int| 0 <= k < bounds@.len() ==> ws[k] == v@.subrange(bounds@[k].0 as int, bounds@[k].1 as int),
            parse_words(ws.take(i as int)) == (ids@, true),
    {
        assert(ws.take(i + 1).drop_last() =~= ws.take(i as int));
        let (lo, hi) = bounds[i];
        match parse_usize_range(&v, lo, hi) {
            Some(x) => {
                assert(ws[i as int] == v@.subrange(lo as int, hi as int));
                assert(ws.take(i + 1).last() == ws[i as int]);
                ids.push(x);
            },
            None => {
                proof {
                    assert(ws[i as int] == v@.subrange(lo as int, hi as int));
                    assert(ws.take(i + 1).last() == ws[i as int]);
                    assert(parse_words(ws.take(i + 1)) == (ids@, false));
                    lemma_parse_words_stops(ws, i + 1);
                    assert(parse_words(words(report@)) == (ids@, false));
                }
                return Err(ids);
            },
        }
    }
    assert(ws.take(bounds.len() as int) =~= ws);
    Ok(ids)
}

/// Once reading stops at a word that is no number, later words change nothing.
proof fn lemma_parse_words_stops(ws: Seq<Seq<char>>, k: int)
    requires
        0 <= k <= ws.len(),
        !parse_words(ws.take(k)).1,
    ensures
        parse_words(ws) == parse_words(ws.take(k)),
    decreases ws.len(),
{
    if k < ws.len() {
        assert(ws.drop_last().take(k) =~= ws.take(k));
        lemma_parse_words_stops(ws.drop_last(), k);
    } else {
        assert(ws.take(k) =~= ws);
    }
}

proof fn lemma_word_len_concat(a: Seq<char>, b: Seq<char>)
    requires
        a.len() > 0,
        a.last() == ' ',
    ensures
        word_len(a + b) == word_len(a),
        word_len(a) < a.len(),
    decreases a.len(),
{
    if a[0] != ' ' {
        assert((a + b).drop_first() =~= a.drop_first() + b);
        lemma_word_len_concat(a.drop_first(), b);
    }
}

/// Text that ends in a space splits into words apart from what follows it.
proof fn lemma_words_concat(a: Seq<char>, b: Seq<char>)
    requires
        a.len() == 0 || a.last() == ' ',
    ensures
        words(a + b) == words(a) + words(b),
    decreases a.len(),
{
    if a.len() == 0 {
        assert(a + b =~= b);
        assert(words(a) + words(b) =~= words(b));
    } else if a[0] == ' ' {
        assert((a + b).drop_first() =~= a.drop_first() + b);
        lemma_words_concat(a.drop_first(), b);
    } else {
        lemma_word_len_concat(a, b);
        lemma_word_len_bounds(a);
        let j = word_len(a);
        assert((a + b).take(j) =~= a.take(j));
        assert((a + b).skip(j) =~= a.skip(j) + b);
        lemma_words_concat(a.skip(j), b);
        assert(seq![a.take(j)] + (words(a.skip(j)) + words(b)) =~= (seq![a.take(j)] + words(a.skip(j))) + words(b));
    }
}

proof fn lemma_word_len_digits(d: Seq<char>)
    requires
        all_digits(d),
    ensures
        word_len(d.push(' ')) == d.len(),
    decreases d.len(),
{
    if d.len() > 0 {
        assert(is_digit(d[0]));
        assert(d.push(' ').drop_first() =~= d.drop_first().push(' '));
        lemma_word_len_digits(d.drop_first());
    }
}

proof fn lemma_words_of_number(n: nat)
    ensures
        words(decimal(n).push(' ')) == seq![decimal(n)],
{
    lemma_decimal_digits(n);
    let d = decimal(n);
    lemma_word_len_digits(d);
    assert(is_digit(d[0]));
    assert(d.push(' ').take(d.len() as int) =~= d);
    assert(d.push(' ').skip(d.len() as int) =~= seq![' ']);
    assert(seq![' '].drop_first() =~= Seq::<char>::empty());
    assert(words(seq![' ']) == words(Seq::<char>::empty()));
    assert(seq![d] + Seq::<Seq<char>>::empty() =~= seq![d]);
}

proof fn lemma_report_ends_with_space(jobs: Seq<JobView>, exited: Seq<(u32, usize)>)
    ensures
        finished_report(jobs, exited).len() == 0 || finished_report(jobs, exited).last() == ' ',
    decreases jobs.len(),
{
    if jobs.len() > 0 {
        lemma_report_ends_with_space(jobs.drop_last(), exited);
    }
}

/// The server reads back from a worker's report exactly the numbers of the
/// jobs the worker found finished, in order.
pub proof fn lemma_finished_report_round_trip(jobs: Seq<JobView>, exited: Seq<(u32, usize)>)
    ensures
        parse_words(words(seq![' '] + finished_report(jobs, exited))) == (finished_ids(jobs, exited), true),
    decreases jobs.len(),
{
    if jobs.len() == 0 {
        assert(seq![' '] + finished_report(jobs, exited) =~= seq![' ']);
        assert(seq![' '].drop_first() =~= Seq::<char>::empty());
        assert(words(seq![' ']) == words(Seq::<char>::empty()));
    } else {
        let dl = jobs.drop_last();
        lemma_finished_report_round_trip(dl, exited);
        lemma_report_ends_with_space(dl, exited);
        let a = seq![' '] + finished_report(dl, exited);
        match exited_job(exited, jobs.last().pid as u32) {
            Some(jid) => {
                let part = decimal(jid as nat).push(' ');
                assert(seq![' '] + finished_report(jobs, exited) =~= a + part);
                lemma_words_concat(a, part);
                lemma_words_of_number(jid as nat);
                let ws = words(a);
                assert((ws + seq![decimal(jid as nat)]).drop_last() =~= ws);
                lemma_parse_decimal(jid);
            },
            None => {
                assert(seq![' '] + finished_report(jobs, exited) =~= a);
                assert(finished_ids(jobs, exited) =~= finished_ids(dl, exited));
            },
        }
    }
}

/// What a newcomer to the server says it is.
pub enum Greeting {
    NewWorker,
    Batch,
    Other,
}

/// The greeting `NEWWORKER`.
pub open spec fn new_worker_word() -> Seq<char> {
    seq!['N', 'E', 'W', 'W', 'O', 'R', 'K', 'E', 'R']
}

/// The greeting `BATCH`.
pub open spec fn batch_word() -> Seq<char> {
    seq!['B', 'A', 'T', 'C', 'H']
}

/// Reads the answer to the server's `ENTRYPOINT`: `NEWWORKER` from a worker,
/// `BATCH` from a client that submits a job.
pub fn greeting(msg: &String) -> (g: Greeting)
    ensures
        g is NewWorker <==> msg@ == new_worker_word(),
        g is Batch <==> msg@ == batch_word(),
{
    proof {
        reveal_strlit("NEWWORKER");
        reveal_strlit("BATCH");
        assert("NEWWORKER"@ =~= new_worker_word());
        assert("BATCH"@ =~= batch_word());
    }
    if text_equals(msg, "NEWWORKER") {
        Greeting::NewWorker
    } else if text_equals(msg, "BATCH") {
        Greeting::Batch
    } else {
        Greeting::Other
    }
}

/// What the server does with a worker that says it is new.
pub enum Admission {
    /// Start talking to it.
    Start,
    /// Refuse it: a thread already talks to a worker at that address.
    Deny,
    /// Queue again the jobs it was running, then start talking to it.
    RequeueAndStart,
}

/// Decides on a new worker from the state of the thread that talked to a
/// worker at its address before, if any.
pub fn admission(known: Option<ThreadStatus>) -> (a: Admission)
    ensures
        a is Start <==> (known is None || known == Some(ThreadStatus::NeverStarted)),
        a is Deny <==> known == Some(ThreadStatus::Running),
        a is RequeueAndStart <==> known == Some(ThreadStatus::Stopped),
{
    match known {
        None => Admission::Start,
        Some(ThreadStatus::NeverStarted) => Admission::Start,
        Some(ThreadStatus::Running) => Admission::Deny,
        Some(ThreadStatus::Stopped) => Admission::RequeueAndStart,
    }
}

/// The server's first word, `ENTRYPOINT`.
pub open spec fn entry_point_word() -> Seq<char> {
    seq!['E', 'N', 'T', 'R', 'Y', 'P', 'O', 'I', 'N', 'T']
}

/// The server's request for a script, `THENSENDMETHESCRIPT`.
pub open spec fn send_script_word() -> Seq<char> {
    seq!['T', 'H', 'E', 'N', 'S', 'E', 'N', 'D', 'M', 'E', 'T', 'H', 'E', 'S', 'C', 'R', 'I', 'P', 'T']
}

/// A worker's answer to the server's first word: `NEWWORKER` after
/// `ENTRYPOINT`; nothing after any other word, which the worker does not expect.
pub fn worker_greeting(order: &String) -> (reply: Option<String>)
    ensures
        reply is Some <==> order@ == entry_point_word(),
        reply matches Some(r) ==> r@ == new_worker_word(),
{
    proof {
        reveal_strlit("ENTRYPOINT");
        reveal_strlit("NEWWORKER");
        assert("ENTRYPOINT"@ =~= entry_point_word());
        assert("NEWWORKER"@ =~= new_worker_word());
    }
    if text_equals(order, "ENTRYPOINT") {
        let mut r = String::new();
        push_text(&mut r, "NEWWORKER");
        Some(r)
    } else {
        None
    }
}

/// Where a client that submits a job stands in its conversation with the server.
#[derive(Clone, Copy, Debug)]
pub enum BatchState {
    /// Waiting for `ENTRYPOINT`.
    AwaitingEntryPoint,
    /// Waiting for `THENSENDMETHESCRIPT`.
    AwaitingScriptRequest,
    /// Waiting for the server's answer about the job.
    AwaitingStatus,
    /// The conversation is over.
    Done,
}

/// What a client that submits a job does with a word from the server.
pub enum BatchAction {
    /// Send this text.
    Send(String),
    /// Show the server's answer, then send an empty text.
    ShowAndClose(String),
    /// The word was not the one expected, or nothing more was expected.
    Unexpected,
}

/// The next step of a client that submits `script`: after `ENTRYPOINT` it
/// says `BATCH`, after `THENSENDMETHESCRIPT` it sends the script, and the
/// answer that follows is shown.
pub fn batch_step(state: BatchState, received: String, script: &String) -> (r: (BatchState, BatchAction))
    ensures
        match state {
            BatchState::AwaitingEntryPoint => if received@ == entry_point_word() {
                r.0 is AwaitingScriptRequest && (r.1 matches BatchAction::Send(t) && t@ == batch_word())
            } else {
                r.0 == state && r.1 is Unexpected
            },
            BatchState::AwaitingScriptRequest => if received@ == send_script_word() {
                r.0 is AwaitingStatus && (r.1 matches BatchAction::Send(t) && t@ == script@)
            } else {
                r.0 == state && r.1 is Unexpected
            },
            BatchState::AwaitingStatus => r.0 is Done && (r.1 matches BatchAction::ShowAndClose(t) && t@ == received@),
            BatchState::Done => r.0 is Done && r.1 is Unexpected,
        },
{
    proof {
        reveal_strlit("ENTRYPOINT");
        reveal_strlit("THENSENDMETHESCRIPT");
        reveal_strlit("BATCH");
        assert("ENTRYPOINT"@ =~= entry_point_word());
        assert("THENSENDMETHESCRIPT"@ =~= send_script_word());
        assert("BATCH"@ =~= batch_word());
    }
    match state {
        BatchState::AwaitingEntryPoint => {
            if text_equals(&received, "ENTRYPOINT") {
                let mut t = String::new();
                push_text(&mut t, "BATCH");
                (BatchState::AwaitingScriptRequest, BatchAction::Send(t))
            } else {
                (state, BatchAction::Unexpected)
            }
        },
        BatchState::AwaitingScriptRequest => {
            if text_equals(&received, "THENSENDMETHESCRIPT") {
                (BatchState::AwaitingStatus, BatchAction::Send(script.clone()))
            } else {
                (state, BatchAction::Unexpected)
            }
        },
        BatchState::AwaitingStatus => (BatchState::Done, BatchAction::ShowAndClose(received)),
        BatchState::Done => (BatchState::Done, BatchAction::Unexpected),
    }
}

/// Where the server stands in its round of questions to a worker.
pub enum TalkState {
    /// About to ask for the jobs that finished.
    AskFinished,
    /// Waiting for the report of finished jobs.
    AwaitFinished,
    /// About to ask how many threads are free.
    AskThreads,
    /// Waiting for the number of free threads.
    AwaitThreads,
    /// Waiting to learn whether a job is to be sent.
    AwaitJob,
    /// Waiting for the process id of the job just sent.
    AwaitPid,
}

/// What the server learns between two steps of the round.
pub enum TalkEvent {
    /// Nothing: the step only speaks.
    Nothing,
    /// The worker's answer.
    Text(String),
    /// The job assigned to the worker and not yet sent, if any, taken from
    /// its status after the wait for one.
    NextJob(Option<Job>),
}

/// What the server does at a step of the round.
pub enum TalkAction {
    /// Send this text to the worker.
    Send(String),
    /// Mark these jobs finished.
    FinishJobs(Vec<usize>),
    /// Mark these jobs finished, then stop: the report holds a word that is
    /// no job number.
    FinishJobsThenFail(Vec<usize>),
    /// Record the worker's free threads, then wait for a job to be assigned.
    SetThreads(usize),
    /// No job to send: pause before the next round.
    Sleep,
    /// The process id of the job just sent.
    PidReceived(usize),
    /// Stop: the answer was to be a number and is not.
    Fail,
    /// The event does not fit the step.
    Unexpected,
}

/// One step of the server's round with a worker: it asks for the finished
/// jobs and marks them, asks for the free threads and records them, waits
/// for a job and, if one is assigned, sends it and reads its process id;
/// then the round starts again.
pub fn talk_step(state: TalkState, event: TalkEvent) -> (r: (TalkState, TalkAction))
    ensures
        match state {
            TalkState::AskFinished => r.0 is AwaitFinished
                && (r.1 matches TalkAction::Send(t) && t@ == new_finished_jobs_word()),
            TalkState::AwaitFinished => match event {
                TalkEvent::Text(report) => match parse_words(words(report@)) {
                    (ids, true) => r.0 is AskThreads && (r.1 matches TalkAction::FinishJobs(v) && v@ == ids),
                    (ids, false) => r.0 is AwaitFinished
                        && (r.1 matches TalkAction::FinishJobsThenFail(v) && v@ == ids),
                },
                _ => r.0 is AwaitFinished && r.1 is Unexpected,
            },
            TalkState::AskThreads => r.0 is AwaitThreads
                && (r.1 matches TalkAction::Send(t) && t@ == available_threads_word()),
            TalkState::AwaitThreads => match event {
                TalkEvent::Text(no) => match parse_usize_spec(no@) {
                    Some(n) => r.0 is AwaitJob && r.1 == TalkAction::SetThreads(n),
                    None => r.0 is AwaitThreads && r.1 is Fail,
                },
                _ => r.0 is AwaitThreads && r.1 is Unexpected,
            },
            TalkState::AwaitJob => match event {
                TalkEvent::NextJob(Some(job)) => r.0 is AwaitPid
                    && (r.1 matches TalkAction::Send(t) && t@ == run_prefix() + job@.script),
                TalkEvent::NextJob(None) => r.0 is AskFinished && r.1 is Sleep,
                _ => r.0 is AwaitJob && r.1 is Unexpected,
            },
            TalkState::AwaitPid => match event {
                TalkEvent::Text(pid) => match parse_usize_spec(pid@) {
                    Some(n) => r.0 is AskFinished && r.1 == TalkAction::PidReceived(n),
                    None => r.0 is AwaitPid && r.1 is Fail,
                },
                _ => r.0 is AwaitPid && r.1 is Unexpected,
            },
        },
{
    proof {
        reveal_strlit("NEWFINISHEDJOBS");
        reveal_strlit("AVAILABLETHREADS");
        assert("NEWFINISHEDJOBS"@ =~= new_finished_jobs_word());
        assert("AVAILABLETHREADS"@ =~= available_threads_word());
    }
    match state {
        TalkState::AskFinished => {
            let mut t = String::new();
            push_text(&mut t, "NEWFINISHEDJOBS");
            (TalkState::AwaitFinished, TalkAction::Send(t))
        },
        TalkState::AwaitFinished => match event {
            TalkEvent::Text(report) => match finished_job_ids(&report) {
                Ok(ids) => (TalkState::AskThreads, TalkAction::FinishJobs(ids)),
                Err(ids) => (TalkState::AwaitFinished, TalkAction::FinishJobsThenFail(ids)),
            },
            _ => (TalkState::AwaitFinished, TalkAction::Unexpected),
        },
        TalkState::AskThreads => {
            let mut t = String::new();
            push_text(&mut t, "AVAILABLETHREADS");
            (TalkState::AwaitThreads, TalkAction::Send(t))
        },
        TalkState::AwaitThreads => match event {
            TalkEvent::Text(no) => match parse_usize(no.as_str()) {
                Some(n) => (TalkState::AwaitJob, TalkAction::SetThreads(n)),
                None => (TalkState::AwaitThreads, TalkAction::Fail),
            },
            _ => (TalkState::AwaitThreads, TalkAction::Unexpected),
        },
        TalkState::AwaitJob => match event {
            TalkEvent::NextJob(Some(job)) => (TalkState::AwaitPid, TalkAction::Send(run_order(&job))),
            TalkEvent::NextJob(None) => (TalkState::AskFinished, TalkAction::Sleep),
            _ => (TalkState::AwaitJob, TalkAction::Unexpected),
        },
        TalkState::AwaitPid => match event {
            TalkEvent::Text(pid) => match parse_usize(pid.as_str()) {
                Some(n) => (TalkState::AskFinished, TalkAction::PidReceived(n)),
                None => (TalkState::AwaitPid, TalkAction::Fail),
            },
            _ => (TalkState::AwaitPid, TalkAction::Unexpected),
        },
    }
}

} // verus!
