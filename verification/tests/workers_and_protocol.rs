use pitanga::job::Job;
use pitanga::protocol::{
    talk_step, TalkAction, TalkEvent, TalkState,
    admission, batch_step, finished_job_ids, greeting, run_order, worker_greeting, worker_order,
    Admission, BatchAction, BatchState, Greeting, WorkerOrder,
};
use pitanga::worker_status::{first_eligible, ThreadStatus, WorkerStatus};

fn job(id: usize, threads: usize, pid: usize) -> Job {
    let script = format!("#PITANGAID: {}\n#PITANGATHREADS: {}\necho {}\n", id, threads, id);
    let docs = Job::settings(&script).unwrap();
    let mut j = Job::from_settings(&script, docs, None).unwrap();
    j.pid = pid;
    j
}

#[test]
fn worker_status_default_is_empty() {
    let s = WorkerStatus::default();
    assert_eq!((s.total_threads, s.available_threads), (0, 0));
    assert!(s.next_job.is_none() && s.running_jobs.is_empty() && s.ip.is_none());
    assert_eq!(s.thread_status, ThreadStatus::NeverStarted);
    let s = WorkerStatus::with_threads(8);
    assert_eq!((s.total_threads, s.available_threads), (8, 8));
}

#[test]
fn worker_starts_and_finishes_jobs() {
    let mut s = WorkerStatus::with_threads(8);
    s.start_job(job(12, 3, 100));
    assert_eq!(s.available_threads, 5);
    assert_eq!(s.running_jobs.len(), 1);
    assert_eq!(s.finish_jobs(&vec![]), " ");
    assert_eq!(s.available_threads, 5);
    assert_eq!(s.finish_jobs(&vec![(100, 12)]), " 12 ");
    assert_eq!(s.available_threads, 8);
    assert!(s.running_jobs.is_empty());
}

#[test]
fn worker_reports_finished_jobs_in_running_order() {
    let mut s = WorkerStatus::with_threads(10);
    s.start_job(job(5, 1, 1));
    s.start_job(job(6, 2, 2));
    s.start_job(job(7, 3, 3));
    assert_eq!(s.available_threads, 4);
    let report = s.finish_jobs(&vec![(3, 7), (1, 5), (9, 99)]);
    assert_eq!(report, " 5 7 ");
    assert_eq!(s.available_threads, 8);
    assert_eq!(s.running_jobs.len(), 1);
    assert_eq!(s.running_jobs[0].id(), 6);
    assert_eq!(finished_job_ids(&report).unwrap(), vec![5, 7]);
}

#[test]
fn worker_reports_the_first_job_number_given_for_a_process() {
    let mut s = WorkerStatus::with_threads(2);
    s.start_job(job(5, 1, 4));
    assert_eq!(s.finish_jobs(&vec![(4, 50), (4, 60)]), " 50 ");
}

#[test]
fn server_reserves_threads_and_hands_over_jobs() {
    let mut s = WorkerStatus::with_threads(4);
    assert!(!s.reserve_threads(5));
    assert_eq!(s.available_threads, 4);
    assert!(s.reserve_threads(3));
    assert_eq!(s.available_threads, 1);
    s.hand_over(job(1, 3, 0));
    assert_eq!(s.running_jobs.len(), 1);
    assert!(!s.reserve_threads(1));
    let next = s.take_next_job().unwrap();
    assert_eq!(next.id(), 1);
    assert!(s.next_job.is_none());
    assert!(s.take_next_job().is_none());
    assert!(s.reserve_threads(1));
    assert_eq!(s.available_threads, 0);
}

#[test]
fn run_order_reaches_the_worker_as_the_script() {
    let j = job(3, 1, 0);
    let order = run_order(&j);
    assert_eq!(order, format!("RUN\n{}", j.script()));
    match worker_order(&order) {
        WorkerOrder::Run(script) => assert_eq!(&script, j.script()),
        _ => panic!("RUN expected"),
    }
}

#[test]
fn worker_reads_orders() {
    assert!(matches!(worker_order(&"NEWFINISHEDJOBS".to_string()), WorkerOrder::NewFinishedJobs));
    assert!(matches!(worker_order(&"AVAILABLETHREADS".to_string()), WorkerOrder::AvailableThreads));
    assert!(matches!(worker_order(&"TOTALTHREADS".to_string()), WorkerOrder::TotalThreads));
    assert!(matches!(worker_order(&"RUN\n".to_string()), WorkerOrder::Run(s) if s.is_empty()));
    assert!(matches!(worker_order(&"RUN".to_string()), WorkerOrder::Unexpected));
    assert!(matches!(worker_order(&"run\nx".to_string()), WorkerOrder::Unexpected));
    assert!(matches!(worker_order(&"".to_string()), WorkerOrder::Unexpected));
}

#[test]
fn server_reads_finished_job_numbers() {
    assert_eq!(finished_job_ids(&" 12 5 ".to_string()), Ok(vec![12, 5]));
    assert_eq!(finished_job_ids(&"".to_string()), Ok(vec![]));
    assert_eq!(finished_job_ids(&" ".to_string()), Ok(vec![]));
    assert_eq!(finished_job_ids(&"  3   4".to_string()), Ok(vec![3, 4]));
    assert_eq!(finished_job_ids(&" 3 x 4 ".to_string()), Err(vec![3]));
    assert_eq!(finished_job_ids(&"-1".to_string()), Err(vec![]));
}

#[test]
fn server_reads_greetings() {
    assert!(matches!(greeting(&"NEWWORKER".to_string()), Greeting::NewWorker));
    assert!(matches!(greeting(&"BATCH".to_string()), Greeting::Batch));
    assert!(matches!(greeting(&"batch".to_string()), Greeting::Other));
}

#[test]
fn server_admits_workers() {
    assert!(matches!(admission(None), Admission::Start));
    assert!(matches!(admission(Some(ThreadStatus::NeverStarted)), Admission::Start));
    assert!(matches!(admission(Some(ThreadStatus::Running)), Admission::Deny));
    assert!(matches!(admission(Some(ThreadStatus::Stopped)), Admission::RequeueAndStart));
}

#[test]
fn worker_answers_entry_point() {
    assert_eq!(worker_greeting(&"ENTRYPOINT".to_string()), Some("NEWWORKER".to_string()));
    assert_eq!(worker_greeting(&"HELLO".to_string()), None);
}

#[test]
fn batch_client_walks_through_its_conversation() {
    let script = "echo hi\n".to_string();
    let (st, act) = batch_step(BatchState::AwaitingEntryPoint, "ENTRYPOINT".to_string(), &script);
    assert!(matches!(st, BatchState::AwaitingScriptRequest));
    assert!(matches!(act, BatchAction::Send(ref t) if t == "BATCH"));
    let (st, act) = batch_step(st, "THENSENDMETHESCRIPT".to_string(), &script);
    assert!(matches!(st, BatchState::AwaitingStatus));
    assert!(matches!(act, BatchAction::Send(ref t) if *t == script));
    let (st, act) = batch_step(st, "Job 3 queued.".to_string(), &script);
    assert!(matches!(st, BatchState::Done));
    assert!(matches!(act, BatchAction::ShowAndClose(ref t) if t == "Job 3 queued."));
    let (st, act) = batch_step(st, "more".to_string(), &script);
    assert!(matches!(st, BatchState::Done));
    assert!(matches!(act, BatchAction::Unexpected));
}

#[test]
fn batch_client_flags_unexpected_words() {
    let script = String::new();
    let (st, act) = batch_step(BatchState::AwaitingEntryPoint, "NOPE".to_string(), &script);
    assert!(matches!(st, BatchState::AwaitingEntryPoint));
    assert!(matches!(act, BatchAction::Unexpected));
    let (st, act) = batch_step(BatchState::AwaitingScriptRequest, "ENTRYPOINT".to_string(), &script);
    assert!(matches!(st, BatchState::AwaitingScriptRequest));
    assert!(matches!(act, BatchAction::Unexpected));
}

#[test]
fn first_eligible_skips_busy_and_small_workers() {
    let script = "#PITANGATHREADS: 1\n";
    let pending = Job::from_settings(script, Job::settings(script).unwrap(), None).unwrap();
    let mut busy = WorkerStatus::with_threads(8);
    busy.next_job = Some(pending);
    let small = WorkerStatus::with_threads(2);
    let fits = WorkerStatus::with_threads(4);
    let also = WorkerStatus::with_threads(6);
    assert_eq!(first_eligible(&vec![&busy, &small, &fits, &also], 3), Some(2));
    assert_eq!(first_eligible(&vec![&busy, &small], 3), None);
    assert_eq!(first_eligible(&vec![&small, &fits], 2), Some(0));
    assert_eq!(first_eligible(&vec![], 1), None);
}

#[test]
fn talk_step_asks_for_finished_jobs_then_threads() {
    let (st, act) = talk_step(TalkState::AskFinished, TalkEvent::Nothing);
    assert!(matches!(st, TalkState::AwaitFinished));
    assert!(matches!(act, TalkAction::Send(ref t) if t == "NEWFINISHEDJOBS"));
    let (st, act) = talk_step(TalkState::AwaitFinished, TalkEvent::Text(" 3 4 ".to_string()));
    assert!(matches!(st, TalkState::AskThreads));
    assert!(matches!(act, TalkAction::FinishJobs(ref v) if v == &vec![3, 4]));
    let (_, act) = talk_step(TalkState::AwaitFinished, TalkEvent::Text(" 3 x 4".to_string()));
    assert!(matches!(act, TalkAction::FinishJobsThenFail(ref v) if v == &vec![3]));
    let (st, act) = talk_step(TalkState::AskThreads, TalkEvent::Nothing);
    assert!(matches!(st, TalkState::AwaitThreads));
    assert!(matches!(act, TalkAction::Send(ref t) if t == "AVAILABLETHREADS"));
    let (st, act) = talk_step(TalkState::AwaitThreads, TalkEvent::Text("5".to_string()));
    assert!(matches!(st, TalkState::AwaitJob));
    assert!(matches!(act, TalkAction::SetThreads(5)));
    let (_, act) = talk_step(TalkState::AwaitThreads, TalkEvent::Text("five".to_string()));
    assert!(matches!(act, TalkAction::Fail));
}

#[test]
fn talk_step_sends_a_waiting_job_and_reads_its_pid() {
    let script = "#PITANGATHREADS: 1\necho\n";
    let job = Job::from_settings(script, Job::settings(script).unwrap(), None).unwrap();
    let (st, act) = talk_step(TalkState::AwaitJob, TalkEvent::NextJob(Some(job)));
    assert!(matches!(st, TalkState::AwaitPid));
    assert!(matches!(act, TalkAction::Send(ref t) if t == &format!("RUN\n{}", script)));
    let (st, act) = talk_step(TalkState::AwaitPid, TalkEvent::Text("123".to_string()));
    assert!(matches!(st, TalkState::AskFinished));
    assert!(matches!(act, TalkAction::PidReceived(123)));
    let (st, act) = talk_step(TalkState::AwaitJob, TalkEvent::NextJob(None));
    assert!(matches!(st, TalkState::AskFinished));
    assert!(matches!(act, TalkAction::Sleep));
    let (st, act) = talk_step(TalkState::AwaitPid, TalkEvent::Nothing);
    assert!(matches!(st, TalkState::AwaitPid));
    assert!(matches!(act, TalkAction::Unexpected));
}
