use pitanga::job::Job;
use pitanga::message::{body_received, body_sent, message_body, size_received, size_sent, transfer_check, Error, SizeErr};
use pitanga::queue::{assignment_script, batch_pause, job_file_name, last_job_id, requeued_script, submission, suffixed_job_ids};
use pitanga::size::Size;
use pitanga::worker_config::{get_default_string, threads_from_value, ConfigError, WorkerConfig};
use pitanga::yaml::YamlValue;

fn strings(v: &[&str]) -> Vec<String> {
    v.iter().map(|s| s.to_string()).collect()
}

#[test]
fn queue_lists_suffixed_jobs_in_order() {
    let names = strings(&["3_queued.pitanga", "10_queued.pitanga", "2_running.pitanga", "x_queued.pitanga",
        "1_queued.pitanga", "01_queued.pitanga", "queued.pitanga", "_queued.pitanga"]);
    assert_eq!(suffixed_job_ids(&names, "_queued.pitanga"), vec![1, 1, 3, 10]);
    assert_eq!(suffixed_job_ids(&names, "_running.pitanga"), vec![2]);
    assert_eq!(suffixed_job_ids(&vec![], "_finished.pitanga"), Vec::<usize>::new());
}

#[test]
fn queue_finds_last_job_id() {
    assert_eq!(last_job_id(&strings(&["3_queued", "10_finished", "abc", "7", "x_1"])), 10);
    assert_eq!(last_job_id(&strings(&["abc"])), 0);
    assert_eq!(last_job_id(&vec![]), 0);
}

#[test]
fn queue_names_job_files() {
    assert_eq!(job_file_name(12, "_running.pitanga"), "12_running.pitanga");
    assert_eq!(job_file_name(0, "_finished.pitanga"), "0_finished.pitanga");
}

#[test]
fn queue_prepares_submissions() {
    let s = submission(4, &"echo\n".to_string());
    assert_eq!(s.id, 5);
    assert_eq!(s.script, "#PITANGAID: 5\necho\n");
    assert_eq!(s.file_name, "5_queued.pitanga");
    assert_eq!(s.status, "Job 5 queued.");
    let docs = Job::settings(&s.script).unwrap();
    assert_eq!(docs[0], YamlValue::Hash(vec![(YamlValue::String("ID".to_string()), YamlValue::Integer(5))]));
}

#[test]
fn queue_writes_assignment_script() {
    let script = "#PITANGATHREADS: 2\necho\n";
    let docs = Job::settings(script).unwrap();
    let job = Job::from_settings(script, docs, None).unwrap();
    let assigned = assignment_script("10.0.0.1", &job);
    assert_eq!(assigned, "#PITANGAIP: \"10.0.0.1\"\n#PITANGATHREADS: 2\necho\n");
    let docs = Job::settings(&assigned).unwrap();
    assert_eq!(Job::ip_to_parse(&docs), Some("10.0.0.1".to_string()));
}

#[test]
fn queue_requeues_without_ip() {
    let script = "#PITANGAIP: \"a\"\n#PITANGAIP #PITANGAIPX #PITANGAI\n";
    assert_eq!(requeued_script(&script.to_string()), script.replace("#PITANGAIP", "#PITANGAOLDIP"));
    assert_eq!(requeued_script(&"#PITANGAIP#PITANGAIP".to_string()), "#PITANGAOLDIP#PITANGAOLDIP");
    let requeued = requeued_script(&"#PITANGAIP: \"1.2.3.4\"\n#PITANGATHREADS: 1\n".to_string());
    let docs = Job::settings(&requeued).unwrap();
    assert_eq!(Job::ip_to_parse(&docs), None);
    let job = Job::from_settings(&requeued, docs, None).unwrap();
    assert_eq!(job.ip(), None);
}

#[test]
fn config_default_text() {
    assert_eq!(get_default_string(), "server: \"127.0.0.1:7777\"\nthreads: \"all\"\n");
}

#[test]
fn config_reads_default_text() {
    let c = WorkerConfig::try_new(&get_default_string()).unwrap();
    assert_eq!(c.server_addr, "127.0.0.1:7777");
    assert_eq!(c.total_threads, num_cpus::get());
    assert!(c.total_threads >= 1);
    let c = WorkerConfig::new(&"server: \"h:1\"\nthreads: 1\n".to_string());
    assert_eq!(c.server_addr, "h:1");
    assert_eq!(c.total_threads, 1);
}

#[test]
fn config_threads_follow_the_rules() {
    let i = |n: i64| YamlValue::Integer(n);
    assert_eq!(threads_from_value(None, 8), Ok(8));
    assert_eq!(threads_from_value(Some(&i(0)), 8), Ok(8));
    assert_eq!(threads_from_value(Some(&i(20)), 8), Ok(8));
    assert_eq!(threads_from_value(Some(&i(5)), 8), Ok(5));
    assert_eq!(threads_from_value(Some(&i(8)), 8), Ok(8));
    assert_eq!(threads_from_value(Some(&i(-3)), 8), Ok(11));
    assert_eq!(threads_from_value(Some(&i(-7)), 8), Ok(15));
    assert_eq!(threads_from_value(Some(&i(-8)), 8), Ok(1));
    assert_eq!(threads_from_value(Some(&i(-9)), 8), Ok(1));
    assert_eq!(threads_from_value(Some(&YamlValue::String("all".to_string())), 8), Ok(8));
    assert_eq!(threads_from_value(Some(&YamlValue::String("All".to_string())), 8), Err(ConfigError::BadThreads));
    assert_eq!(threads_from_value(Some(&YamlValue::Boolean(true)), 8), Err(ConfigError::BadThreads));
}

#[test]
fn config_refusals() {
    let t = |s: &str| WorkerConfig::try_new(&s.to_string()).err();
    assert_eq!(t("threads: 1\n"), Some(ConfigError::NoServer));
    assert_eq!(t("server: 5\n"), Some(ConfigError::ServerNotString));
    assert_eq!(t("server: \"a\"\nthreads: many\n"), Some(ConfigError::BadThreads));
    assert_eq!(t("threads: []\nserver: 3\n"), Some(ConfigError::BadThreads));
    assert_eq!(t("- a\n"), Some(ConfigError::NotHash));
    assert_eq!(t(""), Some(ConfigError::NoDocument));
    assert_eq!(t("a: \"x\n"), Some(ConfigError::Yaml));
}

#[test]
fn config_from_document_uses_given_cpus() {
    let doc = YamlValue::Hash(vec![
        (YamlValue::String("server".to_string()), YamlValue::String("s:1".to_string())),
    ]);
    let c = WorkerConfig::from_document(&doc, 6).unwrap();
    assert_eq!((c.total_threads, c.server_addr.as_str()), (6, "s:1"));
}

#[test]
fn message_transfers_are_judged() {
    assert_eq!(transfer_check(3, 3), Ok(()));
    assert_eq!(transfer_check(2, 4), Err(SizeErr { was_transferred: 2, should_be_transferred: 4 }));
    assert_eq!(size_received(Ok(4), Size::from(77u32)).unwrap(), 77);
    assert!(matches!(size_received(Ok(2), Size::zero()),
        Err(Error::Size(SizeErr { was_transferred: 2, should_be_transferred: 4 }))));
    let io = std::io::Error::new(std::io::ErrorKind::Other, "gone");
    assert!(matches!(size_received(Err(io), Size::zero()), Err(Error::Io(_))));
    assert!(size_sent(Ok(4)).is_ok());
    assert!(matches!(size_sent(Ok(0)), Err(Error::Size(SizeErr { was_transferred: 0, should_be_transferred: 4 }))));
    assert!(body_sent(Ok(5), 5).is_ok());
    assert!(matches!(body_sent(Ok(1), 5), Err(Error::Size(SizeErr { was_transferred: 1, should_be_transferred: 5 }))));
}

#[test]
fn message_bodies_are_decoded() {
    assert_eq!(body_received(Ok(3), 3, b"abc".to_vec()).unwrap(), "abc");
    assert_eq!(body_received(Ok(2), 2, "é".as_bytes().to_vec()).unwrap(), "é");
    assert!(matches!(body_received(Ok(1), 1, vec![0xff]), Err(Error::Utf8(_))));
    assert!(matches!(body_received(Ok(1), 3, b"abc".to_vec()),
        Err(Error::Size(SizeErr { was_transferred: 1, should_be_transferred: 3 }))));
}

#[test]
fn message_round_trips() {
    for text in ["", "RUN\necho hi\n", "héllo ✓"] {
        let body = message_body(&text.to_string());
        assert_eq!(body, text.as_bytes());
        let header = Size::from(body.len());
        let n = size_received(Ok(4), header).unwrap();
        assert_eq!(n, body.len());
        assert_eq!(body_received(Ok(n), n, body).unwrap(), text);
    }
}

#[test]
fn batch_pause_waits_longer_on_an_empty_queue() {
    assert_eq!(batch_pause(0, false), Some(1456));
    assert_eq!(batch_pause(0, true), Some(1456));
    assert_eq!(batch_pause(3, false), Some(1345));
    assert_eq!(batch_pause(1, true), None);
}
