use pitanga::ip::IpValue;
use pitanga::job::{settings_yaml, Error, Job};
use pitanga::worker_config::WorkerConfig;
use pitanga::yaml::YamlValue;
use pitanga::queue::{job_file_name, last_job_id, requeued_script, submission, suffixed_job_ids};
use pitanga::worker_status::WorkerStatus;

fn job(id: usize, threads: usize, pid: usize) -> Job {
    let script = format!("#PITANGAID: {}\n#PITANGATHREADS: {}\n", id, threads);
    let docs = Job::settings(&script).unwrap();
    let mut j = Job::from_settings(&script, docs, None).unwrap();
    j.pid = pid;
    j
}

fn accounted(s: &WorkerStatus) -> usize {
    s.available_threads + s.running_jobs.iter().map(|j| j.threads()).sum::<usize>()
}

#[test]
fn law_worker_threads_stay_accounted() {
    let mut s = WorkerStatus::with_threads(9);
    assert_eq!(accounted(&s), 9);
    s.start_job(job(1, 2, 11));
    s.start_job(job(2, 3, 12));
    assert_eq!(accounted(&s), 9);
    s.finish_jobs(&vec![(12, 2)]);
    assert_eq!(accounted(&s), 9);
    s.start_job(job(3, 4, 13));
    s.finish_jobs(&vec![(11, 1), (13, 3)]);
    assert_eq!(accounted(&s), 9);
    assert_eq!(s.available_threads, 9);
}

#[test]
fn law_job_file_names_list_under_their_numbers() {
    let names: Vec<String> = [17usize, 3, 0, 250].iter().map(|id| job_file_name(*id, "_running.pitanga")).collect();
    assert_eq!(suffixed_job_ids(&names, "_running.pitanga"), vec![0, 3, 17, 250]);
    assert_eq!(suffixed_job_ids(&names, "_queued.pitanga"), Vec::<usize>::new());
}

#[test]
fn law_new_job_numbers_are_fresh() {
    let stems: Vec<String> = ["4_queued", "9_running", "2_finished"].iter().map(|s| s.to_string()).collect();
    let s = submission(last_job_id(&stems), &"echo\n".to_string());
    assert_eq!(s.id, 10);
    assert!(s.id > 9);
}

#[test]
fn law_requeued_scripts_name_no_worker() {
    for script in ["#PITANGAIP: \"1.2.3.4\"\n", "#PITANGAIPIP#PITANGAIP", "##PITANGAIP", "#PITANGA#PITANGAIP", "x"] {
        let requeued = requeued_script(&script.to_string());
        assert!(!requeued.contains("#PITANGAIP"), "{:?}", requeued);
    }
}

#[test]
fn law_settings_without_ip_ignore_the_address_given() {
    let script = "#PITANGATHREADS: 2\n#PITANGAID: 4\n";
    let docs = Job::settings(script).unwrap();
    assert_eq!(Job::ip_to_parse(&docs), None);
    let a = Job::from_settings(script, Job::settings(script).unwrap(), None).unwrap();
    let b = Job::from_settings(script, docs, Some(IpValue::V4(1, 1, 1, 1))).unwrap();
    assert_eq!((a.id(), a.threads(), a.ip()), (b.id(), b.threads(), b.ip()));
    assert_eq!(b.ip(), None);
}

#[test]
fn law_config_refusal_ignores_cpus() {
    let doc = YamlValue::Hash(vec![(YamlValue::String("threads".to_string()), YamlValue::Null)]);
    assert_eq!(WorkerConfig::from_document(&doc, 1).err(), WorkerConfig::from_document(&doc, 64).err());
    assert!(WorkerConfig::from_document(&doc, 1).is_err());
}

#[test]
fn law_unmarked_lines_change_no_setting() {
    let plain = "#PITANGAID: 7\n#PITANGATHREADS: 3\n";
    let padded = "echo start\n#PITANGAID: 7\n# PITANGA spaced\r\n#PITANGATHREADS: 3\n#pitanga lower\n";
    assert_eq!(settings_yaml(plain), settings_yaml(padded));
    let a = Job::from_settings(plain, Job::settings(plain).unwrap(), None).unwrap();
    let b = Job::from_settings(padded, Job::settings(padded).unwrap(), None).unwrap();
    assert_eq!((a.id(), a.pid, a.threads(), a.ip()), (b.id(), b.pid, b.threads(), b.ip()));
    assert_eq!((b.id(), b.threads()), (7, 3));
    assert_eq!(b.script(), padded);
}

#[test]
fn law_settings_come_from_marked_lines_alone() {
    let a = "#PITANGATHREADS: 3\n#PITANGAID: 9\n";
    let b = "echo one\n#PITANGATHREADS: 3\necho two\n\n# note\n#PITANGAID: 9\necho three";
    assert_eq!(settings_yaml(a), settings_yaml(b));
    let ja = Job::from_settings(a, Job::settings(a).unwrap(), None).unwrap();
    let jb = Job::from_settings(b, Job::settings(b).unwrap(), None).unwrap();
    assert_eq!((ja.id(), ja.pid, ja.threads(), ja.ip()), (jb.id(), jb.pid, jb.threads(), jb.ip()));
}

#[test]
fn law_ip_line_in_front_sets_the_address_and_keeps_the_rest() {
    let script = "#PITANGATHREADS: 2\n#PITANGAID: 4\n#PITANGAPID: 8\necho\n";
    let stamped = format!("#PITANGAIP: \"10.0.0.7\"\n{}", script);
    let plain = Job::from_settings(script, Job::settings(script).unwrap(), None).unwrap();
    let docs = Job::settings(&stamped).unwrap();
    assert_eq!(Job::ip_to_parse(&docs), Some("10.0.0.7".to_string()));
    let addr = IpValue::V4(10, 0, 0, 7);
    let job = Job::from_settings(&stamped, docs, Some(addr)).unwrap();
    assert_eq!(job.ip(), Some(addr));
    assert_eq!((job.id(), job.pid, job.threads()), (plain.id(), plain.pid, plain.threads()));
    assert_eq!(job.script(), &stamped);
    let refused = Job::from_settings(&stamped, Job::settings(&stamped).unwrap(), None);
    assert!(matches!(refused, Err(Error::AddrParse(t)) if t == "10.0.0.7"));
}

#[test]
fn law_balanced_worker_frees_within_its_total() {
    let mut s = WorkerStatus::with_threads(6);
    s.start_job(job(1, 4, 21));
    s.start_job(job(2, 2, 22));
    assert_eq!(s.available_threads, 0);
    s.finish_jobs(&vec![(21, 1), (22, 2)]);
    assert_eq!(s.available_threads, 6);
    assert_eq!(accounted(&s), s.total_threads);
}
