use pitanga::ip::IpValue;
use pitanga::job::{settings_yaml, Error, Job};
use pitanga::yaml::YamlValue;

fn parse_with(script: &str, ip: Option<IpValue>) -> Result<Job, Error> {
    let docs = Job::settings(script).expect("settings should load");
    assert!(!docs.is_empty());
    Job::from_settings(script, docs, ip)
}

fn s(t: &str) -> YamlValue {
    YamlValue::String(t.to_string())
}

#[test]
fn settings_yaml_keeps_marked_lines_without_marker() {
    let script = "#!/bin/bash\n#PITANGAID: 3\r\n#PITANGA THREADS: 1\nx #PITANGA\necho\n#PITANGAIP: x";
    assert_eq!(settings_yaml(script), "ID: 3\n THREADS: 1\nIP: x\n");
}

#[test]
fn settings_yaml_keeps_carriage_return_of_unterminated_last_line() {
    assert_eq!(settings_yaml("#PITANGAA: 1\r"), "A: 1\r\n");
    assert_eq!(settings_yaml(""), "");
    assert_eq!(settings_yaml("#PITANGA"), "\n");
    assert_eq!(settings_yaml("#PITANG\n#PITANGAB\n\n"), "B\n");
}

#[test]
fn settings_loads_yaml_documents() {
    let docs = Job::settings("#PITANGATHREADS: 2\n#PITANGAID: 7\necho hi\n").unwrap();
    assert_eq!(docs, vec![YamlValue::Hash(vec![(s("THREADS"), YamlValue::Integer(2)), (s("ID"), YamlValue::Integer(7))])]);
    assert_eq!(Job::settings("echo no settings\n").unwrap(), vec![]);
}

#[test]
fn settings_report_scan_errors() {
    assert_eq!(Job::settings("#PITANGAa: \"unterminated\n"), None);
}

#[test]
fn job_reads_its_settings() {
    let script = "#!/bin/bash\n#PITANGATHREADS: 4\n#PITANGAID: 12\n#PITANGAPID: 99\n#PITANGAFOO: bar\nsleep 1\n";
    let job = parse_with(script, None).unwrap();
    assert_eq!(job.threads(), 4);
    assert_eq!(job.id(), 12);
    assert_eq!(job.pid, 99);
    assert_eq!(job.pid(), 99);
    assert_eq!(job.ip(), None);
    assert_eq!(job.script(), script);
    assert_eq!(job.to_string(), script);
    let copy = job.clone();
    assert_eq!(copy.id(), 12);
    assert_eq!(copy.script(), script);
}

#[test]
fn job_defaults_unset_numbers_to_zero() {
    let job = parse_with("#PITANGATHREADS: 1\n", None).unwrap();
    assert_eq!((job.id(), job.pid, job.threads()), (0, 0, 1));
}

#[test]
fn job_casts_negative_numbers() {
    let job = parse_with("#PITANGAID: -1\n#PITANGATHREADS: 1\n", None).unwrap();
    assert_eq!(job.id(), usize::MAX);
}

#[test]
fn job_takes_ip_parsed_by_caller() {
    let script = "#PITANGAIP: \"10.0.0.1\"\n#PITANGATHREADS: 1\n";
    let docs = Job::settings(script).unwrap();
    assert_eq!(Job::ip_to_parse(&docs), Some("10.0.0.1".to_string()));
    let ip = IpValue::V4(10, 0, 0, 1);
    let job = Job::from_settings(script, docs, Some(ip)).unwrap();
    assert_eq!(job.ip(), Some(ip));
}

#[test]
fn job_refuses_unparsable_ip() {
    let script = "#PITANGAIP: bad\n#PITANGATHREADS: x\n";
    let docs = Job::settings(script).unwrap();
    assert_eq!(Job::ip_to_parse(&docs), Some("bad".to_string()));
    assert_eq!(parse_with(script, None).unwrap_err(), Error::AddrParse("bad".to_string()));
}

#[test]
fn job_stops_at_first_error_before_ip() {
    let script = "#PITANGATHREADS: x\n#PITANGAIP: bad\n";
    let docs = Job::settings(script).unwrap();
    assert_eq!(Job::ip_to_parse(&docs), None);
    assert_eq!(parse_with(script, None).unwrap_err(), Error::NotInteger(s("x")));
}

#[test]
fn job_needs_threads() {
    assert_eq!(parse_with("#PITANGAID: 1\n", None).unwrap_err(), Error::UndefinedTag("#PITANGATHREADS".to_string()));
}

#[test]
fn job_needs_a_mapping() {
    assert_eq!(parse_with("#PITANGA- 1\n", None).unwrap_err(), Error::NotHash(YamlValue::Array(vec![YamlValue::Integer(1)])));
}

#[test]
fn job_needs_string_keys() {
    assert_eq!(parse_with("#PITANGA1: 2\n#PITANGATHREADS: 1\n", None).unwrap_err(), Error::NotString(YamlValue::Integer(1)));
}

#[test]
fn job_needs_string_ip() {
    assert_eq!(parse_with("#PITANGAIP: 5\n#PITANGATHREADS: 1\n", None).unwrap_err(), Error::NotString(YamlValue::Integer(5)));
}

#[test]
fn job_needs_integer_numbers() {
    assert_eq!(parse_with("#PITANGAPID: [1]\n#PITANGATHREADS: 1\n", None).unwrap_err(),
        Error::NotInteger(YamlValue::Array(vec![YamlValue::Integer(1)])));
}

#[test]
fn job_refuses_a_setting_given_twice() {
    let doc = YamlValue::Hash(vec![
        (s("ID"), YamlValue::Integer(1)),
        (s("ID"), YamlValue::Integer(2)),
        (s("THREADS"), YamlValue::Integer(1)),
    ]);
    assert_eq!(Job::from_settings("x", vec![doc], None).unwrap_err(), Error::DuplicatedTag("#PITANGAID".to_string()));
    let doc = YamlValue::Hash(vec![
        (s("IP"), s("1.2.3.4")),
        (s("IP"), s("1.2.3.5")),
        (s("THREADS"), YamlValue::Integer(1)),
    ]);
    let docs = vec![doc];
    assert_eq!(Job::ip_to_parse(&docs), Some("1.2.3.4".to_string()));
    assert_eq!(Job::from_settings("x", docs, Some(IpValue::V4(1, 2, 3, 4))).unwrap_err(), Error::DuplicatedTag("#PITANGAIP".to_string()));
}

#[test]
fn job_later_yaml_key_overrides_earlier() {
    // The YAML loader keeps one entry per key: the later value.
    let job = parse_with("#PITANGATHREADS: 1\n#PITANGATHREADS: 3\n", None).unwrap();
    assert_eq!(job.threads(), 3);
}
