//! A worker's settings: the server to talk to and how many threads to offer,
//! read from a YAML text with the keys `server` and `threads`.

use vstd::prelude::*;
use crate::text::{push_text, text_equals};
use crate::yaml::{YamlValue, load_yaml, yaml_documents};

verus! {

/// The number of CPUs the machine offers, from `num_cpus::get`, which
/// documents that it returns at least 1. It depends on the machine.
#[verifier::external_body]
fn cpu_count() -> (n: usize)
    ensures
        n >= 1,
{
    num_cpus::get()
}

/// A worker's settings.
pub struct WorkerConfig {
    /// The server's address, as written in the settings.
    pub server_addr: String,
    pub total_threads: usize,
}

/// Why a settings text is refused.
#[derive(Debug, Clone, Copy, PartialEq, Eq, Structural)]
pub enum ConfigError {
    /// The YAML loader reports a scan error.
    Yaml,
    /// The text holds no YAML document.
    NoDocument,
    /// The first document is not a mapping.
    NotHash,
    /// `threads` is neither an integer nor `all`.
    BadThreads,
    /// `server` is not a string.
    ServerNotString,
    /// `server` is missing.
    NoServer,
}

/// The value of the first entry whose key is the string `key`.
pub open spec fn lookup(entries: Seq<(YamlValue, YamlValue)>, key: Seq<char>) -> Option<YamlValue>
    decreases entries.len(),
{
    if entries.len() == 0 {
        None
    } else if entries[0].0 matches YamlValue::String(k) && k@ == key {
        Some(entries[0].1)
    } else {
        lookup(entries.drop_first(), key)
    }
}

/// The key `threads`.
pub open spec fn threads_key() -> Seq<char> {
    seq!['t', 'h', 'r', 'e', 'a', 'd', 's']
}

/// The key `server`.
pub open spec fn server_key() -> Seq<char> {
    seq!['s', 'e', 'r', 'v', 'e', 'r']
}

/// The `threads` value `all`.
pub open spec fn all_word() -> Seq<char> {
    seq!['a', 'l', 'l']
}

/// The threads to offer for a `threads` value, with `max` the machine's CPUs:
/// all of them when the value is missing, 0 or `all`; no more than `max`;
/// `max - i` for `i` between `-max` and 0; a single one from `-max` down.
/// The subtractions wrap around.
pub open spec fn threads_setting(value: Option<YamlValue>, max: i64) -> Result<i64, ConfigError> {
    match value {
        None => Ok(max),
        Some(YamlValue::Integer(i)) => {
            if i == 0 {
                Ok(max)
            } else if i > max {
                Ok(max)
            } else if i > (0i64).wrapping_sub(max) && i < 0 {
                Ok(max.wrapping_sub(i))
            } else if i <= (0i64).wrapping_sub(max) {
                Ok(1)
            } else {
                Ok(i)
            }
        },
        Some(YamlValue::String(s)) => if s@ == all_word() {
            Ok(max)
        } else {
            Err(ConfigError::BadThreads)
        },
        Some(_) => Err(ConfigError::BadThreads),
    }
}

/// A worker offers at least one thread, and fewer than twice its CPUs, on a
/// machine whose CPU count leaves room for the subtraction.
pub proof fn lemma_threads_positive(value: Option<YamlValue>, max: i64)
    requires
        1 <= max <= i64::MAX / 2,
    ensures
        threads_setting(value, max) matches Ok(t) ==> 1 <= t < 2 * max,
{
}

/// The settings a document gives, with `max` the machine's CPUs: the
/// threads to offer and the server's address.
pub open spec fn document_config(doc: YamlValue, max: i64) -> Result<(usize, Seq<char>), ConfigError> {
    match doc {
        YamlValue::Hash(entries) => match threads_setting(lookup(entries@, threads_key()), max) {
            Err(e) => Err(e),
            Ok(t) => match lookup(entries@, server_key()) {
                Some(YamlValue::String(s)) => Ok((t as usize, s@)),
                Some(_) => Err(ConfigError::ServerNotString),
                None => Err(ConfigError::NoServer),
            },
        },
        _ => Err(ConfigError::NotHash),
    }
}

/// Why a settings text is refused, if it is; that does not depend on the machine.
pub open spec fn config_text_error(text: Seq<char>) -> Option<ConfigError> {
    match yaml_documents(text) {
        Some(d) => if d.len() == 0 {
            Some(ConfigError::NoDocument)
        } else {
            match document_config(d[0], 1) {
                Ok(_) => None,
                Err(e) => Some(e),
            }
        },
        None => Some(ConfigError::Yaml),
    }
}

/// The settings a text gives on a machine with `cpus` CPUs.
pub open spec fn text_config(text: Seq<char>, cpus: usize) -> Result<(usize, Seq<char>), ConfigError> {
    match yaml_documents(text) {
        Some(d) => if d.len() == 0 {
            Err(ConfigError::NoDocument)
        } else {
            document_config(d[0], cpus as i64)
        },
        None => Err(ConfigError::Yaml),
    }
}

/// Whether a document is refused, and why, does not depend on the machine.
pub proof fn lemma_refusal_ignores_cpus(doc: YamlValue, a: i64, b: i64)
    ensures
        document_config(doc, a) is Err ==> document_config(doc, b) == document_config(doc, a),
        document_config(doc, a) is Ok ==> document_config(doc, b) is Ok,
{
}

/// The value of the first entry whose key is the string `key`.
fn lookup_entry<'a>(entries: &'a Vec<(YamlValue, YamlValue)>, key: &str) -> (r: Option<&'a YamlValue>)
    ensures
        match lookup(entries@, key@) {
            Some(v) => r == Some(&v),
            None => r is None,
        },
{
    let mut i: usize = 0;
    assert(entries@.skip(0) =~= entries@);
    while i < entries.len()
        invariant
            i <= entries.len(),
            lookup(entries@, key@) == lookup(entries@.skip(i as int), key@),
        decreases entries.len() - i,
    {
        assert(entries@.skip(i as int).drop_first() =~= entries@.skip(i + 1));
        assert(entries@.skip(i as int)[0] == entries@[i as int]);
        if let YamlValue::String(k) = &entries[i].0 {
            if text_equals(k, key) {
                return Some(&entries[i].1);
            }
        }
        i = i + 1;
    }
    None
}

/// The threads to offer for a `threads` value, with `max` the machine's CPUs.
pub fn threads_from_value(value: Option<&YamlValue>, max: i64) -> (r: Result<i64, ConfigError>)
    ensures
        r == threads_setting(match value { Some(v) => Some(*v), None => None }, max),
{
    proof {
        reveal_strlit("all");
        assert("all"@ =~= all_word());
    }
    match value {
        None => Ok(max),
        Some(YamlValue::Integer(i)) => {
            let i: i64 = *i;
            let neg_max: i64 = (0i64).wrapping_sub(max);
            if i == 0 {
                Ok(max)
            } else if i > max {
                Ok(max)
            } else if i > neg_max && i < 0 {
                Ok(max.wrapping_sub(i))
            } else if i <= neg_max {
                Ok(1)
            } else {
                Ok(i)
            }
        },
        Some(YamlValue::String(s)) => {
            if text_equals(s, "all") {
                Ok(max)
            } else {
                Err(ConfigError::BadThreads)
            }
        },
        Some(_) => Err(ConfigError::BadThreads),
    }
}

impl WorkerConfig {
    /// The settings a document gives, with `max_threads` the machine's CPUs.
    pub fn from_document(doc: &YamlValue, max_threads: i64) -> (r: Result<WorkerConfig, ConfigError>)
        ensures
            match document_config(*doc, max_threads) {
                Ok((t, s)) => (r matches Ok(c) && c.total_threads == t && c.server_addr@ == s),
                Err(e) => r == Err::<WorkerConfig, ConfigError>(e),
            },
    {
        proof {
            reveal_strlit("threads");
            reveal_strlit("server");
            assert("threads"@ =~= threads_key());
            assert("server"@ =~= server_key());
        }
        match doc {
            YamlValue::Hash(entries) => {
                let threads: i64 = match threads_from_value(lookup_entry(entries, "threads"), max_threads) {
                    Ok(t) => t,
                    Err(e) => {
                        return Err(e);
                    },
                };
                match lookup_entry(entries, "server") {
                    Some(YamlValue::String(s)) => Ok(WorkerConfig { server_addr: s.clone(), total_threads: threads as usize }),
                    Some(_) => Err(ConfigError::ServerNotString),
                    None => Err(ConfigError::NoServer),
                }
            },
            _ => Err(ConfigError::NotHash),
        }
    }
}

impl WorkerConfig {
    /// Reads a worker's settings text on this machine.
    pub fn new(s: &String) -> (c: WorkerConfig)
        requires
            config_text_error(s@) is None,
        ensures
            exists|cpus: usize| cpus >= 1 && text_config(s@, cpus) == Ok::<(usize, Seq<char>), ConfigError>((c.total_threads, c.server_addr@)),
    {
        let docs = load_yaml(s.as_str()).unwrap();
        let cpus = cpu_count();
        proof {
            lemma_refusal_ignores_cpus(docs@[0], 1, cpus as i64);
        }
        match WorkerConfig::from_document(&docs[0], cpus as i64) {
            Ok(c) => {
                assert(text_config(s@, cpus) == Ok::<(usize, Seq<char>), ConfigError>((c.total_threads, c.server_addr@)));
                c
            },
            Err(_) => vstd::pervasive::unreached(),
        }
    }

    /// Reads a worker's settings text on this machine, or tells why it is refused.
    pub fn try_new(s: &String) -> (r: Result<WorkerConfig, ConfigError>)
        ensures
            match config_text_error(s@) {
                Some(e) => r == Err::<WorkerConfig, ConfigError>(e),
                None => (r matches Ok(c) && exists|cpus: usize| cpus >= 1 && text_config(s@, cpus)
                    == Ok::<(usize, Seq<char>), ConfigError>((c.total_threads, c.server_addr@))),
            },
    {
        match load_yaml(s.as_str()) {
            None => Err(ConfigError::Yaml),
            Some(docs) => {
                if docs.len() == 0 {
                    return Err(ConfigError::NoDocument);
                }
                match WorkerConfig::from_document(&docs[0], 1) {
                    Err(e) => Err(e),
                    Ok(_) => Ok(WorkerConfig::new(s)),
                }
            },
        }
    }
}

/// The settings written for a worker that has none: the server on this
/// machine's port 7777, and all threads.
pub fn get_default_string() -> (s: String)
    ensures
        s@ == "server: \"127.0.0.1:7777\"\n"@ + "threads: \"all\"\n"@,
{
    let mut s = String::new();
    push_text(&mut s, "server: \"127.0.0.1:7777\"\n");
    push_text(&mut s, "threads: \"all\"\n");
    s
}

} // verus!
