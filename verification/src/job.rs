//! Job scripts: shell scripts whose `#PITANGA` comment lines hold a YAML
//! mapping with the job's settings (`ID`, `PID`, `IP`, `THREADS`).

use vstd::prelude::*;
use crate::ip::IpValue;
use crate::text::{chars_of, push_char, push_range, push_text, text_equals};
use crate::yaml::{YamlValue, yaml_documents, load_yaml};

verus! {

/// The marker that starts a settings line.
pub open spec fn marker() -> Seq<char> {
    seq!['#', 'P', 'I', 'T', 'A', 'N', 'G', 'A']
}

/// The first index at or after `i` that holds a newline, or the length of `s`.
pub open spec fn line_end(s: Seq<char>, i: int) -> int
    decreases s.len() - i,
{
    if i >= s.len() {
        s.len() as int
    } else if s[i] == '\n' {
        i
    } else {
        line_end(s, i + 1)
    }
}

/// A line ends at or after its start and within the text.
pub proof fn lemma_line_end_bounds(s: Seq<char>, i: int)
    requires
        0 <= i <= s.len(),
    ensures
        i <= line_end(s, i) <= s.len(),
    decreases s.len() - i,
{
    if i < s.len() && s[i] != '\n' {
        lemma_line_end_bounds(s, i + 1);
    }
}

/// A line without the carriage return that ends it, if any.
pub open spec fn strip_cr(l: Seq<char>) -> Seq<char> {
    if l.len() > 0 && l.last() == '\r' {
        l.drop_last()
    } else {
        l
    }
}

/// The lines of `s` from index `i` on, as `str::lines` splits them: at each
/// newline, dropping a carriage return just before it; a last line without a
/// newline is kept whole; no line follows a final newline.
pub open spec fn lines_from(s: Seq<char>, i: int) -> Seq<Seq<char>>
    decreases s.len() - i,
{
    if i < 0 || i >= s.len() {
        seq![]
    } else {
        let j = line_end(s, i);
        proof {
            lemma_line_end_bounds(s, i);
        }
        if j >= s.len() {
            seq![s.subrange(i, s.len() as int)]
        } else {
            seq![strip_cr(s.subrange(i, j))] + lines_from(s, j + 1)
        }
    }
}

/// What a line adds to the settings text: for a line that starts with the
/// marker, the rest of the line and a newline; nothing for other lines.
pub open spec fn settings_part(l: Seq<char>) -> Seq<char> {
    if l.len() >= 8 && l.take(8) == marker() {
        l.skip(8).push('\n')
    } else {
        seq![]
    }
}

/// The settings parts of a list of lines, joined in order.
pub open spec fn settings_of_lines(ls: Seq<Seq<char>>) -> Seq<char>
    decreases ls.len(),
{
    if ls.len() == 0 {
        seq![]
    } else {
        settings_part(ls[0]) + settings_of_lines(ls.drop_first())
    }
}

/// The YAML text of a job script: its marked lines without the marker.
pub open spec fn settings_text(script: Seq<char>) -> Seq<char> {
    settings_of_lines(lines_from(script, 0))
}

/// Collects the YAML text of a job script: every line that starts with
/// `#PITANGA`, without those eight characters, each followed by a newline.
pub fn settings_yaml(script: &str) -> (yaml: String)
    ensures
        yaml@ == settings_text(script@),
{
    let v = chars_of(script);
    let n: usize = v.len();
    let mut out = String::new();
    let mut pos: usize = 0;
    while pos < n
        invariant
            n == v@.len(),
            v@ == script@,
            pos <= n,
            out@ + settings_of_lines(lines_from(v@, pos as int)) == settings_text(v@),
        decreases n - pos,
    {
        let mut j: usize = pos;
        while j < n && v[j] != '\n'
            invariant
                pos <= j <= n,
                n == v@.len(),
                line_end(v@, j as int) == line_end(v@, pos as int),
            decreases n - j,
        {
            j = j + 1;
        }
        let ghost rest = lines_from(v@, pos as int);
        let mut end: usize = j;
        if j < n && end > pos && v[end - 1] == '\r' {
            end = end - 1;
        }
        let ghost line = v@.subrange(pos as int, end as int);
        assert(rest[0] == line);
        if end - pos >= 8 && v[pos] == '#' && v[pos + 1] == 'P' && v[pos + 2] == 'I' && v[pos + 3] == 'T'
            && v[pos + 4] == 'A' && v[pos + 5] == 'N' && v[pos + 6] == 'G' && v[pos + 7] == 'A' {
            assert(line.take(8) =~= marker());
            push_range(&mut out, &v, pos + 8, end);
            push_char(&mut out, '\n');
            assert(line.skip(8) =~= v@.subrange(pos + 8, end as int));
        } else {
            assert(line.len() >= 8 ==> line.take(8)[0] == v@[pos as int]);
            assert(line.len() >= 8 ==> line.take(8)[1] == v@[pos + 1]);
            assert(line.len() >= 8 ==> line.take(8)[2] == v@[pos + 2]);
            assert(line.len() >= 8 ==> line.take(8)[3] == v@[pos + 3]);
            assert(line.len() >= 8 ==> line.take(8)[4] == v@[pos + 4]);
            assert(line.len() >= 8 ==> line.take(8)[5] == v@[pos + 5]);
            assert(line.len() >= 8 ==> line.take(8)[6] == v@[pos + 6]);
            assert(line.len() >= 8 ==> line.take(8)[7] == v@[pos + 7]);
            assert(settings_part(line) == Seq::<char>::empty());
        }
        if j < n {
            assert(rest.drop_first() =~= lines_from(v@, j + 1));
            pos = j + 1;
        } else {
            assert(rest.drop_first() =~= lines_from(v@, n as int));
            pos = n;
        }
    }
    out
}

proof fn lemma_line_end_shift(s: Seq<char>, i: int, k: int)
    requires
        0 <= i <= s.len(),
        0 <= k <= s.len() - i,
    ensures
        line_end(s, i + k) == i + line_end(s.skip(i), k),
    decreases s.len() - i - k,
{
    if k < s.len() - i {
        assert(s.skip(i)[k] == s[i + k]);
        if s[i + k] != '\n' {
            lemma_line_end_shift(s, i, k + 1);
        }
    }
}

proof fn lemma_lines_from_skip(s: Seq<char>, i: int)
    requires
        0 <= i <= s.len(),
    ensures
        lines_from(s, i) == lines_from(s.skip(i), 0),
    decreases s.len() - i,
{
    let t = s.skip(i);
    if i < s.len() {
        lemma_line_end_shift(s, i, 0);
        lemma_line_end_bounds(s, i);
        let j = line_end(s, i);
        assert(t.skip(0) =~= t);
        assert(line_end(t, 0) == j - i);
        assert(t.subrange(0, j - i) =~= s.subrange(i, j));
        assert(t.subrange(0, t.len() as int) =~= s.subrange(i, s.len() as int));
        if j < s.len() {
            lemma_lines_from_skip(s, j + 1);
            lemma_lines_from_skip(t, j - i + 1);
            assert(t.skip(j - i + 1) =~= s.skip(j + 1));
        }
    } else {
        assert(t.len() == 0);
    }
}

proof fn lemma_line_end_prefix(a: Seq<char>, b: Seq<char>, i: int)
    requires
        0 <= i < a.len(),
        a.last() == '\n',
    ensures
        line_end(a + b, i) == line_end(a, i),
        line_end(a, i) < a.len(),
    decreases a.len() - i,
{
    if a[i] != '\n' {
        lemma_line_end_prefix(a, b, i + 1);
    }
}

/// Text that ends in a newline splits into lines apart from what follows it.
proof fn lemma_lines_concat(a: Seq<char>, b: Seq<char>)
    requires
        a.len() == 0 || a.last() == '\n',
    ensures
        lines_from(a + b, 0) == lines_from(a, 0) + lines_from(b, 0),
    decreases a.len(),
{
    if a.len() == 0 {
        assert(a + b =~= b);
        assert(lines_from(a, 0) + lines_from(b, 0) =~= lines_from(b, 0));
    } else {
        lemma_line_end_prefix(a, b, 0);
        lemma_line_end_bounds(a, 0);
        let j = line_end(a, 0);
        assert((a + b).subrange(0, j) =~= a.subrange(0, j));
        lemma_lines_from_skip(a + b, j + 1);
        lemma_lines_from_skip(a, j + 1);
        assert((a + b).skip(j + 1) =~= a.skip(j + 1) + b);
        lemma_lines_concat(a.skip(j + 1), b);
        let first = seq![strip_cr(a.subrange(0, j))];
        assert(first + (lines_from(a.skip(j + 1), 0) + lines_from(b, 0))
            =~= (first + lines_from(a.skip(j + 1), 0)) + lines_from(b, 0));
    }
}

proof fn lemma_settings_of_lines_concat(x: Seq<Seq<char>>, y: Seq<Seq<char>>)
    ensures
        settings_of_lines(x + y) == settings_of_lines(x) + settings_of_lines(y),
    decreases x.len(),
{
    if x.len() == 0 {
        assert(x + y =~= y);
    } else {
        assert((x + y).drop_first() =~= x.drop_first() + y);
        lemma_settings_of_lines_concat(x.drop_first(), y);
    }
}

/// A line that does not start with the marker leaves a script's settings as
/// they are: putting one in, or taking one out, between whole lines changes
/// nothing of the settings text, so nothing of the job read from it but its
/// script.
pub proof fn lemma_unmarked_line_changes_no_setting(a: Seq<char>, line: Seq<char>, b: Seq<char>)
    requires
        a.len() == 0 || a.last() == '\n',
        forall|i: int| 0 <= i < line.len() ==> line[i] != '\n',
        !is_marked(line),
    ensures
        settings_text(a + (line.push('\n') + b)) == settings_text(a + b),
        yaml_documents(settings_text(a + (line.push('\n') + b)))
            == yaml_documents(settings_text(a + b)),
{
    let c = line.push('\n') + b;
    lemma_lines_concat(a, c);
    lemma_lines_concat(a, b);
    lemma_line_end_shift(c, 0, 0);
    assert(c.skip(0) =~= c);
    assert forall|k: int| 0 <= k <= line.len() implies line_end(c, k) == line.len() by {
        lemma_line_end_to_newline(c, k, line.len() as int);
    }
    assert(c.subrange(0, line.len() as int) =~= line);
    let n = line.len() as int;
    lemma_lines_from_skip(c, n + 1);
    assert(c.skip(n + 1) =~= b);
    assert(lines_from(c, 0) == seq![strip_cr(line)] + lines_from(b, 0));
    lemma_settings_of_lines_concat(lines_from(a, 0), lines_from(c, 0));
    lemma_settings_of_lines_concat(lines_from(a, 0), lines_from(b, 0));
    lemma_settings_of_lines_concat(seq![strip_cr(line)], lines_from(b, 0));
    let l = strip_cr(line);
    if l.len() >= 8 && l.take(8) == marker() {
        assert(line.len() >= 8);
        assert(l.take(8) =~= line.take(8));
    }
    assert(settings_part(l) =~= Seq::<char>::empty());
    assert(seq![l].drop_first() =~= Seq::<Seq<char>>::empty());
    assert(settings_of_lines(Seq::<Seq<char>>::empty()) =~= Seq::<char>::empty());
    assert(seq![l][0] == l);
    assert(settings_of_lines(seq![strip_cr(line)]) =~= Seq::<char>::empty());
    assert(settings_of_lines(lines_from(c, 0)) =~= settings_of_lines(lines_from(b, 0)));
}

/// The text of a list of lines: each line followed by a newline.
pub open spec fn lines_text(ls: Seq<Seq<char>>) -> Seq<char>
    decreases ls.len(),
{
    if ls.len() == 0 {
        seq![]
    } else {
        ls[0].push('\n') + lines_text(ls.drop_first())
    }
}

/// Whether a line is one of the script's settings lines.
pub open spec fn is_marked(line: Seq<char>) -> bool {
    line.len() >= 8 && line.take(8) == marker()
}

/// Lines that do not start with the marker leave a script's settings as they
/// are: putting any number of them in, or taking them out, between whole
/// lines changes nothing of the settings text, so nothing of the job read
/// from it but its script.
pub proof fn lemma_unmarked_lines_change_no_setting(a: Seq<char>, ls: Seq<Seq<char>>, b: Seq<char>)
    requires
        a.len() == 0 || a.last() == '\n',
        forall|i: int, j: int| 0 <= i < ls.len() && 0 <= j < ls[i].len() ==> ls[i][j] != '\n',
        forall|i: int| 0 <= i < ls.len() ==> !is_marked(#[trigger] ls[i]),
    ensures
        settings_text(a + (lines_text(ls) + b)) == settings_text(a + b),
        yaml_documents(settings_text(a + (lines_text(ls) + b))) == yaml_documents(settings_text(a + b)),
    decreases ls.len(),
{
    if ls.len() == 0 {
        assert(lines_text(ls) + b =~= b);
    } else {
        let rest = ls.drop_first();
        assert forall|i: int| 0 <= i < rest.len() implies !is_marked(#[trigger] rest[i]) by {
            assert(rest[i] == ls[i + 1]);
        }
        lemma_unmarked_lines_change_no_setting(a, rest, b);
        assert(!is_marked(ls[0]));
        lemma_unmarked_line_changes_no_setting(a, ls[0], lines_text(rest) + b);
        assert(lines_text(ls) + b =~= ls[0].push('\n') + (lines_text(rest) + b));
    }
}

/// The lines of a script that start with the marker, in order.
pub open spec fn marked_lines(script: Seq<char>) -> Seq<Seq<char>> {
    lines_from(script, 0).filter(|l: Seq<char>| is_marked(l))
}

proof fn lemma_settings_of_marked(ls: Seq<Seq<char>>)
    ensures
        settings_of_lines(ls) == settings_of_lines(ls.filter(|l: Seq<char>| is_marked(l))),
    decreases ls.len(),
{
    let p = |l: Seq<char>| is_marked(l);
    if ls.len() > 0 {
        let init = ls.drop_last();
        let last = ls.last();
        lemma_settings_of_marked(init);
        assert(ls =~= init + seq![last]);
        lemma_settings_of_lines_concat(init, seq![last]);
        assert(seq![last].drop_first() =~= Seq::<Seq<char>>::empty());
        assert(seq![last][0] == last);
        assert(settings_of_lines(Seq::<Seq<char>>::empty()) =~= Seq::<char>::empty());
        assert(settings_of_lines(seq![last]) =~= settings_part(last));
        reveal_with_fuel(Seq::filter, 2);
        if p(last) {
            let f = init.filter(p);
            assert(ls.filter(p) == f.push(last));
            assert(f.push(last) =~= f + seq![last]);
            lemma_settings_of_lines_concat(f, seq![last]);
        } else {
            assert(ls.filter(p) == init.filter(p));
            assert(settings_part(last) =~= Seq::<char>::empty());
        }
    }
}

/// The settings of a script come from its marked lines alone: two scripts
/// whose lines that start with the marker are the same, in the same order,
/// have the same settings text and so the same settings documents, whatever
/// other lines stand around or between them.
pub proof fn lemma_settings_from_marked_lines(s1: Seq<char>, s2: Seq<char>)
    requires
        marked_lines(s1) == marked_lines(s2),
    ensures
        settings_text(s1) == settings_text(s2),
        yaml_documents(settings_text(s1)) == yaml_documents(settings_text(s2)),
{
    lemma_settings_of_marked(lines_from(s1, 0));
    lemma_settings_of_marked(lines_from(s2, 0));
}

proof fn lemma_line_end_to_newline(s: Seq<char>, k: int, n: int)
    requires
        0 <= k <= n < s.len(),
        s[n] == '\n',
        forall|i: int| k <= i < n ==> s[i] != '\n',
    ensures
        line_end(s, k) == n,
    decreases n - k,
{
    if k < n {
        lemma_line_end_to_newline(s, k + 1, n);
    }
}

/// A job: its number, the process running it, the worker it was sent to, the
/// threads it asks for, and its script.
#[derive(Debug)]
pub struct Job {
    id: usize,
    /// Set on the worker, to the process that runs the script.
    pub pid: usize,
    ip: Option<IpValue>,
    threads: usize,
    script: String,
}

/// The settings of a job, as plain values.
pub struct JobView {
    pub id: usize,
    pub pid: usize,
    pub ip: Option<IpValue>,
    pub threads: usize,
    pub script: Seq<char>,
}

impl View for Job {
    type V = JobView;

    closed spec fn view(&self) -> JobView {
        JobView { id: self.id, pid: self.pid, ip: self.ip, threads: self.threads, script: self.script@ }
    }
}

impl Clone for Job {
    fn clone(&self) -> (c: Self)
        ensures
            c@ == self@,
    {
        Job { id: self.id, pid: self.pid, ip: self.ip, threads: self.threads, script: self.script.clone() }
    }
}

impl Job {
    /// The script the job runs.
    pub fn script(&self) -> (s: &String)
        ensures
            s@ == self@.script,
    {
        &self.script
    }

    /// The threads the job asks for.
    pub fn threads(&self) -> (t: usize)
        ensures
            t == self@.threads,
    {
        self.threads
    }

    /// The process running the job, as set on the worker.
    pub fn pid(&self) -> (p: usize)
        ensures
            p == self@.pid,
    {
        self.pid
    }

    /// The job's number.
    pub fn id(&self) -> (i: usize)
        ensures
            i == self@.id,
    {
        self.id
    }

    /// The worker the job was sent to, if any.
    pub fn ip(&self) -> (a: Option<IpValue>)
        ensures
            a == self@.ip,
    {
        self.ip
    }

    /// The text of a job: its script.
    pub fn to_string(&self) -> (s: String)
        ensures
            s@ == self@.script,
    {
        self.script.clone()
    }
}

/// Why a job script was refused.
#[derive(Debug, PartialEq)]
pub enum Error {
    /// The settings are not a mapping.
    NotHash(YamlValue),
    /// A key, or the value of `IP`, is not a string.
    NotString(YamlValue),
    /// The value of `ID`, `PID` or `THREADS` is not an integer.
    NotInteger(YamlValue),
    /// A setting is given twice.
    DuplicatedTag(String),
    /// A required setting is missing.
    UndefinedTag(String),
    /// The value of `IP` is not an IP address; it holds that value.
    AddrParse(String),
}

/// Why a job script was refused, with texts as plain values.
pub enum ErrorView {
    NotHash(YamlValue),
    NotString(YamlValue),
    NotInteger(YamlValue),
    DuplicatedTag(Seq<char>),
    UndefinedTag(Seq<char>),
    AddrParse(Seq<char>),
}

impl View for Error {
    type V = ErrorView;

    open spec fn view(&self) -> ErrorView {
        match self {
            Error::NotHash(y) => ErrorView::NotHash(*y),
            Error::NotString(y) => ErrorView::NotString(*y),
            Error::NotInteger(y) => ErrorView::NotInteger(*y),
            Error::DuplicatedTag(t) => ErrorView::DuplicatedTag(t@),
            Error::UndefinedTag(t) => ErrorView::UndefinedTag(t@),
            Error::AddrParse(t) => ErrorView::AddrParse(t@),
        }
    }
}

/// The settings read so far; a setting is `Some` once it has been given.
#[derive(Clone, Copy)]
pub struct Settings {
    pub id: Option<usize>,
    pub pid: Option<usize>,
    pub ip: Option<IpValue>,
    pub threads: Option<usize>,
}

/// No setting given yet.
pub open spec fn no_settings() -> Settings {
    Settings { id: None, pid: None, ip: None, threads: None }
}

/// The key `ID`.
pub open spec fn id_key() -> Seq<char> {
    seq!['I', 'D']
}

/// The key `PID`.
pub open spec fn pid_key() -> Seq<char> {
    seq!['P', 'I', 'D']
}

/// The key `IP`.
pub open spec fn ip_key() -> Seq<char> {
    seq!['I', 'P']
}

/// The key `THREADS`.
pub open spec fn threads_key() -> Seq<char> {
    seq!['T', 'H', 'R', 'E', 'A', 'D', 'S']
}

/// The effect of one entry of the settings mapping. `ip` is what the text of
/// the `IP` value parses to, `None` where it is no IP address.
pub open spec fn apply_entry(st: Settings, k: YamlValue, v: YamlValue, ip: Option<IpValue>) -> Result<Settings, ErrorView> {
    match k {
        YamlValue::String(name) => {
            if name@ == id_key() {
                if st.id is Some {
                    Err(ErrorView::DuplicatedTag(marker() + id_key()))
                } else {
                    match v {
                        YamlValue::Integer(i) => Ok(Settings { id: Some(i as usize), ..st }),
                        _ => Err(ErrorView::NotInteger(v)),
                    }
                }
            } else if name@ == pid_key() {
                if st.pid is Some {
                    Err(ErrorView::DuplicatedTag(marker() + pid_key()))
                } else {
                    match v {
                        YamlValue::Integer(i) => Ok(Settings { pid: Some(i as usize), ..st }),
                        _ => Err(ErrorView::NotInteger(v)),
                    }
                }
            } else if name@ == ip_key() {
                if st.ip is Some {
                    Err(ErrorView::DuplicatedTag(marker() + ip_key()))
                } else {
                    match v {
                        YamlValue::String(t) => match ip {
                            Some(a) => Ok(Settings { ip: Some(a), ..st }),
                            None => Err(ErrorView::AddrParse(t@)),
                        },
                        _ => Err(ErrorView::NotString(v)),
                    }
                }
            } else if name@ == threads_key() {
                if st.threads is Some {
                    Err(ErrorView::DuplicatedTag(marker() + threads_key()))
                } else {
                    match v {
                        YamlValue::Integer(i) => Ok(Settings { threads: Some(i as usize), ..st }),
                        _ => Err(ErrorView::NotInteger(v)),
                    }
                }
            } else {
                Ok(st)
            }
        },
        _ => Err(ErrorView::NotString(k)),
    }
}

/// The settings after the entries from index `i` on, or the first error;
/// `THREADS` must have been given by the end.
pub open spec fn scan_entries(entries: Seq<(YamlValue, YamlValue)>, i: int, st: Settings, ip: Option<IpValue>) -> Result<Settings, ErrorView>
    decreases entries.len() - i,
{
    if i < 0 || i >= entries.len() {
        if st.threads is Some {
            Ok(st)
        } else {
            Err(ErrorView::UndefinedTag(marker() + threads_key()))
        }
    } else {
        match apply_entry(st, entries[i].0, entries[i].1, ip) {
            Ok(next) => scan_entries(entries, i + 1, next, ip),
            Err(e) => Err(e),
        }
    }
}

/// The settings a settings document gives, or why it is refused.
pub open spec fn document_settings(doc: YamlValue, ip: Option<IpValue>) -> Result<Settings, ErrorView> {
    match doc {
        YamlValue::Hash(entries) => scan_entries(entries@, 0, no_settings(), ip),
        _ => Err(ErrorView::NotHash(doc)),
    }
}

/// Whether an entry is the first `IP` entry, with a string value to parse.
pub open spec fn is_ip_request(st: Settings, k: YamlValue, v: YamlValue) -> bool {
    &&& k matches YamlValue::String(name) && name@ == ip_key()
    &&& st.ip is None
    &&& v is String
}

/// The text of the `IP` value that reading the entries from index `i` on would
/// parse, if reading gets that far.
pub open spec fn ip_request_from(entries: Seq<(YamlValue, YamlValue)>, i: int, st: Settings) -> Option<Seq<char>>
    decreases entries.len() - i,
{
    if i < 0 || i >= entries.len() {
        None
    } else {
        let (k, v) = entries[i];
        if is_ip_request(st, k, v) {
            Some(v->String_0@)
        } else {
            match apply_entry(st, k, v, None) {
                Ok(next) => ip_request_from(entries, i + 1, next),
                Err(_) => None,
            }
        }
    }
}

/// The text of the `IP` value that reading a settings document would parse.
pub open spec fn ip_request(doc: YamlValue) -> Option<Seq<char>> {
    match doc {
        YamlValue::Hash(entries) => ip_request_from(entries@, 0, no_settings()),
        _ => None,
    }
}

proof fn lemma_scan_ignores_ip(entries: Seq<(YamlValue, YamlValue)>, i: int, st: Settings, a: Option<IpValue>, b: Option<IpValue>)
    requires
        ip_request_from(entries, i, st) is None,
    ensures
        scan_entries(entries, i, st, a) == scan_entries(entries, i, st, b),
    decreases entries.len() - i,
{
    if 0 <= i < entries.len() {
        let (k, v) = entries[i];
        assert(!is_ip_request(st, k, v));
        assert(apply_entry(st, k, v, a) == apply_entry(st, k, v, None));
        assert(apply_entry(st, k, v, b) == apply_entry(st, k, v, None));
        if let Ok(next) = apply_entry(st, k, v, None) {
            lemma_scan_ignores_ip(entries, i + 1, next, a, b);
        }
    }
}

/// When reading a document parses no `IP` text, the job does not depend on
/// the address handed in for it.
pub proof fn lemma_settings_ignore_ip_without_request(doc: YamlValue, a: Option<IpValue>, b: Option<IpValue>)
    requires
        ip_request(doc) is None,
    ensures
        document_settings(doc, a) == document_settings(doc, b),
{
    if let YamlValue::Hash(entries) = doc {
        lemma_scan_ignores_ip(entries@, 0, no_settings(), a, b);
    }
}

/// Whether an entry's key is `IP`.
pub open spec fn is_ip_entry(e: (YamlValue, YamlValue)) -> bool {
    e.0 matches YamlValue::String(name) && name@ == ip_key()
}

/// The settings with the address set to `ip`, or the same refusal.
pub open spec fn with_ip(r: Result<Settings, ErrorView>, ip: Option<IpValue>) -> Result<Settings, ErrorView> {
    match r {
        Ok(st) => Ok(Settings { ip: ip, ..st }),
        Err(e) => Err(e),
    }
}

proof fn lemma_scan_after_ip_entry(
    all: Seq<(YamlValue, YamlValue)>,
    entries: Seq<(YamlValue, YamlValue)>,
    i: int,
    st: Settings,
    ip: Option<IpValue>,
    a: Option<IpValue>,
    b: Option<IpValue>,
)
    requires
        all.len() == entries.len() + 1,
        forall|j: int| 0 <= j < entries.len() ==> all[j + 1] == entries[j],
        forall|j: int| 0 <= j < entries.len() ==> !is_ip_entry(#[trigger] entries[j]),
        0 <= i <= entries.len(),
    ensures
        scan_entries(all, i + 1, Settings { ip: ip, ..st }, a) == with_ip(scan_entries(entries, i, st, b), ip),
    decreases entries.len() - i,
{
    if i < entries.len() {
        let (k, v) = entries[i];
        assert(all[i + 1] == entries[i]);
        assert(!is_ip_entry(entries[i]));
        let s1 = Settings { ip: ip, ..st };
        match apply_entry(st, k, v, b) {
            Ok(next) => {
                assert(apply_entry(s1, k, v, a) == Ok::<Settings, ErrorView>(Settings { ip: ip, ..next }));
                lemma_scan_after_ip_entry(all, entries, i + 1, next, ip, a, b);
            },
            Err(e) => {
                assert(apply_entry(s1, k, v, a) == Err::<Settings, ErrorView>(e));
            },
        }
    }
}

/// Putting an `IP` entry in front of a settings document that has none gives
/// the job the address its text parses to and keeps every other setting: the
/// document with the entry reads as the one without it, with that address.
/// Where the text is no address, the job is refused for it.
pub proof fn lemma_ip_entry_in_front(doc: YamlValue, stamped: YamlValue, ip: Option<IpValue>, any: Option<IpValue>)
    requires
        doc matches YamlValue::Hash(entries) && forall|j: int| 0 <= j < entries@.len() ==> !is_ip_entry(#[trigger] entries@[j]),
        stamped matches YamlValue::Hash(all) && doc matches YamlValue::Hash(entries)
            && all@.len() == entries@.len() + 1
            && is_ip_entry(all@[0])
            && all@[0].1 is String
            && forall|j: int| 0 <= j < entries@.len() ==> all@[j + 1] == entries@[j],
    ensures
        ip_request(stamped) == Some(stamped->Hash_0@[0].1->String_0@),
        ip matches Some(addr) ==> document_settings(stamped, ip) == with_ip(document_settings(doc, any), ip),
        ip is None ==> document_settings(stamped, ip)
            == Err::<Settings, ErrorView>(ErrorView::AddrParse(stamped->Hash_0@[0].1->String_0@)),
{
    if let (YamlValue::Hash(entries), YamlValue::Hash(all)) = (doc, stamped) {
        let (k, v) = all@[0];
        assert(is_ip_request(no_settings(), k, v));
        if let Some(addr) = ip {
            let st1 = Settings { ip: ip, ..no_settings() };
            assert(apply_entry(no_settings(), k, v, ip) == Ok::<Settings, ErrorView>(st1));
            lemma_scan_after_ip_entry(all@, entries@, 0, no_settings(), ip, ip, any);
        }
    }
}

/// Whether an entry's key is the string `key`.
pub open spec fn has_key(e: (YamlValue, YamlValue), key: Seq<char>) -> bool {
    e.0 matches YamlValue::String(name) && name@ == key
}

proof fn lemma_scan_values(
    entries: Seq<(YamlValue, YamlValue)>,
    i: int,
    st: Settings,
    ip: Option<IpValue>,
    fin: Settings,
)
    requires
        0 <= i <= entries.len(),
        scan_entries(entries, i, st, ip) == Ok::<Settings, ErrorView>(fin),
    ensures
        forall|j: int| i <= j < entries.len() && has_key(#[trigger] entries[j], seq!['T', 'H', 'R', 'E', 'A', 'D', 'S'])
            ==> (entries[j].1 matches YamlValue::Integer(t) && fin.threads == Some(t as usize)),
        forall|j: int| i <= j < entries.len() && has_key(#[trigger] entries[j], seq!['I', 'D'])
            ==> (entries[j].1 matches YamlValue::Integer(t) && fin.id == Some(t as usize)),
        forall|j: int| i <= j < entries.len() && has_key(#[trigger] entries[j], seq!['P', 'I', 'D'])
            ==> (entries[j].1 matches YamlValue::Integer(t) && fin.pid == Some(t as usize)),
        forall|j: int| i <= j < entries.len() && has_key(#[trigger] entries[j], seq!['I', 'P'])
            ==> (entries[j].1 is String && fin.ip == ip && ip is Some),
        (forall|j: int| i <= j < entries.len() ==> !has_key(#[trigger] entries[j], seq!['I', 'D'])) ==> fin.id == st.id,
        (forall|j: int| i <= j < entries.len() ==> !has_key(#[trigger] entries[j], seq!['P', 'I', 'D'])) ==> fin.pid == st.pid,
        (forall|j: int| i <= j < entries.len() ==> !has_key(#[trigger] entries[j], seq!['I', 'P'])) ==> fin.ip == st.ip,
        st.threads is Some ==> fin.threads == st.threads,
        st.id is Some ==> fin.id == st.id,
        st.pid is Some ==> fin.pid == st.pid,
        st.ip is Some ==> fin.ip == st.ip,
        fin.threads is Some,
    decreases entries.len() - i,
{
    assert(seq!['T', 'H', 'R', 'E', 'A', 'D', 'S'] =~= threads_key());
    assert(seq!['I', 'D'] =~= id_key());
    assert(seq!['P', 'I', 'D'] =~= pid_key());
    assert(seq!['I', 'P'] =~= ip_key());
    if i < entries.len() {
        let (k, v) = entries[i];
        match apply_entry(st, k, v, ip) {
            Ok(next) => {
                lemma_scan_values(entries, i + 1, next, ip, fin);
            },
            Err(e) => {},
        }
    }
}

/// The settings of an accepted settings mapping are the values its entries
/// give: the job asks for the number of threads its `THREADS` entry gives,
/// carries the numbers its `ID` and `PID` entries give, and the address its
/// `IP` text parses to; a setting with no entry stays unset.
pub proof fn lemma_accepted_settings_are_entry_values(doc: YamlValue, ip: Option<IpValue>, script: Seq<char>)
    requires
        document_settings(doc, ip) is Ok,
    ensures
        doc matches YamlValue::Hash(entries) && ({
            let st = document_settings(doc, ip)->Ok_0;
            let job = job_of(st, script);
            &&& forall|j: int| 0 <= j < entries@.len()
                && has_key(#[trigger] entries@[j], seq!['T', 'H', 'R', 'E', 'A', 'D', 'S'])
                ==> (entries@[j].1 matches YamlValue::Integer(t) && st.threads == Some(t as usize)
                    && job.threads == t as usize)
            &&& forall|j: int| 0 <= j < entries@.len() && has_key(#[trigger] entries@[j], seq!['I', 'D'])
                ==> (entries@[j].1 matches YamlValue::Integer(t) && st.id == Some(t as usize) && job.id == t as usize)
            &&& forall|j: int| 0 <= j < entries@.len() && has_key(#[trigger] entries@[j], seq!['P', 'I', 'D'])
                ==> (entries@[j].1 matches YamlValue::Integer(t) && st.pid == Some(t as usize)
                    && job.pid == t as usize)
            &&& forall|j: int| 0 <= j < entries@.len() && has_key(#[trigger] entries@[j], seq!['I', 'P'])
                ==> (entries@[j].1 is String && ip is Some && st.ip == ip && job.ip == ip)
            &&& (forall|j: int| 0 <= j < entries@.len() ==> !has_key(#[trigger] entries@[j], seq!['I', 'D']))
                ==> st.id is None && job.id == 0
            &&& (forall|j: int| 0 <= j < entries@.len() ==> !has_key(#[trigger] entries@[j], seq!['P', 'I', 'D']))
                ==> st.pid is None && job.pid == 0
            &&& (forall|j: int| 0 <= j < entries@.len() ==> !has_key(#[trigger] entries@[j], seq!['I', 'P']))
                ==> st.ip is None && job.ip is None
            &&& st.threads is Some
            &&& job.script == script
        }),
{
    if let YamlValue::Hash(entries) = doc {
        let st = document_settings(doc, ip)->Ok_0;
        lemma_scan_values(entries@, 0, no_settings(), ip, st);
    }
}

/// What went wrong with one entry; the payload is taken from the entry.
enum Failure {
    KeyNotString,
    ValueNotString,
    ValueNotInteger,
    Duplicated(String),
    AddrParse(String),
}

impl Failure {
    spec fn error(self, k: YamlValue, v: YamlValue) -> ErrorView {
        match self {
            Failure::KeyNotString => ErrorView::NotString(k),
            Failure::ValueNotString => ErrorView::NotString(v),
            Failure::ValueNotInteger => ErrorView::NotInteger(v),
            Failure::Duplicated(t) => ErrorView::DuplicatedTag(t@),
            Failure::AddrParse(t) => ErrorView::AddrParse(t@),
        }
    }
}

/// The text of a duplicated setting: the marker and the key.
fn tag_text(key: &str) -> (t: String)
    ensures
        t@ == marker() + key@,
{
    let mut t = String::new();
    push_text(&mut t, "#PITANGA");
    proof {
        reveal_strlit("#PITANGA");
        assert("#PITANGA"@ =~= marker());
    }
    push_text(&mut t, key);
    t
}

/// Reads an integer setting: fails when given twice or not an integer.
fn integer_setting(given: bool, key: &str, v: &YamlValue) -> (r: Result<usize, Failure>)
    ensures
        given ==> (r matches Err(Failure::Duplicated(t)) && t@ == marker() + key@),
        !given ==> match v {
            YamlValue::Integer(i) => r == Ok::<usize, Failure>(i as usize),
            _ => r matches Err(Failure::ValueNotInteger),
        },
{
    if given {
        return Err(Failure::Duplicated(tag_text(key)));
    }
    match v {
        YamlValue::Integer(i) => Ok(*i as usize),
        _ => Err(Failure::ValueNotInteger),
    }
}

/// The effect of one entry of the settings mapping.
fn apply(st: Settings, k: &YamlValue, v: &YamlValue, ip: Option<IpValue>) -> (r: Result<Settings, Failure>)
    ensures
        match apply_entry(st, *k, *v, ip) {
            Ok(next) => r == Ok::<Settings, Failure>(next),
            Err(e) => (r matches Err(f) && f.error(*k, *v) == e),
        },
{
    proof {
        reveal_strlit("ID");
        reveal_strlit("PID");
        reveal_strlit("IP");
        reveal_strlit("THREADS");
        assert("ID"@ =~= id_key());
        assert("PID"@ =~= pid_key());
        assert("IP"@ =~= ip_key());
        assert("THREADS"@ =~= threads_key());
    }
    match k {
        YamlValue::String(name) => {
            if text_equals(name, "ID") {
                match integer_setting(st.id.is_some(), "ID", v) {
                    Ok(i) => Ok(Settings { id: Some(i), ..st }),
                    Err(f) => Err(f),
                }
            } else if text_equals(name, "PID") {
                match integer_setting(st.pid.is_some(), "PID", v) {
                    Ok(i) => Ok(Settings { pid: Some(i), ..st }),
                    Err(f) => Err(f),
                }
            } else if text_equals(name, "IP") {
                if st.ip.is_some() {
                    return Err(Failure::Duplicated(tag_text("IP")));
                }
                match v {
                    YamlValue::String(t) => match ip {
                        Some(a) => Ok(Settings { ip: Some(a), ..st }),
                        None => Err(Failure::AddrParse(t.clone())),
                    },
                    _ => Err(Failure::ValueNotString),
                }
            } else if text_equals(name, "THREADS") {
                match integer_setting(st.threads.is_some(), "THREADS", v) {
                    Ok(i) => Ok(Settings { threads: Some(i), ..st }),
                    Err(f) => Err(f),
                }
            } else {
                Ok(st)
            }
        },
        _ => Err(Failure::KeyNotString),
    }
}

/// The job a settings outcome describes: unset numbers are zero.
pub open spec fn job_of(st: Settings, script: Seq<char>) -> JobView {
    JobView {
        id: match st.id { Some(i) => i, None => 0 },
        pid: match st.pid { Some(p) => p, None => 0 },
        ip: st.ip,
        threads: match st.threads { Some(t) => t, None => 0 },
        script: script,
    }
}

impl Job {
    /// The YAML documents of a job script's settings lines; `None` where the
    /// YAML loader reports a scan error.
    pub fn settings(script: &str) -> (docs: Option<Vec<YamlValue>>)
        ensures
            docs matches Some(d) ==> yaml_documents(settings_text(script@)) == Some(d@),
            docs is None ==> yaml_documents(settings_text(script@)) is None,
    {
        let text = settings_yaml(script);
        load_yaml(text.as_str())
    }

    /// The text of the `IP` setting that reading the first document parses,
    /// if reading gets that far: the caller parses it as an IP address and
    /// hands the outcome to `from_settings`.
    pub fn ip_to_parse(docs: &Vec<YamlValue>) -> (t: Option<String>)
        requires
            docs.len() > 0,
        ensures
            t matches Some(s) ==> ip_request(docs@[0]) == Some(s@),
            t is None ==> ip_request(docs@[0]) is None,
    {
        match &docs[0] {
            YamlValue::Hash(entries) => {
                let mut st = Settings { id: None, pid: None, ip: None, threads: None };
                let mut i: usize = 0;
                while i < entries.len()
                    invariant
                        i <= entries.len(),
                        ip_request(docs@[0]) == ip_request_from(entries@, i as int, st),
                    decreases entries.len() - i,
                {
                    let k = &entries[i].0;
                    let v = &entries[i].1;
                    if let YamlValue::String(name) = k {
                        if text_equals(name, "IP") && st.ip.is_none() {
                            if let YamlValue::String(t) = v {
                                proof {
                                    reveal_strlit("IP");
                                    assert("IP"@ =~= ip_key());
                                }
                                return Some(t.clone());
                            }
                        }
                    }
                    proof {
                        reveal_strlit("IP");
                        assert("IP"@ =~= ip_key());
                    }
                    match apply(st, k, v, None) {
                        Ok(next) => {
                            st = next;
                        },
                        Err(_) => {
                            return None;
                        },
                    }
                    i = i + 1;
                }
                None
            },
            _ => None,
        }
    }

    /// The job a script describes, from its first settings document. `ip` is
    /// what the text that `ip_to_parse` gives parses to as an IP address,
    /// `None` where it does not parse; it is not read when there is no such text.
    pub fn from_settings(script: &str, docs: Vec<YamlValue>, ip: Option<IpValue>) -> (r: Result<Job, Error>)
        requires
            docs.len() > 0,
        ensures
            match document_settings(docs@[0], ip) {
                Ok(st) => (r matches Ok(j) && j@ == job_of(st, script@)),
                Err(e) => (r matches Err(x) && x@ == e),
            },
    {
        let ghost first = docs@[0];
        let mut rest = docs;
        let doc = rest.remove(0);
        match doc {
            YamlValue::Hash(entries) => {
                let mut entries = entries;
                let ghost all = entries@;
                let mut st = Settings { id: None, pid: None, ip: None, threads: None };
                let mut i: usize = 0;
                while i < entries.len()
                    invariant
                        i <= entries.len(),
                        entries@ == all,
                        first == docs@[0],
                        document_settings(first, ip) == scan_entries(all, i as int, st, ip),
                    decreases entries.len() - i,
                {
                    let step = apply(st, &entries[i].0, &entries[i].1, ip);
                    match step {
                        Ok(next) => {
                            st = next;
                        },
                        Err(f) => {
                            let ghost expected = f.error(all[i as int].0, all[i as int].1);
                            assert(scan_entries(all, i as int, st, ip) == Err::<Settings, ErrorView>(expected));
                            let (k, v) = entries.remove(i);
                            assert(k == all[i as int].0 && v == all[i as int].1);
                            let e = match f {
                                Failure::KeyNotString => Error::NotString(k),
                                Failure::ValueNotString => Error::NotString(v),
                                Failure::ValueNotInteger => Error::NotInteger(v),
                                Failure::Duplicated(t) => Error::DuplicatedTag(t),
                                Failure::AddrParse(t) => Error::AddrParse(t),
                            };
                            assert(e@ == expected);
                            return Err(e);
                        },
                    }
                    i = i + 1;
                }
                if st.threads.is_none() {
                    let mut t = String::new();
                    push_text(&mut t, "#PITANGATHREADS");
                    proof {
                        reveal_strlit("#PITANGATHREADS");
                        assert("#PITANGATHREADS"@ =~= marker() + threads_key());
                    }
                    return Err(Error::UndefinedTag(t));
                }
                let id: usize = match st.id { Some(x) => x, None => 0 };
                let pid: usize = match st.pid { Some(x) => x, None => 0 };
                let threads: usize = match st.threads { Some(x) => x, None => 0 };
                let mut text = String::new();
                push_text(&mut text, script);
                Ok(Job { id, pid, ip: st.ip, threads, script: text })
            },
            other => Err(Error::NotHash(other)),
        }
    }
}

} // verus!
