//! The server's job files: `<id>_queued.pitanga`, `<id>_running.pitanga` and
//! `<id>_finished.pitanga` in the jobs directory, and the texts written to them.

use vstd::prelude::*;
use crate::job::Job;
use crate::text::{
    all_digits, chars_of, decimal, decimal_text, is_digit, lemma_decimal_digits, lemma_parse_decimal,
    parse_usize_range, parse_usize_spec, push_char, push_text,
};

verus! {

/// The index of the first '_' in `s`, or its length.
pub open spec fn field_end(s: Seq<char>) -> int
    decreases s.len(),
{
    if s.len() == 0 || s[0] == '_' {
        0
    } else {
        1 + field_end(s.drop_first())
    }
}

/// The job number a file name starts with: the text before its first '_',
/// read as `str::parse::<usize>` reads it.
pub open spec fn name_id(name: Seq<char>) -> Option<usize> {
    parse_usize_spec(name.take(field_end(name)))
}

/// Whether `s` ends with `suffix`.
pub open spec fn ends_with(s: Seq<char>, suffix: Seq<char>) -> bool {
    s.len() >= suffix.len() && s.skip(s.len() - suffix.len()) == suffix
}

/// The job numbers of the names, in order, skipping names that do not start
/// with one.
pub open spec fn name_ids(names: Seq<Seq<char>>) -> Seq<usize>
    decreases names.len(),
{
    if names.len() == 0 {
        seq![]
    } else {
        name_ids(names.drop_last()) + match name_id(names.last()) {
            Some(n) => seq![n],
            None => seq![],
        }
    }
}

/// The names that end with `suffix`, in order.
pub open spec fn with_suffix(names: Seq<Seq<char>>, suffix: Seq<char>) -> Seq<Seq<char>>
    decreases names.len(),
{
    if names.len() == 0 {
        seq![]
    } else if ends_with(names.last(), suffix) {
        with_suffix(names.drop_last(), suffix).push(names.last())
    } else {
        with_suffix(names.drop_last(), suffix)
    }
}

/// Whether a list of numbers is in ascending order.
pub open spec fn ascending(s: Seq<usize>) -> bool {
    forall|i: int, j: int| 0 <= i <= j < s.len() ==> s[i] <= s[j]
}

/// The largest number of a list, or 0 for an empty one.
pub open spec fn largest(s: Seq<usize>) -> usize
    decreases s.len(),
{
    if s.len() == 0 {
        0
    } else if largest(s.drop_last()) >= s.last() {
        largest(s.drop_last())
    } else {
        s.last()
    }
}

/// The strings' characters.
pub open spec fn texts(v: Seq<String>) -> Seq<Seq<char>> {
    v.map_values(|s: String| s@)
}

/// The job number a file name starts with, if any.
fn file_name_id(name: &String) -> (r: Option<usize>)
    ensures
        r == name_id(name@),
{
    let v = chars_of(name.as_str());
    let mut j: usize = 0;
    assert(v@.skip(0) =~= v@);
    while j < v.len() && v[j] != '_'
        invariant
            j <= v.len(),
            v@ == name@,
            field_end(v@) == j + field_end(v@.skip(j as int)),
        decreases v.len() - j,
    {
        assert(v@.skip(j as int).drop_first() =~= v@.skip(j + 1));
        j = j + 1;
    }
    assert(v@.subrange(0, j as int) =~= v@.take(j as int));
    parse_usize_range(&v, 0, j)
}

/// Whether `s` ends with `suffix`.
fn text_ends_with(s: &String, suffix: &str) -> (r: bool)
    ensures
        r == ends_with(s@, suffix@),
{
    let a = chars_of(s.as_str());
    let b = chars_of(suffix);
    if a.len() < b.len() {
        return false;
    }
    let off: usize = a.len() - b.len();
    for i in 0..b.len()
        invariant
            a@ == s@,
            b@ == suffix@,
            off == a.len() - b.len(),
            forall|k: int| 0 <= k < i ==> a@[off + k] == b@[k],
    {
        if a[off + i] != b[i] {
            assert(a@.skip(off as int)[i as int] == a@[off + i]);
            return false;
        }
    }
    assert(a@.skip(off as int) =~= b@);
    true
}

/// Puts a number into an ascending list, after the equal ones.
fn insert_sorted(v: &mut Vec<usize>, x: usize)
    requires
        ascending(old(v)@),
    ensures
        ascending(final(v)@),
        final(v)@.to_multiset() == old(v)@.to_multiset().insert(x),
{
    let mut p: usize = 0;
    while p < v.len() && v[p] <= x
        invariant
            p <= v.len(),
            forall|k: int| 0 <= k < p ==> v@[k] <= x,
        decreases v.len() - p,
    {
        p = p + 1;
    }
    let ghost before = v@;
    proof {
        vstd::seq_lib::to_multiset_insert(before, p as int, x);
    }
    v.insert(p, x);
    assert forall|i: int, j: int| 0 <= i <= j < v@.len() implies v@[i] <= v@[j] by {
        if j < p {
        } else if i > p {
            assert(v@[i] == before[i - 1] && v@[j] == before[j - 1]);
        } else if i == p && j > p {
            assert(v@[j] == before[j - 1]);
        } else if i < p && j == p {
        } else if i < p && j > p {
            assert(v@[i] == before[i] && v@[j] == before[j - 1]);
        }
    }
}

/// The numbers of the job files that end with `suffix`, in ascending order;
/// `names` are the names of the files in the jobs directory.
pub fn suffixed_job_ids(names: &Vec<String>, suffix: &str) -> (ids: Vec<usize>)
    requires
        suffix@.len() > 0,
        suffix@[0] == '_',
    ensures
        ascending(ids@),
        ids@.to_multiset() == name_ids(with_suffix(texts(names@), suffix@)).to_multiset(),
{
    let ghost all = texts(names@);
    let mut ids: Vec<usize> = Vec::new();
    for i in 0..names.len()
        invariant
            all == texts(names@),
            ascending(ids@),
            ids@.to_multiset() == name_ids(with_suffix(all.take(i as int), suffix@)).to_multiset(),
    {
        let ghost prev = name_ids(with_suffix(all.take(i as int), suffix@));
        assert(all.take(i + 1).drop_last() =~= all.take(i as int));
        assert(all.take(i + 1).last() == names@[i as int]@);
        if text_ends_with(&names[i], suffix) {
            let ghost ws = with_suffix(all.take(i as int), suffix@).push(names@[i as int]@);
            assert(ws.drop_last() =~= with_suffix(all.take(i as int), suffix@));
            match file_name_id(&names[i]) {
                Some(n) => {
                    insert_sorted(&mut ids, n);
                    proof {
                        vstd::seq_lib::to_multiset_build(prev, n);
                        assert(prev + seq![n] =~= prev.push(n));
                    }
                },
                None => {
                    assert(prev + Seq::<usize>::empty() =~= prev);
                },
            }
        }
    }
    assert(all.take(names.len() as int) =~= all);
    ids
}

/// The largest job number that a file stem starts with, or 0 when none does;
/// `stems` are the names of the files in the jobs directory without extension.
pub fn last_job_id(stems: &Vec<String>) -> (id: usize)
    ensures
        id == largest(name_ids(texts(stems@))),
{
    let ghost all = texts(stems@);
    let mut best: usize = 0;
    for i in 0..stems.len()
        invariant
            all == texts(stems@),
            best == largest(name_ids(all.take(i as int))),
    {
        let ghost prev = name_ids(all.take(i as int));
        assert(all.take(i + 1).drop_last() =~= all.take(i as int));
        assert(all.take(i + 1).last() == stems@[i as int]@);
        match file_name_id(&stems[i]) {
            Some(n) => {
                assert((prev + seq![n]).drop_last() =~= prev);
                if n > best {
                    best = n;
                }
            },
            None => {
                assert(prev + Seq::<usize>::empty() =~= prev);
            },
        }
    }
    assert(all.take(stems.len() as int) =~= all);
    best
}

/// The name of a job's file: its number and the suffix, as `format!("{}{}", id, suffix)` writes it.
pub fn job_file_name(id: usize, suffix: &str) -> (name: String)
    ensures
        name@ == decimal(id as nat) + suffix@,
{
    let mut name = decimal_text(id);
    push_text(&mut name, suffix);
    name
}

/// How long, in milliseconds, the server's batch thread waits before it looks
/// at the queue again: 1456 when no job was queued, 1345 when jobs were
/// queued but none could be assigned, no wait when one was.
pub fn batch_pause(queued: usize, assigned: bool) -> (ms: Option<u64>)
    ensures
        queued == 0 ==> ms == Some(1456u64),
        queued > 0 && !assigned ==> ms == Some(1345u64),
        queued > 0 && assigned ==> ms is None,
{
    if queued == 0 {
        Some(1456)
    } else if !assigned {
        Some(1345)
    } else {
        None
    }
}

/// A job handed in by a client, as it is queued.
pub struct Submission {
    /// The job's number: one more than the largest number in use.
    pub id: usize,
    /// The script with its `ID` setting put in front.
    pub script: String,
    /// The name of the file the job is queued in.
    pub file_name: String,
    /// The answer to the client.
    pub status: String,
}

/// The start of the line that gives a job its number: `#PITANGAID: `.
pub open spec fn id_line_start() -> Seq<char> {
    seq!['#', 'P', 'I', 'T', 'A', 'N', 'G', 'A', 'I', 'D', ':', ' ']
}

/// The suffix of a queued job's file: `_queued.pitanga`.
pub open spec fn queued_suffix() -> Seq<char> {
    seq!['_', 'q', 'u', 'e', 'u', 'e', 'd', '.', 'p', 'i', 't', 'a', 'n', 'g', 'a']
}

/// Queues `job` under the number after `last_id`: a line `#PITANGAID: <id>`
/// goes in front of the script, the file is `<id>_queued.pitanga`, and the
/// client is told `Job <id> queued.`.
pub fn submission(last_id: usize, job: &String) -> (s: Submission)
    requires
        last_id < usize::MAX,
    ensures
        s.id == last_id + 1,
        s.script@ == id_line_start() + decimal(s.id as nat) + seq!['\n'] + job@,
        s.file_name@ == decimal(s.id as nat) + queued_suffix(),
        s.status@ == seq!['J', 'o', 'b', ' '] + decimal(s.id as nat) + seq![' ', 'q', 'u', 'e', 'u', 'e', 'd', '.'],
{
    let id: usize = last_id + 1;
    let number = decimal_text(id);
    let mut script = String::new();
    push_text(&mut script, "#PITANGAID: ");
    push_text(&mut script, number.as_str());
    push_char(&mut script, '\n');
    push_text(&mut script, job.as_str());
    let file_name = job_file_name(id, "_queued.pitanga");
    let mut status = String::new();
    push_text(&mut status, "Job ");
    push_text(&mut status, number.as_str());
    push_text(&mut status, " queued.");
    proof {
        reveal_strlit("#PITANGAID: ");
        reveal_strlit("_queued.pitanga");
        reveal_strlit("Job ");
        reveal_strlit(" queued.");
        assert("#PITANGAID: "@ =~= id_line_start());
        assert("_queued.pitanga"@ =~= queued_suffix());
        assert("Job "@ =~= seq!['J', 'o', 'b', ' ']);
        assert(" queued."@ =~= seq![' ', 'q', 'u', 'e', 'u', 'e', 'd', '.']);
        assert(script@ =~= id_line_start() + decimal(id as nat) + seq!['\n'] + job@);
    }
    Submission { id, script, file_name, status }
}

/// The start of the line that names a job's worker: `#PITANGAIP: "`.
pub open spec fn ip_line_start() -> Seq<char> {
    seq!['#', 'P', 'I', 'T', 'A', 'N', 'G', 'A', 'I', 'P', ':', ' ', '"']
}

/// The script of a job assigned to the worker at `ip`: a line
/// `#PITANGAIP: "<ip>"` in front of the job's script.
pub fn assignment_script(ip: &str, job: &Job) -> (script: String)
    ensures
        script@ == ip_line_start() + ip@ + seq!['"', '\n'] + job@.script,
{
    let mut script = String::new();
    push_text(&mut script, "#PITANGAIP: \"");
    push_text(&mut script, ip);
    push_text(&mut script, "\"\n");
    push_text(&mut script, job.script().as_str());
    proof {
        reveal_strlit("#PITANGAIP: \"");
        reveal_strlit("\"\n");
        assert("#PITANGAIP: \""@ =~= ip_line_start());
        assert("\"\n"@ =~= seq!['"', '\n']);
    }
    script
}

/// `s` with every occurrence of `pat` replaced by `rep`, the occurrences taken
/// from left to right without overlap, as `str::replace` does.
pub open spec fn replace_all(s: Seq<char>, pat: Seq<char>, rep: Seq<char>) -> Seq<char>
    decreases s.len(),
{
    if s.len() == 0 {
        s
    } else if pat.len() > 0 && s.len() >= pat.len() && s.take(pat.len() as int) == pat {
        rep + replace_all(s.skip(pat.len() as int), pat, rep)
    } else {
        seq![s[0]] + replace_all(s.drop_first(), pat, rep)
    }
}

/// The marker of the setting that names a job's worker: `#PITANGAIP`.
pub open spec fn ip_tag() -> Seq<char> {
    seq!['#', 'P', 'I', 'T', 'A', 'N', 'G', 'A', 'I', 'P']
}

/// What that marker becomes when the job is queued again: `#PITANGAOLDIP`.
pub open spec fn old_ip_tag() -> Seq<char> {
    seq!['#', 'P', 'I', 'T', 'A', 'N', 'G', 'A', 'O', 'L', 'D', 'I', 'P']
}

/// Whether `p` occurs in `v` at index `pos`.
fn occurs_at(v: &Vec<char>, pos: usize, p: &Vec<char>) -> (r: bool)
    requires
        pos <= v.len(),
    ensures
        r == (v.len() - pos >= p.len() && v@.skip(pos as int).take(p.len() as int) == p@),
{
    if v.len() - pos < p.len() {
        return false;
    }
    for k in 0..p.len()
        invariant
            pos <= v.len(),
            v.len() - pos >= p.len(),
            forall|m: int| 0 <= m < k ==> v@[pos + m] == p@[m],
    {
        if v[pos + k] != p[k] {
            assert(v@.skip(pos as int).take(p.len() as int)[k as int] == v@[pos + k]);
            return false;
        }
    }
    assert(v@.skip(pos as int).take(p.len() as int) =~= p@);
    true
}

/// The script of a job queued again after its worker went away: every
/// `#PITANGAIP` becomes `#PITANGAOLDIP`, so the job no longer names a worker.
pub fn requeued_script(script: &String) -> (s: String)
    ensures
        s@ == replace_all(script@, ip_tag(), old_ip_tag()),
{
    let v = chars_of(script.as_str());
    let pat = chars_of("#PITANGAIP");
    proof {
        reveal_strlit("#PITANGAIP");
        reveal_strlit("#PITANGAOLDIP");
        assert(pat@ =~= ip_tag());
        assert("#PITANGAOLDIP"@ =~= old_ip_tag());
    }
    let mut out = String::new();
    let mut pos: usize = 0;
    assert(v@.skip(0) =~= v@);
    while pos < v.len()
        invariant
            pos <= v.len(),
            v@ == script@,
            pat@ == ip_tag(),
            "#PITANGAOLDIP"@ == old_ip_tag(),
            out@ + replace_all(v@.skip(pos as int), ip_tag(), old_ip_tag()) == replace_all(script@, ip_tag(), old_ip_tag()),
        decreases v.len() - pos,
    {
        let ghost rest = v@.skip(pos as int);
        let ghost prev = out@;
        if occurs_at(&v, pos, &pat) {
            push_text(&mut out, "#PITANGAOLDIP");
            let ghost tail = replace_all(v@.skip(pos + 10), ip_tag(), old_ip_tag());
            assert(rest.skip(10) =~= v@.skip(pos + 10));
            assert(replace_all(rest, ip_tag(), old_ip_tag()) == old_ip_tag() + tail);
            assert(out@ + tail =~= prev + (old_ip_tag() + tail));
            pos = pos + 10;
        } else {
            push_char(&mut out, v[pos]);
            let ghost tail = replace_all(v@.skip(pos + 1), ip_tag(), old_ip_tag());
            assert(rest.drop_first() =~= v@.skip(pos + 1));
            assert(rest[0] == v@[pos as int]);
            assert(replace_all(rest, ip_tag(), old_ip_tag()) == seq![rest[0]] + tail);
            assert(out@ + tail =~= prev + (seq![rest[0]] + tail));
            pos = pos + 1;
        }
    }
    assert(v@.skip(pos as int) =~= Seq::<char>::empty());
    out
}

/// Whether `p` occurs in `s`.
pub open spec fn occurs_in(s: Seq<char>, p: Seq<char>) -> bool {
    exists|i: int| 0 <= i && i + p.len() <= s.len() && #[trigger] s.subrange(i, i + p.len()) == p
}

/// Where the text after replacing holds no '#' up to `k`, those characters
/// were copied unchanged.
proof fn lemma_copied_prefix(t: Seq<char>, k: int)
    requires
        0 <= k <= replace_all(t, ip_tag(), old_ip_tag()).len(),
        forall|j: int| 0 <= j < k ==> replace_all(t, ip_tag(), old_ip_tag())[j] != '#',
    ensures
        k <= t.len(),
        forall|j: int| 0 <= j < k ==> t[j] == replace_all(t, ip_tag(), old_ip_tag())[j],
    decreases k,
{
    let r = replace_all(t, ip_tag(), old_ip_tag());
    if k > 0 {
        assert(t.len() > 0);
        if t.len() >= 10 && t.take(10) == ip_tag() {
            assert(r[0] == '#');
        } else {
            let r1 = replace_all(t.drop_first(), ip_tag(), old_ip_tag());
            assert(r == seq![t[0]] + r1);
            assert forall|j: int| 0 <= j < k - 1 implies r1[j] != '#' by {
                assert(r[j + 1] == r1[j]);
            }
            lemma_copied_prefix(t.drop_first(), k - 1);
            assert forall|j: int| 0 <= j < k implies t[j] == r[j] by {
                if j > 0 {
                    assert(r[j] == r1[j - 1]);
                    assert(t[j] == t.drop_first()[j - 1]);
                }
            }
        }
    }
}

/// A job queued again no longer names a worker: no `#PITANGAIP` is left in
/// its script.
pub proof fn lemma_requeued_script_names_no_worker(s: Seq<char>)
    ensures
        !occurs_in(replace_all(s, ip_tag(), old_ip_tag()), ip_tag()),
    decreases s.len(),
{
    let r = replace_all(s, ip_tag(), old_ip_tag());
    if s.len() > 0 {
        let matched = s.len() >= 10 && s.take(10) == ip_tag();
        let rest = if matched { s.skip(10) } else { s.drop_first() };
        let c = if matched { old_ip_tag() } else { seq![s[0]] };
        let r1 = replace_all(rest, ip_tag(), old_ip_tag());
        lemma_requeued_script_names_no_worker(rest);
        assert(r == c + r1);
        assert forall|i: int| 0 <= i && i + 10 <= r.len() implies #[trigger] r.subrange(i, i + 10) != ip_tag() by {
            if i >= c.len() {
                assert(r.subrange(i, i + 10) =~= r1.subrange(i - c.len(), i - c.len() + 10));
            } else if matched {
                if r.subrange(i, i + 10) == ip_tag() {
                    assert(r.subrange(i, i + 10)[0] == r[i]);
                    if i == 0 {
                        assert(r.subrange(i, i + 10)[8] == r[8]);
                    }
                }
            } else {
                if r.subrange(i, i + 10) == ip_tag() {
                    assert forall|j: int| 0 <= j < 9 implies r1[j] != '#' by {
                        assert(r1[j] == r.subrange(i, i + 10)[j + 1]);
                    }
                    lemma_copied_prefix(rest, 9);
                    assert(s.take(10) =~= ip_tag()) by {
                        assert forall|j: int| 0 <= j < 10 implies s.take(10)[j] == ip_tag()[j] by {
                            assert(r.subrange(i, i + 10)[j] == r[j]);
                            if j > 0 {
                                assert(s[j] == rest[j - 1]);
                                assert(r[j] == r1[j - 1]);
                            }
                        }
                    }
                }
            }
        }
    }
}

proof fn lemma_field_end_digits(d: Seq<char>, suffix: Seq<char>)
    requires
        all_digits(d),
        suffix.len() > 0,
        suffix[0] == '_',
    ensures
        field_end(d + suffix) == d.len(),
    decreases d.len(),
{
    if d.len() == 0 {
        assert((d + suffix)[0] == '_');
    } else {
        assert(is_digit(d[0]));
        assert((d + suffix).drop_first() =~= d.drop_first() + suffix);
        lemma_field_end_digits(d.drop_first(), suffix);
    }
}

/// A job's file is found again under the job's number, by its suffix.
pub proof fn lemma_job_file_name_round_trip(id: usize, suffix: Seq<char>)
    requires
        suffix.len() > 0,
        suffix[0] == '_',
    ensures
        name_id(decimal(id as nat) + suffix) == Some(id),
        ends_with(decimal(id as nat) + suffix, suffix),
{
    let d = decimal(id as nat);
    lemma_decimal_digits(id as nat);
    lemma_field_end_digits(d, suffix);
    assert((d + suffix).take(d.len() as int) =~= d);
    lemma_parse_decimal(id);
    assert((d + suffix).skip((d + suffix).len() - suffix.len()) =~= suffix);
}

proof fn lemma_largest_bounds(s: Seq<usize>)
    ensures
        forall|i: int| 0 <= i < s.len() ==> s[i] <= largest(s),
    decreases s.len(),
{
    if s.len() > 0 {
        lemma_largest_bounds(s.drop_last());
        assert forall|i: int| 0 <= i < s.len() implies s[i] <= largest(s) by {
            if i < s.len() - 1 {
                assert(s[i] == s.drop_last()[i]);
            }
        }
    }
}

/// A job handed in gets a number above every number the job files use.
pub proof fn lemma_new_job_number_is_fresh(stems: Seq<Seq<char>>)
    ensures
        forall|i: int| 0 <= i < name_ids(stems).len() ==> name_ids(stems)[i] < largest(name_ids(stems)) + 1,
{
    lemma_largest_bounds(name_ids(stems));
}

/// A name ends with a suffix exactly when it is some text followed by that
/// whole suffix.
pub proof fn lemma_ends_with_is_suffix(s: Seq<char>, suffix: Seq<char>)
    ensures
        ends_with(s, suffix) <==> exists|p: Seq<char>| p + suffix == s,
{
    if ends_with(s, suffix) {
        let p = s.take(s.len() - suffix.len());
        assert(p + suffix =~= s);
    }
    if exists|p: Seq<char>| p + suffix == s {
        let p = choose|p: Seq<char>| p + suffix == s;
        assert(s.len() >= suffix.len());
        assert(s.skip(s.len() - suffix.len()) =~= suffix) by {
            assert forall|i: int| 0 <= i < suffix.len() implies s.skip(s.len() - suffix.len())[i] == suffix[i] by {
                assert(s[p.len() + i] == (p + suffix)[p.len() + i]);
            }
        }
    }
}

/// The names listed for a suffix are exactly the given names that are some
/// text followed by the whole suffix.
pub proof fn lemma_with_suffix_lists_suffixed_names(names: Seq<Seq<char>>, suffix: Seq<char>, n: Seq<char>)
    ensures
        with_suffix(names, suffix).contains(n)
            <==> (names.contains(n) && exists|p: Seq<char>| p + suffix == n),
    decreases names.len(),
{
    lemma_ends_with_is_suffix(n, suffix);
    if names.len() > 0 {
        let init = names.drop_last();
        lemma_with_suffix_lists_suffixed_names(init, suffix, n);
        assert(names =~= init.push(names.last()));
        assert(names.contains(n) <==> (init.contains(n) || n == names.last())) by {
            if names.contains(n) {
                let i = choose|i: int| 0 <= i < names.len() && names[i] == n;
                if i < init.len() {
                    assert(init[i] == n);
                }
            }
            if init.contains(n) {
                let i = choose|i: int| 0 <= i < init.len() && init[i] == n;
                assert(names[i] == n);
            }
            if n == names.last() {
                assert(names[names.len() - 1] == n);
            }
        }
        let w = with_suffix(init, suffix);
        if ends_with(names.last(), suffix) {
            assert(w.push(names.last()).contains(n) <==> (w.contains(n) || n == names.last())) by {
                let v = w.push(names.last());
                if v.contains(n) {
                    let i = choose|i: int| 0 <= i < v.len() && v[i] == n;
                    if i < w.len() {
                        assert(w[i] == n);
                    }
                }
                if w.contains(n) {
                    let i = choose|i: int| 0 <= i < w.len() && w[i] == n;
                    assert(v[i] == n);
                }
                if n == names.last() {
                    assert(v[w.len() as int] == n);
                }
            }
            lemma_ends_with_is_suffix(names.last(), suffix);
        } else {
            lemma_ends_with_is_suffix(names.last(), suffix);
        }
    }
}

/// Whether `pat` occurs in `s` at index `i`.
pub open spec fn occurs(s: Seq<char>, pat: Seq<char>, i: int) -> bool {
    0 <= i && i + pat.len() <= s.len() && s.subrange(i, i + pat.len()) == pat
}

/// Replacing in a text where the pattern does not occur gives the text back,
/// character for character.
pub proof fn lemma_replace_without_occurrence(s: Seq<char>, pat: Seq<char>, rep: Seq<char>)
    requires
        pat.len() > 0,
        forall|i: int| !occurs(s, pat, i),
    ensures
        replace_all(s, pat, rep) == s,
    decreases s.len(),
{
    if s.len() > 0 {
        assert(!occurs(s, pat, 0));
        assert(s.subrange(0, pat.len() as int) == s.take(pat.len() as int));
        let t = s.drop_first();
        assert forall|i: int| !occurs(t, pat, i) by {
            if occurs(t, pat, i) {
                assert(s.subrange(i + 1, i + 1 + pat.len()) =~= t.subrange(i, i + pat.len()));
                assert(occurs(s, pat, i + 1));
            }
        }
        lemma_replace_without_occurrence(t, pat, rep);
        assert(seq![s[0]] + t =~= s);
    }
}

/// Replacing puts the replacement at the first occurrence of the pattern,
/// keeps the text before it as it is, and goes on after the occurrence.
pub proof fn lemma_replace_first_occurrence(s: Seq<char>, pat: Seq<char>, rep: Seq<char>, k: int)
    requires
        pat.len() > 0,
        occurs(s, pat, k),
        forall|i: int| i < k ==> !occurs(s, pat, i),
    ensures
        replace_all(s, pat, rep) == s.take(k) + rep + replace_all(s.skip(k + pat.len()), pat, rep),
    decreases k,
{
    if k == 0 {
        assert(s.subrange(0, pat.len() as int) == s.take(pat.len() as int));
        assert(s.take(0) + rep =~= rep);
    } else {
        assert(!occurs(s, pat, 0));
        assert(s.subrange(0, pat.len() as int) == s.take(pat.len() as int));
        let t = s.drop_first();
        assert(t.subrange(k - 1, k - 1 + pat.len()) =~= s.subrange(k, k + pat.len()));
        assert forall|i: int| i < k - 1 implies !occurs(t, pat, i) by {
            if occurs(t, pat, i) {
                assert(s.subrange(i + 1, i + 1 + pat.len()) =~= t.subrange(i, i + pat.len()));
                assert(occurs(s, pat, i + 1));
            }
        }
        lemma_replace_first_occurrence(t, pat, rep, k - 1);
        assert(t.skip(k - 1 + pat.len()) =~= s.skip(k + pat.len()));
        assert(seq![s[0]] + t.take(k - 1) =~= s.take(k));
        assert(seq![s[0]] + (t.take(k - 1) + rep + replace_all(t.skip(k - 1 + pat.len()), pat, rep))
            =~= s.take(k) + rep + replace_all(s.skip(k + pat.len()), pat, rep));
    }
}

} // verus!
