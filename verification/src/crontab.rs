//! Crontab documents: classifying each line as a job entry, an
//! environment assignment, a comment or a blank, threading accumulated
//! environment assignments onto the entries that follow them, and
//! validating every entry's schedule.

use crate::parse::end_of_spaces;
use crate::parse::is_space;
use crate::parse::lemma_end_of_spaces_bounds;
use crate::parse::parse_schedule_at;
use crate::parse::schedule_denotes;
use crate::parse::spec_parse_schedule;
use crate::parse::ParseError;
use crate::parse::ParsedSchedule;
use crate::schedule::spec_validate_when;
use crate::schedule::Schedule;
use crate::schedule::ValidationError;
use vstd::prelude::*;
use vstd::string::*;

verus! {

/// One scheduled job: the environment assignments that preceded it in
/// the document, the command text (the verbatim remainder of its line
/// after the schedule), and its schedule. Immutable once parsed.
#[derive(Debug, PartialEq)]
pub struct Entry {
    pub envp: Vec<String>,
    pub cmd: String,
    pub schedule: Schedule,
}

/// A line that carries content: a job entry or an environment
/// assignment.
#[derive(Debug, PartialEq)]
pub enum CrontabLine {
    Entry(Entry),
    Env(String, String),
}

/// An ordered sequence of entries, rebuilt wholesale on reload.
#[derive(Debug)]
pub struct Crontab {
    pub entries: Vec<Entry>,
}

/// First occurrence of `c` at or after `i`, or the length of `s`.
pub open spec fn find_char_from(s: Seq<char>, i: int, c: char) -> int
    decreases s.len() - i,
    when 0 <= i <= s.len()
{
    if i < s.len() {
        if s[i] == c {
            i
        } else {
            find_char_from(s, i + 1, c)
        }
    } else {
        i
    }
}

pub proof fn lemma_find_char_from_bounds(s: Seq<char>, i: int, c: char)
    requires
        0 <= i <= s.len(),
    ensures
        i <= find_char_from(s, i, c) <= s.len(),
    decreases s.len() - i,
{
    if i < s.len() && s[i] != c {
        lemma_find_char_from_bounds(s, i + 1, c);
    }
}

/// Index after dropping the run of trailing spaces and tabs of
/// `s[..e]`.
pub open spec fn trim_end_idx(s: Seq<char>, e: int) -> int
    decreases e,
    when 0 <= e <= s.len()
{
    if e > 0 && is_space(s[e - 1]) {
        trim_end_idx(s, e - 1)
    } else {
        e
    }
}

pub proof fn lemma_trim_end_idx_bounds(s: Seq<char>, e: int)
    requires
        0 <= e <= s.len(),
    ensures
        0 <= trim_end_idx(s, e) <= e,
    decreases e,
{
    if e > 0 && is_space(s[e - 1]) {
        lemma_trim_end_idx_bounds(s, e - 1);
    }
}

/// An environment assignment line: at least one character, then `=`,
/// then the value. The name is the text before the `=` trimmed of
/// surrounding spaces; the value is the rest trimmed of leading spaces
/// only, with one wholly wrapping pair of matching quotes stripped.
pub open spec fn spec_parse_env(s: Seq<char>) -> Option<(Seq<char>, Seq<char>)> {
    let eq = find_char_from(s, 0, '=');
    if eq == s.len() || eq == 0 {
        None
    } else {
        let ks = end_of_spaces(s, 0);
        let ke = trim_end_idx(s, eq);
        let name = if ks >= ke {
            Seq::<char>::empty()
        } else {
            s.subrange(ks, ke)
        };
        let vstart = end_of_spaces(s, eq + 1);
        let v = s.subrange(vstart, s.len() as int);
        let value = if v.len() >= 2 && ((v[0] == '\'' && v[v.len() - 1] == '\'') || (v[0] == '"'
            && v[v.len() - 1] == '"')) {
            v.subrange(1, v.len() - 1)
        } else {
            v
        };
        Some((name, value))
    }
}

/// What one line of a crontab document is.
pub enum ParsedLine {
    /// A job entry: its schedule and its command text.
    Entry(ParsedSchedule, Seq<char>),
    /// An environment assignment: name and value.
    Env(Seq<char>, Seq<char>),
    /// A comment or a blank line, wholly discarded.
    Ignored,
    /// No classification applies; the line is dropped, and the text
    /// from this index on was never consumed.
    Unparsed(int),
}

/// Line classification, in priority order: a schedule (after leading
/// spaces) makes the line an entry, with the verbatim rest as its
/// command; else an `=` makes it an environment assignment; else a
/// leading `#` makes it a comment; else only a wholly blank line is
/// acceptable.
pub open spec fn spec_parse_line(s: Seq<char>) -> ParsedLine {
    let k = end_of_spaces(s, 0);
    if k == s.len() {
        ParsedLine::Ignored
    } else {
        match spec_parse_schedule(s, k) {
            Some((ps, j)) => ParsedLine::Entry(ps, s.subrange(j, s.len() as int)),
            None => match spec_parse_env(s) {
                Some((nm, vl)) => ParsedLine::Env(nm, vl),
                None => if s[k] == '#' {
                    ParsedLine::Ignored
                } else {
                    ParsedLine::Unparsed(k)
                },
            },
        }
    }
}

/// The specification-level mirror of an `Entry`.
pub struct ParsedEntry {
    pub envp: Seq<Seq<char>>,
    pub cmd: Seq<char>,
    pub schedule: ParsedSchedule,
}

/// An executable `Entry` carries exactly what a `ParsedEntry` denotes.
pub open spec fn entry_denotes(e: Entry, p: ParsedEntry) -> bool {
    &&& e.envp@.len() == p.envp.len()
    &&& forall|i: int| 0 <= i < p.envp.len() ==> (#[trigger] e.envp@[i])@ == p.envp[i]
    &&& e.cmd@ == p.cmd
    &&& schedule_denotes(e.schedule, p.schedule)
}

/// An executable `Crontab` carries exactly the given entries.
pub open spec fn crontab_denotes(tab: Crontab, entries: Seq<ParsedEntry>) -> bool {
    &&& tab.entries@.len() == entries.len()
    &&& forall|i: int| 0 <= i < entries.len() ==> entry_denotes(#[trigger] tab.entries@[i], entries[i])
}

/// The entries of the document text from `p` on, given the environment
/// assignments accumulated so far. Lines end at `\n` (a preceding `\r`
/// is dropped); the final line needs no terminator. Each entry receives
/// a snapshot of every assignment above it, in order, duplicates
/// included; an unparseable line is dropped and parsing continues.
pub open spec fn spec_entries_from(s: Seq<char>, p: int, env: Seq<Seq<char>>) -> Seq<ParsedEntry>
    decreases s.len() - p,
    when 0 <= p <= s.len()
    via spec_entries_from_decreases
{
    if p == s.len() {
        Seq::empty()
    } else {
        let nl = find_char_from(s, p, '\n');
        let line = if nl < s.len() && nl > p && s[nl - 1] == '\r' {
            s.subrange(p, nl - 1)
        } else {
            s.subrange(p, nl)
        };
        let next = if nl == s.len() {
            s.len() as int
        } else {
            nl + 1
        };
        match spec_parse_line(line) {
            ParsedLine::Entry(ps, cmd) => seq![
                ParsedEntry { envp: env, cmd: cmd, schedule: ps },
            ] + spec_entries_from(s, next, env),
            ParsedLine::Env(nm, vl) => spec_entries_from(s, next, env.push(nm + "="@ + vl)),
            _ => spec_entries_from(s, next, env),
        }
    }
}

#[via_fn]
proof fn spec_entries_from_decreases(s: Seq<char>, p: int, env: Seq<Seq<char>>) {
    if 0 <= p < s.len() {
        lemma_find_char_from_bounds(s, p, '\n');
    }
}

/// What parsing a whole crontab text yields.
pub open spec fn spec_parse_crontab(s: Seq<char>) -> Seq<ParsedEntry> {
    spec_entries_from(s, 0, Seq::empty())
}

/// The first validation failure over the schedules of the entries, in
/// document order.
pub open spec fn spec_validate_entries(entries: Seq<Entry>) -> Result<(), ValidationError>
    decreases entries.len(),
{
    if entries.len() == 0 {
        Ok(())
    } else {
        match entries[0].schedule {
            Schedule::Reboot => spec_validate_entries(entries.skip(1)),
            Schedule::When(w) => match spec_validate_when(w) {
                Err(e) => Err(e),
                Ok(()) => spec_validate_entries(entries.skip(1)),
            },
        }
    }
}

/// First occurrence of `c` in `s` at or after `p`, or the length.
fn find_char(s: &str, p: usize, n: usize, c: char) -> (r: usize)
    requires
        p <= n,
        n == s@.len(),
    ensures
        r as int == find_char_from(s@, p as int, c),
        p <= r <= n,
{
    proof {
        lemma_find_char_from_bounds(s@, p as int, c);
    }
    let mut r: usize = p;
    while r < n && s.get_char(r) != c
        invariant
            p <= r <= n,
            n == s@.len(),
            find_char_from(s@, r as int, c) == find_char_from(s@, p as int, c),
        decreases n - r,
    {
        r = r + 1;
    }
    r
}

/// Index after dropping trailing spaces and tabs of `s[..e]`.
fn trim_end(s: &str, e: usize, n: usize) -> (r: usize)
    requires
        e <= n,
        n == s@.len(),
    ensures
        r as int == trim_end_idx(s@, e as int),
        r <= e,
{
    proof {
        lemma_trim_end_idx_bounds(s@, e as int);
    }
    let mut r: usize = e;
    while r > 0 && is_space_at(s, r - 1)
        invariant
            0 <= r <= e <= n,
            n == s@.len(),
            trim_end_idx(s@, r as int) == trim_end_idx(s@, e as int),
        decreases r,
    {
        r = r - 1;
    }
    r
}

fn is_space_at(s: &str, i: usize) -> (b: bool)
    requires
        i < s@.len(),
    ensures
        b == is_space(s@[i as int]),
{
    let c = s.get_char(i);
    c == ' ' || c == '\t'
}

/// Index just past the run of leading spaces and tabs at `p`.
fn skip_spaces_from(s: &str, p: usize, n: usize) -> (k: usize)
    requires
        p <= n,
        n == s@.len(),
    ensures
        k as int == end_of_spaces(s@, p as int),
        p <= k <= n,
{
    proof {
        lemma_end_of_spaces_bounds(s@, p as int);
    }
    let mut k: usize = p;
    while k < n && is_space_at(s, k)
        invariant
            p <= k <= n,
            n == s@.len(),
            end_of_spaces(s@, k as int) == end_of_spaces(s@, p as int),
        decreases n - k,
    {
        k = k + 1;
    }
    k
}

/// Parses an environment assignment line; the unconsumed remainder
/// (always empty on success) comes first.
pub fn parse_env(input: &str) -> (r: Result<(&str, CrontabLine), ParseError>)
    ensures
        match r {
            Ok((rem, line)) => spec_parse_env(input@) matches Some((nm, vl)) && line matches
                CrontabLine::Env(a, b) && a@ == nm && b@ == vl && rem@ == Seq::<char>::empty(),
            Err(_) => spec_parse_env(input@) is None,
        },
{
    let n = input.unicode_len();
    let eq = find_char(input, 0, n, '=');
    if eq == n || eq == 0 {
        return Err(ParseError);
    }
    let ks = skip_spaces_from(input, 0, n);
    let ke = trim_end(input, eq, n);
    let name = if ks >= ke {
        String::new()
    } else {
        input.substring_char(ks, ke).to_owned()
    };
    let vstart = skip_spaces_from(input, eq + 1, n);
    let vlen = n - vstart;
    let strip = if vlen >= 2 {
        let first = input.get_char(vstart);
        let last = input.get_char(n - 1);
        (first == '\'' && last == '\'') || (first == '"' && last == '"')
    } else {
        false
    };
    let value = if strip {
        input.substring_char(vstart + 1, n - 1).to_owned()
    } else {
        input.substring_char(vstart, n).to_owned()
    };
    proof {
        let v = input@.subrange(end_of_spaces(input@, eq as int + 1), input@.len() as int);
        if strip {
            assert(value@ =~= v.subrange(1, v.len() - 1));
        } else {
            assert(value@ =~= v);
        }
    }
    Ok((input.substring_char(n, n), CrontabLine::Env(name, value)))
}

/// Parses a comment line: a leading `#`, then anything; the unconsumed
/// remainder (always empty on success) comes first, then the comment
/// text after the `#`.
pub fn parse_comment(input: &str) -> (r: Result<(&str, &str), ParseError>)
    ensures
        match r {
            Ok((rem, text)) => input@.len() > 0 && input@[0] == '#' && text@ == input@.subrange(
                1,
                input@.len() as int,
            ) && rem@ == Seq::<char>::empty(),
            Err(_) => !(input@.len() > 0 && input@[0] == '#'),
        },
{
    let n = input.unicode_len();
    if n > 0 && input.get_char(0) == '#' {
        Ok((input.substring_char(n, n), input.substring_char(1, n)))
    } else {
        Err(ParseError)
    }
}

/// Parses a job entry: a schedule, then the rest of the line verbatim
/// as the command. The entry starts with no environment; the document
/// pass fills it in.
pub fn parse_entry(input: &str) -> (r: Result<(&str, Entry), ParseError>)
    ensures
        match r {
            Ok((rem, e)) => spec_parse_schedule(input@, 0) matches Some((ps, j)) && schedule_denotes(
                e.schedule,
                ps,
            ) && e.cmd@ == input@.subrange(j, input@.len() as int) && e.envp@.len() == 0 && rem@
                == Seq::<char>::empty(),
            Err(_) => spec_parse_schedule(input@, 0) is None,
        },
{
    let n = input.unicode_len();
    match parse_schedule_at(input, 0, n) {
        Some((schedule, j)) => {
            let cmd = input.substring_char(j, n).to_owned();
            Ok((input.substring_char(n, n), Entry { envp: Vec::new(), cmd, schedule }))
        },
        None => Err(ParseError),
    }
}

/// Classifies one line; the unconsumed remainder comes first (nonempty
/// exactly when the line fits no classification and is dropped).
pub fn parse_line(input: &str) -> (r: (&str, Option<CrontabLine>))
    ensures
        match spec_parse_line(input@) {
            ParsedLine::Entry(ps, cmd) => r.1 matches Some(CrontabLine::Entry(e))
                && schedule_denotes(e.schedule, ps) && e.cmd@ == cmd && e.envp@.len() == 0 && r.0@
                == Seq::<char>::empty(),
            ParsedLine::Env(nm, vl) => r.1 matches Some(CrontabLine::Env(a, b)) && a@ == nm && b@
                == vl && r.0@ == Seq::<char>::empty(),
            ParsedLine::Ignored => r.1 is None && r.0@ == Seq::<char>::empty(),
            ParsedLine::Unparsed(k) => r.1 is None && r.0@ == input@.subrange(
                k,
                input@.len() as int,
            ),
        },
{
    let n = input.unicode_len();
    let k = skip_spaces_from(input, 0, n);
    if k == n {
        return (input.substring_char(n, n), None);
    }
    match parse_schedule_at(input, k, n) {
        Some((schedule, j)) => {
            let cmd = input.substring_char(j, n).to_owned();
            (
                input.substring_char(n, n),
                Some(CrontabLine::Entry(Entry { envp: Vec::new(), cmd, schedule })),
            )
        },
        None => {
            match parse_env(input) {
                Ok((_, line)) => (input.substring_char(n, n), Some(line)),
                Err(_) => {
                    if input.get_char(k) == '#' {
                        (input.substring_char(n, n), None)
                    } else {
                        (input.substring_char(k, n), None)
                    }
                },
            }
        },
    }
}

/// A copy of the accumulated environment, snapshotted onto one entry.
fn clone_env(env: &Vec<String>) -> (r: Vec<String>)
    ensures
        r@.len() == env@.len(),
        forall|i: int| 0 <= i < env@.len() ==> (#[trigger] r@[i])@ == env@[i]@,
{
    let mut r: Vec<String> = Vec::new();
    let n = env.len();
    let mut i: usize = 0;
    while i < n
        invariant
            i <= n,
            n == env@.len(),
            r@.len() == i,
            forall|t: int| 0 <= t < i ==> (#[trigger] r@[t])@ == env@[t]@,
        decreases n - i,
    {
        r.push(env[i].clone());
        i = i + 1;
    }
    r
}

/// The stored form of one assignment: `NAME=VALUE`.
fn env_string(name: &String, value: &String) -> (r: String)
    ensures
        r@ == name@ + "="@ + value@,
{
    let mut r = String::new();
    r.append(name.as_str());
    r.append("=");
    r.append(value.as_str());
    r
}

impl Crontab {
    /// Parses a whole crontab text. Never hard-fails: a line that fits
    /// no classification is dropped and parsing continues, so the
    /// result is always the document the specification describes.
    pub fn parse(input: &str) -> (r: Result<Crontab, ParseError>)
        ensures
            r matches Ok(tab) && crontab_denotes(tab, spec_parse_crontab(input@)),
    {
        let n = input.unicode_len();
        let mut entries: Vec<Entry> = Vec::new();
        let mut env: Vec<String> = Vec::new();
        let mut p: usize = 0;
        let ghost mut gents: Seq<ParsedEntry> = Seq::empty();
        let ghost mut genv: Seq<Seq<char>> = Seq::empty();
        proof {
            assert(spec_parse_crontab(input@) =~= gents + spec_entries_from(
                input@,
                p as int,
                genv,
            ));
        }
        while p < n
            invariant
                p <= n,
                n == input@.len(),
                entries@.len() == gents.len(),
                forall|t: int|
                    0 <= t < gents.len() ==> entry_denotes(#[trigger] entries@[t], gents[t]),
                env@.len() == genv.len(),
                forall|t: int| 0 <= t < genv.len() ==> (#[trigger] env@[t])@ == genv[t],
                spec_parse_crontab(input@) == gents + spec_entries_from(input@, p as int, genv),
            decreases n - p,
        {
            let nl = find_char(input, p, n, '\n');
            let line_end = if nl < n && nl > p && input.get_char(nl - 1) == '\r' {
                nl - 1
            } else {
                nl
            };
            let line = input.substring_char(p, line_end);
            let next = if nl < n {
                nl + 1
            } else {
                n
            };
            let (_rest, parsed) = parse_line(line);
            match parsed {
                Some(CrontabLine::Entry(e)) => {
                    let snapshot = clone_env(&env);
                    let entry = Entry { envp: snapshot, cmd: e.cmd, schedule: e.schedule };
                    let ghost pe = ParsedEntry {
                        envp: genv,
                        cmd: entry.cmd@,
                        schedule: spec_parse_line(line@)->Entry_0,
                    };
                    proof {
                        assert(entry_denotes(entry, pe));
                        assert(gents + spec_entries_from(input@, p as int, genv) =~= gents.push(pe)
                            + spec_entries_from(input@, next as int, genv));
                    }
                    entries.push(entry);
                    proof {
                        gents = gents.push(pe);
                    }
                },
                Some(CrontabLine::Env(name, value)) => {
                    let s = env_string(&name, &value);
                    proof {
                        genv = genv.push(s@);
                    }
                    env.push(s);
                },
                None => {
                },
            }
            p = next;
        }
        proof {
            assert(gents + spec_entries_from(input@, p as int, genv) =~= gents);
        }
        Ok(Crontab { entries })
    }

    /// Validates every entry's schedule; the first failure, in document
    /// order, is reported, and the daemon must not start on it.
    pub fn validate(&self) -> (r: Result<(), ValidationError>)
        ensures
            r == spec_validate_entries(self.entries@),
            r is Ok <==> forall|i: int|
                0 <= i < self.entries@.len() ==> match (#[trigger] self.entries@[i]).schedule {
                    Schedule::Reboot => true,
                    Schedule::When(w) => spec_validate_when(w) is Ok,
                },
    {
        proof {
            lemma_validate_entries_ok_iff(self.entries@);
            assert(self.entries@.skip(0) =~= self.entries@);
        }
        let n = self.entries.len();
        let mut i: usize = 0;
        #[verifier::loop_isolation(false)]
        while i < n
            invariant
                i <= n,
                spec_validate_entries(self.entries@) == spec_validate_entries(
                    self.entries@.skip(i as int),
                ),
            decreases n - i,
        {
            proof {
                assert(self.entries@.skip(i as int)[0] == self.entries@[i as int]);
                assert(self.entries@.skip(i as int).skip(1) =~= self.entries@.skip(i as int + 1));
            }
            if let Err(e) = self.entries[i].schedule.validate() {
                return Err(e);
            }
            i = i + 1;
        }
        proof {
            assert(self.entries@.skip(n as int) =~= Seq::<Entry>::empty());
        }
        Ok(())
    }
}

/// Validation of a run of entries succeeds exactly when every schedule
/// in it is valid.
proof fn lemma_validate_entries_ok_iff(entries: Seq<Entry>)
    ensures
        spec_validate_entries(entries) is Ok <==> forall|i: int|
            0 <= i < entries.len() ==> match (#[trigger] entries[i]).schedule {
                Schedule::Reboot => true,
                Schedule::When(w) => spec_validate_when(w) is Ok,
            },
    decreases entries.len(),
{
    if entries.len() > 0 {
        lemma_validate_entries_ok_iff(entries.skip(1));
        assert forall|i: int| 1 <= i < entries.len() implies entries.skip(1)[i - 1] == entries[i] by {}
    }
}

} // verus!
