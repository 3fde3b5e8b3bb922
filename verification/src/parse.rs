//! Recursive-descent parsing of schedule text: a single field token, a
//! five-field pattern, and a whole schedule (a shorthand such as
//! `@weekly`, or five fields). The grammar is specified over character
//! sequences; parsers report how far they consumed and what they built.
//!
//! Alternatives are tried in a fixed order with backtracking: star,
//! then a comma-separated list of two or more elements, then a range,
//! then a bare value. A list element is a bare value or a stepless
//! sub-range; a range followed by a valid step is not a list element,
//! so such text falls back to the range alternative.

use crate::schedule::field_well_formed;
use crate::schedule::schedule_well_formed;
use crate::schedule::when_well_formed;
use crate::schedule::Field;
use crate::schedule::Schedule;
use crate::schedule::When;
use vstd::prelude::*;
use vstd::string::*;

verus! {

/// Failure to parse a field, pattern or schedule. Parsing is
/// line-scoped: a caller drops the offending line and continues.
#[derive(Debug, Clone, Copy, PartialEq, Eq, Structural)]
pub struct ParseError;

/// A decimal digit.
pub open spec fn is_digit(c: char) -> bool {
    '0' <= c && c <= '9'
}

/// Numeric value of one digit.
pub open spec fn digit_val(c: char) -> int {
    c as u32 - '0' as u32
}

/// Index just past the run of digits starting at `i`.
pub open spec fn end_of_digits(s: Seq<char>, i: int) -> int
    decreases s.len() - i,
    when 0 <= i <= s.len()
{
    if i < s.len() && is_digit(s[i]) {
        end_of_digits(s, i + 1)
    } else {
        i
    }
}

/// Value of the decimal digits `s[i..j]`, most significant first.
pub open spec fn digits_value(s: Seq<char>, i: int, j: int) -> int
    decreases j - i,
    when i <= j
{
    if j <= i {
        0
    } else {
        digits_value(s, i, j - 1) * 10 + digit_val(s[j - 1])
    }
}

pub proof fn lemma_end_of_digits_bounds(s: Seq<char>, i: int)
    requires
        0 <= i <= s.len(),
    ensures
        i <= end_of_digits(s, i) <= s.len(),
    decreases s.len() - i,
{
    if i < s.len() && is_digit(s[i]) {
        lemma_end_of_digits_bounds(s, i + 1);
    }
}

/// The digit run is exactly `s[i..end_of_digits(s, i)]`.
pub proof fn lemma_end_of_digits_run(s: Seq<char>, i: int)
    requires
        0 <= i <= s.len(),
    ensures
        forall|k: int| i <= k < end_of_digits(s, i) ==> is_digit(s[k]),
        end_of_digits(s, i) == s.len() || !is_digit(s[end_of_digits(s, i)]),
    decreases s.len() - i,
{
    if i < s.len() && is_digit(s[i]) {
        lemma_end_of_digits_run(s, i + 1);
    }
}

/// A longer digit prefix never has a smaller value.
pub proof fn lemma_digits_value_monotonic(s: Seq<char>, i: int, j: int, k: int)
    requires
        i <= j <= k,
        forall|m: int| i <= m < k ==> is_digit(#[trigger] s[m]),
    ensures
        digits_value(s, i, j) <= digits_value(s, i, k),
    decreases k - j,
{
    if j < k {
        lemma_digits_value_monotonic(s, i, j, k - 1);
        assert(digits_value(s, i, k) == digits_value(s, i, k - 1) * 10 + digit_val(s[k - 1]));
        assert(digits_value(s, i, k - 1) * 10 >= digits_value(s, i, k - 1)) by {
            lemma_digits_value_nonneg(s, i, k - 1);
        }
    }
}

pub proof fn lemma_digits_value_nonneg(s: Seq<char>, i: int, j: int)
    requires
        i <= j,
        forall|m: int| i <= m < j ==> is_digit(#[trigger] s[m]),
    ensures
        digits_value(s, i, j) >= 0,
    decreases j - i,
{
    if i < j {
        lemma_digits_value_nonneg(s, i, j - 1);
    }
}

/// An unsigned integer at `i`: the digit run and its value, provided
/// there is at least one digit and the value fits the machine word.
pub open spec fn spec_parse_uint(s: Seq<char>, i: int) -> Option<(usize, int)> {
    let j = end_of_digits(s, i);
    if j > i && digits_value(s, i, j) <= usize::MAX {
        Some((digits_value(s, i, j) as usize, j))
    } else {
        None
    }
}

/// An optional step suffix at `i`: `/` followed by an integer. Anything
/// else — including `/` followed by a value that does not fit — is
/// treated as no step, consuming nothing.
pub open spec fn spec_parse_step(s: Seq<char>, i: int) -> Option<(usize, int)> {
    if i < s.len() && s[i] == '/' {
        spec_parse_uint(s, i + 1)
    } else {
        None
    }
}

/// A bare range `N-M` at `i`, without its step suffix.
pub open spec fn spec_parse_range_core(s: Seq<char>, i: int) -> Option<((usize, usize), int)> {
    match spec_parse_uint(s, i) {
        None => None,
        Some((b, j)) => if j < s.len() && s[j] == '-' {
            match spec_parse_uint(s, j + 1) {
                None => None,
                Some((e, k)) => Some(((b, e), k)),
            }
        } else {
            None
        },
    }
}

/// One list element: a stepless sub-range, or a bare value. A range
/// followed by a valid step is not taken as an element; the leading
/// value alone is.
pub open spec fn spec_parse_list_elem(s: Seq<char>, i: int) -> Option<(
    (usize, Option<usize>),
    int,
)> {
    match spec_parse_range_core(s, i) {
        Some(((b, e), k)) => if spec_parse_step(s, k) is Some {
            match spec_parse_uint(s, i) {
                Some((v, j)) => Some(((v, None), j)),
                None => None,
            }
        } else {
            Some(((b, Some(e)), k))
        },
        None => match spec_parse_uint(s, i) {
            Some((v, j)) => Some(((v, None), j)),
            None => None,
        },
    }
}

pub proof fn lemma_parse_uint_bounds(s: Seq<char>, i: int)
    requires
        0 <= i <= s.len(),
    ensures
        spec_parse_uint(s, i) matches Some((_, j)) ==> i < j <= s.len(),
{
    lemma_end_of_digits_bounds(s, i);
}

pub proof fn lemma_parse_list_elem_bounds(s: Seq<char>, i: int)
    requires
        0 <= i <= s.len(),
    ensures
        spec_parse_list_elem(s, i) matches Some((_, j)) ==> i < j <= s.len(),
{
    lemma_parse_uint_bounds(s, i);
    if let Some((_, j)) = spec_parse_uint(s, i) {
        if j < s.len() && s[j] == '-' {
            lemma_parse_uint_bounds(s, j + 1);
        }
    }
}

/// Further `,`-separated elements, gathered greedily: stops before the
/// first `,` not followed by an element.
pub open spec fn spec_parse_more_elems(s: Seq<char>, i: int) -> (Seq<(usize, Option<usize>)>, int)
    decreases s.len() - i,
    when 0 <= i <= s.len()
    via spec_parse_more_elems_decreases
{
    if i < s.len() && s[i] == ',' {
        match spec_parse_list_elem(s, i + 1) {
            Some((e, j)) => {
                let (rest, end) = spec_parse_more_elems(s, j);
                (seq![e] + rest, end)
            },
            None => (Seq::empty(), i),
        }
    } else {
        (Seq::empty(), i)
    }
}

#[via_fn]
proof fn spec_parse_more_elems_decreases(s: Seq<char>, i: int) {
    if 0 <= i < s.len() && s[i] == ',' {
        lemma_parse_list_elem_bounds(s, i + 1);
    }
}

pub proof fn lemma_parse_more_elems_bounds(s: Seq<char>, i: int)
    requires
        0 <= i <= s.len(),
    ensures
        i <= spec_parse_more_elems(s, i).1 <= s.len(),
    decreases s.len() - i,
{
    if i < s.len() && s[i] == ',' {
        if let Some((e, j)) = spec_parse_list_elem(s, i + 1) {
            lemma_parse_list_elem_bounds(s, i + 1);
            lemma_parse_more_elems_bounds(s, j);
        }
    }
}

/// What a field token denotes, with list contents as a sequence: the
/// specification-level mirror of `Field`.
pub enum ParsedField {
    Value(usize),
    Range(usize, usize, Option<usize>),
    List(Seq<(usize, Option<usize>)>),
    Star(Option<usize>),
}

/// An executable `Field` carries exactly what a `ParsedField` denotes.
pub open spec fn field_denotes(f: Field, p: ParsedField) -> bool {
    match p {
        ParsedField::Value(v) => f == Field::Value(v),
        ParsedField::Range(b, e, st) => f == Field::Range(b, e, st),
        ParsedField::List(items) => f matches Field::List(v) && v@ == items,
        ParsedField::Star(st) => f == Field::Star(st),
    }
}

/// A field token at `i`: star with optional step; else a list of two or
/// more elements; else a range with optional step; else a bare value.
pub open spec fn spec_parse_field(s: Seq<char>, i: int) -> Option<(ParsedField, int)> {
    if i < s.len() && s[i] == '*' {
        match spec_parse_step(s, i + 1) {
            Some((st, j)) => Some((ParsedField::Star(Some(st)), j)),
            None => Some((ParsedField::Star(None), i + 1)),
        }
    } else {
        match spec_parse_list_elem(s, i) {
            None => None,
            Some((e0, j0)) => {
                let (rest, jend) = spec_parse_more_elems(s, j0);
                if rest.len() >= 1 {
                    Some((ParsedField::List(seq![e0] + rest), jend))
                } else {
                    match spec_parse_range_core(s, i) {
                        Some(((b, e), k)) => match spec_parse_step(s, k) {
                            Some((st, m)) => Some((ParsedField::Range(b, e, Some(st)), m)),
                            None => Some((ParsedField::Range(b, e, None), k)),
                        },
                        None => Some((ParsedField::Value(e0.0), j0)),
                    }
                }
            },
        }
    }
}

pub proof fn lemma_parse_field_bounds(s: Seq<char>, i: int)
    requires
        0 <= i <= s.len(),
    ensures
        spec_parse_field(s, i) matches Some((_, j)) ==> i < j <= s.len(),
{
    if i < s.len() && s[i] == '*' {
        if i + 1 < s.len() && s[i + 1] == '/' {
            lemma_parse_uint_bounds(s, i + 2);
        }
    } else {
        lemma_parse_list_elem_bounds(s, i);
        if let Some((e0, j0)) = spec_parse_list_elem(s, i) {
            lemma_parse_more_elems_bounds(s, j0);
            lemma_parse_uint_bounds(s, i);
            if let Some((_, j)) = spec_parse_uint(s, i) {
                if j < s.len() && s[j] == '-' {
                    lemma_parse_uint_bounds(s, j + 1);
                }
            }
            if let Some((_, k)) = spec_parse_range_core(s, i) {
                if k < s.len() && s[k] == '/' {
                    lemma_parse_uint_bounds(s, k + 1);
                }
            }
        }
    }
}

/// A space or a tab: the separator between field tokens.
pub open spec fn is_space(c: char) -> bool {
    c == ' ' || c == '\t'
}

/// Index just past the run of spaces and tabs starting at `i`.
pub open spec fn end_of_spaces(s: Seq<char>, i: int) -> int
    decreases s.len() - i,
    when 0 <= i <= s.len()
{
    if i < s.len() && is_space(s[i]) {
        end_of_spaces(s, i + 1)
    } else {
        i
    }
}

pub proof fn lemma_end_of_spaces_bounds(s: Seq<char>, i: int)
    requires
        0 <= i <= s.len(),
    ensures
        i <= end_of_spaces(s, i) <= s.len(),
    decreases s.len() - i,
{
    if i < s.len() && is_space(s[i]) {
        lemma_end_of_spaces_bounds(s, i + 1);
    }
}

/// Up to `k` further fields after one ending at `j`, each preceded by a
/// run of one or more separators. Stops early when no separator or no
/// field follows, leaving a trailing separator unconsumed; stops at the
/// bound even if more field-shaped text follows.
pub open spec fn spec_fields_upto(s: Seq<char>, j: int, k: nat) -> (Seq<ParsedField>, int)
    decreases k,
{
    if k == 0 {
        (Seq::empty(), j)
    } else {
        let sep = end_of_spaces(s, j);
        if sep > j {
            match spec_parse_field(s, sep) {
                Some((f, j2)) => {
                    let (rest, end) = spec_fields_upto(s, j2, (k - 1) as nat);
                    (seq![f] + rest, end)
                },
                None => (Seq::empty(), j),
            }
        } else {
            (Seq::empty(), j)
        }
    }
}

/// A five-field pattern at `i`: exactly five field tokens, each after
/// the first preceded by separators. Parsing stops just past the fifth
/// token: whatever follows — even text shaped like a sixth field — is
/// never consumed; it belongs to the command.
pub open spec fn spec_parse_when(s: Seq<char>, i: int) -> Option<(Seq<ParsedField>, int)> {
    match spec_parse_field(s, i) {
        None => None,
        Some((f0, j0)) => {
            let (rest, end) = spec_fields_upto(s, j0, 4);
            if rest.len() == 4 {
                Some((seq![f0] + rest, end))
            } else {
                None
            }
        },
    }
}

/// An executable `When` carries exactly the five parsed fields, in
/// positional order.
pub open spec fn when_denotes(w: When, fs: Seq<ParsedField>) -> bool {
    fs.len() == 5 && field_denotes(w.minute, fs[0]) && field_denotes(w.hour, fs[1])
        && field_denotes(w.day_of_month, fs[2]) && field_denotes(w.month, fs[3]) && field_denotes(
        w.day_of_week,
        fs[4],
    )
}

/// `t` occurs in `s` starting at `i`.
pub open spec fn has_prefix(s: Seq<char>, i: int, t: Seq<char>) -> bool {
    0 <= i && i + t.len() <= s.len() && s.subrange(i, i + t.len()) == t
}

/// What a schedule token denotes: fire once at startup, or the five
/// parsed fields of a time pattern.
pub enum ParsedSchedule {
    Reboot,
    When(Seq<ParsedField>),
}

/// An executable `Schedule` carries exactly what a `ParsedSchedule`
/// denotes.
pub open spec fn schedule_denotes(sch: Schedule, p: ParsedSchedule) -> bool {
    match p {
        ParsedSchedule::Reboot => sch == Schedule::Reboot,
        ParsedSchedule::When(fs) => sch matches Schedule::When(w) && when_denotes(w, fs),
    }
}

/// The five fields a yearly shorthand stands for: minute 0, hour 0,
/// day of month 1, month 1, any day of week.
pub open spec fn yearly_fields() -> Seq<ParsedField> {
    seq![
        ParsedField::Value(0),
        ParsedField::Value(0),
        ParsedField::Value(1),
        ParsedField::Value(1),
        ParsedField::Star(None),
    ]
}

/// Monthly: minute 0, hour 0, day of month 1.
pub open spec fn monthly_fields() -> Seq<ParsedField> {
    seq![
        ParsedField::Value(0),
        ParsedField::Value(0),
        ParsedField::Value(1),
        ParsedField::Star(None),
        ParsedField::Star(None),
    ]
}

/// Weekly: minute 0, hour 0, day of week 0 (Sunday).
pub open spec fn weekly_fields() -> Seq<ParsedField> {
    seq![
        ParsedField::Value(0),
        ParsedField::Value(0),
        ParsedField::Star(None),
        ParsedField::Star(None),
        ParsedField::Value(0),
    ]
}

/// Daily: minute 0, hour 0.
pub open spec fn daily_fields() -> Seq<ParsedField> {
    seq![
        ParsedField::Value(0),
        ParsedField::Value(0),
        ParsedField::Star(None),
        ParsedField::Star(None),
        ParsedField::Star(None),
    ]
}

/// Hourly: minute 0.
pub open spec fn hourly_fields() -> Seq<ParsedField> {
    seq![
        ParsedField::Value(0),
        ParsedField::Star(None),
        ParsedField::Star(None),
        ParsedField::Star(None),
        ParsedField::Star(None),
    ]
}

/// A schedule at `i`: one of the literal shorthand tokens, tried in a
/// fixed order, or else a five-field pattern.
pub open spec fn spec_parse_schedule(s: Seq<char>, i: int) -> Option<(ParsedSchedule, int)> {
    if has_prefix(s, i, "@reboot"@) {
        Some((ParsedSchedule::Reboot, i + "@reboot"@.len()))
    } else if has_prefix(s, i, "@yearly"@) {
        Some((ParsedSchedule::When(yearly_fields()), i + "@yearly"@.len()))
    } else if has_prefix(s, i, "@annually"@) {
        Some((ParsedSchedule::When(yearly_fields()), i + "@annually"@.len()))
    } else if has_prefix(s, i, "@monthly"@) {
        Some((ParsedSchedule::When(monthly_fields()), i + "@monthly"@.len()))
    } else if has_prefix(s, i, "@weekly"@) {
        Some((ParsedSchedule::When(weekly_fields()), i + "@weekly"@.len()))
    } else if has_prefix(s, i, "@daily"@) {
        Some((ParsedSchedule::When(daily_fields()), i + "@daily"@.len()))
    } else if has_prefix(s, i, "@midnight"@) {
        Some((ParsedSchedule::When(daily_fields()), i + "@midnight"@.len()))
    } else if has_prefix(s, i, "@hourly"@) {
        Some((ParsedSchedule::When(hourly_fields()), i + "@hourly"@.len()))
    } else {
        match spec_parse_when(s, i) {
            Some((fs, j)) => Some((ParsedSchedule::When(fs), j)),
            None => None,
        }
    }
}

fn is_digit_char(c: char) -> (b: bool)
    ensures
        b == is_digit(c),
{
    '0' <= c && c <= '9'
}

fn is_space_char(c: char) -> (b: bool)
    ensures
        b == is_space(c),
{
    c == ' ' || c == '\t'
}

/// Scans the digit run at `i` and accumulates its value, reporting
/// nothing when there is no digit or the value does not fit.
fn parse_uint(s: &str, i: usize, n: usize) -> (r: Option<(usize, usize)>)
    requires
        i <= n,
        n == s@.len(),
    ensures
        match r {
            Some((v, j)) => spec_parse_uint(s@, i as int) == Some((v, j as int)) && i < j <= n,
            None => spec_parse_uint(s@, i as int) is None,
        },
{
    proof {
        lemma_end_of_digits_bounds(s@, i as int);
        lemma_end_of_digits_run(s@, i as int);
    }
    let ghost end = end_of_digits(s@, i as int);
    let mut j: usize = i;
    let mut val: usize = 0;
    let mut overflow = false;
    while j < n && is_digit_char(s.get_char(j))
        invariant
            i <= j <= n,
            n == s@.len(),
            end == end_of_digits(s@, i as int),
            end_of_digits(s@, j as int) == end,
            j <= end <= n,
            !overflow ==> val == digits_value(s@, i as int, j as int),
            overflow ==> digits_value(s@, i as int, j as int) > usize::MAX,
        decreases n - j,
    {
        let c = s.get_char(j);
        let d = (c as u32 - '0' as u32) as usize;
        proof {
            lemma_end_of_digits_bounds(s@, j as int + 1);
        }
        if !overflow {
            if val > usize::MAX / 10 || (val == usize::MAX / 10 && d > usize::MAX % 10) {
                overflow = true;
            } else {
                val = val * 10 + d;
            }
        }
        j = j + 1;
    }
    proof {
        assert(end_of_digits(s@, j as int) == j as int);
    }
    if overflow {
        proof {
            lemma_end_of_digits_run(s@, i as int);
            lemma_digits_value_monotonic(s@, i as int, j as int, end);
        }
        None
    } else if j == i {
        None
    } else {
        Some((val, j))
    }
}

/// The optional `/step` suffix at `i`.
fn parse_step(s: &str, i: usize, n: usize) -> (r: Option<(usize, usize)>)
    requires
        i <= n,
        n == s@.len(),
    ensures
        match r {
            Some((v, j)) => spec_parse_step(s@, i as int) == Some((v, j as int)) && i < j <= n,
            None => spec_parse_step(s@, i as int) is None,
        },
{
    if i < n && s.get_char(i) == '/' {
        parse_uint(s, i + 1, n)
    } else {
        None
    }
}

/// A bare `N-M` range at `i`.
fn parse_range_core(s: &str, i: usize, n: usize) -> (r: Option<((usize, usize), usize)>)
    requires
        i <= n,
        n == s@.len(),
    ensures
        match r {
            Some((be, k)) => spec_parse_range_core(s@, i as int) == Some((be, k as int)) && i < k
                <= n,
            None => spec_parse_range_core(s@, i as int) is None,
        },
{
    match parse_uint(s, i, n) {
        None => None,
        Some((b, j)) => {
            if j < n && s.get_char(j) == '-' {
                match parse_uint(s, j + 1, n) {
                    None => None,
                    Some((e, k)) => Some(((b, e), k)),
                }
            } else {
                None
            }
        },
    }
}

/// One list element at `i`.
fn parse_list_elem(s: &str, i: usize, n: usize) -> (r: Option<((usize, Option<usize>), usize)>)
    requires
        i <= n,
        n == s@.len(),
    ensures
        match r {
            Some((e, j)) => spec_parse_list_elem(s@, i as int) == Some((e, j as int)) && i < j
                <= n,
            None => spec_parse_list_elem(s@, i as int) is None,
        },
{
    match parse_range_core(s, i, n) {
        Some(((b, e), k)) => {
            if parse_step(s, k, n).is_some() {
                match parse_uint(s, i, n) {
                    Some((v, j)) => Some(((v, None), j)),
                    None => None,
                }
            } else {
                Some(((b, Some(e)), k))
            }
        },
        None => match parse_uint(s, i, n) {
            Some((v, j)) => Some(((v, None), j)),
            None => None,
        },
    }
}

/// Gathers the `,elem` continuations after a first element ending at
/// `i`.
fn parse_elems(s: &str, i: usize, n: usize) -> (r: (Vec<(usize, Option<usize>)>, usize))
    requires
        i <= n,
        n == s@.len(),
    ensures
        r.0@ == spec_parse_more_elems(s@, i as int).0,
        r.1 as int == spec_parse_more_elems(s@, i as int).1,
        i <= r.1 <= n,
{
    let mut acc: Vec<(usize, Option<usize>)> = Vec::new();
    let mut j: usize = i;
    proof {
        assert(spec_parse_more_elems(s@, i as int).0 =~= acc@ + spec_parse_more_elems(
            s@,
            i as int,
        ).0);
    }
    loop
        invariant
            i <= j <= n,
            n == s@.len(),
            spec_parse_more_elems(s@, i as int).0 == acc@ + spec_parse_more_elems(s@, j as int).0,
            spec_parse_more_elems(s@, i as int).1 == spec_parse_more_elems(s@, j as int).1,
        ensures
            i <= j <= n,
            acc@ == spec_parse_more_elems(s@, i as int).0,
            j as int == spec_parse_more_elems(s@, i as int).1,
        decreases n - j,
    {
        if j < n && s.get_char(j) == ',' {
            match parse_list_elem(s, j + 1, n) {
                Some((e, k)) => {
                    proof {
                        assert(acc@ + spec_parse_more_elems(s@, j as int).0 =~= acc@.push(e)
                            + spec_parse_more_elems(s@, k as int).0);
                    }
                    acc.push(e);
                    j = k;
                },
                None => {
                    proof {
                        assert(acc@ + spec_parse_more_elems(s@, j as int).0 =~= acc@);
                    }
                    break ;
                },
            }
        } else {
            proof {
                assert(acc@ + spec_parse_more_elems(s@, j as int).0 =~= acc@);
            }
            break ;
        }
    }
    (acc, j)
}

/// A field token at `i`, as an executable value and the index just
/// past it.
fn parse_field_at(s: &str, i: usize, n: usize) -> (r: Option<(Field, usize)>)
    requires
        i <= n,
        n == s@.len(),
    ensures
        match r {
            Some((f, j)) => spec_parse_field(s@, i as int) matches Some((pf, jj))
                && field_denotes(f, pf) && j as int == jj && i < j <= n && field_well_formed(f),
            None => spec_parse_field(s@, i as int) is None,
        },
{
    proof {
        lemma_parse_field_bounds(s@, i as int);
    }
    if i < n && s.get_char(i) == '*' {
        match parse_step(s, i + 1, n) {
            Some((st, j)) => Some((Field::Star(Some(st)), j)),
            None => Some((Field::Star(None), i + 1)),
        }
    } else {
        match parse_list_elem(s, i, n) {
            None => None,
            Some((e0, j0)) => {
                let (mut rest, jend) = parse_elems(s, j0, n);
                if rest.len() >= 1 {
                    let mut items: Vec<(usize, Option<usize>)> = Vec::new();
                    items.push(e0);
                    items.append(&mut rest);
                    proof {
                        assert(items@ =~= seq![e0] + spec_parse_more_elems(s@, j0 as int).0);
                    }
                    Some((Field::List(items), jend))
                } else {
                    match parse_range_core(s, i, n) {
                        Some(((b, e), k)) => match parse_step(s, k, n) {
                            Some((st, m)) => Some((Field::Range(b, e, Some(st)), m)),
                            None => Some((Field::Range(b, e, None), k)),
                        },
                        None => Some((Field::Value(e0.0), j0)),
                    }
                }
            },
        }
    }
}

/// Index just past the run of spaces and tabs at `i`.
fn skip_spaces(s: &str, i: usize, n: usize) -> (k: usize)
    requires
        i <= n,
        n == s@.len(),
    ensures
        k as int == end_of_spaces(s@, i as int),
        i <= k <= n,
{
    proof {
        lemma_end_of_spaces_bounds(s@, i as int);
    }
    let mut k: usize = i;
    while k < n && is_space_char(s.get_char(k))
        invariant
            i <= k <= n,
            n == s@.len(),
            end_of_spaces(s@, k as int) == end_of_spaces(s@, i as int),
        decreases n - k,
    {
        k = k + 1;
    }
    k
}

/// A five-field pattern at `i`, as an executable `When` and the index
/// just past its last field.
fn parse_when_at(s: &str, i: usize, n: usize) -> (r: Option<(When, usize)>)
    requires
        i <= n,
        n == s@.len(),
    ensures
        match r {
            Some((w, j)) => spec_parse_when(s@, i as int) matches Some((fs, jj)) && when_denotes(
                w,
                fs,
            ) && j as int == jj && i <= j <= n && when_well_formed(w),
            None => spec_parse_when(s@, i as int) is None,
        },
{
    let first = parse_field_at(s, i, n);
    match first {
        None => None,
        Some((f0, j0)) => {
            let mut fields: Vec<Field> = Vec::new();
            fields.push(f0);
            let ghost pf0 = spec_parse_field(s@, i as int)->Some_0.0;
            let ghost j_first: usize = j0;
            let ghost mut gacc: Seq<ParsedField> = Seq::empty();
            let mut j: usize = j0;
            let mut extra: usize = 0;
            proof {
                assert(spec_fields_upto(s@, j_first as int, 4).0 =~= gacc + spec_fields_upto(
                    s@,
                    j as int,
                    4,
                ).0);
            }
            loop
                invariant
                    i <= j <= n,
                    n == s@.len(),
                    extra <= 4,
                    fields@.len() == gacc.len() + 1,
                    fields@[0] == f0,
                    field_denotes(f0, pf0),
                    pf0 == spec_parse_field(s@, i as int)->Some_0.0,
                    spec_parse_field(s@, i as int) matches Some((pf, jj)) && pf == pf0 && jj
                        == j_first as int,
                    forall|t: int|
                        0 <= t < gacc.len() ==> field_denotes(fields@[t + 1], #[trigger] gacc[t]),
                    forall|t: int| 0 <= t < fields@.len() ==> field_well_formed(#[trigger] fields@[t]),
                    gacc.len() == extra,
                    spec_fields_upto(s@, j_first as int, 4).0 == gacc + spec_fields_upto(
                        s@,
                        j as int,
                        (4 - extra) as nat,
                    ).0,
                    spec_fields_upto(s@, j_first as int, 4).1 == spec_fields_upto(
                        s@,
                        j as int,
                        (4 - extra) as nat,
                    ).1,
                ensures
                    i <= j <= n,
                    fields@.len() == gacc.len() + 1,
                    fields@[0] == f0,
                    forall|t: int|
                        0 <= t < gacc.len() ==> field_denotes(fields@[t + 1], #[trigger] gacc[t]),
                    forall|t: int| 0 <= t < fields@.len() ==> field_well_formed(#[trigger] fields@[t]),
                    gacc == spec_fields_upto(s@, j_first as int, 4).0,
                    j as int == spec_fields_upto(s@, j_first as int, 4).1,
                decreases 4 - extra,
            {
                if extra == 4 {
                    proof {
                        assert(gacc + spec_fields_upto(s@, j as int, 0).0 =~= gacc);
                    }
                    break ;
                }
                let k = skip_spaces(s, j, n);
                if k == j {
                    proof {
                        assert(gacc + spec_fields_upto(s@, j as int, (4 - extra) as nat).0
                            =~= gacc);
                    }
                    break ;
                }
                match parse_field_at(s, k, n) {
                    None => {
                        proof {
                            assert(gacc + spec_fields_upto(s@, j as int, (4 - extra) as nat).0
                                =~= gacc);
                        }
                        break ;
                    },
                    Some((f, j2)) => {
                        let ghost pf = spec_parse_field(s@, k as int)->Some_0.0;
                        proof {
                            assert(gacc + spec_fields_upto(s@, j as int, (4 - extra) as nat).0
                                =~= gacc.push(pf) + spec_fields_upto(
                                s@,
                                j2 as int,
                                (4 - (extra + 1)) as nat,
                            ).0);
                        }
                        fields.push(f);
                        proof {
                            gacc = gacc.push(pf);
                        }
                        j = j2;
                        extra = extra + 1;
                    },
                }
            }
            proof {
                if gacc.len() == 4 {
                    assert(spec_parse_when(s@, i as int) matches Some((fs, jj)) && fs == seq![pf0]
                        + gacc && jj == j as int);
                    assert((seq![pf0] + gacc)[0] == pf0);
                    assert forall|t: int| 1 <= t < 5 implies (seq![pf0] + gacc)[t] == gacc[t
                        - 1] by {}
                }
            }
            if fields.len() == 5 {
                let ghost fv = fields@;
                proof {
                    assert(field_denotes(fv[1], gacc[0]));
                    assert(field_denotes(fv[2], gacc[1]));
                    assert(field_denotes(fv[3], gacc[2]));
                    assert(field_denotes(fv[4], gacc[3]));
                }
                let dow = fields.pop().unwrap();
                let mon = fields.pop().unwrap();
                let dom = fields.pop().unwrap();
                let hour = fields.pop().unwrap();
                let minute = fields.pop().unwrap();
                proof {
                    assert(dow == fv[4] && mon == fv[3] && dom == fv[2] && hour == fv[1] && minute
                        == fv[0]);
                }
                Some((
                    When {
                        minute,
                        hour,
                        day_of_month: dom,
                        month: mon,
                        day_of_week: dow,
                    },
                    j,
                ))
            } else {
                None
            }
        },
    }
}

/// Parses one field token; the unconsumed remainder of the input comes
/// first, as handed back to the caller.
pub fn parse_field(input: &str) -> (r: Result<(&str, Field), ParseError>)
    ensures
        match r {
            Ok((rem, f)) => spec_parse_field(input@, 0) matches Some((pf, j)) && field_denotes(
                f,
                pf,
            ) && rem@ == input@.subrange(j, input@.len() as int) && field_well_formed(f),
            Err(_) => spec_parse_field(input@, 0) is None,
        },
{
    let n = input.unicode_len();
    match parse_field_at(input, 0, n) {
        Some((f, j)) => Ok((input.substring_char(j, n), f)),
        None => Err(ParseError),
    }
}

/// Parses a five-field pattern; the unconsumed remainder comes first.
pub fn parse_when(input: &str) -> (r: Result<(&str, When), ParseError>)
    ensures
        match r {
            Ok((rem, w)) => spec_parse_when(input@, 0) matches Some((fs, j)) && when_denotes(
                w,
                fs,
            ) && rem@ == input@.subrange(j, input@.len() as int) && when_well_formed(w),
            Err(_) => spec_parse_when(input@, 0) is None,
        },
{
    let n = input.unicode_len();
    match parse_when_at(input, 0, n) {
        Some((w, j)) => Ok((input.substring_char(j, n), w)),
        None => Err(ParseError),
    }
}

/// Whether the literal `lit` occurs at `i`; on success the index just
/// past it.
fn match_literal(s: &str, i: usize, n: usize, lit: &str) -> (r: Option<usize>)
    requires
        i <= n,
        n == s@.len(),
    ensures
        match r {
            Some(j) => has_prefix(s@, i as int, lit@) && j as int == i + lit@.len() && i <= j <= n,
            None => !has_prefix(s@, i as int, lit@),
        },
{
    let m = lit.unicode_len();
    if m > n - i {
        proof {
            assert(!has_prefix(s@, i as int, lit@));
        }
        return None;
    }
    let mut k: usize = 0;
    while k < m
        invariant
            0 <= k <= m,
            i + m <= n,
            n == s@.len(),
            m == lit@.len(),
            forall|t: int| 0 <= t < k ==> s@[i + t] == lit@[t],
        decreases m - k,
    {
        if s.get_char(i + k) != lit.get_char(k) {
            proof {
                if has_prefix(s@, i as int, lit@) {
                    assert(s@.subrange(i as int, i + lit@.len())[k as int] == lit@[k as int]);
                }
            }
            return None;
        }
        k = k + 1;
    }
    proof {
        assert(s@.subrange(i as int, i + lit@.len()) =~= lit@);
    }
    Some(i + m)
}

/// The schedule at `i`: a shorthand token or five fields.
pub(crate) fn parse_schedule_at(s: &str, i: usize, n: usize) -> (r: Option<(Schedule, usize)>)
    requires
        i <= n,
        n == s@.len(),
    ensures
        match r {
            Some((sch, j)) => spec_parse_schedule(s@, i as int) matches Some((ps, jj))
                && schedule_denotes(sch, ps) && j as int == jj && i <= j <= n
                && schedule_well_formed(sch),
            None => spec_parse_schedule(s@, i as int) is None,
        },
{
    if let Some(j) = match_literal(s, i, n, "@reboot") {
        return Some((Schedule::Reboot, j));
    }
    if let Some(j) = match_literal(s, i, n, "@yearly") {
        return Some((Schedule::When(when_of_yearly()), j));
    }
    if let Some(j) = match_literal(s, i, n, "@annually") {
        return Some((Schedule::When(when_of_yearly()), j));
    }
    if let Some(j) = match_literal(s, i, n, "@monthly") {
        return Some((Schedule::When(when_of_monthly()), j));
    }
    if let Some(j) = match_literal(s, i, n, "@weekly") {
        return Some((Schedule::When(when_of_weekly()), j));
    }
    if let Some(j) = match_literal(s, i, n, "@daily") {
        return Some((Schedule::When(when_of_daily()), j));
    }
    if let Some(j) = match_literal(s, i, n, "@midnight") {
        return Some((Schedule::When(when_of_daily()), j));
    }
    if let Some(j) = match_literal(s, i, n, "@hourly") {
        return Some((Schedule::When(when_of_hourly()), j));
    }
    match parse_when_at(s, i, n) {
        Some((w, j)) => Some((Schedule::When(w), j)),
        None => None,
    }
}

fn when_of_yearly() -> (w: When)
    ensures
        when_denotes(w, yearly_fields()),
{
    When {
        minute: Field::Value(0),
        hour: Field::Value(0),
        day_of_month: Field::Value(1),
        month: Field::Value(1),
        day_of_week: Field::Star(None),
    }
}

fn when_of_monthly() -> (w: When)
    ensures
        when_denotes(w, monthly_fields()),
{
    When {
        minute: Field::Value(0),
        hour: Field::Value(0),
        day_of_month: Field::Value(1),
        month: Field::Star(None),
        day_of_week: Field::Star(None),
    }
}

fn when_of_weekly() -> (w: When)
    ensures
        when_denotes(w, weekly_fields()),
{
    When {
        minute: Field::Value(0),
        hour: Field::Value(0),
        day_of_month: Field::Star(None),
        month: Field::Star(None),
        day_of_week: Field::Value(0),
    }
}

fn when_of_daily() -> (w: When)
    ensures
        when_denotes(w, daily_fields()),
{
    When {
        minute: Field::Value(0),
        hour: Field::Value(0),
        day_of_month: Field::Star(None),
        month: Field::Star(None),
        day_of_week: Field::Star(None),
    }
}

fn when_of_hourly() -> (w: When)
    ensures
        when_denotes(w, hourly_fields()),
{
    When {
        minute: Field::Value(0),
        hour: Field::Star(None),
        day_of_month: Field::Star(None),
        month: Field::Star(None),
        day_of_week: Field::Star(None),
    }
}

proof fn lemma_prefix_differs(s: Seq<char>, i: int, t: Seq<char>, k: int)
    requires
        0 <= k < t.len(),
        0 <= i,
        i + t.len() <= s.len() ==> s[i + k] != t[k],
    ensures
        !has_prefix(s, i, t),
{
    if has_prefix(s, i, t) {
        assert(s.subrange(i, i + t.len())[k] == t[k]);
    }
}

/// The startup shorthand consumes its token alone: it has no field
/// list.
pub proof fn lemma_reboot_shorthand()
    ensures
        spec_parse_schedule("@reboot"@, 0) == Some((ParsedSchedule::Reboot, "@reboot"@.len() as int)),
{
    reveal_strlit("@reboot");
    assert(has_prefix("@reboot"@, 0, "@reboot"@)) by {
        assert("@reboot"@.subrange(0, "@reboot"@.len() as int) =~= "@reboot"@);
    }
}

/// Parsing `@yearly` (or `@annually`) and parsing the five fields it
/// abbreviates yield the same table: minute 0, hour 0, day of month 1,
/// month 1, any day of week.
pub proof fn lemma_yearly_shorthand_table()
    ensures
        spec_parse_schedule("@yearly"@, 0) == Some(
            (ParsedSchedule::When(yearly_fields()), "@yearly"@.len() as int),
        ),
        spec_parse_schedule("@annually"@, 0) == Some(
            (ParsedSchedule::When(yearly_fields()), "@annually"@.len() as int),
        ),
        spec_parse_when("0 0 1 1 *"@, 0) matches Some((fs, _)) && fs == yearly_fields(),
{
    reveal_strlit("@reboot");
    reveal_strlit("@yearly");
    reveal_strlit("@annually");
    reveal_strlit("0 0 1 1 *");
    lemma_prefix_differs("@yearly"@, 0, "@reboot"@, 1);
    assert(has_prefix("@yearly"@, 0, "@yearly"@)) by {
        assert("@yearly"@.subrange(0, 7) =~= "@yearly"@);
    }
    lemma_prefix_differs("@annually"@, 0, "@reboot"@, 1);
    lemma_prefix_differs("@annually"@, 0, "@yearly"@, 1);
    assert(has_prefix("@annually"@, 0, "@annually"@)) by {
        assert("@annually"@.subrange(0, 9) =~= "@annually"@);
    }
    reveal_with_fuel(end_of_digits, 4);
    reveal_with_fuel(digits_value, 4);
    reveal_with_fuel(end_of_spaces, 4);
    reveal_with_fuel(spec_fields_upto, 8);
    reveal_with_fuel(spec_parse_more_elems, 2);
    assert(spec_parse_when("0 0 1 1 *"@, 0) matches Some((fs, _)) && fs =~= yearly_fields());
}

/// Parsing `@monthly` and parsing its five fields yield the same
/// table: minute 0, hour 0, day of month 1.
pub proof fn lemma_monthly_shorthand_table()
    ensures
        spec_parse_schedule("@monthly"@, 0) == Some(
            (ParsedSchedule::When(monthly_fields()), "@monthly"@.len() as int),
        ),
        spec_parse_when("0 0 1 * *"@, 0) matches Some((fs, _)) && fs == monthly_fields(),
{
    reveal_strlit("@reboot");
    reveal_strlit("@yearly");
    reveal_strlit("@annually");
    reveal_strlit("@monthly");
    reveal_strlit("0 0 1 * *");
    lemma_prefix_differs("@monthly"@, 0, "@reboot"@, 1);
    lemma_prefix_differs("@monthly"@, 0, "@yearly"@, 1);
    assert(!has_prefix("@monthly"@, 0, "@annually"@));
    assert(has_prefix("@monthly"@, 0, "@monthly"@)) by {
        assert("@monthly"@.subrange(0, 8) =~= "@monthly"@);
    }
    reveal_with_fuel(end_of_digits, 4);
    reveal_with_fuel(digits_value, 4);
    reveal_with_fuel(end_of_spaces, 4);
    reveal_with_fuel(spec_fields_upto, 8);
    reveal_with_fuel(spec_parse_more_elems, 2);
    assert(spec_parse_when("0 0 1 * *"@, 0) matches Some((fs, _)) && fs =~= monthly_fields());
}

/// Parsing `@weekly` and parsing its five fields yield the same table:
/// minute 0, hour 0, day of week 0 (Sunday).
pub proof fn lemma_weekly_shorthand_table()
    ensures
        spec_parse_schedule("@weekly"@, 0) == Some(
            (ParsedSchedule::When(weekly_fields()), "@weekly"@.len() as int),
        ),
        spec_parse_when("0 0 * * 0"@, 0) matches Some((fs, _)) && fs == weekly_fields(),
{
    reveal_strlit("@reboot");
    reveal_strlit("@yearly");
    reveal_strlit("@annually");
    reveal_strlit("@monthly");
    reveal_strlit("@weekly");
    reveal_strlit("0 0 * * 0");
    lemma_prefix_differs("@weekly"@, 0, "@reboot"@, 1);
    lemma_prefix_differs("@weekly"@, 0, "@yearly"@, 1);
    assert(!has_prefix("@weekly"@, 0, "@annually"@));
    lemma_prefix_differs("@weekly"@, 0, "@monthly"@, 1);
    assert(has_prefix("@weekly"@, 0, "@weekly"@)) by {
        assert("@weekly"@.subrange(0, 7) =~= "@weekly"@);
    }
    reveal_with_fuel(end_of_digits, 4);
    reveal_with_fuel(digits_value, 4);
    reveal_with_fuel(end_of_spaces, 4);
    reveal_with_fuel(spec_fields_upto, 8);
    reveal_with_fuel(spec_parse_more_elems, 2);
    assert(spec_parse_when("0 0 * * 0"@, 0) matches Some((fs, _)) && fs =~= weekly_fields());
}

/// Parsing `@daily` (or `@midnight`) and parsing its five fields yield
/// the same table: minute 0, hour 0.
pub proof fn lemma_daily_shorthand_table()
    ensures
        spec_parse_schedule("@daily"@, 0) == Some(
            (ParsedSchedule::When(daily_fields()), "@daily"@.len() as int),
        ),
        spec_parse_schedule("@midnight"@, 0) == Some(
            (ParsedSchedule::When(daily_fields()), "@midnight"@.len() as int),
        ),
        spec_parse_when("0 0 * * *"@, 0) matches Some((fs, _)) && fs == daily_fields(),
{
    reveal_strlit("@reboot");
    reveal_strlit("@yearly");
    reveal_strlit("@annually");
    reveal_strlit("@monthly");
    reveal_strlit("@weekly");
    reveal_strlit("@daily");
    reveal_strlit("@midnight");
    reveal_strlit("0 0 * * *");
    assert(has_prefix("@daily"@, 0, "@daily"@)) by {
        assert("@daily"@.subrange(0, 6) =~= "@daily"@);
    }
    lemma_prefix_differs("@midnight"@, 0, "@reboot"@, 1);
    lemma_prefix_differs("@midnight"@, 0, "@yearly"@, 1);
    lemma_prefix_differs("@midnight"@, 0, "@annually"@, 1);
    lemma_prefix_differs("@midnight"@, 0, "@monthly"@, 2);
    lemma_prefix_differs("@midnight"@, 0, "@weekly"@, 1);
    lemma_prefix_differs("@midnight"@, 0, "@daily"@, 1);
    assert(has_prefix("@midnight"@, 0, "@midnight"@)) by {
        assert("@midnight"@.subrange(0, 9) =~= "@midnight"@);
    }
    reveal_with_fuel(end_of_digits, 4);
    reveal_with_fuel(digits_value, 4);
    reveal_with_fuel(end_of_spaces, 4);
    reveal_with_fuel(spec_fields_upto, 8);
    reveal_with_fuel(spec_parse_more_elems, 2);
    assert(spec_parse_when("0 0 * * *"@, 0) matches Some((fs, _)) && fs =~= daily_fields());
}

/// Parsing `@hourly` and parsing its five fields yield the same table:
/// minute 0.
pub proof fn lemma_hourly_shorthand_table()
    ensures
        spec_parse_schedule("@hourly"@, 0) == Some(
            (ParsedSchedule::When(hourly_fields()), "@hourly"@.len() as int),
        ),
        spec_parse_when("0 * * * *"@, 0) matches Some((fs, _)) && fs == hourly_fields(),
{
    reveal_strlit("@reboot");
    reveal_strlit("@yearly");
    reveal_strlit("@annually");
    reveal_strlit("@monthly");
    reveal_strlit("@weekly");
    reveal_strlit("@daily");
    reveal_strlit("@midnight");
    reveal_strlit("@hourly");
    reveal_strlit("0 * * * *");
    lemma_prefix_differs("@hourly"@, 0, "@reboot"@, 1);
    lemma_prefix_differs("@hourly"@, 0, "@yearly"@, 1);
    lemma_prefix_differs("@hourly"@, 0, "@weekly"@, 1);
    lemma_prefix_differs("@hourly"@, 0, "@daily"@, 1);
    assert(!has_prefix("@hourly"@, 0, "@annually"@));
    assert(!has_prefix("@hourly"@, 0, "@monthly"@));
    assert(!has_prefix("@hourly"@, 0, "@midnight"@));
    assert(has_prefix("@hourly"@, 0, "@hourly"@)) by {
        assert("@hourly"@.subrange(0, 7) =~= "@hourly"@);
    }
    reveal_with_fuel(end_of_digits, 4);
    reveal_with_fuel(digits_value, 4);
    reveal_with_fuel(end_of_spaces, 4);
    reveal_with_fuel(spec_fields_upto, 8);
    reveal_with_fuel(spec_parse_more_elems, 2);
    assert(spec_parse_when("0 * * * *"@, 0) matches Some((fs, _)) && fs =~= hourly_fields());
}

impl Schedule {
    /// Parses a schedule from the start of the input; the unconsumed
    /// remainder comes first.
    pub fn parse(input: &str) -> (r: Result<(&str, Schedule), ParseError>)
        ensures
            match r {
                Ok((rem, sch)) => spec_parse_schedule(input@, 0) matches Some((ps, j))
                    && schedule_denotes(sch, ps) && rem@ == input@.subrange(
                    j,
                    input@.len() as int,
                ) && schedule_well_formed(sch),
                Err(_) => spec_parse_schedule(input@, 0) is None,
            },
    {
        let n = input.unicode_len();
        match parse_schedule_at(input, 0, n) {
            Some((sch, j)) => Ok((input.substring_char(j, n), sch)),
            None => Err(ParseError),
        }
    }
}

} // verus!
