//! Time fields and schedules: the value domain for a single crontab time
//! field (minute, hour, day of month, month, day of week), bounds
//! validation, and the matching semantics of a schedule against a
//! calendar minute.

use crate::calendar::TimeFields;
use vstd::prelude::*;

verus! {

/// Inclusive bounds of each field position. Day of week accepts both 0
/// and 7 as Sunday, so its domain is intentionally redundant.
pub const FIRST_MINUTE: usize = 0;

pub const LAST_MINUTE: usize = 59;

pub const FIRST_HOUR: usize = 0;

pub const LAST_HOUR: usize = 23;

pub const FIRST_DAY_OF_MONTH: usize = 1;

pub const LAST_DAY_OF_MONTH: usize = 31;

pub const FIRST_MONTH: usize = 1;

pub const LAST_MONTH: usize = 12;

pub const FIRST_DAY_OF_WEEK: usize = 0;

pub const LAST_DAY_OF_WEEK: usize = 7;

/// The value domain of one time field.
#[derive(Debug, Clone, PartialEq)]
pub enum Field {
    /// Matches exactly one value.
    Value(usize),
    /// Begin, end (inclusive) and an optional step.
    Range(usize, usize, Option<usize>),
    /// Two or more values and/or sub-ranges (no steps inside a list).
    List(Vec<(usize, Option<usize>)>),
    /// Matches the whole domain, or every step'th value from its lower
    /// bound.
    Star(Option<usize>),
}

/// Why a field failed bounds validation.
#[derive(Debug, Clone, Copy, PartialEq, Eq, Structural)]
pub enum FieldErrorKind {
    ValueTooLow,
    ValueTooHigh,
    RangeOutOfOrder,
    StepTooBig,
    RangeStartTooLow,
    RangeEndTooHigh,
    ListValueTooLow,
    ListValueTooHigh,
    ListRangeOutOfOrder,
    ListRangeStartTooLow,
    ListRangeEndTooHigh,
}

/// Validation outcome of a single list element: a bare value or a
/// sub-range, checked range order first, then lower bound, then upper
/// bound.
pub open spec fn spec_validate_item(item: (usize, Option<usize>), lo: int, hi: int) -> Result<
    (),
    FieldErrorKind,
> {
    match item.1 {
        None => {
            if item.0 < lo {
                Err(FieldErrorKind::ListValueTooLow)
            } else if item.0 > hi {
                Err(FieldErrorKind::ListValueTooHigh)
            } else {
                Ok(())
            }
        },
        Some(end) => {
            if item.0 > end {
                Err(FieldErrorKind::ListRangeOutOfOrder)
            } else if item.0 < lo {
                Err(FieldErrorKind::ListRangeStartTooLow)
            } else if end > hi {
                Err(FieldErrorKind::ListRangeEndTooHigh)
            } else {
                Ok(())
            }
        },
    }
}

/// First failure among the elements of a list, in order.
pub open spec fn spec_validate_items(
    items: Seq<(usize, Option<usize>)>,
    lo: int,
    hi: int,
) -> Result<(), FieldErrorKind>
    decreases items.len(),
{
    if items.len() == 0 {
        Ok(())
    } else {
        match spec_validate_item(items[0], lo, hi) {
            Err(k) => Err(k),
            Ok(()) => spec_validate_items(items.skip(1), lo, hi),
        }
    }
}

/// The whole validation pass over one field, with the checks in the
/// order the errors are reported: a structurally well-formed but
/// out-of-domain field is rejected with a specific reason.
pub open spec fn spec_validate_field(f: Field, lo: int, hi: int) -> Result<(), FieldErrorKind> {
    match f {
        Field::Value(v) => {
            if v < lo {
                Err(FieldErrorKind::ValueTooLow)
            } else if v > hi {
                Err(FieldErrorKind::ValueTooHigh)
            } else {
                Ok(())
            }
        },
        Field::Range(start, end, maybe_step) => {
            if start > end {
                Err(FieldErrorKind::RangeOutOfOrder)
            } else if maybe_step is Some && start + maybe_step->0 >= end {
                Err(FieldErrorKind::StepTooBig)
            } else if start < lo {
                Err(FieldErrorKind::RangeStartTooLow)
            } else if end > hi {
                Err(FieldErrorKind::RangeEndTooHigh)
            } else {
                Ok(())
            }
        },
        Field::Star(maybe_step) => {
            if maybe_step is Some && maybe_step->0 > hi - lo {
                Err(FieldErrorKind::StepTooBig)
            } else {
                Ok(())
            }
        },
        Field::List(items) => spec_validate_items(items@, lo, hi),
    }
}

/// A field passes validation against the given bounds.
pub open spec fn field_valid(f: Field, lo: int, hi: int) -> bool {
    spec_validate_field(f, lo, hi) is Ok
}

/// A structurally well-formed field: a list holds two or more elements.
/// A singleton degenerates to a value or a range and is never
/// constructed as a list.
pub open spec fn field_well_formed(f: Field) -> bool {
    match f {
        Field::List(items) => items@.len() > 1,
        _ => true,
    }
}

/// All five fields of the pattern are structurally well-formed.
pub open spec fn when_well_formed(w: When) -> bool {
    field_well_formed(w.minute) && field_well_formed(w.hour) && field_well_formed(w.day_of_month)
        && field_well_formed(w.month) && field_well_formed(w.day_of_week)
}

impl Field {
    /// Bounds validation: every concrete value in the field must lie in
    /// `[lower_bound, upper_bound]`, ranges must be ordered, and a step
    /// must fit inside the span it strides over.
    #[verifier::loop_isolation(false)]
    pub fn validate(&self, lower_bound: usize, upper_bound: usize) -> (r: Result<
        (),
        FieldErrorKind,
    >)
        requires
            lower_bound <= upper_bound,
        ensures
            r == spec_validate_field(*self, lower_bound as int, upper_bound as int),
    {
        match self {
            Field::Value(value) => {
                if *value < lower_bound {
                    Err(FieldErrorKind::ValueTooLow)
                } else if *value > upper_bound {
                    Err(FieldErrorKind::ValueTooHigh)
                } else {
                    Ok(())
                }
            },
            Field::Range(start, end, maybe_step) => {
                if *start > *end {
                    Err(FieldErrorKind::RangeOutOfOrder)
                } else if match maybe_step {
                    Some(step) => *step >= *end - *start,
                    None => false,
                } {
                    Err(FieldErrorKind::StepTooBig)
                } else if *start < lower_bound {
                    Err(FieldErrorKind::RangeStartTooLow)
                } else if *end > upper_bound {
                    Err(FieldErrorKind::RangeEndTooHigh)
                } else {
                    Ok(())
                }
            },
            Field::Star(maybe_step) => {
                if match maybe_step {
                    Some(step) => *step > upper_bound - lower_bound,
                    None => false,
                } {
                    Err(FieldErrorKind::StepTooBig)
                } else {
                    Ok(())
                }
            },
            Field::List(items) => {
                let n = items.len();
                let mut i: usize = 0;
                proof {
                    assert(items@.skip(0) =~= items@);
                }
                while i < n
                    invariant
                        i <= n,
                        n == items@.len(),
                        spec_validate_items(items@, lower_bound as int, upper_bound as int)
                            == spec_validate_items(
                            items@.skip(i as int),
                            lower_bound as int,
                            upper_bound as int,
                        ),
                    decreases n - i,
                {
                    let (value, maybe_end) = items[i];
                    proof {
                        assert(items@.skip(i as int)[0] == items@[i as int]);
                        assert(items@.skip(i as int).skip(1) =~= items@.skip(i as int + 1));
                    }
                    match maybe_end {
                        None => {
                            if value < lower_bound {
                                return Err(FieldErrorKind::ListValueTooLow);
                            }
                            if value > upper_bound {
                                return Err(FieldErrorKind::ListValueTooHigh);
                            }
                        },
                        Some(end) => {
                            if value > end {
                                return Err(FieldErrorKind::ListRangeOutOfOrder);
                            }
                            if value < lower_bound {
                                return Err(FieldErrorKind::ListRangeStartTooLow);
                            }
                            if end > upper_bound {
                                return Err(FieldErrorKind::ListRangeEndTooHigh);
                            }
                        },
                    }
                    i = i + 1;
                }
                proof {
                    assert(items@.skip(n as int) =~= Seq::<(usize, Option<usize>)>::empty());
                }
                Ok(())
            },
        }
    }
}

/// Every range in the field (and every sub-range of a list) runs from
/// its start to an end no smaller.
pub open spec fn ranges_ordered(f: Field) -> bool {
    match f {
        Field::Range(b, e, _) => b <= e,
        Field::List(items) => forall|i: int|
            0 <= i < items@.len() ==> match (#[trigger] items@[i]).1 {
                Some(end) => items@[i].0 <= end,
                None => true,
            },
        _ => true,
    }
}

/// Every concrete value appearing in the field lies in `[lo, hi]`.
/// Steps are strides, not values, and a star names no value at all.
pub open spec fn values_within(f: Field, lo: int, hi: int) -> bool {
    match f {
        Field::Value(v) => lo <= v <= hi,
        Field::Range(b, e, _) => lo <= b <= hi && lo <= e <= hi,
        Field::List(items) => forall|i: int|
            0 <= i < items@.len() ==> match (#[trigger] items@[i]).1 {
                None => lo <= items@[i].0 <= hi,
                Some(end) => lo <= items@[i].0 <= hi && lo <= end <= hi,
            },
        Field::Star(_) => true,
    }
}

/// A step present in the field fits inside the span it strides over: a
/// ranged step fits more than once inside the range, a star's step is
/// no larger than the domain's extent.
pub open spec fn steps_fit(f: Field, lo: int, hi: int) -> bool {
    match f {
        Field::Range(b, e, step) => match step {
            Some(s) => b + s < e,
            None => true,
        },
        Field::Star(step) => match step {
            Some(s) => s <= hi - lo,
            None => true,
        },
        _ => true,
    }
}

proof fn lemma_items_ok_iff(items: Seq<(usize, Option<usize>)>, lo: int, hi: int)
    ensures
        spec_validate_items(items, lo, hi) is Ok <==> forall|i: int|
            0 <= i < items.len() ==> spec_validate_item(#[trigger] items[i], lo, hi) is Ok,
    decreases items.len(),
{
    if items.len() > 0 {
        lemma_items_ok_iff(items.skip(1), lo, hi);
        assert forall|i: int| 1 <= i < items.len() implies items.skip(1)[i - 1] == items[i] by {}
    }
}

/// Bounds validation succeeds exactly when every concrete value in the
/// field lies within the given bounds and any step fits inside the span
/// it strides over. Holds for fields whose ranges are ordered; an
/// inverted range is rejected outright, whatever its values.
pub proof fn lemma_validate_characterizes_bounds(f: Field, lo: int, hi: int)
    requires
        lo <= hi,
        ranges_ordered(f),
    ensures
        field_valid(f, lo, hi) <==> values_within(f, lo, hi) && steps_fit(f, lo, hi),
{
    match f {
        Field::List(items) => {
            lemma_items_ok_iff(items@, lo, hi);
        },
        _ => {},
    }
}

/// Soundness of validation against the matching semantics: a value
/// matched by a validated field lies within the field's bounds.
pub proof fn lemma_valid_field_matches_within(f: Field, lo: int, hi: int, v: int)
    requires
        lo <= hi,
        field_valid(f, lo, hi),
        spec_field_matches(f, lo, hi, v),
    ensures
        lo <= v <= hi,
{
    match f {
        Field::List(items) => {
            lemma_items_ok_iff(items@, lo, hi);
            let i = choose|i: int| 0 <= i < items@.len() && spec_item_matches(items@[i], v);
            assert(spec_validate_item(items@[i], lo, hi) is Ok);
        },
        _ => {},
    }
}

/// Which of the five field positions a validation failure concerns.
#[derive(Debug, Clone, Copy, PartialEq, Eq, Structural)]
pub enum FieldPosition {
    Minute,
    Hour,
    DayOfMonth,
    Month,
    DayOfWeek,
}

/// A well-formed but out-of-domain schedule: which field failed and why.
#[derive(Debug, Clone, Copy, PartialEq, Eq, Structural)]
pub struct ValidationError {
    pub position: FieldPosition,
    pub kind: FieldErrorKind,
}

/// Exactly five fields, in positional order.
#[derive(Debug, Clone, PartialEq)]
pub struct When {
    pub minute: Field,
    pub hour: Field,
    pub day_of_month: Field,
    pub month: Field,
    pub day_of_week: Field,
}

/// The first validation failure over the five fields, in positional
/// order, each against its own domain.
pub open spec fn spec_validate_when(w: When) -> Result<(), ValidationError> {
    if spec_validate_field(w.minute, FIRST_MINUTE as int, LAST_MINUTE as int) is Err {
        Err(
            ValidationError {
                position: FieldPosition::Minute,
                kind: spec_validate_field(
                    w.minute,
                    FIRST_MINUTE as int,
                    LAST_MINUTE as int,
                )->Err_0,
            },
        )
    } else if spec_validate_field(w.hour, FIRST_HOUR as int, LAST_HOUR as int) is Err {
        Err(
            ValidationError {
                position: FieldPosition::Hour,
                kind: spec_validate_field(w.hour, FIRST_HOUR as int, LAST_HOUR as int)->Err_0,
            },
        )
    } else if spec_validate_field(
        w.day_of_month,
        FIRST_DAY_OF_MONTH as int,
        LAST_DAY_OF_MONTH as int,
    ) is Err {
        Err(
            ValidationError {
                position: FieldPosition::DayOfMonth,
                kind: spec_validate_field(
                    w.day_of_month,
                    FIRST_DAY_OF_MONTH as int,
                    LAST_DAY_OF_MONTH as int,
                )->Err_0,
            },
        )
    } else if spec_validate_field(w.month, FIRST_MONTH as int, LAST_MONTH as int) is Err {
        Err(
            ValidationError {
                position: FieldPosition::Month,
                kind: spec_validate_field(w.month, FIRST_MONTH as int, LAST_MONTH as int)->Err_0,
            },
        )
    } else if spec_validate_field(
        w.day_of_week,
        FIRST_DAY_OF_WEEK as int,
        LAST_DAY_OF_WEEK as int,
    ) is Err {
        Err(
            ValidationError {
                position: FieldPosition::DayOfWeek,
                kind: spec_validate_field(
                    w.day_of_week,
                    FIRST_DAY_OF_WEEK as int,
                    LAST_DAY_OF_WEEK as int,
                )->Err_0,
            },
        )
    } else {
        Ok(())
    }
}

impl When {
    /// Validates each field against the bounds of its position; the
    /// first failure, in positional order, is reported.
    pub fn validate(&self) -> (r: Result<(), ValidationError>)
        ensures
            r == spec_validate_when(*self),
    {
        if let Err(kind) = self.minute.validate(FIRST_MINUTE, LAST_MINUTE) {
            return Err(ValidationError { position: FieldPosition::Minute, kind });
        }
        if let Err(kind) = self.hour.validate(FIRST_HOUR, LAST_HOUR) {
            return Err(ValidationError { position: FieldPosition::Hour, kind });
        }
        if let Err(kind) = self.day_of_month.validate(FIRST_DAY_OF_MONTH, LAST_DAY_OF_MONTH) {
            return Err(ValidationError { position: FieldPosition::DayOfMonth, kind });
        }
        if let Err(kind) = self.month.validate(FIRST_MONTH, LAST_MONTH) {
            return Err(ValidationError { position: FieldPosition::Month, kind });
        }
        if let Err(kind) = self.day_of_week.validate(FIRST_DAY_OF_WEEK, LAST_DAY_OF_WEEK) {
            return Err(ValidationError { position: FieldPosition::DayOfWeek, kind });
        }
        Ok(())
    }
}

/// A reboot schedule has no fields; a time pattern is well-formed when
/// its fields are.
pub open spec fn schedule_well_formed(s: Schedule) -> bool {
    match s {
        Schedule::Reboot => true,
        Schedule::When(w) => when_well_formed(w),
    }
}

/// Either a once-at-startup schedule or a five-field time pattern.
#[derive(Debug, Clone, PartialEq)]
pub enum Schedule {
    Reboot,
    When(When),
}

impl Schedule {
    /// `Reboot` has nothing to validate; a `When` is checked field by
    /// field.
    pub fn validate(&self) -> (r: Result<(), ValidationError>)
        ensures
            match self {
                Schedule::Reboot => r is Ok,
                Schedule::When(w) => r == spec_validate_when(*w),
            },
    {
        match self {
            Schedule::Reboot => Ok(()),
            Schedule::When(when) => when.validate(),
        }
    }
}

/// One list element matches a value: a bare value matches itself, a
/// sub-range matches everything from its start through its end.
pub open spec fn spec_item_matches(item: (usize, Option<usize>), v: int) -> bool {
    match item.1 {
        None => v == item.0,
        Some(end) => item.0 <= v <= end,
    }
}

/// A field matches a concrete value, relative to the domain
/// `[lo, hi]` of its position (a star ranges over that domain, and a
/// stepped star strides from `lo`). A step of zero strides nowhere and
/// matches only the value the stride starts from.
pub open spec fn spec_field_matches(f: Field, lo: int, hi: int, v: int) -> bool {
    match f {
        Field::Value(x) => v == x,
        Field::Range(b, e, step) => b <= v <= e && match step {
            None => true,
            Some(s) => if s == 0 {
                v == b
            } else {
                (v - b) % (s as int) == 0
            },
        },
        Field::List(items) => exists|i: int|
            0 <= i < items@.len() && spec_item_matches(items@[i], v),
        Field::Star(step) => lo <= v <= hi && match step {
            None => true,
            Some(s) => if s == 0 {
                v == lo
            } else {
                (v - lo) % (s as int) == 0
            },
        },
    }
}

/// A field is the unrestricted wildcard `*` (no step).
pub open spec fn spec_unrestricted(f: Field) -> bool {
    f == Field::Star(None::<usize>)
}

/// Day-of-week matching: 0 and 7 both denote Sunday, so a day reading
/// of 0 also matches a field that names 7.
pub open spec fn spec_dow_matches(f: Field, d: int) -> bool {
    spec_field_matches(f, FIRST_DAY_OF_WEEK as int, LAST_DAY_OF_WEEK as int, d) || (d == 0
        && spec_field_matches(f, FIRST_DAY_OF_WEEK as int, LAST_DAY_OF_WEEK as int, 7))
}

/// A calendar minute matches a `When`: minute, hour and month must
/// match their fields, and the two day fields combine by the cron rule:
/// if both are restricted, either may match; if one is the unrestricted
/// wildcard, only the other constrains the match.
pub open spec fn spec_when_matches(w: When, tf: TimeFields) -> bool {
    let dom_ok = spec_field_matches(
        w.day_of_month,
        FIRST_DAY_OF_MONTH as int,
        LAST_DAY_OF_MONTH as int,
        tf.day_of_month as int,
    );
    let dow_ok = spec_dow_matches(w.day_of_week, tf.day_of_week as int);
    spec_field_matches(w.minute, FIRST_MINUTE as int, LAST_MINUTE as int, tf.minute as int)
        && spec_field_matches(w.hour, FIRST_HOUR as int, LAST_HOUR as int, tf.hour as int)
        && spec_field_matches(w.month, FIRST_MONTH as int, LAST_MONTH as int, tf.month as int) && (
    if spec_unrestricted(w.day_of_month) && spec_unrestricted(w.day_of_week) {
        true
    } else if spec_unrestricted(w.day_of_month) {
        dow_ok
    } else if spec_unrestricted(w.day_of_week) {
        dom_ok
    } else {
        dom_ok || dow_ok
    })
}

/// An entry is wildcard-eligible when its two day fields are not both
/// restricted; on clock jumps only such entries run for the current
/// minute.
pub open spec fn spec_wildcard_eligible(w: When) -> bool {
    spec_unrestricted(w.day_of_month) || spec_unrestricted(w.day_of_week)
}

fn field_is_unrestricted(f: &Field) -> (b: bool)
    ensures
        b == spec_unrestricted(*f),
{
    match f {
        Field::Star(None) => true,
        _ => false,
    }
}

/// Whether one field matches a value, relative to the domain of its
/// position.
pub fn field_matches(f: &Field, lo: usize, hi: usize, v: usize) -> (b: bool)
    ensures
        b == spec_field_matches(*f, lo as int, hi as int, v as int),
{
    match f {
        Field::Value(x) => v == *x,
        Field::Range(b, e, step) => *b <= v && v <= *e && match step {
            None => true,
            Some(s) => if *s == 0 {
                v == *b
            } else {
                (v - *b) % *s == 0
            },
        },
        Field::List(items) => {
            let n = items.len();
            let mut i: usize = 0;
            #[verifier::loop_isolation(false)]
            while i < n
                invariant
                    i <= n,
                    forall|j: int| 0 <= j < i ==> !spec_item_matches(items@[j], v as int),
                decreases n - i,
            {
                let (value, maybe_end) = items[i];
                let hit = match maybe_end {
                    None => v == value,
                    Some(end) => value <= v && v <= end,
                };
                if hit {
                    return true;
                }
                i = i + 1;
            }
            false
        },
        Field::Star(step) => lo <= v && v <= hi && match step {
            None => true,
            Some(s) => if *s == 0 {
                v == lo
            } else {
                (v - lo) % *s == 0
            },
        },
    }
}

fn dow_matches(f: &Field, d: usize) -> (b: bool)
    ensures
        b == spec_dow_matches(*f, d as int),
{
    if field_matches(f, FIRST_DAY_OF_WEEK, LAST_DAY_OF_WEEK, d) {
        true
    } else {
        d == 0 && field_matches(f, FIRST_DAY_OF_WEEK, LAST_DAY_OF_WEEK, 7)
    }
}

/// Whether the given calendar minute matches this five-field pattern.
pub fn when_matches(w: &When, tf: &TimeFields) -> (b: bool)
    ensures
        b == spec_when_matches(*w, *tf),
{
    if !field_matches(&w.minute, FIRST_MINUTE, LAST_MINUTE, tf.minute) {
        return false;
    }
    if !field_matches(&w.hour, FIRST_HOUR, LAST_HOUR, tf.hour) {
        return false;
    }
    if !field_matches(&w.month, FIRST_MONTH, LAST_MONTH, tf.month) {
        return false;
    }
    let dom_star = field_is_unrestricted(&w.day_of_month);
    let dow_star = field_is_unrestricted(&w.day_of_week);
    if dom_star && dow_star {
        true
    } else if dom_star {
        dow_matches(&w.day_of_week, tf.day_of_week)
    } else if dow_star {
        field_matches(&w.day_of_month, FIRST_DAY_OF_MONTH, LAST_DAY_OF_MONTH, tf.day_of_month)
    } else {
        field_matches(&w.day_of_month, FIRST_DAY_OF_MONTH, LAST_DAY_OF_MONTH, tf.day_of_month)
            || dow_matches(&w.day_of_week, tf.day_of_week)
    }
}

/// Whether this pattern's day fields are not both restricted.
pub fn wildcard_eligible(w: &When) -> (b: bool)
    ensures
        b == spec_wildcard_eligible(*w),
{
    field_is_unrestricted(&w.day_of_month) || field_is_unrestricted(&w.day_of_week)
}

} // verus!
