use crondy::crontab::Crontab;
use crondy::schedule::Field;
use crondy::schedule::FieldErrorKind;
use crondy::schedule::FieldPosition;
use crondy::schedule::Schedule;
use crondy::schedule::When;
use crondy::schedule::FIRST_DAY_OF_WEEK;
use crondy::schedule::LAST_DAY_OF_WEEK;

#[test]
fn value_in_bounds() {
    assert_eq!(Field::Value(30).validate(0, 59), Ok(()));
}

#[test]
fn value_too_low() {
    assert_eq!(
        Field::Value(0).validate(1, 31),
        Err(FieldErrorKind::ValueTooLow)
    );
}

#[test]
fn value_too_high() {
    assert_eq!(
        Field::Value(60).validate(0, 59),
        Err(FieldErrorKind::ValueTooHigh)
    );
}

#[test]
fn dow_accepts_both_sundays() {
    assert_eq!(
        Field::Value(0).validate(FIRST_DAY_OF_WEEK, LAST_DAY_OF_WEEK),
        Ok(())
    );
    assert_eq!(
        Field::Value(7).validate(FIRST_DAY_OF_WEEK, LAST_DAY_OF_WEEK),
        Ok(())
    );
}

#[test]
fn dow_rejects_eight() {
    assert_eq!(
        Field::Value(8).validate(FIRST_DAY_OF_WEEK, LAST_DAY_OF_WEEK),
        Err(FieldErrorKind::ValueTooHigh)
    );
}

#[test]
fn range_out_of_order() {
    assert_eq!(
        Field::Range(5, 3, None).validate(0, 59),
        Err(FieldErrorKind::RangeOutOfOrder)
    );
}

#[test]
fn range_step_must_fit_more_than_once() {
    assert_eq!(
        Field::Range(1, 5, Some(4)).validate(0, 59),
        Err(FieldErrorKind::StepTooBig)
    );
    assert_eq!(Field::Range(1, 5, Some(3)).validate(0, 59), Ok(()));
}

#[test]
fn range_start_too_low() {
    assert_eq!(
        Field::Range(0, 5, None).validate(1, 31),
        Err(FieldErrorKind::RangeStartTooLow)
    );
}

#[test]
fn range_end_too_high() {
    assert_eq!(
        Field::Range(10, 60, None).validate(0, 59),
        Err(FieldErrorKind::RangeEndTooHigh)
    );
}

#[test]
fn star_step_must_fit_the_domain() {
    assert_eq!(Field::Star(Some(59)).validate(0, 59), Ok(()));
    assert_eq!(
        Field::Star(Some(60)).validate(0, 59),
        Err(FieldErrorKind::StepTooBig)
    );
    assert_eq!(Field::Star(None).validate(0, 59), Ok(()));
}

#[test]
fn list_elements_checked_in_order() {
    assert_eq!(
        Field::List(vec![(5, None), (0, None)]).validate(1, 31),
        Err(FieldErrorKind::ListValueTooLow)
    );
    assert_eq!(
        Field::List(vec![(5, None), (60, None)]).validate(0, 59),
        Err(FieldErrorKind::ListValueTooHigh)
    );
    assert_eq!(
        Field::List(vec![(5, Some(3)), (60, None)]).validate(0, 59),
        Err(FieldErrorKind::ListRangeOutOfOrder)
    );
    assert_eq!(
        Field::List(vec![(0, Some(3))]).validate(1, 31),
        Err(FieldErrorKind::ListRangeStartTooLow)
    );
    assert_eq!(
        Field::List(vec![(1, Some(32))]).validate(1, 31),
        Err(FieldErrorKind::ListRangeEndTooHigh)
    );
    assert_eq!(
        Field::List(vec![(1, Some(3)), (5, None)]).validate(0, 59),
        Ok(())
    );
}

#[test]
fn when_reports_the_first_failing_position() {
    let w = When {
        minute: Field::Value(0),
        hour: Field::Value(99),
        day_of_month: Field::Value(99),
        month: Field::Star(None),
        day_of_week: Field::Star(None),
    };
    let e = w.validate().unwrap_err();
    assert_eq!(e.position, FieldPosition::Hour);
    assert_eq!(e.kind, FieldErrorKind::ValueTooHigh);
}

#[test]
fn reboot_schedule_is_always_valid() {
    assert_eq!(Schedule::Reboot.validate(), Ok(()));
}

#[test]
fn crontab_validate_finds_first_bad_entry() {
    let tab = Crontab::parse("* * * * * fine\n61 * * * * bad\n").unwrap();
    let e = tab.validate().unwrap_err();
    assert_eq!(e.position, FieldPosition::Minute);
    assert_eq!(e.kind, FieldErrorKind::ValueTooHigh);

    let good = Crontab::parse("* * * * * fine\n@reboot also fine\n").unwrap();
    assert_eq!(good.validate(), Ok(()));
}
