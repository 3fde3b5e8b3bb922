//! Each shorthand token parses to exactly the five-field table it
//! abbreviates.

use crondy::schedule::Schedule;

fn assert_same_when(shorthand: &str, fields: &str) {
    let (_, a) = Schedule::parse(shorthand).unwrap();
    let (_, b) = Schedule::parse(fields).unwrap();
    assert_eq!(a, b);
}

#[test]
fn yearly_is_midnight_january_first() {
    assert_same_when("@yearly", "0 0 1 1 *");
}

#[test]
fn annually_is_midnight_january_first() {
    assert_same_when("@annually", "0 0 1 1 *");
}

#[test]
fn monthly_is_midnight_first_of_month() {
    assert_same_when("@monthly", "0 0 1 * *");
}

#[test]
fn weekly_is_midnight_sunday() {
    assert_same_when("@weekly", "0 0 * * 0");
}

#[test]
fn daily_is_midnight() {
    assert_same_when("@daily", "0 0 * * *");
}

#[test]
fn midnight_is_midnight() {
    assert_same_when("@midnight", "0 0 * * *");
}

#[test]
fn hourly_is_top_of_hour() {
    assert_same_when("@hourly", "0 * * * *");
}

#[test]
fn reboot_is_no_when() {
    let (rem, s) = Schedule::parse("@reboot").unwrap();
    assert_eq!(s, Schedule::Reboot);
    assert_eq!(rem, "");
}
