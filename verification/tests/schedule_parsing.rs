use crondy::parse::parse_field;
use crondy::parse::parse_when;
use crondy::schedule::Field;
use crondy::schedule::Schedule;
use crondy::schedule::When;

#[test]
fn parses_all_stars() {
    let (rem, w) = parse_when("* * * * * ").unwrap();
    assert_eq!(
        w,
        When {
            minute: Field::Star(None),
            hour: Field::Star(None),
            day_of_month: Field::Star(None),
            month: Field::Star(None),
            day_of_week: Field::Star(None)
        }
    );
    assert_eq!(rem, " ");
}

#[test]
fn single_char_value() {
    let (rem, f) = parse_field("9 ").unwrap();
    assert_eq!(f, Field::Value(9));
    assert_eq!(rem, " ");
}

#[test]
fn multi_char_value() {
    let (rem, f) = parse_field("1234 ").unwrap();
    assert_eq!(f, Field::Value(1234));
    assert_eq!(rem, " ");
}

#[test]
fn plain_star() {
    let (rem, f) = parse_field("* ").unwrap();
    assert_eq!(f, Field::Star(None));
    assert_eq!(rem, " ");
}

#[test]
fn step_star() {
    let (rem, f) = parse_field("*/78 ").unwrap();
    assert_eq!(f, Field::Star(Some(78)));
    assert_eq!(rem, " ");
}

#[test]
fn star_with_space() {
    let (rem, f) = parse_field("* *").unwrap();
    assert_eq!(f, Field::Star(None));
    assert_eq!(rem, " *");
}

#[test]
fn range() {
    let (rem, f) = parse_field("4-5 ").unwrap();
    assert_eq!(f, Field::Range(4, 5, None));
    assert_eq!(rem, " ");
}

#[test]
fn range_with_step() {
    let (rem, f) = parse_field("23-5/40 ").unwrap();
    assert_eq!(f, Field::Range(23, 5, Some(40)));
    assert_eq!(rem, " ");
}

#[test]
fn list() {
    let (rem, f) = parse_field("1,2,3 ").unwrap();
    assert_eq!(f, Field::List(vec![(1, None), (2, None), (3, None)]));
    assert_eq!(rem, " ");
}

#[test]
fn range_list() {
    let (rem, f) = parse_field("1-4,2-5,3-6,7 ").unwrap();
    assert_eq!(
        f,
        Field::List(vec![(1, Some(4)), (2, Some(5)), (3, Some(6)), (7, None)])
    );
    assert_eq!(rem, " ");
}

#[test]
fn field_rejects_garbage() {
    assert!(parse_field("x").is_err());
    assert!(parse_field("").is_err());
    assert!(parse_field("-5").is_err());
}

#[test]
fn field_rejects_oversized_number() {
    // usize::from_str would overflow, so the token is no field at all.
    assert!(parse_field("99999999999999999999999999").is_err());
}

#[test]
fn star_with_bad_step_stops_at_slash() {
    let (rem, f) = parse_field("*/x ").unwrap();
    assert_eq!(f, Field::Star(None));
    assert_eq!(rem, "/x ");
}

#[test]
fn when_needs_five_fields() {
    assert!(parse_when("* * * *").is_err());
    assert!(parse_when("").is_err());
}

#[test]
fn when_stops_after_the_fifth_field() {
    // a sixth field-shaped token is never consumed: it is command text
    let (rem, w) = parse_when("* * * * * *").unwrap();
    assert_eq!(
        w,
        When {
            minute: Field::Star(None),
            hour: Field::Star(None),
            day_of_month: Field::Star(None),
            month: Field::Star(None),
            day_of_week: Field::Star(None)
        }
    );
    assert_eq!(rem, " *");

    let (rem, _) = parse_when("* * * * * 6 echo hi").unwrap();
    assert_eq!(rem, " 6 echo hi");
}

#[test]
fn schedule_reboot() {
    let (rem, s) = Schedule::parse("@reboot echo hi").unwrap();
    assert_eq!(s, Schedule::Reboot);
    assert_eq!(rem, " echo hi");
}

#[test]
fn schedule_falls_through_to_fields() {
    let (rem, s) = Schedule::parse("5 4 * * 0 cmd").unwrap();
    assert_eq!(
        s,
        Schedule::When(When {
            minute: Field::Value(5),
            hour: Field::Value(4),
            day_of_month: Field::Star(None),
            month: Field::Star(None),
            day_of_week: Field::Value(0)
        })
    );
    assert_eq!(rem, " cmd");
}
