use crondy::crontab::parse_env;
use crondy::crontab::CrontabLine;

#[test]
fn parses_close_pairs() {
    let (rem, line) = parse_env("FOO=bar").unwrap();
    assert_eq!(line, CrontabLine::Env("FOO".to_string(), "bar".to_string()));
    assert_eq!(rem, "");
}

#[test]
fn parses_distant_pairs() {
    let (rem, line) = parse_env("FOO = bar").unwrap();
    assert_eq!(line, CrontabLine::Env("FOO".to_string(), "bar".to_string()));
    assert_eq!(rem, "");
}

#[test]
fn strips_trailing_whitespace_from_name() {
    let (rem, line) = parse_env("FOO =bar").unwrap();
    assert_eq!(line, CrontabLine::Env("FOO".to_string(), "bar".to_string()));
    assert_eq!(rem, "");
}

#[test]
fn strips_leading_whitespace_from_value() {
    let (rem, line) = parse_env("FOO= bar").unwrap();
    assert_eq!(line, CrontabLine::Env("FOO".to_string(), "bar".to_string()));
    assert_eq!(rem, "");
}

#[test]
fn preserves_trailing_whitespace_in_value() {
    let (rem, line) = parse_env("FOO=bar ").unwrap();
    assert_eq!(line, CrontabLine::Env("FOO".to_string(), "bar ".to_string()));
    assert_eq!(rem, "");
}

#[test]
fn preserves_spaces_in_value() {
    let (rem, line) = parse_env("FOO=bar baz").unwrap();
    assert_eq!(line, CrontabLine::Env("FOO".to_string(), "bar baz".to_string()));
    assert_eq!(rem, "");
}

#[test]
fn preserves_spaces_in_single_quotes() {
    let (rem, line) = parse_env("FOO=' baz'").unwrap();
    assert_eq!(line, CrontabLine::Env("FOO".to_string(), " baz".to_string()));
    assert_eq!(rem, "");
}

#[test]
fn preserves_spaces_in_double_quotes() {
    let (rem, line) = parse_env("FOO=\" baz\"").unwrap();
    assert_eq!(line, CrontabLine::Env("FOO".to_string(), " baz".to_string()));
    assert_eq!(rem, "");
}

#[test]
fn preserves_spaces_in_name() {
    let (rem, line) = parse_env("FOO BAR=baz").unwrap();
    assert_eq!(line, CrontabLine::Env("FOO BAR".to_string(), "baz".to_string()));
    assert_eq!(rem, "");
}
