use crondy::crontab::parse_comment;
use crondy::crontab::parse_entry;
use crondy::crontab::parse_env;
use crondy::crontab::parse_line;
use crondy::crontab::Crontab;
use crondy::crontab::CrontabLine;

#[test]
fn parse_crontab_blanks() {
    assert!(Crontab::parse("").is_ok())
}

#[test]
fn parse_crontab_empty_lines() {
    assert!(Crontab::parse("  \n  \n").is_ok())
}

#[test]
fn parse_crontab_comment_and_schedule() {
    let tab = Crontab::parse("\n# Howdy pardner\n* * * * * this is a command\n").unwrap();
    assert!(tab.entries.len() == 1)
}

#[test]
fn parse_crontab_applies_env_to_later_schedules() {
    let tab = Crontab::parse("* * * * * first\nFOO = BAR\n* * * * 3 second").unwrap();
    assert_eq!(tab.entries[0].envp, Vec::<String>::new());
    assert_eq!(tab.entries[1].envp, vec!["FOO=BAR".to_owned()]);
}

#[test]
fn parse_line_nothing() {
    let (rem, line) = parse_line("");
    assert_eq!(line, None);
    assert_eq!(rem, "");
}

#[test]
fn parse_line_blanks() {
    let (rem, line) = parse_line(" \t");
    assert_eq!(line, None);
    assert_eq!(rem, "");
}

#[test]
fn parse_line_stops_at_newline_after_nothing() {
    let (rem, line) = parse_line("\n");
    assert_eq!(line, None);
    assert_eq!(rem, "\n");
}

#[test]
fn parse_line_stops_at_newline_after_blanks() {
    let (rem, line) = parse_line("  \n");
    assert_eq!(line, None);
    assert_eq!(rem, "\n");
}

#[test]
fn parse_entry_all_stars() {
    let (rem, entry) = parse_entry("* * * * * this is a command").unwrap();
    assert_eq!(rem, "");
    assert_eq!(entry.cmd, " this is a command".to_owned());
}

#[test]
fn parse_env_parses_close_pairs() {
    let (rem, line) = parse_env("FOO=bar").unwrap();
    assert_eq!(line, CrontabLine::Env("FOO".to_string(), "bar".to_string()));
    assert_eq!(rem, "");
}

#[test]
fn parse_env_parses_distant_pairs() {
    let (rem, line) = parse_env("FOO = bar").unwrap();
    assert_eq!(line, CrontabLine::Env("FOO".to_string(), "bar".to_string()));
    assert_eq!(rem, "");
}

#[test]
fn parse_env_strips_trailing_whitespace_from_name() {
    let (rem, line) = parse_env("FOO =bar").unwrap();
    assert_eq!(line, CrontabLine::Env("FOO".to_string(), "bar".to_string()));
    assert_eq!(rem, "");
}

#[test]
fn parse_env_strips_leading_whitespace_from_value() {
    let (rem, line) = parse_env("FOO= bar").unwrap();
    assert_eq!(line, CrontabLine::Env("FOO".to_string(), "bar".to_string()));
    assert_eq!(rem, "");
}

#[test]
fn parse_env_preserves_trailing_whitespace_in_value() {
    let (rem, line) = parse_env("FOO=bar ").unwrap();
    assert_eq!(line, CrontabLine::Env("FOO".to_string(), "bar ".to_string()));
    assert_eq!(rem, "");
}

#[test]
fn parse_env_preserves_spaces_in_value() {
    let (rem, line) = parse_env("FOO=bar baz").unwrap();
    assert_eq!(line, CrontabLine::Env("FOO".to_string(), "bar baz".to_string()));
    assert_eq!(rem, "");
}

#[test]
fn parse_env_preserves_spaces_in_single_quotes() {
    let (rem, line) = parse_env("FOO=' baz'").unwrap();
    assert_eq!(line, CrontabLine::Env("FOO".to_string(), " baz".to_string()));
    assert_eq!(rem, "");
}

#[test]
fn parse_env_preserves_spaces_in_double_quotes() {
    let (rem, line) = parse_env("FOO=\" baz\"").unwrap();
    assert_eq!(line, CrontabLine::Env("FOO".to_string(), " baz".to_string()));
    assert_eq!(rem, "");
}

#[test]
fn parse_env_preserves_spaces_in_name() {
    let (rem, line) = parse_env("FOO BAR=baz").unwrap();
    assert_eq!(line, CrontabLine::Env("FOO BAR".to_string(), "baz".to_string()));
    assert_eq!(rem, "");
}

#[test]
fn parse_comment_hash() {
    let (rem, text) = parse_comment("#").unwrap();
    assert_eq!(text, "");
    assert_eq!(rem, "");
}

#[test]
fn parse_comment_garbage() {
    let (rem, text) = parse_comment("# trash here").unwrap();
    assert_eq!(text, " trash here");
    assert_eq!(rem, "");
}

#[test]
fn single_quote_alone_is_no_pair() {
    let (_, line) = parse_env("X='").unwrap();
    assert_eq!(line, CrontabLine::Env("X".to_string(), "'".to_string()));
}

#[test]
fn crontab_drops_unparseable_lines() {
    let tab = Crontab::parse("not a line\n* * * * * ok\n").unwrap();
    assert_eq!(tab.entries.len(), 1);
    assert_eq!(tab.entries[0].cmd, " ok");
}

#[test]
fn crontab_accumulates_duplicate_env() {
    let tab = Crontab::parse("A=1\nA=2\n* * * * * cmd\n").unwrap();
    assert_eq!(
        tab.entries[0].envp,
        vec!["A=1".to_owned(), "A=2".to_owned()]
    );
}

#[test]
fn crontab_allows_leading_whitespace_before_schedule() {
    let tab = Crontab::parse("  * * * * * indented\n").unwrap();
    assert_eq!(tab.entries.len(), 1);
    assert_eq!(tab.entries[0].cmd, " indented");
}

#[test]
fn command_may_start_with_a_field_shaped_word() {
    let tab = Crontab::parse("* * * * * 6 echo hi\n0 0 1 1 * 7z a backup\n").unwrap();
    assert_eq!(tab.entries.len(), 2);
    assert_eq!(tab.entries[0].cmd, " 6 echo hi");
    assert_eq!(tab.entries[1].cmd, " 7z a backup");
}

#[test]
fn crontab_handles_crlf_lines() {
    let tab = Crontab::parse("* * * * * one\r\n* * * * * two\r\n").unwrap();
    assert_eq!(tab.entries.len(), 2);
    assert_eq!(tab.entries[0].cmd, " one");
    assert_eq!(tab.entries[1].cmd, " two");
}
