use loomix::duration::parse_duration;
use std::time::Duration;

fn parsed(s: &str) -> Result<Duration, String> {
    let length = parse_duration(s)?;
    let value: f64 = length.number.parse().unwrap();
    Ok(Duration::from_secs_f64(
        value * length.seconds_per_unit as f64,
    ))
}

#[test]
fn parses_bare_or_explicit_seconds() {
    assert_eq!(parsed("5").unwrap(), Duration::from_secs(5));
    assert_eq!(parsed("5s").unwrap(), Duration::from_secs(5));
}

#[test]
fn parses_minutes_and_hours() {
    assert_eq!(parsed("30m").unwrap(), Duration::from_secs(1800));
    assert_eq!(parsed("2h").unwrap(), Duration::from_secs(7200));
}

#[test]
fn parses_a_fractional_value() {
    assert_eq!(parsed("0.5h").unwrap(), Duration::from_secs(1800));
}

#[test]
fn rejects_an_unknown_unit() {
    assert!(parsed("5x").is_err());
}

#[test]
fn rejects_a_non_numeric_value() {
    assert!(parsed("abc").is_err());
}

#[test]
fn rejects_an_empty_string() {
    assert!(parsed("").is_err());
}

#[test]
fn a_sign_and_a_bare_point_are_accepted_where_a_digit_stands() {
    assert_eq!(parsed("+5").unwrap(), Duration::from_secs(5));
    assert_eq!(parsed(".5m").unwrap(), Duration::from_secs(30));
    assert_eq!(parsed("5.").unwrap(), Duration::from_secs(5));
    assert_eq!(parsed("-0").unwrap(), Duration::from_secs(0));
    assert!(parsed(".").is_err());
    assert!(parsed("+").is_err());
    assert!(parsed("1.2.3").is_err());
    assert!(parsed("+-1").is_err());
    assert!(parsed(" 5").is_err());
}

#[test]
fn the_messages_name_what_was_wrong() {
    assert_eq!(
        parsed("abc").unwrap_err(),
        "bad duration 'abc', expected e.g. 30m, 1800s, 2h, 0.5h"
    );
    assert_eq!(
        parsed("5min").unwrap_err(),
        "unknown duration unit 'min', expected s, m or h"
    );
    // A bad number is reported before a bad unit.
    assert_eq!(
        parsed("?q").unwrap_err(),
        "bad duration '?q', expected e.g. 30m, 1800s, 2h, 0.5h"
    );
}

#[test]
fn a_letter_outside_ascii_ends_the_number_and_a_sign_outside_it_does_not() {
    assert_eq!(
        parsed("5\u{e9}").unwrap_err(),
        "unknown duration unit '\u{e9}', expected s, m or h"
    );
    assert_eq!(
        parsed("5\u{20ac}").unwrap_err(),
        "bad duration '5\u{20ac}', expected e.g. 30m, 1800s, 2h, 0.5h"
    );
}
