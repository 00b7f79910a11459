use countdown::parse::{parse_duration, DurationParseError, TimeUnit};
use countdown::timer::TimeoutDuration;

#[test]
fn test_success() {
    assert_eq!(parse_duration("1h").unwrap(), TimeoutDuration::new(1, 0, 0));
    assert_eq!(parse_duration("1m").unwrap(), TimeoutDuration::new(0, 1, 0));
    assert_eq!(parse_duration("1s").unwrap(), TimeoutDuration::new(0, 0, 1));
    assert_eq!(
        parse_duration("1h15m").unwrap(),
        TimeoutDuration::new(1, 15, 0)
    );
    assert_eq!(
        parse_duration("1h15m60s").unwrap(),
        TimeoutDuration::new(1, 15, 60)
    );
}

#[test]
fn test_fail() {
    assert!(parse_duration("h").is_err());
    assert!(parse_duration("30h").is_err());
    assert!(parse_duration("1h1h").is_err());
    assert!(parse_duration("0h0s").is_err());
}

#[test]
fn units_in_any_order_and_case() {
    assert_eq!(parse_duration("15m1h").unwrap(), TimeoutDuration::new(1, 15, 0));
    assert_eq!(parse_duration("30S2H5m").unwrap(), TimeoutDuration::new(2, 5, 30));
    assert_eq!(parse_duration("1H15M30S").unwrap(), TimeoutDuration::new(1, 15, 30));
    assert_eq!(parse_duration("90m").unwrap(), TimeoutDuration::new(0, 90, 0));
}

#[test]
fn surrounding_white_space_is_ignored() {
    assert_eq!(parse_duration("  1h15m \t\n").unwrap(), TimeoutDuration::new(1, 15, 0));
    assert!(matches!(
        parse_duration("1h 15m"),
        Err(DurationParseError::UnknownCharacter { found: ' ', .. })
    ));
}

#[test]
fn unit_without_number_is_rejected() {
    assert!(matches!(
        parse_duration("h"),
        Err(DurationParseError::MissingNumber(TimeUnit::Hour))
    ));
    assert!(matches!(
        parse_duration("1mh"),
        Err(DurationParseError::MissingNumber(TimeUnit::Hour))
    ));
}

#[test]
fn number_without_unit_is_rejected() {
    assert!(matches!(parse_duration("1h5"), Err(DurationParseError::MissingUnit)));
    assert!(matches!(parse_duration("10"), Err(DurationParseError::MissingUnit)));
}

#[test]
fn duplicate_unit_is_rejected() {
    assert!(matches!(parse_duration("1h1h"), Err(DurationParseError::DuplicateUnit)));
    assert!(matches!(parse_duration("5s1m5s"), Err(DurationParseError::DuplicateUnit)));
    // a field that is still zero may be written again
    assert_eq!(parse_duration("0h1h").unwrap(), TimeoutDuration::new(1, 0, 0));
}

#[test]
fn zero_total_is_rejected() {
    assert!(matches!(parse_duration("0h0s"), Err(DurationParseError::ZeroDuration)));
    assert!(matches!(parse_duration(""), Err(DurationParseError::ZeroDuration)));
    assert!(matches!(parse_duration("   "), Err(DurationParseError::ZeroDuration)));
}

#[test]
fn range_boundary() {
    let day = parse_duration("24h").unwrap();
    assert_eq!(day, TimeoutDuration::new(24, 0, 0));
    assert_eq!(day.total_seconds(), 86400);
    assert_eq!(parse_duration("86400s").unwrap(), TimeoutDuration::new(0, 0, 86400));
    assert!(matches!(parse_duration("86401s"), Err(DurationParseError::OverLimit)));
    assert!(matches!(parse_duration("24h1s"), Err(DurationParseError::OverLimit)));
    assert!(matches!(parse_duration("30h"), Err(DurationParseError::OverLimit)));
}

#[test]
fn huge_numbers_are_over_the_limit() {
    assert!(matches!(
        parse_duration("99999999999999999999999999s"),
        Err(DurationParseError::OverLimit)
    ));
    assert!(matches!(
        parse_duration("1s99999999999999999999h"),
        Err(DurationParseError::OverLimit)
    ));
    assert_eq!(parse_duration("0000000000000000000001s").unwrap(), TimeoutDuration::new(0, 0, 1));
}

#[test]
fn unknown_character_echoes_input() {
    let err = parse_duration(" 1x ").unwrap_err();
    match &err {
        DurationParseError::UnknownCharacter { found, input } => {
            assert_eq!(*found, 'x');
            assert_eq!(input, " 1x ");
        }
        other => panic!("unexpected error {:?}", other),
    }
    assert_eq!(err.message(), "unknown character `x` when try to parse ` 1x `");
    // the stray character wins over assembly errors that come later
    assert!(matches!(
        parse_duration("1h1h?"),
        Err(DurationParseError::UnknownCharacter { found: '?', .. })
    ));
}

#[test]
fn error_messages() {
    assert_eq!(
        parse_duration("m").unwrap_err().message(),
        "Parse Error: A number should added before `Minute`"
    );
    assert_eq!(
        parse_duration("1s1s").unwrap_err().message(),
        "Parse Error: Should not have more than one hour block"
    );
    assert_eq!(
        parse_duration("0s").unwrap_err().message(),
        "Invalid: initial duration should not be zero"
    );
    assert_eq!(
        parse_duration("25h").unwrap_err().message(),
        "Invalid: Cannot have a time that is greater than 24 hours"
    );
    assert_eq!(
        parse_duration("12").unwrap_err().message(),
        "Parse Error: A unit should follow the last number"
    );
}
