use elasticnow::duration::{parse_duration, time_add_to_epoch, Duration, TimeError};

#[test]
fn test_time_add_to_epoch_basic() {
    assert_eq!(time_add_to_epoch("1h2m").unwrap(), "1970-01-01+01:02:00");
}

#[test]
fn test_time_add_to_epoch_too_many_hours() {
    assert_eq!(
        time_add_to_epoch("20h0m").unwrap_err().message(),
        "Invalid time format. Values must be below 20 for hours, 60 for minutes"
    );
}

#[test]
fn test_time_add_to_epoch_too_many_minutes() {
    assert_eq!(
        time_add_to_epoch("0h60m").unwrap_err().message(),
        "Invalid time format. Values must be below 20 for hours, 60 for minutes"
    );
}

#[test]
fn test_time_only_hour() {
    assert_eq!(time_add_to_epoch("1h").unwrap(), "1970-01-01+01:00:00");
}

#[test]
fn test_time_only_minute() {
    assert_eq!(time_add_to_epoch("1m").unwrap(), "1970-01-01+00:01:00");
}

#[test]
fn test_time_no_time() {
    assert_eq!(
        time_add_to_epoch("0h").unwrap_err().message(),
        "Time worked must be greater than 0 minutes"
    );
}

#[test]
fn test_time_zero_hours_and_minutes() {
    assert_eq!(
        time_add_to_epoch("0h0m").unwrap_err().message(),
        "Time worked must be greater than 0 minutes"
    );
    assert!(matches!(time_add_to_epoch("0h0m"), Err(TimeError::Zero)));
}

#[test]
fn test_time_format_errors() {
    for bad in ["abc", "h", "5", "5h6", "5m6h", "5hm", "1h 2m", "-1h", "1h2m3"] {
        let err = time_add_to_epoch(bad).unwrap_err();
        assert!(matches!(err, TimeError::Format), "input {:?}", bad);
        assert_eq!(
            err.message(),
            "Invalid time format. Please use optional hh and/or mm"
        );
    }
}

#[test]
fn test_time_range_errors() {
    assert!(matches!(
        time_add_to_epoch("20h"),
        Err(TimeError::Range {
            hours_bound: 20,
            minutes_bound: 60
        })
    ));
    assert!(matches!(
        time_add_to_epoch("1h60m"),
        Err(TimeError::Range { .. })
    ));
    // A value far past any ceiling is a range violation, not a format one.
    assert!(matches!(
        time_add_to_epoch("99999999999999999999999h"),
        Err(TimeError::Range { .. })
    ));
}

#[test]
fn test_time_leading_zeros_and_limits() {
    assert_eq!(time_add_to_epoch("019h059m").unwrap(), "1970-01-01+19:59:00");
    assert_eq!(time_add_to_epoch("19h59m").unwrap(), "1970-01-01+19:59:00");
}

#[test]
fn test_parse_duration_configured_ceiling() {
    assert_eq!(
        parse_duration("23h", 23).unwrap(),
        Duration {
            hours: 23,
            minutes: 0
        }
    );
    let err = parse_duration("24h", 23).unwrap_err();
    assert_eq!(
        err.message(),
        "Invalid time format. Values must be below 24 for hours, 60 for minutes"
    );
}

#[test]
fn test_time_empty_is_format_error() {
    // Omitting both segments is a grammar violation, not a zero duration.
    assert!(matches!(time_add_to_epoch(""), Err(TimeError::Format)));
    assert_eq!(
        time_add_to_epoch("").unwrap_err().message(),
        "Invalid time format. Please use optional hh and/or mm"
    );
}
