use polarwarp::error::PolarWarpError;
use polarwarp::skip::{parse_skip_time, SkipTime};

#[test]
fn parse_seconds() {
    assert!(matches!(parse_skip_time("90s"), Ok(SkipTime::Seconds(90))));
    assert!(matches!(parse_skip_time("0s"), Ok(SkipTime::Seconds(0))));
}

#[test]
fn parse_minutes() {
    assert!(matches!(parse_skip_time("5m"), Ok(SkipTime::Minutes(5))));
    assert!(matches!(parse_skip_time("120m"), Ok(SkipTime::Minutes(120))));
}

#[test]
fn parse_largest_value() {
    assert!(matches!(
        parse_skip_time("18446744073709551615s"),
        Ok(SkipTime::Seconds(u64::MAX))
    ));
}

#[test]
fn parse_rejects_malformed() {
    for bad in ["", "90", "s", "m", "x90s", "90x", "9 0s", "90sm", "-5s", "5h"] {
        match parse_skip_time(bad) {
            Err(PolarWarpError::InvalidSkipTimeFormat(raw)) => assert_eq!(raw, bad),
            other => panic!("expected a format error for {:?}, got {:?}", bad, other),
        }
    }
}

#[test]
fn parse_rejects_overflow() {
    // One more than u64::MAX does not fit.
    assert!(matches!(
        parse_skip_time("18446744073709551616s"),
        Err(PolarWarpError::InvalidSkipTimeFormat(_))
    ));
}

#[test]
fn as_duration_converts_units() {
    assert_eq!(SkipTime::Seconds(90).as_duration().as_secs(), 90);
    assert_eq!(SkipTime::Minutes(5).as_duration().as_secs(), 300);
    assert_eq!(SkipTime::Seconds(0).as_duration().as_secs(), 0);
}
