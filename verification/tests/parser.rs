use calendar_timeline::timestamp::parse_timestamp;

#[test]
fn date_only_is_midnight_utc() {
    let r = parse_timestamp("2024-03-10").unwrap();
    assert_eq!(r.secs, 1710028800);
}

#[test]
fn date_only_epoch() {
    let r = parse_timestamp("1970-01-01").unwrap();
    assert_eq!(r.secs, 0);
}

#[test]
fn date_only_before_epoch() {
    let r = parse_timestamp("1969-12-31").unwrap();
    assert_eq!(r.secs, -86400);
}

#[test]
fn datetime_utc_marker() {
    let r = parse_timestamp("2024-01-01T09:00:00Z").unwrap();
    assert_eq!(r.secs, 1704099600);
}

#[test]
fn datetime_implicit_offset_is_utc() {
    let r = parse_timestamp("2024-01-01T09:00:00").unwrap();
    assert_eq!(r.secs, 1704099600);
}

#[test]
fn datetime_positive_offset() {
    // 09:00 at +02:00 is 07:00 UTC.
    let r = parse_timestamp("2024-01-01T09:00:00+02:00").unwrap();
    assert_eq!(r.secs, 1704092400);
}

#[test]
fn datetime_negative_offset() {
    // 09:00 at -05:30 is 14:30 UTC.
    let r = parse_timestamp("2024-01-01T09:00:00-05:30").unwrap();
    assert_eq!(r.secs, 1704099600 + 5 * 3600 + 1800);
}

#[test]
fn leap_day_accepted() {
    let r = parse_timestamp("2024-02-29").unwrap();
    assert_eq!(r.secs, 1709164800);
}

#[test]
fn leap_day_rejected_off_leap_year() {
    assert!(parse_timestamp("2023-02-29").is_none());
}

#[test]
fn century_leap_rule() {
    // 1900 is not a leap year; 2000 is.
    assert!(parse_timestamp("1900-02-29").is_none());
    assert!(parse_timestamp("2000-02-29").is_some());
}

#[test]
fn malformed_dates_rejected() {
    assert!(parse_timestamp("2024-13-01").is_none());
    assert!(parse_timestamp("2024-00-10").is_none());
    assert!(parse_timestamp("2024-04-31").is_none());
    assert!(parse_timestamp("garbage").is_none());
    assert!(parse_timestamp("").is_none());
    assert!(parse_timestamp("2024/03/10").is_none());
}

#[test]
fn fractional_seconds_rejected() {
    assert!(parse_timestamp("2024-01-01T09:00:00.5Z").is_none());
}

#[test]
fn malformed_datetimes_rejected() {
    assert!(parse_timestamp("2024-01-01T24:00:00Z").is_none());
    assert!(parse_timestamp("2024-01-01T09:60:00Z").is_none());
    assert!(parse_timestamp("2024-01-01T09:00:60Z").is_none());
    assert!(parse_timestamp("2024-01-01T09:00:00+2:00").is_none());
    assert!(parse_timestamp("2024-01-01T09:00:00X").is_none());
}
