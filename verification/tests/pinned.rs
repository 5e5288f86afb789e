use ulidgen::{millis_to_timestamp, resolve_timestamp, ResolveError};

#[test]
fn nothing_given_pins_nothing() {
    assert_eq!(resolve_timestamp(None, None), Ok(None));
}

#[test]
fn milliseconds_are_taken_as_given() {
    assert_eq!(resolve_timestamp(Some(0), None), Ok(Some(0)));
    assert_eq!(resolve_timestamp(Some(1469922850259), None), Ok(Some(1469922850259)));
    assert_eq!(resolve_timestamp(Some(u64::MAX), None), Ok(Some(u64::MAX)));
}

#[test]
fn milliseconds_win_over_a_datetime() {
    assert_eq!(resolve_timestamp(Some(5), Some("2016-07-30T23:54:10.259Z")), Ok(Some(5)));
    assert_eq!(resolve_timestamp(Some(5), Some("not a date")), Ok(Some(5)));
}

#[test]
fn datetime_is_parsed_as_rfc3339() {
    assert_eq!(resolve_timestamp(None, Some("1970-01-01T00:00:00Z")), Ok(Some(0)));
    assert_eq!(resolve_timestamp(None, Some("1970-01-01T00:00:01Z")), Ok(Some(1000)));
    assert_eq!(
        resolve_timestamp(None, Some("2016-07-30T23:54:10.259Z")),
        Ok(Some(1469922850259))
    );
    assert_eq!(
        resolve_timestamp(None, Some("2016-07-30T23:54:10.259+00:00")),
        Ok(Some(1469922850259))
    );
}

#[test]
fn datetime_offset_is_applied() {
    assert_eq!(resolve_timestamp(None, Some("1970-01-01T01:00:00+01:00")), Ok(Some(0)));
    assert_eq!(
        resolve_timestamp(None, Some("1969-12-31T23:00:00-01:00")),
        Ok(Some(0))
    );
    assert_eq!(
        resolve_timestamp(None, Some("2016-07-31T01:54:10.259+02:00")),
        Ok(Some(1469922850259))
    );
}

#[test]
fn datetime_fraction_is_cut_to_milliseconds() {
    assert_eq!(
        resolve_timestamp(None, Some("1970-01-01T00:00:00.123456789Z")),
        Ok(Some(123))
    );
}

#[test]
fn datetime_before_the_epoch_is_refused() {
    assert_eq!(
        resolve_timestamp(None, Some("1969-12-31T23:59:59.999Z")),
        Err(ResolveError::BeforeEpoch)
    );
    assert_eq!(
        resolve_timestamp(None, Some("1970-01-01T00:00:00+00:01")),
        Err(ResolveError::BeforeEpoch)
    );
    assert_eq!(
        resolve_timestamp(None, Some("0001-01-01T00:00:00Z")),
        Err(ResolveError::BeforeEpoch)
    );
}

#[test]
fn datetime_that_does_not_parse_is_refused() {
    for text in ["", "garbage", "2016-07-30", "2016-07-30T23:54:10", "2016-13-01T00:00:00Z",
        "2016-07-30T23:54:10.259Z trailing", "1469922850259"]
    {
        let r = resolve_timestamp(None, Some(text));
        assert!(matches!(r, Err(ResolveError::InvalidDatetime(_))), "{:?}", text);
    }
}

#[test]
fn parser_error_is_the_one_chrono_gives() {
    let theirs = chrono::DateTime::parse_from_rfc3339("garbage").unwrap_err();
    assert_eq!(
        resolve_timestamp(None, Some("garbage")),
        Err(ResolveError::InvalidDatetime(theirs))
    );
}

#[test]
fn largest_rfc3339_year_fits_in_48_bits() {
    let r = resolve_timestamp(None, Some("9999-12-31T23:59:59.999Z"));
    assert_eq!(r, Ok(Some(253402300799999)));
    assert!(253402300799999 <= ulidgen::MAX_TIMESTAMP);
}

#[test]
fn millis_to_timestamp_known_values() {
    assert_eq!(millis_to_timestamp(0), Ok(0));
    assert_eq!(millis_to_timestamp(1), Ok(1));
    assert_eq!(millis_to_timestamp(i64::MAX), Ok(i64::MAX as u64));
    assert_eq!(millis_to_timestamp(-1), Err(ResolveError::BeforeEpoch));
    assert_eq!(millis_to_timestamp(i64::MIN), Err(ResolveError::BeforeEpoch));
}
