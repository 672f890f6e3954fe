use unwrapped::dates::{epoch_days_of, parse_played_at, parse_release_date, Date};

#[test]
fn parses_a_plain_calendar_date() {
    let d = parse_release_date("2024-08-13").unwrap();
    assert_eq!(d, Date { year: 2024, month: 8, day: 13 });
}

#[test]
fn parses_the_epoch_date() {
    let d = parse_release_date("1970-01-01").unwrap();
    assert_eq!(d, Date { year: 1970, month: 1, day: 1 });
}

#[test]
fn rejects_a_malformed_date() {
    assert!(parse_release_date("not-a-date").is_err());
}

#[test]
fn rejects_wrong_separators_and_lengths() {
    assert!(parse_release_date("2024/08/13").is_err());
    assert!(parse_release_date("2024-8-13").is_err());
    assert!(parse_release_date("2024-08-1").is_err());
    assert!(parse_release_date("2024-08-130").is_err());
    assert!(parse_release_date("").is_err());
}

#[test]
fn rejects_out_of_range_fields() {
    assert!(parse_release_date("2024-00-10").is_err());
    assert!(parse_release_date("2024-13-10").is_err());
    assert!(parse_release_date("2024-04-31").is_err());
    assert!(parse_release_date("2024-01-00").is_err());
}

#[test]
fn knows_leap_years() {
    assert!(parse_release_date("2024-02-29").is_ok());
    assert!(parse_release_date("2023-02-29").is_err());
    assert!(parse_release_date("2000-02-29").is_ok());
    assert!(parse_release_date("1900-02-29").is_err());
}

#[test]
fn counts_days_from_the_epoch() {
    assert_eq!(epoch_days_of(&Date { year: 1970, month: 1, day: 1 }), 0);
    assert_eq!(epoch_days_of(&Date { year: 1970, month: 1, day: 2 }), 1);
    assert_eq!(epoch_days_of(&Date { year: 1969, month: 12, day: 31 }), -1);
    assert_eq!(epoch_days_of(&Date { year: 2000, month: 3, day: 1 }), 11017);
    assert_eq!(epoch_days_of(&Date { year: 2024, month: 1, day: 1 }), 19723);
}

#[test]
fn parses_a_utc_timestamp() {
    assert_eq!(parse_played_at("2024-01-01T00:00:00Z").unwrap(), 1704067200);
    assert_eq!(parse_played_at("2024-01-01T00:05:00Z").unwrap(), 1704067500);
    assert_eq!(parse_played_at("1999-12-31T23:59:59Z").unwrap(), 946684799);
}

#[test]
fn accepts_lower_case_designators() {
    assert_eq!(parse_played_at("2024-01-01t00:00:00z").unwrap(), 1704067200);
}

#[test]
fn normalizes_offsets_to_utc() {
    assert_eq!(parse_played_at("2024-01-01T01:00:00+01:00").unwrap(), 1704067200);
    assert_eq!(parse_played_at("2023-12-31T19:00:00-05:00").unwrap(), 1704067200);
    assert_eq!(parse_played_at("2000-02-29T12:00:00+00:00").unwrap(), 951825600);
}

#[test]
fn truncates_fractional_seconds() {
    assert_eq!(parse_played_at("2024-01-01T00:00:00.999Z").unwrap(), 1704067200);
    assert_eq!(parse_played_at("2024-01-01T00:00:00.1Z").unwrap(), 1704067200);
}

#[test]
fn handles_instants_before_the_epoch() {
    assert_eq!(parse_played_at("1969-12-31T23:00:00Z").unwrap(), -3600);
    assert_eq!(parse_played_at("1970-01-01T00:00:00+01:00").unwrap(), -3600);
}

#[test]
fn rejects_malformed_timestamps() {
    assert!(parse_played_at("not-a-timestamp").is_err());
    assert!(parse_played_at("2024-01-01 00:00:00Z").is_err());
    assert!(parse_played_at("2024-01-01T00:00:00").is_err());
    assert!(parse_played_at("2024-01-01T24:00:00Z").is_err());
    assert!(parse_played_at("2024-01-01T00:60:00Z").is_err());
    assert!(parse_played_at("2024-01-01T00:00:60Z").is_err());
    assert!(parse_played_at("2024-01-01T00:00:00.Z").is_err());
    assert!(parse_played_at("2024-01-01T00:00:00Zz").is_err());
    assert!(parse_played_at("2024-01-01T00:00:00+24:00").is_err());
    assert!(parse_played_at("2024-01-01T00:00:00+01:60").is_err());
    assert!(parse_played_at("2024-01-01T00:00:00+0100").is_err());
    assert!(parse_played_at("2024-02-30T00:00:00Z").is_err());
}
