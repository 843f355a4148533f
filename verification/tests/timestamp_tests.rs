use chrono::{DateTime, Datelike, Timelike, Utc};
use simple_bitcoin::timestamp::Timestamp;
use std::str::FromStr;

fn parts(text: &str) -> Option<(u16, u8, u8, u8, u8, u8, u32)> {
    Timestamp::parse_rfc3339(text)
        .map(|t| (t.year, t.month, t.day, t.hour, t.minute, t.second, t.nanos))
}

#[test]
fn timestamps_are_read_field_by_field() {
    assert_eq!(parts("2022-03-09T12:00:00Z"), Some((2022, 3, 9, 12, 0, 0, 0)));
    assert_eq!(parts("0000-01-01T00:00:00Z"), Some((0, 1, 1, 0, 0, 0, 0)));
    assert_eq!(parts("9999-12-31T23:59:59.999999999Z"), Some((9999, 12, 31, 23, 59, 59, 999_999_999)));
    assert_eq!(parts("2022-03-09T12:00:00.5Z"), Some((2022, 3, 9, 12, 0, 0, 500_000_000)));
    assert_eq!(parts("2022-03-09T12:00:00.000000001Z"), Some((2022, 3, 9, 12, 0, 0, 1)));
    assert_eq!(parts("2022-03-09T12:00:00.0123Z"), Some((2022, 3, 9, 12, 0, 0, 12_300_000)));
    assert_eq!(parts("2024-02-29T00:00:00Z"), Some((2024, 2, 29, 0, 0, 0, 0)));
    assert_eq!(parts("2000-02-29T00:00:00Z"), Some((2000, 2, 29, 0, 0, 0, 0)));
}

#[test]
fn what_is_no_timestamp_is_not_read() {
    for text in [
        "",
        "2022-03-09",
        "2022-03-09T12:00:00",
        "2022-03-09 12:00:00Z",
        "2022-03-09T12:00:00.Z",
        "2022-03-09T12:00:00,5Z",
        "2022-03-09T12:00:0Z",
        "2022-3-09T12:00:00Z",
        "22022-03-09T12:00:00Z",
        "2022-00-09T12:00:00Z",
        "2022-13-09T12:00:00Z",
        "2022-03-00T12:00:00Z",
        "2022-03-32T12:00:00Z",
        "2022-04-31T12:00:00Z",
        "2023-02-29T12:00:00Z",
        "1900-02-29T12:00:00Z",
        "2022-03-09T24:00:00Z",
        "2022-03-09T12:60:00Z",
        "2022-03-09T12:00:60Z",
        "2022-03-09T12:00:00.5ZZ",
        "2022-03-09T12:00:00+24:00",
        "2022-03-09T12:00:00+00:60",
        "2022-03-09T12:00:00+0900",
        "2022-03-09T12:00:00+09",
        "2022-03-09T12:00:00+9:00",
        "2022-03-09T12:00:00 09:00",
        "2022-03-09T12:00:00+09-00",
        "2022-03-09T12:00:00.+09:00",
        "2022-03-09T12:00:00Z+09:00",
        "2022-03-09T12:00+09:00",
        "2022-03-09x12:00:00+09:00",
        "0000-01-01T00:00:00+00:01",
        "9999-12-31T23:59:59-00:01",
        "2022-03-09T12:00:00Zé",
        "２022-03-09T12:00:00Z",
    ] {
        assert_eq!(Timestamp::parse_rfc3339(text), None, "{}", text);
    }
}

#[test]
fn the_fraction_is_spelled_in_groups_of_three_digits() {
    let at = |nanos: u32| {
        Timestamp { year: 2022, month: 3, day: 9, hour: 1, minute: 2, second: 3, nanos }
            .to_rfc3339()
    };
    assert_eq!(at(0), "2022-03-09T01:02:03Z");
    assert_eq!(at(500_000_000), "2022-03-09T01:02:03.500Z");
    assert_eq!(at(1_000_000), "2022-03-09T01:02:03.001Z");
    assert_eq!(at(1_000), "2022-03-09T01:02:03.000001Z");
    assert_eq!(at(123_456_000), "2022-03-09T01:02:03.123456Z");
    assert_eq!(at(1), "2022-03-09T01:02:03.000000001Z");
    assert_eq!(at(999_999_999), "2022-03-09T01:02:03.999999999Z");
    assert_eq!(
        Timestamp { year: 7, month: 12, day: 31, hour: 23, minute: 59, second: 59, nanos: 0 }
            .to_rfc3339(),
        "0007-12-31T23:59:59Z"
    );
    assert_eq!(Timestamp::epoch().to_rfc3339(), "1970-01-01T00:00:00Z");
}

#[test]
fn timestamps_are_spelled_as_chrono_spells_them() {
    for text in [
        "2022-03-09T12:00:00Z",
        "2022-03-09T12:00:00.500Z",
        "2022-03-09T12:00:00.000250Z",
        "1999-12-31T23:59:59.123456789Z",
        "0001-01-01T00:00:00Z",
    ] {
        let moment: DateTime<Utc> = DateTime::from_str(text).unwrap();
        let ours = Timestamp::from_parts(
            moment.year(),
            moment.month(),
            moment.day(),
            moment.hour(),
            moment.minute(),
            moment.second(),
            moment.nanosecond(),
        )
        .unwrap();
        assert_eq!(ours.to_rfc3339(), text);
        assert_eq!(format!("{:?}", moment), text);
        assert_eq!(Timestamp::parse_rfc3339(text), Some(ours));
    }
}

#[test]
fn only_moments_are_made_from_parts() {
    assert!(Timestamp::from_parts(2022, 3, 9, 12, 0, 0, 0).is_some());
    assert_eq!(Timestamp::from_parts(-1, 3, 9, 12, 0, 0, 0), None);
    assert_eq!(Timestamp::from_parts(10000, 3, 9, 12, 0, 0, 0), None);
    assert_eq!(Timestamp::from_parts(2022, 0, 9, 12, 0, 0, 0), None);
    assert_eq!(Timestamp::from_parts(2022, 2, 29, 12, 0, 0, 0), None);
    assert_eq!(Timestamp::from_parts(2022, 3, 9, 24, 0, 0, 0), None);
    assert_eq!(Timestamp::from_parts(2022, 3, 9, 12, 60, 0, 0), None);
    assert_eq!(Timestamp::from_parts(2022, 3, 9, 12, 0, 60, 0), None);
    assert_eq!(Timestamp::from_parts(2022, 3, 9, 12, 0, 59, 1_000_000_000), None);
    assert!(Timestamp::epoch().is_valid());
    assert!(!Timestamp { year: 2022, month: 6, day: 31, hour: 0, minute: 0, second: 0, nanos: 0 }
        .is_valid());
}

#[test]
fn the_clock_is_read() {
    let before = Utc::now();
    let now = Timestamp::now();
    let after = Utc::now();
    assert!(now.is_valid());
    assert!(now.year as i32 >= before.year() && now.year as i32 <= after.year());
    assert_ne!(now, Timestamp::epoch());
    let text = now.to_rfc3339();
    let moment: DateTime<Utc> = DateTime::from_str(&text).unwrap();
    assert!(before <= moment && moment <= after);
}

#[test]
fn a_timestamp_is_read_in_the_zone_it_is_told_in() {
    let noon = Some((2022, 3, 9, 12, 0, 0, 0));
    assert_eq!(parts("2022-03-09T12:00:00z"), noon);
    assert_eq!(parts("2022-03-09t12:00:00Z"), noon);
    assert_eq!(parts("2022-03-09t12:00:00z"), noon);
    assert_eq!(parts("2022-03-09T12:00:00+00:00"), noon);
    assert_eq!(parts("2022-03-09T12:00:00-00:00"), noon);
    assert_eq!(parts("2022-03-09T21:00:00+09:00"), noon);
    assert_eq!(parts("2022-03-09T06:30:00-05:30"), noon);
    assert_eq!(parts("2022-03-10T11:59:00+23:59"), noon);
    assert_eq!(parts("2022-03-08T12:01:00-23:59"), noon);
    // Over midnight, the end of a month and the end of a year, both ways.
    assert_eq!(parts("2022-03-09T00:30:00+01:00"), Some((2022, 3, 8, 23, 30, 0, 0)));
    assert_eq!(parts("2022-03-01T00:00:00+00:01"), Some((2022, 2, 28, 23, 59, 0, 0)));
    assert_eq!(parts("2024-03-01T00:00:00+00:01"), Some((2024, 2, 29, 23, 59, 0, 0)));
    assert_eq!(parts("2022-05-01T00:00:00+00:01"), Some((2022, 4, 30, 23, 59, 0, 0)));
    assert_eq!(parts("2022-01-01T00:00:00+23:59"), Some((2021, 12, 31, 0, 1, 0, 0)));
    assert_eq!(parts("2022-12-31T23:00:00-01:00"), Some((2023, 1, 1, 0, 0, 0, 0)));
    assert_eq!(
        parts("2022-02-28T23:59:59.5-00:01"),
        Some((2022, 3, 1, 0, 0, 59, 500_000_000))
    );
    assert_eq!(parts("2024-02-28T23:59:59-00:01"), Some((2024, 2, 29, 0, 0, 59, 0)));
    assert_eq!(parts("0000-01-01T00:01:00+00:01"), Some((0, 1, 1, 0, 0, 0, 0)));
    assert_eq!(
        parts("9999-12-31T23:58:59.999999999-00:01"),
        Some((9999, 12, 31, 23, 59, 59, 999_999_999))
    );
    // Digits of the fraction behind the ninth are passed over.
    assert_eq!(parts("2022-03-09T12:00:00.0000000001Z"), noon);
    assert_eq!(
        parts("2022-03-09T12:00:00.12345678999+00:00"),
        Some((2022, 3, 9, 12, 0, 0, 123_456_789))
    );
}

#[test]
fn timestamps_are_read_as_chrono_reads_them() {
    for text in [
        "2022-03-09T12:00:00Z",
        "2022-03-09t12:00:00z",
        "2022-03-09T21:00:00+09:00",
        "2022-03-09T00:30:00+01:00",
        "2024-03-01T00:00:00+00:01",
        "2022-01-01T00:00:00+23:59",
        "2022-12-31T23:00:00.25-01:00",
        "2022-03-09T12:00:00.0000000001Z",
        "1999-12-31T23:59:59.123456789-12:00",
    ] {
        let moment: DateTime<Utc> = DateTime::from_str(text).unwrap();
        let ours = Timestamp::parse_rfc3339(text).unwrap();
        assert_eq!(
            (ours.year as i32, ours.month as u32, ours.day as u32),
            (moment.year(), moment.month(), moment.day()),
            "{}",
            text
        );
        assert_eq!(
            (ours.hour as u32, ours.minute as u32, ours.second as u32, ours.nanos),
            (moment.hour(), moment.minute(), moment.second(), moment.nanosecond()),
            "{}",
            text
        );
    }
}
