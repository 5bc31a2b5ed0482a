use chrono::{NaiveDate, NaiveDateTime, TimeZone, Utc};
use daplot::datetime::{
    date_to_seconds, seconds_to_date, whole_seconds, format_timestamp, included_rows, min_max, parse_datetime, row_mask, timestamp_from, TimeEncoding,
    Timestamp,
};

/// The seconds the point stands for, as the plot reads them.
fn seconds(t: Timestamp) -> f64 {
    let secs = t.nanos.div_euclid(1_000_000_000);
    let sub = t.nanos.rem_euclid(1_000_000_000);
    secs as f64 + sub as f64 / 1e9
}

/// The reference reading of a date/time text, in (possibly fractional)
/// unix seconds.
fn reference(s: &str) -> Option<f64> {
    if let Ok(dt) = chrono::DateTime::parse_from_rfc3339(s) {
        return Some(dt.timestamp() as f64 + dt.timestamp_subsec_nanos() as f64 / 1e9);
    }
    let formats = [
        "%Y-%m-%d %H:%M:%S%.f",
        "%Y-%m-%d %H:%M:%S",
        "%Y-%m-%dT%H:%M:%S%.f",
        "%Y-%m-%dT%H:%M:%S",
        "%m/%d/%Y %H:%M:%S",
        "%m/%d/%Y %H:%M",
        "%d/%m/%Y %H:%M:%S",
        "%d-%m-%Y %H:%M:%S",
    ];
    for f in formats {
        if let Ok(dt) = NaiveDateTime::parse_from_str(s, f) {
            let utc = Utc.from_utc_datetime(&dt);
            return Some(utc.timestamp() as f64 + utc.timestamp_subsec_nanos() as f64 / 1e9);
        }
    }
    for f in ["%Y-%m-%d", "%m/%d/%Y", "%d/%m/%Y", "%Y/%m/%d"] {
        if let Ok(d) = NaiveDate::parse_from_str(s, f) {
            if let Some(dt) = d.and_hms_opt(0, 0, 0) {
                return Some(Utc.from_utc_datetime(&dt).timestamp() as f64);
            }
        }
    }
    None
}

#[test]
fn parses_the_supported_formats() {
    let cases = [
        "2024-01-02T03:04:05Z",
        "2024-01-02T03:04:05.250+02:00",
        "2024-01-02 03:04:05",
        "2024-01-02 03:04:05.5",
        "2024-01-02T03:04:05",
        "01/02/2024 03:04:05",
        "01/02/2024 03:04",
        "25/12/2024 10:00:00",
        "25-12-2024 10:00:00",
        "2024-01-02",
        "01/02/2024",
        "25/12/2024",
        "2024/12/25",
        "1969-12-31",
        "not a date",
        "",
        "2024-13-45",
    ];
    for c in cases {
        let got = parse_datetime(c).map(seconds);
        assert_eq!(got, reference(c), "case {:?}", c);
    }
}

#[test]
fn exact_values() {
    assert_eq!(parse_datetime("1970-01-02"), Some(Timestamp { nanos: 86_400_000_000_000 }));
    assert_eq!(
        parse_datetime("1970-01-01T00:00:01.5Z"),
        Some(Timestamp { nanos: 1_500_000_000 })
    );
    // a naive date-time keeps its fractional seconds too
    assert_eq!(
        parse_datetime("1970-01-01 00:00:01.5"),
        Some(Timestamp { nanos: 1_500_000_000 })
    );
    assert_eq!(
        parse_datetime("1969-12-31T23:59:59.25"),
        Some(Timestamp { nanos: -750_000_000 })
    );
    assert_eq!(parse_datetime("tomorrow"), None);
}

#[test]
fn unit_conversions() {
    assert_eq!(Timestamp::from_days(1).nanos, 86_400_000_000_000);
    assert_eq!(Timestamp::from_days(-1).nanos, -86_400_000_000_000);
    assert_eq!(Timestamp::from_millis(-1).nanos, -1_000_000);
    assert_eq!(Timestamp::from_micros(1_500_000).nanos, 1_500_000_000);
    assert_eq!(Timestamp::from_nanos(7).nanos, 7);
    assert_eq!(Timestamp::from_seconds(2).nanos, 2_000_000_000);
    assert_eq!(Timestamp::from_parts(1, 5).nanos, 1_000_000_005);
    assert_eq!(Timestamp::from_millis(-1).nanos as f64 / 1e9, -0.001);
}

#[test]
fn min_max_skips_missing_values() {
    let t = |s: i64| Some(Timestamp::from_seconds(s));
    assert_eq!(
        min_max(&[None, t(5), t(-3), None, t(9)]),
        (Timestamp::from_seconds(-3), Timestamp::from_seconds(9))
    );
    assert_eq!(min_max(&[t(4)]), (Timestamp::from_seconds(4), Timestamp::from_seconds(4)));
}

#[test]
fn min_max_of_nothing_is_the_epoch() {
    assert_eq!(min_max(&[]), (Timestamp::epoch(), Timestamp::epoch()));
    assert_eq!(min_max(&[None, None]), (Timestamp::epoch(), Timestamp::epoch()));
}

#[test]
fn row_mask_includes_the_whole_end_day() {
    let day = 86_400;
    let vals = [
        Some(Timestamp::from_seconds(day - 1)),
        Some(Timestamp::from_seconds(day)),
        Some(Timestamp::from_parts(3 * day - 1, 999_999_999)),
        Some(Timestamp::from_seconds(3 * day)),
        None,
    ];
    assert_eq!(row_mask(&vals, day, 2 * day), vec![false, true, true, false, false]);
}

#[test]
fn included_rows_follow_the_mask() {
    assert_eq!(included_rows(3, None), vec![0, 1, 2]);
    let mask = vec![true, false];
    // rows past the mask's end are kept
    assert_eq!(included_rows(4, Some(&mask)), vec![0, 2, 3]);
    assert_eq!(included_rows(0, Some(&mask)), Vec::<usize>::new());
}

#[test]
fn tick_labels_drop_midnight() {

    assert_eq!(format_timestamp(0), "1970-01-01");
    assert_eq!(format_timestamp(3661), "1970-01-01 01:01:01");
    assert_eq!(format_timestamp(-1), "1969-12-31 23:59:59");
    assert_eq!(format_timestamp(-86_400), "1969-12-31");
    assert_eq!(format_timestamp(1_700_000_000), "2023-11-14 22:13:20");
    assert_eq!(format_timestamp(i64::MAX), "");
}

#[test]
fn stored_time_units_become_nanoseconds() {
    assert_eq!(timestamp_from(TimeEncoding::Date32Days, 2).nanos, 2 * 86_400_000_000_000);
    assert_eq!(timestamp_from(TimeEncoding::Date32Days, -1).nanos, -86_400_000_000_000);
    assert_eq!(timestamp_from(TimeEncoding::Date64Millis, 1_500).nanos, 1_500_000_000);
    assert_eq!(timestamp_from(TimeEncoding::Seconds, 3).nanos, 3_000_000_000);
    assert_eq!(timestamp_from(TimeEncoding::Millis, -7).nanos, -7_000_000);
    assert_eq!(timestamp_from(TimeEncoding::Micros, 42).nanos, 42_000);
    assert_eq!(timestamp_from(TimeEncoding::Nanos, 9).nanos, 9);
    assert_eq!(
        timestamp_from(TimeEncoding::Seconds, i64::MAX).nanos,
        i64::MAX as i128 * 1_000_000_000
    );
}

#[test]
fn calendar_days_of_points_in_time() {
    assert_eq!(whole_seconds(Timestamp { nanos: 1_500_000_000 }), 1);
    assert_eq!(whole_seconds(Timestamp { nanos: -1 }), -1);
    assert_eq!(whole_seconds(Timestamp { nanos: -1_000_000_000 }), -1);
    assert_eq!(whole_seconds(Timestamp { nanos: i128::MAX }), i64::MAX);
    assert_eq!(whole_seconds(Timestamp { nanos: i128::MIN }), i64::MIN);
    assert_eq!(seconds_to_date(Timestamp { nanos: 0 }), Some((1970, 1, 1)));
    assert_eq!(seconds_to_date(Timestamp { nanos: -1 }), Some((1969, 12, 31)));
    assert_eq!(
        seconds_to_date(Timestamp::from_seconds(1_735_084_800 + 86_399)),
        Some((2024, 12, 25))
    );
    assert_eq!(seconds_to_date(Timestamp { nanos: i128::MAX }), None);
    assert_eq!(date_to_seconds(2024, 12, 25), Some(1_735_084_800));
    assert_eq!(date_to_seconds(1969, 12, 31), Some(-86_400));
    assert_eq!(date_to_seconds(2024, 2, 30), None);
    assert_eq!(date_to_seconds(2023, 13, 1), None);
}
