use gps_sdr::civil::{names_current_time, parse_start_time, utc_label_from_instant};
use gps_sdr::error::Error;
use gps_sdr::gps_time::CalendarLabel;

fn utc_label(year: i32, month: i32, day: i32, hour: i32, minute: i32, second: i32) -> CalendarLabel {
    CalendarLabel { year, month, day, hour, minute, second }
}

#[test]
fn timestamps_read_in_utc() {
    let timestamp = jiff::Timestamp::new(1_234_567_890, 250).unwrap();
    let (fields, nanosecond) =
        utc_label_from_instant(timestamp.as_second(), timestamp.subsec_nanosecond());
    assert_eq!(fields, utc_label(2009, 2, 13, 23, 31, 30));
    assert_eq!(nanosecond, 250);
}

#[test]
fn instants_before_1970_borrow_from_the_previous_second() {
    let (fields, nanosecond) = utc_label_from_instant(-1, -500_000_000);
    assert_eq!(fields, utc_label(1969, 12, 31, 23, 59, 58));
    assert_eq!(nanosecond, 500_000_000);
    let (fields, nanosecond) = utc_label_from_instant(0, -1);
    assert_eq!(fields, utc_label(1969, 12, 31, 23, 59, 59));
    assert_eq!(nanosecond, 999_999_999);
    let (fields, nanosecond) = utc_label_from_instant(-86_400, 0);
    assert_eq!(fields, utc_label(1969, 12, 31, 0, 0, 0));
    assert_eq!(nanosecond, 0);
}

#[test]
fn utc_fields_agree_with_jiff_at_the_range_ends() {
    for timestamp in [jiff::Timestamp::MIN, jiff::Timestamp::MAX, jiff::Timestamp::UNIX_EPOCH] {
        let datetime = timestamp.to_zoned(jiff::tz::TimeZone::UTC).datetime();
        let (fields, nanosecond) =
            utc_label_from_instant(timestamp.as_second(), timestamp.subsec_nanosecond());
        assert_eq!(
            fields,
            utc_label(
                i32::from(datetime.year()),
                i32::from(datetime.month()),
                i32::from(datetime.day()),
                i32::from(datetime.hour()),
                i32::from(datetime.minute()),
                i32::from(datetime.second()),
            )
        );
        assert_eq!(nanosecond, datetime.subsec_nanosecond());
    }
}

#[test]
fn the_now_keyword_ignores_letter_case() {
    assert!(names_current_time("now"));
    assert!(names_current_time("NoW"));
    assert!(!names_current_time("nowhere"));
    assert!(!names_current_time("no"));
    assert!(!names_current_time("2022-01-01T00:00:00Z"));
}

#[test]
fn start_times_parse_as_utc_instants() {
    let (fields, nanosecond) = parse_start_time("2022-01-01T12:30:15.5Z").unwrap();
    assert_eq!(fields, utc_label(2022, 1, 1, 12, 30, 15));
    assert_eq!(nanosecond, 500_000_000);
    assert!(matches!(parse_start_time("not a time"), Err(Error::TimeParseError(_))));
}

#[test]
fn start_times_with_an_offset_are_moved_to_utc() {
    let (fields, nanosecond) = parse_start_time("2022-01-01T01:30:15+02:00").unwrap();
    assert_eq!(fields, utc_label(2021, 12, 31, 23, 30, 15));
    assert_eq!(nanosecond, 0);
    let (fields, _) = parse_start_time("2016-12-31t23:59:59z").unwrap();
    assert_eq!(fields, utc_label(2016, 12, 31, 23, 59, 59));
}

#[test]
fn start_times_without_an_offset_are_refused() {
    assert!(matches!(parse_start_time("2022-01-01T12:30:15"), Err(Error::TimeParseError(_))));
    assert!(matches!(parse_start_time("2022-01-01 12:30:15"), Err(Error::TimeParseError(_))));
}
