use chrono::{TimeZone, Utc};
use hackdose::data::DataPoint;
use hackdose::log::{
    format_log_line, log_line_with_date, parse_i32, parse_log_line, sample_from_fields,
};

fn ms(y: i32, mo: u32, d: u32, h: u32, mi: u32, s: u32) -> i64 {
    Utc.with_ymd_and_hms(y, mo, d, h, mi, s)
        .unwrap()
        .timestamp_millis()
}

#[test]
fn formats_log_line() {
    let p = DataPoint { date: ms(2022, 4, 4, 0, 1, 0), value: -42 };
    assert_eq!(format_log_line(p), Some(b"2022-04-04 00:01:00;-42\n".to_vec()));
    let q = DataPoint { date: ms(2023, 12, 31, 23, 59, 59), value: 1234 };
    assert_eq!(format_log_line(q), Some(b"2023-12-31 23:59:59;1234\n".to_vec()));
    let r = DataPoint { date: 0, value: i32::MIN };
    assert_eq!(format_log_line(r), Some(b"1970-01-01 00:00:00;-2147483648\n".to_vec()));
}

#[test]
fn parses_recent_log_line() {
    let now = ms(2022, 4, 5, 0, 0, 0);
    assert_eq!(
        parse_log_line(b"2022-04-04 00:01:00;-42", now),
        Some(DataPoint { date: ms(2022, 4, 4, 0, 1, 0), value: -42 })
    );
    assert_eq!(
        parse_log_line(b"2022-04-04 00:01:00;17;extra", now),
        Some(DataPoint { date: ms(2022, 4, 4, 0, 1, 0), value: 17 })
    );
}

#[test]
fn skips_old_future_and_malformed_lines() {
    let now = ms(2022, 4, 5, 0, 0, 0);
    assert_eq!(parse_log_line(b"2022-03-01 00:00:00;5", now), None);
    assert_eq!(parse_log_line(b"2022-04-06 00:00:00;5", now), None);
    assert_eq!(parse_log_line(b"2022-04-04 00:00:00", now), None);
    assert_eq!(parse_log_line(b"yesterday;5", now), None);
    assert_eq!(parse_log_line(b"2022-04-04 00:00:00;five", now), None);
    assert_eq!(parse_log_line(b"", now), None);
}

#[test]
fn round_trips_log_line() {
    let now = ms(2022, 4, 5, 0, 0, 0);
    let p = DataPoint { date: ms(2022, 4, 4, 13, 30, 0), value: 987 };
    let mut line = format_log_line(p).unwrap();
    line.pop();
    assert_eq!(parse_log_line(&line, now), Some(p));
}

#[test]
fn parses_decimal_i32() {
    assert_eq!(parse_i32(b"+5"), Some(5));
    assert_eq!(parse_i32(b"-2147483648"), Some(i32::MIN));
    assert_eq!(parse_i32(b"2147483647"), Some(i32::MAX));
    assert_eq!(parse_i32(b"2147483648"), None);
    assert_eq!(parse_i32(b"-2147483649"), None);
    assert_eq!(parse_i32(b"99999999999999999999"), None);
    assert_eq!(parse_i32(b""), None);
    assert_eq!(parse_i32(b"-"), None);
    assert_eq!(parse_i32(b"1a"), None);
    assert_eq!(parse_i32(b"007"), Some(7));
}

#[test]
fn line_with_date_appends_value() {
    assert_eq!(log_line_with_date(b"D".to_vec(), 0), b"D;0\n".to_vec());
    assert_eq!(log_line_with_date(b"x y".to_vec(), -7), b"x y;-7\n".to_vec());
    assert_eq!(log_line_with_date(vec![], 2147483647), b";2147483647\n".to_vec());
}

#[test]
fn sample_from_fields_keeps_last_seven_days() {
    let week: i64 = 7 * 24 * 60 * 60 * 1000;
    let now: i64 = 10 * week;
    assert_eq!(sample_from_fields(now - 1, b"12", now), Some(DataPoint { date: now - 1, value: 12 }));
    assert_eq!(sample_from_fields(now - week + 1, b"-3", now), Some(DataPoint { date: now - week + 1, value: -3 }));
    assert_eq!(sample_from_fields(now - week, b"12", now), None);
    assert_eq!(sample_from_fields(now, b"12", now), None);
    assert_eq!(sample_from_fields(now - 1, b"1.5", now), None);
}

#[test]
fn formats_dates_through_year_9999() {
    let last = ms(9999, 12, 31, 23, 59, 59) + 999;
    assert_eq!(last, 253_402_300_799_999);
    assert_eq!(
        format_log_line(DataPoint { date: last, value: 5 }),
        Some(b"9999-12-31 23:59:59;5\n".to_vec())
    );
}
