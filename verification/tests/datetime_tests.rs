use rsgrep::datetime::{convert_epoch_to_datetime, days_in_month, is_leap_year};

#[test]
fn leap_year_rule() {
    assert!(is_leap_year(2000));
    assert!(is_leap_year(2024));
    assert!(!is_leap_year(1900));
    assert!(!is_leap_year(2023));
}

#[test]
fn february_depends_on_year() {
    assert_eq!(days_in_month(2, 2000), 29);
    assert_eq!(days_in_month(2, 1900), 28);
    assert_eq!(days_in_month(1, 2023), 31);
    assert_eq!(days_in_month(4, 2023), 30);
    assert_eq!(days_in_month(12, 2023), 31);
}

#[test]
fn epoch_zero_is_new_year_1970() {
    let dt = convert_epoch_to_datetime(0, 0);
    assert_eq!((dt.day, dt.month, dt.year, dt.hour, dt.minute), (1, 1, 1970, 0, 0));
}

#[test]
fn zone_offset_is_added_to_hours() {
    let dt = convert_epoch_to_datetime(2682061, 2);
    // 1970-02-01 01:01:01 UTC, plus two hours of zone offset.
    assert_eq!((dt.day, dt.month, dt.year, dt.hour, dt.minute), (1, 2, 1970, 3, 1));
}

#[test]
fn leap_day_boundary() {
    // 2000-03-01 00:00:00 UTC: the day after a century leap day.
    let dt = convert_epoch_to_datetime(951868800, 0);
    assert_eq!((dt.day, dt.month, dt.year), (1, 3, 2000));
    // One second before it is 2000-02-29 23:59.
    let dt = convert_epoch_to_datetime(951868799, 0);
    assert_eq!((dt.day, dt.month, dt.year, dt.hour, dt.minute), (29, 2, 2000, 23, 59));
}

#[test]
fn modern_date() {
    let dt = convert_epoch_to_datetime(1700000000, 0);
    assert_eq!((dt.day, dt.month, dt.year, dt.hour, dt.minute), (14, 11, 2023, 22, 13));
}

use rsgrep::datetime::{fmt_padded, render_datetime};

#[test]
fn zero_padding_matches_width() {
    assert_eq!(fmt_padded(5, 2), b"05".to_vec());
    assert_eq!(fmt_padded(0, 4), b"0000".to_vec());
    assert_eq!(fmt_padded(123, 2), b"123".to_vec());
    assert_eq!(fmt_padded(1970, 4), b"1970".to_vec());
}

#[test]
fn rendered_datetime_text() {
    let dt = convert_epoch_to_datetime(2682061, 2);
    assert_eq!(render_datetime(&dt), b"01/02/1970 03:01".to_vec());
    let dt = convert_epoch_to_datetime(0, 0);
    assert_eq!(render_datetime(&dt), b"01/01/1970 00:00".to_vec());
    let dt = convert_epoch_to_datetime(1700000000, 0);
    assert_eq!(render_datetime(&dt), b"14/11/2023 22:13".to_vec());
}
