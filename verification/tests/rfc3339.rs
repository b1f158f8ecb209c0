use bitcraft_mirror::rfc3339::{date_of_day, format_rfc3339_millis, format_rfc3339_secs};

#[test]
fn days_have_dates() {
    assert_eq!(date_of_day(0), (1970, 1, 1));
    assert_eq!(date_of_day(-1), (1969, 12, 31));
    assert_eq!(date_of_day(19_782), (2024, 2, 29));
    assert_eq!(date_of_day(19_783), (2024, 3, 1));
    assert_eq!(date_of_day(11_016), (2000, 2, 29));
    assert_eq!(date_of_day(-719_528), (0, 1, 1));
    assert_eq!(date_of_day(-719_529), (-1, 12, 31));
}

#[test]
fn instants_are_written_to_the_millisecond() {
    assert_eq!(format_rfc3339_millis(0), "1970-01-01T00:00:00.000Z");
    assert_eq!(format_rfc3339_millis(1_788_628_340_546_999), "2026-09-05T17:12:20.546Z");
    assert_eq!(format_rfc3339_millis(-1), "1969-12-31T23:59:59.999Z");
    assert_eq!(format_rfc3339_secs(1_709_251_199), "2024-02-29T23:59:59.000Z");
    assert_eq!(format_rfc3339_secs(i64::MAX), format_rfc3339_millis(i64::MAX));
    assert_eq!(format_rfc3339_millis(i64::MAX), "294247-01-10T04:00:54.775Z");
    assert_eq!(format_rfc3339_secs(i64::MIN), format_rfc3339_millis(i64::MIN));
}
