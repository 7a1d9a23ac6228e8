use photo_sort::datetime::{date_from_exif_values, parse_datetime, Timestamp};

fn stamp(year: u16, month: u8, day: u8, hour: u8, minute: u8, second: u8) -> Timestamp {
    Timestamp { year, month, day, hour, minute, second }
}

#[test]
fn parse_datetime_accepts_the_exact_pattern() {
    assert_eq!(
        parse_datetime("2008-07-15 14:30:22"),
        Some(stamp(2008, 7, 15, 14, 30, 22))
    );
    assert_eq!(parse_datetime("1970-01-01 00:00:00"), Some(stamp(1970, 1, 1, 0, 0, 0)));
}

#[test]
fn parse_datetime_rejects_other_shapes() {
    assert_eq!(parse_datetime(""), None);
    assert_eq!(parse_datetime("2008-07-15"), None);
    assert_eq!(parse_datetime("2008/07/15 14:30:22"), None);
    assert_eq!(parse_datetime("2008-07-15T14:30:22"), None);
    assert_eq!(parse_datetime("2008-07-15 14:30:22 "), None);
}

#[test]
fn parse_datetime_rejects_invalid_dates() {
    assert_eq!(parse_datetime("2008-13-01 00:00:00"), None);
    assert_eq!(parse_datetime("2008-00-01 00:00:00"), None);
    assert_eq!(parse_datetime("2008-04-31 00:00:00"), None);
    assert_eq!(parse_datetime("2008-01-01 24:00:00"), None);
    assert_eq!(parse_datetime("2008-01-01 00:60:00"), None);
}

#[test]
fn parse_datetime_knows_leap_years() {
    assert_eq!(parse_datetime("2008-02-29 12:00:00"), Some(stamp(2008, 2, 29, 12, 0, 0)));
    assert_eq!(parse_datetime("2007-02-29 12:00:00"), None);
    assert_eq!(parse_datetime("2000-02-29 12:00:00"), Some(stamp(2000, 2, 29, 12, 0, 0)));
    assert_eq!(parse_datetime("1900-02-29 12:00:00"), None);
}

#[test]
fn exif_values_first_parsable_wins() {
    let values = vec![
        None,
        Some("not a date".to_string()),
        Some("2010-05-06 07:08:09".to_string()),
    ];
    assert_eq!(date_from_exif_values(&values), Some(stamp(2010, 5, 6, 7, 8, 9)));
}

#[test]
fn exif_values_none_parsable_gives_nothing() {
    let values = vec![None, Some("garbage".to_string())];
    assert_eq!(date_from_exif_values(&values), None);
    assert_eq!(date_from_exif_values(&Vec::new()), None);
}
