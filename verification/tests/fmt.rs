//! Dates, times and plurals.

use slack2buzz::fmt::{date, datetime, plural};

#[test]
fn epoch_is_1970_01_01() {
    assert_eq!(date(0), "1970-01-01");
}

#[test]
fn fixture_timestamps_render_as_expected() {
    // The dates the fixture export claims to cover.
    assert_eq!(date(1_709_545_200), "2024-03-04");
    assert_eq!(date(1_709_631_700), "2024-03-05");
}

#[test]
fn leap_day_is_handled() {
    // 2024-02-29T00:00:00Z
    assert_eq!(date(1_709_164_800), "2024-02-29");
}

#[test]
fn century_non_leap_year_is_handled() {
    // 1900 was not a leap year: 1900-03-01, not 1900-02-29.
    let secs = -2_203_891_200;
    assert_eq!(date(secs), "1900-03-01");
}

#[test]
fn pre_epoch_dates_do_not_wrap() {
    assert_eq!(date(-86_400), "1969-12-31");
    assert_eq!(datetime(-1), "1969-12-31 23:59");
}

#[test]
fn datetime_includes_utc_time_of_day() {
    assert_eq!(datetime(0), "1970-01-01 00:00");
    assert_eq!(datetime(1_709_545_200), "2024-03-04 09:40");
}

#[test]
fn irregular_plurals_are_not_mangled() {
    assert_eq!(plural(1, "person"), "1 person");
    assert_eq!(plural(3, "person"), "3 people");
}

#[test]
fn plural_only_pluralises_when_needed() {
    assert_eq!(plural(1, "message"), "1 message");
    assert_eq!(plural(0, "message"), "0 messages");
    assert_eq!(plural(2, "message"), "2 messages");
}

#[test]
fn dates_far_from_the_epoch_are_still_dates() {
    assert_eq!(date(253_402_300_799), "9999-12-31");
    assert_eq!(date(253_402_300_800), "10000-01-01");
    assert_eq!(date(-62_167_219_200), "0000-01-01");
    assert_eq!(date(-62_167_219_201), "-001-12-31");
    assert_eq!(date(951_782_400), "2000-02-29");
    // The outermost moments do not overflow on the way.
    assert_eq!(date(i64::MAX).len(), "292277026596-12-04".len());
    assert!(date(i64::MIN).starts_with('-'));
}
