use chrono::{Datelike, TimeZone, Utc};
use solar_clock::calendar::{solar_day, solar_window};
use solar_clock::instant::{Instant, MAX_TIMESTAMP, MIN_TIMESTAMP};

#[test]
fn solar_day_gives_day_of_year_and_midnight() {
    // 2026-02-03T12:00:00Z
    let day = solar_day(Instant::new(1_770_120_000, 123).unwrap());
    assert_eq!(day.ordinal, 34);
    assert_eq!(day.midnight, Instant::new(1_770_076_800, 0).unwrap());
}

#[test]
fn solar_day_counts_a_leap_day() {
    let last = Utc.with_ymd_and_hms(2024, 12, 31, 23, 59, 59).unwrap();
    let day = solar_day(Instant::new(last.timestamp(), 0).unwrap());
    assert_eq!(day.ordinal, 366);
    let first = Utc.with_ymd_and_hms(2025, 1, 1, 0, 0, 0).unwrap();
    assert_eq!(solar_day(Instant::new(first.timestamp(), 0).unwrap()).ordinal, 1);
}

#[test]
fn solar_day_agrees_with_the_calendar_before_the_epoch() {
    let at = Utc.with_ymd_and_hms(1969, 7, 20, 20, 17, 40).unwrap();
    let day = solar_day(Instant::new(at.timestamp(), 0).unwrap());
    assert_eq!(day.ordinal, at.ordinal());
    let midnight = Utc.with_ymd_and_hms(1969, 7, 20, 0, 0, 0).unwrap();
    assert_eq!(day.midnight.secs, midnight.timestamp());
}

#[test]
fn solar_day_at_the_ends_of_the_range() {
    let first = solar_day(Instant::new(MIN_TIMESTAMP, 0).unwrap());
    assert_eq!(first.ordinal, 1);
    assert_eq!(first.midnight.secs, MIN_TIMESTAMP);
    let last = solar_day(Instant::new(MAX_TIMESTAMP, 999_999_999).unwrap());
    assert_eq!(last.ordinal, 365);
    assert_eq!(last.midnight.secs, MAX_TIMESTAMP - 86_399);
}

#[test]
fn solar_window_holds_yesterday_today_and_tomorrow() {
    // 2026-01-01T00:30:00Z: the day before lies in the year before
    let at = Utc.with_ymd_and_hms(2026, 1, 1, 0, 30, 0).unwrap();
    let days = solar_window(Instant::new(at.timestamp(), 0).unwrap()).unwrap();
    assert_eq!(days.len(), 3);
    assert_eq!(days[0].ordinal, 365);
    assert_eq!(days[1].ordinal, 1);
    assert_eq!(days[2].ordinal, 2);
    assert_eq!(days[0].midnight.secs, at.timestamp() - 1800 - 86_400);
    assert_eq!(days[1].midnight.secs, at.timestamp() - 1800);
    assert_eq!(days[2].midnight.secs, at.timestamp() - 1800 + 86_400);
}

#[test]
fn solar_window_needs_both_neighbours() {
    assert!(solar_window(Instant::new(MIN_TIMESTAMP + 86_399, 0).unwrap()).is_none());
    assert!(solar_window(Instant::new(MIN_TIMESTAMP + 86_400, 0).unwrap()).is_some());
    assert!(solar_window(Instant::new(MAX_TIMESTAMP - 86_400, 0).unwrap()).is_some());
    assert!(solar_window(Instant::new(MAX_TIMESTAMP - 86_399, 0).unwrap()).is_none());
}
