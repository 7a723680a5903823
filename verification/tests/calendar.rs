use ghostnet::calendar::{
    calendar_date, weekday_index_of, UtcDate, UtcTime, Weekday, MAX_JULIAN_DAY, MIN_JULIAN_DAY,
    UNIX_EPOCH_JULIAN_DAY,
};
use ghostnet::clock::{ClockQuality, FakeClock};

fn time_crate_julian_day(year: i32, month: u8, day: u8) -> Option<i32> {
    let month = time::Month::try_from(month).ok()?;
    time::Date::from_calendar_date(year, month, day)
        .ok()
        .map(time::Date::to_julian_day)
}

#[test]
fn calendar_dates_agree_with_julian_day_numbers() {
    for (year, month, day) in [
        (1970, 1, 1),
        (2000, 2, 29),
        (2024, 12, 31),
        (2025, 12, 29),
        (1, 1, 1),
        (-4713, 11, 24),
        (9999, 12, 31),
    ] {
        let date = calendar_date(year, month, day).expect("valid date");
        assert_eq!(
            Some(date.to_julian_day()),
            time_crate_julian_day(year, month, day)
        );
    }
    assert_eq!(
        calendar_date(1970, 1, 1).expect("epoch").to_julian_day(),
        UNIX_EPOCH_JULIAN_DAY
    );
    assert_eq!(
        calendar_date(9999, 12, 31).expect("max").to_julian_day(),
        MAX_JULIAN_DAY
    );
    assert_eq!(
        calendar_date(-9999, 1, 1).expect("min").to_julian_day(),
        MIN_JULIAN_DAY
    );
}

#[test]
fn invalid_calendar_dates_are_rejected() {
    assert!(calendar_date(2023, 2, 29).is_none());
    assert!(calendar_date(1900, 2, 29).is_none());
    assert!(calendar_date(2024, 13, 1).is_none());
    assert!(calendar_date(2024, 4, 31).is_none());
    assert!(calendar_date(2024, 1, 0).is_none());
    assert!(calendar_date(10_000, 1, 1).is_none());
    assert!(calendar_date(2000, 2, 29).is_some());
}

#[test]
fn weekdays_follow_julian_day_numbers() {
    assert_eq!(calendar_date(1970, 1, 1).expect("epoch").weekday(), Weekday::Thursday);
    assert_eq!(calendar_date(2025, 12, 29).expect("date").weekday(), Weekday::Monday);
    assert_eq!(calendar_date(2026, 1, 4).expect("date").weekday(), Weekday::Sunday);
    assert_eq!(weekday_index_of(0), 0);
    assert_eq!(weekday_index_of(-1), 6);
    assert_eq!(Weekday::Sunday.number_days_from_monday(), 6);
    assert_eq!(UtcDate::from_julian_day(MAX_JULIAN_DAY + 1), None);
    assert_eq!(
        UtcDate::from_julian_day(MIN_JULIAN_DAY).map(UtcDate::to_julian_day),
        Some(MIN_JULIAN_DAY)
    );
}

#[test]
fn times_of_day_are_validated_and_measured_in_milliseconds() {
    assert_eq!(UtcTime::midnight().millis_of_day(), 0);
    assert_eq!(
        UtcTime::from_hms(1, 30, 0).expect("time").millis_of_day(),
        5_400_000
    );
    assert_eq!(
        UtcTime::from_hms_nano(23, 59, 59, 999_999_999)
            .expect("time")
            .millis_of_day(),
        86_399_999
    );
    assert!(UtcTime::from_hms(24, 0, 0).is_none());
    assert!(UtcTime::from_hms(0, 60, 0).is_none());
    assert!(UtcTime::from_hms_nano(0, 0, 0, 1_000_000_000).is_none());
}

#[test]
fn fake_clock_reports_set_and_advanced_time() {
    let mut clock = FakeClock::new(1_000, ClockQuality::Synchronized);
    assert_eq!(clock.read().unix_ms, 1_000);
    clock.advance(500);
    assert_eq!(clock.read().unix_ms, 1_500);
    clock.set(42);
    let reading = clock.read();
    assert_eq!(reading.unix_ms, 42);
    assert_eq!(reading.quality, ClockQuality::Synchronized);
}
