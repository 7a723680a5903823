use ghostnet::calendar::{UtcTime, Weekday};
use ghostnet::clock::{ClockQuality, ClockReading};
use ghostnet::window::{
    utc_date, NetWindow, OneShotWindow, WeeklyWindow, WindowError, WindowEvaluation,
    WindowOccurrence,
};

fn timestamp(year: i32, month: u8, day: u8, hour: u8, minute: u8) -> u64 {
    let month = time::Month::try_from(month).expect("month");
    let date = time::Date::from_calendar_date(year, month, day).expect("date");
    let time = time::Time::from_hms(hour, minute, 0).expect("time");
    u64::try_from(date.with_time(time).assume_utc().unix_timestamp_nanos() / 1_000_000)
        .expect("positive timestamp")
}

#[test]
fn weekly_window_crosses_year_boundary() {
    let window = NetWindow::Weekly(WeeklyWindow {
        start_date: utc_date(2025, 12, 29).expect("start"),
        end_date: None,
        weekdays: vec![Weekday::Thursday],
        utc_time: UtcTime::from_hms(1, 30, 0).expect("time"),
        interval_weeks: 1,
        duration_ms: 30 * 60 * 1_000,
    });
    let occurrence = window
        .next_occurrence(timestamp(2025, 12, 31, 23, 0))
        .expect("valid window")
        .expect("occurrence");
    assert_eq!(occurrence.starts_at_ms, timestamp(2026, 1, 1, 1, 30));
}

#[test]
fn biweekly_interval_uses_anchor_week_across_iso_year() {
    let window = NetWindow::Weekly(WeeklyWindow {
        start_date: utc_date(2025, 12, 29).expect("start"),
        end_date: None,
        weekdays: vec![Weekday::Monday],
        utc_time: UtcTime::midnight(),
        interval_weeks: 2,
        duration_ms: 60_000,
    });
    let occurrence = window
        .next_occurrence(timestamp(2026, 1, 5, 0, 0))
        .expect("valid window")
        .expect("occurrence");
    assert_eq!(occurrence.starts_at_ms, timestamp(2026, 1, 12, 0, 0));
}

#[test]
fn uncertain_clock_near_boundary_is_indeterminate() {
    let start = timestamp(2026, 1, 1, 12, 0);
    let window = NetWindow::OneShot(OneShotWindow {
        starts_at_ms: start,
        duration_ms: 60_000,
    });
    assert_eq!(
        window
            .evaluate(ClockReading {
                unix_ms: start - 5_000,
                quality: ClockQuality::Uncertain {
                    maximum_skew_ms: 10_000,
                },
            })
            .expect("evaluation"),
        WindowEvaluation::Indeterminate {
            candidate: window
                .next_occurrence(start - 15_000)
                .expect("lookup")
                .expect("window"),
            maximum_skew_ms: 10_000,
        }
    );
}

#[test]
fn synchronized_clock_distinguishes_half_open_boundary() {
    let start = timestamp(2026, 1, 1, 12, 0);
    let window = NetWindow::OneShot(OneShotWindow {
        starts_at_ms: start,
        duration_ms: 60_000,
    });
    assert!(matches!(
        window
            .evaluate(ClockReading {
                unix_ms: start,
                quality: ClockQuality::Synchronized,
            })
            .expect("start"),
        WindowEvaluation::Current(_)
    ));
    assert_eq!(
        window
            .evaluate(ClockReading {
                unix_ms: start + 60_000,
                quality: ClockQuality::Synchronized,
            })
            .expect("end"),
        WindowEvaluation::Outside
    );
}

#[test]
fn unsynchronized_clock_never_claims_current_window() {
    let start = timestamp(2026, 1, 1, 12, 0);
    let window = NetWindow::OneShot(OneShotWindow {
        starts_at_ms: start,
        duration_ms: 60_000,
    });
    assert_eq!(
        window
            .evaluate(ClockReading {
                unix_ms: start,
                quality: ClockQuality::Unsynchronized,
            })
            .expect("evaluation"),
        WindowEvaluation::Unsynchronized
    );
}

#[test]
fn window_validation_errors_are_reported() {
    let zero = NetWindow::OneShot(OneShotWindow {
        starts_at_ms: 10,
        duration_ms: 0,
    });
    assert_eq!(zero.next_occurrence(0), Err(WindowError::ZeroDuration));
    let weekly = |weekdays: Vec<Weekday>, interval_weeks: u32| {
        NetWindow::Weekly(WeeklyWindow {
            start_date: utc_date(2026, 1, 1).expect("start"),
            end_date: None,
            weekdays,
            utc_time: UtcTime::midnight(),
            interval_weeks,
            duration_ms: 1_000,
        })
    };
    assert_eq!(
        weekly(vec![Weekday::Monday], 0).next_occurrence(0),
        Err(WindowError::ZeroInterval)
    );
    assert_eq!(
        weekly(vec![], 1).next_occurrence(0),
        Err(WindowError::NoWeekdays)
    );
    assert_eq!(utc_date(2026, 2, 30), Err(WindowError::TimestampRange));
}

#[test]
fn one_shot_window_ended_before_lookup_has_no_occurrence() {
    let window = NetWindow::OneShot(OneShotWindow {
        starts_at_ms: 1_000,
        duration_ms: 500,
    });
    assert_eq!(window.next_occurrence(1_500), Ok(None));
    assert_eq!(
        window.next_occurrence(1_499),
        Ok(Some(WindowOccurrence {
            starts_at_ms: 1_000,
            ends_at_ms: 1_500,
        }))
    );
}

#[test]
fn weekly_window_respects_end_date() {
    let window = NetWindow::Weekly(WeeklyWindow {
        start_date: utc_date(2026, 1, 5).expect("start"),
        end_date: Some(utc_date(2026, 1, 11).expect("end")),
        weekdays: vec![Weekday::Monday],
        utc_time: UtcTime::from_hms(8, 0, 0).expect("time"),
        interval_weeks: 1,
        duration_ms: 60_000,
    });
    let first = window
        .next_occurrence(timestamp(2026, 1, 1, 0, 0))
        .expect("valid")
        .expect("occurrence");
    assert_eq!(first.starts_at_ms, timestamp(2026, 1, 5, 8, 0));
    assert_eq!(first.ends_at_ms, timestamp(2026, 1, 5, 8, 1));
    assert_eq!(
        window.next_occurrence(timestamp(2026, 1, 6, 0, 0)),
        Ok(None)
    );
}

#[test]
fn synchronized_clock_before_window_is_outside() {
    let start = timestamp(2026, 1, 1, 12, 0);
    let window = NetWindow::OneShot(OneShotWindow {
        starts_at_ms: start,
        duration_ms: 60_000,
    });
    assert_eq!(
        window.evaluate(ClockReading {
            unix_ms: start - 1,
            quality: ClockQuality::Synchronized,
        }),
        Ok(WindowEvaluation::Outside)
    );
    assert_eq!(
        window.evaluate(ClockReading {
            unix_ms: start + 30_000,
            quality: ClockQuality::Uncertain {
                maximum_skew_ms: 10_000
            },
        }),
        Ok(WindowEvaluation::Current(WindowOccurrence {
            starts_at_ms: start,
            ends_at_ms: start + 60_000,
        }))
    );
}

#[test]
fn weekly_occurrence_still_open_after_midnight_is_found() {
    let window = NetWindow::Weekly(WeeklyWindow {
        start_date: utc_date(2026, 1, 5).expect("start"),
        end_date: None,
        weekdays: vec![Weekday::Monday],
        utc_time: UtcTime::from_hms(23, 30, 0).expect("time"),
        interval_weeks: 1,
        duration_ms: 2 * 60 * 60 * 1_000,
    });
    let lookup = timestamp(2026, 1, 6, 0, 30);
    assert_eq!(lookup, 1_767_659_400_000);
    assert_eq!(
        window.next_occurrence(lookup),
        Ok(Some(WindowOccurrence {
            starts_at_ms: 1_767_655_800_000,
            ends_at_ms: 1_767_663_000_000,
        }))
    );
    assert!(matches!(
        window.evaluate(ClockReading {
            unix_ms: lookup,
            quality: ClockQuality::Synchronized,
        }),
        Ok(WindowEvaluation::Current(_))
    ));
    let next = window
        .next_occurrence(timestamp(2026, 1, 6, 1, 30))
        .expect("valid")
        .expect("occurrence");
    assert_eq!(next.starts_at_ms, timestamp(2026, 1, 12, 23, 30));
}
