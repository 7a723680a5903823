//! Restricted UTC communication-window evaluation.
use vstd::prelude::*;

use crate::calendar::{
    calendar_date, calendar_julian_day, weekday_index, weekday_index_of, weekday_number, UtcDate, UtcTime,
    Weekday, MAX_JULIAN_DAY, MIN_JULIAN_DAY, MAX_UNIX_SECONDS, MS_PER_DAY, UNIX_EPOCH_JULIAN_DAY,
};
use crate::clock::{ClockQuality, ClockReading};

verus! {

#[derive(Clone, Copy, Debug, PartialEq, Eq, Structural)]
pub struct OneShotWindow {
    pub starts_at_ms: u64,
    pub duration_ms: u64,
}

#[derive(Clone, Debug, PartialEq, Eq)]
pub struct WeeklyWindow {
    pub start_date: UtcDate,
    pub end_date: Option<UtcDate>,
    pub weekdays: Vec<Weekday>,
    pub utc_time: UtcTime,
    pub interval_weeks: u32,
    pub duration_ms: u64,
}

#[derive(Clone, Debug, PartialEq, Eq)]
pub enum NetWindow {
    OneShot(OneShotWindow),
    Weekly(WeeklyWindow),
}

#[derive(Clone, Copy, Debug, PartialEq, Eq, Structural)]
pub struct WindowOccurrence {
    pub starts_at_ms: u64,
    pub ends_at_ms: u64,
}

#[derive(Clone, Copy, Debug, PartialEq, Eq, Structural)]
pub enum WindowEvaluation {
    Outside,
    Current(WindowOccurrence),
    Indeterminate { candidate: WindowOccurrence, maximum_skew_ms: u64 },
    Unsynchronized,
}

#[derive(Clone, Copy, Debug, PartialEq, Eq, Structural)]
pub enum WindowError {
    ZeroDuration,
    ZeroInterval,
    NoWeekdays,
    TimestampRange,
}

/// Days searched ahead when a weekly window has no end date.
pub const OPEN_ENDED_SEARCH_DAYS: i32 = 3_700;

/// The one-shot occurrence, if it ends after `from_ms`.
pub open spec fn one_shot_next(w: OneShotWindow, from_ms: u64) -> Result<Option<WindowOccurrence>, WindowError> {
    if w.duration_ms == 0 {
        Err(WindowError::ZeroDuration)
    } else if w.starts_at_ms + w.duration_ms > u64::MAX {
        Err(WindowError::TimestampRange)
    } else {
        let occurrence = WindowOccurrence {
            starts_at_ms: w.starts_at_ms,
            ends_at_ms: (w.starts_at_ms + w.duration_ms) as u64,
        };
        if occurrence.ends_at_ms > from_ms {
            Ok(Some(occurrence))
        } else {
            Ok(None)
        }
    }
}

/// The first malformed recurrence constraint, if any.
pub open spec fn weekly_defect(w: WeeklyWindow) -> Option<WindowError> {
    if w.duration_ms == 0 {
        Some(WindowError::ZeroDuration)
    } else if w.interval_weeks == 0 {
        Some(WindowError::ZeroInterval)
    } else if w.weekdays@.len() == 0 {
        Some(WindowError::NoWeekdays)
    } else {
        None
    }
}

/// A timestamp falls within the supported dates.
pub open spec fn representable_ms(ms: u64) -> bool {
    ms / 1000 <= MAX_UNIX_SECONDS
}

/// The Julian day containing a timestamp.
pub open spec fn day_of_ms(ms: u64) -> int {
    UNIX_EPOCH_JULIAN_DAY + (ms as int) / (MS_PER_DAY as int)
}

/// The day a lookup is anchored at: the day of `from_ms`, or the start date
/// if later.
pub open spec fn lookup_day(w: WeeklyWindow, from_ms: u64) -> int {
    if day_of_ms(from_ms) < w.start_date.day() {
        w.start_date.day()
    } else {
        day_of_ms(from_ms)
    }
}

/// The number of days an occurrence can reach back: its duration in whole
/// days, rounded up.
pub open spec fn days_open(w: WeeklyWindow) -> int {
    (w.duration_ms + MS_PER_DAY - 1) / (MS_PER_DAY as int)
}

/// The first day searched: far enough before the day of `from_ms` that an
/// occurrence begun earlier and still open is found, but not before the
/// start date.
pub open spec fn first_search_day(w: WeeklyWindow, from_ms: u64) -> int {
    if day_of_ms(from_ms) - days_open(w) < w.start_date.day() {
        w.start_date.day()
    } else {
        day_of_ms(from_ms) - days_open(w)
    }
}

/// The last day searched: the end date, or a bounded horizon after the
/// lookup day.
pub open spec fn last_search_day(w: WeeklyWindow, anchor: int) -> int {
    match w.end_date {
        Some(end) => end.day(),
        None => anchor + OPEN_ENDED_SEARCH_DAYS,
    }
}

/// The Monday of the week containing a day.
pub open spec fn monday_of_week(julian_day: int) -> int {
    julian_day - weekday_index(julian_day)
}

/// The day's week is a whole number of recurrence intervals after the week
/// of the start date.
pub open spec fn interval_week(w: WeeklyWindow, julian_day: int) -> bool {
    let weeks = (monday_of_week(julian_day) - monday_of_week(w.start_date.day())) / 7;
    weeks >= 0 && weeks % (w.interval_weeks as int) == 0
}

/// The window recurs on this day.
pub open spec fn scheduled_on(w: WeeklyWindow, julian_day: int) -> bool {
    &&& exists|i: int| 0 <= i < w.weekdays@.len() && weekday_number(#[trigger] w.weekdays@[i]) == weekday_index(julian_day)
    &&& interval_week(w, julian_day)
}

/// The start of the window on a day, in Unix milliseconds.
pub open spec fn start_on(w: WeeklyWindow, julian_day: int) -> int {
    (julian_day - UNIX_EPOCH_JULIAN_DAY) * (MS_PER_DAY as int) + w.utc_time.millis()
}

/// Scans days `day..=last` for the first scheduled occurrence that ends
/// after `from_ms`; such an occurrence that starts before the Unix epoch or
/// ends past `u64::MAX` milliseconds, or running past the last supported
/// date, is a range error.
pub open spec fn weekly_scan(w: WeeklyWindow, from_ms: u64, day: int, last: int) -> Result<
    Option<WindowOccurrence>,
    WindowError,
>
    decreases last + 1 - day,
{
    if day > last {
        Ok(None)
    } else {
        let start = start_on(w, day);
        if scheduled_on(w, day) && start + w.duration_ms > from_ms {
            if start < 0 || start + w.duration_ms > u64::MAX {
                Err(WindowError::TimestampRange)
            } else {
                Ok(Some(WindowOccurrence { starts_at_ms: start as u64, ends_at_ms: (start + w.duration_ms) as u64 }))
            }
        } else if day >= MAX_JULIAN_DAY {
            Err(WindowError::TimestampRange)
        } else {
            weekly_scan(w, from_ms, day + 1, last)
        }
    }
}

/// The first weekly occurrence ending after `from_ms`.
pub open spec fn weekly_next(w: WeeklyWindow, from_ms: u64) -> Result<Option<WindowOccurrence>, WindowError> {
    match weekly_defect(w) {
        Some(e) => Err(e),
        None => if !representable_ms(from_ms) {
            Err(WindowError::TimestampRange)
        } else {
            weekly_scan(w, from_ms, first_search_day(w, from_ms), last_search_day(w, lookup_day(w, from_ms)))
        },
    }
}

/// The open-ended search horizon stays within the supported dates (beyond
/// it the calendar arithmetic has no representable result).
pub open spec fn search_horizon_supported(window: NetWindow, from_ms: u64) -> bool {
    match window {
        NetWindow::OneShot(_) => true,
        NetWindow::Weekly(w) => weekly_defect(w) is Some || !representable_ms(from_ms) || w.end_date is Some
            || lookup_day(w, from_ms) + OPEN_ENDED_SEARCH_DAYS <= MAX_JULIAN_DAY,
    }
}

/// The first occurrence of a window whose end is after `from_ms`.
pub open spec fn next_occurrence_of(window: NetWindow, from_ms: u64) -> Result<Option<WindowOccurrence>, WindowError> {
    match window {
        NetWindow::OneShot(w) => one_shot_next(w, from_ms),
        NetWindow::Weekly(w) => weekly_next(w, from_ms),
    }
}

/// Half-open containment: `starts_at_ms <= at_ms < ends_at_ms`.
pub open spec fn occurrence_contains(occurrence: WindowOccurrence, at_ms: u64) -> bool {
    at_ms >= occurrence.starts_at_ms && at_ms < occurrence.ends_at_ms
}

pub open spec fn skew_of(quality: ClockQuality) -> u64 {
    match quality {
        ClockQuality::Uncertain { maximum_skew_ms } => maximum_skew_ms,
        _ => 0,
    }
}

/// The evaluation of a window at a clock reading.
///
/// The candidate is the next occurrence ending after the earliest possible
/// true time. An unsynchronized clock never claims a current window; a
/// synchronized clock is current exactly inside the half-open occurrence; an
/// uncertain clock is current only when the whole skew interval lies inside
/// the occurrence, and indeterminate when the interval merely overlaps it.
pub open spec fn evaluation_of(window: NetWindow, reading: ClockReading) -> Result<WindowEvaluation, WindowError> {
    match next_occurrence_of(window, u64::saturating_sub(reading.unix_ms, skew_of(reading.quality))) {
        Err(e) => Err(e),
        Ok(None) => Ok(WindowEvaluation::Outside),
        Ok(Some(candidate)) => match reading.quality {
            ClockQuality::Unsynchronized => Ok(WindowEvaluation::Unsynchronized),
            ClockQuality::Synchronized => if occurrence_contains(candidate, reading.unix_ms) {
                Ok(WindowEvaluation::Current(candidate))
            } else {
                Ok(WindowEvaluation::Outside)
            },
            ClockQuality::Uncertain { maximum_skew_ms } => {
                let earliest = u64::saturating_sub(reading.unix_ms, maximum_skew_ms);
                let latest = u64::saturating_add(reading.unix_ms, maximum_skew_ms);
                if occurrence_contains(candidate, earliest) && occurrence_contains(candidate, latest) {
                    Ok(WindowEvaluation::Current(candidate))
                } else if latest >= candidate.starts_at_ms && earliest < candidate.ends_at_ms {
                    Ok(WindowEvaluation::Indeterminate { candidate, maximum_skew_ms })
                } else {
                    Ok(WindowEvaluation::Outside)
                }
            },
        },
    }
}

fn one_shot(window: &OneShotWindow, from_ms: u64) -> (r: Result<Option<WindowOccurrence>, WindowError>)
    ensures
        r == one_shot_next(*window, from_ms),
{
    if window.duration_ms == 0 {
        return Err(WindowError::ZeroDuration);
    }
    let ends_at_ms = match window.starts_at_ms.checked_add(window.duration_ms) {
        Some(end) => end,
        None => {
            return Err(WindowError::TimestampRange);
        },
    };
    let occurrence = WindowOccurrence { starts_at_ms: window.starts_at_ms, ends_at_ms };
    if occurrence.ends_at_ms > from_ms {
        Ok(Some(occurrence))
    } else {
        Ok(None)
    }
}

fn validate_weekly(window: &WeeklyWindow) -> (r: Result<(), WindowError>)
    ensures
        match weekly_defect(*window) {
            Some(e) => r == Err::<(), WindowError>(e),
            None => r is Ok,
        },
{
    if window.duration_ms == 0 {
        return Err(WindowError::ZeroDuration);
    }
    if window.interval_weeks == 0 {
        return Err(WindowError::ZeroInterval);
    }
    if window.weekdays.len() == 0 {
        return Err(WindowError::NoWeekdays);
    }
    Ok(())
}

fn recurs_on_weekday(weekdays: &Vec<Weekday>, index: u32) -> (r: bool)
    ensures
        r == exists|i: int| 0 <= i < weekdays@.len() && weekday_number(#[trigger] weekdays@[i]) == index,
{
    let mut i: usize = 0;
    while i < weekdays.len()
        invariant
            i <= weekdays@.len(),
            forall|j: int| 0 <= j < i ==> weekday_number(#[trigger] weekdays@[j]) != index,
        decreases weekdays@.len() - i,
    {
        if weekdays[i].number_days_from_monday() as u32 == index {
            return true;
        }
        i = i + 1;
    }
    false
}

fn week_monday(julian_day: i32) -> (r: i32)
    requires
        MIN_JULIAN_DAY <= julian_day <= MAX_JULIAN_DAY,
    ensures
        r == monday_of_week(julian_day as int),
        MIN_JULIAN_DAY - 6 <= r <= julian_day,
{
    julian_day - weekday_index_of(julian_day) as i32
}

/// Whether the week of `julian_day` is a whole number of recurrence
/// intervals after the week of the start date.
fn on_interval(window: &WeeklyWindow, julian_day: i32) -> (r: bool)
    requires
        window.interval_weeks > 0,
        MIN_JULIAN_DAY <= julian_day <= MAX_JULIAN_DAY,
    ensures
        r == interval_week(*window, julian_day as int),
{
    let anchor = week_monday(window.start_date.to_julian_day());
    let candidate = week_monday(julian_day);
    candidate >= anchor && ((candidate - anchor) as u32 / 7) % window.interval_weeks == 0
}

fn max_skew(quality: ClockQuality) -> (r: u64)
    ensures
        r == skew_of(quality),
{
    match quality {
        ClockQuality::Uncertain { maximum_skew_ms } => maximum_skew_ms,
        ClockQuality::Synchronized | ClockQuality::Unsynchronized => 0,
    }
}

fn weekly(window: &WeeklyWindow, from_ms: u64) -> (r: Result<Option<WindowOccurrence>, WindowError>)
    requires
        search_horizon_supported(NetWindow::Weekly(*window), from_ms),
    ensures
        r == weekly_next(*window, from_ms),
{
    match validate_weekly(window) {
        Err(e) => {
            return Err(e);
        },
        Ok(()) => {},
    }
    if from_ms / 1000 > MAX_UNIX_SECONDS {
        return Err(WindowError::TimestampRange);
    }
    let ghost w = *window;
    let from_day = (UNIX_EPOCH_JULIAN_DAY as u64 + from_ms / MS_PER_DAY) as i32;
    let start_day = window.start_date.to_julian_day();
    let anchor = if from_day < start_day {
        start_day
    } else {
        from_day
    };
    let back = window.duration_ms / MS_PER_DAY + if window.duration_ms % MS_PER_DAY != 0 {
        1u64
    } else {
        0u64
    };
    assert(back == days_open(w)) by (nonlinear_arith)
        requires
            back == w.duration_ms / MS_PER_DAY + if w.duration_ms % MS_PER_DAY != 0 {
                1int
            } else {
                0int
            },
            MS_PER_DAY == 86_400_000u64,
            days_open(w) == (w.duration_ms + MS_PER_DAY - 1) / (MS_PER_DAY as int),
    ;
    let earliest = from_day as i64 - back as i64;
    let mut day = if earliest < start_day as i64 {
        start_day
    } else {
        earliest as i32
    };
    let last = match window.end_date {
        Some(end) => end.to_julian_day(),
        None => anchor + OPEN_ENDED_SEARCH_DAYS,
    };
    let time_ms = window.utc_time.millis_of_day();
    assert(day == first_search_day(w, from_ms));
    assert(anchor == lookup_day(w, from_ms));
    assert(last == last_search_day(w, anchor as int));
    while day <= last
        invariant
            w == *window,
            weekly_defect(w) is None,
            MIN_JULIAN_DAY <= day <= MAX_JULIAN_DAY + 1,
            last <= MAX_JULIAN_DAY,
            time_ms == w.utc_time.millis(),
            time_ms < MS_PER_DAY,
            weekly_next(w, from_ms) == weekly_scan(w, from_ms, day as int, last as int),
        decreases last + 1 - day,
    {
        let scheduled = recurs_on_weekday(&window.weekdays, weekday_index_of(day)) && on_interval(window, day);
        proof {
            assert(scheduled == scheduled_on(w, day as int));
        }
        let offset = day as i64 - UNIX_EPOCH_JULIAN_DAY as i64;
        assert(-10_000_000 * 86_400_000 <= offset * 86_400_000 <= 10_000_000 * 86_400_000) by (nonlinear_arith)
            requires
                -10_000_000 <= offset <= 10_000_000,
        ;
        let start = offset * 86_400_000i64 + time_ms as i64;
        assert(start == start_on(w, day as int));
        let end = start as i128 + window.duration_ms as i128;
        if scheduled && end > from_ms as i128 {
            if start < 0 || end > u64::MAX as i128 {
                return Err(WindowError::TimestampRange);
            }
            return Ok(Some(WindowOccurrence { starts_at_ms: start as u64, ends_at_ms: end as u64 }));
        }
        if day >= MAX_JULIAN_DAY {
            return Err(WindowError::TimestampRange);
        }
        day = day + 1;
    }
    Ok(None)
}

impl NetWindow {
    /// Finds the first occurrence whose end is after `from_ms`, rejecting
    /// malformed recurrence constraints and unsupported timestamps.
    pub fn next_occurrence(&self, from_ms: u64) -> (r: Result<Option<WindowOccurrence>, WindowError>)
        requires
            search_horizon_supported(*self, from_ms),
        ensures
            r == next_occurrence_of(*self, from_ms),
    {
        match self {
            NetWindow::OneShot(window) => one_shot(window, from_ms),
            NetWindow::Weekly(window) => weekly(window, from_ms),
        }
    }

    /// Evaluates a window using explicit clock quality.
    pub fn evaluate(&self, reading: ClockReading) -> (r: Result<WindowEvaluation, WindowError>)
        requires
            search_horizon_supported(*self, u64::saturating_sub(reading.unix_ms, skew_of(reading.quality))),
        ensures
            r == evaluation_of(*self, reading),
    {
        let candidate = match self.next_occurrence(reading.unix_ms.saturating_sub(max_skew(reading.quality))) {
            Err(e) => {
                return Err(e);
            },
            Ok(None) => {
                return Ok(WindowEvaluation::Outside);
            },
            Ok(Some(candidate)) => candidate,
        };
        match reading.quality {
            ClockQuality::Unsynchronized => Ok(WindowEvaluation::Unsynchronized),
            ClockQuality::Synchronized => {
                if contains(candidate, reading.unix_ms) {
                    Ok(WindowEvaluation::Current(candidate))
                } else {
                    Ok(WindowEvaluation::Outside)
                }
            },
            ClockQuality::Uncertain { maximum_skew_ms } => {
                let earliest = reading.unix_ms.saturating_sub(maximum_skew_ms);
                let latest = reading.unix_ms.saturating_add(maximum_skew_ms);
                if contains(candidate, earliest) && contains(candidate, latest) {
                    Ok(WindowEvaluation::Current(candidate))
                } else if latest >= candidate.starts_at_ms && earliest < candidate.ends_at_ms {
                    Ok(WindowEvaluation::Indeterminate { candidate, maximum_skew_ms })
                } else {
                    Ok(WindowEvaluation::Outside)
                }
            },
        }
    }
}

fn contains(occurrence: WindowOccurrence, at_ms: u64) -> (r: bool)
    ensures
        r == occurrence_contains(occurrence, at_ms),
{
    at_ms >= occurrence.starts_at_ms && at_ms < occurrence.ends_at_ms
}

/// UTC date from a Gregorian calendar date; invalid dates are a range error.
pub fn utc_date(year: i32, month: u8, day: u8) -> (r: Result<UtcDate, WindowError>)
    ensures
        match calendar_julian_day(year, month, day) {
            Some(jd) => r matches Ok(d) && d.day() == jd,
            None => r == Err::<UtcDate, WindowError>(WindowError::TimestampRange),
        },
{
    match calendar_date(year, month, day) {
        Some(date) => Ok(date),
        None => Err(WindowError::TimestampRange),
    }
}

proof fn lemma_scan_occurrence(w: WeeklyWindow, from_ms: u64, day: int, last: int)
    requires
        w.duration_ms > 0,
    ensures
        weekly_scan(w, from_ms, day, last) matches Ok(Some(o)) ==> o.ends_at_ms > from_ms && o.starts_at_ms
            < o.ends_at_ms && o.ends_at_ms - o.starts_at_ms == w.duration_ms,
    decreases last + 1 - day,
{
    if day <= last {
        lemma_scan_occurrence(w, from_ms, day + 1, last);
    }
}

/// Every occurrence found ends after the lookup time, is non-empty, and
/// lasts exactly the window's duration.
pub proof fn law_next_occurrence_ends_after_lookup(window: NetWindow, from_ms: u64)
    ensures
        next_occurrence_of(window, from_ms) matches Ok(Some(o)) ==> {
            &&& o.ends_at_ms > from_ms
            &&& o.starts_at_ms < o.ends_at_ms
            &&& o.ends_at_ms - o.starts_at_ms == match window {
                NetWindow::OneShot(w) => w.duration_ms,
                NetWindow::Weekly(w) => w.duration_ms,
            }
        },
{
    match window {
        NetWindow::OneShot(w) => {},
        NetWindow::Weekly(w) => {
            if weekly_defect(w) is None && representable_ms(from_ms) {
                lemma_scan_occurrence(
                    w,
                    from_ms,
                    first_search_day(w, from_ms),
                    last_search_day(w, lookup_day(w, from_ms)),
                );
            }
        },
    }
}

/// An unsynchronized clock never claims that a window is current.
pub proof fn law_unsynchronized_never_current(window: NetWindow, reading: ClockReading)
    requires
        reading.quality == ClockQuality::Unsynchronized,
    ensures
        !(evaluation_of(window, reading) matches Ok(WindowEvaluation::Current(_))),
{
}

/// A window is reported current only when every instant the clock may
/// really be at lies inside the half-open occurrence.
pub proof fn law_current_covers_uncertainty(window: NetWindow, reading: ClockReading)
    requires
        evaluation_of(window, reading) matches Ok(WindowEvaluation::Current(_)),
    ensures
        evaluation_of(window, reading) matches Ok(WindowEvaluation::Current(c)) && {
            &&& reading.quality != ClockQuality::Unsynchronized
            &&& occurrence_contains(c, u64::saturating_sub(reading.unix_ms, skew_of(reading.quality)))
            &&& occurrence_contains(c, u64::saturating_add(reading.unix_ms, skew_of(reading.quality)))
            &&& occurrence_contains(c, reading.unix_ms)
        },
{
}

/// The weekly search misses no open occurrence: on every day from the start
/// date up to the first day searched, an occurrence would already have
/// ended by `from_ms`. So the occurrence found is the first one, since the
/// start date, whose end is after `from_ms`.
pub proof fn law_weekly_search_misses_no_open_occurrence(w: WeeklyWindow, from_ms: u64, day: int)
    requires
        w.utc_time.within_day(),
        w.start_date.day() <= day < first_search_day(w, from_ms),
    ensures
        start_on(w, day) + w.duration_ms <= from_ms,
{
    w.utc_time.lemma_millis_within_day();
    let m = MS_PER_DAY as int;
    let k = days_open(w);
    let d = day_of_ms(from_ms);
    assert(day + k + 1 <= d);
    assert(w.duration_ms <= k * m) by (nonlinear_arith)
        requires
            m == 86_400_000,
            k == (w.duration_ms + m - 1) / m,
    ;
    assert((d - UNIX_EPOCH_JULIAN_DAY) * m <= from_ms) by (nonlinear_arith)
        requires
            m == 86_400_000,
            d == UNIX_EPOCH_JULIAN_DAY + (from_ms as int) / m,
    ;
    assert((day - UNIX_EPOCH_JULIAN_DAY) * m + m + k * m <= (d - UNIX_EPOCH_JULIAN_DAY) * m) by (nonlinear_arith)
        requires
            m == 86_400_000,
            day + k + 1 <= d,
    ;
}

proof fn lemma_scan_passes_closed_days(w: WeeklyWindow, from_ms: u64, day: int, d: int, last: int)
    requires
        day <= d <= last,
        d <= MAX_JULIAN_DAY,
        forall|k: int| day <= k < d ==> #[trigger] start_on(w, k) + w.duration_ms <= from_ms,
    ensures
        weekly_scan(w, from_ms, day, last) == weekly_scan(w, from_ms, d, last),
    decreases d - day,
{
    if day < d {
        assert(start_on(w, day) + w.duration_ms <= from_ms);
        lemma_scan_passes_closed_days(w, from_ms, day + 1, d, last);
    }
}

/// The occurrence on a day, in Unix milliseconds.
pub open spec fn occurrence_on(w: WeeklyWindow, julian_day: int) -> WindowOccurrence {
    WindowOccurrence {
        starts_at_ms: start_on(w, julian_day) as u64,
        ends_at_ms: (start_on(w, julian_day) + w.duration_ms) as u64,
    }
}

/// Recurrence is counted in whole weeks from the Monday of the start week,
/// so the start week itself is an occurrence week: every listed weekday of
/// that week from the start date on holds an occurrence. Looked up at the
/// moment it begins, that occurrence is the one found (earlier ones, lasting
/// at most a day, have ended by then).
pub proof fn law_weekly_start_week_recurs(w: WeeklyWindow, d: int)
    requires
        weekly_defect(w) is None,
        w.utc_time.within_day(),
        w.duration_ms <= MS_PER_DAY,
        w.start_date.day() <= d,
        monday_of_week(d) == monday_of_week(w.start_date.day()),
        UNIX_EPOCH_JULIAN_DAY <= d <= MAX_JULIAN_DAY,
        exists|i: int| 0 <= i < w.weekdays@.len() && weekday_number(#[trigger] w.weekdays@[i]) == weekday_index(d),
        w.end_date matches Some(end) ==> d <= end.day(),
    ensures
        next_occurrence_of(NetWindow::Weekly(w), start_on(w, d) as u64) == Ok::<
            Option<WindowOccurrence>,
            WindowError,
        >(Some(occurrence_on(w, d))),
{
    w.utc_time.lemma_millis_within_day();
    let m = MS_PER_DAY as int;
    let t = w.utc_time.millis();
    let start = start_on(w, d);
    assert(0 <= start <= (MAX_JULIAN_DAY - UNIX_EPOCH_JULIAN_DAY) * m + m - 1) by (nonlinear_arith)
        requires
            m == 86_400_000,
            UNIX_EPOCH_JULIAN_DAY <= d <= MAX_JULIAN_DAY,
            0 <= t < m,
            start == (d - UNIX_EPOCH_JULIAN_DAY) * m + t,
    ;
    let from = start as u64;
    assert((from as int) / m == d - UNIX_EPOCH_JULIAN_DAY) by (nonlinear_arith)
        requires
            m == 86_400_000,
            0 <= t < m,
            from as int == (d - UNIX_EPOCH_JULIAN_DAY) * m + t,
            d - UNIX_EPOCH_JULIAN_DAY >= 0,
    ;
    assert(from / 1000 <= MAX_UNIX_SECONDS);
    assert(day_of_ms(from) == d);
    let first = first_search_day(w, from);
    let last = last_search_day(w, lookup_day(w, from));
    assert forall|k: int| first <= k < d implies #[trigger] start_on(w, k) + w.duration_ms <= from by {
        assert(start_on(w, k) + m == start_on(w, k + 1));
    }
    lemma_scan_passes_closed_days(w, from, first, d, last);
    let n = w.interval_weeks as int;
    assert(monday_of_week(d) - monday_of_week(w.start_date.day()) == 0);
    assert((0int / 7) == 0);
    assert(0int % n == 0) by (nonlinear_arith)
        requires
            n > 0,
    ;
    assert(interval_week(w, d));
    assert(scheduled_on(w, d));
}

/// With the start date's own weekday listed, the first occurrence from any
/// time up to the start date's midnight is the one on the start date.
pub proof fn law_weekly_first_occurrence_on_start_date(w: WeeklyWindow, from_ms: u64)
    requires
        weekly_defect(w) is None,
        w.utc_time.within_day(),
        UNIX_EPOCH_JULIAN_DAY <= w.start_date.day() <= MAX_JULIAN_DAY,
        exists|i: int|
            0 <= i < w.weekdays@.len() && weekday_number(#[trigger] w.weekdays@[i]) == weekday_index(w.start_date.day()),
        from_ms <= (w.start_date.day() - UNIX_EPOCH_JULIAN_DAY) * (MS_PER_DAY as int),
        start_on(w, w.start_date.day()) + w.duration_ms <= u64::MAX,
        w.end_date matches Some(end) ==> w.start_date.day() <= end.day(),
    ensures
        next_occurrence_of(NetWindow::Weekly(w), from_ms) == Ok::<Option<WindowOccurrence>, WindowError>(
            Some(occurrence_on(w, w.start_date.day())),
        ),
{
    w.utc_time.lemma_millis_within_day();
    let m = MS_PER_DAY as int;
    let s = w.start_date.day();
    assert((from_ms as int) / m <= s - UNIX_EPOCH_JULIAN_DAY) by (nonlinear_arith)
        requires
            m == 86_400_000,
            0 <= from_ms <= (s - UNIX_EPOCH_JULIAN_DAY) * m,
    ;
    assert(from_ms / 1000 <= MAX_UNIX_SECONDS) by (nonlinear_arith)
        requires
            m == 86_400_000,
            from_ms <= (s - UNIX_EPOCH_JULIAN_DAY) * m,
            s <= MAX_JULIAN_DAY,
            MAX_JULIAN_DAY == 5_373_484,
            UNIX_EPOCH_JULIAN_DAY == 2_440_588,
            MAX_UNIX_SECONDS == 253_402_300_799u64,
    ;
    assert(first_search_day(w, from_ms) == s);
    let n = w.interval_weeks as int;
    assert((0int / 7) == 0);
    assert(0int % n == 0) by (nonlinear_arith)
        requires
            n > 0,
    ;
    assert(interval_week(w, s));
    assert(scheduled_on(w, s));
}

} // verus!
