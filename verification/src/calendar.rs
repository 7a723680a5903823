//! Proleptic Gregorian calendar dates (UTC) and times of day.
use vstd::prelude::*;

verus! {

/// Julian day number of 1970-01-01, the Unix epoch.
pub const UNIX_EPOCH_JULIAN_DAY: i32 = 2_440_588;

/// Julian day number of the earliest supported date, -9999-01-01.
pub const MIN_JULIAN_DAY: i32 = -1_930_999;

/// Julian day number of the latest supported date, 9999-12-31.
pub const MAX_JULIAN_DAY: i32 = 5_373_484;

/// Milliseconds in one UTC day.
pub const MS_PER_DAY: u64 = 86_400_000;

/// The last Unix second (9999-12-31T23:59:59) that maps to a supported date.
pub const MAX_UNIX_SECONDS: u64 = 253_402_300_799;

pub open spec fn is_leap_year(year: int) -> bool {
    (year % 4 == 0 && year % 100 != 0) || year % 400 == 0
}

pub open spec fn days_in_month(year: int, month: int) -> int {
    if month == 2 {
        if is_leap_year(year) {
            29
        } else {
            28
        }
    } else if month == 4 || month == 6 || month == 9 || month == 11 {
        30
    } else {
        31
    }
}

/// A calendar date within the supported years -9999 to 9999.
pub open spec fn valid_calendar_date(year: int, month: int, day: int) -> bool {
    &&& -9999 <= year <= 9999
    &&& 1 <= month <= 12
    &&& 1 <= day <= days_in_month(year, month)
}

/// The Julian day number of a proleptic Gregorian calendar date.
pub open spec fn julian_day_of(year: int, month: int, day: int) -> int {
    let a = (14 - month) / 12;
    let y = year + 4800 - a;
    let m = month + 12 * a - 3;
    day + (153 * m + 2) / 5 + 365 * y + y / 4 - y / 100 + y / 400 - 32045
}

/// The Julian day of a calendar date, or `None` when the date is invalid.
pub open spec fn calendar_julian_day(year: i32, month: u8, day: u8) -> Option<i32> {
    if valid_calendar_date(year as int, month as int, day as int) {
        Some(julian_day_of(year as int, month as int, day as int) as i32)
    } else {
        None
    }
}

/// `time::Date::from_calendar_date` (with `time::Month::try_from` for the
/// month number) followed by `Date::to_julian_day`. The contract claims the
/// documented behaviour: a date is accepted exactly when its year is within
/// ±9999, its month within 1..=12 and its day within the month, and its
/// Julian day number follows the proleptic Gregorian calendar.
#[verifier::external_body]
fn julian_day_from_calendar(year: i32, month: u8, day: u8) -> (r: Option<i32>)
    ensures
        r == calendar_julian_day(year, month, day),
        r matches Some(jd) ==> MIN_JULIAN_DAY <= jd <= MAX_JULIAN_DAY,
{
    let month = match time::Month::try_from(month) {
        Ok(month) => month,
        Err(_) => return None,
    };
    match time::Date::from_calendar_date(year, month, day) {
        Ok(date) => Some(date.to_julian_day()),
        Err(_) => None,
    }
}

#[derive(Clone, Copy, Debug, PartialEq, Eq, Structural, PartialOrd, Ord, Hash)]
pub enum Weekday {
    Monday,
    Tuesday,
    Wednesday,
    Thursday,
    Friday,
    Saturday,
    Sunday,
}

pub open spec fn weekday_number(w: Weekday) -> int {
    match w {
        Weekday::Monday => 0,
        Weekday::Tuesday => 1,
        Weekday::Wednesday => 2,
        Weekday::Thursday => 3,
        Weekday::Friday => 4,
        Weekday::Saturday => 5,
        Weekday::Sunday => 6,
    }
}

/// Days since Monday of the day with this Julian day number (Julian day 0
/// was a Monday).
pub open spec fn weekday_index(julian_day: int) -> int {
    julian_day % 7
}

/// Days since Monday of a supported Julian day.
pub fn weekday_index_of(julian_day: i32) -> (r: u32)
    requires
        MIN_JULIAN_DAY <= julian_day <= MAX_JULIAN_DAY,
    ensures
        r == weekday_index(julian_day as int),
        r < 7,
{
    let offset = (julian_day - MIN_JULIAN_DAY) as u32;
    let index = offset % 7;
    assert(index == weekday_index(julian_day as int)) by {
        assert(MIN_JULIAN_DAY == -7 * 275_857);
        assert((offset as int) % 7 == (julian_day as int + 7 * 275_857) % 7);
        assert((julian_day as int + 7 * 275_857) % 7 == (julian_day as int) % 7) by (nonlinear_arith);
    }
    index
}

impl Weekday {
    /// Zero-indexed number of days from Monday.
    pub fn number_days_from_monday(self) -> (r: u8)
        ensures
            r == weekday_number(self),
    {
        match self {
            Weekday::Monday => 0,
            Weekday::Tuesday => 1,
            Weekday::Wednesday => 2,
            Weekday::Thursday => 3,
            Weekday::Friday => 4,
            Weekday::Saturday => 5,
            Weekday::Sunday => 6,
        }
    }
}

/// A UTC calendar date, held as its Julian day number.
#[derive(Clone, Copy, Debug, PartialEq, Eq, Structural, PartialOrd, Ord, Hash)]
pub struct UtcDate {
    julian_day: i32,
}

impl UtcDate {
    #[verifier::type_invariant]
    spec fn in_range(self) -> bool {
        MIN_JULIAN_DAY <= self.julian_day <= MAX_JULIAN_DAY
    }

    pub closed spec fn day(self) -> int {
        self.julian_day as int
    }

    /// The date with this Julian day number, if supported.
    pub fn from_julian_day(julian_day: i32) -> (r: Option<UtcDate>)
        ensures
            match r {
                Some(d) => d.day() == julian_day,
                None => !(MIN_JULIAN_DAY <= julian_day <= MAX_JULIAN_DAY),
            },
    {
        if MIN_JULIAN_DAY <= julian_day && julian_day <= MAX_JULIAN_DAY {
            Some(UtcDate { julian_day })
        } else {
            None
        }
    }

    /// The Julian day number.
    pub fn to_julian_day(self) -> (r: i32)
        ensures
            r == self.day(),
            MIN_JULIAN_DAY <= r <= MAX_JULIAN_DAY,
    {
        proof {
            use_type_invariant(self);
        }
        self.julian_day
    }

    /// The day of the week.
    pub fn weekday(self) -> (r: Weekday)
        ensures
            weekday_number(r) == weekday_index(self.day()),
    {
        let index = weekday_index_of(self.to_julian_day());
        if index == 0 {
            Weekday::Monday
        } else if index == 1 {
            Weekday::Tuesday
        } else if index == 2 {
            Weekday::Wednesday
        } else if index == 3 {
            Weekday::Thursday
        } else if index == 4 {
            Weekday::Friday
        } else if index == 5 {
            Weekday::Saturday
        } else {
            Weekday::Sunday
        }
    }
}

/// Constructs a UTC date from a Gregorian calendar date.
pub fn calendar_date(year: i32, month: u8, day: u8) -> (r: Option<UtcDate>)
    ensures
        match calendar_julian_day(year, month, day) {
            Some(jd) => r matches Some(d) && d.day() == jd,
            None => r is None,
        },
{
    match julian_day_from_calendar(year, month, day) {
        Some(jd) => UtcDate::from_julian_day(jd),
        None => None,
    }
}

/// A UTC time of day.
#[derive(Clone, Copy, Debug, PartialEq, Eq, Structural, PartialOrd, Ord, Hash)]
pub struct UtcTime {
    hour: u8,
    minute: u8,
    second: u8,
    nanosecond: u32,
}

impl UtcTime {
    #[verifier::type_invariant]
    spec fn in_range(self) -> bool {
        self.hour < 24 && self.minute < 60 && self.second < 60 && self.nanosecond < 1_000_000_000
    }

    /// Milliseconds since midnight (nanoseconds truncated).
    pub closed spec fn millis(self) -> int {
        self.hour * 3_600_000 + self.minute * 60_000 + self.second * 1_000 + self.nanosecond / 1_000_000
    }

    /// The fields lie within a day, as for every time built by this type.
    pub closed spec fn within_day(self) -> bool {
        self.in_range()
    }

    /// A time within the day is less than a day's milliseconds after midnight.
    pub proof fn lemma_millis_within_day(self)
        requires
            self.within_day(),
        ensures
            0 <= self.millis() < MS_PER_DAY,
    {
    }

    pub closed spec fn parts(self) -> (u8, u8, u8, u32) {
        (self.hour, self.minute, self.second, self.nanosecond)
    }

    /// Midnight, 00:00:00.
    pub fn midnight() -> (r: UtcTime)
        ensures
            r.parts() == (0u8, 0u8, 0u8, 0u32),
            r.millis() == 0,
    {
        UtcTime { hour: 0, minute: 0, second: 0, nanosecond: 0 }
    }

    /// A time from hour, minute and second, if each is in range.
    pub fn from_hms(hour: u8, minute: u8, second: u8) -> (r: Option<UtcTime>)
        ensures
            match r {
                Some(t) => t.parts() == (hour, minute, second, 0u32) && t.millis() == hour * 3_600_000 + minute
                    * 60_000 + second * 1_000,
                None => !(hour < 24 && minute < 60 && second < 60),
            },
    {
        UtcTime::from_hms_nano(hour, minute, second, 0)
    }

    /// A time from hour, minute, second and nanosecond, if each is in range.
    pub fn from_hms_nano(hour: u8, minute: u8, second: u8, nanosecond: u32) -> (r: Option<UtcTime>)
        ensures
            match r {
                Some(t) => t.parts() == (hour, minute, second, nanosecond) && t.millis() == hour * 3_600_000
                    + minute * 60_000 + second * 1_000 + nanosecond / 1_000_000,
                None => !(hour < 24 && minute < 60 && second < 60 && nanosecond < 1_000_000_000),
            },
    {
        if hour < 24 && minute < 60 && second < 60 && nanosecond < 1_000_000_000 {
            Some(UtcTime { hour, minute, second, nanosecond })
        } else {
            None
        }
    }

    /// Milliseconds since midnight.
    pub fn millis_of_day(self) -> (r: u64)
        ensures
            r == self.millis(),
            r < MS_PER_DAY,
            self.within_day(),
    {
        proof {
            use_type_invariant(self);
        }
        self.hour as u64 * 3_600_000 + self.minute as u64 * 60_000 + self.second as u64 * 1_000 + (self.nanosecond
            / 1_000_000) as u64
    }
}

} // verus!
