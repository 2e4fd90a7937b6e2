//! Which snapshot, if any, is due: a pure function of the last successful
//! update and the current time (UTC).
use vstd::prelude::*;

use crate::radio::LastUpdatesType;

verus! {

/// First hour (UTC) at which the provider's daily snapshot is available.
pub const UPDATE_AVAILABLE_HOUR_UTC: u32 = 4;

/// Earliest year chrono can represent.
pub const MIN_YEAR: i32 = -262143;

/// Latest year chrono can represent.
pub const MAX_YEAR: i32 = 262142;

/// A UTC date and time to the second, in the proleptic Gregorian calendar.
#[derive(Clone, Copy, Debug, PartialEq, Eq, Structural)]
pub struct UtcDateTime {
    pub year: i32,
    pub month: u32,
    pub day: u32,
    pub hour: u32,
    pub minute: u32,
    pub second: u32,
}

pub open spec fn is_leap_year(y: int) -> bool {
    (y % 4 == 0 && y % 100 != 0) || y % 400 == 0
}

pub open spec fn days_in_month(y: int, m: int) -> int {
    if m == 2 {
        if is_leap_year(y) {
            29
        } else {
            28
        }
    } else if m == 4 || m == 6 || m == 9 || m == 11 {
        30
    } else {
        31
    }
}

/// Days from 1970-01-01 to the given civil date.
pub open spec fn days_from_civil(y: int, m: int, d: int) -> int {
    let y1 = if m <= 2 {
        y - 1
    } else {
        y
    };
    let era = y1 / 400;
    let yoe = y1 - era * 400;
    let mp = if m > 2 {
        m - 3
    } else {
        m + 9
    };
    let doy = (153 * mp + 2) / 5 + d - 1;
    let doe = yoe * 365 + yoe / 4 - yoe / 100 + doy;
    era * 146097 + doe - 719468
}

/// Integer division rounded toward zero, as `TimeDelta::num_days` and
/// `num_hours` round.
pub open spec fn div_toward_zero(a: int, b: int) -> int {
    if a >= 0 {
        a / b
    } else {
        -((-a) / b)
    }
}

impl UtcDateTime {
    pub open spec fn wf(self) -> bool {
        &&& MIN_YEAR <= self.year <= MAX_YEAR
        &&& 1 <= self.month <= 12
        &&& 1 <= self.day <= days_in_month(self.year as int, self.month as int)
        &&& self.hour < 24
        &&& self.minute < 60
        &&& self.second < 60
    }

    /// Seconds since 1970-01-01T00:00:00Z.
    pub open spec fn unix_seconds(self) -> int {
        days_from_civil(self.year as int, self.month as int, self.day as int) * 86400 + self.hour
            * 3600 + self.minute * 60 + self.second
    }

    /// `self` comes after `other`: the fields compared from the year down to
    /// the second, which for well-formed values is the order of time.
    pub open spec fn later_than(self, other: UtcDateTime) -> bool {
        ||| self.year > other.year
        ||| (self.year == other.year && self.month > other.month)
        ||| (self.year == other.year && self.month == other.month && self.day > other.day)
        ||| (self.year == other.year && self.month == other.month && self.day == other.day
            && self.hour > other.hour)
        ||| (self.year == other.year && self.month == other.month && self.day == other.day
            && self.hour == other.hour && self.minute > other.minute)
        ||| (self.year == other.year && self.month == other.month && self.day == other.day
            && self.hour == other.hour && self.minute == other.minute && self.second > other.second)
    }

    pub fn is_later_than(&self, other: &UtcDateTime) -> (r: bool)
        ensures
            r == self.later_than(*other),
    {
        if self.year != other.year {
            return self.year > other.year;
        }
        if self.month != other.month {
            return self.month > other.month;
        }
        if self.day != other.day {
            return self.day > other.day;
        }
        if self.hour != other.hour {
            return self.hour > other.hour;
        }
        if self.minute != other.minute {
            return self.minute > other.minute;
        }
        self.second > other.second
    }

    /// 1970-01-01T00:00:00Z, which also stands for "never updated".
    pub fn epoch() -> (r: UtcDateTime)
        ensures
            r.wf(),
            r.unix_seconds() == 0,
    {
        UtcDateTime { year: 1970, month: 1, day: 1, hour: 0, minute: 0, second: 0 }
    }

    /// The given date and time, or `None` when it does not exist or lies
    /// outside the years chrono represents.
    pub fn new(year: i32, month: u32, day: u32, hour: u32, minute: u32, second: u32) -> (r: Option<
        UtcDateTime,
    >)
        ensures
            match r {
                Some(t) => t.wf() && t == (UtcDateTime { year, month, day, hour, minute, second }),
                None => !(UtcDateTime { year, month, day, hour, minute, second }).wf(),
            },
    {
        if year < MIN_YEAR || year > MAX_YEAR || month < 1 || month > 12 || hour >= 24 || minute
            >= 60 || second >= 60 {
            return None;
        }
        // Shifting by a multiple of 400 years keeps leap years and makes the
        // remainders below non-negative.
        let shifted: u32 = (year as i64 + 400_000) as u32;
        assert((shifted as int) % 4 == (year as int) % 4);
        assert((shifted as int) % 100 == (year as int) % 100);
        assert((shifted as int) % 400 == (year as int) % 400);
        let leap = (shifted % 4 == 0 && shifted % 100 != 0) || shifted % 400 == 0;
        let last_day: u32 = if month == 2 {
            if leap {
                29
            } else {
                28
            }
        } else if month == 4 || month == 6 || month == 9 || month == 11 {
            30
        } else {
            31
        };
        if day < 1 || day > last_day {
            return None;
        }
        Some(UtcDateTime { year, month, day, hour, minute, second })
    }
}

/// Relies on chrono's `DateTime::<Utc>::timestamp` (built with
/// `NaiveDate::from_ymd_opt`, `and_hms_opt` and `and_utc`, which accept every
/// well-formed value): seconds since the epoch in the proleptic Gregorian
/// calendar, without leap seconds.
#[verifier::external_body]
fn unix_timestamp(t: &UtcDateTime) -> (r: i64)
    requires
        t.wf(),
    ensures
        r == t.unix_seconds(),
{
    let d = chrono::NaiveDate::from_ymd_opt(t.year, t.month, t.day).unwrap();
    d.and_hms_opt(t.hour, t.minute, t.second).unwrap().and_utc().timestamp()
}

/// Relies on chrono's `TimeDelta::num_days` of `to - from` (two
/// `DateTime<Utc>`): whole days, rounded toward zero.
#[verifier::external_body]
fn whole_days_between(from: &UtcDateTime, to: &UtcDateTime) -> (r: i64)
    requires
        from.wf(),
        to.wf(),
    ensures
        r == div_toward_zero(to.unix_seconds() - from.unix_seconds(), 86400),
{
    let a = chrono::NaiveDate::from_ymd_opt(from.year, from.month, from.day).unwrap();
    let a = a.and_hms_opt(from.hour, from.minute, from.second).unwrap().and_utc();
    let b = chrono::NaiveDate::from_ymd_opt(to.year, to.month, to.day).unwrap();
    let b = b.and_hms_opt(to.hour, to.minute, to.second).unwrap().and_utc();
    (b - a).num_days()
}

/// Relies on chrono's `TimeDelta::num_hours` of `to - from` (two
/// `DateTime<Utc>`): whole hours, rounded toward zero.
#[verifier::external_body]
fn whole_hours_between(from: &UtcDateTime, to: &UtcDateTime) -> (r: i64)
    requires
        from.wf(),
        to.wf(),
    ensures
        r == div_toward_zero(to.unix_seconds() - from.unix_seconds(), 3600),
{
    let a = chrono::NaiveDate::from_ymd_opt(from.year, from.month, from.day).unwrap();
    let a = a.and_hms_opt(from.hour, from.minute, from.second).unwrap().and_utc();
    let b = chrono::NaiveDate::from_ymd_opt(to.year, to.month, to.day).unwrap();
    let b = b.and_hms_opt(to.hour, to.minute, to.second).unwrap().and_utc();
    (b - a).num_hours()
}

/// The update due at `now` after a last successful update at `last_update`.
pub open spec fn update_type_spec(last_update: UtcDateTime, now: UtcDateTime) -> Option<
    LastUpdatesType,
> {
    if now.hour < UPDATE_AVAILABLE_HOUR_UTC {
        None
    } else if last_update.unix_seconds() == 0 {
        Some(LastUpdatesType::Full)
    } else if last_update.year != now.year || last_update.month != now.month {
        Some(LastUpdatesType::Full)
    } else if last_update.day == now.day {
        None
    } else {
        let elapsed = now.unix_seconds() - last_update.unix_seconds();
        if div_toward_zero(elapsed, 86400) <= 1 && div_toward_zero(elapsed, 3600) < 24 {
            Some(LastUpdatesType::Diff)
        } else {
            Some(LastUpdatesType::Full)
        }
    }
}

/// Decides the update kind: nothing before 04:00 UTC (the provider has not
/// published yet); a full snapshot when never updated or when the last update
/// lies in another month or year; nothing when already updated today; a diff
/// when less than a day has passed, a full snapshot otherwise.
pub fn get_update_type(last_update: UtcDateTime, now: UtcDateTime) -> (r: Option<LastUpdatesType>)
    requires
        last_update.wf(),
        now.wf(),
    ensures
        r == update_type_spec(last_update, now),
{
    if now.hour < UPDATE_AVAILABLE_HOUR_UTC {
        return None;
    }
    if unix_timestamp(&last_update) == 0 {
        return Some(LastUpdatesType::Full);
    }
    if last_update.year != now.year {
        return Some(LastUpdatesType::Full);
    }
    if last_update.month != now.month {
        return Some(LastUpdatesType::Full);
    }
    if last_update.day == now.day {
        return None;
    }
    let days = whole_days_between(&last_update, &now);
    let hours = whole_hours_between(&last_update, &now);
    if days <= 1 && hours < 24 {
        return Some(LastUpdatesType::Diff);
    }
    Some(LastUpdatesType::Full)
}

} // verus!
