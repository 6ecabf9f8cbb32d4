//! A civil date and time of day, with the calendar facts the scheduling logic needs.

use vstd::prelude::*;

verus! {

/// The earliest year that chrono's calendar can represent.
pub const MIN_YEAR: i32 = -262143;

/// The latest year that chrono's calendar can represent.
pub const MAX_YEAR: i32 = 262142;

/// Leap years of the proleptic Gregorian calendar.
pub open spec fn is_leap_year(year: int) -> bool {
    (year % 4 == 0 && year % 100 != 0) || year % 400 == 0
}

/// The number of days of a month (1 to 12) of the proleptic Gregorian calendar.
pub open spec fn month_length(year: int, month: int) -> int {
    if month == 2 {
        if is_leap_year(year) {
            29
        } else {
            28
        }
    } else if month == 4 || month == 6 || month == 9 || month == 11 {
        30
    } else {
        31
    }
}

/// Relies on `chrono::Month::try_from(u8)` to name the month and on `chrono::Month::num_days`
/// for its length: `Some` for every month of a year that chrono's calendar holds, 29 days for a
/// leap-year February.
#[verifier::external_body]
fn month_num_days(year: i32, month: u8) -> (r: Option<u8>)
    requires
        MIN_YEAR <= year <= MAX_YEAR,
        1 <= month <= 12,
    ensures
        r == Some(month_length(year as int, month as int) as u8),
{
    match chrono::Month::try_from(month) {
        Ok(m) => m.num_days(year),
        Err(_) => None,
    }
}

/// The number of days of `month` in `year`.
pub fn days_in_month(year: i32, month: u8) -> (r: u8)
    requires
        MIN_YEAR <= year <= MAX_YEAR,
        1 <= month <= 12,
    ensures
        r as int == month_length(year as int, month as int),
{
    match month_num_days(year, month) {
        Some(n) => n,
        None => 31,
    }
}

/// A date and time of day, without a time zone, to the nanosecond.
#[derive(Clone, Copy, Debug, PartialEq, Eq, Structural)]
pub struct DateTime {
    pub year: i32,
    /// 1 to 12.
    pub month: u8,
    /// 1 to the length of the month.
    pub day: u8,
    pub hour: u8,
    pub minute: u8,
    pub second: u8,
    pub nanosecond: u32,
}

/// The months that this library can step past: all but the last month of `MAX_YEAR`.
pub open spec fn last_month_index() -> int {
    MAX_YEAR as int * 12 + 11
}

impl DateTime {
    /// An existing date of chrono's calendar and a time of day.
    pub open spec fn wf(self) -> bool {
        &&& MIN_YEAR <= self.year <= MAX_YEAR
        &&& 1 <= self.month <= 12
        &&& 1 <= self.day <= month_length(self.year as int, self.month as int)
        &&& self.hour < 24
        &&& self.minute < 60
        &&& self.second < 60
        &&& self.nanosecond < 1_000_000_000
    }

    /// Position of the month on a line on which later months lie further right.
    pub open spec fn month_index(self) -> int {
        self.year as int * 12 + (self.month as int - 1)
    }

    /// Position of the day: later days of valid values have larger positions (the positions
    /// leave gaps, so they count no days).
    pub open spec fn day_index(self) -> int {
        self.month_index() * 32 + self.day as int
    }

    pub open spec fn hour_index(self) -> int {
        self.day_index() * 24 + self.hour as int
    }

    pub open spec fn minute_index(self) -> int {
        self.hour_index() * 60 + self.minute as int
    }

    /// Position of the whole second: on valid values, `a.second_index() < b.second_index()`
    /// exactly when `a`'s second comes before `b`'s.
    pub open spec fn second_index(self) -> int {
        self.minute_index() * 60 + self.second as int
    }

    /// Position of the instant, to the nanosecond.
    pub open spec fn instant(self) -> int {
        self.second_index() * 1_000_000_000 + self.nanosecond as int
    }

    /// The value at the start of its second.
    pub open spec fn truncated(self) -> DateTime {
        DateTime { nanosecond: 0, ..self }
    }

    /// The start of the following day.
    #[verifier::opaque]
    pub open spec fn following_day(self) -> DateTime {
        if (self.day as int) < month_length(self.year as int, self.month as int) {
            DateTime { day: (self.day + 1) as u8, hour: 0, minute: 0, second: 0, nanosecond: 0, ..self }
        } else if self.month < 12 {
            DateTime {
                month: (self.month + 1) as u8,
                day: 1,
                hour: 0,
                minute: 0,
                second: 0,
                nanosecond: 0,
                ..self
            }
        } else {
            DateTime {
                year: (self.year + 1) as i32,
                month: 1,
                day: 1,
                hour: 0,
                minute: 0,
                second: 0,
                nanosecond: 0,
            }
        }
    }

    /// The start of the following hour.
    #[verifier::opaque]
    pub open spec fn following_hour(self) -> DateTime {
        if self.hour < 23 {
            DateTime { hour: (self.hour + 1) as u8, minute: 0, second: 0, nanosecond: 0, ..self }
        } else {
            self.following_day()
        }
    }

    /// The start of the following minute.
    #[verifier::opaque]
    pub open spec fn following_minute(self) -> DateTime {
        if self.minute < 59 {
            DateTime { minute: (self.minute + 1) as u8, second: 0, nanosecond: 0, ..self }
        } else {
            self.following_hour()
        }
    }

    /// The start of the following second.
    #[verifier::opaque]
    pub open spec fn following_second(self) -> DateTime {
        if self.second < 59 {
            DateTime { second: (self.second + 1) as u8, nanosecond: 0, ..self }
        } else {
            self.following_minute()
        }
    }

    /// Makes a date and time at the start of a second; `None` where the date does not exist
    /// (or lies outside chrono's years) or the time of day is out of range.
    pub fn new(year: i32, month: u8, day: u8, hour: u8, minute: u8, second: u8) -> (r: Option<
        DateTime,
    >)
        ensures
            r is Some <==> (DateTime {
                year,
                month,
                day,
                hour,
                minute,
                second,
                nanosecond: 0,
            }).wf(),
            r is Some ==> r->0 == (DateTime { year, month, day, hour, minute, second, nanosecond: 0 }),
    {
        if year < MIN_YEAR || year > MAX_YEAR || month < 1 || month > 12 || hour >= 24 || minute
            >= 60 || second >= 60 || day < 1 {
            return None;
        }
        if day > days_in_month(year, month) {
            return None;
        }
        Some(DateTime { year, month, day, hour, minute, second, nanosecond: 0 })
    }

    /// The same instant with its fraction of a second set; `None` where `nanosecond` is not
    /// below one billion.
    pub fn with_nanosecond(self, nanosecond: u32) -> (r: Option<DateTime>)
        ensures
            r is Some <==> nanosecond < 1_000_000_000,
            r is Some ==> r->0 == (DateTime { nanosecond, ..self }),
    {
        if nanosecond < 1_000_000_000 {
            Some(DateTime { nanosecond, ..self })
        } else {
            None
        }
    }

    /// Whether this is a valid value (see `wf`).
    pub fn is_valid(&self) -> (r: bool)
        ensures
            r == self.wf(),
    {
        if self.year < MIN_YEAR || self.year > MAX_YEAR || self.month < 1 || self.month > 12
            || self.hour >= 24 || self.minute >= 60 || self.second >= 60 || self.nanosecond
            >= 1_000_000_000 || self.day < 1 {
            return false;
        }
        self.day <= days_in_month(self.year, self.month)
    }

    /// Whether `self` comes strictly before `other`.
    pub fn is_before(&self, other: &DateTime) -> (r: bool)
        requires
            self.wf(),
            other.wf(),
        ensures
            r == (self.instant() < other.instant()),
    {
        if self.year != other.year {
            self.year < other.year
        } else if self.month != other.month {
            self.month < other.month
        } else if self.day != other.day {
            self.day < other.day
        } else if self.hour != other.hour {
            self.hour < other.hour
        } else if self.minute != other.minute {
            self.minute < other.minute
        } else if self.second != other.second {
            self.second < other.second
        } else {
            self.nanosecond < other.nanosecond
        }
    }

    /// The start of the following day.
    pub fn start_of_next_day(self) -> (r: DateTime)
        requires
            self.wf(),
            self.month_index() < last_month_index(),
        ensures
            r == self.following_day(),
            r.wf(),
            r.hour == 0 && r.minute == 0 && r.second == 0 && r.nanosecond == 0,
            r.day_index() > self.day_index(),
            forall|t: DateTime| #[trigger]
                t.wf() && t.day_index() > self.day_index() ==> t.day_index() >= r.day_index(),
            r.month_index() <= self.month_index() + 1,
    {
        proof {
            reveal(DateTime::following_day);
        }
        let dim = days_in_month(self.year, self.month);
        let r = if self.day < dim {
            DateTime { day: self.day + 1, hour: 0, minute: 0, second: 0, nanosecond: 0, ..self }
        } else if self.month < 12 {
            DateTime {
                month: self.month + 1,
                day: 1,
                hour: 0,
                minute: 0,
                second: 0,
                nanosecond: 0,
                ..self
            }
        } else {
            DateTime {
                year: self.year + 1,
                month: 1,
                day: 1,
                hour: 0,
                minute: 0,
                second: 0,
                nanosecond: 0,
            }
        };
        assert forall|t: DateTime|
            t.wf() && t.day_index() > self.day_index() implies t.day_index() >= r.day_index() by {
            if t.month_index() == self.month_index() {
                assert(t.year == self.year && t.month == self.month);
            }
        }
        r
    }

    /// The start of the following hour.
    pub fn start_of_next_hour(self) -> (r: DateTime)
        requires
            self.wf(),
            self.month_index() < last_month_index(),
        ensures
            r == self.following_hour(),
            r.wf(),
            r.minute == 0 && r.second == 0 && r.nanosecond == 0,
            r.hour_index() > self.hour_index(),
            forall|t: DateTime| #[trigger]
                t.wf() && t.hour_index() > self.hour_index() ==> t.hour_index() >= r.hour_index(),
            r.month_index() <= self.month_index() + 1,
    {
        proof {
            reveal(DateTime::following_hour);
        }
        if self.hour < 23 {
            DateTime { hour: self.hour + 1, minute: 0, second: 0, nanosecond: 0, ..self }
        } else {
            let r = self.start_of_next_day();
            assert forall|t: DateTime|
                t.wf() && t.hour_index() > self.hour_index() implies t.hour_index()
                >= r.hour_index() by {
                assert(t.wf() && t.day_index() > self.day_index());
            }
            r
        }
    }

    /// The start of the following minute.
    pub fn start_of_next_minute(self) -> (r: DateTime)
        requires
            self.wf(),
            self.month_index() < last_month_index(),
        ensures
            r == self.following_minute(),
            r.wf(),
            r.second == 0 && r.nanosecond == 0,
            r.minute_index() > self.minute_index(),
            forall|t: DateTime| #[trigger]
                t.wf() && t.minute_index() > self.minute_index() ==> t.minute_index()
                    >= r.minute_index(),
            r.month_index() <= self.month_index() + 1,
    {
        proof {
            reveal(DateTime::following_minute);
        }
        if self.minute < 59 {
            DateTime { minute: self.minute + 1, second: 0, nanosecond: 0, ..self }
        } else {
            let r = self.start_of_next_hour();
            assert forall|t: DateTime|
                t.wf() && t.minute_index() > self.minute_index() implies t.minute_index()
                >= r.minute_index() by {
                assert(t.wf() && t.hour_index() > self.hour_index());
            }
            r
        }
    }

    /// The start of the following second.
    pub fn start_of_next_second(self) -> (r: DateTime)
        requires
            self.wf(),
            self.month_index() < last_month_index(),
        ensures
            r == self.following_second(),
            r.wf(),
            r.nanosecond == 0,
            r.second_index() > self.second_index(),
            forall|t: DateTime| #[trigger]
                t.wf() && t.second_index() > self.second_index() ==> t.second_index()
                    >= r.second_index(),
            r.month_index() <= self.month_index() + 1,
    {
        proof {
            reveal(DateTime::following_second);
        }
        if self.second < 59 {
            DateTime { second: self.second + 1, nanosecond: 0, ..self }
        } else {
            let r = self.start_of_next_minute();
            assert forall|t: DateTime|
                t.wf() && t.second_index() > self.second_index() implies t.second_index()
                >= r.second_index() by {
                assert(t.wf() && t.minute_index() > self.minute_index());
            }
            r
        }
    }
}

} // verus!
