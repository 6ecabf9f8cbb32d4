//! Calendar patterns over day of month, hour, minute and second, and the first instant at or
//! after a given one that a pattern matches.

pub mod component;

use vstd::prelude::*;

use self::component::{Component, FieldView};
use crate::datetime::{days_in_month, last_month_index, month_length, DateTime, MAX_YEAR};

verus! {

/// Day values from this one (0-based) upward do not fall in every month.
const MIN_DAYS: u8 = 28;

/// The four fields of a pattern; the day field holds 0-based days of the month.
pub ghost struct PatternView {
    pub day: FieldView,
    pub hour: FieldView,
    pub minute: FieldView,
    pub second: FieldView,
}

impl PatternView {
    pub open spec fn matches_s(self, t: DateTime) -> bool {
        self.second.contains(t.second as int)
    }

    pub open spec fn matches_ms(self, t: DateTime) -> bool {
        self.minute.contains(t.minute as int) && self.matches_s(t)
    }

    pub open spec fn matches_hms(self, t: DateTime) -> bool {
        self.hour.contains(t.hour as int) && self.matches_ms(t)
    }

    /// Each field is a valid field over its unit's values.
    pub open spec fn valid(self) -> bool {
        &&& self.day.valid(30)
        &&& self.hour.valid(23)
        &&& self.minute.valid(59)
        &&& self.second.valid(59)
    }

    /// `t`'s day of month, hour, minute and second each lie in their field.
    pub open spec fn matches(self, t: DateTime) -> bool {
        self.day.contains(t.day as int - 1) && self.matches_hms(t)
    }

    /// `r` is the first instant at or after `now` (compared to the second) that the pattern
    /// matches.
    pub open spec fn is_next_occurrence(self, now: DateTime, r: DateTime) -> bool {
        is_first_from(|u: DateTime| self.matches(u), now, r)
    }
}

/// `r` is the earliest valid instant whose second is not before `now`'s and of which `pred`
/// holds. Where that second is `now`'s own, `r` is `now` itself, fraction of a second included;
/// otherwise `r` starts its second.
pub open spec fn is_first_from(pred: spec_fn(DateTime) -> bool, now: DateTime, r: DateTime) -> bool {
    &&& r.wf()
    &&& pred(r)
    &&& now.second_index() <= r.second_index()
    &&& forall|t: DateTime|
        t.wf() && pred(t) && now.second_index() <= #[trigger] t.second_index() ==> r.second_index()
            <= t.second_index()
    &&& if r.second_index() == now.second_index() {
        r == now
    } else {
        r.nanosecond == 0
    }
}

/// Two valid values in the same second differ at most in their fraction of a second.
pub proof fn lemma_same_second(a: DateTime, b: DateTime)
    requires
        a.wf(),
        b.wf(),
        a.second_index() == b.second_index(),
    ensures
        a.truncated() == b.truncated(),
{
    assert(a.minute_index() == b.minute_index() && a.second == b.second);
    assert(a.hour_index() == b.hour_index() && a.minute == b.minute);
    assert(a.day_index() == b.day_index() && a.hour == b.hour);
    assert(a.month_index() == b.month_index() && a.day == b.day);
    assert(a.year == b.year && a.month == b.month);
}

/// No month is skipped: the next occurrence of a pattern lies in `now`'s own month exactly when
/// some instant of that month at or after `now` matches the pattern; no matching instant lies in
/// a month between `now`'s and the next occurrence's, and every such month is too short for the
/// least day of the day field.
pub proof fn lemma_no_skipped_month(p: PatternView, now: DateTime, r: DateTime)
    requires
        p.valid(),
        now.wf(),
        p.is_next_occurrence(now, r),
    ensures
        forall|y: int, m: int|
            1 <= m <= 12 && now.month_index() < y * 12 + m - 1 < r.month_index()
                ==> #[trigger] month_length(y, m) <= p.day.least(),
        (r.year == now.year && r.month == now.month) <==> (exists|t: DateTime|
            #![trigger t.second_index()]
            t.wf() && p.matches(t) && t.year == now.year && t.month == now.month
                && now.second_index() <= t.second_index()),
        forall|t: DateTime|
            t.wf() && p.matches(t) && now.month_index() < #[trigger] t.month_index() ==> r.month_index()
                <= t.month_index(),
        now.month_index() <= r.month_index(),
{
    if r.year == now.year && r.month == now.month {
        assert(r.wf() && p.matches(r) && now.second_index() <= r.second_index());
    }
    if exists|t: DateTime|
        #![trigger t.second_index()]
        t.wf() && p.matches(t) && t.year == now.year && t.month == now.month
            && now.second_index() <= t.second_index() {
        let t = choose|t: DateTime|
            #![trigger t.second_index()]
            t.wf() && p.matches(t) && t.year == now.year && t.month == now.month
                && now.second_index() <= t.second_index();
        assert(r.second_index() <= t.second_index());
        assert(r.month_index() == now.month_index());
    }
    assert forall|t: DateTime|
        t.wf() && p.matches(t) && now.month_index() < #[trigger] t.month_index() implies r.month_index()
        <= t.month_index() by {
        assert(now.second_index() <= t.second_index());
        assert(r.second_index() <= t.second_index());
    }
    assert forall|y: int, m: int|
        1 <= m <= 12 && now.month_index() < y * 12 + m - 1 < r.month_index() implies #[trigger] month_length(
        y,
        m,
    ) <= p.day.least() by {
        if month_length(y, m) > p.day.least() {
            let t = DateTime {
                year: y as i32,
                month: m as u8,
                day: (p.day.least() + 1) as u8,
                hour: p.hour.least() as u8,
                minute: p.minute.least() as u8,
                second: p.second.least() as u8,
                nanosecond: 0,
            };
            assert(0int % p.day.step == 0 && 0int % p.hour.step == 0);
            assert(0int % p.minute.step == 0 && 0int % p.second.step == 0);
            assert(t.wf() && p.matches(t));
            assert(r.month_index() <= t.month_index());
        }
    }
}

/// There is at most one first instant.
pub proof fn lemma_first_unique(pred: spec_fn(DateTime) -> bool, now: DateTime, r1: DateTime, r2: DateTime)
    requires
        now.wf(),
        is_first_from(pred, now, r1),
        is_first_from(pred, now, r2),
    ensures
        r1 == r2,
{
    assert(r1.second_index() <= r2.second_index());
    assert(r2.second_index() <= r1.second_index());
    lemma_same_second(r1, r2);
}

/// Relies on `RangeInclusive::into_inner`: the bounds that the range was made with, for a range
/// that has not been iterated to its end.
pub assume_specification<Idx>[ core::ops::RangeInclusive::<Idx>::into_inner ](
    r: core::ops::RangeInclusive<Idx>,
) -> (res: (Idx, Idx))
    ensures
        !r@.exhausted ==> res == (r@.start, r@.end),
;

/// Every value of the domain `0..=max`.
pub open spec fn every(max: int) -> FieldView {
    FieldView::stepped(0, max, 1)
}

/// Every `n`-th value of the domain `0..=max`.
pub open spec fn every_nth(max: int, n: int) -> FieldView {
    FieldView::stepped(0, max, n)
}

/// The pattern that every second matches.
pub open spec fn every_second_view() -> PatternView {
    PatternView { day: every(30), hour: every(23), minute: every(59), second: every(59) }
}

/// A calendar pattern: the instants whose day of month, hour, minute and second each lie in
/// their field.
#[derive(Clone, Copy, Debug)]
pub struct Schedule {
    day: Component<30>,
    hour: Component<23>,
    minute: Component<59>,
    second: Component<59>,
}

/// Error of a range that is empty, reaches past its unit's values, or steps by zero.
#[derive(Debug)]
pub struct Error;

impl View for Schedule {
    type V = PatternView;

    closed spec fn view(&self) -> PatternView {
        PatternView {
            day: self.day@,
            hour: self.hour@,
            minute: self.minute@,
            second: self.second@,
        }
    }
}

impl Schedule {
    pub(crate) fn new(
        day: Component<30>,
        hour: Component<23>,
        minute: Component<59>,
        second: Component<59>,
    ) -> (r: Self)
        ensures
            r@ == (PatternView { day: day@, hour: hour@, minute: minute@, second: second@ }),
    {
        Schedule { day, hour, minute, second }
    }

    /// The pattern of the four fields.
    pub fn from_components(
        day: Component<30>,
        hour: Component<23>,
        minute: Component<59>,
        second: Component<59>,
    ) -> (r: Self)
        ensures
            r@ == (PatternView { day: day@, hour: hour@, minute: minute@, second: second@ }),
    {
        Self::new(day, hour, minute, second)
    }

    /// Every second.
    pub fn new_every_second() -> (r: Self)
        ensures
            r@ == every_second_view(),
    {
        Self::new(Component::every(), Component::every(), Component::every(), Component::every())
    }

    /// Second 0 of every minute.
    pub fn new_every_minute() -> (r: Self)
        ensures
            r@ == (PatternView { second: FieldView::exact(0), ..every_second_view() }),
    {
        Self::new(
            Component::every(),
            Component::every(),
            Component::every(),
            Component::exactly_zero(),
        )
    }

    /// 00:00 of every hour.
    pub fn new_every_hour() -> (r: Self)
        ensures
            r@ == (PatternView {
                minute: FieldView::exact(0),
                second: FieldView::exact(0),
                ..every_second_view()
            }),
    {
        Self::new(
            Component::every(),
            Component::every(),
            Component::exactly_zero(),
            Component::exactly_zero(),
        )
    }

    /// 00:00:00 of every day.
    pub fn new_every_day() -> (r: Self)
        ensures
            r@ == (PatternView {
                day: every(30),
                hour: FieldView::exact(0),
                minute: FieldView::exact(0),
                second: FieldView::exact(0),
            }),
    {
        Self::new(
            Component::every(),
            Component::exactly_zero(),
            Component::exactly_zero(),
            Component::exactly_zero(),
        )
    }

    /// 00:00:00 of the first day of every month.
    pub fn new_every_month() -> (r: Self)
        ensures
            r@ == (PatternView {
                day: FieldView::exact(0),
                hour: FieldView::exact(0),
                minute: FieldView::exact(0),
                second: FieldView::exact(0),
            }),
    {
        Self::new(
            Component::exactly_zero(),
            Component::exactly_zero(),
            Component::exactly_zero(),
            Component::exactly_zero(),
        )
    }

    /// Only day `day` (counted from 1, taken modulo 31) of the month.
    pub fn at_day(self, day: u8) -> (r: Self)
        requires
            day >= 1,
        ensures
            r@ == (PatternView { day: FieldView::exact((day as int - 1) % 31), ..self@ }),
    {
        match Component::exactly((day - 1) % 31) {
            Ok(day) => Schedule { day, ..self },
            Err(_) => self,
        }
    }

    /// Only the first day of the month.
    pub fn at_first_day(self) -> (r: Self)
        ensures
            r@ == (PatternView { day: FieldView::exact(0), ..self@ }),
    {
        Schedule { day: Component::exactly_zero(), ..self }
    }

    /// Every day of the month.
    pub fn at_every_day(self) -> (r: Self)
        ensures
            r@ == (PatternView { day: every(30), ..self@ }),
    {
        Schedule { day: Component::every(), ..self }
    }

    /// Every `n`-th day of the month: days 1, 1 + n, 1 + 2n, ...
    pub fn at_every_nth_day(self, n: u8) -> (r: Self)
        requires
            n >= 1,
        ensures
            r@ == (PatternView { day: every_nth(30, n as int), ..self@ }),
    {
        Schedule { day: Component::every_step(n), ..self }
    }

    fn day1_range_to_day0_range(range: core::ops::RangeInclusive<u8>) -> (r: Option<(u8, u8)>)
        ensures
            !range@.exhausted ==> (r is Some <==> (range@.start >= 1 && range@.end >= 1)),
            !range@.exhausted && r is Some ==> r->0 == ((range@.start - 1) as u8, (range@.end
                - 1) as u8),
    {
        let (start, end) = range.into_inner();
        if start >= 1 && end >= 1 {
            Some((start - 1, end - 1))
        } else {
            None
        }
    }

    /// Every day of the month from `range`'s start to its end (counted from 1); an error unless
    /// `1 <= start <= end <= 31`.
    pub fn at_every_day_between(self, range: core::ops::RangeInclusive<u8>) -> (r: Result<
        Self,
        Error,
    >)
        ensures
            !range@.exhausted ==> (r is Ok <==> 1 <= range@.start <= range@.end <= 31),
            !range@.exhausted && r is Ok ==> r->Ok_0@ == (PatternView {
                day: FieldView::stepped(range@.start - 1, range@.end - 1, 1),
                ..self@
            }),
    {
        self.at_every_nth_day_between(range, 1)
    }

    /// Every `n`-th day of the month from `range`'s start to its end (counted from 1); an error
    /// unless `1 <= start <= end <= 31` and `n >= 1`.
    pub fn at_every_nth_day_between(self, range: core::ops::RangeInclusive<u8>, n: u8) -> (r:
        Result<Self, Error>)
        ensures
            !range@.exhausted ==> (r is Ok <==> (1 <= range@.start <= range@.end <= 31 && n
                >= 1)),
            !range@.exhausted && r is Ok ==> r->Ok_0@ == (PatternView {
                day: FieldView::stepped(range@.start - 1, range@.end - 1, n as int),
                ..self@
            }),
    {
        match Self::day1_range_to_day0_range(range) {
            Some((start, end)) => match Component::new(start, end, n) {
                Ok(day) => Ok(Schedule { day, ..self }),
                Err(_) => Err(Error),
            },
            None => Err(Error),
        }
    }

    /// Only hour `hour` (taken modulo 24).
    pub fn at_hour(self, hour: u8) -> (r: Self)
        ensures
            r@ == (PatternView { hour: FieldView::exact(hour as int % 24), ..self@ }),
    {
        match Component::exactly(hour % 24) {
            Ok(hour) => Schedule { hour, ..self },
            Err(_) => self,
        }
    }

    /// Only hour 0.
    pub fn at_zero_hour(self) -> (r: Self)
        ensures
            r@ == (PatternView { hour: FieldView::exact(0), ..self@ }),
    {
        Schedule { hour: Component::exactly_zero(), ..self }
    }

    /// Every hour.
    pub fn at_every_hour(self) -> (r: Self)
        ensures
            r@ == (PatternView { hour: every(23), ..self@ }),
    {
        Schedule { hour: Component::every(), ..self }
    }

    /// Every `n`-th hour: 0, n, 2n, ...
    pub fn at_every_nth_hour(self, n: u8) -> (r: Self)
        requires
            n >= 1,
        ensures
            r@ == (PatternView { hour: every_nth(23, n as int), ..self@ }),
    {
        Schedule { hour: Component::every_step(n), ..self }
    }

    /// Every hour from `range`'s start to its end; an error unless `start <= end <= 23`.
    pub fn at_every_hour_between(self, range: core::ops::RangeInclusive<u8>) -> (r: Result<
        Self,
        Error,
    >)
        ensures
            !range@.exhausted ==> (r is Ok <==> range@.start <= range@.end <= 23),
            !range@.exhausted && r is Ok ==> r->Ok_0@ == (PatternView {
                hour: FieldView::stepped(range@.start as int, range@.end as int, 1),
                ..self@
            }),
    {
        self.at_every_nth_hour_between(range, 1)
    }

    /// Every `n`-th hour from `range`'s start to its end; an error unless
    /// `start <= end <= 23` and `n >= 1`.
    pub fn at_every_nth_hour_between(self, range: core::ops::RangeInclusive<u8>, n: u8) -> (r:
        Result<Self, Error>)
        ensures
            !range@.exhausted ==> (r is Ok <==> (range@.start <= range@.end <= 23 && n >= 1)),
            !range@.exhausted && r is Ok ==> r->Ok_0@ == (PatternView {
                hour: FieldView::stepped(range@.start as int, range@.end as int, n as int),
                ..self@
            }),
    {
        let (start, end) = range.into_inner();
        match Component::new(start, end, n) {
            Ok(hour) => Ok(Schedule { hour, ..self }),
            Err(_) => Err(Error),
        }
    }

    /// Only minute `minute` (taken modulo 60).
    pub fn at_minute(self, minute: u8) -> (r: Self)
        ensures
            r@ == (PatternView { minute: FieldView::exact(minute as int % 60), ..self@ }),
    {
        match Component::exactly(minute % 60) {
            Ok(minute) => Schedule { minute, ..self },
            Err(_) => self,
        }
    }

    /// Only minute 0.
    pub fn at_zero_minute(self) -> (r: Self)
        ensures
            r@ == (PatternView { minute: FieldView::exact(0), ..self@ }),
    {
        Schedule { minute: Component::exactly_zero(), ..self }
    }

    /// Every minute.
    pub fn at_every_minute(self) -> (r: Self)
        ensures
            r@ == (PatternView { minute: every(59), ..self@ }),
    {
        Schedule { minute: Component::every(), ..self }
    }

    /// Every `n`-th minute: 0, n, 2n, ...
    pub fn at_every_nth_minute(self, n: u8) -> (r: Self)
        requires
            n >= 1,
        ensures
            r@ == (PatternView { minute: every_nth(59, n as int), ..self@ }),
    {
        Schedule { minute: Component::every_step(n), ..self }
    }

    /// Every minute from `range`'s start to its end; an error unless `start <= end <= 59`.
    pub fn at_every_minute_between(self, range: core::ops::RangeInclusive<u8>) -> (r: Result<
        Self,
        Error,
    >)
        ensures
            !range@.exhausted ==> (r is Ok <==> range@.start <= range@.end <= 59),
            !range@.exhausted && r is Ok ==> r->Ok_0@ == (PatternView {
                minute: FieldView::stepped(range@.start as int, range@.end as int, 1),
                ..self@
            }),
    {
        self.at_every_nth_minute_between(range, 1)
    }

    /// Every `n`-th minute from `range`'s start to its end; an error unless
    /// `start <= end <= 59` and `n >= 1`.
    pub fn at_every_nth_minute_between(self, range: core::ops::RangeInclusive<u8>, n: u8) -> (r:
        Result<Self, Error>)
        ensures
            !range@.exhausted ==> (r is Ok <==> (range@.start <= range@.end <= 59 && n >= 1)),
            !range@.exhausted && r is Ok ==> r->Ok_0@ == (PatternView {
                minute: FieldView::stepped(range@.start as int, range@.end as int, n as int),
                ..self@
            }),
    {
        let (start, end) = range.into_inner();
        match Component::new(start, end, n) {
            Ok(minute) => Ok(Schedule { minute, ..self }),
            Err(_) => Err(Error),
        }
    }

    /// Only second `second` (taken modulo 60).
    pub fn at_second(self, second: u8) -> (r: Self)
        ensures
            r@ == (PatternView { second: FieldView::exact(second as int % 60), ..self@ }),
    {
        match Component::exactly(second % 60) {
            Ok(second) => Schedule { second, ..self },
            Err(_) => self,
        }
    }

    /// Only second 0.
    pub fn at_zero_second(self) -> (r: Self)
        ensures
            r@ == (PatternView { second: FieldView::exact(0), ..self@ }),
    {
        Schedule { second: Component::exactly_zero(), ..self }
    }

    /// Every second.
    pub fn at_every_second(self) -> (r: Self)
        ensures
            r@ == (PatternView { second: every(59), ..self@ }),
    {
        Schedule { second: Component::every(), ..self }
    }

    /// Every `n`-th second: 0, n, 2n, ...
    pub fn at_every_nth_second(self, n: u8) -> (r: Self)
        requires
            n >= 1,
        ensures
            r@ == (PatternView { second: every_nth(59, n as int), ..self@ }),
    {
        Schedule { second: Component::every_step(n), ..self }
    }

    /// Every second from `range`'s start to its end; an error unless `start <= end <= 59`.
    pub fn at_every_second_between(self, range: core::ops::RangeInclusive<u8>) -> (r: Result<
        Self,
        Error,
    >)
        ensures
            !range@.exhausted ==> (r is Ok <==> range@.start <= range@.end <= 59),
            !range@.exhausted && r is Ok ==> r->Ok_0@ == (PatternView {
                second: FieldView::stepped(range@.start as int, range@.end as int, 1),
                ..self@
            }),
    {
        self.at_every_nth_second_between(range, 1)
    }

    /// Every `n`-th second from `range`'s start to its end; an error unless
    /// `start <= end <= 59` and `n >= 1`.
    pub fn at_every_nth_second_between(self, range: core::ops::RangeInclusive<u8>, n: u8) -> (r:
        Result<Self, Error>)
        ensures
            !range@.exhausted ==> (r is Ok <==> (range@.start <= range@.end <= 59 && n >= 1)),
            !range@.exhausted && r is Ok ==> r->Ok_0@ == (PatternView {
                second: FieldView::stepped(range@.start as int, range@.end as int, n as int),
                ..self@
            }),
    {
        let (start, end) = range.into_inner();
        match Component::new(start, end, n) {
            Ok(second) => Ok(Schedule { second, ..self }),
            Err(_) => Err(Error),
        }
    }
}

impl Default for Schedule {
    /// Every second.
    fn default() -> (r: Self)
        ensures
            r@ == every_second_view(),
    {
        Self::new_every_second()
    }
}

impl Schedule {
    /// The first instant at or after `now` that the pattern matches (its fraction of a second
    /// aside): `now` itself where it matches, and else the start of the earliest matching second
    /// after it.
    pub fn next_occurrence(self, now: DateTime) -> (r: DateTime)
        requires
            now.wf(),
            now.year < MAX_YEAR,
        ensures
            self@.is_next_occurrence(now, r),
            self@.matches(r),
            now.instant() <= r.instant(),
            self@.matches(now) ==> r == now,
            self@.valid(),
    {
        let r = self.advance_to_dhms(now);
        proof {
            if self@.matches(now) {
                assert(r.second_index() <= now.second_index());
            }
        }
        r
    }

    #[verifier::rlimit(60)]
    #[verifier::spinoff_prover]
    fn advance_to_s(self, time: DateTime) -> (r: DateTime)
        requires
            time.wf(),
            time.month_index() < last_month_index(),
        ensures
            is_first_from(|u: DateTime| self@.matches_s(u), time, r),
            r.month_index() <= time.month_index() + 1,
    {
        match self.second.min_value_bounded(time.second) {
            Some(target) => {
                if target == time.second {
                    time
                } else {
                    let r = DateTime { second: target, nanosecond: 0, ..time };
                    assert forall|u: DateTime|
                        u.wf() && self@.matches_s(u) && time.second_index()
                            <= #[trigger] u.second_index() implies r.second_index()
                        <= u.second_index() by {
                        assert(self.second@.contains(u.second as int));
                    }
                    r
                }
            },
            None => {
                let min_s = self.second.min_value();
                let next = time.start_of_next_minute();
                let r = DateTime { second: min_s, nanosecond: 0, ..next };
                assert forall|u: DateTime|
                    u.wf() && self@.matches_s(u) && time.second_index()
                        <= #[trigger] u.second_index() implies r.second_index()
                    <= u.second_index() by {
                    assert(self.second@.contains(u.second as int));
                    if u.minute_index() > time.minute_index() {
                        assert(u.wf() && u.minute_index() > time.minute_index());
                    }
                }
                r
            },
        }
    }

    #[verifier::rlimit(60)]
    #[verifier::spinoff_prover]
    fn advance_to_ms(self, time: DateTime) -> (r: DateTime)
        requires
            time.wf(),
            time.month_index() + 1 < last_month_index(),
        ensures
            is_first_from(|u: DateTime| self@.matches_ms(u), time, r),
            r.month_index() <= time.month_index() + 2,
    {
        let t = self.advance_to_s(time);
        match self.minute.min_value_bounded(t.minute) {
            Some(target) => {
                if target == t.minute {
                    assert forall|u: DateTime|
                        u.wf() && self@.matches_ms(u) && time.second_index()
                            <= #[trigger] u.second_index() implies t.second_index()
                        <= u.second_index() by {
                        assert(self@.matches_s(u));
                    }
                    t
                } else {
                    let min_s = self.second.min_value();
                    let r = DateTime { minute: target, second: min_s, nanosecond: 0, ..t };
                    assert forall|u: DateTime|
                        u.wf() && self@.matches_ms(u) && time.second_index()
                            <= #[trigger] u.second_index() implies r.second_index()
                        <= u.second_index() by {
                        assert(self@.matches_s(u));
                        assert(self.minute@.contains(u.minute as int));
                        assert(self.second@.contains(u.second as int));
                    }
                    r
                }
            },
            None => {
                let min_m = self.minute.min_value();
                let min_s = self.second.min_value();
                let next = t.start_of_next_hour();
                let r = DateTime { minute: min_m, second: min_s, nanosecond: 0, ..next };
                assert forall|u: DateTime|
                    u.wf() && self@.matches_ms(u) && time.second_index()
                        <= #[trigger] u.second_index() implies r.second_index()
                    <= u.second_index() by {
                    assert(self@.matches_s(u));
                    assert(self.minute@.contains(u.minute as int));
                    assert(self.second@.contains(u.second as int));
                    if u.hour_index() > t.hour_index() {
                        assert(u.wf() && u.hour_index() > t.hour_index());
                    }
                }
                r
            },
        }
    }

    #[verifier::rlimit(60)]
    #[verifier::spinoff_prover]
    fn advance_to_hms(self, time: DateTime) -> (r: DateTime)
        requires
            time.wf(),
            time.month_index() + 2 < last_month_index(),
        ensures
            is_first_from(|u: DateTime| self@.matches_hms(u), time, r),
            r.month_index() <= time.month_index() + 3,
    {
        let t = self.advance_to_ms(time);
        match self.hour.min_value_bounded(t.hour) {
            Some(target) => {
                if target == t.hour {
                    assert forall|u: DateTime|
                        u.wf() && self@.matches_hms(u) && time.second_index()
                            <= #[trigger] u.second_index() implies t.second_index()
                        <= u.second_index() by {
                        assert(self@.matches_ms(u));
                    }
                    t
                } else {
                    let min_m = self.minute.min_value();
                    let min_s = self.second.min_value();
                    let r = DateTime {
                        hour: target,
                        minute: min_m,
                        second: min_s,
                        nanosecond: 0,
                        ..t
                    };
                    assert forall|u: DateTime|
                        u.wf() && self@.matches_hms(u) && time.second_index()
                            <= #[trigger] u.second_index() implies r.second_index()
                        <= u.second_index() by {
                        assert(self@.matches_ms(u));
                        assert(self.hour@.contains(u.hour as int));
                        assert(self.minute@.contains(u.minute as int));
                        assert(self.second@.contains(u.second as int));
                    }
                    r
                }
            },
            None => {
                let min_h = self.hour.min_value();
                let min_m = self.minute.min_value();
                let min_s = self.second.min_value();
                let next = t.start_of_next_day();
                let r = DateTime {
                    hour: min_h,
                    minute: min_m,
                    second: min_s,
                    nanosecond: 0,
                    ..next
                };
                assert forall|u: DateTime|
                    u.wf() && self@.matches_hms(u) && time.second_index()
                        <= #[trigger] u.second_index() implies r.second_index()
                    <= u.second_index() by {
                    assert(self@.matches_ms(u));
                    assert(self.hour@.contains(u.hour as int));
                    assert(self.minute@.contains(u.minute as int));
                    assert(self.second@.contains(u.second as int));
                    if u.day_index() > t.day_index() {
                        assert(u.wf() && u.day_index() > t.day_index());
                    }
                }
                r
            },
        }
    }
    #[verifier::loop_isolation(false)]
    #[verifier::rlimit(60)]
    #[verifier::spinoff_prover]
    fn advance_to_dhms(self, time: DateTime) -> (r: DateTime)
        requires
            time.wf(),
            time.month_index() + 5 <= last_month_index(),
        ensures
            is_first_from(|u: DateTime| self@.matches(u), time, r),
            self@.valid(),
    {
        // First the earliest time at or after `time` that satisfies the hour, minute and second
        // fields.
        let t = self.advance_to_hms(time);
        let current_d = t.day - 1;
        let min_h = self.hour.min_value();
        let min_m = self.minute.min_value();
        let min_s = self.second.min_value();
        let target = self.day.min_value_bounded(current_d);
        if let Some(target_d) = target {
            if target_d == current_d {
                assert forall|u: DateTime|
                    u.wf() && self@.matches(u) && time.second_index()
                        <= #[trigger] u.second_index() implies t.second_index()
                    <= u.second_index() by {
                    assert(self@.matches_hms(u));
                }
                return t;
            }
            // A later day of the current month, where the month has it.
            if target_d < MIN_DAYS || target_d < days_in_month(t.year, t.month) {
                let r = DateTime {
                    day: target_d + 1,
                    hour: min_h,
                    minute: min_m,
                    second: min_s,
                    nanosecond: 0,
                    ..t
                };
                assert forall|u: DateTime|
                    u.wf() && self@.matches(u) && time.second_index()
                        <= #[trigger] u.second_index() implies r.second_index()
                    <= u.second_index() by {
                    assert(self@.matches_hms(u));
                    assert(self.day@.contains(u.day as int - 1));
                    assert(self.hour@.contains(u.hour as int));
                    assert(self.minute@.contains(u.minute as int));
                    assert(self.second@.contains(u.second as int));
                }
                return r;
            }
        }
        // No matching day is left in the current month: the least day of the field, in the
        // first later month that has it.
        let target_d = self.day.min_value();
        proof {
            assert forall|u: DateTime|
                u.wf() && self@.matches(u) && time.second_index() <= #[trigger] u.second_index()
                    implies u.month_index() > t.month_index() by {
                assert(self@.matches_hms(u));
                assert(self.day@.contains(u.day as int - 1));
                if u.month_index() == t.month_index() {
                    assert(u.year == t.year && u.month == t.month);
                }
            }
        }
        let mut year = t.year;
        let mut month = t.month;
        let mut passed: u8 = 0;
        loop
            invariant
                passed <= 1,
                1 <= month <= 12,
                t.month_index() < year as int * 12 + month as int - 1 + 1 + 4 - passed,
                year as int * 12 + month as int - 1 == t.month_index() + passed,
                passed == 1 ==> month_length(year as int, month as int) <= target_d,
                forall|y: int, m: int|
                    1 <= m <= 12 && t.month_index() < y * 12 + m - 1 <= year as int * 12 + month as int
                        - 1 ==> #[trigger] month_length(y, m) <= target_d,
            decreases 2 - passed,
        {
            if month == 12 {
                year = year + 1;
                month = 1;
            } else {
                month = month + 1;
            }
            if target_d < MIN_DAYS || target_d < days_in_month(year, month) {
                let r = DateTime {
                    year,
                    month,
                    day: target_d + 1,
                    hour: min_h,
                    minute: min_m,
                    second: min_s,
                    nanosecond: 0,
                };
                assert forall|u: DateTime|
                    u.wf() && self@.matches(u) && time.second_index()
                        <= #[trigger] u.second_index() implies r.second_index()
                    <= u.second_index() by {
                    assert(self@.matches_hms(u));
                    assert(self.day@.contains(u.day as int - 1));
                    assert(self.hour@.contains(u.hour as int));
                    assert(self.minute@.contains(u.minute as int));
                    assert(self.second@.contains(u.second as int));
                    if u.month_index() < r.month_index() {
                        assert(month_length(u.year as int, u.month as int) <= target_d);
                    }
                    if u.month_index() == r.month_index() {
                        assert(u.year == r.year && u.month == r.month);
                    }
                }
                return r;
            }
            passed = passed + 1;
        }
    }
}

} // verus!
