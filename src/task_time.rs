//! A pattern written with compact field values: each field one specific value, or every value.

use vstd::prelude::*;

use crate::datetime::{DateTime, MAX_YEAR};
use crate::schedule::component::{Component, FieldView};
use crate::schedule::{PatternView, Schedule};
use crate::time_val::TimeVal;

verus! {

/// The field that a compact value stands for, over the unit's values `0..N`.
pub open spec fn field_of<const N: u8>(v: TimeVal<N>) -> FieldView {
    match v {
        TimeVal::At(t) => FieldView::exact(t@),
        TimeVal::Every => FieldView::stepped(0, N as int - 1, 1),
    }
}

/// The component that a compact value stands for.
fn component_of<const N: u8, const M: u8>(v: TimeVal<N>) -> (r: Component<M>)
    requires
        N as int == M as int + 1,
    ensures
        r@ == field_of(v),
{
    match v {
        TimeVal::At(t) => match Component::exactly(t.get()) {
            Ok(c) => c,
            Err(_) => Component::every(),
        },
        TimeVal::Every => Component::every(),
    }
}

/// Builds a `TaskTime`; every field starts at "every value".
pub struct Builder {
    day: TimeVal<31>,
    hour: TimeVal<24>,
    minute: TimeVal<60>,
    second: TimeVal<60>,
}

impl View for Builder {
    type V = TaskTime;

    closed spec fn view(&self) -> TaskTime {
        TaskTime { day: self.day, hour: self.hour, minute: self.minute, second: self.second }
    }
}

impl Builder {
    pub fn new() -> (r: Self)
        ensures
            r@ == (TaskTime {
                day: TimeVal::Every,
                hour: TimeVal::Every,
                minute: TimeVal::Every,
                second: TimeVal::Every,
            }),
    {
        Builder {
            day: TimeVal::Every,
            hour: TimeVal::Every,
            minute: TimeVal::Every,
            second: TimeVal::Every,
        }
    }

    pub fn build(self) -> (r: TaskTime)
        ensures
            r == self@,
    {
        TaskTime::new(self.day, self.hour, self.minute, self.second)
    }

    /// Day `day` of the month, counted from 1 (taken modulo 31).
    pub fn at_day(self, day: u8) -> (r: Self)
        requires
            day >= 1,
        ensures
            r@.day is At,
            r@.day->At_0@ == (day as int - 1) % 31,
            r@ == (TaskTime { day: r@.day, ..self@ }),
    {
        Builder { day: TimeVal::at(day - 1), ..self }
    }

    pub fn every_day(self) -> (r: Self)
        ensures
            r@ == (TaskTime { day: TimeVal::Every, ..self@ }),
    {
        Builder { day: TimeVal::Every, ..self }
    }

    /// Hour `hour` (taken modulo 24).
    pub fn at_hour(self, hour: u8) -> (r: Self)
        ensures
            r@.hour is At,
            r@.hour->At_0@ == hour as int % 24,
            r@ == (TaskTime { hour: r@.hour, ..self@ }),
    {
        Builder { hour: TimeVal::at(hour), ..self }
    }

    pub fn every_hour(self) -> (r: Self)
        ensures
            r@ == (TaskTime { hour: TimeVal::Every, ..self@ }),
    {
        Builder { hour: TimeVal::Every, ..self }
    }

    /// Minute `minute` (taken modulo 60).
    pub fn at_minute(self, minute: u8) -> (r: Self)
        ensures
            r@.minute is At,
            r@.minute->At_0@ == minute as int % 60,
            r@ == (TaskTime { minute: r@.minute, ..self@ }),
    {
        Builder { minute: TimeVal::at(minute), ..self }
    }

    pub fn every_minute(self) -> (r: Self)
        ensures
            r@ == (TaskTime { minute: TimeVal::Every, ..self@ }),
    {
        Builder { minute: TimeVal::Every, ..self }
    }

    /// Second `second` (taken modulo 60).
    pub fn at_second(self, second: u8) -> (r: Self)
        ensures
            r@.second is At,
            r@.second->At_0@ == second as int % 60,
            r@ == (TaskTime { second: r@.second, ..self@ }),
    {
        Builder { second: TimeVal::at(second), ..self }
    }

    pub fn every_second(self) -> (r: Self)
        ensures
            r@ == (TaskTime { second: TimeVal::Every, ..self@ }),
    {
        Builder { second: TimeVal::Every, ..self }
    }
}

/// A pattern of compact field values; the day field holds 0-based days of the month.
#[derive(Clone, Copy, PartialEq, Eq, Debug)]
pub struct TaskTime {
    pub day: TimeVal<31>,
    pub hour: TimeVal<24>,
    pub minute: TimeVal<60>,
    pub second: TimeVal<60>,
}

impl Default for TaskTime {
    fn default() -> (r: Self)
        ensures
            r == (TaskTime {
                day: TimeVal::Every,
                hour: TimeVal::Every,
                minute: TimeVal::Every,
                second: TimeVal::Every,
            }),
    {
        Builder::new().build()
    }
}

impl TaskTime {
    pub fn builder() -> (r: Builder)
        ensures
            r@ == (TaskTime {
                day: TimeVal::Every,
                hour: TimeVal::Every,
                minute: TimeVal::Every,
                second: TimeVal::Every,
            }),
    {
        Builder::new()
    }

    pub fn new(day: TimeVal<31>, hour: TimeVal<24>, minute: TimeVal<60>, second: TimeVal<60>) -> (r:
        Self)
        ensures
            r == (TaskTime { day, hour, minute, second }),
    {
        TaskTime { day, hour, minute, second }
    }

    /// The calendar pattern that this stands for.
    pub open spec fn pattern(self) -> PatternView {
        PatternView {
            day: field_of(self.day),
            hour: field_of(self.hour),
            minute: field_of(self.minute),
            second: field_of(self.second),
        }
    }

    /// The same pattern as a `Schedule`.
    pub fn to_schedule(self) -> (r: Schedule)
        ensures
            r@ == self.pattern(),
    {
        Schedule::from_components(
            component_of(self.day),
            component_of(self.hour),
            component_of(self.minute),
            component_of(self.second),
        )
    }

    /// The first instant at or after `now` that the pattern matches (see
    /// `Schedule::next_occurrence`).
    pub fn next_occurrence(self, now: DateTime) -> (r: DateTime)
        requires
            now.wf(),
            now.year < MAX_YEAR,
        ensures
            self.pattern().is_next_occurrence(now, r),
    {
        self.to_schedule().next_occurrence(now)
    }
}

} // verus!
