//! Calendar patterns ("second 15 of every minute", "every third hour between 01:00 and
//! 20:00"), the next instant at or after a given one that satisfies them, and a pull-driven
//! stream that yields task identifiers in the order their next occurrences fall due.

pub mod datetime;
pub mod schedule;
pub mod scheduler;
pub mod schedules;
pub mod task;
pub mod task_time;
pub mod task_time_buf;
pub mod time_val;

pub use datetime::DateTime;
pub use schedule::Schedule;
pub use scheduler::ManualSleep;
pub use task::Task;

use vstd::prelude::*;

verus! {

/// Builds a `Task`.
pub type TaskBuilder<Id> = task::Builder<Id>;

} // verus!
