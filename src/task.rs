//! Tasks: an identifier and the patterns at which the task is due.

use vstd::prelude::*;

use crate::schedule::{PatternView, Schedule};
use crate::schedules::Schedules;

verus! {

/// A task, or a task being built: its identifier and its patterns, in order.
pub ghost struct TaskView<Id> {
    pub id: Id,
    pub patterns: Seq<PatternView>,
}

/// Collects the patterns of a task.
pub struct Builder<Id> {
    id: Id,
    times: Vec<Schedule>,
}

impl<Id> View for Builder<Id> {
    type V = TaskView<Id>;

    closed spec fn view(&self) -> TaskView<Id> {
        TaskView { id: self.id, patterns: self.times@.map_values(|s: Schedule| s@) }
    }
}

impl<Id> Builder<Id> {
    /// A task `id` with no pattern yet.
    pub fn new(id: Id) -> (r: Self)
        ensures
            r@ == (TaskView::<Id> { id, patterns: Seq::empty() }),
    {
        let r = Builder { id, times: Vec::new() };
        assert(r@.patterns =~= Seq::<PatternView>::empty());
        r
    }

    /// The task, due whenever one of its patterns matches.
    pub fn build(self) -> (r: Task<Id>)
        ensures
            r@ == self@,
    {
        Task::new(self.id, Schedules::from_vec(self.times))
    }

    /// Adds a pattern.
    pub fn at(self, time: Schedule) -> (r: Self)
        ensures
            r@ == (TaskView { patterns: self@.patterns.push(time@), ..self@ }),
    {
        let mut this = self;
        this.times.push(time);
        assert(this@.patterns =~= self@.patterns.push(time@));
        this
    }

    /// Adds several patterns, in order.
    pub fn at_several(self, times: Vec<Schedule>) -> (r: Self)
        ensures
            r@ == (TaskView {
                patterns: self@.patterns + times@.map_values(|s: Schedule| s@),
                ..self@
            }),
    {
        let mut this = self;
        let mut times = times;
        let ghost added = times@;
        this.times.append(&mut times);
        assert(this@.patterns =~= self@.patterns + added.map_values(|s: Schedule| s@));
        this
    }
}

/// A task: an identifier and the patterns at which the task is due.
pub struct Task<Id> {
    id: Id,
    schedule: Schedules,
}

impl<Id> View for Task<Id> {
    type V = TaskView<Id>;

    closed spec fn view(&self) -> TaskView<Id> {
        TaskView { id: self.id, patterns: self.schedule@ }
    }
}

impl<Id> Task<Id> {
    /// Starts a task `id` with no pattern.
    pub fn builder(id: Id) -> (r: Builder<Id>)
        ensures
            r@ == (TaskView::<Id> { id, patterns: Seq::empty() }),
    {
        Builder::new(id)
    }

    fn new(id: Id, schedule: Schedules) -> (r: Self)
        ensures
            r@ == (TaskView { id, patterns: schedule@ }),
    {
        Task { id, schedule }
    }

    /// The task's identifier.
    pub fn id_ref(&self) -> (r: &Id)
        ensures
            *r == self@.id,
    {
        &self.id
    }

    /// The task's patterns.
    pub fn schedule(&self) -> (r: &Schedules)
        ensures
            r@ == self@.patterns,
    {
        &self.schedule
    }
}

impl<Id: Copy> Task<Id> {
    /// The task's identifier.
    pub fn id(&self) -> (r: Id)
        ensures
            r == self@.id,
    {
        self.id
    }
}

} // verus!
