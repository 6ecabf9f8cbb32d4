//! The compact patterns of a task: up to two held inline, more on the heap.

use vstd::prelude::*;

use crate::datetime::{DateTime, MAX_YEAR};
use crate::schedule::Schedule;
use crate::schedules::{is_next_of_any, Schedules};
use crate::task_time::TaskTime;

verus! {

/// The calendar patterns of compact patterns, in order.
pub open spec fn patterns_of(times: Seq<TaskTime>) -> Seq<crate::schedule::PatternView> {
    times.map_values(|t: TaskTime| t.pattern())
}

/// Compact patterns, matched as one: due whenever one of them matches.
pub struct TaskTimeBuf {
    repr: TaskTimeBufRepr,
}

impl View for TaskTimeBuf {
    type V = Seq<TaskTime>;

    closed spec fn view(&self) -> Seq<TaskTime> {
        self.repr@
    }
}

impl TaskTimeBuf {
    /// One pattern.
    pub fn new_single(time: TaskTime) -> (r: Self)
        ensures
            r@ == seq![time],
    {
        TaskTimeBuf { repr: TaskTimeBufRepr::new_from_array([time]) }
    }

    /// The patterns of `vec`, in order.
    pub fn new_from_vec(vec: Vec<TaskTime>) -> (r: Self)
        ensures
            r@ == vec@,
    {
        TaskTimeBuf { repr: TaskTimeBufRepr::new_from_vec(vec) }
    }

    /// The patterns of `array`, in order.
    pub fn new_from_array<const N: usize>(array: [TaskTime; N]) -> (r: Self)
        ensures
            r@ == array@,
    {
        TaskTimeBuf { repr: TaskTimeBufRepr::new_from_array(array) }
    }

    /// The patterns, in order.
    pub fn iter(&self) -> (r: Vec<TaskTime>)
        ensures
            r@ == self@,
    {
        self.repr.iter()
    }

    /// The first instant at or after `now` that one of the patterns matches; `None` where there
    /// are none.
    pub fn next_occurrence(&self, now: DateTime) -> (r: Option<DateTime>)
        requires
            now.wf(),
            now.year < MAX_YEAR,
        ensures
            r is None <==> self@.len() == 0,
            r is Some ==> is_next_of_any(patterns_of(self@), now, r->0),
    {
        let times = self.iter();
        let mut schedules: Vec<Schedule> = Vec::new();
        let mut i: usize = 0;
        while i < times.len()
            invariant
                i <= times@.len(),
                times@ == self@,
                schedules@.map_values(|s: Schedule| s@) == patterns_of(times@.take(i as int)),
            decreases times@.len() - i,
        {
            let ghost prev = schedules@;
            let s = times[i].to_schedule();
            schedules.push(s);
            proof {
                let lhs = schedules@.map_values(|s: Schedule| s@);
                let rhs = patterns_of(times@.take(i as int + 1));
                assert(prev.len() == i) by {
                    assert(prev.map_values(|s: Schedule| s@).len() == i);
                }
                assert(schedules@ == prev.push(s));
                assert(lhs.len() == rhs.len());
                assert forall|k: int| 0 <= k < lhs.len() implies lhs[k] == rhs[k] by {
                    if k == i {
                        assert(lhs[k] == s@);
                        assert(times@.take(i as int + 1)[k] == times@[k]);
                    } else {
                        assert(lhs[k] == prev.map_values(|s: Schedule| s@)[k]);
                        assert(times@.take(i as int + 1)[k] == times@.take(i as int)[k]);
                        assert(prev.map_values(|s: Schedule| s@)[k] == patterns_of(
                            times@.take(i as int),
                        )[k]);
                    }
                }
                assert(lhs =~= rhs);
            }
            i = i + 1;
        }
        assert(times@.take(i as int) =~= times@);
        Schedules::from_vec(schedules).next_occurrence(now)
    }
}

/// Number of patterns held inline.
const ARRAY_LEN: usize = 2;

enum TaskTimeBufRepr {
    Stack { buf: [TaskTime; ARRAY_LEN], len: u8 },
    Heap { items: Box<Vec<TaskTime>> },
}

impl View for TaskTimeBufRepr {
    type V = Seq<TaskTime>;

    closed spec fn view(&self) -> Seq<TaskTime> {
        match self {
            TaskTimeBufRepr::Stack { buf, len } => buf@.take(*len as int),
            TaskTimeBufRepr::Heap { items } => items@,
        }
    }
}

impl TaskTimeBufRepr {
    #[verifier::type_invariant]
    closed spec fn inv(self) -> bool {
        match self {
            TaskTimeBufRepr::Stack { len, .. } => len as int <= ARRAY_LEN,
            TaskTimeBufRepr::Heap { .. } => true,
        }
    }

    fn new_from_vec(vec: Vec<TaskTime>) -> (r: Self)
        ensures
            r@ == vec@,
    {
        let n = vec.len();
        if n <= ARRAY_LEN {
            let filler = TaskTime::default();
            let first = if n >= 1 {
                vec[0]
            } else {
                filler
            };
            let second = if n >= 2 {
                vec[1]
            } else {
                filler
            };
            let buf = [first, second];
            let r = TaskTimeBufRepr::Stack { buf, len: n as u8 };
            assert(r@ =~= vec@);
            r
        } else {
            TaskTimeBufRepr::Heap { items: Box::new(vec) }
        }
    }

    fn new_from_array<const N: usize>(array: [TaskTime; N]) -> (r: Self)
        ensures
            r@ == array@,
    {
        let mut v: Vec<TaskTime> = Vec::new();
        let mut i: usize = 0;
        while i < N
            invariant
                i <= N,
                N == array@.len(),
                v@ == array@.take(i as int),
            decreases N - i,
        {
            v.push(array[i]);
            i = i + 1;
            assert(v@ =~= array@.take(i as int));
        }
        assert(v@ =~= array@);
        Self::new_from_vec(v)
    }

    fn iter(&self) -> (r: Vec<TaskTime>)
        ensures
            r@ == self@,
    {
        proof {
            use_type_invariant(self);
        }
        match self {
            TaskTimeBufRepr::Stack { buf, len } => {
                let mut v: Vec<TaskTime> = Vec::new();
                let mut i: usize = 0;
                let n = *len as usize;
                while i < n
                    invariant
                        i <= n,
                        n <= ARRAY_LEN,
                        buf@.len() == ARRAY_LEN,
                        v@ == buf@.take(i as int),
                    decreases n - i,
                {
                    v.push(buf[i]);
                    i = i + 1;
                    assert(v@ =~= buf@.take(i as int));
                }
                v
            },
            TaskTimeBufRepr::Heap { items } => {
                let mut v: Vec<TaskTime> = Vec::new();
                let mut i: usize = 0;
                while i < items.len()
                    invariant
                        i <= items@.len(),
                        v@ == items@.take(i as int),
                    decreases items@.len() - i,
                {
                    v.push(items[i]);
                    i = i + 1;
                    assert(v@ =~= items@.take(i as int));
                }
                assert(v@ =~= items@);
                v
            },
        }
    }
}

} // verus!
