//! One or several patterns of a task, matched as one: the task is due whenever any of them
//! matches.

use vstd::prelude::*;

use crate::datetime::{DateTime, MAX_YEAR};
use crate::schedule::{is_first_from, PatternView, Schedule};

verus! {

/// `u` matches one of `patterns`.
pub open spec fn matches_any(patterns: Seq<PatternView>, u: DateTime) -> bool {
    exists|j: int| 0 <= j < patterns.len() && #[trigger] patterns[j].matches(u)
}

/// `r` is the first instant at or after `now` that one of `patterns` matches.
pub open spec fn is_next_of_any(patterns: Seq<PatternView>, now: DateTime, r: DateTime) -> bool {
    is_first_from(|u: DateTime| matches_any(patterns, u), now, r)
}

/// The earlier of two first instants from `now` is the first instant of which either
/// predicate holds.
pub proof fn lemma_first_of_either(
    pa: spec_fn(DateTime) -> bool,
    pb: spec_fn(DateTime) -> bool,
    now: DateTime,
    a: DateTime,
    b: DateTime,
)
    requires
        now.wf(),
        is_first_from(pa, now, a),
        is_first_from(pb, now, b),
    ensures
        is_first_from(|u: DateTime| pa(u) || pb(u), now, if b.instant() < a.instant() { b } else { a }),
{
    let r = if b.instant() < a.instant() { b } else { a };
    if a.second_index() < b.second_index() {
        assert(a.instant() < b.instant());
    } else if b.second_index() < a.second_index() {
        assert(b.instant() < a.instant());
    } else {
        crate::schedule::lemma_same_second(a, b);
        assert(a == b);
    }
    assert forall|t: DateTime|
        t.wf() && (pa(t) || pb(t)) && now.second_index() <= #[trigger] t.second_index() implies r.second_index()
        <= t.second_index() by {
        if pa(t) {
            assert(a.second_index() <= t.second_index());
        } else {
            assert(b.second_index() <= t.second_index());
        }
    }
}

/// The next occurrence of two patterns together is the earlier of their own next occurrences.
pub proof fn lemma_merge_returns_minimum(
    left: PatternView,
    right: PatternView,
    now: DateTime,
    r1: DateTime,
    r2: DateTime,
    r: DateTime,
)
    requires
        now.wf(),
        left.is_next_occurrence(now, r1),
        right.is_next_occurrence(now, r2),
        is_next_of_any(seq![left, right], now, r),
    ensures
        r == if r2.instant() < r1.instant() {
            r2
        } else {
            r1
        },
{
    let pa = |u: DateTime| left.matches(u);
    let pb = |u: DateTime| right.matches(u);
    lemma_first_of_either(pa, pb, now, r1, r2);
    let both = seq![left, right];
    let pe = |u: DateTime| pa(u) || pb(u);
    let pany = |u: DateTime| matches_any(both, u);
    assert forall|u: DateTime| #[trigger] pany(u) == pe(u) by {
        if pany(u) {
            let j = choose|j: int| 0 <= j < both.len() && #[trigger] both[j].matches(u);
        }
        if pa(u) {
            assert(both[0].matches(u));
        }
        if pb(u) {
            assert(both[1].matches(u));
        }
    }
    assert(pany =~= pe);
    crate::schedule::lemma_first_unique(pany, now, r, if r2.instant() < r1.instant() { r2 } else { r1 });
}

/// The patterns of a task: one, held inline, or any number.
pub enum Schedules {
    One(Schedule),
    Many(Box<Vec<Schedule>>),
}

impl View for Schedules {
    type V = Seq<PatternView>;

    open spec fn view(&self) -> Seq<PatternView> {
        match self {
            Schedules::One(s) => seq![s@],
            Schedules::Many(v) => v@.map_values(|s: Schedule| s@),
        }
    }
}

impl Schedules {
    /// The patterns of `schedules`, in their order.
    pub fn from_vec(schedules: Vec<Schedule>) -> (r: Self)
        ensures
            r@ == schedules@.map_values(|s: Schedule| s@),
    {
        if schedules.len() == 1 {
            let r = Schedules::One(schedules[0]);
            assert(r@ =~= schedules@.map_values(|s: Schedule| s@));
            r
        } else {
            Schedules::Many(Box::new(schedules))
        }
    }

    /// The patterns of `schedules`, in their order.
    pub fn from_array<const N: usize>(schedules: [Schedule; N]) -> (r: Self)
        ensures
            r@ == schedules@.map_values(|s: Schedule| s@),
    {
        let mut v: Vec<Schedule> = Vec::new();
        let mut i: usize = 0;
        while i < N
            invariant
                i <= N,
                N == schedules@.len(),
                v@ == schedules@.take(i as int),
            decreases N - i,
        {
            v.push(schedules[i]);
            i = i + 1;
            assert(v@ =~= schedules@.take(i as int));
        }
        assert(v@ =~= schedules@);
        Self::from_vec(v)
    }

    /// The first instant at or after `now` that one of the patterns matches; `None` where there
    /// are no patterns.
    pub fn next_occurrence(&self, now: DateTime) -> (r: Option<DateTime>)
        requires
            now.wf(),
            now.year < MAX_YEAR,
        ensures
            r is None <==> self@.len() == 0,
            r is Some ==> is_next_of_any(self@, now, r->0),
    {
        match self {
            Schedules::One(schedule) => {
                let r = schedule.next_occurrence(now);
                proof {
                    let pats = self@;
                    assert(pats[0] == schedule@);
                    assert(pats[0].matches(r));
                    assert forall|t: DateTime|
                        t.wf() && matches_any(pats, t) && now.second_index()
                            <= #[trigger] t.second_index() implies r.second_index()
                        <= t.second_index() by {
                        let j = choose|j: int| 0 <= j < pats.len() && #[trigger] pats[j].matches(t);
                        assert(j == 0);
                        assert(schedule@.matches(t));
                    }
                }
                Some(r)
            },
            Schedules::Many(schedules) => {
                let pats = Ghost(self@);
                let n = schedules.len();
                let mut best: Option<DateTime> = None;
                let mut i: usize = 0;
                while i < n
                    invariant
                        i <= n,
                        n == schedules@.len(),
                        pats@ == schedules@.map_values(|s: Schedule| s@),
                        now.wf(),
                        now.year < MAX_YEAR,
                        best is None <==> i == 0,
                        best is Some ==> is_next_of_any(pats@.take(i as int), now, best->0),
                    decreases n - i,
                {
                    let c = schedules[i].next_occurrence(now);
                    let ghost prefix = pats@.take(i as int);
                    let ghost next_prefix = pats@.take(i as int + 1);
                    let ghost pi = pats@[i as int];
                    assert(pi == schedules@[i as int]@);
                    let new_best = match best {
                        None => c,
                        Some(b) => if c.is_before(&b) {
                            c
                        } else {
                            b
                        },
                    };
                    proof {
                        let pn = |u: DateTime| matches_any(next_prefix, u);
                        if i == 0 {
                            assert(pn(c)) by {
                                assert(next_prefix[0] == pi);
                            }
                            assert forall|t: DateTime|
                                t.wf() && pn(t) && now.second_index()
                                    <= #[trigger] t.second_index() implies c.second_index()
                                <= t.second_index() by {
                                let j = choose|j: int|
                                    0 <= j < next_prefix.len() && #[trigger] next_prefix[j].matches(t);
                                assert(pi.matches(t));
                            }
                        } else {
                            let b = best->0;
                            let pa = |u: DateTime| matches_any(prefix, u);
                            let pb = |u: DateTime| pi.matches(u);
                            lemma_first_of_either(pa, pb, now, b, c);
                            let r = new_best;
                            assert(r == if c.instant() < b.instant() { c } else { b });
                            assert forall|u: DateTime| #[trigger] pn(u) == (pa(u) || pb(u)) by {
                                if pn(u) {
                                    let j = choose|j: int|
                                        0 <= j < next_prefix.len() && #[trigger] next_prefix[j].matches(u);
                                    if j < i {
                                        assert(prefix[j] == next_prefix[j]);
                                    } else {
                                        assert(j == i);
                                    }
                                }
                                if pa(u) {
                                    let j = choose|j: int|
                                        0 <= j < prefix.len() && #[trigger] prefix[j].matches(u);
                                    assert(prefix[j] == next_prefix[j]);
                                }
                                if pb(u) {
                                    assert(next_prefix[i as int] == pi);
                                }
                            }
                            assert(pn =~= (|u: DateTime| pa(u) || pb(u)));
                        }
                    }
                    best = Some(new_best);
                    i = i + 1;
                }
                proof {
                    assert(pats@.take(n as int) =~= pats@);
                }
                best
            },
        }
    }
}

} // verus!
