//! The stream of due tasks: on each pull, the identifier of a task whose next occurrence comes
//! first, and the instant at which it falls due.

use vstd::laws_eq::obeys_concrete_eq;
use vstd::prelude::*;

use crate::datetime::{DateTime, MAX_YEAR};
use crate::schedules::is_next_of_any;
use crate::task::{Task, TaskView};

verus! {

/// A registered task and its cached next fire time.
pub ghost struct EntryView<Id> {
    pub task: TaskView<Id>,
    pub next_time: Option<DateTime>,
}

impl<Id> EntryView<Id> {
    /// `new` is this entry brought up to `floor`: a cached fire time later than `floor` is kept;
    /// any other is replaced by the task's first occurrence at or after `floor` (none for a task
    /// without patterns).
    pub open spec fn refreshed(self, floor: DateTime, new: EntryView<Id>) -> bool {
        &&& new.task == self.task
        &&& if self.next_time is Some && floor.instant() < self.next_time->0.instant() {
            new.next_time == self.next_time
        } else {
            &&& (new.next_time is None <==> self.task.patterns.len() == 0)
            &&& (new.next_time is Some ==> is_next_of_any(
                self.task.patterns,
                floor,
                new.next_time->0,
            ))
        }
    }
}

/// The state of a stream: its entries in order of registration, the identifiers already found
/// due and not yet handed out (the last is handed out first), and the fire time handed out last.
pub ghost struct StreamView<Id> {
    pub entries: Seq<EntryView<Id>>,
    pub pending: Seq<Id>,
    pub previous: Option<DateTime>,
}

impl<Id> StreamView<Id> {
    /// Every cached or handed-out time is a valid date and time.
    pub open spec fn wf(self) -> bool {
        &&& forall|i: int|
            0 <= i < self.entries.len() && (#[trigger] self.entries[i]).next_time is Some
                ==> self.entries[i].next_time->0.wf()
        &&& self.previous is Some ==> self.previous->0.wf()
    }
}

/// The later of the clock's `now` and the fire time handed out last.
pub open spec fn later_of(now: DateTime, previous: Option<DateTime>) -> DateTime {
    match previous {
        Some(p) => if now.instant() < p.instant() {
            p
        } else {
            now
        },
        None => now,
    }
}

/// The identifiers of the entries due at `at`, in order of registration.
pub open spec fn ids_due<Id>(entries: Seq<EntryView<Id>>, at: DateTime) -> Seq<Id>
    decreases entries.len(),
{
    if entries.len() == 0 {
        Seq::empty()
    } else {
        let rest = ids_due(entries.drop_last(), at);
        if entries.last().next_time == Some(at) {
            rest.push(entries.last().task.id)
        } else {
            rest
        }
    }
}

/// The entries whose task is not `id`, in order.
pub open spec fn without_id<Id>(entries: Seq<EntryView<Id>>, id: Id) -> Seq<EntryView<Id>>
    decreases entries.len(),
{
    if entries.len() == 0 {
        Seq::empty()
    } else {
        let rest = without_id(entries.drop_last(), id);
        if entries.last().task.id == id {
            rest
        } else {
            rest.push(entries.last())
        }
    }
}

/// Whether an entry's task is `id`.
pub open spec fn has_id<Id>(entries: Seq<EntryView<Id>>, id: Id) -> bool {
    exists|i: int| 0 <= i < entries.len() && (#[trigger] entries[i]).task.id == id
}

/// No entry has a fire time.
pub open spec fn none_due<Id>(entries: Seq<EntryView<Id>>) -> bool {
    forall|i: int| 0 <= i < entries.len() ==> (#[trigger] entries[i]).next_time is None
}

/// `m` is the earliest fire time of the entries.
pub open spec fn is_earliest<Id>(entries: Seq<EntryView<Id>>, m: DateTime) -> bool {
    &&& exists|i: int| 0 <= i < entries.len() && (#[trigger] entries[i]).next_time == Some(m)
    &&& forall|i: int|
        0 <= i < entries.len() && (#[trigger] entries[i]).next_time is Some ==> m.instant()
            <= entries[i].next_time->0.instant()
}

/// The state `new` and result `r` of one pull at clock reading `now` from state `old`: an
/// identifier already found due is handed out without a time; else every fire time is brought up
/// to the start of the second after the later of `now` and the last handed-out time (see
/// `is_refresh_pull`). Past the last years of the calendar the stream yields nothing.
pub open spec fn is_pull<Id>(
    old: StreamView<Id>,
    now: DateTime,
    new: StreamView<Id>,
    r: Option<(Id, Option<DateTime>)>,
) -> bool {
    if old.pending.len() > 0 {
        &&& r == Some((old.pending.last(), None::<DateTime>))
        &&& new == (StreamView { pending: old.pending.drop_last(), ..old })
    } else if later_of(now, old.previous).year >= MAX_YEAR - 1 {
        r is None && new == old
    } else {
        is_refresh_pull(old, later_of(now, old.previous).following_second(), new, r)
    }
}

/// Every entry is refreshed from `floor`; where some entry then has a fire time, the earliest
/// one `m` is handed out with the first identifier due at `m`, the other identifiers due at `m`
/// wait in `pending`, and `m` is kept as the last handed-out time.
pub open spec fn is_refresh_pull<Id>(
    old: StreamView<Id>,
    floor: DateTime,
    new: StreamView<Id>,
    r: Option<(Id, Option<DateTime>)>,
) -> bool {
    &&& new.entries.len() == old.entries.len()
    &&& forall|i: int|
        0 <= i < old.entries.len() ==> #[trigger] old.entries[i].refreshed(floor, new.entries[i])
    &&& match r {
        None => {
            &&& none_due(new.entries)
            &&& new.pending == Seq::<Id>::empty()
            &&& new.previous == old.previous
        },
        Some((id, at)) => {
            &&& at is Some
            &&& is_earliest(new.entries, at->0)
            &&& new.previous == at
            &&& ids_due(new.entries, at->0).len() >= 1
            &&& id == ids_due(new.entries, at->0)[0]
            &&& new.pending == ids_due(new.entries, at->0).drop_first()
        },
    }
}

/// An entry due at `m` puts an identifier in `ids_due(entries, m)`.
proof fn lemma_ids_due_nonempty<Id>(entries: Seq<EntryView<Id>>, m: DateTime, i: int)
    requires
        0 <= i < entries.len(),
        entries[i].next_time == Some(m),
    ensures
        ids_due(entries, m).len() >= 1,
    decreases entries.len(),
{
    if i < entries.len() - 1 {
        lemma_ids_due_nonempty(entries.drop_last(), m, i);
    }
}

struct TaskEntry<Id> {
    task: Task<Id>,
    next_time: Option<DateTime>,
}

impl<Id> View for TaskEntry<Id> {
    type V = EntryView<Id>;

    closed spec fn view(&self) -> EntryView<Id> {
        EntryView { task: self.task@, next_time: self.next_time }
    }
}

impl<Id> TaskEntry<Id> {
    fn new(task: Task<Id>) -> (r: Self)
        ensures
            r@ == (EntryView { task: task@, next_time: None }),
    {
        TaskEntry { task, next_time: None }
    }

    fn update_next_time(&mut self, now: DateTime)
        requires
            now.wf(),
            now.year < MAX_YEAR,
            old(self)@.next_time is Some ==> old(self)@.next_time->0.wf(),
        ensures
            old(self)@.refreshed(now, final(self)@),
            final(self)@.next_time is Some ==> final(self)@.next_time->0.wf(),
    {
        if let Some(next_time) = self.next_time {
            if now.is_before(&next_time) {
                return;
            }
        }
        self.next_time = self.task.schedule().next_occurrence(now);
    }
}

/// The entries of a vector of task entries.
spec fn entries_of<Id>(v: Seq<TaskEntry<Id>>) -> Seq<EntryView<Id>> {
    v.map_values(|e: TaskEntry<Id>| e@)
}

/// A collection of tasks that hands out, on each pull, the identifier of a task that is due
/// first, with the instant at which it is due; the caller does the waiting.
pub struct ManualSleep<Id> {
    tasks: Vec<TaskEntry<Id>>,
    next_ids_buf: Vec<Id>,
    previous_time: Option<DateTime>,
}

impl<Id> View for ManualSleep<Id> {
    type V = StreamView<Id>;

    closed spec fn view(&self) -> StreamView<Id> {
        StreamView {
            entries: entries_of(self.tasks@),
            pending: self.next_ids_buf@,
            previous: self.previous_time,
        }
    }
}

impl<Id> ManualSleep<Id> {
    /// A stream without tasks.
    pub fn new() -> (r: Self)
        ensures
            r@ == (StreamView::<Id> {
                entries: Seq::empty(),
                pending: Seq::empty(),
                previous: None,
            }),
            r@.wf(),
    {
        let r = ManualSleep { tasks: Vec::new(), next_ids_buf: Vec::new(), previous_time: None };
        assert(r@.entries =~= Seq::<EntryView<Id>>::empty());
        r
    }
}

impl<Id> Default for ManualSleep<Id> {
    fn default() -> (r: Self)
        ensures
            r@ == (StreamView::<Id> {
                entries: Seq::empty(),
                pending: Seq::empty(),
                previous: None,
            }),
            r@.wf(),
    {
        Self::new()
    }
}

impl<Id: Copy + Eq> ManualSleep<Id> {
    /// The stream with `task` inserted (see `insert`).
    pub fn with(self, task: Task<Id>) -> (r: Self)
        requires
            self@.wf(),
        ensures
            r@.wf(),
            r@.pending == self@.pending,
            r@.previous == self@.previous,
            obeys_concrete_eq::<Id>() ==> r@.entries == without_id(self@.entries, task@.id).push(
                EntryView { task: task@, next_time: None },
            ),
    {
        let mut this = self;
        this.insert(task);
        this
    }

    /// Registers `task`, in place of any task with its identifier, which it removes; returns
    /// whether it removed one.
    pub fn insert(&mut self, task: Task<Id>) -> (r: bool)
        requires
            old(self)@.wf(),
        ensures
            final(self)@.wf(),
            final(self)@.pending == old(self)@.pending,
            final(self)@.previous == old(self)@.previous,
            obeys_concrete_eq::<Id>() ==> final(self)@.entries == without_id(
                old(self)@.entries,
                task@.id,
            ).push(EntryView { task: task@, next_time: None }),
            obeys_concrete_eq::<Id>() ==> (r <==> has_id(old(self)@.entries, task@.id)),
    {
        let removed = self.remove(task.id());
        let ghost mid = self.tasks@;
        let entry = TaskEntry::new(task);
        self.tasks.push(entry);
        assert(entries_of(self.tasks@) =~= entries_of(mid).push(entry@));
        removed
    }

    /// Removes every task with identifier `id`; returns whether there was one.
    pub fn remove(&mut self, id: Id) -> (r: bool)
        requires
            old(self)@.wf(),
        ensures
            final(self)@.wf(),
            final(self)@.pending == old(self)@.pending,
            final(self)@.previous == old(self)@.previous,
            obeys_concrete_eq::<Id>() ==> final(self)@.entries == without_id(old(self)@.entries, id),
            obeys_concrete_eq::<Id>() ==> (r <==> has_id(old(self)@.entries, id)),
    {
        let ghost orig = entries_of(self.tasks@);
        let old_len = self.tasks.len();
        let mut i: usize = 0;
        let ghost mut k: int = 0;
        while i < self.tasks.len()
            invariant
                0 <= k <= orig.len(),
                orig.len() == old_len,
                i as int == k - (old_len - self.tasks@.len()),
                i <= self.tasks@.len(),
                self.tasks@.len() <= old_len,
                entries_of(self.tasks@).skip(i as int) == orig.skip(k),
                self.next_ids_buf@ == old(self)@.pending,
                self.previous_time == old(self)@.previous,
                old(self)@.wf(),
                forall|j: int|
                    0 <= j < self.tasks@.len() && (#[trigger] entries_of(self.tasks@)[j]).next_time is Some
                        ==> entries_of(self.tasks@)[j].next_time->0.wf(),
                obeys_concrete_eq::<Id>() ==> entries_of(self.tasks@).take(i as int) == without_id(
                    orig.take(k),
                    id,
                ),
                obeys_concrete_eq::<Id>() ==> (self.tasks@.len() < old_len <==> has_id(
                    orig.take(k),
                    id,
                )),
            decreases self.tasks@.len() - i,
        {
            let ghost before = entries_of(self.tasks@);
            assert(before[i as int] == orig[k]) by {
                assert(before.skip(i as int)[0] == orig.skip(k)[0]);
            }
            assert(orig.take(k + 1).drop_last() =~= orig.take(k));
            assert(orig.take(k + 1).last() == orig[k]);
            proof {
                reveal(obeys_concrete_eq);
            }
            let tid = self.tasks[i].task.id();
            assert(tid == before[i as int].task.id);
            if tid == id {
                self.tasks.remove(i);
                proof {
                    let after = entries_of(self.tasks@);
                    assert(after =~= before.remove(i as int));
                    assert(after.skip(i as int) =~= orig.skip(k + 1)) by {
                        assert(before.skip(i as int).skip(1) =~= after.skip(i as int));
                        assert(orig.skip(k).skip(1) =~= orig.skip(k + 1));
                    }
                    assert(after.take(i as int) =~= before.take(i as int));
                    if obeys_concrete_eq::<Id>() {
                        assert(orig[k].task.id == id);
                        assert(orig.take(k + 1)[k].task.id == id);
                        assert(has_id(orig.take(k + 1), id));
                        assert(self.tasks@.len() < old_len);
                    }
                    assert forall|j: int|
                        0 <= j < self.tasks@.len() && (#[trigger] entries_of(
                            self.tasks@,
                        )[j]).next_time is Some implies entries_of(
                        self.tasks@,
                    )[j].next_time->0.wf() by {
                        if j < i {
                            assert(after[j] == before[j]);
                        } else {
                            assert(after[j] == before[j + 1]);
                        }
                    }
                }
            } else {
                proof {
                    assert(before.skip(i as int + 1) =~= before.skip(i as int).skip(1));
                    assert(orig.skip(k + 1) =~= orig.skip(k).skip(1));
                    assert(before.take(i as int + 1) =~= before.take(i as int).push(before[i as int]));
                    if obeys_concrete_eq::<Id>() {
                        assert(orig[k].task.id != id);
                        if has_id(orig.take(k + 1), id) {
                            let m = choose|m: int|
                                0 <= m < k + 1 && (#[trigger] orig.take(k + 1)[m]).task.id == id;
                            assert(orig.take(k)[m] == orig.take(k + 1)[m]);
                        }
                        if has_id(orig.take(k), id) {
                            let m = choose|m: int|
                                0 <= m < k && (#[trigger] orig.take(k)[m]).task.id == id;
                            assert(orig.take(k + 1)[m] == orig.take(k)[m]);
                        }
                    }
                }
                i = i + 1;
            }
            proof {
                k = k + 1;
            }
        }
        proof {
            assert(entries_of(self.tasks@).skip(i as int).len() == 0);
            assert(k == orig.len());
            assert(orig.take(k) =~= orig);
            assert(entries_of(self.tasks@).take(i as int) =~= entries_of(self.tasks@));
        }
        self.tasks.len() != old_len
    }

    /// Whether a task with identifier `id` is registered.
    pub fn contains(&self, id: Id) -> (r: bool)
        ensures
            obeys_concrete_eq::<Id>() ==> (r <==> has_id(self@.entries, id)),
    {
        proof {
            reveal(obeys_concrete_eq);
        }
        let mut i: usize = 0;
        while i < self.tasks.len()
            invariant
                i <= self.tasks@.len(),
                obeys_concrete_eq::<Id>() ==> forall|j: int|
                    0 <= j < i ==> (#[trigger] entries_of(self.tasks@)[j]).task.id != id,
            decreases self.tasks@.len() - i,
        {
            proof {
                reveal(obeys_concrete_eq);
            }
            let tid = self.tasks[i].task.id();
            assert(tid == entries_of(self.tasks@)[i as int].task.id);
            if tid == id {
                proof {
                    if obeys_concrete_eq::<Id>() {
                        assert(entries_of(self.tasks@)[i as int].task.id == id);
                    }
                }
                return true;
            }
            i = i + 1;
        }
        false
    }
}

impl<Id: Copy> ManualSleep<Id> {
    /// One pull of the stream, with the clock reading `now`: an identifier and, unless it was
    /// already found due with the previous one, the instant at which it falls due.
    pub fn next_at(&mut self, now: DateTime) -> (r: Option<(Id, Option<DateTime>)>)
        requires
            old(self)@.wf(),
            now.wf(),
        ensures
            final(self)@.wf(),
            is_pull(old(self)@, now, final(self)@, r),
    {
        if self.next_ids_buf.len() > 0 {
            match self.next_ids_buf.pop() {
                Some(id) => {
                    return Some((id, None));
                },
                None => {
                    return None;
                },
            }
        }
        // The previous fire time guards against a clock that steps back and against waits that
        // end early.
        let base = match self.previous_time {
            Some(p) => if now.is_before(&p) {
                p
            } else {
                now
            },
            None => now,
        };
        if base.year >= MAX_YEAR - 1 {
            return None;
        }
        // Nothing runs before the start of the next second, so a task runs once per second at
        // most however often the stream is pulled.
        let floor = base.start_of_next_second();
        let ghost orig = entries_of(self.tasks@);
        let n = self.tasks.len();
        let mut i: usize = 0;
        while i < n
            invariant
                i <= n,
                n == self.tasks@.len(),
                orig.len() == n,
                floor.wf(),
                floor.year < MAX_YEAR,
                self.next_ids_buf@ == old(self)@.pending,
                self.previous_time == old(self)@.previous,
                old(self)@.wf(),
                orig == old(self)@.entries,
                forall|k: int|
                    0 <= k < i ==> #[trigger] orig[k].refreshed(floor, entries_of(self.tasks@)[k]),
                forall|k: int| i <= k < n ==> #[trigger] entries_of(self.tasks@)[k] == orig[k],
                forall|k: int|
                    0 <= k < n && (#[trigger] entries_of(self.tasks@)[k]).next_time is Some
                        ==> entries_of(self.tasks@)[k].next_time->0.wf(),
            decreases n - i,
        {
            let ghost before = self.tasks@;
            assert(entries_of(before)[i as int] == before[i as int]@);
            self.tasks[i].update_next_time(floor);
            proof {
                let after = self.tasks@;
                assert forall|k: int| 0 <= k < n && k != i implies after[k] == before[k] by {}
                assert(entries_of(after)[i as int] == after[i as int]@);
                assert forall|k: int|
                    0 <= k < n && k != i implies #[trigger] entries_of(after)[k] == entries_of(
                    before,
                )[k] by {}
            }
            i = i + 1;
        }
        let ghost refreshed = entries_of(self.tasks@);
        // The earliest fire time.
        let mut best: Option<DateTime> = None;
        let mut j: usize = 0;
        while j < n
            invariant
                j <= n,
                n == self.tasks@.len(),
                refreshed == entries_of(self.tasks@),
                forall|k: int|
                    0 <= k < n && (#[trigger] refreshed[k]).next_time is Some
                        ==> refreshed[k].next_time->0.wf(),
                best is None <==> none_due(refreshed.take(j as int)),
                best is Some ==> is_earliest(refreshed.take(j as int), best->0),
                best is Some ==> best->0.wf(),
            decreases n - j,
        {
            assert(refreshed[j as int] == self.tasks@[j as int]@);
            let ghost pre = refreshed.take(j as int);
            let ghost post = refreshed.take(j as int + 1);
            assert forall|k: int| 0 <= k < j implies #[trigger] post[k] == pre[k] by {}
            assert(post[j as int] == refreshed[j as int]);
            if let Some(t) = self.tasks[j].next_time {
                let b = match best {
                    None => t,
                    Some(b) => if t.is_before(&b) {
                        t
                    } else {
                        b
                    },
                };
                proof {
                    assert(post[j as int].next_time == Some(t));
                    if best is Some {
                        let w = choose|w: int|
                            0 <= w < pre.len() && (#[trigger] pre[w]).next_time == Some(best->0);
                        assert(post[w] == pre[w]);
                    }
                    assert forall|k: int|
                        0 <= k < post.len() && (#[trigger] post[k]).next_time is Some implies b.instant()
                        <= post[k].next_time->0.instant() by {
                        if k < j {
                            assert(post[k] == pre[k]);
                        }
                    }
                }
                best = Some(b);
            } else {
                proof {
                    if best is Some {
                        let w = choose|w: int|
                            0 <= w < pre.len() && (#[trigger] pre[w]).next_time == Some(best->0);
                        assert(post[w] == pre[w]);
                        assert forall|k: int|
                            0 <= k < post.len() && (#[trigger] post[k]).next_time is Some implies best->0.instant()
                            <= post[k].next_time->0.instant() by {
                            if k < j {
                                assert(post[k] == pre[k]);
                            }
                        }
                    } else {
                        assert forall|k: int| 0 <= k < post.len() implies (
                        #[trigger] post[k]).next_time is None by {
                            if k < j {
                                assert(post[k] == pre[k]);
                            }
                        }
                    }
                }
            }
            j = j + 1;
        }
        proof {
            assert(refreshed.take(n as int) =~= refreshed);
        }
        let m = match best {
            None => {
                assert(self.next_ids_buf@ =~= Seq::<Id>::empty());
                return None;
            },
            Some(m) => m,
        };
        self.previous_time = Some(m);
        // Every task due at `m`, in order of registration.
        let mut due: Vec<Id> = Vec::new();
        let mut j: usize = 0;
        while j < n
            invariant
                j <= n,
                n == self.tasks@.len(),
                refreshed == entries_of(self.tasks@),
                due@ == ids_due(refreshed.take(j as int), m),
            decreases n - j,
        {
            assert(refreshed[j as int] == self.tasks@[j as int]@);
            assert(refreshed.take(j as int + 1).drop_last() =~= refreshed.take(j as int));
            assert(refreshed.take(j as int + 1).last() == refreshed[j as int]);
            if let Some(t) = self.tasks[j].next_time {
                if t == m {
                    due.push(self.tasks[j].task.id());
                }
            }
            j = j + 1;
        }
        proof {
            let w = choose|w: int|
                0 <= w < refreshed.len() && (#[trigger] refreshed[w]).next_time == Some(m);
            lemma_ids_due_nonempty(refreshed, m, w);
        }
        let first = due.remove(0);
        assert(due@ =~= ids_due(refreshed, m).drop_first());
        self.next_ids_buf = due;
        Some((first, Some(m)))
    }
}

} // verus!
