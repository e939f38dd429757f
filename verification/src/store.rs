//! The task store: the active tasks and the archived ones, side by side.
//!
//! The store is held in memory. Whoever owns the files reads them into a
//! store, applies an operation and writes back what changed. An operation
//! that fails leaves the store as it was.

use vstd::prelude::*;
use crate::comparible_task::{ComparibleTask, ComparibleTaskView};
use crate::db::{at_most, get_completed_tasks, get_tasks, is_top_of_ranking};
use crate::error::{InvalidTaskError, StoreError, TaskNotFoundError};
use crate::rank::{lemma_ranking_of_one, scored};
use crate::task::{Task, TaskView};
use crate::text::lemma_deep_view_push;
use crate::timestamp::Timestamp;

verus! {

/// The two collections of the tracker.
#[derive(Debug)]
pub struct TaskStore {
    /// The tasks that are not complete, in the order in which they were added.
    pub active: Vec<Task>,
    /// The completed tasks, in the order in which they were completed.
    pub archive: Vec<Task>,
}

/// What a store holds, by the views of its tasks.
pub struct TaskStoreView {
    pub active: Seq<TaskView>,
    pub archive: Seq<TaskView>,
}

impl View for TaskStore {
    type V = TaskStoreView;

    open spec fn view(&self) -> TaskStoreView {
        TaskStoreView { active: self.active.deep_view(), archive: self.archive.deep_view() }
    }
}

/// Whether no two of the tasks share an id.
pub open spec fn distinct_ids(tasks: Seq<TaskView>) -> bool {
    forall|i: int, j: int|
        0 <= i < j < tasks.len() ==> (#[trigger] tasks[i]).id != (#[trigger] tasks[j]).id
}

/// Whether no task of the one collection shares its id with one of the other.
pub open spec fn disjoint_ids(one: Seq<TaskView>, other: Seq<TaskView>) -> bool {
    forall|i: int, j: int|
        0 <= i < one.len() && 0 <= j < other.len() ==> (#[trigger] one[i]).id != (
        #[trigger] other[j]).id
}

/// Whether a task with this id is among the tasks.
pub open spec fn holds_id(tasks: Seq<TaskView>, id: u64) -> bool {
    exists|i: int| 0 <= i < tasks.len() && (#[trigger] tasks[i]).id == id
}

/// The place of the first task with this id.
pub open spec fn position_of(tasks: Seq<TaskView>, id: u64) -> Option<int>
    decreases tasks.len(),
{
    if tasks.len() == 0 {
        None
    } else {
        match position_of(tasks.drop_last(), id) {
            Some(place) => Some(place),
            None => if tasks.last().id == id {
                Some(tasks.len() - 1)
            } else {
                None
            },
        }
    }
}

impl TaskStoreView {
    /// Whether the store is consistent: every task is valid, an active task
    /// has no moment of completion and an archived one has, and no id occurs
    /// twice in the two collections together.
    pub open spec fn wf(self) -> bool {
        &&& forall|i: int|
            0 <= i < self.active.len() ==> (#[trigger] self.active[i]).wf()
                && self.active[i].date_completed is None
        &&& forall|i: int|
            0 <= i < self.archive.len() ==> (#[trigger] self.archive[i]).wf()
                && self.archive[i].date_completed is Some
        &&& distinct_ids(self.active)
        &&& distinct_ids(self.archive)
        &&& disjoint_ids(self.active, self.archive)
    }
}

/// The place that is found for an id holds a task with that id, and no task
/// before it does; no place is found exactly when no task has the id.
pub proof fn lemma_position_of(tasks: Seq<TaskView>, id: u64)
    ensures
        match position_of(tasks, id) {
            Some(place) => 0 <= place < tasks.len() && tasks[place].id == id && forall|k: int|
                0 <= k < place ==> (#[trigger] tasks[k]).id != id,
            None => !holds_id(tasks, id),
        },
    decreases tasks.len(),
{
    if tasks.len() > 0 {
        let front = tasks.drop_last();
        lemma_position_of(front, id);
        match position_of(front, id) {
            Some(place) => {
                assert(tasks[place] == front[place]);
                assert forall|k: int| 0 <= k < place implies (#[trigger] tasks[k]).id != id by {
                    assert(tasks[k] == front[k]);
                }
            },
            None => {
                assert forall|k: int| 0 <= k < tasks.len() - 1 implies (#[trigger] tasks[k]).id
                    != id by {
                    assert(front[k] == tasks[k]);
                    assert(!holds_id(front, id));
                }
            },
        }
    }
}

/// Taking one active task out of a consistent store leaves a consistent
/// store, in which no task has the id of the one that was taken out.
pub proof fn lemma_removal_keeps_consistency(store: TaskStoreView, place: int)
    requires
        store.wf(),
        0 <= place < store.active.len(),
    ensures
        (TaskStoreView { active: store.active.remove(place), archive: store.archive }).wf(),
        !holds_id(store.active.remove(place), store.active[place].id),
        !holds_id(store.archive, store.active[place].id),
{
    let rest = store.active.remove(place);
    assert forall|i: int| 0 <= i < rest.len() implies (#[trigger] rest[i]).wf()
        && rest[i].date_completed is None && rest[i].id != store.active[place].id by {
        if i < place {
            assert(rest[i] == store.active[i]);
        } else {
            assert(rest[i] == store.active[i + 1]);
        }
    }
    assert forall|i: int, j: int| 0 <= i < j < rest.len() implies (#[trigger] rest[i]).id != (
    #[trigger] rest[j]).id by {
        let from_i = if i < place {
            i
        } else {
            i + 1
        };
        let from_j = if j < place {
            j
        } else {
            j + 1
        };
        assert(rest[i] == store.active[from_i]);
        assert(rest[j] == store.active[from_j]);
    }
    assert forall|i: int, j: int| 0 <= i < rest.len() && 0 <= j < store.archive.len() implies (
    #[trigger] rest[i]).id != (#[trigger] store.archive[j]).id by {
        let from_i = if i < place {
            i
        } else {
            i + 1
        };
        assert(rest[i] == store.active[from_i]);
    }
    assert forall|j: int| 0 <= j < store.archive.len() implies (#[trigger] store.archive[j]).id
        != store.active[place].id by {}
}

/// Putting a completed task after the archived ones of a consistent store
/// leaves a consistent store, where the task is valid and no task of the
/// store has its id.
pub proof fn lemma_archiving_keeps_consistency(store: TaskStoreView, task: TaskView)
    requires
        store.wf(),
        task.wf(),
        task.date_completed is Some,
        !holds_id(store.active, task.id),
        !holds_id(store.archive, task.id),
    ensures
        (TaskStoreView { active: store.active, archive: store.archive.push(task) }).wf(),
{
    let longer = store.archive.push(task);
    assert forall|i: int| 0 <= i < longer.len() implies (#[trigger] longer[i]).wf()
        && longer[i].date_completed is Some by {
        if i < store.archive.len() {
            assert(longer[i] == store.archive[i]);
        }
    }
    assert forall|i: int, j: int| 0 <= i < j < longer.len() implies (#[trigger] longer[i]).id != (
    #[trigger] longer[j]).id by {
        assert(longer[i] == store.archive[i]);
        if j < store.archive.len() {
            assert(longer[j] == store.archive[j]);
        }
    }
    assert forall|i: int, j: int| 0 <= i < store.active.len() && 0 <= j < longer.len() implies (
    #[trigger] store.active[i]).id != (#[trigger] longer[j]).id by {
        if j < store.archive.len() {
            assert(longer[j] == store.archive[j]);
        }
    }
}

/// A store that holds one active task lists exactly that task: adding a task
/// to a store without active tasks and then listing shows the new task alone.
pub proof fn lemma_sole_task_is_listed(
    task: TaskView,
    now: Timestamp,
    count: int,
    listed: Seq<ComparibleTaskView>,
)
    requires
        count >= 1,
        is_top_of_ranking(seq![task], now, count, listed),
    ensures
        listed == scored(seq![task], now),
        listed.len() == 1,
        listed[0].task == task,
{
    let ranked = choose|ranked: Seq<ComparibleTaskView>|
        crate::rank::ranks(scored(seq![task], now), ranked) && listed == at_most(ranked, count);
    let items = scored(seq![task], now);
    assert(items =~= seq![items[0]]);
    lemma_ranking_of_one(items[0], ranked);
}

pub(crate) fn find_task(tasks: &Vec<Task>, id: u64) -> (r: Option<usize>)
    ensures
        match r {
            Some(place) => position_of(tasks.deep_view(), id) == Some(place as int) && place
                < tasks.len(),
            None => position_of(tasks.deep_view(), id) is None,
        },
{
    let ghost views = tasks.deep_view();
    let mut i: usize = 0;
    while i < tasks.len()
        invariant
            i <= tasks.len(),
            views == tasks.deep_view(),
            position_of(views.take(i as int), id) is None,
        decreases tasks.len() - i,
    {
        proof {
            assert(views.take(i + 1).drop_last() == views.take(i as int));
            assert(views.take(i + 1).last() == tasks[i as int]@);
        }
        if tasks[i].id == id {
            proof {
                lemma_position_stays(views, id, i + 1);
            }
            return Some(i);
        }
        i += 1;
    }
    assert(views.take(i as int) == views);
    None
}

/// A place that is found among the first tasks is the place among all.
proof fn lemma_position_stays(tasks: Seq<TaskView>, id: u64, k: int)
    requires
        0 <= k <= tasks.len(),
        position_of(tasks.take(k), id) is Some,
    ensures
        position_of(tasks, id) == position_of(tasks.take(k), id),
    decreases tasks.len() - k,
{
    if k == tasks.len() {
        assert(tasks.take(k) == tasks);
    } else {
        assert(tasks.take(k + 1).drop_last() == tasks.take(k));
        lemma_position_stays(tasks, id, k + 1);
    }
}

fn clone_tasks(tasks: &Vec<Task>) -> (r: Vec<Task>)
    ensures
        r.deep_view() == tasks.deep_view(),
{
    let mut out: Vec<Task> = Vec::new();
    let mut i: usize = 0;
    while i < tasks.len()
        invariant
            i <= tasks.len(),
            out.deep_view() == tasks.deep_view().take(i as int),
        decreases tasks.len() - i,
    {
        let task = tasks[i].clone();
        let ghost before = out;
        out.push(task);
        proof {
            lemma_deep_view_push(before, out, task);
            assert(out.deep_view() =~= tasks.deep_view().take(i + 1));
        }
        i += 1;
    }
    assert(tasks.deep_view().take(i as int) == tasks.deep_view());
    out
}

impl TaskStore {
    /// Whether the store is consistent.
    pub open spec fn wf(&self) -> bool {
        self@.wf()
    }

    /// A store without tasks.
    pub fn new() -> (r: TaskStore)
        ensures
            r@.active.len() == 0,
            r@.archive.len() == 0,
            r.wf(),
    {
        TaskStore { active: Vec::new(), archive: Vec::new() }
    }

    /// Whether the store is consistent.
    pub fn is_consistent(&self) -> (r: bool)
        ensures
            r == self.wf(),
    {
        let ghost active = self.active.deep_view();
        let ghost archive = self.archive.deep_view();
        let mut i: usize = 0;
        while i < self.active.len()
            invariant
                i <= self.active.len(),
                active == self.active.deep_view(),
                archive == self.archive.deep_view(),
                forall|k: int|
                    0 <= k < i ==> (#[trigger] active[k]).wf() && active[k].date_completed is None,
                forall|k: int, l: int|
                    0 <= k < l < active.len() && k < i ==> (#[trigger] active[k]).id != (
                    #[trigger] active[l]).id,
                forall|k: int, l: int|
                    0 <= k < i && 0 <= l < archive.len() ==> (#[trigger] active[k]).id != (
                    #[trigger] archive[l]).id,
            decreases self.active.len() - i,
        {
            let task = &self.active[i];
            assert(task@ == active[i as int]);
            if !task.is_valid() || task.date_completed.is_some() {
                return false;
            }
            let mut j: usize = i + 1;
            while j < self.active.len()
                invariant
                    i < j <= self.active.len(),
                    active == self.active.deep_view(),
                    task@ == active[i as int],
                    forall|l: int| i < l < j ==> task.id != (#[trigger] active[l]).id,
                decreases self.active.len() - j,
            {
                if self.active[j].id == task.id {
                    assert(active[j as int].id == active[i as int].id);
                    return false;
                }
                j += 1;
            }
            let mut j: usize = 0;
            while j < self.archive.len()
                invariant
                    j <= self.archive.len(),
                    i < self.active.len(),
                    active == self.active.deep_view(),
                    archive == self.archive.deep_view(),
                    task@ == active[i as int],
                    forall|l: int| 0 <= l < j ==> task.id != (#[trigger] archive[l]).id,
                decreases self.archive.len() - j,
            {
                if self.archive[j].id == task.id {
                    assert(archive[j as int].id == active[i as int].id);
                    return false;
                }
                j += 1;
            }
            i += 1;
        }
        let mut i: usize = 0;
        while i < self.archive.len()
            invariant
                i <= self.archive.len(),
                active == self.active.deep_view(),
                archive == self.archive.deep_view(),
                forall|k: int|
                    0 <= k < active.len() ==> (#[trigger] active[k]).wf()
                        && active[k].date_completed is None,
                distinct_ids(active),
                disjoint_ids(active, archive),
                forall|k: int|
                    0 <= k < i ==> (#[trigger] archive[k]).wf()
                        && archive[k].date_completed is Some,
                forall|k: int, l: int|
                    0 <= k < l < archive.len() && k < i ==> (#[trigger] archive[k]).id != (
                    #[trigger] archive[l]).id,
            decreases self.archive.len() - i,
        {
            let task = &self.archive[i];
            assert(task@ == archive[i as int]);
            if !task.is_valid() || task.date_completed.is_none() {
                return false;
            }
            let mut j: usize = i + 1;
            while j < self.archive.len()
                invariant
                    i < j <= self.archive.len(),
                    archive == self.archive.deep_view(),
                    task@ == archive[i as int],
                    forall|l: int| i < l < j ==> task.id != (#[trigger] archive[l]).id,
                decreases self.archive.len() - j,
            {
                if self.archive[j].id == task.id {
                    assert(archive[j as int].id == archive[i as int].id);
                    return false;
                }
                j += 1;
            }
            i += 1;
        }
        true
    }

    /// Whether a task with this id is in the store, active or archived.
    pub fn contains_id(&self, id: u64) -> (r: bool)
        ensures
            r == (holds_id(self@.active, id) || holds_id(self@.archive, id)),
    {
        proof {
            lemma_position_of(self@.active, id);
            lemma_position_of(self@.archive, id);
        }
        find_task(&self.active, id).is_some() || find_task(&self.archive, id).is_some()
    }

    /// Adds a task to the active ones, after those that are there. A task
    /// that is complete already, or whose id is in the store, is refused.
    pub fn add(&mut self, task: Task) -> (r: Result<(), StoreError>)
        requires
            old(self).wf(),
            task.wf(),
        ensures
            match r {
                Ok(()) => {
                    &&& task.date_completed is None
                    &&& !holds_id(old(self)@.active, task.id)
                    &&& !holds_id(old(self)@.archive, task.id)
                    &&& final(self)@.active == old(self)@.active.push(task@)
                    &&& final(self)@.archive == old(self)@.archive
                    &&& final(self).wf()
                },
                Err(error) => {
                    &&& final(self)@ == old(self)@
                    &&& error == if task.date_completed is Some {
                        StoreError::Invalid(InvalidTaskError::AlreadyCompleted)
                    } else {
                        StoreError::DuplicateId(task.id)
                    }
                    &&& task.date_completed is Some || holds_id(old(self)@.active, task.id)
                        || holds_id(old(self)@.archive, task.id)
                },
            },
    {
        if task.date_completed.is_some() {
            return Err(StoreError::Invalid(InvalidTaskError::AlreadyCompleted));
        }
        if self.contains_id(task.id) {
            return Err(StoreError::DuplicateId(task.id));
        }
        let ghost before = self.active;
        self.active.push(task);
        proof {
            lemma_deep_view_push(before, self.active, task);
            let old_active = old(self)@.active;
            let new_active = self@.active;
            assert forall|i: int, j: int| 0 <= i < j < new_active.len() implies (
            #[trigger] new_active[i]).id != (#[trigger] new_active[j]).id by {
                if j == old_active.len() {
                    assert(new_active[i] == old_active[i]);
                } else {
                    assert(new_active[i] == old_active[i]);
                    assert(new_active[j] == old_active[j]);
                }
            }
            let archive = self@.archive;
            assert forall|i: int, j: int|
                0 <= i < new_active.len() && 0 <= j < archive.len() implies (
            #[trigger] new_active[i]).id != (#[trigger] archive[j]).id by {
                if i < old_active.len() {
                    assert(new_active[i] == old_active[i]);
                }
            }
            assert forall|i: int| 0 <= i < new_active.len() implies (#[trigger] new_active[i]).wf()
                && new_active[i].date_completed is None by {
                if i < old_active.len() {
                    assert(new_active[i] == old_active[i]);
                }
            }
        }
        Ok(())
    }

    /// The top of the ranking of the active tasks at `now`: at most `limit`
    /// entries, highest score first.
    pub fn list_active(&self, limit: usize, now: &Timestamp) -> (r: Vec<ComparibleTask>)
        requires
            self.wf(),
            now.wf(),
        ensures
            is_top_of_ranking(self@.active, *now, limit as int, r.deep_view()),
            forall|k: int| 0 <= k < r.len() ==> (#[trigger] r[k]).wf(),
    {
        let tasks = clone_tasks(&self.active);
        assert forall|i: int| 0 <= i < tasks.len() implies (#[trigger] tasks[i]).wf() by {
            assert(tasks[i]@ == tasks.deep_view()[i]);
            assert(self@.active[i].wf());
        }
        get_tasks(tasks, limit, now)
    }

    /// The first `limit` of the archived tasks, in the order in which they
    /// were completed; all of them where there are fewer.
    pub fn list_archived(&self, limit: usize) -> (r: Vec<Task>)
        ensures
            r.deep_view() == at_most(self@.archive, limit as int),
            self.wf() ==> forall|k: int| 0 <= k < r.len() ==> (#[trigger] r[k]).wf(),
    {
        let tasks = clone_tasks(&self.archive);
        proof {
            if self.wf() {
                assert forall|i: int| 0 <= i < tasks.len() implies (#[trigger] tasks[i]).wf() by {
                    assert(tasks[i]@ == tasks.deep_view()[i]);
                    assert(self@.archive[i].wf());
                }
            }
        }
        get_completed_tasks(tasks, limit)
    }

    /// Completes the active task with this id at `now`: it leaves the active
    /// tasks and follows the archived ones, with its moment of completion.
    /// Where no active task has the id, or the task cannot be completed at
    /// `now`, the store stays as it was.
    pub fn complete(&mut self, id: u64, now: &Timestamp) -> (r: Result<(), StoreError>)
        requires
            old(self).wf(),
        ensures
            match position_of(old(self)@.active, id) {
                None => r == Err::<(), StoreError>(
                    StoreError::NotFound(TaskNotFoundError { id }),
                ) && final(self)@ == old(self)@,
                Some(place) => match old(self)@.active[place].completion_fault(*now) {
                    Some(error) => r == Err::<(), StoreError>(StoreError::Invalid(error))
                        && final(self)@ == old(self)@,
                    None => {
                        &&& r is Ok
                        &&& final(self)@.active == old(self)@.active.remove(place)
                        &&& final(self)@.archive == old(self)@.archive.push(
                            old(self)@.active[place].completed_at(*now),
                        )
                        &&& final(self).wf()
                    },
                },
            },
    {
        let place = match find_task(&self.active, id) {
            Some(place) => place,
            None => {
                return Err(StoreError::NotFound(TaskNotFoundError { id }));
            },
        };
        proof {
            lemma_position_of(self@.active, id);
        }
        let done = match self.active[place].clone().complete(*now) {
            Ok(done) => done,
            Err(error) => {
                return Err(StoreError::Invalid(error));
            },
        };
        let ghost before = self.archive;
        let ghost old_active = self@.active;
        let ghost old_archive = self@.archive;
        self.archive.push(done);
        let _ = self.active.remove(place);
        proof {
            lemma_deep_view_push(before, self.archive, done);
            let start = TaskStoreView { active: old_active, archive: old_archive };
            let without = TaskStoreView {
                active: old_active.remove(place as int),
                archive: old_archive,
            };
            lemma_removal_keeps_consistency(start, place as int);
            lemma_archiving_keeps_consistency(without, done@);
            assert(self@.active =~= without.active);
        }
        Ok(())
    }

    /// Deletes the active task with this id. The other active tasks keep
    /// their order and their values, and the archive is not touched. Where no
    /// active task has the id the store stays as it was.
    pub fn delete(&mut self, id: u64) -> (r: Result<(), TaskNotFoundError>)
        requires
            old(self).wf(),
        ensures
            match position_of(old(self)@.active, id) {
                None => r == Err::<(), TaskNotFoundError>(TaskNotFoundError { id })
                    && final(self)@ == old(self)@,
                Some(place) => {
                    &&& r is Ok
                    &&& final(self)@.active == old(self)@.active.remove(place)
                    &&& final(self)@.active.len() == old(self)@.active.len() - 1
                    &&& final(self)@.archive == old(self)@.archive
                    &&& final(self).wf()
                },
            },
    {
        let place = match find_task(&self.active, id) {
            Some(place) => place,
            None => {
                return Err(TaskNotFoundError { id });
            },
        };
        let ghost old_active = self@.active;
        let _ = self.active.remove(place);
        proof {
            lemma_removal_keeps_consistency(
                TaskStoreView { active: old_active, archive: self@.archive },
                place as int,
            );
            assert(self@.active =~= old_active.remove(place as int));
        }
        Ok(())
    }
}

} // verus!
