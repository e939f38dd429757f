//! The operations on the two collections, on plain values: what a collection
//! holds after a task is added, completed or deleted, and what a listing
//! shows. Reading and writing the files is the caller's part.

use vstd::prelude::*;
use crate::comparible_task::{ComparibleTask, ComparibleTaskView};
use crate::csv_file::{csv_line, write_fault, write_tasks};
use crate::error::{InvalidTaskError, StoreError, TaskNotFoundError, WriteTaskError};
use crate::file_store::Collection;
use crate::rank::{ranks, scored};
use crate::store::{find_task, position_of};
use crate::task::{record_fields, Task, TaskView};
use crate::text::{chars_of, lemma_deep_view_push};
use crate::timestamp::Timestamp;

pub use crate::sequence::get_unique_id;

verus! {

/// The directory of the tracker's files, below the home directory.
pub const APP_DATA: &'static str = ".taskman";

/// The file of the archived tasks.
pub const ARCHIVE: &'static str = "archive.csv";

/// The file of the active tasks.
pub const ACTIVE_TASKS: &'static str = "tasks.csv";

/// The file of the sequence record.
pub const ID_SEQUENCE: &'static str = "id_sequence";

/// A path below a directory: the two joined by one `/`, unless the directory
/// is empty or ends in one.
pub open spec fn joined_path(directory: Seq<char>, file: Seq<char>) -> Seq<char> {
    if directory.len() == 0 || directory.last() == '/' {
        directory + file
    } else {
        directory + seq!['/'] + file
    }
}

/// The tasks whose id is among `ids`, in order.
pub open spec fn selected(tasks: Seq<TaskView>, ids: Seq<u64>) -> Seq<TaskView> {
    tasks.filter(|task: TaskView| ids.contains(task.id))
}

/// The tasks whose id is not among `ids`, in order.
pub open spec fn unselected(tasks: Seq<TaskView>, ids: Seq<u64>) -> Seq<TaskView> {
    tasks.filter(|task: TaskView| !ids.contains(task.id))
}

/// The first of the tasks that cannot be completed at `now`, with the reason.
pub open spec fn completion_fault(tasks: Seq<TaskView>, now: Timestamp) -> Option<
    InvalidTaskError,
>
    decreases tasks.len(),
{
    if tasks.len() == 0 {
        None
    } else {
        match completion_fault(tasks.drop_last(), now) {
            Some(error) => Some(error),
            None => tasks.last().completion_fault(now),
        }
    }
}

/// The tasks, each completed at `now`.
pub open spec fn all_completed_at(tasks: Seq<TaskView>, now: Timestamp) -> Seq<TaskView> {
    tasks.map_values(|task: TaskView| task.completed_at(now))
}

/// The first of the ids, in their order, that none of the tasks has; `None`
/// where each id is that of a task.
pub open spec fn first_missing(tasks: Seq<TaskView>, ids: Seq<u64>) -> Option<u64>
    decreases ids.len(),
{
    if ids.len() == 0 {
        None
    } else if position_of(tasks, ids[0]) is None {
        Some(ids[0])
    } else {
        first_missing(tasks, ids.drop_first())
    }
}

/// A change to make to one of the two collections: the tasks to put after
/// those that it holds, or in their place.
#[derive(Debug, PartialEq, Eq)]
pub struct CollectionWrite {
    pub target: Collection,
    pub append: bool,
    pub tasks: Vec<Task>,
}

/// The first `count` items, or all where there are fewer.
pub open spec fn at_most<T>(items: Seq<T>, count: int) -> Seq<T> {
    if count < items.len() {
        items.take(count)
    } else {
        items
    }
}

/// Whether `listed` is the top of the ranking of the tasks at `now`: its
/// first `count` entries, or all of it where there are fewer.
pub open spec fn is_top_of_ranking(
    tasks: Seq<TaskView>,
    now: Timestamp,
    count: int,
    listed: Seq<ComparibleTaskView>,
) -> bool {
    exists|ranked: Seq<ComparibleTaskView>|
        ranks(scored(tasks, now), ranked) && listed == at_most(ranked, count)
}

/// Whether an id is among the given ones.
pub fn has_id(ids: &Vec<u64>, id: u64) -> (r: bool)
    ensures
        r == ids@.contains(id),
{
    let mut i: usize = 0;
    while i < ids.len()
        invariant
            i <= ids.len(),
            forall|k: int| 0 <= k < i ==> ids@[k] != id,
        decreases ids.len() - i,
    {
        if ids[i] == id {
            return true;
        }
        i += 1;
    }
    false
}

/// The path of a file below a directory.
pub fn get_path(directory: &str, file: &str) -> (r: String)
    ensures
        r@ == joined_path(directory@, file@),
{
    let chars = chars_of(directory);
    let mut path = directory.to_owned();
    if chars.len() > 0 && chars[chars.len() - 1] != '/' {
        path.push('/');
    }
    path.append(file);
    path
}

/// The directory of the tracker's files below a home directory.
pub fn get_data_directory(home: &str) -> (r: String)
    ensures
        r@ == joined_path(home@, APP_DATA@),
{
    get_path(home, APP_DATA)
}

/// The path of the file of active tasks in the tracker's directory.
pub fn get_active_tasks_path(directory: &str) -> (r: String)
    ensures
        r@ == joined_path(directory@, ACTIVE_TASKS@),
{
    get_path(directory, ACTIVE_TASKS)
}

/// The path of the file of archived tasks in the tracker's directory.
pub fn get_archive_path(directory: &str) -> (r: String)
    ensures
        r@ == joined_path(directory@, ARCHIVE@),
{
    get_path(directory, ARCHIVE)
}

/// The path of the sequence record in the tracker's directory.
pub fn get_sequence_path(directory: &str) -> (r: String)
    ensures
        r@ == joined_path(directory@, ID_SEQUENCE@),
{
    get_path(directory, ID_SEQUENCE)
}

/// Appends one task to the text of the active collection: its line follows
/// what is there. Where the task cannot be written the text stays as it was;
/// a task that is not valid, such as one with a cost of zero, cannot be.
pub fn write_task(content: &mut Vec<u8>, task: Task) -> (r: Result<(), WriteTaskError>)
    ensures
        match r {
            Ok(()) => write_fault(seq![task@]) is None && final(content)@ == old(content)@
                + csv_line(record_fields(task@)).unwrap(),
            Err(error) => write_fault(seq![task@]) == Some(error)
                && final(content)@ == old(content)@,
        },
        task@.fault() is Some ==> r == Err::<(), WriteTaskError>(
            (WriteTaskError::Invalid { task: 0, error: task@.fault().unwrap() }),
        ),
{
    let tasks: Vec<Task> = vec![task];
    proof {
        assert(tasks.deep_view() =~= seq![task@]);
        let one = seq![task@];
        assert(one.drop_last() =~= Seq::<TaskView>::empty());
        assert(write_fault(one.drop_last()) is None);
        assert(write_fault(one) == crate::csv_file::task_write_fault(task@, 0));
        assert(crate::csv_file::lines_of(one.drop_last()) =~= Seq::<u8>::empty());
        if write_fault(one) is None {
            assert(crate::csv_file::lines_of(one) =~= csv_line(record_fields(task@)).unwrap());
        }
    }
    write_tasks(content, &tasks, true)
}

/// The first `total_to_get` of the archived tasks, in the order in which
/// they were archived; all of them where there are fewer.
pub fn get_completed_tasks(archive: Vec<Task>, total_to_get: usize) -> (r: Vec<Task>)
    ensures
        r.deep_view() == at_most(archive.deep_view(), total_to_get as int),
        (forall|i: int| 0 <= i < archive.len() ==> (#[trigger] archive[i]).wf()) ==> (forall|
            i: int,
        | 0 <= i < r.len() ==> (#[trigger] r[i]).wf()),
{
    let mut tasks = archive;
    if total_to_get < tasks.len() {
        tasks.truncate(total_to_get);
    }
    assert(tasks.deep_view() =~= at_most(archive.deep_view(), total_to_get as int));
    assert forall|i: int| 0 <= i < tasks.len() implies tasks[i] == archive[i] by {}
    tasks
}

/// The first `total_to_get` of the active tasks once they are scored at `now`
/// and ranked; all of them where there are fewer.
pub fn get_tasks(active: Vec<Task>, total_to_get: usize, now: &Timestamp) -> (r: Vec<
    ComparibleTask,
>)
    requires
        now.wf(),
        forall|i: int| 0 <= i < active.len() ==> (#[trigger] active[i]).wf(),
    ensures
        is_top_of_ranking(active.deep_view(), *now, total_to_get as int, r.deep_view()),
        forall|k: int| 0 <= k < r.len() ==> (#[trigger] r[k]).wf(),
{
    let mut ranked = Task::make_comparible(active, now);
    let ghost full = ranked.deep_view();
    if total_to_get < ranked.len() {
        ranked.truncate(total_to_get);
    }
    assert(ranked.deep_view() =~= at_most(full, total_to_get as int));
    ranked
}

fn missing_id(tasks: &Vec<Task>, task_ids: &Vec<u64>) -> (r: Option<u64>)
    ensures
        r == first_missing(tasks.deep_view(), task_ids@),
{
    let mut i: usize = 0;
    assert(task_ids@.skip(0) =~= task_ids@);
    while i < task_ids.len()
        invariant
            i <= task_ids.len(),
            first_missing(tasks.deep_view(), task_ids@) == first_missing(
                tasks.deep_view(),
                task_ids@.skip(i as int),
            ),
        decreases task_ids.len() - i,
    {
        proof {
            assert(task_ids@.skip(i as int)[0] == task_ids@[i as int]);
            assert(task_ids@.skip(i as int).drop_first() == task_ids@.skip(i + 1));
        }
        if find_task(tasks, task_ids[i]).is_none() {
            return Some(task_ids[i]);
        }
        i += 1;
    }
    None
}

/// Completes the active tasks with the given ids at `now`.
///
/// Two changes are returned, in the order in which to make them: first the
/// completed tasks, to be put after the archived ones, then the tasks that
/// stay, to take the place of the active ones. In that order every task is in
/// one of the collections at every point; should the second change not be
/// made, a completed task is in both rather than in none.
///
/// The first of the ids that no active task has is an error, and so is the
/// first of the picked tasks that cannot be completed at `now`; no change is
/// returned then.
pub fn mark_complete(active: Vec<Task>, task_ids: &Vec<u64>, now: &Timestamp) -> (r: Result<
    Vec<CollectionWrite>,
    StoreError,
>)
    ensures
        match first_missing(active.deep_view(), task_ids@) {
            Some(id) => r == Err::<Vec<CollectionWrite>, StoreError>(
                StoreError::NotFound(TaskNotFoundError { id }),
            ),
            None => match completion_fault(selected(active.deep_view(), task_ids@), *now) {
                Some(error) => r == Err::<Vec<CollectionWrite>, StoreError>(
                    StoreError::Invalid(error),
                ),
                None => {
                    &&& r is Ok
                    &&& r->Ok_0.len() == 2
                    &&& r->Ok_0[0].target == Collection::Archive
                    &&& r->Ok_0[0].append
                    &&& r->Ok_0[0].tasks.deep_view() == all_completed_at(
                        selected(active.deep_view(), task_ids@),
                        *now,
                    )
                    &&& r->Ok_0[1].target == Collection::Active
                    &&& !r->Ok_0[1].append
                    &&& r->Ok_0[1].tasks.deep_view() == unselected(active.deep_view(), task_ids@)
                    &&& (forall|i: int| 0 <= i < active.len() ==> (#[trigger] active[i]).wf())
                        ==> (forall|k: int, i: int|
                        0 <= k < 2 && 0 <= i < r->Ok_0[k].tasks.len() ==> (
                        #[trigger] r->Ok_0[k].tasks[i]).wf())
                },
            },
        },
{
    match missing_id(&active, task_ids) {
        Some(id) => {
            return Err(StoreError::NotFound(TaskNotFoundError { id }));
        },
        None => {},
    }
    let (todo, completed) = match split_by_ids(active, task_ids, now) {
        Ok(parts) => parts,
        Err(error) => {
            return Err(StoreError::Invalid(error));
        },
    };
    let mut writes: Vec<CollectionWrite> = Vec::new();
    writes.push(CollectionWrite { target: Collection::Archive, append: true, tasks: completed });
    writes.push(CollectionWrite { target: Collection::Active, append: false, tasks: todo });
    Ok(writes)
}

/// Whatever the ids, no task is lost by a completion: each task either stays
/// among the active ones or is, completed, among those for the archive.
pub proof fn lemma_completion_keeps_every_task(
    tasks: Seq<TaskView>,
    ids: Seq<u64>,
    now: Timestamp,
    i: int,
)
    requires
        0 <= i < tasks.len(),
    ensures
        unselected(tasks, ids).contains(tasks[i]) || all_completed_at(
            selected(tasks, ids),
            now,
        ).contains(tasks[i].completed_at(now)),
{
    if ids.contains(tasks[i].id) {
        let chosen = |task: TaskView| ids.contains(task.id);
        tasks.lemma_filter_contains(chosen, i);
        let picked = selected(tasks, ids);
        let k = choose|k: int| 0 <= k < picked.len() && picked[k] == tasks[i];
        assert(all_completed_at(picked, now)[k] == tasks[i].completed_at(now));
    } else {
        let left = |task: TaskView| !ids.contains(task.id);
        tasks.lemma_filter_contains(left, i);
    }
}

fn split_by_ids(active: Vec<Task>, task_ids: &Vec<u64>, now: &Timestamp) -> (r: Result<
    (Vec<Task>, Vec<Task>),
    InvalidTaskError,
>)
    ensures
        match r {
            Ok((todo, completed)) => {
                &&& completion_fault(selected(active.deep_view(), task_ids@), *now) is None
                &&& todo.deep_view() == unselected(active.deep_view(), task_ids@)
                &&& completed.deep_view() == all_completed_at(
                    selected(active.deep_view(), task_ids@),
                    *now,
                )
                &&& (forall|i: int| 0 <= i < active.len() ==> (#[trigger] active[i]).wf()) ==> (
                forall|i: int| 0 <= i < todo.len() ==> (#[trigger] todo[i]).wf()) && (forall|
                    i: int,
                | 0 <= i < completed.len() ==> (#[trigger] completed[i]).wf())
            },
            Err(error) => completion_fault(selected(active.deep_view(), task_ids@), *now) == Some(
                error,
            ),
        },
{
    let ghost views = active.deep_view();
    let ghost chosen = |task: TaskView| task_ids@.contains(task.id);
    let ghost left = |task: TaskView| !task_ids@.contains(task.id);
    let mut todo: Vec<Task> = Vec::new();
    let mut completed: Vec<Task> = Vec::new();
    let mut i: usize = 0;
    proof {
        reveal(Seq::filter);
        assert(views.take(0).filter(chosen) =~= Seq::<TaskView>::empty());
        assert(views.take(0).filter(left) =~= Seq::<TaskView>::empty());
    }
    while i < active.len()
        invariant
            i <= active.len(),
            views == active.deep_view(),
            chosen == |task: TaskView| task_ids@.contains(task.id),
            left == |task: TaskView| !task_ids@.contains(task.id),
            completion_fault(views.take(i as int).filter(chosen), *now) is None,
            todo.deep_view() == views.take(i as int).filter(left),
            completed.deep_view() == all_completed_at(views.take(i as int).filter(chosen), *now),
            (forall|k: int| 0 <= k < active.len() ==> (#[trigger] active[k]).wf()) ==> (forall|
                k: int,
            | 0 <= k < todo.len() ==> (#[trigger] todo[k]).wf()) && (forall|k: int|
                0 <= k < completed.len() ==> (#[trigger] completed[k]).wf()),
        decreases active.len() - i,
    {
        let task = active[i].clone();
        let ghost seen = views.take(i as int);
        let ghost next = views.take(i + 1);
        proof {
            reveal(Seq::filter);
            assert(next.drop_last() == seen);
            assert(next.last() == task@);
        }
        if has_id(task_ids, task.id) {
            proof {
                assert(next.filter(chosen) == seen.filter(chosen).push(task@));
                assert(next.filter(chosen).drop_last() == seen.filter(chosen));
                assert(next.filter(left) == seen.filter(left));
            }
            match task.complete(*now) {
                Ok(done) => {
                    let ghost before = completed;
                    completed.push(done);
                    proof {
                        lemma_deep_view_push(before, completed, done);
                        assert(completed.deep_view() =~= all_completed_at(
                            next.filter(chosen),
                            *now,
                        ));
                    }
                },
                Err(error) => {
                    proof {
                        lemma_completion_fault_stays(views, chosen, *now, i + 1);
                    }
                    return Err(error);
                },
            }
        } else {
            let ghost before = todo;
            todo.push(task);
            proof {
                lemma_deep_view_push(before, todo, task);
                assert(next.filter(chosen) == seen.filter(chosen));
                assert(next.filter(left) == seen.filter(left).push(task@));
            }
        }
        i += 1;
    }
    assert(views.take(i as int) == views);
    Ok((todo, completed))
}

/// Once one of the first tasks that were picked cannot be completed, the same
/// fault is the fault of all that are picked.
proof fn lemma_completion_fault_stays(
    tasks: Seq<TaskView>,
    chosen: spec_fn(TaskView) -> bool,
    now: Timestamp,
    k: int,
)
    requires
        0 <= k <= tasks.len(),
        completion_fault(tasks.take(k).filter(chosen), now) is Some,
    ensures
        completion_fault(tasks.filter(chosen), now) == completion_fault(
            tasks.take(k).filter(chosen),
            now,
        ),
    decreases tasks.len() - k,
{
    if k == tasks.len() {
        assert(tasks.take(k) == tasks);
    } else {
        reveal(Seq::filter);
        let seen = tasks.take(k);
        let next = tasks.take(k + 1);
        assert(next.drop_last() == seen);
        if chosen(next.last()) {
            assert(next.filter(chosen) == seen.filter(chosen).push(next.last()));
            assert(next.filter(chosen).drop_last() == seen.filter(chosen));
        }
        lemma_completion_fault_stays(tasks, chosen, now, k + 1);
    }
}

/// Deletes the active tasks with the given ids: what is returned are the
/// other active tasks, in the order in which they were and with their values
/// as they were. The first of the ids that no active task has is an error.
pub fn delete_tasks(active: Vec<Task>, task_ids: &Vec<u64>) -> (r: Result<
    Vec<Task>,
    TaskNotFoundError,
>)
    ensures
        match first_missing(active.deep_view(), task_ids@) {
            Some(id) => r == Err::<Vec<Task>, TaskNotFoundError>(TaskNotFoundError { id }),
            None => {
                &&& r is Ok
                &&& r->Ok_0.deep_view() == unselected(active.deep_view(), task_ids@)
                &&& (forall|i: int| 0 <= i < active.len() ==> (#[trigger] active[i]).wf())
                    ==> (forall|i: int| 0 <= i < r->Ok_0.len() ==> (#[trigger] r->Ok_0[i]).wf())
            },
        },
{
    match missing_id(&active, task_ids) {
        Some(id) => Err(TaskNotFoundError { id }),
        None => Ok(without_ids(active, task_ids)),
    }
}

/// The tasks without those whose id is among the given ones, in the order in
/// which they were. An id that no task has changes nothing.
pub(crate) fn without_ids(active: Vec<Task>, task_ids: &Vec<u64>) -> (r: Vec<Task>)
    ensures
        r.deep_view() == unselected(active.deep_view(), task_ids@),
        (forall|i: int| 0 <= i < active.len() ==> (#[trigger] active[i]).wf()) ==> (forall|
            i: int,
        | 0 <= i < r.len() ==> (#[trigger] r[i]).wf()),
{
    let ghost views = active.deep_view();
    let ghost left = |task: TaskView| !task_ids@.contains(task.id);
    let mut kept: Vec<Task> = Vec::new();
    let mut i: usize = 0;
    proof {
        reveal(Seq::filter);
        assert(views.take(0).filter(left) =~= Seq::<TaskView>::empty());
    }
    while i < active.len()
        invariant
            i <= active.len(),
            views == active.deep_view(),
            left == |task: TaskView| !task_ids@.contains(task.id),
            kept.deep_view() == views.take(i as int).filter(left),
            (forall|k: int| 0 <= k < active.len() ==> (#[trigger] active[k]).wf()) ==> (forall|
                k: int,
            | 0 <= k < kept.len() ==> (#[trigger] kept[k]).wf()),
        decreases active.len() - i,
    {
        proof {
            reveal(Seq::filter);
            assert(views.take(i + 1).drop_last() == views.take(i as int));
            assert(views.take(i + 1).last() == active[i as int]@);
        }
        if !has_id(task_ids, active[i].id) {
            let task = active[i].clone();
            let ghost before = kept;
            kept.push(task);
            proof {
                lemma_deep_view_push(before, kept, task);
                if forall|k: int| 0 <= k < active.len() ==> (#[trigger] active[k]).wf() {
                    assert(active[i as int].wf());
                    assert forall|k: int| 0 <= k < kept.len() implies (#[trigger] kept[k]).wf() by {
                        if k < before.len() {
                            assert(kept[k] == before[k]);
                        }
                    }
                }
            }
        }
        i += 1;
    }
    assert(views.take(i as int) == views);
    kept
}

} // verus!
