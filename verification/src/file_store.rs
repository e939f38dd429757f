//! The operations of the store on the text of the two files.
//!
//! Each operation reads both collections from their text, strictly, and
//! refuses a store that is not consistent. What it returns is the list of
//! writes to make, in the order in which to make them. Nothing is returned for
//! an operation that fails, so a failure leaves the files as they were.
//!
//! Before an operation returns its writes it reads the text that the files
//! would then hold, and returns them only where that text reads as the store
//! that the operation leaves: what is written is what the next reader sees.

use vstd::prelude::*;
use vstd::slice::slice_to_vec;
use crate::csv_file::{
    csv_line,
    csv_rows,
    faults_of_rows,
    get_raw_tasks,
    lines_of,
    tasks_of_rows,
    write_fault,
    write_tasks,
};
use crate::db::write_task;
use crate::error::{
    AllocatorError,
    InvalidTaskError,
    MalformedRecordError,
    StoreError,
    TaskNotFoundError,
    WriteTaskError,
};
use crate::sequence::{allocation, get_unique_id, ByteOrder, LockOutcome};
use crate::comparible_task::ComparibleTaskView;
use crate::db::{is_top_of_ranking, unselected, without_ids};
use crate::store::{
    holds_id,
    lemma_sole_task_is_listed,
    position_of,
    TaskStore,
    TaskStoreView,
};
use crate::task::{record_fields, Task, TaskView};
use crate::timestamp::Timestamp;

verus! {

/// One of the two collections.
#[derive(Clone, Copy, Debug, PartialEq, Eq, Structural)]
pub enum Collection {
    Active,
    Archive,
}

/// Why an operation on the files was refused.
#[derive(Clone, Copy, Debug, PartialEq, Eq, Structural)]
pub enum FileStoreError {
    /// A record of this collection is no task.
    Malformed { target: Collection, error: MalformedRecordError },
    /// The two collections together are no consistent store.
    Inconsistent,
    /// The store refused the operation.
    Store(StoreError),
    /// A task could not be written.
    Write(WriteTaskError),
    /// No identifier was handed out.
    Allocator(AllocatorError),
    /// The files would not read back as the store that the operation leaves.
    Unreadable,
}

/// A write to make: the text to put after what the file holds, or in its
/// place.
#[derive(Debug, PartialEq, Eq)]
pub struct FileWrite {
    pub target: Collection,
    pub append: bool,
    pub bytes: Vec<u8>,
}

/// What adding a task comes to: the task with its id, the sequence record to
/// write back, and the line to put after the active tasks.
#[derive(Debug)]
pub struct Added {
    pub task: Task,
    pub record: Vec<u8>,
    pub write: FileWrite,
}

/// The tasks of a collection read strictly: all of them, or the first record
/// that is none, as the pair of its place and the place of its wrong field.
pub open spec fn strict_tasks(bytes: Seq<u8>) -> Result<Seq<TaskView>, (nat, nat)> {
    let rows = csv_rows(bytes);
    if faults_of_rows(rows).len() == 0 {
        Ok(tasks_of_rows(rows))
    } else {
        Err(faults_of_rows(rows)[0])
    }
}

/// The store that the text of the two files holds.
pub open spec fn store_in_files(active: Seq<u8>, archive: Seq<u8>) -> Result<
    TaskStoreView,
    FileStoreError,
> {
    match strict_tasks(active) {
        Err(fault) => Err(malformed(Collection::Active, fault)),
        Ok(active_tasks) => match strict_tasks(archive) {
            Err(fault) => Err(malformed(Collection::Archive, fault)),
            Ok(archived_tasks) => {
                let store = TaskStoreView { active: active_tasks, archive: archived_tasks };
                if store.wf() {
                    Ok(store)
                } else {
                    Err(FileStoreError::Inconsistent)
                }
            },
        },
    }
}

/// Whether the text of the two files reads as this store.
pub open spec fn reads_as(active: Seq<u8>, archive: Seq<u8>, store: TaskStoreView) -> bool {
    store_in_files(active, archive) == Ok::<TaskStoreView, FileStoreError>(store)
}

/// The line of one task, or why it cannot be written.
pub open spec fn line_of(task: TaskView) -> Result<Seq<u8>, FileStoreError> {
    match write_fault(seq![task]) {
        Some(error) => Err(FileStoreError::Write(error)),
        None => Ok(csv_line(record_fields(task)).unwrap()),
    }
}

/// The text of a whole collection, or why it cannot be written.
pub open spec fn text_of(tasks: Seq<TaskView>) -> Result<Seq<u8>, FileStoreError> {
    match write_fault(tasks) {
        Some(error) => Err(FileStoreError::Write(error)),
        None => Ok(lines_of(tasks)),
    }
}

/// The task with another id.
pub open spec fn with_id(task: TaskView, id: u64) -> TaskView {
    TaskView { id, ..task }
}

/// What becomes of the request to add a task: the task with its new id, the
/// sequence record to write back and the line to append; or why not. The
/// line is only given where the file, with the line after it, reads as the
/// store with the task added.
pub open spec fn addition(
    active: Seq<u8>,
    archive: Seq<u8>,
    lock: LockOutcome,
    record: Seq<u8>,
    order: ByteOrder,
    task: TaskView,
) -> Result<(TaskView, Seq<u8>, Seq<u8>), FileStoreError> {
    match store_in_files(active, archive) {
        Err(error) => Err(error),
        Ok(store) => match allocation(lock, record, order) {
            Err(error) => Err(FileStoreError::Allocator(error)),
            Ok((id, next_record)) => {
                let new_task = with_id(task, id);
                if new_task.fault() is Some {
                    Err(FileStoreError::Store(StoreError::Invalid(new_task.fault().unwrap())))
                } else if new_task.date_completed is Some {
                    Err(
                        FileStoreError::Store(
                            StoreError::Invalid(InvalidTaskError::AlreadyCompleted),
                        ),
                    )
                } else if holds_id(store.active, id) || holds_id(store.archive, id) {
                    Err(FileStoreError::Store(StoreError::DuplicateId(id)))
                } else {
                    match line_of(new_task) {
                        Err(error) => Err(error),
                        Ok(line) => if reads_as(
                            active + line,
                            archive,
                            TaskStoreView {
                                active: store.active.push(new_task),
                                archive: store.archive,
                            },
                        ) {
                            Ok((new_task, next_record, line))
                        } else {
                            Err(FileStoreError::Unreadable)
                        },
                    }
                }
            },
        },
    }
}

/// What becomes of the request to complete a task: the line to append to the
/// archive and the new text of the active tasks; or why not. The two are only
/// given where the files, once both writes are made, read as the store with
/// the task completed.
pub open spec fn completion(
    active: Seq<u8>,
    archive: Seq<u8>,
    id: u64,
    now: Timestamp,
) -> Result<(Seq<u8>, Seq<u8>), FileStoreError> {
    match store_in_files(active, archive) {
        Err(error) => Err(error),
        Ok(store) => match position_of(store.active, id) {
            None => Err(FileStoreError::Store(StoreError::NotFound(TaskNotFoundError { id }))),
            Some(place) => match store.active[place].completion_fault(now) {
                Some(error) => Err(FileStoreError::Store(StoreError::Invalid(error))),
                None => match line_of(store.active[place].completed_at(now)) {
                    Err(error) => Err(error),
                    Ok(line) => match text_of(store.active.remove(place)) {
                        Err(error) => Err(error),
                        Ok(text) => if reads_as(
                            text,
                            archive + line,
                            TaskStoreView {
                                active: store.active.remove(place),
                                archive: store.archive.push(
                                    store.active[place].completed_at(now),
                                ),
                            },
                        ) {
                            Ok((line, text))
                        } else {
                            Err(FileStoreError::Unreadable)
                        },
                    },
                },
            },
        },
    }
}

/// What becomes of the request to delete a task: the new text of the active
/// tasks; or why not. The text is only given where the files, with it in
/// place, read as the store without the task.
pub open spec fn deletion(active: Seq<u8>, archive: Seq<u8>, id: u64) -> Result<
    Seq<u8>,
    FileStoreError,
> {
    match store_in_files(active, archive) {
        Err(error) => Err(error),
        Ok(store) => match position_of(store.active, id) {
            None => Err(FileStoreError::Store(StoreError::NotFound(TaskNotFoundError { id }))),
            Some(place) => match text_of(store.active.remove(place)) {
                Err(error) => Err(error),
                Ok(text) => if reads_as(
                    text,
                    archive,
                    TaskStoreView { active: store.active.remove(place), archive: store.archive },
                ) {
                    Ok(text)
                } else {
                    Err(FileStoreError::Unreadable)
                },
            },
        },
    }
}

/// The ids of the tasks, in order.
pub open spec fn ids_of(tasks: Seq<TaskView>) -> Seq<u64> {
    tasks.map_values(|task: TaskView| task.id)
}

/// An error for the first record of a collection that is no task.
pub open spec fn malformed(target: Collection, fault: (nat, nat)) -> FileStoreError {
    FileStoreError::Malformed {
        target,
        error: MalformedRecordError { line: fault.0 as usize, field: fault.1 as usize },
    }
}

/// What becomes of the request to reconcile the two files: the new text of
/// the archive, which holds the archived tasks whose id no active task has;
/// or why not. The text is only given where it reads as those tasks.
pub open spec fn reconciliation(active: Seq<u8>, archive: Seq<u8>) -> Result<
    Seq<u8>,
    FileStoreError,
> {
    match strict_tasks(active) {
        Err(fault) => Err(malformed(Collection::Active, fault)),
        Ok(active_tasks) => match strict_tasks(archive) {
            Err(fault) => Err(malformed(Collection::Archive, fault)),
            Ok(archived_tasks) => {
                let kept = unselected(archived_tasks, ids_of(active_tasks));
                match text_of(kept) {
                    Err(error) => Err(error),
                    Ok(text) => if strict_tasks(text) == Ok::<Seq<TaskView>, (nat, nat)>(kept) {
                        Ok(text)
                    } else {
                        Err(FileStoreError::Unreadable)
                    },
                }
            },
        },
    }
}

fn load_collection(bytes: &[u8], target: Collection) -> (r: Result<Vec<Task>, FileStoreError>)
    ensures
        match r {
            Ok(tasks) => strict_tasks(bytes@) == Ok::<Seq<TaskView>, (nat, nat)>(
                tasks.deep_view(),
            ) && forall|i: int| 0 <= i < tasks.len() ==> (#[trigger] tasks[i]).wf(),
            Err(error) => strict_tasks(bytes@) is Err && error == malformed(
                target,
                strict_tasks(bytes@)->Err_0,
            ),
        },
{
    match get_raw_tasks(bytes, true) {
        Ok(loaded) => Ok(loaded.tasks),
        Err(error) => Err(FileStoreError::Malformed { target, error }),
    }
}

/// Reads the store from the text of the two files. A record that is no task
/// is an error, and so is a store that is not consistent.
pub fn load_store(active: &[u8], archive: &[u8]) -> (r: Result<TaskStore, FileStoreError>)
    ensures
        match r {
            Ok(store) => store_in_files(active@, archive@) == Ok::<TaskStoreView, FileStoreError>(
                store@,
            ) && store.wf(),
            Err(error) => store_in_files(active@, archive@) == Err::<
                TaskStoreView,
                FileStoreError,
            >(error),
        },
{
    let active_tasks = match load_collection(active, Collection::Active) {
        Ok(tasks) => tasks,
        Err(error) => {
            return Err(error);
        },
    };
    let archived_tasks = match load_collection(archive, Collection::Archive) {
        Ok(tasks) => tasks,
        Err(error) => {
            return Err(error);
        },
    };
    let store = TaskStore { active: active_tasks, archive: archived_tasks };
    if !store.is_consistent() {
        return Err(FileStoreError::Inconsistent);
    }
    Ok(store)
}

fn same_tasks(one: &Vec<Task>, other: &Vec<Task>) -> (r: bool)
    ensures
        r == (one.deep_view() == other.deep_view()),
{
    if one.len() != other.len() {
        assert(one.deep_view().len() != other.deep_view().len());
        return false;
    }
    let mut i: usize = 0;
    while i < one.len()
        invariant
            i <= one.len(),
            one.len() == other.len(),
            forall|k: int| 0 <= k < i ==> (#[trigger] one[k])@ == other[k]@,
        decreases one.len() - i,
    {
        if !one[i].same_as(&other[i]) {
            assert(one.deep_view()[i as int] != other.deep_view()[i as int]);
            return false;
        }
        i += 1;
    }
    assert(one.deep_view() =~= other.deep_view());
    true
}

fn confirm(active: &[u8], archive: &[u8], store: &TaskStore) -> (r: Result<(), FileStoreError>)
    ensures
        match r {
            Ok(()) => reads_as(active@, archive@, store@),
            Err(error) => !reads_as(active@, archive@, store@) && error
                == FileStoreError::Unreadable,
        },
{
    match load_store(active, archive) {
        Ok(read) => {
            if same_tasks(&read.active, &store.active) && same_tasks(&read.archive, &store.archive) {
                Ok(())
            } else {
                Err(FileStoreError::Unreadable)
            }
        },
        Err(_) => Err(FileStoreError::Unreadable),
    }
}

fn joined(front: &[u8], back: &Vec<u8>) -> (r: Vec<u8>)
    ensures
        r@ == front@ + back@,
{
    let mut out = slice_to_vec(front);
    let mut i: usize = 0;
    while i < back.len()
        invariant
            i <= back.len(),
            out@ == front@ + back@.take(i as int),
        decreases back.len() - i,
    {
        out.push(back[i]);
        assert(out@ =~= front@ + back@.take(i + 1));
        i += 1;
    }
    assert(back@.take(i as int) == back@);
    out
}

fn line_for(task: Task) -> (r: Result<Vec<u8>, FileStoreError>)
    requires
        task.wf(),
    ensures
        match r {
            Ok(line) => line_of(task@) == Ok::<Seq<u8>, FileStoreError>(line@),
            Err(error) => line_of(task@) == Err::<Seq<u8>, FileStoreError>(error),
        },
{
    let mut line: Vec<u8> = Vec::new();
    match write_task(&mut line, task) {
        Ok(()) => {
            assert(line@ =~= csv_line(record_fields(task@)).unwrap());
            Ok(line)
        },
        Err(error) => Err(FileStoreError::Write(error)),
    }
}

fn text_for(tasks: &Vec<Task>) -> (r: Result<Vec<u8>, FileStoreError>)
    requires
        forall|i: int| 0 <= i < tasks.len() ==> (#[trigger] tasks[i]).wf(),
    ensures
        match r {
            Ok(text) => text_of(tasks.deep_view()) == Ok::<Seq<u8>, FileStoreError>(text@),
            Err(error) => text_of(tasks.deep_view()) == Err::<Seq<u8>, FileStoreError>(error),
        },
{
    let mut text: Vec<u8> = Vec::new();
    match write_tasks(&mut text, tasks, false) {
        Ok(()) => {
            assert(text@ =~= lines_of(tasks.deep_view()));
            Ok(text)
        },
        Err(error) => Err(FileStoreError::Write(error)),
    }
}

/// Adds a task to the files: it gets the next identifier of the sequence in
/// place of the one it came with, and its line is to be put after the active
/// tasks. The sequence record to write back is returned with it.
pub fn add_to_files(
    active: &[u8],
    archive: &[u8],
    lock: LockOutcome,
    record: &[u8],
    order: ByteOrder,
    task: Task,
) -> (r: Result<Added, FileStoreError>)
    ensures
        match r {
            Ok(added) => {
                &&& addition(active@, archive@, lock, record@, order, task@) == Ok::<
                    (TaskView, Seq<u8>, Seq<u8>),
                    FileStoreError,
                >((added.task@, added.record@, added.write.bytes@))
                &&& added.write.target == Collection::Active
                &&& added.write.append
                &&& added.task.wf()
                &&& reads_as(
                    active@ + added.write.bytes@,
                    archive@,
                    TaskStoreView {
                        active: store_in_files(active@, archive@)->Ok_0.active.push(added.task@),
                        archive: store_in_files(active@, archive@)->Ok_0.archive,
                    },
                )
            },
            Err(error) => addition(active@, archive@, lock, record@, order, task@) == Err::<
                (TaskView, Seq<u8>, Seq<u8>),
                FileStoreError,
            >(error),
        },
{
    let mut store = match load_store(active, archive) {
        Ok(store) => store,
        Err(error) => {
            return Err(error);
        },
    };
    let given = match get_unique_id(lock, record, order) {
        Ok(given) => given,
        Err(error) => {
            return Err(FileStoreError::Allocator(error));
        },
    };
    let new_task = match Task::new(
        given.id,
        task.name,
        task.desc,
        task.cost,
        task.priority,
        task.date_created,
        task.date_completed,
        task.deadline,
    ) {
        Ok(new_task) => new_task,
        Err(error) => {
            return Err(FileStoreError::Store(StoreError::Invalid(error)));
        },
    };
    assert(new_task@ == with_id(task@, given.id));
    match store.add(new_task.clone()) {
        Ok(()) => {},
        Err(error) => {
            return Err(FileStoreError::Store(error));
        },
    }
    let line = match line_for(new_task.clone()) {
        Ok(line) => line,
        Err(error) => {
            return Err(error);
        },
    };
    match confirm(joined(active, &line).as_slice(), archive, &store) {
        Ok(()) => {},
        Err(error) => {
            return Err(error);
        },
    }
    Ok(
        Added {
            task: new_task,
            record: given.record,
            write: FileWrite { target: Collection::Active, append: true, bytes: line },
        },
    )
}

/// Completes the active task with this id at `now`. Two writes are returned,
/// in the order in which to make them: first the completed task's line, to be
/// put after the archived tasks, then the new text of the active tasks. Should
/// the second write not happen, the task is in both files rather than in none.
pub fn complete_in_files(active: &[u8], archive: &[u8], id: u64, now: &Timestamp) -> (r: Result<
    Vec<FileWrite>,
    FileStoreError,
>)
    ensures
        match r {
            Ok(writes) => {
                &&& writes.len() == 2
                &&& writes[0].target == Collection::Archive
                &&& writes[0].append
                &&& writes[1].target == Collection::Active
                &&& !writes[1].append
                &&& completion(active@, archive@, id, *now) == Ok::<
                    (Seq<u8>, Seq<u8>),
                    FileStoreError,
                >((writes[0].bytes@, writes[1].bytes@))
                &&& store_in_files(writes[1].bytes@, archive@ + writes[0].bytes@) is Ok
            },
            Err(error) => completion(active@, archive@, id, *now) == Err::<
                (Seq<u8>, Seq<u8>),
                FileStoreError,
            >(error),
        },
{
    let mut store = match load_store(active, archive) {
        Ok(store) => store,
        Err(error) => {
            return Err(error);
        },
    };
    let ghost before = store@;
    match store.complete(id, now) {
        Ok(()) => {},
        Err(error) => {
            return Err(FileStoreError::Store(error));
        },
    }
    let ghost place = position_of(before.active, id)->Some_0;
    let done = store.archive[store.archive.len() - 1].clone();
    proof {
        assert(store@.archive.last() == before.active[place].completed_at(*now));
        assert(done@ == store@.archive[store.archive.len() - 1]);
        assert(store@.archive[store.archive.len() - 1].wf());
        assert forall|i: int| 0 <= i < store.active.len() implies (#[trigger] store.active[i]).wf() by {
            assert(store@.active[i].wf());
        }
    }
    let line = match line_for(done) {
        Ok(line) => line,
        Err(error) => {
            return Err(error);
        },
    };
    let text = match text_for(&store.active) {
        Ok(text) => text,
        Err(error) => {
            return Err(error);
        },
    };
    match confirm(text.as_slice(), joined(archive, &line).as_slice(), &store) {
        Ok(()) => {},
        Err(error) => {
            return Err(error);
        },
    }
    let mut writes: Vec<FileWrite> = Vec::new();
    writes.push(FileWrite { target: Collection::Archive, append: true, bytes: line });
    writes.push(FileWrite { target: Collection::Active, append: false, bytes: text });
    Ok(writes)
}

/// Deletes the active task with this id. The one write that is returned is
/// the new text of the active tasks; the archive is not written.
pub fn delete_in_files(active: &[u8], archive: &[u8], id: u64) -> (r: Result<
    FileWrite,
    FileStoreError,
>)
    ensures
        match r {
            Ok(write) => {
                &&& write.target == Collection::Active
                &&& !write.append
                &&& deletion(active@, archive@, id) == Ok::<Seq<u8>, FileStoreError>(write.bytes@)
                &&& store_in_files(write.bytes@, archive@) is Ok
            },
            Err(error) => deletion(active@, archive@, id) == Err::<Seq<u8>, FileStoreError>(error),
        },
{
    let mut store = match load_store(active, archive) {
        Ok(store) => store,
        Err(error) => {
            return Err(error);
        },
    };
    match store.delete(id) {
        Ok(()) => {},
        Err(error) => {
            return Err(FileStoreError::Store(StoreError::NotFound(error)));
        },
    }
    proof {
        assert forall|i: int| 0 <= i < store.active.len() implies (#[trigger] store.active[i]).wf() by {
            assert(store@.active[i].wf());
        }
    }
    let text = match text_for(&store.active) {
        Ok(text) => text,
        Err(error) => {
            return Err(error);
        },
    };
    match confirm(text.as_slice(), archive, &store) {
        Ok(()) => {},
        Err(error) => {
            return Err(error);
        },
    }
    Ok(FileWrite { target: Collection::Active, append: false, bytes: text })
}

fn ids_in(tasks: &Vec<Task>) -> (r: Vec<u64>)
    ensures
        r@ == ids_of(tasks.deep_view()),
{
    let mut ids: Vec<u64> = Vec::new();
    let mut i: usize = 0;
    while i < tasks.len()
        invariant
            i <= tasks.len(),
            ids@ == ids_of(tasks.deep_view()).take(i as int),
        decreases tasks.len() - i,
    {
        ids.push(tasks[i].id);
        assert(ids@ =~= ids_of(tasks.deep_view()).take(i + 1));
        i += 1;
    }
    assert(ids_of(tasks.deep_view()).take(i as int) == ids_of(tasks.deep_view()));
    ids
}

/// Reconciles the two files after a completion that was cut short between
/// its two writes, which leaves a task in both. The active tasks take
/// precedence: an archived task whose id an active task has is dropped from
/// the archive. The one write that is returned is the new text of the
/// archive.
pub fn reconcile_files(active: &[u8], archive: &[u8]) -> (r: Result<FileWrite, FileStoreError>)
    ensures
        match r {
            Ok(write) => {
                &&& write.target == Collection::Archive
                &&& !write.append
                &&& reconciliation(active@, archive@) == Ok::<Seq<u8>, FileStoreError>(
                    write.bytes@,
                )
            },
            Err(error) => reconciliation(active@, archive@) == Err::<Seq<u8>, FileStoreError>(
                error,
            ),
        },
{
    let active_tasks = match load_collection(active, Collection::Active) {
        Ok(tasks) => tasks,
        Err(error) => {
            return Err(error);
        },
    };
    let archived_tasks = match load_collection(archive, Collection::Archive) {
        Ok(tasks) => tasks,
        Err(error) => {
            return Err(error);
        },
    };
    let kept = without_ids(archived_tasks, &ids_in(&active_tasks));
    let text = match text_for(&kept) {
        Ok(text) => text,
        Err(error) => {
            return Err(error);
        },
    };
    match load_collection(text.as_slice(), Collection::Archive) {
        Ok(read) => {
            if !same_tasks(&read, &kept) {
                return Err(FileStoreError::Unreadable);
            }
        },
        Err(_) => {
            return Err(FileStoreError::Unreadable);
        },
    }
    Ok(FileWrite { target: Collection::Archive, append: false, bytes: text })
}

/// Adding a task to files without active tasks and then listing shows the
/// new task alone: where the request to add gives a line, any top of the
/// ranking of what the files then hold, of one entry or more, is that task.
pub proof fn lemma_add_then_list(
    active: Seq<u8>,
    archive: Seq<u8>,
    lock: LockOutcome,
    record: Seq<u8>,
    order: ByteOrder,
    task: TaskView,
    now: Timestamp,
    count: int,
    listed: Seq<ComparibleTaskView>,
)
    ensures
        ({
            let added = addition(active, archive, lock, record, order, task);
            let before = store_in_files(active, archive);
            let after = store_in_files(active + added->Ok_0.2, archive);
            added is Ok && before->Ok_0.active.len() == 0 && count >= 1 && is_top_of_ranking(
                after->Ok_0.active,
                now,
                count,
                listed,
            ) ==> after is Ok && listed.len() == 1 && listed[0].task == added->Ok_0.0
        }),
{
    let added = addition(active, archive, lock, record, order, task);
    let before = store_in_files(active, archive);
    let after = store_in_files(active + added->Ok_0.2, archive);
    if added is Ok && before->Ok_0.active.len() == 0 && count >= 1 && is_top_of_ranking(
        after->Ok_0.active,
        now,
        count,
        listed,
    ) {
        let new_task = added->Ok_0.0;
        assert(after->Ok_0.active =~= seq![new_task]);
        lemma_sole_task_is_listed(new_task, now, count, listed);
    }
}

} // verus!
