//! What can go wrong, by kind.

use vstd::prelude::*;

verus! {

/// Why a set of values is no task.
#[derive(Clone, Copy, Debug, PartialEq, Eq, Structural)]
pub enum InvalidTaskError {
    /// The name is empty.
    EmptyName,
    /// A description is given and is empty.
    EmptyDescription,
    /// The cost is zero.
    ZeroCost,
    /// One of the moments is not one that the tracker accepts.
    BadTimestamp,
    /// The task is marked complete already.
    AlreadyCompleted,
    /// The moment of completion lies before the moment of creation.
    CompletedBeforeCreated,
}

/// Why the store refused an operation.
#[derive(Clone, Copy, Debug, PartialEq, Eq, Structural)]
pub enum StoreError {
    /// No task with this id is among the active tasks.
    NotFound(TaskNotFoundError),
    /// The task, or what the operation would make of it, is not valid.
    Invalid(InvalidTaskError),
    /// A task with this id is in the store already.
    DuplicateId(u64),
}

/// No task with this id is in the collection that was searched.
#[derive(Clone, Copy, Debug, PartialEq, Eq, Structural)]
pub struct TaskNotFoundError {
    pub id: u64,
}

/// A stored record that is no task: the record's place in its collection,
/// counted from zero, and the place of the first field that is wrong. A record
/// with too few fields names the first one that is missing, one with too many
/// the first that is surplus.
#[derive(Clone, Copy, Debug, PartialEq, Eq, Structural)]
pub struct MalformedRecordError {
    pub line: usize,
    pub field: usize,
}

/// A task that cannot be written as a record: the field holds a moment whose
/// text would not read back as the same moment.
#[derive(Clone, Copy, Debug, PartialEq, Eq, Structural)]
pub struct UnwritableTaskError {
    pub field: usize,
}

/// Why a collection was not written: the place of the first task that could
/// not be, and what stood in the way.
#[derive(Clone, Copy, Debug, PartialEq, Eq, Structural)]
pub enum WriteTaskError {
    /// The task is not valid.
    Invalid { task: usize, error: InvalidTaskError },
    /// The task has a moment, in this field, whose text would not read back.
    Unwritable { task: usize, field: usize },
    /// The task's fields could not be put into one delimited line.
    Unencodable { task: usize },
}

/// Why no identifier was handed out.
#[derive(Clone, Copy, Debug, PartialEq, Eq, Structural)]
pub enum AllocatorError {
    /// The exclusive lock on the sequence record was not obtained.
    LockTimeout,
    /// The sequence record is not one integer of eight bytes.
    CorruptSequence,
    /// The sequence has reached the largest identifier.
    Exhausted,
}

} // verus!
