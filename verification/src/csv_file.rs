//! Collections of tasks as delimited text: one record per line, no header.
//!
//! Quoting and splitting of lines is the work of the `csv` crate. What is
//! decided here is which records are tasks, and that a collection is written
//! whole or not at all.

use vstd::prelude::*;
use crate::error::{MalformedRecordError, WriteTaskError};
use crate::task::{parse_fields, record_fields, Task, TaskView};

verus! {

/// The records that the `csv` crate reads from a text, in order. A record
/// that it rejects is `None`.
pub uninterp spec fn csv_rows(bytes: Seq<u8>) -> Seq<Option<Seq<Seq<char>>>>;

/// The line, with its end, that the `csv` crate writes for one record;
/// `None` where it writes none.
pub uninterp spec fn csv_line(fields: Seq<Seq<char>>) -> Option<Seq<u8>>;

/// A record as it was read, by its texts.
pub open spec fn row_view(row: Option<Vec<String>>) -> Option<Seq<Seq<char>>> {
    match row {
        Some(fields) => Some(fields.deep_view()),
        None => None,
    }
}

/// The task that a record stands for, or the place of the first field that is
/// wrong. For a record that could not be read at all that place is zero.
pub open spec fn parse_row(row: Option<Seq<Seq<char>>>) -> Result<TaskView, nat> {
    match row {
        Some(fields) => parse_fields(fields),
        None => Err(0),
    }
}

/// The tasks among the records, in order.
pub open spec fn tasks_of_rows(rows: Seq<Option<Seq<Seq<char>>>>) -> Seq<TaskView>
    decreases rows.len(),
{
    if rows.len() == 0 {
        Seq::empty()
    } else {
        let before = tasks_of_rows(rows.drop_last());
        match parse_row(rows.last()) {
            Ok(task) => before.push(task),
            Err(_) => before,
        }
    }
}

/// The records that are no tasks, in order, each with its place among the
/// records and the place of its first wrong field.
pub open spec fn faults_of_rows(rows: Seq<Option<Seq<Seq<char>>>>) -> Seq<(nat, nat)>
    decreases rows.len(),
{
    if rows.len() == 0 {
        Seq::empty()
    } else {
        let before = faults_of_rows(rows.drop_last());
        match parse_row(rows.last()) {
            Ok(_) => before,
            Err(field) => before.push(((rows.len() - 1) as nat, field)),
        }
    }
}

/// An error as the pair of its two places.
pub open spec fn fault_pair(error: MalformedRecordError) -> (nat, nat) {
    (error.line as nat, error.field as nat)
}

/// What stands in the way of writing one task, given its place: that it is
/// not valid, else that one of its moments would not read back, else that its
/// fields make no line.
pub open spec fn task_write_fault(task: TaskView, place: nat) -> Option<WriteTaskError> {
    match task.fault() {
        Some(error) => Some((WriteTaskError::Invalid { task: place as usize, error })),
        None => match task.unwritable_field() {
            Some(field) => Some(
                (WriteTaskError::Unwritable { task: place as usize, field: field as usize }),
            ),
            None => if csv_line(record_fields(task)) is None {
                Some((WriteTaskError::Unencodable { task: place as usize }))
            } else {
                None
            },
        },
    }
}

/// What stands in the way of writing the first task that cannot be written;
/// `None` where all can.
pub open spec fn write_fault(tasks: Seq<TaskView>) -> Option<WriteTaskError>
    decreases tasks.len(),
{
    if tasks.len() == 0 {
        None
    } else {
        match write_fault(tasks.drop_last()) {
            Some(error) => Some(error),
            None => task_write_fault(tasks.last(), (tasks.len() - 1) as nat),
        }
    }
}

/// The lines of the tasks, one after the other. It is meant for tasks that
/// can all be written.
pub open spec fn lines_of(tasks: Seq<TaskView>) -> Seq<u8>
    decreases tasks.len(),
{
    if tasks.len() == 0 {
        Seq::empty()
    } else {
        lines_of(tasks.drop_last()) + csv_line(record_fields(tasks.last())).unwrap()
    }
}

/// What was read from a collection: the tasks, and an error for each record
/// that is none.
#[derive(Debug)]
pub struct Loaded {
    pub tasks: Vec<Task>,
    pub rejected: Vec<MalformedRecordError>,
}

/// Reads the tasks of a collection from its text.
///
/// In strict mode the first record that is no task ends the reading with its
/// error. Otherwise such records are set aside, each with its error, and the
/// tasks among the records are returned in order.
pub fn get_raw_tasks(bytes: &[u8], strict: bool) -> (r: Result<Loaded, MalformedRecordError>)
    ensures
        ({
            let rows = csv_rows(bytes@);
            match r {
                Ok(loaded) => {
                    &&& loaded.tasks.deep_view() == tasks_of_rows(rows)
                    &&& loaded.rejected@.map_values(|e: MalformedRecordError| fault_pair(e))
                        == faults_of_rows(rows)
                    &&& strict ==> faults_of_rows(rows).len() == 0
                    &&& forall|i: int| 0 <= i < loaded.tasks.len() ==> (#[trigger] loaded.tasks[i]).wf()
                },
                Err(error) => {
                    &&& strict
                    &&& faults_of_rows(rows).len() > 0
                    &&& fault_pair(error) == faults_of_rows(rows)[0]
                },
            }
        }),
{
    let rows = read_rows(bytes);
    let ghost texts = csv_rows(bytes@);
    let mut tasks: Vec<Task> = Vec::new();
    let mut rejected: Vec<MalformedRecordError> = Vec::new();
    let mut i: usize = 0;
    while i < rows.len()
        invariant
            i <= rows.len(),
            texts == csv_rows(bytes@),
            rows@.map_values(|row: Option<Vec<String>>| row_view(row)) == texts,
            tasks.deep_view() == tasks_of_rows(texts.take(i as int)),
            rejected@.map_values(|e: MalformedRecordError| fault_pair(e)) == faults_of_rows(
                texts.take(i as int),
            ),
            strict ==> rejected.len() == 0,
            forall|k: int| 0 <= k < tasks.len() ==> (#[trigger] tasks[k]).wf(),
        decreases rows.len() - i,
    {
        let ghost seen = texts.take(i as int);
        let ghost next = texts.take(i + 1);
        proof {
            assert(next.drop_last() == seen);
            assert(next.last() == row_view(rows@[i as int]));
        }
        let read = match &rows[i] {
            Some(fields) => Task::from_record(fields, i),
            None => Err(MalformedRecordError { line: i, field: 0 }),
        };
        match read {
            Ok(task) => {
                let ghost before = tasks;
                tasks.push(task);
                proof {
                    crate::text::lemma_deep_view_push(before, tasks, task);
                }
            },
            Err(error) => {
                assert(parse_row(next.last()) == Err::<TaskView, nat>(error.field as nat));
                assert(error.line == i);
                if strict {
                    proof {
                        assert(faults_of_rows(seen).len() == 0);
                        assert(faults_of_rows(next) =~= seq![fault_pair(error)]);
                        lemma_faults_grow(texts, i + 1);
                        assert(faults_of_rows(texts)[0] == faults_of_rows(next)[0]);
                    }
                    return Err(error);
                }
                rejected.push(error);
                assert(rejected@.map_values(|e: MalformedRecordError| fault_pair(e))
                    =~= faults_of_rows(next));
            },
        }
        i += 1;
    }
    assert(texts.take(i as int) == texts);
    Ok(Loaded { tasks, rejected })
}

/// The faults of the first records open the faults of all of them.
pub proof fn lemma_faults_grow(rows: Seq<Option<Seq<Seq<char>>>>, k: int)
    requires
        0 <= k <= rows.len(),
    ensures
        faults_of_rows(rows.take(k)).len() <= faults_of_rows(rows).len(),
        forall|j: int|
            0 <= j < faults_of_rows(rows.take(k)).len() ==> faults_of_rows(rows.take(k))[j]
                == faults_of_rows(rows)[j],
    decreases rows.len() - k,
{
    if k == rows.len() {
        assert(rows.take(k) == rows);
    } else {
        lemma_faults_grow(rows, k + 1);
        assert(rows.take(k + 1).drop_last() == rows.take(k));
    }
}

/// Writes tasks into the text of a collection: after what is there where
/// `append` is set, in its place where it is not. Either every task is
/// written, or the text is left as it was and the error names the first task
/// that could not be. A task that is not valid, such as one with a cost of
/// zero, is one that cannot be written.
pub fn write_tasks(content: &mut Vec<u8>, tasks: &Vec<Task>, append: bool) -> (r: Result<
    (),
    WriteTaskError,
>)
    ensures
        match r {
            Ok(()) => {
                &&& write_fault(tasks.deep_view()) is None
                &&& final(content)@ == (if append {
                    old(content)@
                } else {
                    Seq::empty()
                }) + lines_of(tasks.deep_view())
            },
            Err(error) => {
                &&& write_fault(tasks.deep_view()) == Some(error)
                &&& final(content)@ == old(content)@
            },
        },
{
    let ghost views = tasks.deep_view();
    let mut lines: Vec<u8> = Vec::new();
    let mut i: usize = 0;
    while i < tasks.len()
        invariant
            i <= tasks.len(),
            views == tasks.deep_view(),
            write_fault(views.take(i as int)) is None,
            lines@ == lines_of(views.take(i as int)),
        decreases tasks.len() - i,
    {
        proof {
            assert(views.take(i + 1).drop_last() == views.take(i as int));
            assert(views.take(i + 1).last() == tasks[i as int]@);
        }
        match tasks[i].validate() {
            Ok(()) => {},
            Err(error) => {
                proof {
                    lemma_write_fault_stays(views, i + 1);
                }
                return Err(WriteTaskError::Invalid { task: i, error });
            },
        }
        let fields = match tasks[i].to_record() {
            Ok(fields) => fields,
            Err(error) => {
                proof {
                    lemma_write_fault_stays(views, i + 1);
                }
                return Err(WriteTaskError::Unwritable { task: i, field: error.field });
            },
        };
        let mut line = match write_line(&fields) {
            Some(line) => line,
            None => {
                proof {
                    lemma_write_fault_stays(views, i + 1);
                }
                return Err(WriteTaskError::Unencodable { task: i });
            },
        };
        lines.append(&mut line);
        i += 1;
    }
    assert(views.take(i as int) == views);
    if !append {
        content.clear();
    }
    content.append(&mut lines);
    Ok(())
}

/// Once a task among the first cannot be written, the same fault is the
/// fault of the whole collection.
pub proof fn lemma_write_fault_stays(tasks: Seq<TaskView>, k: int)
    requires
        0 <= k <= tasks.len(),
        write_fault(tasks.take(k)) is Some,
    ensures
        write_fault(tasks) == write_fault(tasks.take(k)),
    decreases tasks.len() - k,
{
    if k == tasks.len() {
        assert(tasks.take(k) == tasks);
    } else {
        assert(tasks.take(k + 1).drop_last() == tasks.take(k));
        lemma_write_fault_stays(tasks, k + 1);
    }
}

/// Reads all records with a `csv::Reader` that expects no header and accepts
/// records of any length. The claim is only that the records are the ones
/// named [`csv_rows`] for this text.
#[verifier::external_body]
fn read_rows(bytes: &[u8]) -> (r: Vec<Option<Vec<String>>>)
    ensures
        r@.map_values(|row: Option<Vec<String>>| row_view(row)) == csv_rows(bytes@),
{
    let mut reader = csv::ReaderBuilder::new().has_headers(false).flexible(true).from_reader(bytes);
    let mut rows = Vec::new();
    for record in reader.records() {
        rows.push(
            match record {
                Ok(fields) => Some(fields.iter().map(String::from).collect()),
                Err(_) => None,
            },
        );
    }
    rows
}

/// Writes one record with a `csv::Writer` that writes no header. The claim is
/// only that the line is the one named [`csv_line`] for these fields.
#[verifier::external_body]
fn write_line(fields: &Vec<String>) -> (r: Option<Vec<u8>>)
    ensures
        r is Some <==> csv_line(fields.deep_view()) is Some,
        r is Some ==> r.unwrap()@ == csv_line(fields.deep_view()).unwrap(),
{
    let mut writer = csv::WriterBuilder::new().has_headers(false).from_writer(Vec::new());
    match writer.write_record(fields) {
        Ok(()) => writer.into_inner().ok(),
        Err(_) => None,
    }
}

} // verus!
