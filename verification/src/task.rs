//! The task: what it holds, when it is valid, and its flat record.
//!
//! A record has eight fields in a fixed order: id, name, description, cost,
//! priority, moment of creation, moment of completion, deadline. Numbers are
//! written in decimal, moments in RFC 3339 form, and an absent description,
//! completion or deadline as an empty field.

use vstd::prelude::*;
use crate::decimal::{decimal_text, decimal_up_to, format_u64, lemma_decimal_round_trip, parse_u32, parse_u64};
use crate::error::{InvalidTaskError, MalformedRecordError, UnwritableTaskError};
use crate::timestamp::{rfc3339_text, rfc3339_value, timestamp_of_parts, Timestamp};

verus! {

/// The number of fields in a record.
pub const RECORD_FIELDS: usize = 8;

/// One task.
#[derive(Debug, PartialEq, Eq)]
pub struct Task {
    pub id: u64,
    pub name: String,
    pub desc: Option<String>,
    /// The expected effort, in minutes.
    pub cost: u32,
    /// How much the task matters; larger is more.
    pub priority: u32,
    pub date_created: Timestamp,
    pub date_completed: Option<Timestamp>,
    pub deadline: Option<Timestamp>,
}

/// What a task holds, with its texts as sequences of characters.
pub struct TaskView {
    pub id: u64,
    pub name: Seq<char>,
    pub desc: Option<Seq<char>>,
    pub cost: u32,
    pub priority: u32,
    pub date_created: Timestamp,
    pub date_completed: Option<Timestamp>,
    pub deadline: Option<Timestamp>,
}

impl View for Task {
    type V = TaskView;

    open spec fn view(&self) -> TaskView {
        TaskView {
            id: self.id,
            name: self.name@,
            desc: match self.desc {
                Some(text) => Some(text@),
                None => None,
            },
            cost: self.cost,
            priority: self.priority,
            date_created: self.date_created,
            date_completed: self.date_completed,
            deadline: self.deadline,
        }
    }
}

impl DeepView for Task {
    type V = TaskView;

    open spec fn deep_view(&self) -> TaskView {
        self@
    }
}

impl TaskView {
    /// The first reason, in a fixed order, for which these values are no
    /// task; `None` where they are one.
    pub open spec fn fault(self) -> Option<InvalidTaskError> {
        if self.name.len() == 0 {
            Some(InvalidTaskError::EmptyName)
        } else if self.desc is Some && self.desc.unwrap().len() == 0 {
            Some(InvalidTaskError::EmptyDescription)
        } else if self.cost == 0 {
            Some(InvalidTaskError::ZeroCost)
        } else if !self.date_created.wf() || (self.date_completed is Some
            && !self.date_completed.unwrap().wf()) || (self.deadline is Some
            && !self.deadline.unwrap().wf()) {
            Some(InvalidTaskError::BadTimestamp)
        } else if self.date_completed is Some && !self.date_created.not_after(
            self.date_completed.unwrap(),
        ) {
            Some(InvalidTaskError::CompletedBeforeCreated)
        } else {
            None
        }
    }

    /// Whether these values are a task: a name, a description that is absent
    /// or not empty, a cost above zero, accepted moments, and a completion
    /// that is not before the creation.
    pub open spec fn wf(self) -> bool {
        self.fault() is None
    }

    /// Whether each moment of the task has a text that reads back as the same
    /// moment.
    pub open spec fn portable(self) -> bool {
        &&& self.date_created.reads_back()
        &&& self.date_completed is Some ==> self.date_completed.unwrap().reads_back()
        &&& self.deadline is Some ==> self.deadline.unwrap().reads_back()
    }

    /// The place of the first field whose moment has no text that reads back;
    /// `None` where every moment has one.
    pub open spec fn unwritable_field(self) -> Option<nat> {
        if !self.date_created.reads_back() {
            Some(5)
        } else if self.date_completed is Some && !self.date_completed.unwrap().reads_back() {
            Some(6)
        } else if self.deadline is Some && !self.deadline.unwrap().reads_back() {
            Some(7)
        } else {
            None
        }
    }

    /// The task as it is once completed at `now`.
    pub open spec fn completed_at(self, now: Timestamp) -> TaskView {
        TaskView { date_completed: Some(now), ..self }
    }

    /// Why the task cannot be completed at `now`; `None` where it can.
    pub open spec fn completion_fault(self, now: Timestamp) -> Option<InvalidTaskError> {
        if self.date_completed is Some {
            Some(InvalidTaskError::AlreadyCompleted)
        } else if !now.wf() {
            Some(InvalidTaskError::BadTimestamp)
        } else if !self.date_created.not_after(now) {
            Some(InvalidTaskError::CompletedBeforeCreated)
        } else {
            None
        }
    }
}

/// The text of a moment that may be absent: empty where it is.
pub open spec fn optional_moment_text(moment: Option<Timestamp>) -> Seq<char> {
    match moment {
        Some(at) => rfc3339_text(at.secs, at.nanos, at.offset),
        None => Seq::empty(),
    }
}

/// The moment that a field stands for: absent where the field is empty, and
/// an error where the field is no moment.
pub open spec fn optional_moment_value(text: Seq<char>) -> Result<Option<Timestamp>, ()> {
    if text.len() == 0 {
        Ok(None)
    } else {
        match timestamp_of_parts(rfc3339_value(text)) {
            Some(at) => Ok(Some(at)),
            None => Err(()),
        }
    }
}

/// The fields of a task's record.
pub open spec fn record_fields(task: TaskView) -> Seq<Seq<char>> {
    seq![
        decimal_text(task.id as nat),
        task.name,
        match task.desc {
            Some(text) => text,
            None => Seq::empty(),
        },
        decimal_text(task.cost as nat),
        decimal_text(task.priority as nat),
        rfc3339_text(task.date_created.secs, task.date_created.nanos, task.date_created.offset),
        optional_moment_text(task.date_completed),
        optional_moment_text(task.deadline),
    ]
}

/// The task that a record's fields stand for, or the place of the first field
/// that is wrong. Too few fields: the first that is missing. Too many: the
/// first that is surplus.
pub open spec fn parse_fields(fields: Seq<Seq<char>>) -> Result<TaskView, nat> {
    if fields.len() < RECORD_FIELDS {
        Err(fields.len())
    } else if fields.len() > RECORD_FIELDS {
        Err(RECORD_FIELDS as nat)
    } else {
        let id = decimal_up_to(fields[0], u64::MAX as nat);
        let cost = decimal_up_to(fields[3], u32::MAX as nat);
        let priority = decimal_up_to(fields[4], u32::MAX as nat);
        let created = timestamp_of_parts(rfc3339_value(fields[5]));
        let completed = optional_moment_value(fields[6]);
        let deadline = optional_moment_value(fields[7]);
        if id is None {
            Err(0)
        } else if fields[1].len() == 0 {
            Err(1)
        } else if cost is None || cost.unwrap() == 0 {
            Err(3)
        } else if priority is None {
            Err(4)
        } else if created is None {
            Err(5)
        } else if completed is Err || (completed.unwrap() is Some && !created.unwrap().not_after(
            completed.unwrap().unwrap(),
        )) {
            Err(6)
        } else if deadline is Err {
            Err(7)
        } else {
            Ok(
                TaskView {
                    id: id.unwrap() as u64,
                    name: fields[1],
                    desc: if fields[2].len() == 0 {
                        None
                    } else {
                        Some(fields[2])
                    },
                    cost: cost.unwrap() as u32,
                    priority: priority.unwrap() as u32,
                    date_created: created.unwrap(),
                    date_completed: completed.unwrap(),
                    deadline: deadline.unwrap(),
                },
            )
        }
    }
}

/// A task that a record stands for is valid.
pub proof fn lemma_parsed_task_is_valid(fields: Seq<Seq<char>>)
    ensures
        parse_fields(fields) is Ok ==> parse_fields(fields)->Ok_0.wf(),
{
}

/// The record of a valid task whose moments read back stands for that task:
/// writing a task and reading it again gives a task equal in every field.
pub proof fn lemma_record_round_trip(task: TaskView)
    ensures
        task.wf() && task.portable() ==> parse_fields(record_fields(task)) == Ok::<TaskView, nat>(
            task,
        ),
{
    if task.wf() && task.portable() {
        lemma_decimal_round_trip(task.id as nat, u64::MAX as nat);
        lemma_decimal_round_trip(task.cost as nat, u32::MAX as nat);
        lemma_decimal_round_trip(task.priority as nat, u32::MAX as nat);
        let fields = record_fields(task);
        assert(fields.len() == 8);
        let parsed = parse_fields(fields)->Ok_0;
        assert(parsed.desc == task.desc);
        assert(parsed.date_completed == task.date_completed);
        assert(parsed.deadline == task.deadline);
    }
}

fn clone_optional_text(text: &Option<String>) -> (r: Option<String>)
    ensures
        r is Some <==> text is Some,
        r is Some ==> r.unwrap()@ == text.unwrap()@,
{
    match text {
        Some(inner) => Some(inner.clone()),
        None => None,
    }
}

fn same_optional_text(one: &Option<String>, other: &Option<String>) -> (r: bool)
    ensures
        r == (match (*one, *other) {
            (Some(a), Some(b)) => a@ == b@,
            (None, None) => true,
            _ => false,
        }),
{
    match (one, other) {
        (Some(a), Some(b)) => *a == *b,
        (None, None) => true,
        _ => false,
    }
}

fn same_optional_moment(one: &Option<Timestamp>, other: &Option<Timestamp>) -> (r: bool)
    ensures
        r == (*one == *other),
{
    match (one, other) {
        (Some(a), Some(b)) => *a == *b,
        (None, None) => true,
        _ => false,
    }
}

fn read_optional_moment(text: &str) -> (r: Result<Option<Timestamp>, ()>)
    ensures
        r == optional_moment_value(text@),
{
    if text.is_empty() {
        Ok(None)
    } else {
        match Timestamp::parse(text) {
            Some(at) => Ok(Some(at)),
            None => Err(()),
        }
    }
}

impl Clone for Task {
    fn clone(&self) -> (r: Task)
        ensures
            r@ == self@,
    {
        Task {
            id: self.id,
            name: self.name.clone(),
            desc: clone_optional_text(&self.desc),
            cost: self.cost,
            priority: self.priority,
            date_created: self.date_created,
            date_completed: self.date_completed,
            deadline: self.deadline,
        }
    }
}

impl Task {
    /// Whether the task is valid.
    pub open spec fn wf(&self) -> bool {
        self@.wf()
    }

    /// Makes a task from all of its values, or says why they are none.
    pub fn new(
        id: u64,
        name: String,
        desc: Option<String>,
        cost: u32,
        priority: u32,
        date_created: Timestamp,
        date_completed: Option<Timestamp>,
        deadline: Option<Timestamp>,
    ) -> (r: Result<Task, InvalidTaskError>)
        ensures
            ({
                let made = Task {
                    id,
                    name,
                    desc,
                    cost,
                    priority,
                    date_created,
                    date_completed,
                    deadline,
                };
                match r {
                    Ok(task) => task == made && task.wf(),
                    Err(error) => made@.fault() == Some(error),
                }
            }),
    {
        if name.as_str().is_empty() {
            return Err(InvalidTaskError::EmptyName);
        }
        if let Some(text) = &desc {
            if text.as_str().is_empty() {
                return Err(InvalidTaskError::EmptyDescription);
            }
        }
        if cost == 0 {
            return Err(InvalidTaskError::ZeroCost);
        }
        if !date_created.is_valid() {
            return Err(InvalidTaskError::BadTimestamp);
        }
        if let Some(at) = &date_completed {
            if !at.is_valid() {
                return Err(InvalidTaskError::BadTimestamp);
            }
        }
        if let Some(at) = &deadline {
            if !at.is_valid() {
                return Err(InvalidTaskError::BadTimestamp);
            }
        }
        if let Some(at) = &date_completed {
            if !date_created.is_not_after(at) {
                return Err(InvalidTaskError::CompletedBeforeCreated);
            }
        }
        Ok(Task { id, name, desc, cost, priority, date_created, date_completed, deadline })
    }

    /// Says why the task is not valid, where it is not.
    pub fn validate(&self) -> (r: Result<(), InvalidTaskError>)
        ensures
            match r {
                Ok(()) => self.wf(),
                Err(error) => self@.fault() == Some(error),
            },
    {
        if self.name.as_str().is_empty() {
            return Err(InvalidTaskError::EmptyName);
        }
        if let Some(text) = &self.desc {
            if text.as_str().is_empty() {
                return Err(InvalidTaskError::EmptyDescription);
            }
        }
        if self.cost == 0 {
            return Err(InvalidTaskError::ZeroCost);
        }
        if !self.date_created.is_valid() {
            return Err(InvalidTaskError::BadTimestamp);
        }
        if let Some(at) = &self.date_completed {
            if !at.is_valid() {
                return Err(InvalidTaskError::BadTimestamp);
            }
        }
        if let Some(at) = &self.deadline {
            if !at.is_valid() {
                return Err(InvalidTaskError::BadTimestamp);
            }
        }
        if let Some(at) = &self.date_completed {
            if !self.date_created.is_not_after(at) {
                return Err(InvalidTaskError::CompletedBeforeCreated);
            }
        }
        Ok(())
    }

    /// Whether the task is valid.
    pub fn is_valid(&self) -> (r: bool)
        ensures
            r == self.wf(),
    {
        self.validate().is_ok()
    }

    /// Whether the two tasks are equal in every field.
    pub fn same_as(&self, other: &Task) -> (r: bool)
        ensures
            r == (self@ == other@),
    {
        self.id == other.id && self.name == other.name && same_optional_text(
            &self.desc,
            &other.desc,
        ) && self.cost == other.cost && self.priority == other.priority && self.date_created
            == other.date_created && same_optional_moment(
            &self.date_completed,
            &other.date_completed,
        ) && same_optional_moment(&self.deadline, &other.deadline)
    }

    /// The task's identifier.
    pub fn get_id(&self) -> (r: &u64)
        ensures
            *r == self.id,
    {
        &self.id
    }

    /// The task marked complete at `now`. A task that is complete already is
    /// refused, and so is a completion that would lie before the creation.
    pub fn complete(self, now: Timestamp) -> (r: Result<Task, InvalidTaskError>)
        ensures
            match r {
                Ok(task) => self@.completion_fault(now) is None && task@ == self@.completed_at(now),
                Err(error) => self@.completion_fault(now) == Some(error),
            },
            r is Ok && self.wf() ==> r.unwrap().wf(),
    {
        if self.date_completed.is_some() {
            return Err(InvalidTaskError::AlreadyCompleted);
        }
        if !now.is_valid() {
            return Err(InvalidTaskError::BadTimestamp);
        }
        if !self.date_created.is_not_after(&now) {
            return Err(InvalidTaskError::CompletedBeforeCreated);
        }
        Ok(
            Task {
                id: self.id,
                name: self.name,
                desc: self.desc,
                cost: self.cost,
                priority: self.priority,
                date_created: self.date_created,
                date_completed: Some(now),
                deadline: self.deadline,
            },
        )
    }

    /// Reads a task from the fields of a record. `line` is the record's place
    /// in its collection and is handed on in the error.
    pub fn from_record(fields: &Vec<String>, line: usize) -> (r: Result<
        Task,
        MalformedRecordError,
    >)
        ensures
            match r {
                Ok(task) => parse_fields(fields.deep_view()) == Ok::<TaskView, nat>(task@)
                    && task.wf(),
                Err(error) => parse_fields(fields.deep_view()) == Err::<TaskView, nat>(
                    error.field as nat,
                ) && error.line == line,
            },
    {
        let ghost texts = fields.deep_view();
        assert(texts.len() == fields.len());
        assert(forall|i: int| 0 <= i < fields.len() ==> texts[i] == #[trigger] fields@[i]@);
        if fields.len() < RECORD_FIELDS {
            return Err(MalformedRecordError { line, field: fields.len() });
        }
        if fields.len() > RECORD_FIELDS {
            return Err(MalformedRecordError { line, field: RECORD_FIELDS });
        }
        let id: u64 = match parse_u64(fields[0].as_str()) {
            Some(value) => value,
            None => {
                return Err(MalformedRecordError { line, field: 0 });
            },
        };
        if fields[1].as_str().is_empty() {
            return Err(MalformedRecordError { line, field: 1 });
        }
        let cost: u32 = match parse_u32(fields[3].as_str()) {
            Some(value) => value,
            None => {
                return Err(MalformedRecordError { line, field: 3 });
            },
        };
        if cost == 0 {
            return Err(MalformedRecordError { line, field: 3 });
        }
        let priority: u32 = match parse_u32(fields[4].as_str()) {
            Some(value) => value,
            None => {
                return Err(MalformedRecordError { line, field: 4 });
            },
        };
        let date_created = match Timestamp::parse(fields[5].as_str()) {
            Some(at) => at,
            None => {
                return Err(MalformedRecordError { line, field: 5 });
            },
        };
        let date_completed = match read_optional_moment(fields[6].as_str()) {
            Ok(at) => at,
            Err(_) => {
                return Err(MalformedRecordError { line, field: 6 });
            },
        };
        if let Some(at) = &date_completed {
            if !date_created.is_not_after(at) {
                return Err(MalformedRecordError { line, field: 6 });
            }
        }
        let deadline = match read_optional_moment(fields[7].as_str()) {
            Ok(at) => at,
            Err(_) => {
                return Err(MalformedRecordError { line, field: 7 });
            },
        };
        let desc: Option<String> = if fields[2].as_str().is_empty() {
            None
        } else {
            Some(fields[2].clone())
        };
        let task = Task {
            id,
            name: fields[1].clone(),
            desc,
            cost,
            priority,
            date_created,
            date_completed,
            deadline,
        };
        proof {
            lemma_parsed_task_is_valid(texts);
        }
        Ok(task)
    }

    /// The fields of the task's record. A task is refused where one of its
    /// moments has no text that reads back as the same moment; the fields of
    /// any other task read back as that task.
    pub fn to_record(&self) -> (r: Result<Vec<String>, UnwritableTaskError>)
        requires
            self.wf(),
        ensures
            match r {
                Ok(fields) => self@.unwritable_field() is None && fields.deep_view()
                    == record_fields(self@) && parse_fields(fields.deep_view()) == Ok::<
                    TaskView,
                    nat,
                >(self@),
                Err(error) => self@.unwritable_field() == Some(error.field as nat),
            },
    {
        let created = match self.date_created.to_portable_text() {
            Some(text) => text,
            None => {
                return Err(UnwritableTaskError { field: 5 });
            },
        };
        let completed = match &self.date_completed {
            Some(at) => match at.to_portable_text() {
                Some(text) => text,
                None => {
                    return Err(UnwritableTaskError { field: 6 });
                },
            },
            None => String::new(),
        };
        let deadline = match &self.deadline {
            Some(at) => match at.to_portable_text() {
                Some(text) => text,
                None => {
                    return Err(UnwritableTaskError { field: 7 });
                },
            },
            None => String::new(),
        };
        let desc = match &self.desc {
            Some(text) => text.clone(),
            None => String::new(),
        };
        let mut fields: Vec<String> = Vec::new();
        fields.push(format_u64(self.id));
        fields.push(self.name.clone());
        fields.push(desc);
        fields.push(format_u64(self.cost as u64));
        fields.push(format_u64(self.priority as u64));
        fields.push(created);
        fields.push(completed);
        fields.push(deadline);
        proof {
            assert(fields.deep_view() =~= record_fields(self@));
            lemma_record_round_trip(self@);
        }
        Ok(fields)
    }
}

} // verus!
