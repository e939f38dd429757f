//! What a user types for a new task, made into a task.
//!
//! A deadline may be typed as a date alone, which then means the last second
//! of that day, and without an offset, which then means the offset of the
//! local clock.

use vstd::prelude::*;
use crate::error::InvalidTaskError;
use crate::task::{Task, TaskView};
use crate::text::{chars_of, string_of};
use crate::timestamp::{rfc3339_text, rfc3339_value, timestamp_of_parts, Timestamp};

verus! {

/// The time of day that stands for a date without one.
pub const END_OF_DAY: &'static str = "T23:59:59";

/// The length of an offset such as `+02:00`.
pub const OFFSET_LENGTH: usize = 6;

/// A text that has a `T` as it is, any other with the end of the day after it.
pub open spec fn with_midnight(text: Seq<char>) -> Seq<char> {
    if text.contains('T') {
        text
    } else {
        text + END_OF_DAY@
    }
}

/// The last six characters of a text, or all of it where it has fewer.
pub open spec fn offset_of(moment_text: Seq<char>) -> Seq<char> {
    if moment_text.len() >= OFFSET_LENGTH {
        moment_text.subrange(moment_text.len() - OFFSET_LENGTH, moment_text.len() as int)
    } else {
        moment_text
    }
}

/// A text that has a `+` as it is, any other with the offset that ends
/// `moment_text` after it.
pub open spec fn with_timezone(text: Seq<char>, moment_text: Seq<char>) -> Seq<char> {
    if text.contains('+') {
        text
    } else {
        text + offset_of(moment_text)
    }
}

/// The text that is read as a deadline, for what was typed at `now`.
pub open spec fn deadline_text(typed: Seq<char>, now: Timestamp) -> Seq<char> {
    with_timezone(with_midnight(typed), rfc3339_text(now.secs, now.nanos, now.offset))
}

/// The deadline that stands for what was typed at `now`, if it is one.
pub open spec fn deadline_value(typed: Seq<char>, now: Timestamp) -> Option<Timestamp> {
    timestamp_of_parts(rfc3339_value(deadline_text(typed, now)))
}

/// Whether a character occurs in a text.
pub fn has_char(text: &str, wanted: char) -> (r: bool)
    ensures
        r == text@.contains(wanted),
{
    let chars = chars_of(text);
    let mut i: usize = 0;
    while i < chars.len()
        invariant
            i <= chars.len(),
            chars@ == text@,
            forall|k: int| 0 <= k < i ==> chars@[k] != wanted,
        decreases chars.len() - i,
    {
        if chars[i] == wanted {
            return true;
        }
        i += 1;
    }
    false
}

/// Adds the end of the day to a date that has no time.
pub fn append_midnight_if_no_time(date_maybe_time: String) -> (r: String)
    ensures
        r@ == with_midnight(date_maybe_time@),
{
    if !has_char(date_maybe_time.as_str(), 'T') {
        date_maybe_time.concat(END_OF_DAY)
    } else {
        date_maybe_time
    }
}

/// Adds the offset of the local clock, as the moment `now` shows it, to a
/// date and time that has none.
pub fn append_timezone_if_not_present(date_maybe_timezone: String, now: &Timestamp) -> (r:
    String)
    requires
        now.wf(),
    ensures
        r@ == with_timezone(
            date_maybe_timezone@,
            rfc3339_text(now.secs, now.nanos, now.offset),
        ),
{
    if has_char(date_maybe_timezone.as_str(), '+') {
        return date_maybe_timezone;
    }
    let moment = chars_of(now.to_rfc3339().as_str());
    let start: usize = if moment.len() >= OFFSET_LENGTH {
        moment.len() - OFFSET_LENGTH
    } else {
        0
    };
    let mut offset: Vec<char> = Vec::new();
    let mut i: usize = start;
    while i < moment.len()
        invariant
            start <= i <= moment.len(),
            offset@ == moment@.subrange(start as int, i as int),
        decreases moment.len() - i,
    {
        offset.push(moment[i]);
        assert(moment@.subrange(start as int, i + 1) == moment@.subrange(
            start as int,
            i as int,
        ).push(moment@[i as int]));
        i += 1;
    }
    assert(offset@ =~= offset_of(moment@));
    date_maybe_timezone.concat(string_of(&offset).as_str())
}

/// Reads what was typed as a deadline at the moment `now`.
pub fn get_datetime(typed: String, now: &Timestamp) -> (r: Option<Timestamp>)
    requires
        now.wf(),
    ensures
        r == deadline_value(typed@, *now),
        r is Some ==> r.unwrap().wf(),
{
    let text = append_timezone_if_not_present(append_midnight_if_no_time(typed), now);
    Timestamp::parse(text.as_str())
}

/// Makes the task that a user asks for at the moment `now`, with the id that
/// was handed out for it. The task is active: it has no moment of completion.
/// A deadline that cannot be read makes the task invalid.
pub fn build_task(
    id: u64,
    name: String,
    desc: Option<String>,
    cost: u32,
    priority: u32,
    deadline: Option<String>,
    now: &Timestamp,
) -> (r: Result<Task, InvalidTaskError>)
    requires
        now.wf(),
    ensures
        ({
            let read = match deadline {
                Some(typed) => deadline_value(typed@, *now),
                None => None,
            };
            let made = TaskView {
                id,
                name: name@,
                desc: match desc {
                    Some(text) => Some(text@),
                    None => None,
                },
                cost,
                priority,
                date_created: *now,
                date_completed: None,
                deadline: read,
            };
            if deadline is Some && read is None {
                r == Err::<Task, InvalidTaskError>(InvalidTaskError::BadTimestamp)
            } else {
                match r {
                    Ok(task) => task@ == made && task.wf(),
                    Err(error) => made.fault() == Some(error),
                }
            }
        }),
{
    let read: Option<Timestamp> = match deadline {
        Some(typed) => match get_datetime(typed, now) {
            Some(at) => Some(at),
            None => {
                return Err(InvalidTaskError::BadTimestamp);
            },
        },
        None => None,
    };
    Task::new(id, name, desc, cost, priority, *now, None, read)
}

} // verus!
