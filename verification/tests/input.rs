use taskman::error::InvalidTaskError;
use taskman::input::{
    append_midnight_if_no_time, append_timezone_if_not_present, build_task, get_datetime, has_char,
};
use taskman::task::Task;
use taskman::timestamp::Timestamp;

fn now() -> Timestamp {
    Timestamp::new(1_431_648_000, 0, 7200).unwrap()
}

fn west() -> Timestamp {
    Timestamp::new(1_431_648_000, 0, -18_000).unwrap()
}

#[test]
fn has_char_finds_a_character() {
    assert!(has_char("2015-05-15T10:00:00", 'T'));
    assert!(!has_char("2015-05-15", 'T'));
    assert!(!has_char("", 'T'));
    assert!(has_char("é+", '+'));
}

#[test]
fn a_date_alone_means_the_end_of_that_day() {
    assert_eq!(append_midnight_if_no_time("2015-05-15".to_string()), "2015-05-15T23:59:59");
    assert_eq!(append_midnight_if_no_time(String::new()), "T23:59:59");
}

#[test]
fn a_date_with_a_time_is_left_alone() {
    assert_eq!(
        append_midnight_if_no_time("2015-05-15T10:00:00".to_string()),
        "2015-05-15T10:00:00"
    );
    assert_eq!(append_midnight_if_no_time("T".to_string()), "T");
}

#[test]
fn a_time_without_an_offset_gets_the_local_one() {
    assert_eq!(
        append_timezone_if_not_present("2015-05-15T10:00:00".to_string(), &now()),
        "2015-05-15T10:00:00+02:00"
    );
    assert_eq!(
        append_timezone_if_not_present("2015-05-15T10:00:00".to_string(), &west()),
        "2015-05-15T10:00:00-05:00"
    );
}

#[test]
fn a_time_with_a_plus_is_left_alone() {
    assert_eq!(
        append_timezone_if_not_present("2015-05-15T10:00:00+09:00".to_string(), &now()),
        "2015-05-15T10:00:00+09:00"
    );
}

#[test]
fn get_datetime_reads_what_was_typed() {
    assert_eq!(
        get_datetime("2015-05-15".to_string(), &now()),
        Some(Timestamp { secs: 1_431_727_199, nanos: 0, offset: 7200 })
    );
    assert_eq!(
        get_datetime("2015-05-15T10:00:00".to_string(), &now()),
        Some(Timestamp { secs: 1_431_676_800, nanos: 0, offset: 7200 })
    );
    assert_eq!(
        get_datetime("2015-05-15T10:00:00+00:00".to_string(), &now()),
        Some(Timestamp { secs: 1_431_684_000, nanos: 0, offset: 0 })
    );
}

#[test]
fn get_datetime_refuses_what_is_no_date() {
    assert_eq!(get_datetime("soon".to_string(), &now()), None);
    assert_eq!(get_datetime(String::new(), &now()), None);
    assert_eq!(get_datetime("2015-05-15T10:00:00-05:00".to_string(), &west()), None);
}

#[test]
fn build_task_makes_an_active_task() {
    let task = build_task(
        12,
        "write report".to_string(),
        Some("for Monday".to_string()),
        30,
        4,
        Some("2015-05-20".to_string()),
        &now(),
    )
    .unwrap();
    let expected = Task::new(
        12,
        "write report".to_string(),
        Some("for Monday".to_string()),
        30,
        4,
        now(),
        None,
        Some(Timestamp { secs: 1_432_159_199, nanos: 0, offset: 7200 }),
    )
    .unwrap();
    assert_eq!(task, expected);
}

#[test]
fn build_task_without_a_deadline() {
    let task = build_task(1, "a".to_string(), None, 1, 0, None, &now()).unwrap();
    assert_eq!(task.deadline, None);
    assert_eq!(task.date_created, now());
    assert_eq!(task.date_completed, None);
}

#[test]
fn build_task_refuses_a_deadline_that_cannot_be_read() {
    assert_eq!(
        build_task(1, "a".to_string(), None, 1, 0, Some("soon".to_string()), &now()),
        Err(InvalidTaskError::BadTimestamp)
    );
    assert_eq!(
        build_task(1, String::new(), None, 0, 0, Some("soon".to_string()), &now()),
        Err(InvalidTaskError::BadTimestamp)
    );
}

#[test]
fn build_task_refuses_bad_values() {
    assert_eq!(
        build_task(1, "a".to_string(), None, 0, 0, None, &now()),
        Err(InvalidTaskError::ZeroCost)
    );
    assert_eq!(
        build_task(1, String::new(), None, 1, 0, Some("2015-05-20".to_string()), &now()),
        Err(InvalidTaskError::EmptyName)
    );
    assert_eq!(
        build_task(1, "a".to_string(), Some(String::new()), 1, 0, None, &now()),
        Err(InvalidTaskError::EmptyDescription)
    );
}
