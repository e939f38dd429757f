use taskman::error::{InvalidTaskError, MalformedRecordError, UnwritableTaskError};
use taskman::show_rule::{Column, ShowRule};
use taskman::task::Task;
use taskman::timestamp::Timestamp;

fn at(secs: i64) -> Timestamp {
    Timestamp::new(secs, 0, 0).unwrap()
}

fn plain_task() -> Task {
    Task::new(7, "write report".to_string(), None, 30, 4, at(1_431_648_000), None, None).unwrap()
}

fn full_task() -> Task {
    Task::new(
        18_446_744_073_709_551_615,
        "ship, \"then\" rest".to_string(),
        Some("two\nlines".to_string()),
        4_294_967_295,
        0,
        Timestamp::new(1_431_648_000, 250_000_000, 3600).unwrap(),
        Some(Timestamp::new(1_431_648_060, 0, -3600).unwrap()),
        Some(Timestamp::new(1_435_708_799, 1_000_000_000, 0).unwrap()),
    )
    .unwrap()
}

fn texts(fields: &[&str]) -> Vec<String> {
    fields.iter().map(|field| field.to_string()).collect()
}

fn good_fields() -> Vec<String> {
    texts(&[
        "7",
        "write report",
        "",
        "30",
        "4",
        "2015-05-15T00:00:00+00:00",
        "",
        "",
    ])
}

fn with_field(place: usize, text: &str) -> Vec<String> {
    let mut fields = good_fields();
    fields[place] = text.to_string();
    fields
}

#[test]
fn new_keeps_every_value() {
    let task = full_task();
    assert_eq!(task.id, u64::MAX);
    assert_eq!(task.name, "ship, \"then\" rest");
    assert_eq!(task.desc, Some("two\nlines".to_string()));
    assert_eq!(task.cost, u32::MAX);
    assert_eq!(task.priority, 0);
    assert_eq!(task.date_created, Timestamp { secs: 1_431_648_000, nanos: 250_000_000, offset: 3600 });
    assert_eq!(task.date_completed, Some(Timestamp { secs: 1_431_648_060, nanos: 0, offset: -3600 }));
    assert_eq!(
        task.deadline,
        Some(Timestamp { secs: 1_435_708_799, nanos: 1_000_000_000, offset: 0 })
    );
    assert!(task.is_valid());
    assert_eq!(*task.get_id(), u64::MAX);
}

#[test]
fn new_refuses_an_empty_name() {
    assert_eq!(
        Task::new(1, String::new(), None, 1, 1, at(0), None, None),
        Err(InvalidTaskError::EmptyName)
    );
}

#[test]
fn new_refuses_an_empty_description() {
    assert_eq!(
        Task::new(1, "a".to_string(), Some(String::new()), 1, 1, at(0), None, None),
        Err(InvalidTaskError::EmptyDescription)
    );
}

#[test]
fn new_refuses_a_cost_of_zero() {
    assert_eq!(
        Task::new(1, "a".to_string(), None, 0, 1, at(0), None, None),
        Err(InvalidTaskError::ZeroCost)
    );
}

#[test]
fn new_refuses_a_moment_out_of_range() {
    let bad = Timestamp { secs: 0, nanos: 0, offset: 86_400 };
    assert_eq!(
        Task::new(1, "a".to_string(), None, 1, 1, bad, None, None),
        Err(InvalidTaskError::BadTimestamp)
    );
    assert_eq!(
        Task::new(1, "a".to_string(), None, 1, 1, at(0), Some(bad), None),
        Err(InvalidTaskError::BadTimestamp)
    );
    assert_eq!(
        Task::new(1, "a".to_string(), None, 1, 1, at(0), None, Some(bad)),
        Err(InvalidTaskError::BadTimestamp)
    );
}

#[test]
fn new_refuses_a_completion_before_the_creation() {
    assert_eq!(
        Task::new(1, "a".to_string(), None, 1, 1, at(100), Some(at(99)), None),
        Err(InvalidTaskError::CompletedBeforeCreated)
    );
    assert!(Task::new(1, "a".to_string(), None, 1, 1, at(100), Some(at(100)), None).is_ok());
}

#[test]
fn new_names_the_first_fault() {
    assert_eq!(
        Task::new(1, String::new(), Some(String::new()), 0, 1, at(100), Some(at(99)), None),
        Err(InvalidTaskError::EmptyName)
    );
    assert_eq!(
        Task::new(1, "a".to_string(), Some(String::new()), 0, 1, at(100), Some(at(99)), None),
        Err(InvalidTaskError::EmptyDescription)
    );
    assert_eq!(
        Task::new(1, "a".to_string(), None, 0, 1, at(100), Some(at(99)), None),
        Err(InvalidTaskError::ZeroCost)
    );
}

#[test]
fn is_valid_tells_a_made_up_task() {
    let mut task = plain_task();
    assert!(task.is_valid());
    task.cost = 0;
    assert!(!task.is_valid());
    task.cost = 1;
    task.name = String::new();
    assert!(!task.is_valid());
    task.name = "a".to_string();
    task.date_completed = Some(at(0));
    assert!(!task.is_valid());
}

#[test]
fn complete_sets_the_moment_and_nothing_else() {
    let done = plain_task().complete(at(1_431_650_000)).unwrap();
    let mut expected = plain_task();
    expected.date_completed = Some(at(1_431_650_000));
    assert_eq!(done, expected);
    assert!(done.is_valid());
}

#[test]
fn complete_refuses_a_second_time() {
    let done = plain_task().complete(at(1_431_650_000)).unwrap();
    assert_eq!(done.complete(at(1_431_660_000)), Err(InvalidTaskError::AlreadyCompleted));
}

#[test]
fn complete_refuses_a_moment_before_the_creation() {
    assert_eq!(
        plain_task().complete(at(1_431_647_999)),
        Err(InvalidTaskError::CompletedBeforeCreated)
    );
    assert!(plain_task().complete(at(1_431_648_000)).is_ok());
}

#[test]
fn complete_refuses_a_moment_out_of_range() {
    assert_eq!(
        plain_task().complete(Timestamp { secs: 1_500_000_000, nanos: 0, offset: 90_000 }),
        Err(InvalidTaskError::BadTimestamp)
    );
}

#[test]
fn clone_keeps_every_value() {
    assert_eq!(full_task().clone(), full_task());
}

#[test]
fn record_of_a_plain_task() {
    assert_eq!(plain_task().to_record(), Ok(good_fields()));
}

#[test]
fn record_of_a_full_task() {
    assert_eq!(
        full_task().to_record(),
        Ok(texts(&[
            "18446744073709551615",
            "ship, \"then\" rest",
            "two\nlines",
            "4294967295",
            "0",
            "2015-05-15T01:00:00.250+01:00",
            "2015-05-14T23:01:00-01:00",
            "2015-06-30T23:59:60+00:00",
        ]))
    );
}

#[test]
fn record_is_refused_where_a_moment_would_not_read_back() {
    let odd = Timestamp::new(1_431_648_000, 0, 61).unwrap();
    let mut task = plain_task();
    task.deadline = Some(odd);
    assert_eq!(task.to_record(), Err(UnwritableTaskError { field: 7 }));
    task.date_completed = Some(Timestamp::new(1_431_648_001, 0, 61).unwrap());
    assert_eq!(task.to_record(), Err(UnwritableTaskError { field: 6 }));
    task.date_created = odd;
    assert_eq!(task.to_record(), Err(UnwritableTaskError { field: 5 }));
}

#[test]
fn every_written_record_reads_back() {
    for task in [plain_task(), full_task(), plain_task().complete(at(1_500_000_000)).unwrap()] {
        let fields = task.to_record().unwrap();
        assert_eq!(fields.len(), 8);
        assert_eq!(Task::from_record(&fields, 0), Ok(task));
    }
}

#[test]
fn absent_values_are_empty_fields_and_read_back_as_absent() {
    let fields = plain_task().to_record().unwrap();
    assert_eq!(fields[2], "");
    assert_eq!(fields[6], "");
    assert_eq!(fields[7], "");
    let task = Task::from_record(&fields, 0).unwrap();
    assert_eq!(task.desc, None);
    assert_eq!(task.date_completed, None);
    assert_eq!(task.deadline, None);
}

#[test]
fn from_record_reads_a_good_record() {
    assert_eq!(Task::from_record(&good_fields(), 3), Ok(plain_task()));
}

#[test]
fn from_record_names_the_first_missing_field() {
    for count in 0..8 {
        let fields: Vec<String> = good_fields().into_iter().take(count).collect();
        assert_eq!(
            Task::from_record(&fields, 5),
            Err(MalformedRecordError { line: 5, field: count })
        );
    }
}

#[test]
fn from_record_names_the_first_surplus_field() {
    let mut fields = good_fields();
    fields.push("more".to_string());
    assert_eq!(Task::from_record(&fields, 2), Err(MalformedRecordError { line: 2, field: 8 }));
    fields.push("and more".to_string());
    assert_eq!(Task::from_record(&fields, 2), Err(MalformedRecordError { line: 2, field: 8 }));
}

#[test]
fn from_record_names_the_field_that_is_wrong() {
    let wrong = |place: usize, text: &str| {
        assert_eq!(
            Task::from_record(&with_field(place, text), 11),
            Err(MalformedRecordError { line: 11, field: place }),
            "field {place} as {text:?}"
        );
    };
    wrong(0, "");
    wrong(0, "seven");
    wrong(0, "-7");
    wrong(0, "18446744073709551616");
    wrong(1, "");
    wrong(3, "");
    wrong(3, "0");
    wrong(3, "4294967296");
    wrong(3, "1.5");
    wrong(4, "");
    wrong(4, "high");
    wrong(4, "4294967296");
    wrong(5, "");
    wrong(5, "2015-05-15");
    wrong(5, "Fri, 15 May 2015 00:00:00 +0000");
    wrong(6, "soon");
    wrong(6, "2015-05-14T23:59:59+00:00");
    wrong(7, "never");
    wrong(7, "2015-05-15T00:00:00");
}

#[test]
fn from_record_names_the_first_of_several_wrong_fields() {
    let mut fields = good_fields();
    fields[7] = "never".to_string();
    fields[4] = "high".to_string();
    assert_eq!(Task::from_record(&fields, 0), Err(MalformedRecordError { line: 0, field: 4 }));
    fields[0] = "x".to_string();
    assert_eq!(Task::from_record(&fields, 0), Err(MalformedRecordError { line: 0, field: 0 }));
}

#[test]
fn from_record_accepts_other_spellings_of_the_same_values() {
    let mut fields = good_fields();
    fields[0] = "+007".to_string();
    fields[5] = "2015-05-15T00:00:00Z".to_string();
    fields[2] = "notes".to_string();
    fields[7] = "2015-05-15t02:00:00+02:00".to_string();
    let task = Task::from_record(&fields, 0).unwrap();
    assert_eq!(task.id, 7);
    assert_eq!(task.date_created, at(1_431_648_000));
    assert_eq!(task.desc, Some("notes".to_string()));
    assert_eq!(task.deadline, Some(Timestamp { secs: 1_431_648_000, nanos: 0, offset: 7200 }));
}

#[test]
fn a_cell_for_every_column() {
    let task = full_task();
    assert_eq!(task.cell(&Column::Id), "18446744073709551615");
    assert_eq!(task.cell(&Column::Task), "ship, \"then\" rest");
    assert_eq!(task.cell(&Column::Desc), "two\nlines");
    assert_eq!(task.cell(&Column::Cost), "4294967295");
    assert_eq!(task.cell(&Column::Priority), "0");
    assert_eq!(task.cell(&Column::Created), "Fri, 15 May 2015 01:00:00 +0100");
    assert_eq!(task.cell(&Column::Completed), "Thu, 14 May 2015 23:01:00 -0100");
    assert_eq!(task.cell(&Column::Deadline), "Tue, 30 Jun 2015 23:59:60 +0000");
}

#[test]
fn absent_values_are_empty_cells() {
    let task = plain_task();
    assert_eq!(task.cell(&Column::Desc), "");
    assert_eq!(task.cell(&Column::Completed), "");
    assert_eq!(task.cell(&Column::Deadline), "");
}

#[test]
fn a_row_has_the_cells_of_the_visible_columns() {
    let task = plain_task().complete(at(1_431_651_600)).unwrap();
    assert_eq!(task.as_row(&ShowRule::Required), vec!["7", "write report", "30", "4", ""]);
    assert_eq!(
        task.as_row(&ShowRule::Complete),
        vec!["7", "write report", "30", "4", "Fri, 15 May 2015 01:00:00 +0000", ""]
    );
    assert_eq!(
        task.as_row(&ShowRule::Verbose),
        vec![
            "7",
            "write report",
            "",
            "30",
            "4",
            "Fri, 15 May 2015 01:00:00 +0000",
            "",
            "Fri, 15 May 2015 00:00:00 +0000"
        ]
    );
}

#[test]
fn a_row_is_as_long_as_its_headings() {
    for rule in [ShowRule::Required, ShowRule::Complete, ShowRule::Verbose] {
        assert_eq!(full_task().as_row(&rule).len(), Task::get_cols(&rule).len());
    }
}

#[test]
fn same_as_compares_every_field() {
    assert!(full_task().same_as(&full_task()));
    assert!(plain_task().same_as(&plain_task()));
    assert!(!plain_task().same_as(&full_task()));
    let changes: Vec<fn(&mut Task)> = vec![
        |task| task.id += 1,
        |task| task.name.push('x'),
        |task| task.desc = Some("other".to_string()),
        |task| task.cost += 1,
        |task| task.priority += 1,
        |task| task.date_created.nanos += 1,
        |task| task.date_created.offset += 60,
        |task| task.date_completed = Some(Timestamp::new(1_500_000_000, 0, 0).unwrap()),
        |task| task.deadline = Some(Timestamp::new(1_500_000_000, 0, 0).unwrap()),
    ];
    for change in changes {
        let mut other = plain_task();
        change(&mut other);
        assert!(!plain_task().same_as(&other));
        assert!(!other.same_as(&plain_task()));
    }
}

#[test]
fn validate_names_the_first_fault() {
    assert_eq!(plain_task().validate(), Ok(()));
    assert_eq!(full_task().validate(), Ok(()));
    let mut task = plain_task();
    task.date_completed = Some(at(0));
    assert_eq!(task.validate(), Err(InvalidTaskError::CompletedBeforeCreated));
    task.deadline = Some(Timestamp { secs: 0, nanos: 2_000_000_000, offset: 0 });
    assert_eq!(task.validate(), Err(InvalidTaskError::BadTimestamp));
    task.cost = 0;
    assert_eq!(task.validate(), Err(InvalidTaskError::ZeroCost));
    task.desc = Some(String::new());
    assert_eq!(task.validate(), Err(InvalidTaskError::EmptyDescription));
    task.name = String::new();
    assert_eq!(task.validate(), Err(InvalidTaskError::EmptyName));
}
