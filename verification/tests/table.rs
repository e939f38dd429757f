use tabled::builder::Builder;
use taskman::comparible_task::ComparibleTask;
use taskman::show_rule::ShowRule;
use taskman::table::{completed_table, new_table, todo_table};
use taskman::task::Task;
use taskman::timestamp::Timestamp;

const NOW: i64 = 1_431_648_000;

fn at(secs: i64) -> Timestamp {
    Timestamp::new(secs, 0, 0).unwrap()
}

fn task(id: u64, name: &str) -> Task {
    Task::new(id, name.to_string(), None, 30, 4, at(NOW), None, None).unwrap()
}

fn scored() -> Vec<ComparibleTask> {
    Task::make_comparible(vec![task(1, "write report"), task(2, "call back")], &at(NOW))
}

fn rows(builder: Builder) -> Vec<Vec<String>> {
    Vec::<Vec<String>>::from(builder)
}

fn texts(cells: &[&str]) -> Vec<String> {
    cells.iter().map(|cell| cell.to_string()).collect()
}

#[test]
fn the_headings_of_scored_tasks_end_with_the_score() {
    assert_eq!(
        ComparibleTask::get_cols(&ShowRule::Required),
        vec!["id", "task", "cost", "priority", "deadline", "score"]
    );
    assert_eq!(ComparibleTask::get_cols(&ShowRule::Verbose).len(), 9);
}

#[test]
fn the_row_of_a_scored_task_ends_with_the_score() {
    let tasks = scored();
    assert_eq!(
        tasks[0].to_row(&ShowRule::Required, "0.0942"),
        vec!["1", "write report", "30", "4", "", "0.0942"]
    );
}

#[test]
fn a_table_of_scored_tasks_has_headings_and_a_row_each() {
    let tasks = scored();
    let scores = texts(&["0.09", "0.08"]);
    assert_eq!(
        rows(todo_table(&tasks, &scores, &ShowRule::Required)),
        vec![
            texts(&["id", "task", "cost", "priority", "deadline", "score"]),
            texts(&["1", "write report", "30", "4", "", "0.09"]),
            texts(&["2", "call back", "30", "4", "", "0.08"]),
        ]
    );
}

#[test]
fn a_table_of_no_tasks_has_the_headings_alone() {
    assert_eq!(
        rows(todo_table(&Vec::new(), &Vec::new(), &ShowRule::Complete)),
        vec![texts(&["id", "task", "cost", "priority", "completed", "deadline", "score"])]
    );
    assert_eq!(
        rows(completed_table(&Vec::new(), &ShowRule::Required)),
        vec![texts(&["id", "task", "cost", "priority", "deadline"])]
    );
}

#[test]
fn add_tasks_to_table_fills_a_fresh_builder() {
    let tasks = scored();
    let scores = texts(&["a", "b"]);
    let mut builder = Builder::new();
    ComparibleTask::add_tasks_to_table(&tasks, &scores, &mut builder, &ShowRule::Verbose);
    assert_eq!(builder.count_records(), 3);
    assert_eq!(builder.count_columns(), 9);
    let rows = rows(builder);
    assert_eq!(rows[0], texts(&["id", "task", "desc", "cost", "priority", "completed", "deadline", "created", "score"]));
    assert_eq!(
        rows[2],
        texts(&["2", "call back", "", "30", "4", "", "", "Fri, 15 May 2015 00:00:00 +0000", "b"])
    );
}

#[test]
fn a_table_of_completed_tasks_has_headings_and_a_row_each() {
    let done = vec![
        task(1, "write report").complete(at(NOW + 3600)).unwrap(),
        task(2, "call back").complete(at(NOW + 7200)).unwrap(),
    ];
    assert_eq!(
        rows(completed_table(&done, &ShowRule::Complete)),
        vec![
            texts(&["id", "task", "cost", "priority", "completed", "deadline"]),
            texts(&["1", "write report", "30", "4", "Fri, 15 May 2015 01:00:00 +0000", ""]),
            texts(&["2", "call back", "30", "4", "Fri, 15 May 2015 02:00:00 +0000", ""]),
        ]
    );
}

#[test]
fn a_built_table_shows_the_cells() {
    let table = completed_table(&vec![task(1, "write report")], &ShowRule::Required).build();
    let shown = table.to_string();
    assert!(shown.contains("write report"));
    assert!(shown.contains("priority"));
    assert_eq!(shown.lines().count(), 5);
}

#[test]
fn a_new_table_holds_nothing() {
    let builder = new_table();
    assert_eq!(builder.count_records(), 0);
    assert_eq!(builder.count_columns(), 0);
    assert_eq!(rows(builder), Vec::<Vec<String>>::new());
}

#[test]
fn add_tasks_to_table_fills_a_table_from_new_table() {
    let tasks = scored();
    let mut builder = new_table();
    ComparibleTask::add_tasks_to_table(&tasks, &texts(&["a", "b"]), &mut builder, &ShowRule::Required);
    assert_eq!(
        rows(builder),
        vec![
            texts(&["id", "task", "cost", "priority", "deadline", "score"]),
            texts(&["1", "write report", "30", "4", "", "a"]),
            texts(&["2", "call back", "30", "4", "", "b"]),
        ]
    );
}

#[test]
fn add_tasks_to_table_follows_the_rows_that_are_there() {
    let tasks = scored();
    let mut builder = Builder::new();
    builder.push_record(["one", "two", "three", "four", "five", "six"]);
    ComparibleTask::add_tasks_to_table(&tasks, &texts(&["a", "b"]), &mut builder, &ShowRule::Required);
    assert_eq!(
        rows(builder),
        vec![
            texts(&["one", "two", "three", "four", "five", "six"]),
            texts(&["id", "task", "cost", "priority", "deadline", "score"]),
            texts(&["1", "write report", "30", "4", "", "a"]),
            texts(&["2", "call back", "30", "4", "", "b"]),
        ]
    );
}

#[test]
fn add_tasks_to_table_fills_up_shorter_rows_that_are_there() {
    let tasks = scored();
    let mut builder = Builder::new();
    builder.set_empty("-");
    builder.push_record(["one", "two"]);
    builder.push_record(["three"]);
    ComparibleTask::add_tasks_to_table(&tasks, &texts(&["a", "b"]), &mut builder, &ShowRule::Required);
    assert_eq!(builder.count_columns(), 6);
    assert_eq!(
        rows(builder),
        vec![
            texts(&["one", "two", "-", "-", "-", "-"]),
            texts(&["three", "-", "-", "-", "-", "-"]),
            texts(&["id", "task", "cost", "priority", "deadline", "score"]),
            texts(&["1", "write report", "30", "4", "", "a"]),
            texts(&["2", "call back", "30", "4", "", "b"]),
        ]
    );
}

#[test]
fn add_tasks_to_table_fills_up_its_rows_in_a_wider_table() {
    let tasks = scored();
    let mut builder = Builder::new();
    builder.set_empty("~");
    builder.push_record(["1", "2", "3", "4", "5", "6", "7", "8"]);
    ComparibleTask::add_tasks_to_table(&tasks, &texts(&["a", "b"]), &mut builder, &ShowRule::Required);
    assert_eq!(builder.count_columns(), 8);
    assert_eq!(
        rows(builder),
        vec![
            texts(&["1", "2", "3", "4", "5", "6", "7", "8"]),
            texts(&["id", "task", "cost", "priority", "deadline", "score", "~", "~"]),
            texts(&["1", "write report", "30", "4", "", "a", "~", "~"]),
            texts(&["2", "call back", "30", "4", "", "b", "~", "~"]),
        ]
    );
}

#[test]
fn add_tasks_to_table_pushes_one_record_for_the_headings_and_one_for_each_task() {
    let tasks = scored();
    let mut builder = Builder::new();
    builder.push_record(["x"]);
    ComparibleTask::add_tasks_to_table(&tasks, &texts(&["a", "b"]), &mut builder, &ShowRule::Verbose);
    assert_eq!(builder.count_records(), 1 + 1 + tasks.len());
}
