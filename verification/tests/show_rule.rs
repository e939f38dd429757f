use taskman::show_rule::{Column, ShowRule};
use taskman::task::Task;

#[test]
fn verbose_wins_over_complete() {
    assert_eq!(ShowRule::from(true, true), ShowRule::Verbose);
    assert_eq!(ShowRule::from(true, false), ShowRule::Verbose);
    assert_eq!(ShowRule::from(false, true), ShowRule::Complete);
    assert_eq!(ShowRule::from(false, false), ShowRule::Required);
}

#[test]
fn required_listing_shows_five_columns() {
    assert_eq!(
        Task::get_cols(&ShowRule::Required),
        vec!["id", "task", "cost", "priority", "deadline"]
    );
}

#[test]
fn complete_listing_adds_the_completion() {
    assert_eq!(
        Task::get_cols(&ShowRule::Complete),
        vec!["id", "task", "cost", "priority", "completed", "deadline"]
    );
}

#[test]
fn verbose_listing_shows_every_column() {
    assert_eq!(
        Task::get_cols(&ShowRule::Verbose),
        vec!["id", "task", "desc", "cost", "priority", "completed", "deadline", "created"]
    );
}

#[test]
fn a_column_is_visible_from_its_own_level_down() {
    assert!(Column::Completed.visible_at(&ShowRule::Complete));
    assert!(Column::Completed.visible_at(&ShowRule::Verbose));
    assert!(!Column::Completed.visible_at(&ShowRule::Required));
    assert!(!Column::Desc.visible_at(&ShowRule::Complete));
}
