//! A task as a row of texts, one cell for each column that a listing shows.

use vstd::prelude::*;
use crate::decimal::{decimal_text, format_u64};
use crate::show_rule::{columns, visible_columns, Column, ShowRule};
use crate::task::{Task, TaskView};
use crate::text::lemma_deep_view_push;
use crate::timestamp::{rfc2822_text, Timestamp};

verus! {

/// The text shown for a moment that may be absent: empty where it is.
pub open spec fn optional_moment_cell(moment: Option<Timestamp>) -> Seq<char> {
    match moment {
        Some(at) => rfc2822_text(at.secs, at.nanos, at.offset),
        None => Seq::empty(),
    }
}

/// The text of one cell: numbers in decimal, moments in RFC 2822 form, and
/// nothing for what is absent.
pub open spec fn cell_text(task: TaskView, column: Column) -> Seq<char> {
    match column {
        Column::Id => decimal_text(task.id as nat),
        Column::Task => task.name,
        Column::Desc => match task.desc {
            Some(text) => text,
            None => Seq::empty(),
        },
        Column::Cost => decimal_text(task.cost as nat),
        Column::Priority => decimal_text(task.priority as nat),
        Column::Completed => optional_moment_cell(task.date_completed),
        Column::Deadline => optional_moment_cell(task.deadline),
        Column::Created => rfc2822_text(
            task.date_created.secs,
            task.date_created.nanos,
            task.date_created.offset,
        ),
    }
}

/// The headings of the columns that a listing at `rule` shows.
pub open spec fn column_titles(rule: ShowRule) -> Seq<Seq<char>> {
    visible_columns(rule).map_values(|column: Column| column.title())
}

/// The cells of a task in a listing at `rule`.
pub open spec fn row_cells(task: TaskView, rule: ShowRule) -> Seq<Seq<char>> {
    visible_columns(rule).map_values(|column: Column| cell_text(task, column))
}

fn optional_moment_display(moment: &Option<Timestamp>) -> (r: String)
    requires
        moment is Some ==> moment.unwrap().wf(),
    ensures
        r@ == optional_moment_cell(*moment),
{
    match moment {
        Some(at) => at.to_rfc2822(),
        None => String::new(),
    }
}

impl Task {
    /// The text of one cell of the task.
    pub fn cell(&self, column: &Column) -> (r: String)
        requires
            self.wf(),
        ensures
            r@ == cell_text(self@, *column),
    {
        match column {
            Column::Id => format_u64(self.id),
            Column::Task => self.name.clone(),
            Column::Desc => match &self.desc {
                Some(text) => text.clone(),
                None => String::new(),
            },
            Column::Cost => format_u64(self.cost as u64),
            Column::Priority => format_u64(self.priority as u64),
            Column::Completed => optional_moment_display(&self.date_completed),
            Column::Deadline => optional_moment_display(&self.deadline),
            Column::Created => self.date_created.to_rfc2822(),
        }
    }

    /// The headings of the columns that a listing at `show_rule` shows.
    pub fn get_cols(show_rule: &ShowRule) -> (r: Vec<&'static str>)
        ensures
            r.deep_view() == column_titles(*show_rule),
    {
        let shown = columns(show_rule);
        let mut out: Vec<&'static str> = Vec::new();
        let mut i: usize = 0;
        while i < shown.len()
            invariant
                i <= shown.len(),
                shown@ == visible_columns(*show_rule),
                out.deep_view() == column_titles(*show_rule).take(i as int),
            decreases shown.len() - i,
        {
            let ghost before = out;
            let title = shown[i].name();
            out.push(title);
            proof {
                lemma_deep_view_push(before, out, title);
                assert(out.deep_view() =~= column_titles(*show_rule).take(i + 1));
            }
            i += 1;
        }
        assert(column_titles(*show_rule).take(i as int) == column_titles(*show_rule));
        out
    }

    /// The cells of the task in a listing at `show_rule`.
    pub fn as_row(&self, show_rule: &ShowRule) -> (r: Vec<String>)
        requires
            self.wf(),
        ensures
            r.deep_view() == row_cells(self@, *show_rule),
    {
        let shown = columns(show_rule);
        let mut out: Vec<String> = Vec::new();
        let mut i: usize = 0;
        while i < shown.len()
            invariant
                i <= shown.len(),
                self.wf(),
                shown@ == visible_columns(*show_rule),
                out.deep_view() == row_cells(self@, *show_rule).take(i as int),
            decreases shown.len() - i,
        {
            let ghost before = out;
            let text = self.cell(&shown[i]);
            out.push(text);
            proof {
                lemma_deep_view_push(before, out, text);
                assert(out.deep_view() =~= row_cells(self@, *show_rule).take(i + 1));
            }
            i += 1;
        }
        assert(row_cells(self@, *show_rule).take(i as int) == row_cells(self@, *show_rule));
        out
    }
}

} // verus!
