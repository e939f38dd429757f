//! Listings as tables of texts: a row of headings, then one row for each
//! task. The rows are collected in a `tabled::builder::Builder`, from which
//! the caller builds and prints the table.

use vstd::prelude::*;
use tabled::builder::Builder;
use crate::comparible_task::{ComparibleTask, ComparibleTaskView};
use crate::row::{column_titles, row_cells};
use crate::show_rule::ShowRule;
use crate::task::{Task, TaskView};
use crate::text::lemma_deep_view_push;

verus! {

/// The builder of `tabled`, as a value that is handed through.
#[verifier::external_type_specification]
#[verifier::external_body]
pub struct ExBuilder(tabled::builder::Builder);

/// The rows that a builder holds, in the order in which they were pushed.
pub uninterp spec fn builder_rows(builder: Builder) -> Seq<Seq<Seq<char>>>;

/// The number of cells that a builder counts for its rows.
pub uninterp spec fn builder_width(builder: Builder) -> nat;

/// The text of the cells that a builder adds where rows differ in length.
pub uninterp spec fn builder_filler(builder: Builder) -> Seq<char>;

/// A row with `count` cells of `filler` after it; the row itself where
/// `count` is not above zero.
pub open spec fn padded(row: Seq<Seq<char>>, filler: Seq<char>, count: int) -> Seq<Seq<char>> {
    row + Seq::new(
        if count > 0 {
            count as nat
        } else {
            0
        },
        |i: int| filler,
    )
}

/// The rows of a builder once a record is pushed. A record that is shorter
/// than the builder's width is filled up to it; a record that is longer makes
/// the builder fill up every row that is there by the difference.
pub open spec fn pushed_rows(
    rows: Seq<Seq<Seq<char>>>,
    width: nat,
    filler: Seq<char>,
    record: Seq<Seq<char>>,
) -> Seq<Seq<Seq<char>>> {
    rows.map_values(|row: Seq<Seq<char>>| padded(row, filler, record.len() - width)).push(
        padded(record, filler, width - record.len()),
    )
}

/// The width of a builder once a record is pushed: the larger of the two.
pub open spec fn pushed_width(width: nat, record: Seq<Seq<char>>) -> nat {
    if record.len() > width {
        record.len()
    } else {
        width
    }
}

/// The rows and the width of a builder once the records are pushed, one after
/// the other.
pub open spec fn pushed_all(
    rows: Seq<Seq<Seq<char>>>,
    width: nat,
    filler: Seq<char>,
    records: Seq<Seq<Seq<char>>>,
) -> (Seq<Seq<Seq<char>>>, nat)
    decreases records.len(),
{
    if records.len() == 0 {
        (rows, width)
    } else {
        let before = pushed_all(rows, width, filler, records.drop_last());
        (
            pushed_rows(before.0, before.1, filler, records.last()),
            pushed_width(before.1, records.last()),
        )
    }
}

/// A record as wide as the builder, or any record at least as wide as a
/// builder without rows, is pushed as it is and sets the width.
pub proof fn lemma_push_of_fitting_record(
    rows: Seq<Seq<Seq<char>>>,
    width: nat,
    filler: Seq<char>,
    record: Seq<Seq<char>>,
)
    requires
        record.len() == width || (rows.len() == 0 && record.len() >= width),
    ensures
        pushed_rows(rows, width, filler, record) == rows.push(record),
        pushed_width(width, record) == record.len(),
{
    let kept = rows.map_values(|row: Seq<Seq<char>>| padded(row, filler, record.len() - width));
    assert forall|i: int| 0 <= i < rows.len() implies kept[i] == rows[i] by {
        assert(padded(rows[i], filler, 0) =~= rows[i]);
    }
    assert(kept =~= rows);
    assert(padded(record, filler, width - record.len()) =~= record);
}

/// Records of one length, pushed into a builder of that width or into one
/// without rows that is no wider, follow the rows that are there as they are.
pub proof fn lemma_push_of_fitting_records(
    rows: Seq<Seq<Seq<char>>>,
    width: nat,
    filler: Seq<char>,
    records: Seq<Seq<Seq<char>>>,
    length: nat,
)
    requires
        forall|i: int| 0 <= i < records.len() ==> (#[trigger] records[i]).len() == length,
        width == length || (rows.len() == 0 && width <= length),
    ensures
        pushed_all(rows, width, filler, records).0 == rows + records,
        records.len() > 0 ==> pushed_all(rows, width, filler, records).1 == length,
        records.len() == 0 ==> pushed_all(rows, width, filler, records).1 == width,
    decreases records.len(),
{
    if records.len() == 0 {
        assert(rows + records =~= rows);
    } else {
        let front = records.drop_last();
        assert forall|i: int| 0 <= i < front.len() implies (#[trigger] front[i]).len()
            == length by {
            assert(front[i] == records[i]);
        }
        lemma_push_of_fitting_records(rows, width, filler, front, length);
        let before = pushed_all(rows, width, filler, front);
        assert(before.0.len() == rows.len() + front.len());
        lemma_push_of_fitting_record(before.0, before.1, filler, records.last());
        assert((rows + front).push(records.last()) =~= rows + records);
    }
}

/// The heading of the column that shows the score.
pub const SCORE_TITLE: &'static str = "score";

/// The headings of a listing of scored tasks at `rule`.
pub open spec fn scored_titles(rule: ShowRule) -> Seq<Seq<char>> {
    column_titles(rule).push(SCORE_TITLE@)
}

/// The cells of a scored task at `rule`, the text of its score last.
pub open spec fn scored_cells(task: TaskView, rule: ShowRule, score_text: Seq<char>) -> Seq<
    Seq<char>,
> {
    row_cells(task, rule).push(score_text)
}

/// The rows of a listing of tasks at `rule`, without the headings.
pub open spec fn task_rows(tasks: Seq<TaskView>, rule: ShowRule) -> Seq<Seq<Seq<char>>> {
    tasks.map_values(|task: TaskView| row_cells(task, rule))
}

/// The rows of a listing of scored tasks at `rule`, without the headings.
pub open spec fn scored_rows(
    tasks: Seq<ComparibleTaskView>,
    score_texts: Seq<Seq<char>>,
    rule: ShowRule,
) -> Seq<Seq<Seq<char>>> {
    Seq::new(tasks.len(), |i: int| scored_cells(tasks[i].task, rule, score_texts[i]))
}

impl ComparibleTask {
    /// The headings of a listing of scored tasks at `show_rule`.
    pub fn get_cols(show_rule: &ShowRule) -> (r: Vec<&'static str>)
        ensures
            r.deep_view() == scored_titles(*show_rule),
    {
        let mut titles = Task::get_cols(show_rule);
        let ghost before = titles;
        titles.push(SCORE_TITLE);
        proof {
            lemma_deep_view_push(before, titles, SCORE_TITLE);
        }
        titles
    }

    /// The cells of the task in a listing at `show_rule`, the text of its
    /// score last.
    pub fn to_row(&self, show_rule: &ShowRule, score_text: &str) -> (r: Vec<String>)
        requires
            self.wf(),
        ensures
            r.deep_view() == scored_cells(self@.task, *show_rule, score_text@),
    {
        let mut cells = self.task.as_row(show_rule);
        let ghost before = cells;
        let text = score_text.to_owned();
        cells.push(text);
        proof {
            lemma_deep_view_push(before, cells, text);
        }
        cells
    }

    /// Pushes the headings and then one row for each task into a builder, as
    /// `push_record` does: after the rows that the builder holds, each record
    /// filled up to the builder's width, or the rows that are there filled up
    /// to the record's. `score_texts` gives the text of each score.
    pub fn add_tasks_to_table(
        tasks: &Vec<ComparibleTask>,
        score_texts: &Vec<String>,
        builder: &mut Builder,
        show_rule: &ShowRule,
    )
        requires
            score_texts.len() == tasks.len(),
            forall|i: int| 0 <= i < tasks.len() ==> (#[trigger] tasks[i]).wf(),
        ensures
            ({
                let records = seq![scored_titles(*show_rule)] + scored_rows(
                    tasks.deep_view(),
                    score_texts.deep_view(),
                    *show_rule,
                );
                let pushed = pushed_all(
                    builder_rows(*old(builder)),
                    builder_width(*old(builder)),
                    builder_filler(*old(builder)),
                    records,
                );
                &&& builder_rows(*final(builder)) == pushed.0
                &&& builder_width(*final(builder)) == pushed.1
                &&& builder_filler(*final(builder)) == builder_filler(*old(builder))
                &&& builder_rows(*old(builder)).len() == 0 && builder_width(*old(builder)) == 0
                    ==> builder_rows(*final(builder)) == records
            }),
    {
        let ghost start_rows = builder_rows(*builder);
        let ghost start_width = builder_width(*builder);
        let ghost filler = builder_filler(*builder);
        let ghost rows = scored_rows(tasks.deep_view(), score_texts.deep_view(), *show_rule);
        let ghost records = seq![scored_titles(*show_rule)] + rows;
        let titles = owned_texts(&ComparibleTask::get_cols(show_rule));
        proof {
            assert(records.take(1) =~= seq![scored_titles(*show_rule)]);
            assert(records.take(1).drop_last() =~= Seq::<Seq<Seq<char>>>::empty());
            assert(pushed_all(start_rows, start_width, filler, records.take(1).drop_last()) == (
                start_rows,
                start_width,
            ));
        }
        push_record(builder, titles);
        let mut i: usize = 0;
        while i < tasks.len()
            invariant
                i <= tasks.len(),
                score_texts.len() == tasks.len(),
                forall|k: int| 0 <= k < tasks.len() ==> (#[trigger] tasks[k]).wf(),
                rows == scored_rows(tasks.deep_view(), score_texts.deep_view(), *show_rule),
                records == seq![scored_titles(*show_rule)] + rows,
                builder_filler(*builder) == filler,
                (builder_rows(*builder), builder_width(*builder)) == pushed_all(
                    start_rows,
                    start_width,
                    filler,
                    records.take(i + 1),
                ),
            decreases tasks.len() - i,
        {
            let cells = tasks[i].to_row(show_rule, score_texts[i].as_str());
            proof {
                assert(tasks.deep_view()[i as int] == tasks[i as int]@);
                assert(score_texts.deep_view()[i as int] == score_texts[i as int]@);
                assert(cells.deep_view() == rows[i as int]);
                assert(records.take(i + 2).drop_last() =~= records.take(i + 1));
                assert(records.take(i + 2).last() == rows[i as int]);
            }
            push_record(builder, cells);
            i += 1;
        }
        proof {
            assert(records.take(i + 1) =~= records);
            if start_rows.len() == 0 && start_width == 0 {
                let length = scored_titles(*show_rule).len();
                assert forall|k: int| 0 <= k < records.len() implies (#[trigger] records[k]).len()
                    == length by {
                    if k > 0 {
                        assert(records[k] == rows[k - 1]);
                    }
                }
                lemma_push_of_fitting_records(start_rows, start_width, filler, records, length);
                assert(start_rows + records =~= records);
            }
        }
    }
}

fn owned_texts(texts: &Vec<&'static str>) -> (r: Vec<String>)
    ensures
        r.deep_view() == texts.deep_view(),
{
    let mut out: Vec<String> = Vec::new();
    let mut i: usize = 0;
    while i < texts.len()
        invariant
            i <= texts.len(),
            out.deep_view() == texts.deep_view().take(i as int),
        decreases texts.len() - i,
    {
        let text = texts[i].to_owned();
        let ghost before = out;
        out.push(text);
        proof {
            lemma_deep_view_push(before, out, text);
            assert(out.deep_view() =~= texts.deep_view().take(i + 1));
        }
        i += 1;
    }
    assert(texts.deep_view().take(i as int) == texts.deep_view());
    out
}

/// The table of a listing of scored tasks at `show_rule`: the headings, then
/// one row for each task in the order given. `score_texts` gives the text of
/// each score.
pub fn todo_table(
    tasks: &Vec<ComparibleTask>,
    score_texts: &Vec<String>,
    show_rule: &ShowRule,
) -> (r: Builder)
    requires
        score_texts.len() == tasks.len(),
        forall|i: int| 0 <= i < tasks.len() ==> (#[trigger] tasks[i]).wf(),
    ensures
        builder_rows(r) == seq![scored_titles(*show_rule)] + scored_rows(
            tasks.deep_view(),
            score_texts.deep_view(),
            *show_rule,
        ),
{
    let mut builder = new_table();
    ComparibleTask::add_tasks_to_table(tasks, score_texts, &mut builder, show_rule);
    builder
}

/// The table of a listing of tasks at `show_rule`: the headings, then one row
/// for each task in the order given.
pub fn completed_table(tasks: &Vec<Task>, show_rule: &ShowRule) -> (r: Builder)
    requires
        forall|i: int| 0 <= i < tasks.len() ==> (#[trigger] tasks[i]).wf(),
    ensures
        builder_rows(r) == seq![column_titles(*show_rule)] + task_rows(
            tasks.deep_view(),
            *show_rule,
        ),
{
    let mut builder = new_table();
    let titles = owned_texts(&Task::get_cols(show_rule));
    let ghost width = titles.len();
    let ghost filler = builder_filler(builder);
    proof {
        lemma_push_of_fitting_record(builder_rows(builder), 0, filler, titles.deep_view());
    }
    push_record(&mut builder, titles);
    let ghost rows = task_rows(tasks.deep_view(), *show_rule);
    let mut i: usize = 0;
    assert(builder_rows(builder) =~= seq![column_titles(*show_rule)] + rows.take(0));
    while i < tasks.len()
        invariant
            i <= tasks.len(),
            forall|k: int| 0 <= k < tasks.len() ==> (#[trigger] tasks[k]).wf(),
            rows == task_rows(tasks.deep_view(), *show_rule),
            width == column_titles(*show_rule).len(),
            builder_width(builder) == width,
            builder_filler(builder) == filler,
            builder_rows(builder) == seq![column_titles(*show_rule)] + rows.take(i as int),
        decreases tasks.len() - i,
    {
        let cells = tasks[i].as_row(show_rule);
        proof {
            assert(tasks.deep_view()[i as int] == tasks[i as int]@);
            assert(cells.deep_view() == rows[i as int]);
            lemma_push_of_fitting_record(
                builder_rows(builder),
                builder_width(builder),
                filler,
                cells.deep_view(),
            );
        }
        push_record(&mut builder, cells);
        assert(builder_rows(builder) =~= seq![column_titles(*show_rule)] + rows.take(i + 1));
        i += 1;
    }
    assert(rows.take(i as int) == rows);
    builder
}

/// A builder that holds nothing yet: no rows, no width, and nothing to fill
/// rows up with but the empty text.
pub fn new_table() -> (r: Builder)
    ensures
        builder_rows(r).len() == 0,
        builder_width(r) == 0,
        builder_filler(r).len() == 0,
{
    new_builder()
}

/// Calls `tabled::builder::Builder::new`: a builder without rows and of no
/// width, whose filler is the empty text.
#[verifier::external_body]
fn new_builder() -> (r: Builder)
    ensures
        builder_rows(r).len() == 0,
        builder_width(r) == 0,
        builder_filler(r).len() == 0,
{
    Builder::new()
}

/// Calls `tabled::builder::Builder::push_record`. The record is filled up
/// with the builder's filler to the builder's width; where the record is the
/// longer, every row that is there is filled up by the difference. The record
/// follows the rows, the width is the larger of the two, and the filler
/// stays.
#[verifier::external_body]
fn push_record(builder: &mut Builder, record: Vec<String>)
    ensures
        builder_rows(*final(builder)) == pushed_rows(
            builder_rows(*old(builder)),
            builder_width(*old(builder)),
            builder_filler(*old(builder)),
            record.deep_view(),
        ),
        builder_width(*final(builder)) == pushed_width(
            builder_width(*old(builder)),
            record.deep_view(),
        ),
        builder_filler(*final(builder)) == builder_filler(*old(builder)),
{
    builder.push_record(record);
}

} // verus!
