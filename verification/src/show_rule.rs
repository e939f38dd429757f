//! How much of a task a listing shows.

use vstd::prelude::*;

verus! {

/// A level of detail. A listing at `Required` shows the fewest columns, one at
/// `Complete` also what belongs to finished tasks, one at `Verbose` all.
#[derive(Clone, Copy, Debug, PartialEq, Eq, Structural)]
pub enum ShowRule {
    Verbose,
    Complete,
    Required,
}

/// The named fields of a task, in the order in which a listing shows them.
#[derive(Clone, Copy, Debug, PartialEq, Eq, Structural)]
pub enum Column {
    Id,
    Task,
    Desc,
    Cost,
    Priority,
    Completed,
    Deadline,
    Created,
}

impl ShowRule {
    /// The place of a level in the order from most to least detail.
    pub open spec fn rank(self) -> nat {
        match self {
            ShowRule::Verbose => 0,
            ShowRule::Complete => 1,
            ShowRule::Required => 2,
        }
    }

    /// The level that two switches ask for: `verbose` wins over `complete`.
    pub fn from(verbose: bool, complete: bool) -> (r: ShowRule)
        ensures
            verbose ==> r == ShowRule::Verbose,
            !verbose && complete ==> r == ShowRule::Complete,
            !verbose && !complete ==> r == ShowRule::Required,
    {
        if verbose {
            ShowRule::Verbose
        } else if complete {
            ShowRule::Complete
        } else {
            ShowRule::Required
        }
    }

    /// The place of this level in the order from most to least detail.
    pub fn level(&self) -> (r: u8)
        ensures
            r == self.rank(),
    {
        match self {
            ShowRule::Verbose => 0,
            ShowRule::Complete => 1,
            ShowRule::Required => 2,
        }
    }

    /// Whether a listing at this level shows a column that carries `tag`.
    pub open spec fn shows(self, tag: ShowRule) -> bool {
        tag.rank() >= self.rank()
    }
}

impl Column {
    /// The least detailed level at which the column is still shown.
    pub open spec fn tag(self) -> ShowRule {
        match self {
            Column::Id => ShowRule::Required,
            Column::Task => ShowRule::Required,
            Column::Desc => ShowRule::Verbose,
            Column::Cost => ShowRule::Required,
            Column::Priority => ShowRule::Required,
            Column::Completed => ShowRule::Complete,
            Column::Deadline => ShowRule::Required,
            Column::Created => ShowRule::Verbose,
        }
    }

    /// The heading of the column.
    pub open spec fn title(self) -> Seq<char> {
        match self {
            Column::Id => "id"@,
            Column::Task => "task"@,
            Column::Desc => "desc"@,
            Column::Cost => "cost"@,
            Column::Priority => "priority"@,
            Column::Completed => "completed"@,
            Column::Deadline => "deadline"@,
            Column::Created => "created"@,
        }
    }

    /// The least detailed level at which the column is still shown.
    pub fn visibility(&self) -> (r: ShowRule)
        ensures
            r == self.tag(),
    {
        match self {
            Column::Id => ShowRule::Required,
            Column::Task => ShowRule::Required,
            Column::Desc => ShowRule::Verbose,
            Column::Cost => ShowRule::Required,
            Column::Priority => ShowRule::Required,
            Column::Completed => ShowRule::Complete,
            Column::Deadline => ShowRule::Required,
            Column::Created => ShowRule::Verbose,
        }
    }

    /// The heading of the column.
    pub fn name(&self) -> (r: &'static str)
        ensures
            r@ == self.title(),
    {
        match self {
            Column::Id => "id",
            Column::Task => "task",
            Column::Desc => "desc",
            Column::Cost => "cost",
            Column::Priority => "priority",
            Column::Completed => "completed",
            Column::Deadline => "deadline",
            Column::Created => "created",
        }
    }

    /// Whether a listing at `rule` shows the column.
    pub fn visible_at(&self, rule: &ShowRule) -> (r: bool)
        ensures
            r == rule.shows(self.tag()),
    {
        self.visibility().level() >= rule.level()
    }
}

/// Every column, in listing order.
pub open spec fn all_columns() -> Seq<Column> {
    seq![
        Column::Id,
        Column::Task,
        Column::Desc,
        Column::Cost,
        Column::Priority,
        Column::Completed,
        Column::Deadline,
        Column::Created,
    ]
}

/// The columns that a listing at `rule` shows, in listing order.
pub open spec fn visible_columns(rule: ShowRule) -> Seq<Column> {
    all_columns().filter(|c: Column| rule.shows(c.tag()))
}

/// The columns that a listing at `rule` shows, in listing order.
pub fn columns(rule: &ShowRule) -> (r: Vec<Column>)
    ensures
        r@ == visible_columns(*rule),
{
    let all: Vec<Column> = vec![
        Column::Id,
        Column::Task,
        Column::Desc,
        Column::Cost,
        Column::Priority,
        Column::Completed,
        Column::Deadline,
        Column::Created,
    ];
    assert(all@ == all_columns());
    let ghost shown = |c: Column| rule.shows(c.tag());
    let mut out: Vec<Column> = Vec::new();
    let mut i: usize = 0;
    assert(all@.take(0).filter(shown) == Seq::<Column>::empty()) by {
        reveal(Seq::filter);
    }
    while i < all.len()
        invariant
            i <= all.len(),
            all@ == all_columns(),
            shown == |c: Column| rule.shows(c.tag()),
            out@ == all@.take(i as int).filter(shown),
        decreases all.len() - i,
    {
        let column: Column = all[i];
        proof {
            reveal(Seq::filter);
            assert(all@.take(i + 1).drop_last() == all@.take(i as int));
        }
        if column.visible_at(rule) {
            out.push(column);
        }
        i += 1;
    }
    assert(all@.take(all@.len() as int) == all@);
    out
}

} // verus!
