//! A task together with its score.

use vstd::prelude::*;
use vstd::std_specs::cmp::{PartialEqSpecImpl, PartialOrdSpecImpl};
use std::cmp::Ordering;
use crate::score::{exceeds, ties, Score};
use crate::task::{Task, TaskView};

verus! {

/// A task and the score that it has in its batch.
#[derive(Debug)]
pub struct ComparibleTask {
    pub task: Task,
    pub comparitor: Score,
}

/// What a scored task holds, with its texts as sequences of characters.
pub struct ComparibleTaskView {
    pub task: TaskView,
    pub comparitor: Score,
}

impl View for ComparibleTask {
    type V = ComparibleTaskView;

    open spec fn view(&self) -> ComparibleTaskView {
        ComparibleTaskView { task: self.task@, comparitor: self.comparitor }
    }
}

impl DeepView for ComparibleTask {
    type V = ComparibleTaskView;

    open spec fn deep_view(&self) -> ComparibleTaskView {
        self@
    }
}

impl ComparibleTaskView {
    /// Whether the task is valid and the score can be its own.
    pub open spec fn wf(self) -> bool {
        &&& self.task.wf()
        &&& self.comparitor.wf()
        &&& self.comparitor.cost == self.task.cost
    }
}

impl Clone for ComparibleTask {
    fn clone(&self) -> (r: ComparibleTask)
        ensures
            r@ == self@,
    {
        ComparibleTask { task: self.task.clone(), comparitor: self.comparitor }
    }
}

/// Two scored tasks are equal where their scores are: neither is above the
/// other.
impl PartialEq for ComparibleTask {
    fn eq(&self, other: &ComparibleTask) -> (r: bool) {
        !self.comparitor.is_above(&other.comparitor) && !other.comparitor.is_above(
            &self.comparitor,
        )
    }
}

impl PartialEqSpecImpl for ComparibleTask {
    open spec fn obeys_eq_spec() -> bool {
        true
    }

    open spec fn eq_spec(&self, other: &ComparibleTask) -> bool {
        ties(self.comparitor, other.comparitor)
    }
}

/// Scored tasks are ordered by their scores.
impl PartialOrd for ComparibleTask {
    fn partial_cmp(&self, other: &ComparibleTask) -> (r: Option<Ordering>) {
        if self.comparitor.is_above(&other.comparitor) {
            Some(Ordering::Greater)
        } else if other.comparitor.is_above(&self.comparitor) {
            Some(Ordering::Less)
        } else {
            Some(Ordering::Equal)
        }
    }
}

impl PartialOrdSpecImpl for ComparibleTask {
    open spec fn obeys_partial_cmp_spec() -> bool {
        true
    }

    open spec fn partial_cmp_spec(&self, other: &ComparibleTask) -> Option<Ordering> {
        if exceeds(self.comparitor, other.comparitor) {
            Some(Ordering::Greater)
        } else if exceeds(other.comparitor, self.comparitor) {
            Some(Ordering::Less)
        } else {
            Some(Ordering::Equal)
        }
    }
}

impl ComparibleTask {
    /// Whether the task is valid and the score can be its own.
    pub open spec fn wf(&self) -> bool {
        self@.wf()
    }

    /// Pairs a task with its score.
    pub fn new(task: Task, comparitor: Score) -> (r: ComparibleTask)
        ensures
            r.task == task,
            r.comparitor == comparitor,
    {
        ComparibleTask { task, comparitor }
    }

    /// Whether the task is valid and the score can be its own.
    pub fn is_valid(&self) -> (r: bool)
        ensures
            r == self.wf(),
    {
        if !self.task.is_valid() || self.comparitor.cost != self.task.cost {
            return false;
        }
        if self.comparitor.priority_squared as u128 > self.comparitor.norm_squared {
            return false;
        }
        match self.comparitor.minutes_remaining {
            Some(minutes) => minutes >= 1,
            None => true,
        }
    }

    /// The task's identifier.
    pub fn get_id(&self) -> (r: u64)
        ensures
            r == self.task.id,
    {
        self.task.id
    }
}

} // verus!
