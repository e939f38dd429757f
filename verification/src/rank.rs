//! Scoring a batch of tasks and ranking it, most urgent and most valuable
//! first.

use vstd::prelude::*;
use crate::comparible_task::{ComparibleTask, ComparibleTaskView};
use crate::score::{
    exceeds,
    lemma_exceeds_is_asymmetric,
    lemma_not_exceeded_chains,
    lemma_order_without_deadlines,
    Score,
};
use crate::task::{Task, TaskView};
use crate::text::lemma_deep_view_push;
use crate::timestamp::{lemma_passed_moment_has_no_minutes_left, minutes_between, Timestamp};

verus! {

/// The largest square of a priority.
pub const MAX_PRIORITY_SQUARED: u64 = 0xffff_fffe_0000_0001;

/// The sum of the squared priorities of a batch.
pub open spec fn sum_of_squares(tasks: Seq<TaskView>) -> nat
    decreases tasks.len(),
{
    if tasks.len() == 0 {
        0
    } else {
        sum_of_squares(tasks.drop_last()) + (tasks.last().priority * tasks.last().priority) as nat
    }
}

/// The minutes that remain until a deadline, never less than one; `None`
/// without a deadline.
pub open spec fn minutes_left(deadline: Option<Timestamp>, now: Timestamp) -> Option<u64> {
    match deadline {
        Some(at) => if minutes_between(at, now) < 1 {
            Some(1)
        } else {
            Some(minutes_between(at, now) as u64)
        },
        None => None,
    }
}

/// The score of a task in a batch whose squared priorities add up to
/// `norm_squared`, at the moment `now`.
pub open spec fn score_in_batch(task: TaskView, norm_squared: u128, now: Timestamp) -> Score {
    Score {
        priority_squared: (task.priority * task.priority) as u64,
        norm_squared,
        cost: task.cost,
        minutes_remaining: minutes_left(task.deadline, now),
    }
}

/// A task with its score in a batch.
pub open spec fn scored_in_batch(
    task: TaskView,
    norm_squared: u128,
    now: Timestamp,
) -> ComparibleTaskView {
    ComparibleTaskView { task, comparitor: score_in_batch(task, norm_squared, now) }
}

/// The tasks of a batch, each with its score, in the order of the batch.
pub open spec fn scored(tasks: Seq<TaskView>, now: Timestamp) -> Seq<ComparibleTaskView> {
    tasks.map_values(
        |task: TaskView| scored_in_batch(task, sum_of_squares(tasks) as u128, now),
    )
}

/// Whether the item at place `i` belongs before the one at place `j`: its
/// score is above, or the scores are equal and it came first.
pub open spec fn comes_before(items: Seq<ComparibleTaskView>, i: int, j: int) -> bool {
    exceeds(items[i].comparitor, items[j].comparitor) || (!exceeds(
        items[j].comparitor,
        items[i].comparitor,
    ) && i < j)
}

/// Whether `ranked` holds the first `count` items, each once, picked by
/// `order`, so that every item belongs before all that follow it.
pub open spec fn is_ranking_of_first(
    items: Seq<ComparibleTaskView>,
    count: int,
    order: Seq<int>,
    ranked: Seq<ComparibleTaskView>,
) -> bool {
    &&& 0 <= count <= items.len()
    &&& order.len() == count
    &&& ranked.len() == count
    &&& forall|k: int| 0 <= k < count ==> 0 <= #[trigger] order[k] < count
    &&& forall|k: int, l: int| 0 <= k < l < count ==> #[trigger] order[k] != #[trigger] order[l]
    &&& forall|k: int| 0 <= k < count ==> #[trigger] ranked[k] == items[order[k]]
    &&& forall|k: int, l: int|
        0 <= k < l < count ==> comes_before(items, #[trigger] order[k], #[trigger] order[l])
}

/// Whether `ranked` is the ranking of `items`: the same items, each once,
/// highest score first, and items of equal score in the order in which they
/// came.
pub open spec fn ranks(items: Seq<ComparibleTaskView>, ranked: Seq<ComparibleTaskView>) -> bool {
    exists|order: Seq<int>| is_ranking_of_first(items, items.len() as int, order, ranked)
}

/// The squared priorities of a batch add up to no more than the largest
/// square times the size of the batch, and to no less than any one of them.
pub proof fn lemma_sum_of_squares_bounds(tasks: Seq<TaskView>)
    ensures
        sum_of_squares(tasks) <= tasks.len() * MAX_PRIORITY_SQUARED,
        forall|i: int|
            0 <= i < tasks.len() ==> (#[trigger] tasks[i]).priority * tasks[i].priority
                <= sum_of_squares(tasks),
    decreases tasks.len(),
{
    if tasks.len() > 0 {
        lemma_sum_of_squares_bounds(tasks.drop_last());
        let p = tasks.last().priority;
        assert(0 <= p * p <= MAX_PRIORITY_SQUARED) by (nonlinear_arith)
            requires
                0 <= p <= 0xffff_ffff,
        ;
        assert forall|i: int| 0 <= i < tasks.len() implies (#[trigger] tasks[i]).priority
            * tasks[i].priority <= sum_of_squares(tasks) by {
            if i < tasks.len() - 1 {
                assert(tasks.drop_last()[i] == tasks[i]);
            }
        }
    }
}

/// In a ranking no item has a score above that of an item before it.
pub proof fn lemma_ranking_is_sorted(
    items: Seq<ComparibleTaskView>,
    ranked: Seq<ComparibleTaskView>,
)
    requires
        ranks(items, ranked),
        forall|i: int, j: int|
            0 <= i < items.len() && 0 <= j < items.len() ==> (#[trigger] items[i]).comparitor.norm_squared
                == (#[trigger] items[j]).comparitor.norm_squared,
    ensures
        forall|k: int, l: int|
            0 <= k < l < ranked.len() ==> !exceeds(
                (#[trigger] ranked[l]).comparitor,
                (#[trigger] ranked[k]).comparitor,
            ),
{
    let order = choose|order: Seq<int>|
        is_ranking_of_first(items, items.len() as int, order, ranked);
    assert forall|k: int, l: int| 0 <= k < l < ranked.len() implies !exceeds(
        (#[trigger] ranked[l]).comparitor,
        (#[trigger] ranked[k]).comparitor,
    ) by {
        assert(comes_before(items, order[k], order[l]));
        lemma_exceeds_is_asymmetric(items[order[k]].comparitor, items[order[l]].comparitor);
    }
}

/// Of two different places in a batch whose scores share their norm, at most
/// one belongs before the other.
proof fn lemma_comes_before_is_asymmetric(items: Seq<ComparibleTaskView>, i: int, j: int)
    requires
        0 <= i < items.len(),
        0 <= j < items.len(),
        items[i].comparitor.norm_squared == items[j].comparitor.norm_squared,
        comes_before(items, i, j),
    ensures
        !comes_before(items, j, i),
{
    lemma_exceeds_is_asymmetric(items[i].comparitor, items[j].comparitor);
    lemma_exceeds_is_asymmetric(items[j].comparitor, items[i].comparitor);
}

/// A list of `count` different numbers below `count` holds every number
/// below `count`.
proof fn lemma_order_holds_every_place(order: Seq<int>, count: int, wanted: int)
    requires
        order.len() == count,
        forall|k: int| 0 <= k < count ==> 0 <= #[trigger] order[k] < count,
        forall|k: int, l: int| 0 <= k < l < count ==> #[trigger] order[k] != #[trigger] order[l],
        0 <= wanted < count,
    ensures
        exists|k: int| 0 <= k < count && order[k] == wanted,
    decreases count,
{
    let top = count - 1;
    if exists|p: int| 0 <= p < count && order[p] == top {
        let p = choose|p: int| 0 <= p < count && order[p] == top;
        if wanted != top {
            let rest = order.remove(p);
            assert forall|k: int| 0 <= k < top implies 0 <= #[trigger] rest[k] < top by {
                if k < p {
                    assert(rest[k] == order[k]);
                } else {
                    assert(rest[k] == order[k + 1]);
                }
            }
            assert forall|k: int, l: int| 0 <= k < l < top implies #[trigger] rest[k]
                != #[trigger] rest[l] by {
                let from_k = if k < p {
                    k
                } else {
                    k + 1
                };
                let from_l = if l < p {
                    l
                } else {
                    l + 1
                };
                assert(rest[k] == order[from_k]);
                assert(rest[l] == order[from_l]);
            }
            lemma_order_holds_every_place(rest, top, wanted);
            let k = choose|k: int| 0 <= k < top && rest[k] == wanted;
            let from_k = if k < p {
                k
            } else {
                k + 1
            };
            assert(order[from_k] == wanted);
        }
    } else {
        // Every number is below `top`, so the first `top` of them hold all of
        // those, the last one among them: it would be there twice.
        let front = order.drop_last();
        assert forall|k: int| 0 <= k < top implies 0 <= #[trigger] front[k] < top by {
            assert(front[k] == order[k]);
        }
        assert forall|k: int, l: int| 0 <= k < l < top implies #[trigger] front[k]
            != #[trigger] front[l] by {
            assert(front[k] == order[k]);
            assert(front[l] == order[l]);
        }
        let last = order[top];
        assert(0 <= last < top);
        lemma_order_holds_every_place(front, top, last);
        let k = choose|k: int| 0 <= k < top && front[k] == last;
        assert(order[k] == order[top]);
        assert(false);
    }
}

/// Two rankings of one batch pick the same places up to any position.
proof fn lemma_rankings_agree(
    items: Seq<ComparibleTaskView>,
    one: Seq<int>,
    one_ranked: Seq<ComparibleTaskView>,
    other: Seq<int>,
    other_ranked: Seq<ComparibleTaskView>,
    upto: int,
)
    requires
        is_ranking_of_first(items, items.len() as int, one, one_ranked),
        is_ranking_of_first(items, items.len() as int, other, other_ranked),
        forall|i: int, j: int|
            0 <= i < items.len() && 0 <= j < items.len() ==> (#[trigger] items[i]).comparitor.norm_squared
                == (#[trigger] items[j]).comparitor.norm_squared,
        0 <= upto <= items.len(),
    ensures
        forall|k: int| 0 <= k < upto ==> one[k] == other[k],
    decreases upto,
{
    if upto > 0 {
        let at = upto - 1;
        lemma_rankings_agree(items, one, one_ranked, other, other_ranked, at);
        let a = one[at];
        let b = other[at];
        if a != b {
            let count = items.len() as int;
            lemma_order_holds_every_place(other, count, a);
            let in_other = choose|k: int| 0 <= k < count && other[k] == a;
            if in_other < at {
                assert(one[in_other] == other[in_other]);
                assert(one[in_other] != one[at]);
            }
            assert(comes_before(items, other[at], other[in_other]));
            lemma_order_holds_every_place(one, count, b);
            let in_one = choose|k: int| 0 <= k < count && one[k] == b;
            if in_one < at {
                assert(one[in_one] == other[in_one]);
                assert(other[in_one] != other[at]);
            }
            assert(comes_before(items, one[at], one[in_one]));
            lemma_comes_before_is_asymmetric(items, a, b);
        }
    }
}

/// A batch has one ranking only.
pub proof fn lemma_ranking_is_unique(
    items: Seq<ComparibleTaskView>,
    one: Seq<ComparibleTaskView>,
    other: Seq<ComparibleTaskView>,
)
    requires
        ranks(items, one),
        ranks(items, other),
        forall|i: int, j: int|
            0 <= i < items.len() && 0 <= j < items.len() ==> (#[trigger] items[i]).comparitor.norm_squared
                == (#[trigger] items[j]).comparitor.norm_squared,
    ensures
        one == other,
{
    let count = items.len() as int;
    let one_order = choose|order: Seq<int>| is_ranking_of_first(items, count, order, one);
    let other_order = choose|order: Seq<int>| is_ranking_of_first(items, count, order, other);
    lemma_rankings_agree(items, one_order, one, other_order, other, count);
    assert forall|k: int| 0 <= k < count implies one[k] == other[k] by {
        assert(one[k] == items[one_order[k]]);
        assert(other[k] == items[other_order[k]]);
    }
    assert(one =~= other);
}

/// A task whose deadline is not after `now` counts as one minute away: its
/// urgency is its whole cost.
pub proof fn lemma_passed_deadline_counts_one_minute(
    task: TaskView,
    norm_squared: u128,
    now: Timestamp,
)
    requires
        task.deadline is Some,
        task.deadline.unwrap().wf(),
        now.wf(),
        task.deadline.unwrap().not_after(now),
    ensures
        score_in_batch(task, norm_squared, now).minutes_remaining == Some(1u64),
        score_in_batch(task, norm_squared, now).urgency_cost() == task.cost,
        score_in_batch(task, norm_squared, now).urgency_minutes() == 1,
{
    lemma_passed_moment_has_no_minutes_left(task.deadline.unwrap(), now);
}

/// The ranking of a single item is that item.
pub proof fn lemma_ranking_of_one(item: ComparibleTaskView, ranked: Seq<ComparibleTaskView>)
    requires
        ranks(seq![item], ranked),
    ensures
        ranked == seq![item],
{
    let order = choose|order: Seq<int>| is_ranking_of_first(seq![item], 1, order, ranked);
    assert(ranked[0] == seq![item][order[0]]);
    assert(ranked =~= seq![item]);
}

/// In a batch without deadlines, a task with the larger `priority² / cost`
/// has the higher score.
pub proof fn lemma_batch_without_deadlines(tasks: Seq<TaskView>, now: Timestamp, i: int, j: int)
    requires
        0 <= i < tasks.len(),
        0 <= j < tasks.len(),
        tasks[i].deadline is None,
        tasks[j].deadline is None,
    ensures
        exceeds(scored(tasks, now)[i].comparitor, scored(tasks, now)[j].comparitor) == (
        tasks[i].priority * tasks[i].priority * tasks[j].cost > tasks[j].priority
            * tasks[j].priority * tasks[i].cost),
{
    let a = scored(tasks, now)[i].comparitor;
    let b = scored(tasks, now)[j].comparitor;
    lemma_order_without_deadlines(a, b);
    let pi = tasks[i].priority;
    let pj = tasks[j].priority;
    assert(0 <= pi * pi <= MAX_PRIORITY_SQUARED) by (nonlinear_arith)
        requires
            0 <= pi <= 0xffff_ffff,
    ;
    assert(0 <= pj * pj <= MAX_PRIORITY_SQUARED) by (nonlinear_arith)
        requires
            0 <= pj <= 0xffff_ffff,
    ;
}

/// The ranking of a batch without deadlines is in descending order of
/// `priority² / cost`.
pub proof fn lemma_ranking_without_deadlines(
    tasks: Seq<TaskView>,
    now: Timestamp,
    ranked: Seq<ComparibleTaskView>,
)
    requires
        ranks(scored(tasks, now), ranked),
        forall|i: int| 0 <= i < tasks.len() ==> (#[trigger] tasks[i]).deadline is None,
    ensures
        forall|k: int, l: int|
            0 <= k < l < ranked.len() ==> (#[trigger] ranked[k]).task.priority
                * ranked[k].task.priority * (#[trigger] ranked[l]).task.cost
                >= ranked[l].task.priority * ranked[l].task.priority * ranked[k].task.cost,
{
    let items = scored(tasks, now);
    let order = choose|order: Seq<int>|
        is_ranking_of_first(items, items.len() as int, order, ranked);
    lemma_ranking_is_sorted(items, ranked);
    assert forall|k: int, l: int| 0 <= k < l < ranked.len() implies (
    #[trigger] ranked[k]).task.priority * ranked[k].task.priority * (
    #[trigger] ranked[l]).task.cost >= ranked[l].task.priority * ranked[l].task.priority
        * ranked[k].task.cost by {
        let high = order[k];
        let low = order[l];
        assert(ranked[k] == items[high]);
        assert(ranked[l] == items[low]);
        assert(tasks[high].deadline is None);
        assert(tasks[low].deadline is None);
        lemma_batch_without_deadlines(tasks, now, low, high);
    }
}

fn batch_norm(tasks: &Vec<Task>) -> (r: u128)
    ensures
        r == sum_of_squares(tasks.deep_view()),
{
    let ghost views = tasks.deep_view();
    let mut total: u128 = 0;
    let mut i: usize = 0;
    while i < tasks.len()
        invariant
            i <= tasks.len(),
            views == tasks.deep_view(),
            total == sum_of_squares(views.take(i as int)),
        decreases tasks.len() - i,
    {
        let priority: u64 = tasks[i].priority as u64;
        proof {
            assert(views.take(i + 1).drop_last() == views.take(i as int));
            assert(views.take(i + 1).last() == tasks[i as int]@);
            lemma_sum_of_squares_bounds(views.take(i as int));
            assert(0 <= priority * priority <= MAX_PRIORITY_SQUARED) by (nonlinear_arith)
                requires
                    0 <= priority <= 0xffff_ffff,
            ;
        }
        total = total + (priority * priority) as u128;
        i += 1;
    }
    assert(views.take(i as int) == views);
    total
}

fn place_for(ranked: &Vec<ComparibleTask>, score: &Score) -> (r: usize)
    ensures
        r <= ranked.len(),
        forall|k: int| r <= k < ranked.len() ==> exceeds(*score, (#[trigger] ranked[k]).comparitor),
        r > 0 ==> !exceeds(*score, ranked[r - 1].comparitor),
{
    let mut place: usize = ranked.len();
    while place > 0
        invariant
            place <= ranked.len(),
            forall|k: int|
                place <= k < ranked.len() ==> exceeds(*score, (#[trigger] ranked[k]).comparitor),
        decreases place,
    {
        if !score.is_above(&ranked[place - 1].comparitor) {
            return place;
        }
        place -= 1;
    }
    place
}

impl Task {
    /// The task with its score in a batch whose squared priorities add up to
    /// `total_prio_squared`, at the moment `now`.
    ///
    /// A deadline that has passed, or that is less than a minute away, counts
    /// as one minute away.
    pub fn as_comparible_task(self, total_prio_squared: u128, now: &Timestamp) -> (r:
        ComparibleTask)
        requires
            self.wf(),
            now.wf(),
        ensures
            r@ == scored_in_batch(self@, total_prio_squared, *now),
            self.deadline is Some && self.deadline.unwrap().not_after(*now)
                ==> r.comparitor.minutes_remaining == Some(1u64),
    {
        let priority: u64 = self.priority as u64;
        assert(0 <= priority * priority <= MAX_PRIORITY_SQUARED) by (nonlinear_arith)
            requires
                0 <= priority <= 0xffff_ffff,
        ;
        let minutes_remaining: Option<u64> = match &self.deadline {
            Some(at) => {
                let minutes: i64 = at.minutes_since(now);
                proof {
                    if at.not_after(*now) {
                        lemma_passed_moment_has_no_minutes_left(*at, *now);
                    }
                }
                if minutes < 1 {
                    Some(1)
                } else {
                    Some(minutes as u64)
                }
            },
            None => None,
        };
        let comparitor = Score {
            priority_squared: priority * priority,
            norm_squared: total_prio_squared,
            cost: self.cost,
            minutes_remaining,
        };
        ComparibleTask::new(self, comparitor)
    }

    /// Scores the tasks of a batch at the moment `now` and ranks them: highest
    /// score first, tasks of equal score in the order in which they came.
    pub fn make_comparible(tasks: Vec<Task>, now: &Timestamp) -> (r: Vec<ComparibleTask>)
        requires
            now.wf(),
            forall|i: int| 0 <= i < tasks.len() ==> (#[trigger] tasks[i]).wf(),
        ensures
            ranks(scored(tasks.deep_view(), *now), r.deep_view()),
            forall|k: int| 0 <= k < r.len() ==> (#[trigger] r[k]).wf(),
    {
        let total = batch_norm(&tasks);
        let ghost views = tasks.deep_view();
        let ghost items = scored(views, *now);
        let ghost mut order: Seq<int> = Seq::empty();
        let mut out: Vec<ComparibleTask> = Vec::new();
        let mut i: usize = 0;
        proof {
            lemma_sum_of_squares_bounds(views);
        }
        while i < tasks.len()
            invariant
                i <= tasks.len(),
                now.wf(),
                forall|k: int| 0 <= k < tasks.len() ==> (#[trigger] tasks[k]).wf(),
                views == tasks.deep_view(),
                items == scored(views, *now),
                total == sum_of_squares(views),
                forall|k: int|
                    0 <= k < views.len() ==> (#[trigger] views[k]).priority * views[k].priority
                        <= sum_of_squares(views),
                is_ranking_of_first(items, i as int, order, out.deep_view()),
                forall|k: int| 0 <= k < out.len() ==> (#[trigger] out[k]).wf(),
                forall|k: int|
                    0 <= k < out.len() ==> (#[trigger] out[k]).comparitor.norm_squared == total,
            decreases tasks.len() - i,
        {
            let item = tasks[i].clone().as_comparible_task(total, now);
            let ghost before = out;
            let ghost ranked = out.deep_view();
            proof {
                assert(views[i as int] == tasks[i as int]@);
                assert(item@ == items[i as int]);
                assert(item.wf());
                assert forall|k: int| 0 <= k < out.len() implies (#[trigger] out[k]).comparitor
                    == ranked[k].comparitor by {}
            }
            let place = place_for(&out, &item.comparitor);
            out.insert(place, item);
            proof {
                let score = item.comparitor;
                let next = order.insert(place as int, i as int);
                let after = out.deep_view();
                assert(after =~= ranked.insert(place as int, item@));
                // No item before the place is outscored by the new one.
                assert forall|k: int| 0 <= k < place implies !exceeds(
                    score,
                    (#[trigger] ranked[k]).comparitor,
                ) by {
                    if k < place - 1 {
                        assert(comes_before(items, order[k], order[place - 1]));
                        lemma_exceeds_is_asymmetric(
                            ranked[k].comparitor,
                            ranked[place - 1].comparitor,
                        );
                        lemma_not_exceeded_chains(
                            ranked[k].comparitor,
                            ranked[place - 1].comparitor,
                            score,
                        );
                    }
                }
                assert forall|k: int| 0 <= k < i + 1 implies 0 <= #[trigger] next[k] < i + 1 by {
                    if k < place {
                        assert(next[k] == order[k]);
                    } else if k > place {
                        assert(next[k] == order[k - 1]);
                    }
                }
                assert forall|k: int| 0 <= k < i + 1 implies #[trigger] after[k] == items[next[k]] by {
                    if k < place {
                        assert(after[k] == ranked[k]);
                        assert(next[k] == order[k]);
                    } else if k > place {
                        assert(after[k] == ranked[k - 1]);
                        assert(next[k] == order[k - 1]);
                    }
                }
                assert forall|k: int, l: int| 0 <= k < l < i + 1 implies #[trigger] next[k]
                    != #[trigger] next[l] && comes_before(items, next[k], next[l]) by {
                    let from_k = if k < place {
                        k
                    } else {
                        k - 1
                    };
                    let from_l = if l < place {
                        l
                    } else {
                        l - 1
                    };
                    if k == place {
                        assert(next[l] == order[from_l]);
                        assert(ranked[from_l] == items[order[from_l]]);
                        assert(exceeds(score, ranked[from_l].comparitor));
                    } else if l == place {
                        assert(next[k] == order[from_k]);
                        assert(ranked[from_k] == items[order[from_k]]);
                        assert(!exceeds(score, ranked[from_k].comparitor));
                    } else {
                        assert(next[k] == order[from_k]);
                        assert(next[l] == order[from_l]);
                        assert(comes_before(items, order[from_k], order[from_l]));
                    }
                }
                order = next;
                assert forall|k: int| 0 <= k < out.len() implies (#[trigger] out[k]).wf()
                    && out[k].comparitor.norm_squared == total by {
                    if k < place {
                        assert(out[k] == before[k]);
                    } else if k > place {
                        assert(out[k] == before[k - 1]);
                    }
                }
            }
            i += 1;
        }
        out
    }
}

} // verus!
