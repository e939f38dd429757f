use std::cmp::Ordering;
use taskman::comparible_task::ComparibleTask;
use taskman::score::Score;
use taskman::task::Task;
use taskman::timestamp::Timestamp;

const NOW: i64 = 1_700_000_000;

fn at(secs: i64) -> Timestamp {
    Timestamp::new(secs, 0, 0).unwrap()
}

fn task(id: u64, priority: u32, cost: u32, deadline: Option<i64>) -> Task {
    Task::new(id, format!("task {id}"), None, cost, priority, at(NOW - 1000), None, deadline.map(at))
        .unwrap()
}

fn rank(tasks: Vec<Task>) -> Vec<ComparibleTask> {
    Task::make_comparible(tasks, &at(NOW))
}

fn ids(ranked: &[ComparibleTask]) -> Vec<u64> {
    ranked.iter().map(|item| item.get_id()).collect()
}

fn score(priority_squared: u64, norm_squared: u128, cost: u32, minutes: Option<u64>) -> Score {
    Score { priority_squared, norm_squared, cost, minutes_remaining: minutes }
}

/// The score as a floating-point number.
fn value(score: &Score) -> f64 {
    let density = if score.norm_squared == 0 {
        0.0
    } else {
        score.priority_squared as f64 / (score.norm_squared as f64).sqrt() / score.cost as f64
    };
    match score.minutes_remaining {
        Some(minutes) => density + score.cost as f64 / minutes as f64,
        None => density,
    }
}

#[test]
fn a_single_task_scores_its_value_density() {
    let ranked = rank(vec![task(1, 5, 10, None)]);
    assert_eq!(ranked.len(), 1);
    assert_eq!(ranked[0].comparitor, score(25, 25, 10, None));
    assert_eq!(ranked[0].task, task(1, 5, 10, None));
    assert_eq!((ranked[0].comparitor.norm_squared as f64).sqrt(), 5.0);
    assert_eq!(value(&ranked[0].comparitor), 0.5);
}

#[test]
fn a_single_task_with_a_deadline_adds_its_urgency() {
    let ranked = rank(vec![task(1, 5, 10, Some(NOW + 20 * 60))]);
    assert_eq!(ranked[0].comparitor, score(25, 25, 10, Some(20)));
    assert_eq!(value(&ranked[0].comparitor), 1.0);
}

#[test]
fn the_norm_is_the_sum_of_all_squared_priorities() {
    let ranked = rank(vec![task(1, 3, 10, None), task(2, 4, 10, None), task(3, 12, 10, None)]);
    for item in &ranked {
        assert_eq!(item.comparitor.norm_squared, 169);
    }
    assert_eq!(ranked[0].comparitor.priority_squared, 144);
}

#[test]
fn without_deadlines_the_order_is_that_of_priority_squared_over_cost() {
    // 9/10, 25/50 and 4/1
    let ranked = rank(vec![task(1, 3, 10, None), task(2, 5, 50, None), task(3, 2, 1, None)]);
    assert_eq!(ids(&ranked), vec![3, 1, 2]);
    let ranked = rank(vec![task(2, 5, 50, None), task(3, 2, 1, None), task(1, 3, 10, None)]);
    assert_eq!(ids(&ranked), vec![3, 1, 2]);
    let values: Vec<f64> = ranked.iter().map(|item| value(&item.comparitor)).collect();
    assert!(values[0] > values[1] && values[1] > values[2]);
}

#[test]
fn a_deadline_that_has_passed_counts_as_one_minute_away() {
    for deadline in [NOW - 60, NOW, NOW - 1, NOW + 59, NOW - 10_000_000] {
        let ranked = rank(vec![task(1, 5, 10, Some(deadline))]);
        assert_eq!(ranked[0].comparitor.minutes_remaining, Some(1), "deadline {deadline}");
        assert_eq!(value(&ranked[0].comparitor), 0.5 + 10.0);
    }
}

#[test]
fn a_deadline_ahead_counts_its_whole_minutes() {
    let ranked = rank(vec![task(1, 5, 10, Some(NOW + 60))]);
    assert_eq!(ranked[0].comparitor.minutes_remaining, Some(1));
    let ranked = rank(vec![task(1, 5, 10, Some(NOW + 119))]);
    assert_eq!(ranked[0].comparitor.minutes_remaining, Some(1));
    let ranked = rank(vec![task(1, 5, 10, Some(NOW + 120))]);
    assert_eq!(ranked[0].comparitor.minutes_remaining, Some(2));
}

#[test]
fn as_comparible_task_scores_one_task_in_a_batch() {
    let scored = task(4, 6, 9, Some(NOW + 600)).as_comparible_task(100, &at(NOW));
    assert_eq!(scored.comparitor, score(36, 100, 9, Some(10)));
    assert_eq!(scored.task, task(4, 6, 9, Some(NOW + 600)));
    assert_eq!(scored.get_id(), 4);
    let scored = task(4, u32::MAX, 9, None).as_comparible_task(u128::MAX, &at(NOW));
    assert_eq!(scored.comparitor, score(18_446_744_065_119_617_025, u128::MAX, 9, None));
}

#[test]
fn urgency_can_outweigh_value() {
    // densities 100/(10·10.05) and 1/(10·10.05); the second is due in ten minutes
    let ranked = rank(vec![task(1, 10, 10, None), task(2, 1, 10, Some(NOW + 600))]);
    assert_eq!(ids(&ranked), vec![2, 1]);
    let ranked = rank(vec![task(1, 10, 10, None), task(2, 1, 10, Some(NOW + 6000))]);
    assert_eq!(ids(&ranked), vec![1, 2]);
}

#[test]
fn equal_scores_keep_the_order_in_which_they_came() {
    let ranked = rank(vec![
        task(5, 2, 4, None),
        task(3, 1, 1, None),
        task(9, 4, 16, None),
        task(1, 3, 1, None),
        task(4, 2, 4, None),
    ]);
    assert_eq!(ids(&ranked), vec![1, 5, 3, 9, 4]);
}

#[test]
fn a_batch_of_zero_priorities_is_ranked_by_urgency_alone() {
    let ranked = rank(vec![
        task(1, 0, 10, None),
        task(2, 0, 10, Some(NOW + 6000)),
        task(3, 0, 1, None),
        task(4, 0, 30, Some(NOW + 600)),
    ]);
    assert_eq!(ids(&ranked), vec![4, 2, 1, 3]);
    for item in &ranked {
        assert_eq!(item.comparitor.norm_squared, 0);
        assert_eq!(item.comparitor.priority_squared, 0);
    }
    assert_eq!(value(&ranked[0].comparitor), 3.0);
    assert_eq!(value(&ranked[2].comparitor), 0.0);
}

#[test]
fn an_empty_batch_has_an_empty_ranking() {
    assert!(rank(Vec::new()).is_empty());
}

#[test]
fn a_ranking_holds_every_task_once() {
    let tasks: Vec<Task> = (0..40u64)
        .map(|id| {
            let priority = ((id * 7919) % 23) as u32;
            let cost = ((id * 104_729) % 17 + 1) as u32;
            let deadline = if id % 3 == 0 { Some(NOW + (id as i64 - 10) * 600) } else { None };
            task(id, priority, cost, deadline)
        })
        .collect();
    let ranked = rank(tasks.clone());
    let mut seen = ids(&ranked);
    seen.sort();
    assert_eq!(seen, (0..40).collect::<Vec<u64>>());
    for item in &ranked {
        assert_eq!(item.task, tasks[item.get_id() as usize]);
    }
    for pair in ranked.windows(2) {
        assert!(!pair[1].comparitor.is_above(&pair[0].comparitor));
        if !pair[0].comparitor.is_above(&pair[1].comparitor) {
            assert!(pair[0].get_id() < pair[1].get_id());
        }
        assert!(value(&pair[0].comparitor) >= value(&pair[1].comparitor) - 1e-12);
    }
}

#[test]
fn is_above_decides_a_tie_with_a_whole_root() {
    // 4/(2·√16) = 1/2 against 1/2 and against 1/3
    let a = score(4, 16, 2, None);
    assert!(!a.is_above(&score(0, 16, 1, Some(2))));
    assert!(!score(0, 16, 1, Some(2)).is_above(&a));
    assert!(a.is_above(&score(0, 16, 1, Some(3))));
    assert!(!score(0, 16, 1, Some(3)).is_above(&a));
    assert!(score(0, 16, 2, Some(3)).is_above(&a));
}

#[test]
fn is_above_decides_against_a_root_that_is_no_whole_number() {
    // 1/√2 against 1/(2·√2) + 2/m: the second wins while 2/m is above 1/(2·√2)
    let a = score(1, 2, 1, None);
    assert!(score(1, 2, 2, Some(5)).is_above(&a));
    assert!(!a.is_above(&score(1, 2, 2, Some(5))));
    assert!(a.is_above(&score(1, 2, 2, Some(6))));
    assert!(!score(1, 2, 2, Some(6)).is_above(&a));
}

#[test]
fn is_above_is_exact_where_floating_point_is_not() {
    // √S is 2^60 up to rounding: the two densities differ by one part in 2^64.
    let norm = (1u128 << 120) + 1;
    let a = score(u64::MAX, norm, 1, None);
    let b = score(u64::MAX - 1, norm, 1, None);
    assert_eq!(value(&a), value(&b));
    assert!(a.is_above(&b));
    assert!(!b.is_above(&a));
    // An urgency of 1/m against a density just below and just above it.
    let square = score(1 << 40, 1 << 80, 1, None);
    assert!(!square.is_above(&score(0, 1 << 80, 1, Some(1))));
    assert!(!score(0, 1 << 80, 1, Some(1)).is_above(&square));
    let below = score(1 << 40, (1 << 80) + 1, 1, None);
    assert!(score(0, (1 << 80) + 1, 1, Some(1)).is_above(&below));
    let above = score(1 << 40, (1 << 80) - 1, 1, None);
    assert!(above.is_above(&score(0, (1 << 80) - 1, 1, Some(1))));
}

#[test]
fn is_above_takes_the_largest_numbers() {
    let top = u32::MAX as u64 * u32::MAX as u64;
    let norm = u128::MAX;
    let a = score(top, norm, u32::MAX, Some(u64::MAX));
    let b = score(top - 1, norm, u32::MAX, Some(u64::MAX));
    assert!(a.is_above(&b));
    assert!(!b.is_above(&a));
    let c = score(top, norm, u32::MAX, Some(u64::MAX - 1));
    assert!(c.is_above(&a));
    let d = score(0, norm, u32::MAX, Some(1));
    assert!(d.is_above(&a));
    assert!(!a.is_above(&d));
    let e = score(top, norm, 1, None);
    assert!(!e.is_above(&d));
    assert!(d.is_above(&e));
}

#[test]
fn is_above_agrees_with_floating_point_where_that_is_sure() {
    let mut seed: u64 = 0x9e37_79b9_7f4a_7c15;
    let mut next = move |bound: u64| {
        seed = seed.wrapping_mul(6_364_136_223_846_793_005).wrapping_add(1_442_695_040_888_963_407);
        (seed >> 33) % bound
    };
    let mut decided = 0;
    for _ in 0..2000 {
        let pa = next(1000);
        let pb = next(1000);
        let norm = (pa * pa + pb * pb + next(1_000_000)) as u128;
        let mut pick = |p: u64| {
            let minutes = if next(3) == 0 { None } else { Some(next(100_000) + 1) };
            score(p * p, norm, next(500) as u32 + 1, minutes)
        };
        let a = pick(pa);
        let b = pick(pb);
        let (va, vb) = (value(&a), value(&b));
        assert!(!(a.is_above(&b) && b.is_above(&a)));
        if (va - vb).abs() > 1e-9 * (va + vb) {
            assert_eq!(a.is_above(&b), va > vb, "{a:?} against {b:?}");
            assert_eq!(b.is_above(&a), vb > va, "{a:?} against {b:?}");
            decided += 1;
        }
    }
    assert!(decided > 1900);
}

#[test]
fn no_score_is_above_itself() {
    for s in [score(25, 25, 10, None), score(3, 9, 7, Some(11)), score(0, 0, 1, Some(1))] {
        assert!(!s.is_above(&s));
    }
}

#[test]
fn scored_tasks_are_equal_exactly_when_their_scores_are() {
    let now = at(NOW);
    let a = task(1, 2, 4, None).as_comparible_task(100, &now);
    let same_score = task(2, 4, 16, None).as_comparible_task(100, &now);
    let lower = task(3, 1, 4, None).as_comparible_task(100, &now);
    assert!(a == same_score);
    assert!(same_score == a);
    assert!(a == a.clone());
    assert!(a != lower);
    assert!(lower != a);
    for (x, y) in [(&a, &same_score), (&a, &lower), (&lower, &same_score)] {
        let tie = !x.comparitor.is_above(&y.comparitor) && !y.comparitor.is_above(&x.comparitor);
        assert_eq!(x == y, tie);
        assert_eq!(x == y, value(&x.comparitor) == value(&y.comparitor));
    }
}

#[test]
fn scored_tasks_are_ordered_by_their_scores() {
    let now = at(NOW);
    let a = task(1, 2, 4, None).as_comparible_task(100, &now);
    let same_score = task(2, 4, 16, None).as_comparible_task(100, &now);
    let lower = task(3, 1, 4, None).as_comparible_task(100, &now);
    assert_eq!(a.partial_cmp(&lower), Some(Ordering::Greater));
    assert_eq!(lower.partial_cmp(&a), Some(Ordering::Less));
    assert_eq!(a.partial_cmp(&same_score), Some(Ordering::Equal));
    assert!(a > lower);
    assert!(lower < a);
    assert!(a >= same_score && a <= same_score);
}

#[test]
fn new_pairs_a_task_with_a_score() {
    let pair = ComparibleTask::new(task(8, 1, 1, None), score(1, 1, 1, None));
    assert_eq!(pair.task, task(8, 1, 1, None));
    assert_eq!(pair.comparitor, score(1, 1, 1, None));
    assert_eq!(pair.get_id(), 8);
}

#[test]
fn is_valid_tells_a_made_up_pair() {
    let good = task(1, 5, 10, Some(NOW + 600)).as_comparible_task(25, &at(NOW));
    assert!(good.is_valid());
    let mut other_cost = good.clone();
    other_cost.comparitor.cost = 11;
    assert!(!other_cost.is_valid());
    let mut small_norm = good.clone();
    small_norm.comparitor.norm_squared = 24;
    assert!(!small_norm.is_valid());
    let mut no_minutes = good.clone();
    no_minutes.comparitor.minutes_remaining = Some(0);
    assert!(!no_minutes.is_valid());
    let mut bad_task = good.clone();
    bad_task.task.name = String::new();
    assert!(!bad_task.is_valid());
}
