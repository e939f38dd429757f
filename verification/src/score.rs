//! The score of a task, held exactly.
//!
//! With `p` the priority, `c` the cost in minutes, `S` the sum of the squared
//! priorities of the whole batch and `m` the minutes that remain until the
//! deadline (at least one), the score of a task is
//!
//! ```text
//! p² / (c · √S)  +  c / m
//! ```
//!
//! where the second part is left out for a task without a deadline, and the
//! first counts as zero in a batch whose priorities are all zero. A root has
//! no exact value in whole numbers, so a [`Score`] holds the four numbers and
//! two scores are compared by cross-multiplying: the order is the order of the
//! values above, with no rounding.

use vstd::prelude::*;
use crate::root_order::{
    lemma_not_negative_is_not_positive_opposite,
    lemma_positive_is_not_negative,
    lemma_scaling_keeps_sign,
    lemma_sum_not_negative,
    root_sum_not_negative,
    root_sum_positive,
};
use crate::wide::Wide;

verus! {

/// The numbers that make up the score of one task in one batch.
#[derive(Clone, Copy, Debug, PartialEq, Eq)]
pub struct Score {
    /// The task's priority, squared.
    pub priority_squared: u64,
    /// The sum of the squared priorities of the batch.
    pub norm_squared: u128,
    /// The task's cost in minutes.
    pub cost: u32,
    /// The minutes until the deadline, at least one; `None` without a deadline.
    pub minutes_remaining: Option<u64>,
}

impl Score {
    /// Whether the numbers can be those of a task in a batch: a cost above
    /// zero, a squared priority that is part of the sum, at least one minute.
    pub open spec fn wf(self) -> bool {
        &&& self.cost > 0
        &&& self.priority_squared <= self.norm_squared
        &&& self.minutes_remaining is Some ==> self.minutes_remaining.unwrap() >= 1
    }

    /// The upper part of the urgency `c / m`: the cost, or zero without a
    /// deadline.
    pub open spec fn urgency_cost(self) -> int {
        if self.minutes_remaining is Some {
            self.cost as int
        } else {
            0
        }
    }

    /// The lower part of the urgency `c / m`: the minutes, or one without a
    /// deadline.
    pub open spec fn urgency_minutes(self) -> int {
        match self.minutes_remaining {
            Some(minutes) => minutes as int,
            None => 1,
        }
    }

    fn urgency_parts(&self) -> (r: (u32, u64))
        ensures
            r.0 == self.urgency_cost(),
            r.1 == self.urgency_minutes(),
    {
        match self.minutes_remaining {
            Some(minutes) => (self.cost, minutes),
            None => (0, 1),
        }
    }

    /// Whether this score is above the other, both of one batch.
    pub fn is_above(&self, other: &Score) -> (r: bool)
        ensures
            r == exceeds(*self, *other),
    {
        let (own_urgency, own_minutes) = self.urgency_parts();
        let (other_urgency, other_minutes) = other.urgency_parts();
        proof {
            lemma_products_fit(self.priority_squared, other.cost);
            lemma_products_fit(other.priority_squared, self.cost);
            lemma_products_fit(other_minutes, own_urgency);
            lemma_products_fit(own_minutes, other_urgency);
            lemma_products_fit(own_minutes, 0xffff_ffff);
            lemma_products_fit(self.cost as u64, other.cost);
        }
        let own_density: u128 = (self.priority_squared as u128) * (other.cost as u128);
        let other_density: u128 = (other.priority_squared as u128) * (self.cost as u128);
        let own_pull: u128 = (own_urgency as u128) * (other_minutes as u128);
        let other_pull: u128 = (other_urgency as u128) * (own_minutes as u128);
        assert(own_minutes * other_minutes <= 0xffff_ffff_ffff_ffff * 0xffff_ffff_ffff_ffff)
            by (nonlinear_arith)
            requires
                0 <= own_minutes <= 0xffff_ffff_ffff_ffff,
                0 <= other_minutes <= 0xffff_ffff_ffff_ffff,
        ;
        let minutes: u128 = (own_minutes as u128) * (other_minutes as u128);
        let costs: u128 = (self.cost as u128) * (other.cost as u128);
        let ghost x = rational_gap(*self, *other);
        let ghost y = root_gap(*self, *other);
        let ghost s = self.norm_squared as int;
        let ghost n = own_density - other_density;
        let ghost u = own_pull - other_pull;
        proof {
            assert(n == density_gap(*self, *other));
            assert(u == urgency_gap(*self, *other));
            assert(x == n * minutes);
            assert(y == u * costs);
            assert((x > 0) == (n > 0 && minutes > 0) && (x < 0) == (n < 0 && minutes > 0))
                by (nonlinear_arith)
                requires
                    x == n * minutes,
                    minutes >= 0,
            ;
            assert((y > 0) == (u > 0 && costs > 0) && (y < 0) == (u < 0 && costs > 0))
                by (nonlinear_arith)
                requires
                    y == u * costs,
                    costs >= 0,
            ;
        }
        let rational_up: bool = own_density > other_density && minutes > 0;
        let rational_down: bool = own_density < other_density && minutes > 0;
        let root_up: bool = own_pull > other_pull && costs > 0;
        let root_down: bool = own_pull < other_pull && costs > 0;
        if !rational_down && !root_down {
            return rational_up || root_up;
        }
        if !rational_up && !root_up {
            return false;
        }
        let density_size: u128 = if own_density > other_density {
            own_density - other_density
        } else {
            other_density - own_density
        };
        let pull_size: u128 = if own_pull > other_pull {
            own_pull - other_pull
        } else {
            other_pull - own_pull
        };
        let rational = Wide::from_u128(density_size).times_u128(density_size).times_u128(
            minutes,
        ).times_u128(minutes);
        let root = Wide::from_u128(self.norm_squared).times_u128(pull_size).times_u128(
            pull_size,
        ).times_u128(costs).times_u128(costs);
        proof {
            assert(x * x == density_size * density_size * minutes * minutes) by (nonlinear_arith)
                requires
                    x == n * minutes,
                    density_size == n || density_size == -n,
            ;
            assert(s * (y * y) == s * pull_size * pull_size * costs * costs) by (nonlinear_arith)
                requires
                    y == u * costs,
                    pull_size == u || pull_size == -u,
            ;
        }
        if rational_up {
            root.less_than(&rational)
        } else {
            rational.less_than(&root)
        }
    }
}

/// A number of 64 bits times one of 32 bits fits in 128 bits.
proof fn lemma_products_fit(a: u64, b: u32)
    ensures
        a * b <= u128::MAX,
        b * a <= u128::MAX,
{
    assert(a * b <= 0xffff_ffff_ffff_ffff * 0xffff_ffff && b * a == a * b) by (nonlinear_arith)
        requires
            0 <= a <= 0xffff_ffff_ffff_ffff,
            0 <= b <= 0xffff_ffff,
    ;
}

/// The sign of this is the sign of `a`'s `p²/c` less `b`'s.
pub open spec fn density_gap(a: Score, b: Score) -> int {
    a.priority_squared * b.cost - b.priority_squared * a.cost
}

/// The sign of this is the sign of `a`'s `c/m` less `b`'s.
pub open spec fn urgency_gap(a: Score, b: Score) -> int {
    a.urgency_cost() * b.urgency_minutes() - b.urgency_cost() * a.urgency_minutes()
}

/// The difference of the two `p²/c`, times all four lower parts.
pub open spec fn rational_gap(a: Score, b: Score) -> int {
    density_gap(a, b) * (a.urgency_minutes() * b.urgency_minutes())
}

/// The difference of the two `c/m`, times all four lower parts.
pub open spec fn root_gap(a: Score, b: Score) -> int {
    urgency_gap(a, b) * (a.cost * b.cost)
}

/// Whether the score `a` is above the score `b`, both of one batch.
///
/// The difference of the two scores, times `√S` and the four lower parts, is
/// `rational_gap + root_gap · √S`.
pub open spec fn exceeds(a: Score, b: Score) -> bool {
    root_sum_positive(rational_gap(a, b), root_gap(a, b), a.norm_squared as int)
}

/// Whether the two scores are equal.
pub open spec fn ties(a: Score, b: Score) -> bool {
    !exceeds(a, b) && !exceeds(b, a)
}

/// Swapping the two scores turns both gaps round.
pub proof fn lemma_gaps_turn(a: Score, b: Score)
    ensures
        rational_gap(b, a) == -rational_gap(a, b),
        root_gap(b, a) == -root_gap(a, b),
{
    let n = density_gap(a, b);
    let u = urgency_gap(a, b);
    let m = a.urgency_minutes() * b.urgency_minutes();
    let c = a.cost * b.cost;
    assert(b.urgency_minutes() * a.urgency_minutes() == m) by (nonlinear_arith)
        requires
            m == a.urgency_minutes() * b.urgency_minutes(),
    ;
    assert(b.cost * a.cost == c) by (nonlinear_arith)
        requires
            c == a.cost * b.cost,
    ;
    assert((-n) * m == -(n * m)) by (nonlinear_arith);
    assert((-u) * c == -(u * c)) by (nonlinear_arith);
}

/// No score is above itself.
pub proof fn lemma_exceeds_is_irreflexive(a: Score)
    ensures
        !exceeds(a, a),
{
    lemma_gaps_turn(a, a);
}

/// Of two scores at most one is above the other.
pub proof fn lemma_exceeds_is_asymmetric(a: Score, b: Score)
    requires
        a.norm_squared == b.norm_squared,
    ensures
        exceeds(a, b) ==> !exceeds(b, a),
{
    lemma_gaps_turn(a, b);
    lemma_positive_is_not_negative(rational_gap(a, b), root_gap(a, b), a.norm_squared as int);
    lemma_not_negative_is_not_positive_opposite(
        rational_gap(a, b),
        root_gap(a, b),
        a.norm_squared as int,
    );
}

/// The gaps from `a` to `c` are the gaps from `a` to `b` and from `b` to `c`
/// added up, once each is scaled by the lower parts of the third score.
proof fn lemma_gaps_add_up(a: Score, b: Score, c: Score)
    ensures
        (b.cost * b.urgency_minutes()) * rational_gap(a, c) == (c.cost * c.urgency_minutes())
            * rational_gap(a, b) + (a.cost * a.urgency_minutes()) * rational_gap(b, c),
        (b.cost * b.urgency_minutes()) * root_gap(a, c) == (c.cost * c.urgency_minutes())
            * root_gap(a, b) + (a.cost * a.urgency_minutes()) * root_gap(b, c),
{
    let pa = a.priority_squared as int;
    let pb = b.priority_squared as int;
    let pc = c.priority_squared as int;
    let ca = a.cost as int;
    let cb = b.cost as int;
    let cc = c.cost as int;
    let ua = a.urgency_cost();
    let ub = b.urgency_cost();
    let uc = c.urgency_cost();
    let ma = a.urgency_minutes();
    let mb = b.urgency_minutes();
    let mc = c.urgency_minutes();
    let nab = pa * cb - pb * ca;
    let nbc = pb * cc - pc * cb;
    let nac = pa * cc - pc * ca;
    let uab = ua * mb - ub * ma;
    let ubc = ub * mc - uc * mb;
    let uac = ua * mc - uc * ma;
    assert(nac * cb == nab * cc + nbc * ca) by (nonlinear_arith)
        requires
            nab == pa * cb - pb * ca,
            nbc == pb * cc - pc * cb,
            nac == pa * cc - pc * ca,
    ;
    assert(uac * mb == uab * mc + ubc * ma) by (nonlinear_arith)
        requires
            uab == ua * mb - ub * ma,
            ubc == ub * mc - uc * mb,
            uac == ua * mc - uc * ma,
    ;
    let all_minutes = ma * mb * mc;
    let all_costs = ca * cb * cc;
    assert((cb * mb) * (nac * (ma * mc)) == (nac * cb) * all_minutes) by (nonlinear_arith)
        requires
            all_minutes == ma * mb * mc,
    ;
    assert((cc * mc) * (nab * (ma * mb)) == (nab * cc) * all_minutes) by (nonlinear_arith)
        requires
            all_minutes == ma * mb * mc,
    ;
    assert((ca * ma) * (nbc * (mb * mc)) == (nbc * ca) * all_minutes) by (nonlinear_arith)
        requires
            all_minutes == ma * mb * mc,
    ;
    assert((nab * cc + nbc * ca) * all_minutes == (nab * cc) * all_minutes + (nbc * ca)
        * all_minutes) by (nonlinear_arith);
    assert((cb * mb) * (uac * (ca * cc)) == (uac * mb) * all_costs) by (nonlinear_arith)
        requires
            all_costs == ca * cb * cc,
    ;
    assert((cc * mc) * (uab * (ca * cb)) == (uab * mc) * all_costs) by (nonlinear_arith)
        requires
            all_costs == ca * cb * cc,
    ;
    assert((ca * ma) * (ubc * (cb * cc)) == (ubc * ma) * all_costs) by (nonlinear_arith)
        requires
            all_costs == ca * cb * cc,
    ;
    assert((uab * mc + ubc * ma) * all_costs == (uab * mc) * all_costs + (ubc * ma) * all_costs)
        by (nonlinear_arith);
}

/// Where `b` is not above `a` and `c` is not above `b`, `c` is not above `a`.
pub proof fn lemma_not_exceeded_chains(a: Score, b: Score, c: Score)
    requires
        a.wf(),
        b.wf(),
        c.wf(),
        a.norm_squared == b.norm_squared,
        b.norm_squared == c.norm_squared,
        !exceeds(b, a),
        !exceeds(c, b),
    ensures
        !exceeds(c, a),
{
    let s = a.norm_squared as int;
    let xab = rational_gap(a, b);
    let yab = root_gap(a, b);
    let xbc = rational_gap(b, c);
    let ybc = root_gap(b, c);
    let xac = rational_gap(a, c);
    let yac = root_gap(a, c);
    lemma_gaps_turn(a, b);
    lemma_gaps_turn(b, c);
    lemma_gaps_turn(a, c);
    lemma_not_negative_is_not_positive_opposite(xab, yab, s);
    lemma_not_negative_is_not_positive_opposite(xbc, ybc, s);
    lemma_not_negative_is_not_positive_opposite(xac, yac, s);
    let by_a = a.cost * a.urgency_minutes();
    let by_b = b.cost * b.urgency_minutes();
    let by_c = c.cost * c.urgency_minutes();
    assert(by_a > 0 && by_b > 0 && by_c > 0) by (nonlinear_arith)
        requires
            by_a == a.cost * a.urgency_minutes(),
            by_b == b.cost * b.urgency_minutes(),
            by_c == c.cost * c.urgency_minutes(),
            a.cost > 0,
            b.cost > 0,
            c.cost > 0,
            a.urgency_minutes() > 0,
            b.urgency_minutes() > 0,
            c.urgency_minutes() > 0,
    ;
    lemma_scaling_keeps_sign(xab, yab, s, by_c);
    lemma_scaling_keeps_sign(xbc, ybc, s, by_a);
    lemma_sum_not_negative(by_c * xab, by_c * yab, by_a * xbc, by_a * ybc, s);
    lemma_gaps_add_up(a, b, c);
    lemma_scaling_keeps_sign(xac, yac, s, by_b);
}

/// Where `a` is above `b` and `c` is not above `b`, `a` is above `c`.
pub proof fn lemma_exceeds_chains(a: Score, b: Score, c: Score)
    requires
        a.wf(),
        b.wf(),
        c.wf(),
        a.norm_squared == b.norm_squared,
        b.norm_squared == c.norm_squared,
        exceeds(a, b),
        !exceeds(c, b),
    ensures
        exceeds(a, c),
{
    if !exceeds(a, c) {
        lemma_not_exceeded_chains(b, c, a);
    }
}

/// In a batch whose priorities are all zero the urgency alone decides: the
/// value part of every score counts as zero, and nothing is divided by the
/// empty norm.
pub proof fn lemma_order_in_a_batch_of_zero_priorities(a: Score, b: Score)
    requires
        a.wf(),
        b.wf(),
        a.norm_squared == 0,
        b.norm_squared == 0,
    ensures
        exceeds(a, b) == (a.urgency_cost() * b.urgency_minutes() > b.urgency_cost()
            * a.urgency_minutes()),
{
    let u = urgency_gap(a, b);
    let c = a.cost * b.cost;
    let m = a.urgency_minutes() * b.urgency_minutes();
    assert(c > 0) by (nonlinear_arith)
        requires
            c == a.cost * b.cost,
            a.cost > 0,
            b.cost > 0,
    ;
    assert((u * c > 0) == (u > 0) && (u * c >= 0) == (u >= 0)) by (nonlinear_arith)
        requires
            c > 0,
    ;
    assert((0 * b.cost - 0 * a.cost) * m == 0) by (nonlinear_arith);
}

/// Between two tasks without a deadline the larger `p²/c` decides.
pub proof fn lemma_order_without_deadlines(a: Score, b: Score)
    requires
        a.minutes_remaining is None,
        b.minutes_remaining is None,
    ensures
        exceeds(a, b) == (a.priority_squared * b.cost > b.priority_squared * a.cost),
{
    let n = density_gap(a, b);
    assert(n * (1 * 1) == n) by (nonlinear_arith);
    assert((0 * 1 - 0 * 1) * (a.cost * b.cost) == 0) by (nonlinear_arith);
}

} // verus!
