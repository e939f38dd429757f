//! The sign of `x + y·√s` for whole numbers `x`, `y` and `s`, decided without
//! taking a root.
//!
//! Where `x` and `y` pull the same way the sign is plain. Where they pull
//! against each other the squares decide: `x` wins over `y·√s` exactly when
//! `x²` is more than `s·y²`. The lemmas say that the numbers with
//! `x + y·√s >= 0` are closed under addition and under scaling, which is what
//! makes comparing by this sign an order.

use vstd::prelude::*;

verus! {

/// Whether `x + y·√s` is above zero. For `s == 0` the sign of `x` decides, and
/// that of `y` where `x` is zero.
pub open spec fn root_sum_positive(x: int, y: int, s: int) -> bool {
    if x >= 0 && y >= 0 {
        x > 0 || y > 0
    } else if x <= 0 && y <= 0 {
        false
    } else if x > 0 {
        x * x > s * (y * y)
    } else {
        s * (y * y) > x * x
    }
}

/// Whether `x + y·√s` is zero or above.
pub open spec fn root_sum_not_negative(x: int, y: int, s: int) -> bool {
    if x >= 0 && y >= 0 {
        true
    } else if x <= 0 && y <= 0 {
        false
    } else if x > 0 {
        x * x >= s * (y * y)
    } else {
        s * (y * y) >= x * x
    }
}

/// `x + y·√s` is zero or above exactly when its opposite is not above zero.
pub proof fn lemma_not_negative_is_not_positive_opposite(x: int, y: int, s: int)
    ensures
        root_sum_not_negative(x, y, s) == !root_sum_positive(-x, -y, s),
{
    assert((-x) * (-x) == x * x) by (nonlinear_arith);
    assert((-y) * (-y) == y * y) by (nonlinear_arith);
}

/// What is above zero is not below it.
pub proof fn lemma_positive_is_not_negative(x: int, y: int, s: int)
    ensures
        root_sum_positive(x, y, s) ==> root_sum_not_negative(x, y, s),
{
}

/// Of two numbers that are not negative, the one with the larger square is
/// the larger.
pub proof fn lemma_square_order(a: int, b: int)
    requires
        a >= 0,
        b >= 0,
    ensures
        a * a >= b * b ==> a >= b,
        a * a > b * b ==> a > b,
        a >= b ==> a * a >= b * b,
{
    assert(a < b ==> a * a < b * b) by (nonlinear_arith)
        requires
            a >= 0,
            b >= 0,
    ;
    assert(a <= b ==> a * a <= b * b) by (nonlinear_arith)
        requires
            a >= 0,
            b >= 0,
    ;
    assert(a >= b ==> a * a >= b * b) by (nonlinear_arith)
        requires
            a >= 0,
            b >= 0,
    ;
}

/// Scaling by a number above zero keeps the sign.
pub proof fn lemma_scaling_keeps_sign(x: int, y: int, s: int, k: int)
    requires
        k > 0,
    ensures
        root_sum_not_negative(k * x, k * y, s) == root_sum_not_negative(x, y, s),
        root_sum_positive(k * x, k * y, s) == root_sum_positive(x, y, s),
{
    let kk = k * k;
    let xx = x * x;
    let syy = s * (y * y);
    assert(kk > 0) by (nonlinear_arith)
        requires
            kk == k * k,
            k > 0,
    ;
    assert((k * x) * (k * x) == kk * xx) by (nonlinear_arith)
        requires
            kk == k * k,
            xx == x * x,
    ;
    assert(s * ((k * y) * (k * y)) == kk * syy) by (nonlinear_arith)
        requires
            kk == k * k,
            syy == s * (y * y),
    ;
    assert((kk * xx >= kk * syy) == (xx >= syy) && (kk * xx > kk * syy) == (xx > syy))
        by (nonlinear_arith)
        requires
            kk > 0,
    ;
    assert((k * x > 0) == (x > 0) && (k * x >= 0) == (x >= 0) && (k * x <= 0) == (x <= 0))
        by (nonlinear_arith)
        requires
            k > 0,
    ;
    assert((k * y > 0) == (y > 0) && (k * y >= 0) == (y >= 0) && (k * y <= 0) == (y <= 0))
        by (nonlinear_arith)
        requires
            k > 0,
    ;
}

/// Where `a >= b·√s` and `c >= d·√s`, also `a·c >= s·b·d`.
proof fn lemma_products_keep_side(a: int, b: int, c: int, d: int, s: int)
    requires
        a >= 0,
        b >= 0,
        c >= 0,
        d >= 0,
        s >= 0,
        a * a >= s * (b * b),
        c * c >= s * (d * d),
    ensures
        a * c >= s * (b * d),
{
    let aa = a * a;
    let cc = c * c;
    let sbb = s * (b * b);
    let sdd = s * (d * d);
    assert(sbb >= 0 && sdd >= 0) by (nonlinear_arith)
        requires
            s >= 0,
            sbb == s * (b * b),
            sdd == s * (d * d),
    ;
    assert(aa * cc >= sbb * sdd) by (nonlinear_arith)
        requires
            aa >= sbb,
            cc >= sdd,
            sbb >= 0,
            sdd >= 0,
    ;
    let left = a * c;
    let right = s * (b * d);
    assert(left * left == aa * cc) by (nonlinear_arith)
        requires
            left == a * c,
            aa == a * a,
            cc == c * c,
    ;
    assert(right * right == sbb * sdd) by (nonlinear_arith)
        requires
            right == s * (b * d),
            sbb == s * (b * b),
            sdd == s * (d * d),
    ;
    assert(left >= 0 && right >= 0) by (nonlinear_arith)
        requires
            left == a * c,
            right == s * (b * d),
            a >= 0,
            b >= 0,
            c >= 0,
            d >= 0,
            s >= 0,
    ;
    lemma_square_order(left, right);
}

/// Where `a <= b·√s` and `c <= d·√s`, also `a·c <= s·b·d`.
proof fn lemma_products_keep_other_side(a: int, b: int, c: int, d: int, s: int)
    requires
        a >= 0,
        b >= 0,
        c >= 0,
        d >= 0,
        s >= 0,
        s * (b * b) >= a * a,
        s * (d * d) >= c * c,
    ensures
        s * (b * d) >= a * c,
{
    let aa = a * a;
    let cc = c * c;
    let sbb = s * (b * b);
    let sdd = s * (d * d);
    assert(aa >= 0 && cc >= 0) by (nonlinear_arith)
        requires
            aa == a * a,
            cc == c * c,
    ;
    assert(sbb * sdd >= aa * cc) by (nonlinear_arith)
        requires
            sbb >= aa,
            sdd >= cc,
            aa >= 0,
            cc >= 0,
    ;
    let left = a * c;
    let right = s * (b * d);
    assert(left * left == aa * cc) by (nonlinear_arith)
        requires
            left == a * c,
            aa == a * a,
            cc == c * c,
    ;
    assert(right * right == sbb * sdd) by (nonlinear_arith)
        requires
            right == s * (b * d),
            sbb == s * (b * b),
            sdd == s * (d * d),
    ;
    assert(left >= 0 && right >= 0) by (nonlinear_arith)
        requires
            left == a * c,
            right == s * (b * d),
            a >= 0,
            b >= 0,
            c >= 0,
            d >= 0,
            s >= 0,
    ;
    lemma_square_order(right, left);
}

/// Two numbers on the side of `x`: `(a − b·√s) + (c − d·√s)` is not negative
/// where both parts are not.
proof fn lemma_sum_on_rational_side(a: int, b: int, c: int, d: int, s: int)
    requires
        a >= 0,
        b >= 0,
        c >= 0,
        d >= 0,
        s >= 0,
        a * a >= s * (b * b),
        c * c >= s * (d * d),
    ensures
        (a + c) * (a + c) >= s * ((b + d) * (b + d)),
{
    lemma_products_keep_side(a, b, c, d, s);
    let aa = a * a;
    let cc = c * c;
    let ac = a * c;
    let sbb = s * (b * b);
    let sdd = s * (d * d);
    let sbd = s * (b * d);
    assert((a + c) * (a + c) == aa + 2 * ac + cc) by (nonlinear_arith)
        requires
            aa == a * a,
            cc == c * c,
            ac == a * c,
    ;
    assert(s * ((b + d) * (b + d)) == sbb + 2 * sbd + sdd) by (nonlinear_arith)
        requires
            sbb == s * (b * b),
            sdd == s * (d * d),
            sbd == s * (b * d),
    ;
}

/// Two numbers on the side of `y·√s`: `(b·√s − a) + (d·√s − c)` is not
/// negative where both parts are not.
proof fn lemma_sum_on_root_side(a: int, b: int, c: int, d: int, s: int)
    requires
        a >= 0,
        b >= 0,
        c >= 0,
        d >= 0,
        s >= 0,
        s * (b * b) >= a * a,
        s * (d * d) >= c * c,
    ensures
        s * ((b + d) * (b + d)) >= (a + c) * (a + c),
{
    lemma_products_keep_other_side(a, b, c, d, s);
    let aa = a * a;
    let cc = c * c;
    let ac = a * c;
    let sbb = s * (b * b);
    let sdd = s * (d * d);
    let sbd = s * (b * d);
    assert((a + c) * (a + c) == aa + 2 * ac + cc) by (nonlinear_arith)
        requires
            aa == a * a,
            cc == c * c,
            ac == a * c,
    ;
    assert(s * ((b + d) * (b + d)) == sbb + 2 * sbd + sdd) by (nonlinear_arith)
        requires
            sbb == s * (b * b),
            sdd == s * (d * d),
            sbd == s * (b * d),
    ;
}

/// Where `a >= b·√s` and `d·√s >= c`, with `b` and `c` above zero, the two
/// fractions are in order: `a/b >= c/d`, written as `a·d >= b·c`.
proof fn lemma_sides_cross(a: int, b: int, c: int, d: int, s: int)
    requires
        a > 0,
        b > 0,
        c > 0,
        d > 0,
        s >= 0,
        a * a >= s * (b * b),
        s * (d * d) >= c * c,
    ensures
        a * d >= b * c,
{
    let aa = a * a;
    let bb = b * b;
    let cc = c * c;
    let dd = d * d;
    let sbb = s * bb;
    let sdd = s * dd;
    assert(bb >= 0 && dd >= 0) by (nonlinear_arith)
        requires
            bb == b * b,
            dd == d * d,
    ;
    assert(aa * dd >= sbb * dd) by (nonlinear_arith)
        requires
            aa >= sbb,
            dd >= 0,
    ;
    assert(sbb * dd == bb * sdd) by (nonlinear_arith)
        requires
            sbb == s * bb,
            sdd == s * dd,
    ;
    assert(bb * sdd >= bb * cc) by (nonlinear_arith)
        requires
            sdd >= cc,
            bb >= 0,
    ;
    let left = a * d;
    let right = b * c;
    assert(left * left == aa * dd) by (nonlinear_arith)
        requires
            left == a * d,
            aa == a * a,
            dd == d * d,
    ;
    assert(right * right == bb * cc) by (nonlinear_arith)
        requires
            right == b * c,
            bb == b * b,
            cc == c * c,
    ;
    assert(left >= 0 && right >= 0) by (nonlinear_arith)
        requires
            left == a * d,
            right == b * c,
            a > 0,
            b > 0,
            c > 0,
            d > 0,
    ;
    lemma_square_order(left, right);
}

/// `(a − b·√s) + (d·√s − c)` where the rational parts leave `a − c > 0` and
/// the root parts leave `b − d > 0`: the sum is not negative.
proof fn lemma_mixed_sum_rational(a: int, b: int, c: int, d: int, s: int)
    requires
        a > 0,
        b > 0,
        c > 0,
        d > 0,
        s >= 0,
        a * a >= s * (b * b),
        s * (d * d) >= c * c,
        a - c > 0,
        b - d > 0,
    ensures
        (a - c) * (a - c) >= s * ((b - d) * (b - d)),
{
    lemma_sides_cross(a, b, c, d, s);
    let p = a - c;
    let q = b - d;
    // p/q >= a/b, and a/b >= √s.
    assert(p * b >= a * q) by (nonlinear_arith)
        requires
            p == a - c,
            q == b - d,
            a * d >= b * c,
    ;
    let pb = p * b;
    let aq = a * q;
    assert(pb >= 0 && aq >= 0) by (nonlinear_arith)
        requires
            pb == p * b,
            aq == a * q,
            p > 0,
            q > 0,
            a > 0,
            b > 0,
    ;
    lemma_square_order(pb, aq);
    let pp = p * p;
    let qq = q * q;
    let aa = a * a;
    let bb = b * b;
    let sbb = s * bb;
    assert(pb * pb == pp * bb) by (nonlinear_arith)
        requires
            pb == p * b,
            pp == p * p,
            bb == b * b,
    ;
    assert(aq * aq == aa * qq) by (nonlinear_arith)
        requires
            aq == a * q,
            aa == a * a,
            qq == q * q,
    ;
    assert(qq >= 0) by (nonlinear_arith)
        requires
            qq == q * q,
    ;
    assert(aa * qq >= sbb * qq) by (nonlinear_arith)
        requires
            aa >= sbb,
            qq >= 0,
    ;
    let sqq = s * qq;
    assert(sbb * qq == sqq * bb) by (nonlinear_arith)
        requires
            sbb == s * bb,
            sqq == s * qq,
    ;
    assert(bb > 0) by (nonlinear_arith)
        requires
            bb == b * b,
            b > 0,
    ;
    assert(pp >= sqq) by (nonlinear_arith)
        requires
            pp * bb >= sqq * bb,
            bb > 0,
    ;
}

/// `(a − b·√s) + (d·√s − c)` where the rational parts leave `c − a > 0` and
/// the root parts leave `d − b > 0`: the sum is not negative.
proof fn lemma_mixed_sum_root(a: int, b: int, c: int, d: int, s: int)
    requires
        a > 0,
        b > 0,
        c > 0,
        d > 0,
        s >= 0,
        a * a >= s * (b * b),
        s * (d * d) >= c * c,
        c - a > 0,
        d - b > 0,
    ensures
        s * ((d - b) * (d - b)) >= (c - a) * (c - a),
{
    lemma_sides_cross(a, b, c, d, s);
    let p = c - a;
    let q = d - b;
    // p/q <= c/d, and c/d <= √s.
    assert(q * c >= d * p) by (nonlinear_arith)
        requires
            p == c - a,
            q == d - b,
            a * d >= b * c,
    ;
    let qc = q * c;
    let dp = d * p;
    assert(qc >= 0 && dp >= 0) by (nonlinear_arith)
        requires
            qc == q * c,
            dp == d * p,
            p > 0,
            q > 0,
            c > 0,
            d > 0,
    ;
    lemma_square_order(qc, dp);
    let pp = p * p;
    let qq = q * q;
    let cc = c * c;
    let dd = d * d;
    let sdd = s * dd;
    let sqq = s * qq;
    assert(qc * qc == qq * cc) by (nonlinear_arith)
        requires
            qc == q * c,
            qq == q * q,
            cc == c * c,
    ;
    assert(dp * dp == dd * pp) by (nonlinear_arith)
        requires
            dp == d * p,
            dd == d * d,
            pp == p * p,
    ;
    assert(qq >= 0 && pp >= 0) by (nonlinear_arith)
        requires
            qq == q * q,
            pp == p * p,
    ;
    // s·qq·cc >= s·dd·pp >= cc·pp, and cc > 0.
    assert(s * (qq * cc) >= s * (dd * pp)) by (nonlinear_arith)
        requires
            qq * cc >= dd * pp,
            s >= 0,
    ;
    assert(s * (qq * cc) == sqq * cc) by (nonlinear_arith)
        requires
            sqq == s * qq,
    ;
    assert(s * (dd * pp) == sdd * pp) by (nonlinear_arith)
        requires
            sdd == s * dd,
    ;
    assert(sdd * pp >= cc * pp) by (nonlinear_arith)
        requires
            sdd >= cc,
            pp >= 0,
    ;
    assert(cc > 0) by (nonlinear_arith)
        requires
            cc == c * c,
            c > 0,
    ;
    assert(sqq >= pp) by (nonlinear_arith)
        requires
            sqq * cc >= pp * cc,
            cc > 0,
    ;
}

/// The sum of a number with both parts not negative and any other number
/// that is not negative.
proof fn lemma_sum_with_plain(x1: int, y1: int, x2: int, y2: int, s: int)
    requires
        s >= 0,
        x1 >= 0,
        y1 >= 0,
        root_sum_not_negative(x2, y2, s),
    ensures
        root_sum_not_negative(x1 + x2, y1 + y2, s),
{
    let x = x1 + x2;
    let y = y1 + y2;
    if x2 >= 0 && y2 >= 0 {
    } else if x2 > 0 {
        // y2 < 0 and x2² >= s·y2²
        if y < 0 {
            lemma_square_order(x, x2);
            lemma_square_order(-y2, -y);
            assert((-y2) * (-y2) == y2 * y2) by (nonlinear_arith);
            assert((-y) * (-y) == y * y) by (nonlinear_arith);
            let yy = y * y;
            let y2y2 = y2 * y2;
            assert(s * y2y2 >= s * yy) by (nonlinear_arith)
                requires
                    y2y2 >= yy,
                    s >= 0,
            ;
        }
    } else {
        // x2 < 0, y2 > 0 and s·y2² >= x2²
        if x < 0 {
            lemma_square_order(y, y2);
            lemma_square_order(-x2, -x);
            assert((-x2) * (-x2) == x2 * x2) by (nonlinear_arith);
            assert((-x) * (-x) == x * x) by (nonlinear_arith);
            let yy = y * y;
            let y2y2 = y2 * y2;
            assert(s * yy >= s * y2y2) by (nonlinear_arith)
                requires
                    yy >= y2y2,
                    s >= 0,
            ;
        }
    }
}

/// The sum of a number on the side of `x` and one on the side of `y·√s`.
proof fn lemma_sum_of_opposites(x1: int, y1: int, x2: int, y2: int, s: int)
    requires
        s >= 0,
        x1 > 0,
        y1 < 0,
        x1 * x1 >= s * (y1 * y1),
        x2 < 0,
        y2 > 0,
        s * (y2 * y2) >= x2 * x2,
    ensures
        root_sum_not_negative(x1 + x2, y1 + y2, s),
{
    let a = x1;
    let b = -y1;
    let c = -x2;
    let d = y2;
    let x = x1 + x2;
    let y = y1 + y2;
    assert(b * b == y1 * y1) by (nonlinear_arith)
        requires
            b == -y1,
    ;
    assert(c * c == x2 * x2) by (nonlinear_arith)
        requires
            c == -x2,
    ;
    lemma_sides_cross(a, b, c, d, s);
    if x >= 0 && y >= 0 {
    } else if x <= 0 && y <= 0 {
        assert(a * d <= c * d) by (nonlinear_arith)
            requires
                a <= c,
                d > 0,
        ;
        assert(c * d <= b * c) by (nonlinear_arith)
            requires
                d <= b,
                c > 0,
        ;
        assert(a < c ==> a * d < c * d) by (nonlinear_arith)
            requires
                d > 0,
        ;
        assert(d < b ==> c * d < b * c) by (nonlinear_arith)
            requires
                c > 0,
        ;
        assert(x == 0 && y == 0);
    } else if x > 0 {
        lemma_mixed_sum_rational(a, b, c, d, s);
        assert((b - d) * (b - d) == y * y) by (nonlinear_arith)
            requires
                y == d - b,
        ;
    } else {
        lemma_mixed_sum_root(a, b, c, d, s);
        assert((c - a) * (c - a) == x * x) by (nonlinear_arith)
            requires
                x == a - c,
        ;
    }
}

/// The numbers that are not negative are closed under addition.
pub proof fn lemma_sum_not_negative(x1: int, y1: int, x2: int, y2: int, s: int)
    requires
        s >= 0,
        root_sum_not_negative(x1, y1, s),
        root_sum_not_negative(x2, y2, s),
    ensures
        root_sum_not_negative(x1 + x2, y1 + y2, s),
{
    if x1 >= 0 && y1 >= 0 {
        lemma_sum_with_plain(x1, y1, x2, y2, s);
    } else if x2 >= 0 && y2 >= 0 {
        lemma_sum_with_plain(x2, y2, x1, y1, s);
    } else if x1 > 0 && x2 > 0 {
        assert((-y1) * (-y1) == y1 * y1) by (nonlinear_arith);
        assert((-y2) * (-y2) == y2 * y2) by (nonlinear_arith);
        lemma_sum_on_rational_side(x1, -y1, x2, -y2, s);
        assert(((-y1) + (-y2)) * ((-y1) + (-y2)) == (y1 + y2) * (y1 + y2)) by (nonlinear_arith);
    } else if x1 < 0 && x2 < 0 {
        assert((-x1) * (-x1) == x1 * x1) by (nonlinear_arith);
        assert((-x2) * (-x2) == x2 * x2) by (nonlinear_arith);
        lemma_sum_on_root_side(-x1, y1, -x2, y2, s);
        assert(((-x1) + (-x2)) * ((-x1) + (-x2)) == (x1 + x2) * (x1 + x2)) by (nonlinear_arith);
    } else if x1 > 0 {
        lemma_sum_of_opposites(x1, y1, x2, y2, s);
    } else {
        lemma_sum_of_opposites(x2, y2, x1, y1, s);
    }
}

} // verus!
