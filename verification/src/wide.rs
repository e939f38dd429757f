//! Natural numbers of any size, for products that outgrow 128 bits.
//!
//! A number is a list of 64-bit limbs, least significant first. Only what the
//! comparison of scores needs is here: products, sums and `<`.

use vstd::prelude::*;

verus! {

/// The base of the limbs: two to the 64.
pub const RADIX: u128 = 0x1_0000_0000_0000_0000;

/// The weight of the limb at a place: the base to the power of the place.
pub open spec fn radix_power(place: nat) -> nat
    decreases place,
{
    if place == 0 {
        1
    } else {
        RADIX as nat * radix_power((place - 1) as nat)
    }
}

/// The number that a list of limbs stands for.
pub open spec fn limbs_value(limbs: Seq<u64>) -> nat
    decreases limbs.len(),
{
    if limbs.len() == 0 {
        0
    } else {
        limbs_value(limbs.drop_last()) + limbs.last() as nat * radix_power(
            (limbs.len() - 1) as nat,
        )
    }
}

/// A natural number of any size.
#[derive(Debug)]
pub struct Wide {
    pub limbs: Vec<u64>,
}

impl View for Wide {
    type V = nat;

    open spec fn view(&self) -> nat {
        limbs_value(self.limbs@)
    }
}

/// A list of limbs stands for less than the weight of the place after its
/// last.
pub proof fn lemma_value_below_weight(limbs: Seq<u64>)
    ensures
        limbs_value(limbs) < radix_power(limbs.len()),
    decreases limbs.len(),
{
    if limbs.len() > 0 {
        lemma_value_below_weight(limbs.drop_last());
        let weight = radix_power((limbs.len() - 1) as nat);
        let top = limbs.last() as nat;
        assert(top * weight <= (RADIX - 1) * weight) by (nonlinear_arith)
            requires
                top <= RADIX - 1,
                weight >= 0,
        ;
        assert((RADIX - 1) * weight + weight == RADIX as nat * weight) by (nonlinear_arith);
    }
}

/// A limb at the end adds its value at that place.
pub proof fn lemma_push_adds_limb(limbs: Seq<u64>, limb: u64)
    ensures
        limbs_value(limbs.push(limb)) == limbs_value(limbs) + limb as nat * radix_power(
            limbs.len(),
        ),
{
    let longer = limbs.push(limb);
    assert(longer.drop_last() == limbs);
    assert(longer.last() == limb);
    assert(limbs_value(longer) == limbs_value(longer.drop_last()) + longer.last() as nat
        * radix_power((longer.len() - 1) as nat));
}

/// A limb of zero at the front multiplies by the base.
pub proof fn lemma_front_zero_shifts(limbs: Seq<u64>)
    ensures
        limbs_value(seq![0u64] + limbs) == RADIX as nat * limbs_value(limbs),
    decreases limbs.len(),
{
    let shifted = seq![0u64] + limbs;
    if limbs.len() == 0 {
        assert(shifted.drop_last() =~= Seq::<u64>::empty());
        assert(limbs_value(shifted) == limbs_value(shifted.drop_last()) + shifted.last() as nat
            * radix_power(0));
    } else {
        lemma_front_zero_shifts(limbs.drop_last());
        assert(shifted.drop_last() =~= seq![0u64] + limbs.drop_last());
        assert(shifted.last() == limbs.last());
        let weight = radix_power((limbs.len() - 1) as nat);
        let top = limbs.last() as nat;
        let rest = limbs_value(limbs.drop_last());
        assert(radix_power(limbs.len()) == RADIX as nat * weight);
        assert(RADIX as nat * rest + top * (RADIX as nat * weight) == RADIX as nat * (rest + top
            * weight)) by (nonlinear_arith);
    }
}

/// Of two lists of one length that agree above a place and differ at it, the
/// one with the smaller limb there stands for the smaller number.
pub proof fn lemma_first_difference_decides(a: Seq<u64>, b: Seq<u64>, place: int)
    requires
        a.len() == b.len(),
        0 <= place < a.len(),
        forall|j: int| place < j < a.len() ==> a[j] == b[j],
        a[place] < b[place],
    ensures
        limbs_value(a) < limbs_value(b),
    decreases a.len(),
{
    let weight = radix_power((a.len() - 1) as nat);
    if place == a.len() - 1 {
        lemma_value_below_weight(a.drop_last());
        let low = a.last() as nat;
        let high = b.last() as nat;
        assert(low * weight + weight <= high * weight) by (nonlinear_arith)
            requires
                low + 1 <= high,
                weight >= 0,
        ;
    } else {
        assert(forall|j: int| place < j < a.len() - 1 ==> a.drop_last()[j] == a[j]);
        assert(forall|j: int| place < j < a.len() - 1 ==> b.drop_last()[j] == b[j]);
        lemma_first_difference_decides(a.drop_last(), b.drop_last(), place);
    }
}

fn padded(limbs: &Vec<u64>, length: usize) -> (r: Vec<u64>)
    requires
        limbs.len() <= length,
    ensures
        r.len() == length,
        limbs_value(r@) == limbs_value(limbs@),
{
    let mut out: Vec<u64> = Vec::new();
    let mut i: usize = 0;
    while i < limbs.len()
        invariant
            i <= limbs.len(),
            out@ == limbs@.take(i as int),
        decreases limbs.len() - i,
    {
        out.push(limbs[i]);
        assert(limbs@.take(i + 1) == limbs@.take(i as int).push(limbs@[i as int]));
        i += 1;
    }
    assert(limbs@.take(i as int) == limbs@);
    while i < length
        invariant
            limbs.len() <= i <= length,
            out.len() == i,
            limbs_value(out@) == limbs_value(limbs@),
        decreases length - i,
    {
        proof {
            lemma_push_adds_limb(out@, 0);
        }
        out.push(0);
        i += 1;
    }
    out
}

impl Wide {
    /// The number as a wide one.
    pub fn from_u128(value: u128) -> (r: Wide)
        ensures
            r@ == value,
    {
        let low: u64 = (value % RADIX) as u64;
        let high: u64 = (value / RADIX) as u64;
        let limbs: Vec<u64> = vec![low, high];
        proof {
            let none = Seq::<u64>::empty();
            assert(limbs_value(none) == 0);
            lemma_push_adds_limb(none, low);
            lemma_push_adds_limb(none.push(low), high);
            assert(limbs@ =~= none.push(low).push(high));
            assert(none.len() == 0);
            assert(none.push(low).len() == 1);
            assert(radix_power(0) == 1);
            assert(radix_power(1) == RADIX as nat * radix_power(0));
            let unit = radix_power(0);
            let base = radix_power(1);
            assert(low as nat * unit == low) by (nonlinear_arith)
                requires
                    unit == 1,
            ;
            assert(high as nat * base == high * RADIX) by (nonlinear_arith)
                requires
                    base == RADIX,
            ;
            assert(value == low + high * RADIX);
        }
        Wide { limbs }
    }

    /// The product with a number of 64 bits.
    pub fn times_u64(&self, factor: u64) -> (r: Wide)
        ensures
            r@ == self@ * factor,
    {
        let mut out: Vec<u64> = Vec::new();
        let mut carry: u64 = 0;
        let mut i: usize = 0;
        proof {
            assert(self.limbs@.take(0) =~= Seq::<u64>::empty());
            assert(limbs_value(out@) == 0);
            assert(limbs_value(self.limbs@.take(0)) == 0);
            let unit = radix_power(0);
            assert(carry * unit == 0 && 0 * factor == 0) by (nonlinear_arith)
                requires
                    carry == 0,
            ;
        }
        while i < self.limbs.len()
            invariant
                i <= self.limbs.len(),
                out.len() == i,
                limbs_value(out@) + carry * radix_power(i as nat) == limbs_value(
                    self.limbs@.take(i as int),
                ) * factor,
            decreases self.limbs.len() - i,
        {
            let limb: u64 = self.limbs[i];
            assert(limb * factor <= 0xffff_ffff_ffff_ffff * 0xffff_ffff_ffff_ffff)
                by (nonlinear_arith)
                requires
                    limb <= 0xffff_ffff_ffff_ffff,
                    factor <= 0xffff_ffff_ffff_ffff,
            ;
            let product: u128 = (limb as u128) * (factor as u128) + (carry as u128);
            let low: u64 = (product % RADIX) as u64;
            let high: u64 = (product / RADIX) as u64;
            proof {
                let weight = radix_power(i as nat);
                let seen = limbs_value(self.limbs@.take(i as int));
                let written = limbs_value(out@);
                assert(self.limbs@.take(i + 1).drop_last() == self.limbs@.take(i as int));
                assert(out@.push(low).drop_last() == out@);
                assert(radix_power((i + 1) as nat) == RADIX as nat * weight);
                assert(product == low + high * RADIX);
                assert(written + low * weight + high * (RADIX as nat * weight) == (seen + limb
                    * weight) * factor) by (nonlinear_arith)
                    requires
                        written + carry * weight == seen * factor,
                        limb * factor + carry == low + high * RADIX,
                ;
            }
            out.push(low);
            carry = high;
            i += 1;
        }
        proof {
            assert(self.limbs@.take(i as int) == self.limbs@);
            assert(out@.push(carry).drop_last() == out@);
        }
        out.push(carry);
        Wide { limbs: out }
    }

    /// The product with the base: every limb moves up one place.
    pub fn shifted(&self) -> (r: Wide)
        ensures
            r@ == self@ * RADIX,
    {
        let mut out: Vec<u64> = Vec::new();
        out.push(0);
        let mut i: usize = 0;
        while i < self.limbs.len()
            invariant
                i <= self.limbs.len(),
                out@ == seq![0u64] + self.limbs@.take(i as int),
            decreases self.limbs.len() - i,
        {
            out.push(self.limbs[i]);
            assert(out@ =~= seq![0u64] + self.limbs@.take(i + 1));
            i += 1;
        }
        proof {
            assert(self.limbs@.take(i as int) == self.limbs@);
            lemma_front_zero_shifts(self.limbs@);
            assert(self@ * RADIX == RADIX as nat * self@) by (nonlinear_arith);
        }
        Wide { limbs: out }
    }

    /// The sum with another wide number.
    pub fn plus(&self, other: &Wide) -> (r: Wide)
        ensures
            r@ == self@ + other@,
    {
        let length: usize = if self.limbs.len() >= other.limbs.len() {
            self.limbs.len()
        } else {
            other.limbs.len()
        };
        let left = padded(&self.limbs, length);
        let right = padded(&other.limbs, length);
        let mut out: Vec<u64> = Vec::new();
        let mut carry: u64 = 0;
        let mut i: usize = 0;
        proof {
            assert(left@.take(0) =~= Seq::<u64>::empty());
            assert(right@.take(0) =~= Seq::<u64>::empty());
            assert(limbs_value(out@) == 0);
            assert(limbs_value(left@.take(0)) == 0);
            assert(limbs_value(right@.take(0)) == 0);
            let unit = radix_power(0);
            assert(carry * unit == 0) by (nonlinear_arith)
                requires
                    carry == 0,
            ;
        }
        while i < length
            invariant
                i <= length,
                left.len() == length,
                right.len() == length,
                out.len() == i,
                carry <= 1,
                limbs_value(out@) + carry * radix_power(i as nat) == limbs_value(
                    left@.take(i as int),
                ) + limbs_value(right@.take(i as int)),
            decreases length - i,
        {
            let total: u128 = (left[i] as u128) + (right[i] as u128) + (carry as u128);
            let low: u64 = (total % RADIX) as u64;
            let high: u64 = (total / RADIX) as u64;
            proof {
                let weight = radix_power(i as nat);
                let written = limbs_value(out@);
                let a = left@[i as int] as nat;
                let b = right@[i as int] as nat;
                assert(left@.take(i + 1).drop_last() == left@.take(i as int));
                assert(right@.take(i + 1).drop_last() == right@.take(i as int));
                assert(out@.push(low).drop_last() == out@);
                assert(radix_power((i + 1) as nat) == RADIX as nat * weight);
                assert(total == low + high * RADIX);
                assert(low * weight + high * (RADIX as nat * weight) == a * weight + b * weight
                    + carry * weight) by (nonlinear_arith)
                    requires
                        a + b + carry == low + high * RADIX,
                ;
            }
            out.push(low);
            carry = high;
            i += 1;
        }
        proof {
            assert(left@.take(i as int) == left@);
            assert(right@.take(i as int) == right@);
            assert(out@.push(carry).drop_last() == out@);
        }
        out.push(carry);
        Wide { limbs: out }
    }

    /// The product with a number of 128 bits.
    pub fn times_u128(&self, factor: u128) -> (r: Wide)
        ensures
            r@ == self@ * factor,
    {
        let low: u64 = (factor % RADIX) as u64;
        let high: u64 = (factor / RADIX) as u64;
        let by_low = self.times_u64(low);
        let by_high = self.times_u64(high).shifted();
        let out = by_low.plus(&by_high);
        proof {
            let value = self@;
            assert(value * low + value * high * RADIX == value * factor) by (nonlinear_arith)
                requires
                    factor == low + high * RADIX,
            ;
        }
        out
    }

    /// Whether this number is below the other.
    pub fn less_than(&self, other: &Wide) -> (r: bool)
        ensures
            r == (self@ < other@),
    {
        let length: usize = if self.limbs.len() >= other.limbs.len() {
            self.limbs.len()
        } else {
            other.limbs.len()
        };
        let left = padded(&self.limbs, length);
        let right = padded(&other.limbs, length);
        let mut i: usize = length;
        while i > 0
            invariant
                i <= length,
                left.len() == length,
                right.len() == length,
                limbs_value(left@) == self@,
                limbs_value(right@) == other@,
                forall|j: int| i <= j < length ==> left@[j] == right@[j],
            decreases i,
        {
            i -= 1;
            if left[i] < right[i] {
                proof {
                    lemma_first_difference_decides(left@, right@, i as int);
                }
                return true;
            }
            if left[i] > right[i] {
                proof {
                    lemma_first_difference_decides(right@, left@, i as int);
                }
                return false;
            }
        }
        assert(left@ =~= right@);
        false
    }
}

} // verus!
