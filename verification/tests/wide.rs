use taskman::wide::Wide;

fn small(value: u128) -> Wide {
    Wide::from_u128(value)
}

fn equal(a: &Wide, b: &Wide) -> bool {
    !a.less_than(b) && !b.less_than(a)
}

#[test]
fn a_number_keeps_its_limbs() {
    assert_eq!(small(0).limbs, vec![0, 0]);
    assert_eq!(small(1).limbs, vec![1, 0]);
    assert_eq!(small(1 << 64).limbs, vec![0, 1]);
    assert_eq!(small(u128::MAX).limbs, vec![u64::MAX, u64::MAX]);
}

#[test]
fn products_carry_into_the_next_limb() {
    assert_eq!(small(u128::MAX).times_u64(u64::MAX).limbs, vec![1, u64::MAX, u64::MAX - 1]);
    assert_eq!(small(7).times_u64(6).limbs, vec![42, 0, 0]);
    assert_eq!(small(7).times_u64(0).limbs, vec![0, 0, 0]);
}

#[test]
fn shifting_moves_every_limb_up() {
    assert_eq!(small(5).shifted().limbs, vec![0, 5, 0]);
}

#[test]
fn sums_carry_into_the_next_limb() {
    assert_eq!(small(u128::MAX).plus(&small(1)).limbs, vec![0, 0, 1]);
    assert_eq!(small(2).plus(&small(3).shifted()).limbs, vec![2, 3, 0, 0]);
}

#[test]
fn products_agree_with_128_bit_arithmetic() {
    let mut a: u64 = 3;
    let mut b: u64 = 5;
    for step in 0..200u64 {
        let product = a as u128 * b as u128;
        assert!(equal(&small(a as u128).times_u64(b), &small(product)));
        assert!(equal(&small(a as u128).times_u128(b as u128), &small(product)));
        assert!(equal(&small(b as u128).times_u128(a as u128), &small(product)));
        a = a.wrapping_mul(6_364_136_223_846_793_005).wrapping_add(step);
        b = b.wrapping_mul(2_862_933_555_777_941_757).wrapping_add(3 * step + 1);
    }
}

#[test]
fn products_do_not_depend_on_the_order_of_the_factors() {
    let a = u128::MAX - 12_345;
    let b = (1u128 << 100) + 987_654_321;
    let c = 0xdead_beef_u128 << 64;
    let one = small(a).times_u128(b).times_u128(c);
    let other = small(c).times_u128(a).times_u128(b);
    assert!(equal(&one, &other));
    assert!(!equal(&one, &other.plus(&small(1))));
}

#[test]
fn a_square_of_a_sum_expands() {
    let a = (1u128 << 127) + 3;
    let b = u64::MAX as u128;
    let left = small(a).plus(&small(b));
    let left = left.times_u128(a).plus(&left.times_u128(b));
    let right = small(a).times_u128(a).plus(&small(a).times_u128(b).times_u64(2)).plus(
        &small(b).times_u128(b),
    );
    assert!(equal(&left, &right));
}

#[test]
fn less_than_compares_numbers_and_not_lengths() {
    assert!(small(1).less_than(&small(2)));
    assert!(!small(2).less_than(&small(1)));
    assert!(!small(2).less_than(&small(2)));
    assert!(small(u128::MAX).less_than(&small(1).shifted().shifted()));
    assert!(!small(1).shifted().shifted().less_than(&small(u128::MAX)));
    assert!(small(0).times_u128(u128::MAX).less_than(&small(1)));
    assert!(!small(1).less_than(&small(0).times_u128(u128::MAX)));
    let long_zero = Wide { limbs: vec![0; 9] };
    let short_one = Wide { limbs: vec![1] };
    let empty = Wide { limbs: Vec::new() };
    assert!(long_zero.less_than(&short_one));
    assert!(!short_one.less_than(&long_zero));
    assert!(!empty.less_than(&long_zero));
    assert!(!long_zero.less_than(&empty));
    assert!(empty.less_than(&short_one));
}

#[test]
fn less_than_looks_at_the_highest_limb_first() {
    let high = Wide { limbs: vec![0, 0, 1] };
    let low = Wide { limbs: vec![u64::MAX, u64::MAX, 0] };
    assert!(low.less_than(&high));
    assert!(!high.less_than(&low));
    let a = Wide { limbs: vec![9, 1, 5] };
    let b = Wide { limbs: vec![1, 2, 5] };
    assert!(a.less_than(&b));
    assert!(!b.less_than(&a));
}
