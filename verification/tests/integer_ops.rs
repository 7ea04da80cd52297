//! Equality, ordering, addition, multiplication and exponentiation checks
//! on small and limb-boundary values.

use bignum::Integer;

// Two integers with the same value compare equal under ==, and different
// values compare unequal under !=; a nonzero value never equals its own
// negation.
#[test]
fn integer_integer_equality_test() {
    let zero = Integer::from_u64(0);
    let ten1 = Integer::from_u64(10);
    let ten2 = Integer::from_u64(10);
    let neg_ten = ten1.neg();
    let twenty = Integer::from_u64(20);
    let neg_twenty = twenty.neg();

    assert!(zero.is_zero());
    assert!(zero.neg().is_zero());
    assert!(zero == zero);
    assert!(zero == zero.neg());
    assert!(zero == zero);
    assert!(ten1 == ten2);
    assert!(zero != ten1);
    assert!(ten1 != neg_ten);
    assert!(neg_twenty != neg_ten);
}

// The comparison operators agree with the numeric order, including across
// the single-limb boundary.
#[test]
fn integer_integer_ordering_test() {
    let zero = Integer::from_u64(0);
    let ten1 = Integer::from_u64(10);
    let ten2 = Integer::from_u64(10);
    let neg_ten = ten1.neg();
    let max = Integer::from_u64(u64::MAX);
    let one = Integer::from_u64(1);
    let max_one = max.add(&one);

    assert!(!(zero < zero));
    assert!(!(ten1 > ten1));
    assert!(ten1 <= ten2);
    assert!(zero < ten1);
    assert!(ten1 > zero);
    assert!(neg_ten < ten1);
    assert!(!(neg_ten > ten1));
    assert!(&max_one > &max);
    assert!(&max < &max_one);
}

// Addition and subtraction across signs, zero results, and carry/borrow
// across the limb boundary.
#[test]
fn integer_integer_add_test() {
    let zero = Integer::from_u64(0);
    let one = Integer::from_u64(1);
    let max = Integer::from_u64(u64::MAX);
    let max_one = max.add(&one);
    let two_max = max.add(&max);
    let ten = Integer::from_u64(10);
    let nine = Integer::from_u64(9);
    let neg_two = Integer::from_u64(2).neg();
    let neg_one = one.neg();
    let mut ten_from_one = Integer::from_u64(0);
    for _ in 0..10 {
        ten_from_one = ten_from_one.add(&one);
    }

    assert!(one.add(&neg_one) == zero);
    assert!(one.sub(&one) == zero);
    assert!(neg_one.add(&neg_one) == neg_two);
    assert!(neg_one.add(&one) == zero);
    assert!(ten.sub(&nine) == one);
    assert!(ten.sub(&one) == nine);
    assert!(neg_one.add(&one) == zero);
    assert!(zero.add(&zero) == zero);
    assert!(&ten == &ten_from_one);
    assert!(max_one.sub(&max) == one);
    assert!(max_one.sub(&max_one) == zero);
    assert!(two_max.sub(&max) == max);
}

// Small signed values add the same way native integers do.
#[test]
fn integer_loop_add_test() {
    for i in -10i64..10i64 {
        for j in -10i64..10i64 {
            let answer = Integer::from_i64(i + j);
            let i_num = Integer::from_i64(i);
            let j_num = Integer::from_i64(j);
            let result = i_num.add(&j_num);
            assert!(answer == result, "{} + {} != {}", i, j, i + j);
        }
    }
}

// Multiplication across signs, with zero, and with carries out of a limb.
#[test]
fn interger_mul_test() {
    let zero = Integer::from_u64(0);
    let two = Integer::from_u64(2);
    let ten = Integer::from_u64(10);
    let neg_ten = ten.neg();
    let hundred = Integer::from_u64(100);
    let neg_hundred = hundred.neg();
    let max = Integer::from_u64(u64::MAX);
    let two_max = max.add(&max);
    let four_max = two_max.add(&two_max);
    let eight_max = four_max.add(&four_max);
    let max_ten = eight_max.add(&two_max);

    assert!(ten.mul(&ten) == hundred);
    assert!(zero.mul(&ten) == zero);
    assert!(ten.mul(&neg_ten) == neg_hundred);
    assert!(neg_ten.mul(&neg_ten) == hundred);
    assert!(max.mul(&two) == max.add(&max));
    assert!(max.mul(&ten) == max_ten);
}

// Small signed values multiply the same way native integers do.
#[test]
fn integer_loop_mul_test() {
    for i in -10i64..10i64 {
        for j in -10i64..10i64 {
            let answer = Integer::from_i64(i * j);
            let i_num = Integer::from_i64(i);
            let j_num = Integer::from_i64(j);
            let result = i_num.mul(&j_num);
            assert!(answer == result, "{} * {} != {}", i, j, i * j);
        }
    }
}

// Exponentiation of small values matches native integer exponentiation.
#[test]
fn integer_loop_pow_test() {
    for i in 0u32..10u32 {
        for j in 0u32..10u32 {
            let answer = Integer::from_u32(i.pow(j));
            let i_num = Integer::from_u32(i);
            let j_num = Integer::from_u32(j);
            let result = i_num.pow(&j_num);
            assert!(answer == result, "{} ^ {} != {}", i, j, i.pow(j));
        }
    }
}
