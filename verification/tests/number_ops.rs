//! Checks through the `from_int` constructor: equality, ordering and
//! addition of small values.

use bignum::Integer;

// Two integers with the same value compare equal under ==, and different
// values compare unequal under !=.
#[test]
fn number_integer_equality_test() {
    let zero = Integer::from_int(0);
    let ten1 = Integer::from_int(10);
    let ten2 = Integer::from_int(10);
    let neg_ten = ten1.neg();
    let twenty = Integer::from_int(20);
    let neg_twenty = twenty.neg();

    assert!(zero.is_zero());
    assert!(zero.neg().is_zero());
    assert!(zero == zero);
    assert!(zero == zero.neg());
    assert!(zero == zero);
    assert!(ten1 == ten2);
    assert!(zero != ten1);
    assert!(ten1 != neg_ten);
    assert!(neg_twenty != neg_ten);
}

// The comparison operators agree with the numeric order.
#[test]
fn number_integer_ordering_test() {
    let zero = Integer::from_int(0);
    let ten1 = Integer::from_int(10);
    let ten2 = Integer::from_int(10);
    let neg_ten = ten1.neg();

    assert!(!(zero < zero));
    assert!(!(ten1 > ten1));
    assert!(ten1 <= ten2);
    assert!(zero < ten1);
    assert!(ten1 > zero);
    assert!(neg_ten < ten1);
    assert!(!(neg_ten > ten1));
}

// Sums across signs cancel and accumulate correctly.
#[test]
fn number_integer_add_test() {
    let zero = Integer::from_int(0);
    let one = Integer::from_int(1);
    let ten = Integer::from_int(10);
    let neg_two = Integer::from_int(2).neg();
    let neg_one = one.neg();
    let mut ten_from_one = Integer::from_int(0);
    for _ in 0..10 {
        ten_from_one = ten_from_one.add(&one);
    }

    assert!(one.add(&neg_one) == zero);
    assert!(one.sub(&one) == zero);
    assert!(neg_one.add(&neg_one) == neg_two);
    assert!(neg_one.add(&one) == zero);
    assert!(neg_one.add(&one) == zero);
    assert!(zero.add(&zero) == zero);
    assert!(&ten == &ten_from_one);
}

// Two small values add to their native sum.
#[test]
fn test_add() {
    let num1 = Integer::from_int(10);
    let num2 = Integer::from_int(5);
    let num3 = Integer::from_int(15);

    assert!(num1.add(&num2) == num3);
}
