//! Scenario checks for the documented properties: identities, negation,
//! commutativity, sign rules, ordering, carries, exponentiation,
//! round-trips, overflow into a second limb, and hexadecimal formatting.

use core::cmp::Ordering;
use bignum::Integer;

// x + 0 == x, x * 1 == x and x - x == 0, also across the limb boundary.
#[test]
fn identity_scenarios() {
    let zero = Integer::from_u64(0);
    let one = Integer::from_u64(1);
    let samples = [
        Integer::from_i64(0),
        Integer::from_i64(7),
        Integer::from_i64(-7),
        Integer::from_u64(u64::MAX),
        Integer::from_u64(u64::MAX).add(&Integer::from_u64(u64::MAX)),
        Integer::from_u64(u64::MAX).neg(),
    ];
    for x in samples.iter() {
        assert!(x.add(&zero) == *x);
        assert!(zero.add(x) == *x);
        assert!(x.mul(&one) == *x);
        assert!(one.mul(x) == *x);
        assert!(x.sub(x) == zero);
        assert!(!x.sub(x).negative);
    }
}

// x + (-x) == 0 for nonzero x, and -0 == 0 with the sign bit clear.
#[test]
fn negation_scenarios() {
    let zero = Integer::from_u64(0);
    let samples = [
        Integer::from_i64(1),
        Integer::from_i64(-13),
        Integer::from_u64(u64::MAX),
        Integer::from_u64(u64::MAX).add(&Integer::from_u64(2)),
    ];
    for x in samples.iter() {
        let sum = x.add(&x.neg());
        assert!(sum == zero);
        assert!(sum.is_zero());
        assert!(!sum.negative);
    }
    let neg_zero = zero.neg();
    assert!(neg_zero == zero);
    assert!(!neg_zero.negative);
}

// Addition and multiplication commute and associate on small and
// multi-limb operands.
#[test]
fn commutativity_associativity_scenarios() {
    let big = Integer::from_u64(u64::MAX).add(&Integer::from_u64(u64::MAX));
    let samples = [
        Integer::from_i64(3),
        Integer::from_i64(-4),
        Integer::from_u64(u64::MAX),
        big,
        Integer::from_i64(0),
    ];
    for a in samples.iter() {
        for b in samples.iter() {
            assert!(a.add(b) == b.add(a));
            assert!(a.mul(b) == b.mul(a));
            for c in samples.iter() {
                assert!(a.add(b).add(c) == a.add(&b.add(c)));
                assert!(a.mul(b).mul(c) == a.mul(&b.mul(c)));
            }
        }
    }
}

// Multiplication sign rules: like signs give a non-negative product,
// unlike signs a negative one, and a zero factor gives non-negative zero.
#[test]
fn sign_rule_scenarios() {
    let pos = Integer::from_i64(6);
    let neg = Integer::from_i64(-6);
    let zero = Integer::from_u64(0);

    assert!(!pos.mul(&pos).negative);
    assert!(pos.mul(&pos) == Integer::from_u64(36));
    assert!(pos.mul(&neg).negative);
    assert!(pos.mul(&neg) == Integer::from_i64(-36));
    assert!(neg.mul(&pos).negative);
    assert!(neg.mul(&neg) == Integer::from_u64(36));
    assert!(!neg.mul(&neg).negative);
    let zp = zero.mul(&neg);
    assert!(zp == zero);
    assert!(!zp.negative);
}

// Exactly one of <, ==, > holds for each pair, and < is transitive.
#[test]
fn ordering_scenarios() {
    let samples = [
        Integer::from_i64(-20),
        Integer::from_i64(-1),
        Integer::from_i64(0),
        Integer::from_i64(5),
        Integer::from_u64(u64::MAX),
        Integer::from_u64(u64::MAX).add(&Integer::from_u64(1)),
        Integer::from_u64(u64::MAX).neg(),
    ];
    for a in samples.iter() {
        for b in samples.iter() {
            let lt = a < b;
            let eq = a == b;
            let gt = a > b;
            assert!((lt as u32) + (eq as u32) + (gt as u32) == 1);
            for c in samples.iter() {
                if a < b && b < c {
                    assert!(a < c);
                }
            }
        }
    }
}

// Adding the largest single-limb value to itself carries into a second
// limb, and ten unit increments reach the value ten.
#[test]
fn carry_scenarios() {
    let max = Integer::from_u64(u64::MAX);
    let sum = max.add(&max);
    assert!(sum.value.len() == 2);
    assert_eq!(sum.value[0], u64::MAX - 1);
    assert_eq!(sum.value[1], 1);
    assert!(sum == max.mul(&Integer::from_u64(2)));

    let one = Integer::from_u64(1);
    let mut acc = Integer::from_u64(0);
    for _ in 0..10 {
        acc = acc.add(&one);
    }
    assert!(acc == Integer::from_u64(10));
}

// pow matches native exponentiation on [0, 10), including 0^0 == 1 and
// x^0 == 1.
#[test]
fn exponentiation_scenarios() {
    for base in 0u32..10u32 {
        for exp in 0u32..10u32 {
            let expected = Integer::from_u64((base as u64).pow(exp));
            let got = Integer::from_u32(base).pow(&Integer::from_u32(exp));
            assert!(got == expected, "{} ^ {}", base, exp);
        }
    }
    let one = Integer::from_u64(1);
    let zero = Integer::from_u64(0);
    assert!(zero.pow(&zero) == one);
    assert!(Integer::from_i64(-3).pow(&zero) == one);
    assert!(Integer::from_i64(-2).pow(&Integer::from_u64(3)) == Integer::from_i64(-8));
}

// (-10) - (-20) == 10.
#[test]
fn round_trip_scenario() {
    let a = Integer::from_i64(-10);
    let b = Integer::from_i64(-20);
    assert!(a.sub(&b) == Integer::from_i64(10));
}

// u64::MAX + 1 becomes a two-limb value with low limb 0 and high limb 1.
#[test]
fn overflow_scenario() {
    let sum = Integer::from_u64(u64::MAX).add(&Integer::from_u64(1));
    assert!(sum.value.len() == 2);
    assert_eq!(sum.value[0], 0);
    assert_eq!(sum.value[1], 1);
    assert!(!sum.negative);
}

// u64::MAX * 2 equals u64::MAX + u64::MAX.
#[test]
fn multiplication_scenario() {
    let max = Integer::from_u64(u64::MAX);
    let two = Integer::from_u64(2);
    assert!(max.mul(&two) == max.add(&max));
}

// Hexadecimal formatting: sixteen zero-padded uppercase digits per limb,
// grouped in byte pairs with a trailing space, most significant limb
// first, and a leading minus sign on negative values.
#[test]
fn formatting_scenarios() {
    assert_eq!(Integer::from_u64(0).to_hex(), "00 00 00 00 00 00 00 00 ");
    assert_eq!(Integer::from_i64(-1).to_hex(), "-00 00 00 00 00 00 00 01 ");
    assert_eq!(Integer::from_u64(u64::MAX).to_hex(), "FF FF FF FF FF FF FF FF ");
    assert_eq!(Integer::from_u64(u64::MAX).neg().to_hex(), "-FF FF FF FF FF FF FF FF ");
    assert_eq!(
        Integer::from_u64(0x0123_4567_89AB_CDEF).to_hex(),
        "01 23 45 67 89 AB CD EF ",
    );
    let two_limbs = Integer::from_u64(u64::MAX).add(&Integer::from_u64(1));
    assert_eq!(
        two_limbs.to_hex(),
        "00 00 00 00 00 00 00 01 00 00 00 00 00 00 00 00 ",
    );
}

// Absolute value and magnitude comparison.
#[test]
fn abs_scenarios() {
    let five = Integer::from_u64(5);
    let neg_five = Integer::from_i64(-5);
    assert!(neg_five.abs() == five);
    assert!(five.abs() == five);
    assert!(!neg_five.abs().negative);

    assert_eq!(five.abs_cmp(&neg_five), Some(Ordering::Equal));
    assert_eq!(Integer::from_i64(-3).abs_cmp(&five), Some(Ordering::Less));
    assert_eq!(Integer::from_i64(-9).abs_cmp(&five), Some(Ordering::Greater));
}

// Constructors cover the extremes of the native types.
#[test]
fn constructor_scenarios() {
    let min = Integer::from_i64(i64::MIN);
    assert!(min.negative);
    assert_eq!(min.value.len(), 1);
    assert_eq!(min.value[0], 0x8000_0000_0000_0000);
    assert!(min.add(&Integer::from_i64(i64::MIN)).to_hex() == "-00 00 00 00 00 00 00 01 00 00 00 00 00 00 00 00 ");

    assert!(Integer::from_i32(-7) == Integer::from_i64(-7));
    assert!(Integer::from_u32(7) == Integer::from_u64(7));
    assert!(Integer::from_int(7) == Integer::from_u64(7));
    assert!(Integer::from_i64(0) == Integer::from_u64(0));
    assert!(!Integer::from_i64(0).negative);
}
