//! Algebraic laws of the [`Integer`] operations.
//!
//! The operation contracts in [`crate::integer`] pin each result down to a
//! mathematical value; the lemmas here restate the classical laws that
//! follow — identities, negation, commutativity and associativity, sign
//! rules, and the total order — in terms of those contracts, so that a
//! reader finds them stated and proved rather than implied.  Each lemma
//! takes the operation results as parameters constrained exactly by the
//! operations' postconditions.

use vstd::prelude::*;

verus! {

use core::cmp::Ordering;
use vstd::std_specs::cmp::PartialEqSpec;
use vstd::std_specs::cmp::PartialOrdSpec;
use crate::integer::Integer;
use crate::integer::order_of;
use crate::integer::pow_int;
use crate::limbs::lemma_equiv_value;
use crate::limbs::lemma_minimal_zero;

/// Equality under `==` coincides with equality of mathematical values on
/// well-formed integers.
pub proof fn lemma_eq_is_value_eq(a: Integer, b: Integer)
    requires
        a.wf(),
        b.wf(),
    ensures
        a.eq_spec(&b) <==> a.as_int() == b.as_int(),
{
    if a.eq_spec(&b) {
        lemma_equiv_value(a.value@, b.value@);
    }
    if a.as_int() == b.as_int() {
        a.lemma_canonical(b);
    }
}

/// A well-formed integer with value zero is the canonical zero: a single
/// zero limb with the sign flag clear.
pub proof fn lemma_zero_form(r: Integer)
    requires
        r.wf(),
        r.as_int() == 0,
    ensures
        !r.negative,
        r.value@ == seq![0u64],
{
    r.lemma_sign();
    lemma_minimal_zero(r.value@);
    assert(r.value@ =~= seq![0u64]);
}

/// Adding zero returns the same value: any sum of `x` and a zero equals
/// `x` under `==`.
pub proof fn lemma_add_zero(x: Integer, z: Integer, r: Integer)
    requires
        x.wf(),
        z.wf(),
        r.wf(),
        z.as_int() == 0,
        r.as_int() == x.as_int() + z.as_int(),
    ensures
        r.eq_spec(&x),
{
    lemma_eq_is_value_eq(r, x);
}

/// Multiplying by one returns the same value.
pub proof fn lemma_mul_one(x: Integer, one: Integer, r: Integer)
    requires
        x.wf(),
        one.wf(),
        r.wf(),
        one.as_int() == 1,
        r.as_int() == x.as_int() * one.as_int(),
    ensures
        r.eq_spec(&x),
{
    assert(x.as_int() * 1 == x.as_int()) by (nonlinear_arith);
    lemma_eq_is_value_eq(r, x);
}

/// Subtracting a value from itself yields the canonical zero.
pub proof fn lemma_sub_self(x: Integer, r: Integer)
    requires
        x.wf(),
        r.wf(),
        r.as_int() == x.as_int() - x.as_int(),
    ensures
        r.as_int() == 0,
        !r.negative,
        r.value@ == seq![0u64],
{
    lemma_zero_form(r);
}

/// Adding a value and its negation yields the canonical zero; the sign bit
/// is never set on the result.
pub proof fn lemma_add_opposite(x: Integer, n: Integer, r: Integer)
    requires
        x.wf(),
        n.wf(),
        r.wf(),
        n.as_int() == -x.as_int(),
        r.as_int() == x.as_int() + n.as_int(),
    ensures
        r.as_int() == 0,
        !r.negative,
        r.value@ == seq![0u64],
{
    lemma_zero_form(r);
}

/// The negation of zero is zero itself, with the sign bit clear.
pub proof fn lemma_neg_zero(z: Integer, r: Integer)
    requires
        z.wf(),
        r.wf(),
        z.as_int() == 0,
        r.as_int() == -z.as_int(),
    ensures
        r.eq_spec(&z),
        !r.negative,
{
    lemma_zero_form(r);
    lemma_eq_is_value_eq(r, z);
}

/// Addition is commutative: the two orders of summing equal values give
/// results equal under `==`.
pub proof fn lemma_add_comm(a: Integer, b: Integer, r1: Integer, r2: Integer)
    requires
        a.wf(),
        b.wf(),
        r1.wf(),
        r2.wf(),
        r1.as_int() == a.as_int() + b.as_int(),
        r2.as_int() == b.as_int() + a.as_int(),
    ensures
        r1.eq_spec(&r2),
{
    lemma_eq_is_value_eq(r1, r2);
}

/// Addition is associative.
pub proof fn lemma_add_assoc(
    a: Integer,
    b: Integer,
    c: Integer,
    ab: Integer,
    bc: Integer,
    r1: Integer,
    r2: Integer,
)
    requires
        a.wf(),
        b.wf(),
        c.wf(),
        ab.wf(),
        bc.wf(),
        r1.wf(),
        r2.wf(),
        ab.as_int() == a.as_int() + b.as_int(),
        r1.as_int() == ab.as_int() + c.as_int(),
        bc.as_int() == b.as_int() + c.as_int(),
        r2.as_int() == a.as_int() + bc.as_int(),
    ensures
        r1.eq_spec(&r2),
{
    lemma_eq_is_value_eq(r1, r2);
}

/// Multiplication is commutative.
pub proof fn lemma_mul_comm(a: Integer, b: Integer, r1: Integer, r2: Integer)
    requires
        a.wf(),
        b.wf(),
        r1.wf(),
        r2.wf(),
        r1.as_int() == a.as_int() * b.as_int(),
        r2.as_int() == b.as_int() * a.as_int(),
    ensures
        r1.eq_spec(&r2),
{
    let x = a.as_int();
    let y = b.as_int();
    assert(x * y == y * x) by (nonlinear_arith);
    lemma_eq_is_value_eq(r1, r2);
}

/// Multiplication is associative.
pub proof fn lemma_mul_assoc(
    a: Integer,
    b: Integer,
    c: Integer,
    ab: Integer,
    bc: Integer,
    r1: Integer,
    r2: Integer,
)
    requires
        a.wf(),
        b.wf(),
        c.wf(),
        ab.wf(),
        bc.wf(),
        r1.wf(),
        r2.wf(),
        ab.as_int() == a.as_int() * b.as_int(),
        r1.as_int() == ab.as_int() * c.as_int(),
        bc.as_int() == b.as_int() * c.as_int(),
        r2.as_int() == a.as_int() * bc.as_int(),
    ensures
        r1.eq_spec(&r2),
{
    let x = a.as_int();
    let y = b.as_int();
    let z = c.as_int();
    assert((x * y) * z == x * (y * z)) by (nonlinear_arith);
    lemma_eq_is_value_eq(r1, r2);
}

/// Sign rules of multiplication: like signs give a non-negative product,
/// unlike signs a non-positive one, and a zero factor gives the canonical
/// zero.
pub proof fn lemma_mul_signs(a: Integer, b: Integer, r: Integer)
    requires
        a.wf(),
        b.wf(),
        r.wf(),
        r.as_int() == a.as_int() * b.as_int(),
    ensures
        a.as_int() > 0 && b.as_int() > 0 ==> r.as_int() > 0 && !r.negative,
        a.as_int() > 0 && b.as_int() < 0 ==> r.as_int() < 0 && r.negative,
        a.as_int() < 0 && b.as_int() > 0 ==> r.as_int() < 0 && r.negative,
        a.as_int() < 0 && b.as_int() < 0 ==> r.as_int() > 0 && !r.negative,
        a.as_int() == 0 || b.as_int() == 0 ==> r.as_int() == 0 && !r.negative && r.value@ == seq![
            0u64,
        ],
{
    let x = a.as_int();
    let y = b.as_int();
    r.lemma_sign();
    assert(x > 0 && y > 0 ==> x * y > 0) by (nonlinear_arith);
    assert(x > 0 && y < 0 ==> x * y < 0) by (nonlinear_arith);
    assert(x < 0 && y > 0 ==> x * y < 0) by (nonlinear_arith);
    assert(x < 0 && y < 0 ==> x * y > 0) by (nonlinear_arith);
    assert(x == 0 || y == 0 ==> x * y == 0) by (nonlinear_arith);
    if r.as_int() == 0 {
        lemma_zero_form(r);
    }
}

/// Comparison coincides with the order of the mathematical values on
/// well-formed integers.
pub proof fn lemma_cmp_is_value_order(a: Integer, b: Integer)
    requires
        a.wf(),
        b.wf(),
    ensures
        a.partial_cmp_spec(&b) == Some(order_of(a.as_int(), b.as_int())),
{
    a.lemma_sign();
    b.lemma_sign();
}

/// Totality of the order: for any two well-formed integers exactly one of
/// "less", "equal", "greater" holds, and "equal" coincides with `==`.
pub proof fn lemma_order_trichotomy(a: Integer, b: Integer)
    requires
        a.wf(),
        b.wf(),
    ensures
        a.partial_cmp_spec(&b) == Some(Ordering::Less) <==> a.as_int() < b.as_int(),
        a.partial_cmp_spec(&b) == Some(Ordering::Equal) <==> a.as_int() == b.as_int(),
        a.partial_cmp_spec(&b) == Some(Ordering::Greater) <==> a.as_int() > b.as_int(),
        a.eq_spec(&b) <==> a.partial_cmp_spec(&b) == Some(Ordering::Equal),
{
    lemma_cmp_is_value_order(a, b);
    lemma_eq_is_value_eq(a, b);
}

/// Transitivity of the order.
pub proof fn lemma_order_transitive(a: Integer, b: Integer, c: Integer)
    requires
        a.wf(),
        b.wf(),
        c.wf(),
        a.partial_cmp_spec(&b) == Some(Ordering::Less),
        b.partial_cmp_spec(&c) == Some(Ordering::Less),
    ensures
        a.partial_cmp_spec(&c) == Some(Ordering::Less),
{
    lemma_cmp_is_value_order(a, b);
    lemma_cmp_is_value_order(b, c);
    lemma_cmp_is_value_order(a, c);
}

/// Any base raised to the exponent zero is one; in particular `0^0 == 1`.
pub proof fn lemma_pow_zero_exponent(b: int)
    ensures
        pow_int(b, 0) == 1,
{
}

} // verus!
