//! The signed arbitrary-precision integer type and its operations.
//!
//! An [`Integer`] pairs a magnitude in minimal limb form with a sign flag;
//! the flag is never set on zero, so every mathematical integer has exactly
//! one well-formed representation ([`Integer::wf`]).  Each operation's
//! contract relates the result's mathematical value ([`Integer::as_int`])
//! to the values of the operands.

use vstd::prelude::*;

verus! {

use core::cmp::Ordering;
use crate::limbs::lemma_equiv_value;
use crate::limbs::lemma_minimal_unique;
use crate::limbs::lemma_minimal_zero;
use crate::limbs::lemma_value_nonneg;
use crate::limbs::lemma_value_single;
use crate::limbs::limb_at;
use crate::limbs::limbs_add;
use crate::limbs::limbs_cmp;
use crate::limbs::limbs_equiv;
use crate::limbs::limbs_copy;
use crate::limbs::limbs_mul;
use crate::limbs::limbs_normalize;
use crate::limbs::limbs_sub;
use crate::limbs::limbs_value;
use crate::limbs::minimal;

/// Total order of two mathematical integers.
pub open spec fn order_of(a: int, b: int) -> Ordering {
    if a < b {
        Ordering::Less
    } else if a == b {
        Ordering::Equal
    } else {
        Ordering::Greater
    }
}

/// A signed arbitrary-precision integer in sign-magnitude form.
///
/// `value` holds the magnitude as little-endian 64-bit limbs; `negative`
/// is true exactly for strictly negative values.  The fields are exposed
/// for specification purposes; use the constructors, which establish
/// [`Integer::wf`], rather than building values directly.
pub struct Integer {
    /// Magnitude limbs, least significant first, in minimal form.
    pub value: Vec<u64>,
    /// True iff the value is strictly negative; never set on zero.
    pub negative: bool,
}

impl Integer {
    /// Magnitude of this value as a mathematical integer.
    pub open spec fn mag(self) -> int {
        limbs_value(self.value@)
    }

    /// The signed mathematical value this `Integer` represents.
    pub open spec fn as_int(self) -> int {
        if self.negative {
            -self.mag()
        } else {
            self.mag()
        }
    }

    /// Well-formedness: the magnitude is in minimal form and the sign flag
    /// is never set on zero.
    pub open spec fn wf(self) -> bool {
        &&& minimal(self.value@)
        &&& self.negative ==> self.mag() > 0
    }

    /// On well-formed values the sign flag agrees with the sign of the
    /// mathematical value, and the magnitude is its absolute value.
    pub proof fn lemma_sign(self)
        requires
            self.wf(),
        ensures
            self.negative <==> self.as_int() < 0,
            self.mag() == if self.as_int() < 0 {
                -self.as_int()
            } else {
                self.as_int()
            },
    {
        lemma_value_nonneg(self.value@);
    }

    /// Well-formed values with the same mathematical value are identical.
    pub proof fn lemma_canonical(self, other: Integer)
        requires
            self.wf(),
            other.wf(),
            self.as_int() == other.as_int(),
        ensures
            self.value@ == other.value@,
            self.negative == other.negative,
    {
        lemma_value_nonneg(self.value@);
        lemma_value_nonneg(other.value@);
        lemma_minimal_unique(self.value@, other.value@);
    }

    /// Builds the integer with the given non-negative value.
    pub fn from_u64(init: u64) -> (r: Integer)
        ensures
            r.wf(),
            r.as_int() == init,
    {
        let value = vec![init];
        proof {
            lemma_value_single(value@);
        }
        Integer { value, negative: false }
    }

    /// Builds the integer with the given signed value.
    pub fn from_i64(init: i64) -> (r: Integer)
        ensures
            r.wf(),
            r.as_int() == init,
    {
        let negative = init < 0;
        let m: u64 = if init < 0 {
            (-(init as i128)) as u64
        } else {
            init as u64
        };
        let value = vec![m];
        proof {
            lemma_value_single(value@);
        }
        Integer { value, negative }
    }

    /// Builds the integer with the given non-negative value, widening to 64
    /// bits.
    #[inline]
    pub fn from_u32(init: u32) -> (r: Integer)
        ensures
            r.wf(),
            r.as_int() == init,
    {
        Integer::from_u64(init as u64)
    }

    /// Builds the integer with the given signed value, widening to 64 bits.
    #[inline]
    pub fn from_i32(init: i32) -> (r: Integer)
        ensures
            r.wf(),
            r.as_int() == init,
    {
        Integer::from_i64(init as i64)
    }

    /// Builds the integer with the given non-negative value.
    pub fn from_int(init: u64) -> (r: Integer)
        ensures
            r.wf(),
            r.as_int() == init,
    {
        Integer::from_u64(init)
    }

    /// Returns whether this value is zero.
    pub fn is_zero(&self) -> (r: bool)
        requires
            self.wf(),
        ensures
            r == (self.as_int() == 0),
    {
        proof {
            lemma_minimal_zero(self.value@);
        }
        self.value.len() == 1 && self.value[0] == 0
    }

    /// Returns the absolute value.
    pub fn abs(&self) -> (r: Integer)
        requires
            self.wf(),
        ensures
            r.wf(),
            r.as_int() == self.mag(),
            r.as_int() == if self.as_int() < 0 {
                -self.as_int()
            } else {
                self.as_int()
            },
    {
        proof {
            self.lemma_sign();
        }
        Integer { value: limbs_copy(&self.value), negative: false }
    }

    /// Returns the negation; the negation of zero is zero.
    pub fn neg(&self) -> (r: Integer)
        requires
            self.wf(),
        ensures
            r.wf(),
            r.as_int() == -self.as_int(),
    {
        if self.is_zero() {
            Integer::from_u64(0)
        } else {
            proof {
                lemma_value_nonneg(self.value@);
            }
            Integer { value: limbs_copy(&self.value), negative: !self.negative }
        }
    }

    /// Compares the magnitudes of two values, ignoring signs.
    pub fn abs_cmp(&self, other: &Integer) -> (r: Option<Ordering>)
        ensures
            r == Some(order_of(self.mag(), other.mag())),
    {
        Some(limbs_cmp(&self.value, &other.value))
    }

    /// Returns the sum of the two values.
    pub fn add(&self, other: &Integer) -> (r: Integer)
        requires
            self.wf(),
            other.wf(),
        ensures
            r.wf(),
            r.as_int() == self.as_int() + other.as_int(),
    {
        let cmp = limbs_cmp(&self.value, &other.value);
        let swap = matches!(cmp, Ordering::Less);
        let (min, max) = if swap {
            (self, other)
        } else {
            (other, self)
        };
        proof {
            lemma_value_nonneg(min.value@);
            lemma_value_nonneg(max.value@);
        }
        if min.negative == max.negative {
            let sum = limbs_normalize(limbs_add(&max.value, &min.value));
            Integer { value: sum, negative: max.negative }
        } else {
            let diff = limbs_normalize(limbs_sub(&max.value, &min.value));
            let zero_result = diff.len() == 1 && diff[0] == 0;
            let negative = if zero_result {
                false
            } else {
                max.negative
            };
            proof {
                lemma_minimal_zero(diff@);
            }
            Integer { value: diff, negative }
        }
    }

    /// Returns the difference of the two values, as the sum with the
    /// negation.
    pub fn sub(&self, other: &Integer) -> (r: Integer)
        requires
            self.wf(),
            other.wf(),
        ensures
            r.wf(),
            r.as_int() == self.as_int() - other.as_int(),
    {
        let n = other.neg();
        self.add(&n)
    }

    /// Returns the product of the two values.  The sign is the exclusive or
    /// of the operand signs, forced non-negative on a zero result.
    pub fn mul(&self, other: &Integer) -> (r: Integer)
        requires
            self.wf(),
            other.wf(),
        ensures
            r.wf(),
            r.as_int() == self.as_int() * other.as_int(),
    {
        let prod = limbs_normalize(limbs_mul(&self.value, &other.value));
        let zero_result = prod.len() == 1 && prod[0] == 0;
        let negative = if zero_result {
            false
        } else {
            self.negative != other.negative
        };
        proof {
            lemma_minimal_zero(prod@);
            lemma_value_nonneg(self.value@);
            lemma_value_nonneg(other.value@);
            let m1 = self.mag();
            let m2 = other.mag();
            assert(m1 * m2 >= 0) by (nonlinear_arith)
                requires m1 >= 0 && m2 >= 0;
            assert((-m1) * m2 == -(m1 * m2)) by (nonlinear_arith);
            assert(m1 * (-m2) == -(m1 * m2)) by (nonlinear_arith);
            assert((-m1) * (-m2) == m1 * m2) by (nonlinear_arith);
        }
        Integer { value: prod, negative }
    }

    /// Returns whether this value's magnitude is below the other's.
    fn mag_lt(&self, other: &Integer) -> (r: bool)
        ensures
            r == (self.mag() < other.mag()),
    {
        matches!(limbs_cmp(&self.value, &other.value), Ordering::Less)
    }

    /// Raises this value to the given non-negative exponent by repeated
    /// multiplication; in particular `0^0 == 1`.
    ///
    /// A negative exponent is excluded by precondition: no integer result
    /// exists for it, and this library's functions do not abort.
    pub fn pow(&self, other: &Integer) -> (r: Integer)
        requires
            self.wf(),
            other.wf(),
            other.as_int() >= 0,
        ensures
            r.wf(),
            r.as_int() == pow_int(self.as_int(), other.as_int() as nat),
    {
        proof {
            other.lemma_sign();
        }
        if other.is_zero() {
            return Integer::from_i32(1);
        }
        if self.is_zero() {
            proof {
                lemma_pow_int_zero_base(other.as_int() as nat);
            }
            return Integer::from_i32(0);
        }
        let mut result = Integer::from_i32(1);
        let mut count = Integer::from_i32(0);
        let one = Integer::from_u64(1);
        proof {
            result.lemma_sign();
            count.lemma_sign();
        }
        while count.mag_lt(other)
            invariant
                self.wf(),
                other.wf(),
                result.wf(),
                count.wf(),
                one.wf(),
                one.as_int() == 1,
                count.mag() == count.as_int(),
                other.mag() == other.as_int(),
                0 <= count.as_int() <= other.as_int(),
                result.as_int() == pow_int(self.as_int(), count.as_int() as nat),
            decreases other.as_int() - count.as_int(),
        {
            let ghost prev = count.as_int();
            result = result.mul(self);
            count = count.add(&one);
            proof {
                count.lemma_sign();
                let b = self.as_int();
                let p = pow_int(b, prev as nat);
                assert(pow_int(b, (prev + 1) as nat) == b * p);
                assert(p * b == b * p) by (nonlinear_arith);
            }
        }
        result
    }
}

/// `b` raised to the non-negative exponent `e`.
pub open spec fn pow_int(b: int, e: nat) -> int
    decreases e,
{
    if e == 0 {
        1
    } else {
        b * pow_int(b, (e - 1) as nat)
    }
}

/// Zero raised to any positive exponent is zero.
pub proof fn lemma_pow_int_zero_base(e: nat)
    requires
        e > 0,
    ensures
        pow_int(0, e) == 0,
    decreases e,
{
    if e > 1 {
        lemma_pow_int_zero_base((e - 1) as nat);
    }
}

impl PartialEq for Integer {
    /// Equality of the mathematical values: signs agree and the magnitudes
    /// agree limb-wise, with missing high limbs read as zero.
    fn eq(&self, other: &Integer) -> (r: bool) {
        if self.negative != other.negative {
            return false;
        }
        let la = self.value.len();
        let lb = other.value.len();
        let n = if la > lb {
            la
        } else {
            lb
        };
        let mut i: usize = 0;
        while i < n
            invariant
                i <= n,
                n >= la,
                n >= lb,
                la == self.value@.len(),
                lb == other.value@.len(),
                forall|j: int| 0 <= j < i ==> limb_at(self.value@, j) == limb_at(other.value@, j),
            decreases n - i,
        {
            let ai = if i < la {
                self.value[i]
            } else {
                0
            };
            let bi = if i < lb {
                other.value[i]
            } else {
                0
            };
            if ai != bi {
                proof {
                    assert(limb_at(self.value@, i as int) != limb_at(other.value@, i as int));
                }
                return false;
            }
            i = i + 1;
        }
        proof {
            assert forall|j: int| 0 <= j implies limb_at(self.value@, j) == limb_at(
                other.value@,
                j,
            ) by {
                if j >= n {
                    assert(limb_at(self.value@, j) == 0);
                    assert(limb_at(other.value@, j) == 0);
                }
            }
        }
        true
    }
}

impl vstd::std_specs::cmp::PartialEqSpecImpl for Integer {
    open spec fn obeys_eq_spec() -> bool {
        true
    }

    open spec fn eq_spec(&self, other: &Integer) -> bool {
        self.negative == other.negative && limbs_equiv(self.value@, other.value@)
    }
}

impl Integer {
    /// Three-way comparison of the mathematical values: a negative value is
    /// below a non-negative one, and equal signs compare by magnitude, with
    /// the sense inverted when both are negative.
    pub open spec fn cmp_spec(self, other: Integer) -> Ordering {
        if self.negative != other.negative {
            if self.negative {
                Ordering::Less
            } else {
                Ordering::Greater
            }
        } else if !self.negative {
            order_of(self.mag(), other.mag())
        } else {
            order_of(other.mag(), self.mag())
        }
    }
}

impl PartialOrd for Integer {
    /// Total three-way comparison; see [`Integer::cmp_spec`].
    fn partial_cmp(&self, other: &Integer) -> (r: Option<Ordering>) {
        if other.negative != self.negative {
            if self.negative {
                Some(Ordering::Less)
            } else {
                Some(Ordering::Greater)
            }
        } else {
            let m = limbs_cmp(&self.value, &other.value);
            if self.negative {
                match m {
                    Ordering::Less => Some(Ordering::Greater),
                    Ordering::Equal => Some(Ordering::Equal),
                    Ordering::Greater => Some(Ordering::Less),
                }
            } else {
                Some(m)
            }
        }
    }
}

impl vstd::std_specs::cmp::PartialOrdSpecImpl for Integer {
    open spec fn obeys_partial_cmp_spec() -> bool {
        true
    }

    open spec fn partial_cmp_spec(&self, other: &Integer) -> Option<Ordering> {
        Some(self.cmp_spec(*other))
    }
}

} // verus!
