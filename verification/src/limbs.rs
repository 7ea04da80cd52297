//! Magnitude arithmetic on little-endian sequences of 64-bit limbs.
//!
//! A magnitude is a `Vec<u64>` read least-significant limb first; its
//! numeric value is given by [`limbs_value`].  All operations here ignore
//! signs; the signed layer lives in [`crate::integer`].
//!
//! Normalization policy: the signed layer stores every magnitude in minimal
//! form ([`minimal`]): at least one limb, and no leading zero limb except in
//! the single-limb representation of zero.  [`limbs_normalize`] establishes
//! this form, and minimality makes the representation of each value unique
//! ([`lemma_minimal_unique`]).

use vstd::prelude::*;

verus! {

use core::cmp::Ordering;
use vstd::arithmetic::div_mod::lemma_fundamental_div_mod;

/// The radix as a 128-bit constant, for carry-propagating arithmetic.
pub const LIMB_BASE_U128: u128 = 0x1_0000_0000_0000_0000;

/// Radix of the magnitude representation: each limb carries 64 bits.
pub open spec fn limb_base() -> int {
    0x1_0000_0000_0000_0000
}

/// Weight of the limb at position `n`, that is `limb_base()` raised to `n`.
pub open spec fn limb_weight(n: nat) -> int
    decreases n,
{
    if n == 0 {
        1
    } else {
        limb_base() * limb_weight((n - 1) as nat)
    }
}

/// Numeric value of a little-endian limb sequence.
pub open spec fn limbs_value(s: Seq<u64>) -> int
    decreases s.len(),
{
    if s.len() == 0 {
        0
    } else {
        s[0] + limb_base() * limbs_value(s.drop_first())
    }
}

/// Minimal form: at least one limb, and no leading zero limb unless the
/// sequence is the single-limb representation of zero.
pub open spec fn minimal(s: Seq<u64>) -> bool {
    &&& s.len() >= 1
    &&& s.len() > 1 ==> s[s.len() - 1] != 0
}

/// The limb at position `i`, reading positions past the end as zero.
pub open spec fn limb_at(s: Seq<u64>, i: int) -> u64 {
    if 0 <= i < s.len() {
        s[i]
    } else {
        0
    }
}

/// `s` zero-extended to length `n`.
pub open spec fn zext(s: Seq<u64>, n: nat) -> Seq<u64> {
    Seq::new(n, |i: int| limb_at(s, i))
}

/// The empty sequence has value zero.
pub proof fn lemma_value_empty()
    ensures
        limbs_value(Seq::<u64>::empty()) == 0,
{
}

/// A single limb is its own value.
pub proof fn lemma_value_single(s: Seq<u64>)
    requires
        s.len() == 1,
    ensures
        limbs_value(s) == s[0],
{
    lemma_value_empty();
    assert(s.drop_first() =~= Seq::<u64>::empty());
}

/// The value of a limb sequence is never negative.
pub proof fn lemma_value_nonneg(s: Seq<u64>)
    ensures
        0 <= limbs_value(s),
    decreases s.len(),
{
    if s.len() > 0 {
        lemma_value_nonneg(s.drop_first());
        let t = limbs_value(s.drop_first());
        assert(limb_base() * t >= 0) by (nonlinear_arith)
            requires t >= 0;
    }
}

/// Every limb weight is positive.
pub proof fn lemma_weight_pos(n: nat)
    ensures
        limb_weight(n) >= 1,
    decreases n,
{
    if n > 0 {
        lemma_weight_pos((n - 1) as nat);
        let w = limb_weight((n - 1) as nat);
        assert(limb_base() * w >= 1) by (nonlinear_arith)
            requires w >= 1;
    }
}

/// Limb weights do not decrease with the exponent.
pub proof fn lemma_weight_le(m: nat, n: nat)
    requires
        m <= n,
    ensures
        limb_weight(m) <= limb_weight(n),
    decreases n - m,
{
    if m < n {
        lemma_weight_le(m, (n - 1) as nat);
        lemma_weight_pos((n - 1) as nat);
        let w = limb_weight((n - 1) as nat);
        assert(w <= limb_base() * w) by (nonlinear_arith)
            requires w >= 1;
    }
}

/// Weights multiply when positions add.
pub proof fn lemma_weight_add(m: nat, n: nat)
    ensures
        limb_weight(m + n) == limb_weight(m) * limb_weight(n),
    decreases m,
{
    if m == 0 {
        assert(limb_weight(n) == 1 * limb_weight(n)) by (nonlinear_arith);
    } else {
        lemma_weight_add((m - 1) as nat, n);
        let b = limb_base();
        let wm = limb_weight((m - 1) as nat);
        let wn = limb_weight(n);
        assert((m + n) as nat > 0);
        assert(limb_weight(m + n) == b * limb_weight((m + n - 1) as nat));
        assert(b * (wm * wn) == (b * wm) * wn) by (nonlinear_arith);
    }
}

/// Appending a limb adds its value at the weight of its position.
pub proof fn lemma_value_push(s: Seq<u64>, x: u64)
    ensures
        limbs_value(s.push(x)) == limbs_value(s) + x * limb_weight(s.len()),
    decreases s.len(),
{
    if s.len() == 0 {
        lemma_value_single(s.push(x));
    } else {
        assert(s.push(x).drop_first() =~= s.drop_first().push(x));
        lemma_value_push(s.drop_first(), x);
        let b = limb_base();
        let t = limbs_value(s.drop_first());
        let w = limb_weight((s.len() - 1) as nat);
        assert(b * (t + x * w) == b * t + x * (b * w)) by (nonlinear_arith);
    }
}

/// Extending a prefix by one limb adds that limb at its weight.
pub proof fn lemma_value_take_succ(s: Seq<u64>, i: int)
    requires
        0 <= i < s.len(),
    ensures
        limbs_value(s.take(i + 1)) == limbs_value(s.take(i)) + s[i] * limb_weight(i as nat),
{
    assert(s.take(i + 1) =~= s.take(i).push(s[i]));
    lemma_value_push(s.take(i), s[i]);
}

/// The value of a sequence is below the weight one past its top limb.
pub proof fn lemma_value_bound(s: Seq<u64>)
    ensures
        limbs_value(s) < limb_weight(s.len()),
    decreases s.len(),
{
    if s.len() > 0 {
        lemma_value_bound(s.drop_first());
        lemma_value_nonneg(s.drop_first());
        lemma_weight_pos((s.len() - 1) as nat);
        let b = limb_base();
        let t = limbs_value(s.drop_first());
        let w = limb_weight((s.len() - 1) as nat);
        assert(b * t <= b * (w - 1)) by (nonlinear_arith)
            requires t <= w - 1 && b >= 0;
        assert(b * (w - 1) == b * w - b) by (nonlinear_arith);
        assert(limbs_value(s) <= (b - 1) + (b * w - b));
    }
}

/// A sequence's value splits at any position `m` into the value of the low
/// part plus the weighted value of the high part.
pub proof fn lemma_value_split(s: Seq<u64>, m: int)
    requires
        0 <= m <= s.len(),
    ensures
        limbs_value(s) == limbs_value(s.take(m)) + limb_weight(m as nat) * limbs_value(s.skip(m)),
    decreases m,
{
    if m == 0 {
        assert(s.take(0) =~= Seq::<u64>::empty());
        assert(s.skip(0) =~= s);
        lemma_value_empty();
    } else {
        lemma_value_split(s, m - 1);
        let t = s.skip(m - 1);
        assert(t[0] == s[m - 1]);
        assert(t.drop_first() =~= s.skip(m));
        lemma_value_take_succ(s, m - 1);
        let b = limb_base();
        let w = limb_weight((m - 1) as nat);
        let hi = limbs_value(s.skip(m));
        let d = s[m - 1];
        assert(w * (d + b * hi) == d * w + (b * w) * hi) by (nonlinear_arith);
    }
}

/// Zero-extension does not change a sequence's value.
pub proof fn lemma_zext_value(s: Seq<u64>, n: nat)
    requires
        n >= s.len(),
    ensures
        limbs_value(zext(s, n)) == limbs_value(s),
    decreases n,
{
    if n == s.len() {
        assert(zext(s, n) =~= s);
    } else {
        lemma_zext_value(s, (n - 1) as nat);
        assert(zext(s, n) =~= zext(s, (n - 1) as nat).push(0));
        lemma_value_push(zext(s, (n - 1) as nat), 0);
    }
}

/// A minimal sequence with more than one limb has a value at least the
/// weight of its top limb, and in particular a positive value.
pub proof fn lemma_minimal_lower(s: Seq<u64>)
    requires
        minimal(s),
        s.len() > 1,
    ensures
        limbs_value(s) >= limb_weight((s.len() - 1) as nat),
        limbs_value(s) > 0,
{
    let m = s.len() - 1;
    lemma_value_split(s, m);
    let top = s.skip(m);
    assert(top.len() == 1);
    assert(top[0] == s[m]);
    lemma_value_single(top);
    lemma_value_nonneg(s.take(m));
    lemma_weight_pos(m as nat);
    let w = limb_weight(m as nat);
    let v = limbs_value(top);
    assert(w * v >= w) by (nonlinear_arith)
        requires v >= 1 && w >= 1;
}

/// A minimal sequence has value zero exactly when it is the single zero limb.
pub proof fn lemma_minimal_zero(s: Seq<u64>)
    requires
        minimal(s),
    ensures
        limbs_value(s) == 0 <==> (s.len() == 1 && s[0] == 0),
{
    if s.len() == 1 {
        lemma_value_single(s);
    } else {
        lemma_minimal_lower(s);
    }
}

/// Values in minimal form are represented uniquely.
pub proof fn lemma_minimal_unique(s: Seq<u64>, t: Seq<u64>)
    requires
        minimal(s),
        minimal(t),
        limbs_value(s) == limbs_value(t),
    ensures
        s == t,
    decreases s.len(),
{
    if s.len() < t.len() {
        lemma_value_bound(s);
        lemma_minimal_lower(t);
        lemma_weight_le(s.len(), (t.len() - 1) as nat);
        assert(false);
    } else if s.len() > t.len() {
        lemma_value_bound(t);
        lemma_minimal_lower(s);
        lemma_weight_le(t.len(), (s.len() - 1) as nat);
        assert(false);
    } else {
        let b = limb_base();
        let a0 = s[0];
        let b0 = t[0];
        let r1 = limbs_value(s.drop_first());
        let r2 = limbs_value(t.drop_first());
        lemma_value_nonneg(s.drop_first());
        lemma_value_nonneg(t.drop_first());
        assert(a0 == b0 && r1 == r2) by (nonlinear_arith)
            requires
                a0 + b * r1 == b0 + b * r2,
                0 <= a0 < b,
                0 <= b0 < b,
                0 <= r1,
                0 <= r2,
                b == 0x1_0000_0000_0000_0000;
        if s.len() == 1 {
            assert(s =~= t);
        } else {
            let s1 = s.drop_first();
            let t1 = t.drop_first();
            assert(s1[s1.len() - 1] == s[s.len() - 1]);
            assert(t1[t1.len() - 1] == t[t.len() - 1]);
            lemma_minimal_unique(s1, t1);
            assert(forall|i: int| 1 <= i < s.len() ==> s[i] == s1[i - 1] && t[i] == t1[i - 1]);
            assert(s =~= t);
        }
    }
}

/// If two equally long sequences agree above position `i` and differ at `i`,
/// the one with the smaller limb at `i` has the smaller value.
pub proof fn lemma_value_lt_at(a: Seq<u64>, b: Seq<u64>, i: int)
    requires
        a.len() == b.len(),
        0 <= i < a.len(),
        a[i] < b[i],
        a.skip(i + 1) == b.skip(i + 1),
    ensures
        limbs_value(a) < limbs_value(b),
{
    lemma_value_split(a, i);
    lemma_value_split(b, i);
    let sa = a.skip(i);
    let sb = b.skip(i);
    assert(sa.drop_first() =~= a.skip(i + 1));
    assert(sb.drop_first() =~= b.skip(i + 1));
    assert(sa[0] == a[i]);
    assert(sb[0] == b[i]);
    let tv = limbs_value(a.skip(i + 1));
    lemma_value_nonneg(a.skip(i + 1));
    lemma_value_bound(a.take(i));
    lemma_value_nonneg(a.take(i));
    lemma_value_nonneg(b.take(i));
    lemma_weight_pos(i as nat);
    let w = limb_weight(i as nat);
    let vta = limbs_value(a.take(i));
    let vtb = limbs_value(b.take(i));
    let ai = a[i] as int;
    let bi = b[i] as int;
    let bb = limb_base();
    assert(limbs_value(sa) == ai + bb * tv);
    assert(limbs_value(sb) == bi + bb * tv);
    assert(vta + w * (ai + bb * tv) < vtb + w * (bi + bb * tv)) by (nonlinear_arith)
        requires
            0 <= vta < w,
            0 <= vtb,
            ai + 1 <= bi,
            0 <= tv,
            0 <= bb,
            w >= 1;
}

/// Compares the values of two limb sequences; missing high limbs read as
/// zero, so no minimality is assumed.
pub fn limbs_cmp(a: &Vec<u64>, b: &Vec<u64>) -> (r: Ordering)
    ensures
        (r == Ordering::Less <==> limbs_value(a@) < limbs_value(b@)),
        (r == Ordering::Equal <==> limbs_value(a@) == limbs_value(b@)),
        (r == Ordering::Greater <==> limbs_value(a@) > limbs_value(b@)),
{
    let la = a.len();
    let lb = b.len();
    let n = if la > lb { la } else { lb };
    let ghost za = zext(a@, n as nat);
    let ghost zb = zext(b@, n as nat);
    proof {
        lemma_zext_value(a@, n as nat);
        lemma_zext_value(b@, n as nat);
    }
    let mut i = n;
    while i > 0
        invariant
            i <= n,
            la == a@.len(),
            lb == b@.len(),
            n >= la,
            n >= lb,
            za == zext(a@, n as nat),
            zb == zext(b@, n as nat),
            limbs_value(za) == limbs_value(a@),
            limbs_value(zb) == limbs_value(b@),
            forall|j: int| i <= j < n ==> za[j] == zb[j],
        decreases i,
    {
        i = i - 1;
        let ai = if i < la { a[i] } else { 0 };
        let bi = if i < lb { b[i] } else { 0 };
        proof {
            assert(ai == za[i as int]);
            assert(bi == zb[i as int]);
        }
        if ai < bi {
            proof {
                assert(za.skip(i + 1) =~= zb.skip(i + 1));
                lemma_value_lt_at(za, zb, i as int);
            }
            return Ordering::Less;
        }
        if ai > bi {
            proof {
                assert(zb.skip(i + 1) =~= za.skip(i + 1));
                lemma_value_lt_at(zb, za, i as int);
            }
            return Ordering::Greater;
        }
    }
    proof {
        assert(za =~= zb);
    }
    Ordering::Equal
}

/// Splits a 128-bit carry accumulator into a low limb and a high part.
proof fn lemma_split_u128(s: u128)
    ensures
        s == limb_base() * ((s as int) / limb_base()) + (s as int) % limb_base(),
        0 <= (s as int) % limb_base() < limb_base(),
        0 <= (s as int) / limb_base() < limb_base(),
{
    let b = limb_base();
    lemma_fundamental_div_mod(s as int, b);
    let q = (s as int) / b;
    let r = (s as int) % b;
    assert(q < b) by (nonlinear_arith)
        requires
            s == b * q + r,
            0 <= r < b,
            s < b * b,
            b > 0,
            q >= 0;
    assert(q >= 0) by (nonlinear_arith)
        requires
            s == b * q + r,
            0 <= r < b,
            s >= 0,
            b > 0;
}

/// Adds the values of two limb sequences with carry propagation; missing
/// high limbs read as zero.
pub fn limbs_add(a: &Vec<u64>, b: &Vec<u64>) -> (r: Vec<u64>)
    ensures
        limbs_value(r@) == limbs_value(a@) + limbs_value(b@),
{
    let la = a.len();
    let lb = b.len();
    let n = if la > lb { la } else { lb };
    let ghost za = zext(a@, n as nat);
    let ghost zb = zext(b@, n as nat);
    proof {
        lemma_zext_value(a@, n as nat);
        lemma_zext_value(b@, n as nat);
    }
    let mut out: Vec<u64> = Vec::new();
    let mut carry: u64 = 0;
    let mut i: usize = 0;
    while i < n
        invariant
            i <= n,
            la == a@.len(),
            lb == b@.len(),
            n >= la,
            n >= lb,
            za == zext(a@, n as nat),
            zb == zext(b@, n as nat),
            limbs_value(za) == limbs_value(a@),
            limbs_value(zb) == limbs_value(b@),
            out@.len() == i,
            carry <= 1,
            limbs_value(out@) + carry * limb_weight(i as nat) == limbs_value(za.take(i as int))
                + limbs_value(zb.take(i as int)),
        decreases n - i,
    {
        let ai = if i < la { a[i] } else { 0 };
        let bi = if i < lb { b[i] } else { 0 };
        let s: u128 = ai as u128 + bi as u128 + carry as u128;
        let lo: u64 = (s % LIMB_BASE_U128) as u64;
        let c: u64 = (s / LIMB_BASE_U128) as u64;
        proof {
            assert(ai == za[i as int]);
            assert(bi == zb[i as int]);
            lemma_split_u128(s);
            let b128 = limb_base();
            assert(c <= 1) by (nonlinear_arith)
                requires
                    s == b128 * ((s as int) / b128) + (s as int) % b128,
                    0 <= (s as int) % b128,
                    s < 2 * b128,
                    c == (s as int) / b128,
                    b128 == 0x1_0000_0000_0000_0000,
                    c >= 0;
            lemma_value_push(out@, lo);
            lemma_value_take_succ(za, i as int);
            lemma_value_take_succ(zb, i as int);
            let w = limb_weight(i as nat);
            let vo = limbs_value(out@);
            let vta = limbs_value(za.take(i as int));
            let vtb = limbs_value(zb.take(i as int));
            assert(limb_weight((i + 1) as nat) == b128 * w);
            assert(vo + lo * w + c * (b128 * w) == vta + ai * w + (vtb + bi * w))
                by (nonlinear_arith)
                requires
                    vo + carry * w == vta + vtb,
                    lo + c * b128 == ai + bi + carry;
        }
        out.push(lo);
        carry = c;
        i = i + 1;
    }
    proof {
        assert(za.take(n as int) =~= za);
        assert(zb.take(n as int) =~= zb);
    }
    if carry > 0 {
        proof {
            lemma_value_push(out@, carry);
        }
        out.push(carry);
    }
    out
}

/// Subtracts the value of `b` from the no-smaller value of `a` with borrow
/// propagation; missing high limbs read as zero.
pub fn limbs_sub(a: &Vec<u64>, b: &Vec<u64>) -> (r: Vec<u64>)
    requires
        limbs_value(b@) <= limbs_value(a@),
    ensures
        limbs_value(r@) == limbs_value(a@) - limbs_value(b@),
{
    let la = a.len();
    let lb = b.len();
    let n = if la > lb { la } else { lb };
    let ghost za = zext(a@, n as nat);
    let ghost zb = zext(b@, n as nat);
    proof {
        lemma_zext_value(a@, n as nat);
        lemma_zext_value(b@, n as nat);
    }
    let mut out: Vec<u64> = Vec::new();
    let mut borrow: u64 = 0;
    let mut i: usize = 0;
    while i < n
        invariant
            i <= n,
            la == a@.len(),
            lb == b@.len(),
            n >= la,
            n >= lb,
            za == zext(a@, n as nat),
            zb == zext(b@, n as nat),
            limbs_value(za) == limbs_value(a@),
            limbs_value(zb) == limbs_value(b@),
            out@.len() == i,
            borrow <= 1,
            limbs_value(out@) == limbs_value(za.take(i as int)) - limbs_value(zb.take(i as int))
                + borrow * limb_weight(i as nat),
        decreases n - i,
    {
        let ai = if i < la { a[i] } else { 0 };
        let bi = if i < lb { b[i] } else { 0 };
        let need: u128 = bi as u128 + borrow as u128;
        let d: u64;
        let br: u64;
        if (ai as u128) >= need {
            d = ((ai as u128) - need) as u64;
            br = 0;
        } else {
            d = ((ai as u128) + LIMB_BASE_U128 - need) as u64;
            br = 1;
        }
        proof {
            assert(ai == za[i as int]);
            assert(bi == zb[i as int]);
            let b128 = limb_base();
            lemma_value_push(out@, d);
            lemma_value_take_succ(za, i as int);
            lemma_value_take_succ(zb, i as int);
            let w = limb_weight(i as nat);
            let vo = limbs_value(out@);
            let vta = limbs_value(za.take(i as int));
            let vtb = limbs_value(zb.take(i as int));
            assert(limb_weight((i + 1) as nat) == b128 * w);
            assert(vo + d * w == vta + ai * w - (vtb + bi * w) + br * (b128 * w))
                by (nonlinear_arith)
                requires
                    vo == vta - vtb + borrow * w,
                    d == ai - bi - borrow + br * b128;
        }
        out.push(d);
        borrow = br;
        i = i + 1;
    }
    proof {
        assert(za.take(n as int) =~= za);
        assert(zb.take(n as int) =~= zb);
        if borrow == 1 {
            lemma_value_bound(out@);
            lemma_value_nonneg(zb);
            assert(false);
        }
    }
    out
}

/// A sequence of zero limbs has value zero.
pub proof fn lemma_value_zero_seq(s: Seq<u64>)
    requires
        forall|i: int| 0 <= i < s.len() ==> s[i] == 0,
    ensures
        limbs_value(s) == 0,
    decreases s.len(),
{
    if s.len() > 0 {
        lemma_value_zero_seq(s.drop_first());
    }
}

/// Replacing the limb at position `k` shifts the value by the weighted
/// difference of the new and old limbs.
pub proof fn lemma_value_update(s: Seq<u64>, k: int, v: u64)
    requires
        0 <= k < s.len(),
    ensures
        limbs_value(s.update(k, v)) == limbs_value(s) + (v - s[k]) * limb_weight(k as nat),
{
    let su = s.update(k, v);
    lemma_value_split(s, k);
    lemma_value_split(su, k);
    assert(su.take(k) =~= s.take(k));
    let ss = s.skip(k);
    let ssu = su.skip(k);
    assert(ssu.drop_first() =~= ss.drop_first());
    assert(ssu[0] == v);
    assert(ss[0] == s[k]);
    let b = limb_base();
    let t = limbs_value(ss.drop_first());
    let w = limb_weight(k as nat);
    assert(limbs_value(ssu) == v + b * t);
    assert(limbs_value(ss) == s[k] + b * t);
    let vv = v as int;
    let sk = s[k] as int;
    assert(w * (vv + b * t) == w * (sk + b * t) + (vv - sk) * w) by (nonlinear_arith);
}

/// Every product of two limbs fits below the square of the radix.
proof fn lemma_limb_mul_bound(x: u64, y: u64)
    ensures
        0 <= (x as int) * (y as int) <= 0xFFFF_FFFF_FFFF_FFFF * 0xFFFF_FFFF_FFFF_FFFF,
{
    assert(0 <= (x as int) * (y as int) <= 0xFFFF_FFFF_FFFF_FFFF * 0xFFFF_FFFF_FFFF_FFFF)
        by (nonlinear_arith)
        requires
            0 <= x <= 0xFFFF_FFFF_FFFF_FFFF,
            0 <= y <= 0xFFFF_FFFF_FFFF_FFFF;
}

/// Multiplies the values of two limb sequences by schoolbook long
/// multiplication.  Each elementary limb product is taken in 128-bit
/// arithmetic, so no intermediate sum can overflow its accumulator; the
/// high half of each product feeds the carry into the next position.
pub fn limbs_mul(a: &Vec<u64>, b: &Vec<u64>) -> (r: Vec<u64>)
    ensures
        limbs_value(r@) == limbs_value(a@) * limbs_value(b@),
        r@.len() == a@.len() + b@.len(),
{
    let la = a.len();
    let lb = b.len();
    let mut out: Vec<u64> = Vec::new();
    let mut k: usize = 0;
    while k < la
        invariant
            k <= la,
            out@.len() == k,
            forall|j: int| 0 <= j < k ==> out@[j] == 0,
        decreases la - k,
    {
        out.push(0);
        k = k + 1;
    }
    let mut k2: usize = 0;
    while k2 < lb
        invariant
            k2 <= lb,
            out@.len() == la + k2,
            forall|j: int| 0 <= j < la + k2 ==> out@[j] == 0,
        decreases lb - k2,
    {
        out.push(0);
        k2 = k2 + 1;
    }
    let total = out.len();
    proof {
        lemma_value_zero_seq(out@);
        assert(a@.take(0) =~= Seq::<u64>::empty());
        lemma_value_empty();
        assert(0 == 0int * limbs_value(b@)) by (nonlinear_arith);
    }
    let mut i: usize = 0;
    while i < la
        invariant
            i <= la,
            la == a@.len(),
            lb == b@.len(),
            total == la + lb,
            out@.len() == la + lb,
            limbs_value(out@) == limbs_value(a@.take(i as int)) * limbs_value(b@),
            forall|c: int| i + lb <= c < la + lb ==> out@[c] == 0,
        decreases la - i,
    {
        let ai = a[i];
        let ghost s_i = limbs_value(a@.take(i as int)) * limbs_value(b@);
        let mut carry: u64 = 0;
        let mut j: usize = 0;
        proof {
            assert(b@.take(0) =~= Seq::<u64>::empty());
            lemma_value_empty();
            let w_i = limb_weight(i as nat);
            assert((ai as int) * w_i * 0 == 0) by (nonlinear_arith);
        }
        while j < lb
            invariant
                j <= lb,
                i < la,
                la == a@.len(),
                lb == b@.len(),
                total == la + lb,
                ai == a@[i as int],
                out@.len() == la + lb,
                s_i == limbs_value(a@.take(i as int)) * limbs_value(b@),
                limbs_value(out@) + carry * limb_weight((i + j) as nat) == s_i + (ai as int)
                    * limb_weight(i as nat) * limbs_value(b@.take(j as int)),
                forall|c: int| i + lb <= c < la + lb ==> out@[c] == 0,
            decreases lb - j,
        {
            let idx = i + j;
            let old_limb = out[idx];
            let bj = b[j];
            proof {
                lemma_limb_mul_bound(ai, bj);
            }
            let acc: u128 = old_limb as u128 + (ai as u128) * (bj as u128) + carry as u128;
            let lo: u64 = (acc % LIMB_BASE_U128) as u64;
            let c2: u64 = (acc / LIMB_BASE_U128) as u64;
            proof {
                lemma_split_u128(acc);
                lemma_value_update(out@, idx as int, lo);
                lemma_value_take_succ(b@, j as int);
                lemma_weight_add(i as nat, j as nat);
                let b128 = limb_base();
                let w_ij = limb_weight((i + j) as nat);
                let w_i = limb_weight(i as nat);
                let w_j = limb_weight(j as nat);
                let w_ij1 = limb_weight((i + j + 1) as nat);
                assert(w_ij1 == b128 * w_ij);
                let vo = limbs_value(out@);
                let vbt = limbs_value(b@.take(j as int));
                let u = (ai as int) * w_i;
                let pr = (ai as int) * (bj as int);
                assert((lo - old_limb) * w_ij + c2 * w_ij1 == (lo - old_limb + c2 * b128) * w_ij)
                    by (nonlinear_arith)
                    requires w_ij1 == b128 * w_ij;
                assert(lo - old_limb + c2 * b128 == pr + carry);
                assert((pr + carry) * w_ij == pr * w_ij + carry * w_ij) by (nonlinear_arith);
                assert(pr * w_ij == u * ((bj as int) * w_j)) by (nonlinear_arith)
                    requires
                        u == (ai as int) * w_i,
                        pr == (ai as int) * (bj as int),
                        w_ij == w_i * w_j;
                assert(u * (vbt + (bj as int) * w_j) == u * vbt + u * ((bj as int) * w_j))
                    by (nonlinear_arith);
                assert(vo + (lo - old_limb) * w_ij + c2 * w_ij1 == s_i + u * (vbt + (bj as int)
                    * w_j));
            }
            out.set(idx, lo);
            carry = c2;
            j = j + 1;
        }
        let idx2 = i + lb;
        proof {
            assert(out@[idx2 as int] == 0);
            lemma_value_update(out@, idx2 as int, carry);
            assert(b@.take(lb as int) =~= b@);
            lemma_value_take_succ(a@, i as int);
            let w_i = limb_weight(i as nat);
            let w_ilb = limb_weight((i + lb) as nat);
            let vo = limbs_value(out@);
            let vb = limbs_value(b@);
            let vat = limbs_value(a@.take(i as int));
            assert(vo + (carry - 0) * w_ilb == (vat + ai * w_i) * vb) by (nonlinear_arith)
                requires
                    vo + carry * w_ilb == s_i + (ai as int) * w_i * vb,
                    s_i == vat * vb;
        }
        out.set(idx2, carry);
        i = i + 1;
    }
    proof {
        assert(a@.take(la as int) =~= a@);
    }
    out
}

/// Strips leading zero limbs, leaving the unique minimal representation of
/// the input's value.
pub fn limbs_normalize(v: Vec<u64>) -> (r: Vec<u64>)
    ensures
        minimal(r@),
        limbs_value(r@) == limbs_value(v@),
{
    let ghost orig = v@;
    let mut v = v;
    if v.len() == 0 {
        v.push(0);
        proof {
            assert(orig =~= Seq::<u64>::empty());
            lemma_value_empty();
            lemma_value_single(v@);
        }
    }
    proof {
        if orig.len() > 0 {
            assert(v@ =~= orig);
        }
    }
    while v.len() > 1 && v[v.len() - 1] == 0
        invariant
            v@.len() >= 1,
            limbs_value(v@) == limbs_value(orig),
        decreases v@.len(),
    {
        proof {
            assert(v@ =~= v@.drop_last().push(v@.last()));
            lemma_value_push(v@.drop_last(), v@.last());
        }
        let _ = v.pop();
    }
    v
}

/// Limb-wise equality with missing high limbs read as zero.
pub open spec fn limbs_equiv(a: Seq<u64>, b: Seq<u64>) -> bool {
    forall|i: int| #![trigger limb_at(a, i)] 0 <= i ==> limb_at(a, i) == limb_at(b, i)
}

/// Limb-wise equal sequences have equal values.
pub proof fn lemma_equiv_value(a: Seq<u64>, b: Seq<u64>)
    requires
        limbs_equiv(a, b),
    ensures
        limbs_value(a) == limbs_value(b),
{
    let n = if a.len() > b.len() {
        a.len()
    } else {
        b.len()
    };
    lemma_zext_value(a, n);
    lemma_zext_value(b, n);
    assert(zext(a, n) =~= zext(b, n));
}

/// Copies a limb vector.
pub fn limbs_copy(v: &Vec<u64>) -> (r: Vec<u64>)
    ensures
        r@ == v@,
{
    let mut out: Vec<u64> = Vec::new();
    let mut i: usize = 0;
    while i < v.len()
        invariant
            i <= v@.len(),
            out@.len() == i,
            forall|j: int| 0 <= j < i ==> out@[j] == v@[j],
        decreases v@.len() - i,
    {
        out.push(v[i]);
        i = i + 1;
    }
    proof {
        assert(out@ =~= v@);
    }
    out
}

} // verus!
