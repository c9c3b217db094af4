//! The key trait of the search: a total order on keys, a three-way
//! comparison that follows it, and the interpolation factor of a key
//! between two others.
use vstd::prelude::*;
use crate::factor::Factor;

verus! {

/// Outcome of comparing two keys.
#[derive(PartialEq, Eq, Structural, Debug, Clone, Copy)]
pub enum KeyOrder {
    Less,
    Equal,
    Greater,
}

/// A key type that interpolation search can work on.
///
/// Interpolation search estimates where a target lies by linear
/// interpolation, so the keys must be "linear" in some sense: ordered, and
/// with a notion of how far a key lies between two others.
pub trait InterpolationFactor: Sized {
    /// The total order that sorted keys follow: `self` comes no later than `other`.
    spec fn key_le(&self, other: &Self) -> bool;

    /// Every key comes no later than itself.
    proof fn lemma_key_le_reflexive(x: Self)
        ensures
            x.key_le(&x),
    ;

    /// The key order is transitive.
    proof fn lemma_key_le_transitive(x: Self, y: Self, z: Self)
        requires
            x.key_le(&y),
            y.key_le(&z),
        ensures
            x.key_le(&z),
    ;

    /// Any two keys are ordered one way or the other.
    proof fn lemma_key_le_total(x: Self, y: Self)
        ensures
            x.key_le(&y) || y.key_le(&x),
    ;

    /// Compares `self` with `other` in the key order.
    fn compare_key(&self, other: &Self) -> (o: KeyOrder)
        ensures
            o == KeyOrder::Less <==> (self.key_le(other) && !other.key_le(self)),
            o == KeyOrder::Equal <==> (self.key_le(other) && other.key_le(self)),
            o == KeyOrder::Greater <==> !self.key_le(other),
    ;

    /// The inputs on which `interpolation_factor` is defined.
    spec fn factor_defined(&self, a: &Self, b: &Self) -> bool;

    /// A key that lies between `a` and `b` has a factor between them.
    proof fn lemma_factor_defined(t: Self, a: Self, b: Self)
        requires
            a.key_le(&t),
            t.key_le(&b),
        ensures
            t.factor_defined(&a, &b),
    ;

    /// Numerator and denominator of the factor of `self` in `[a, b]`.
    spec fn factor_spec(&self, a: &Self, b: &Self) -> (nat, nat);

    /// Where the factor is defined, it is a fraction in `[0, 1]`.
    proof fn lemma_factor_spec_unit(t: Self, a: Self, b: Self)
        requires
            t.factor_defined(&a, &b),
        ensures
            t.factor_spec(&a, &b).0 <= t.factor_spec(&a, &b).1,
            0 < t.factor_spec(&a, &b).1,
    ;

    /// The interpolation factor of `self` in the range `[a, b]`: how far
    /// along the range `self` lies, as a fraction in `[0, 1]`. The search
    /// calls it with a target that lies between `a` and `b`.
    fn interpolation_factor(&self, a: &Self, b: &Self) -> (f: Factor)
        requires
            self.factor_defined(a, b),
        ensures
            (f.numer(), f.denom()) == self.factor_spec(a, b),
    ;
}

/// `x` comes strictly before `y`.
pub open spec fn key_lt<K: InterpolationFactor>(x: &K, y: &K) -> bool {
    !y.key_le(x)
}

/// `x` and `y` are equal keys.
pub open spec fn key_eq<K: InterpolationFactor>(x: &K, y: &K) -> bool {
    x.key_le(y) && y.key_le(x)
}

/// `t` clamped to the range `[a, b]`.
pub open spec fn clamp(t: int, a: int, b: int) -> int {
    if t < a {
        a
    } else if t > b {
        b
    } else {
        t
    }
}

/// Numerator and denominator of the factor of `t` in the integer range
/// `[a, b]`: the distance of the clamped `t` from `a` over the distance
/// from `a` to `b`, or one half when the range is a single point.
pub open spec fn linear_factor(t: int, a: int, b: int) -> (int, int) {
    if a == b {
        (1, 2)
    } else {
        (clamp(t, a, b) - a, b - a)
    }
}

/// The factor of a key in an integer range lies in `[0, 1]`.
pub proof fn lemma_linear_factor_in_unit(t: int, a: int, b: int)
    requires
        a <= b,
    ensures
        0 <= linear_factor(t, a, b).0 <= linear_factor(t, a, b).1,
        0 < linear_factor(t, a, b).1,
{
}

/// The factor is zero at the start of a range and one at its end.
pub proof fn lemma_linear_factor_ends(a: int, b: int)
    requires
        a < b,
    ensures
        linear_factor(a, a, b).0 == 0,
        linear_factor(b, a, b).0 == linear_factor(b, a, b).1,
{
}

/// Over one range, a larger key has a factor no smaller, and keys outside
/// the range have the factor of the nearer end.
pub proof fn lemma_linear_factor_monotone(t1: int, t2: int, a: int, b: int)
    requires
        a <= b,
        t1 <= t2,
    ensures
        linear_factor(t1, a, b).1 == linear_factor(t2, a, b).1,
        linear_factor(t1, a, b).0 <= linear_factor(t2, a, b).0,
        t1 < a ==> linear_factor(t1, a, b) == linear_factor(a, a, b),
        t2 > b ==> linear_factor(t2, a, b) == linear_factor(b, a, b),
{
}

/// The integer factor is exact: for a range with more than one point it is
/// zero at or below `a`, one at or above `b`, and `(t - a) / (b - a)` in
/// between; for a one-point range it is one half.
pub proof fn lemma_linear_factor_exact(t: int, a: int, b: int)
    requires
        a <= b,
    ensures
        linear_factor(t, a, b).1 > 0,
        a == b ==> 2 * linear_factor(t, a, b).0 == linear_factor(t, a, b).1,
        a < b && t <= a ==> linear_factor(t, a, b).0 == 0,
        a < b && t >= b ==> linear_factor(t, a, b).0 == linear_factor(t, a, b).1,
        a < b && a <= t <= b ==> linear_factor(t, a, b).0 * (b - a) == (t - a) * linear_factor(
            t,
            a,
            b,
        ).1,
{
    if a < b && a <= t <= b {
        let f = linear_factor(t, a, b);
        assert(f.0 == t - a && f.1 == b - a);
        assert((t - a) * (b - a) == (t - a) * (b - a));
    }
}

/// The factor of `t` in `[a, b]` for unsigned integers up to 128 bits.
pub fn unsigned_factor(t: u128, a: u128, b: u128) -> (f: Factor)
    requires
        a <= b,
    ensures
        (f.numer() as int, f.denom() as int) == linear_factor(t as int, a as int, b as int),
{
    if a == b {
        return Factor::half();
    }
    let mid: u128 = if t < a {
        a
    } else if t > b {
        b
    } else {
        t
    };
    Factor::from_parts(mid - a, b - a)
}

/// The code point of a character.
pub fn code_point(c: char) -> (r: u32)
    ensures
        r as int == c as int,
{
    let r: u32 = c as u32;
    r
}

/// `hi - lo` for signed 128-bit integers, which always fits in `u128`.
fn distance_i128(lo: i128, hi: i128) -> (d: u128)
    requires
        lo <= hi,
    ensures
        d == hi - lo,
{
    if lo >= 0 || hi < 0 {
        (hi - lo) as u128
    } else {
        let below: i128 = -(lo + 1);
        (hi as u128) + (below as u128) + 1
    }
}

/// The factor of `t` in `[a, b]` for signed integers up to 128 bits.
pub fn signed_factor(t: i128, a: i128, b: i128) -> (f: Factor)
    requires
        a <= b,
    ensures
        (f.numer() as int, f.denom() as int) == linear_factor(t as int, a as int, b as int),
{
    if a == b {
        return Factor::half();
    }
    let mid: i128 = if t < a {
        a
    } else if t > b {
        b
    } else {
        t
    };
    Factor::from_parts(distance_i128(a, mid), distance_i128(a, b))
}

} // verus!
