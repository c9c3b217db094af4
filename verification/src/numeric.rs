//! The key order and interpolation factor of the integer types and of `char`.
use vstd::prelude::*;
use crate::factor::Factor;
use crate::interpolation_factor::InterpolationFactor;
use crate::interpolation_factor::KeyOrder;
use crate::interpolation_factor::linear_factor;
use crate::interpolation_factor::lemma_linear_factor_exact;
use crate::interpolation_factor::unsigned_factor;
use crate::interpolation_factor::signed_factor;
use crate::interpolation_factor::code_point;

verus! {

impl InterpolationFactor for u8 {
    open spec fn key_le(&self, other: &Self) -> bool {
        *self <= *other
    }

    proof fn lemma_key_le_reflexive(x: Self) {
    }

    proof fn lemma_key_le_transitive(x: Self, y: Self, z: Self) {
    }

    proof fn lemma_key_le_total(x: Self, y: Self) {
    }

    fn compare_key(&self, other: &Self) -> (o: KeyOrder) {
        if *self < *other {
            KeyOrder::Less
        } else if *self == *other {
            KeyOrder::Equal
        } else {
            KeyOrder::Greater
        }
    }

    open spec fn factor_defined(&self, a: &Self, b: &Self) -> bool {
        *a <= *b
    }

    proof fn lemma_factor_defined(t: Self, a: Self, b: Self) {
    }

    open spec fn factor_spec(&self, a: &Self, b: &Self) -> (nat, nat) {
        (linear_factor(*self as int, *a as int, *b as int).0 as nat, linear_factor(*self as int, *a as int, *b as int).1 as nat)
    }

    proof fn lemma_factor_spec_unit(t: Self, a: Self, b: Self) {
    }

    /// One half when `a == b`; otherwise the distance from `a` to `self`
    /// clamped to `[a, b]`, over the distance from `a` to `b`.
    fn interpolation_factor(&self, a: &Self, b: &Self) -> (f: Factor)
        ensures
            (f.numer() as int, f.denom() as int) == linear_factor(
                *self as int,
                *a as int,
                *b as int,
            ),
    {
        unsigned_factor(*self as u128, *a as u128, *b as u128)
    }
}

impl InterpolationFactor for u16 {
    open spec fn key_le(&self, other: &Self) -> bool {
        *self <= *other
    }

    proof fn lemma_key_le_reflexive(x: Self) {
    }

    proof fn lemma_key_le_transitive(x: Self, y: Self, z: Self) {
    }

    proof fn lemma_key_le_total(x: Self, y: Self) {
    }

    fn compare_key(&self, other: &Self) -> (o: KeyOrder) {
        if *self < *other {
            KeyOrder::Less
        } else if *self == *other {
            KeyOrder::Equal
        } else {
            KeyOrder::Greater
        }
    }

    open spec fn factor_defined(&self, a: &Self, b: &Self) -> bool {
        *a <= *b
    }

    proof fn lemma_factor_defined(t: Self, a: Self, b: Self) {
    }

    open spec fn factor_spec(&self, a: &Self, b: &Self) -> (nat, nat) {
        (linear_factor(*self as int, *a as int, *b as int).0 as nat, linear_factor(*self as int, *a as int, *b as int).1 as nat)
    }

    proof fn lemma_factor_spec_unit(t: Self, a: Self, b: Self) {
    }

    /// One half when `a == b`; otherwise the distance from `a` to `self`
    /// clamped to `[a, b]`, over the distance from `a` to `b`.
    fn interpolation_factor(&self, a: &Self, b: &Self) -> (f: Factor)
        ensures
            (f.numer() as int, f.denom() as int) == linear_factor(
                *self as int,
                *a as int,
                *b as int,
            ),
    {
        unsigned_factor(*self as u128, *a as u128, *b as u128)
    }
}

impl InterpolationFactor for u32 {
    open spec fn key_le(&self, other: &Self) -> bool {
        *self <= *other
    }

    proof fn lemma_key_le_reflexive(x: Self) {
    }

    proof fn lemma_key_le_transitive(x: Self, y: Self, z: Self) {
    }

    proof fn lemma_key_le_total(x: Self, y: Self) {
    }

    fn compare_key(&self, other: &Self) -> (o: KeyOrder) {
        if *self < *other {
            KeyOrder::Less
        } else if *self == *other {
            KeyOrder::Equal
        } else {
            KeyOrder::Greater
        }
    }

    open spec fn factor_defined(&self, a: &Self, b: &Self) -> bool {
        *a <= *b
    }

    proof fn lemma_factor_defined(t: Self, a: Self, b: Self) {
    }

    open spec fn factor_spec(&self, a: &Self, b: &Self) -> (nat, nat) {
        (linear_factor(*self as int, *a as int, *b as int).0 as nat, linear_factor(*self as int, *a as int, *b as int).1 as nat)
    }

    proof fn lemma_factor_spec_unit(t: Self, a: Self, b: Self) {
    }

    /// One half when `a == b`; otherwise the distance from `a` to `self`
    /// clamped to `[a, b]`, over the distance from `a` to `b`.
    fn interpolation_factor(&self, a: &Self, b: &Self) -> (f: Factor)
        ensures
            (f.numer() as int, f.denom() as int) == linear_factor(
                *self as int,
                *a as int,
                *b as int,
            ),
    {
        unsigned_factor(*self as u128, *a as u128, *b as u128)
    }
}

impl InterpolationFactor for u64 {
    open spec fn key_le(&self, other: &Self) -> bool {
        *self <= *other
    }

    proof fn lemma_key_le_reflexive(x: Self) {
    }

    proof fn lemma_key_le_transitive(x: Self, y: Self, z: Self) {
    }

    proof fn lemma_key_le_total(x: Self, y: Self) {
    }

    fn compare_key(&self, other: &Self) -> (o: KeyOrder) {
        if *self < *other {
            KeyOrder::Less
        } else if *self == *other {
            KeyOrder::Equal
        } else {
            KeyOrder::Greater
        }
    }

    open spec fn factor_defined(&self, a: &Self, b: &Self) -> bool {
        *a <= *b
    }

    proof fn lemma_factor_defined(t: Self, a: Self, b: Self) {
    }

    open spec fn factor_spec(&self, a: &Self, b: &Self) -> (nat, nat) {
        (linear_factor(*self as int, *a as int, *b as int).0 as nat, linear_factor(*self as int, *a as int, *b as int).1 as nat)
    }

    proof fn lemma_factor_spec_unit(t: Self, a: Self, b: Self) {
    }

    /// One half when `a == b`; otherwise the distance from `a` to `self`
    /// clamped to `[a, b]`, over the distance from `a` to `b`.
    fn interpolation_factor(&self, a: &Self, b: &Self) -> (f: Factor)
        ensures
            (f.numer() as int, f.denom() as int) == linear_factor(
                *self as int,
                *a as int,
                *b as int,
            ),
    {
        unsigned_factor(*self as u128, *a as u128, *b as u128)
    }
}

impl InterpolationFactor for u128 {
    open spec fn key_le(&self, other: &Self) -> bool {
        *self <= *other
    }

    proof fn lemma_key_le_reflexive(x: Self) {
    }

    proof fn lemma_key_le_transitive(x: Self, y: Self, z: Self) {
    }

    proof fn lemma_key_le_total(x: Self, y: Self) {
    }

    fn compare_key(&self, other: &Self) -> (o: KeyOrder) {
        if *self < *other {
            KeyOrder::Less
        } else if *self == *other {
            KeyOrder::Equal
        } else {
            KeyOrder::Greater
        }
    }

    open spec fn factor_defined(&self, a: &Self, b: &Self) -> bool {
        *a <= *b
    }

    proof fn lemma_factor_defined(t: Self, a: Self, b: Self) {
    }

    open spec fn factor_spec(&self, a: &Self, b: &Self) -> (nat, nat) {
        (linear_factor(*self as int, *a as int, *b as int).0 as nat, linear_factor(*self as int, *a as int, *b as int).1 as nat)
    }

    proof fn lemma_factor_spec_unit(t: Self, a: Self, b: Self) {
    }

    /// One half when `a == b`; otherwise the distance from `a` to `self`
    /// clamped to `[a, b]`, over the distance from `a` to `b`.
    fn interpolation_factor(&self, a: &Self, b: &Self) -> (f: Factor)
        ensures
            (f.numer() as int, f.denom() as int) == linear_factor(
                *self as int,
                *a as int,
                *b as int,
            ),
    {
        unsigned_factor(*self as u128, *a as u128, *b as u128)
    }
}

impl InterpolationFactor for usize {
    open spec fn key_le(&self, other: &Self) -> bool {
        *self <= *other
    }

    proof fn lemma_key_le_reflexive(x: Self) {
    }

    proof fn lemma_key_le_transitive(x: Self, y: Self, z: Self) {
    }

    proof fn lemma_key_le_total(x: Self, y: Self) {
    }

    fn compare_key(&self, other: &Self) -> (o: KeyOrder) {
        if *self < *other {
            KeyOrder::Less
        } else if *self == *other {
            KeyOrder::Equal
        } else {
            KeyOrder::Greater
        }
    }

    open spec fn factor_defined(&self, a: &Self, b: &Self) -> bool {
        *a <= *b
    }

    proof fn lemma_factor_defined(t: Self, a: Self, b: Self) {
    }

    open spec fn factor_spec(&self, a: &Self, b: &Self) -> (nat, nat) {
        (linear_factor(*self as int, *a as int, *b as int).0 as nat, linear_factor(*self as int, *a as int, *b as int).1 as nat)
    }

    proof fn lemma_factor_spec_unit(t: Self, a: Self, b: Self) {
    }

    /// One half when `a == b`; otherwise the distance from `a` to `self`
    /// clamped to `[a, b]`, over the distance from `a` to `b`.
    fn interpolation_factor(&self, a: &Self, b: &Self) -> (f: Factor)
        ensures
            (f.numer() as int, f.denom() as int) == linear_factor(
                *self as int,
                *a as int,
                *b as int,
            ),
    {
        unsigned_factor(*self as u128, *a as u128, *b as u128)
    }
}

impl InterpolationFactor for i8 {
    open spec fn key_le(&self, other: &Self) -> bool {
        *self <= *other
    }

    proof fn lemma_key_le_reflexive(x: Self) {
    }

    proof fn lemma_key_le_transitive(x: Self, y: Self, z: Self) {
    }

    proof fn lemma_key_le_total(x: Self, y: Self) {
    }

    fn compare_key(&self, other: &Self) -> (o: KeyOrder) {
        if *self < *other {
            KeyOrder::Less
        } else if *self == *other {
            KeyOrder::Equal
        } else {
            KeyOrder::Greater
        }
    }

    open spec fn factor_defined(&self, a: &Self, b: &Self) -> bool {
        *a <= *b
    }

    proof fn lemma_factor_defined(t: Self, a: Self, b: Self) {
    }

    open spec fn factor_spec(&self, a: &Self, b: &Self) -> (nat, nat) {
        (linear_factor(*self as int, *a as int, *b as int).0 as nat, linear_factor(*self as int, *a as int, *b as int).1 as nat)
    }

    proof fn lemma_factor_spec_unit(t: Self, a: Self, b: Self) {
    }

    /// One half when `a == b`; otherwise the distance from `a` to `self`
    /// clamped to `[a, b]`, over the distance from `a` to `b`.
    fn interpolation_factor(&self, a: &Self, b: &Self) -> (f: Factor)
        ensures
            (f.numer() as int, f.denom() as int) == linear_factor(
                *self as int,
                *a as int,
                *b as int,
            ),
    {
        signed_factor(*self as i128, *a as i128, *b as i128)
    }
}

impl InterpolationFactor for i16 {
    open spec fn key_le(&self, other: &Self) -> bool {
        *self <= *other
    }

    proof fn lemma_key_le_reflexive(x: Self) {
    }

    proof fn lemma_key_le_transitive(x: Self, y: Self, z: Self) {
    }

    proof fn lemma_key_le_total(x: Self, y: Self) {
    }

    fn compare_key(&self, other: &Self) -> (o: KeyOrder) {
        if *self < *other {
            KeyOrder::Less
        } else if *self == *other {
            KeyOrder::Equal
        } else {
            KeyOrder::Greater
        }
    }

    open spec fn factor_defined(&self, a: &Self, b: &Self) -> bool {
        *a <= *b
    }

    proof fn lemma_factor_defined(t: Self, a: Self, b: Self) {
    }

    open spec fn factor_spec(&self, a: &Self, b: &Self) -> (nat, nat) {
        (linear_factor(*self as int, *a as int, *b as int).0 as nat, linear_factor(*self as int, *a as int, *b as int).1 as nat)
    }

    proof fn lemma_factor_spec_unit(t: Self, a: Self, b: Self) {
    }

    /// One half when `a == b`; otherwise the distance from `a` to `self`
    /// clamped to `[a, b]`, over the distance from `a` to `b`.
    fn interpolation_factor(&self, a: &Self, b: &Self) -> (f: Factor)
        ensures
            (f.numer() as int, f.denom() as int) == linear_factor(
                *self as int,
                *a as int,
                *b as int,
            ),
    {
        signed_factor(*self as i128, *a as i128, *b as i128)
    }
}

impl InterpolationFactor for i32 {
    open spec fn key_le(&self, other: &Self) -> bool {
        *self <= *other
    }

    proof fn lemma_key_le_reflexive(x: Self) {
    }

    proof fn lemma_key_le_transitive(x: Self, y: Self, z: Self) {
    }

    proof fn lemma_key_le_total(x: Self, y: Self) {
    }

    fn compare_key(&self, other: &Self) -> (o: KeyOrder) {
        if *self < *other {
            KeyOrder::Less
        } else if *self == *other {
            KeyOrder::Equal
        } else {
            KeyOrder::Greater
        }
    }

    open spec fn factor_defined(&self, a: &Self, b: &Self) -> bool {
        *a <= *b
    }

    proof fn lemma_factor_defined(t: Self, a: Self, b: Self) {
    }

    open spec fn factor_spec(&self, a: &Self, b: &Self) -> (nat, nat) {
        (linear_factor(*self as int, *a as int, *b as int).0 as nat, linear_factor(*self as int, *a as int, *b as int).1 as nat)
    }

    proof fn lemma_factor_spec_unit(t: Self, a: Self, b: Self) {
    }

    /// One half when `a == b`; otherwise the distance from `a` to `self`
    /// clamped to `[a, b]`, over the distance from `a` to `b`.
    fn interpolation_factor(&self, a: &Self, b: &Self) -> (f: Factor)
        ensures
            (f.numer() as int, f.denom() as int) == linear_factor(
                *self as int,
                *a as int,
                *b as int,
            ),
    {
        signed_factor(*self as i128, *a as i128, *b as i128)
    }
}

impl InterpolationFactor for i64 {
    open spec fn key_le(&self, other: &Self) -> bool {
        *self <= *other
    }

    proof fn lemma_key_le_reflexive(x: Self) {
    }

    proof fn lemma_key_le_transitive(x: Self, y: Self, z: Self) {
    }

    proof fn lemma_key_le_total(x: Self, y: Self) {
    }

    fn compare_key(&self, other: &Self) -> (o: KeyOrder) {
        if *self < *other {
            KeyOrder::Less
        } else if *self == *other {
            KeyOrder::Equal
        } else {
            KeyOrder::Greater
        }
    }

    open spec fn factor_defined(&self, a: &Self, b: &Self) -> bool {
        *a <= *b
    }

    proof fn lemma_factor_defined(t: Self, a: Self, b: Self) {
    }

    open spec fn factor_spec(&self, a: &Self, b: &Self) -> (nat, nat) {
        (linear_factor(*self as int, *a as int, *b as int).0 as nat, linear_factor(*self as int, *a as int, *b as int).1 as nat)
    }

    proof fn lemma_factor_spec_unit(t: Self, a: Self, b: Self) {
    }

    /// One half when `a == b`; otherwise the distance from `a` to `self`
    /// clamped to `[a, b]`, over the distance from `a` to `b`.
    fn interpolation_factor(&self, a: &Self, b: &Self) -> (f: Factor)
        ensures
            (f.numer() as int, f.denom() as int) == linear_factor(
                *self as int,
                *a as int,
                *b as int,
            ),
    {
        signed_factor(*self as i128, *a as i128, *b as i128)
    }
}

impl InterpolationFactor for i128 {
    open spec fn key_le(&self, other: &Self) -> bool {
        *self <= *other
    }

    proof fn lemma_key_le_reflexive(x: Self) {
    }

    proof fn lemma_key_le_transitive(x: Self, y: Self, z: Self) {
    }

    proof fn lemma_key_le_total(x: Self, y: Self) {
    }

    fn compare_key(&self, other: &Self) -> (o: KeyOrder) {
        if *self < *other {
            KeyOrder::Less
        } else if *self == *other {
            KeyOrder::Equal
        } else {
            KeyOrder::Greater
        }
    }

    open spec fn factor_defined(&self, a: &Self, b: &Self) -> bool {
        *a <= *b
    }

    proof fn lemma_factor_defined(t: Self, a: Self, b: Self) {
    }

    open spec fn factor_spec(&self, a: &Self, b: &Self) -> (nat, nat) {
        (linear_factor(*self as int, *a as int, *b as int).0 as nat, linear_factor(*self as int, *a as int, *b as int).1 as nat)
    }

    proof fn lemma_factor_spec_unit(t: Self, a: Self, b: Self) {
    }

    /// One half when `a == b`; otherwise the distance from `a` to `self`
    /// clamped to `[a, b]`, over the distance from `a` to `b`.
    fn interpolation_factor(&self, a: &Self, b: &Self) -> (f: Factor)
        ensures
            (f.numer() as int, f.denom() as int) == linear_factor(
                *self as int,
                *a as int,
                *b as int,
            ),
    {
        signed_factor(*self as i128, *a as i128, *b as i128)
    }
}

impl InterpolationFactor for isize {
    open spec fn key_le(&self, other: &Self) -> bool {
        *self <= *other
    }

    proof fn lemma_key_le_reflexive(x: Self) {
    }

    proof fn lemma_key_le_transitive(x: Self, y: Self, z: Self) {
    }

    proof fn lemma_key_le_total(x: Self, y: Self) {
    }

    fn compare_key(&self, other: &Self) -> (o: KeyOrder) {
        if *self < *other {
            KeyOrder::Less
        } else if *self == *other {
            KeyOrder::Equal
        } else {
            KeyOrder::Greater
        }
    }

    open spec fn factor_defined(&self, a: &Self, b: &Self) -> bool {
        *a <= *b
    }

    proof fn lemma_factor_defined(t: Self, a: Self, b: Self) {
    }

    open spec fn factor_spec(&self, a: &Self, b: &Self) -> (nat, nat) {
        (linear_factor(*self as int, *a as int, *b as int).0 as nat, linear_factor(*self as int, *a as int, *b as int).1 as nat)
    }

    proof fn lemma_factor_spec_unit(t: Self, a: Self, b: Self) {
    }

    /// One half when `a == b`; otherwise the distance from `a` to `self`
    /// clamped to `[a, b]`, over the distance from `a` to `b`.
    fn interpolation_factor(&self, a: &Self, b: &Self) -> (f: Factor)
        ensures
            (f.numer() as int, f.denom() as int) == linear_factor(
                *self as int,
                *a as int,
                *b as int,
            ),
    {
        signed_factor(*self as i128, *a as i128, *b as i128)
    }
}

impl InterpolationFactor for char {
    open spec fn key_le(&self, other: &Self) -> bool {
        (*self as int) <= (*other as int)
    }

    proof fn lemma_key_le_reflexive(x: Self) {
    }

    proof fn lemma_key_le_transitive(x: Self, y: Self, z: Self) {
    }

    proof fn lemma_key_le_total(x: Self, y: Self) {
    }

    fn compare_key(&self, other: &Self) -> (o: KeyOrder) {
        if code_point(*self) < code_point(*other) {
            KeyOrder::Less
        } else if code_point(*self) == code_point(*other) {
            KeyOrder::Equal
        } else {
            KeyOrder::Greater
        }
    }

    open spec fn factor_defined(&self, a: &Self, b: &Self) -> bool {
        (*a as int) <= (*b as int)
    }

    proof fn lemma_factor_defined(t: Self, a: Self, b: Self) {
    }

    open spec fn factor_spec(&self, a: &Self, b: &Self) -> (nat, nat) {
        (linear_factor(*self as int, *a as int, *b as int).0 as nat, linear_factor(*self as int, *a as int, *b as int).1 as nat)
    }

    proof fn lemma_factor_spec_unit(t: Self, a: Self, b: Self) {
    }

    /// Keys are ordered by code point, and the factor is that of the code points. One half when `a == b`; otherwise the distance from `a` to `self`
    /// clamped to `[a, b]`, over the distance from `a` to `b`.
    fn interpolation_factor(&self, a: &Self, b: &Self) -> (f: Factor)
        ensures
            (f.numer() as int, f.denom() as int) == linear_factor(
                *self as int,
                *a as int,
                *b as int,
            ),
    {
        unsigned_factor(code_point(*self) as u128, code_point(*a) as u128, code_point(*b) as u128)
    }
}

/// `u8` keys are ordered as numbers, and the factor of `t` in `[a, b]` is
/// zero at or below `a`, one at or above `b`, `(t - a) / (b - a)` in between,
/// and one half when `a == b`.
pub proof fn lemma_u8_order_and_factor(t: u8, a: u8, b: u8)
    requires
        (a as int) <= (b as int),
    ensures
        t.key_le(&a) <==> (t as int) <= (a as int),
        t.factor_spec(&a, &b).1 > 0,
        (a as int) == (b as int) ==> 2 * t.factor_spec(&a, &b).0 == t.factor_spec(&a, &b).1,
        (a as int) < (b as int) && (t as int) <= (a as int) ==> t.factor_spec(&a, &b).0 == 0,
        (a as int) < (b as int) && (t as int) >= (b as int) ==> t.factor_spec(&a, &b).0 == t.factor_spec(&a, &b).1,
        (a as int) < (b as int) && (a as int) <= (t as int) <= (b as int) ==> t.factor_spec(&a, &b).0 * ((b as int) - (a as int))
            == ((t as int) - (a as int)) * t.factor_spec(&a, &b).1,
{
    lemma_linear_factor_exact((t as int), (a as int), (b as int));
}

/// `u16` keys are ordered as numbers, and the factor of `t` in `[a, b]` is
/// zero at or below `a`, one at or above `b`, `(t - a) / (b - a)` in between,
/// and one half when `a == b`.
pub proof fn lemma_u16_order_and_factor(t: u16, a: u16, b: u16)
    requires
        (a as int) <= (b as int),
    ensures
        t.key_le(&a) <==> (t as int) <= (a as int),
        t.factor_spec(&a, &b).1 > 0,
        (a as int) == (b as int) ==> 2 * t.factor_spec(&a, &b).0 == t.factor_spec(&a, &b).1,
        (a as int) < (b as int) && (t as int) <= (a as int) ==> t.factor_spec(&a, &b).0 == 0,
        (a as int) < (b as int) && (t as int) >= (b as int) ==> t.factor_spec(&a, &b).0 == t.factor_spec(&a, &b).1,
        (a as int) < (b as int) && (a as int) <= (t as int) <= (b as int) ==> t.factor_spec(&a, &b).0 * ((b as int) - (a as int))
            == ((t as int) - (a as int)) * t.factor_spec(&a, &b).1,
{
    lemma_linear_factor_exact((t as int), (a as int), (b as int));
}

/// `u32` keys are ordered as numbers, and the factor of `t` in `[a, b]` is
/// zero at or below `a`, one at or above `b`, `(t - a) / (b - a)` in between,
/// and one half when `a == b`.
pub proof fn lemma_u32_order_and_factor(t: u32, a: u32, b: u32)
    requires
        (a as int) <= (b as int),
    ensures
        t.key_le(&a) <==> (t as int) <= (a as int),
        t.factor_spec(&a, &b).1 > 0,
        (a as int) == (b as int) ==> 2 * t.factor_spec(&a, &b).0 == t.factor_spec(&a, &b).1,
        (a as int) < (b as int) && (t as int) <= (a as int) ==> t.factor_spec(&a, &b).0 == 0,
        (a as int) < (b as int) && (t as int) >= (b as int) ==> t.factor_spec(&a, &b).0 == t.factor_spec(&a, &b).1,
        (a as int) < (b as int) && (a as int) <= (t as int) <= (b as int) ==> t.factor_spec(&a, &b).0 * ((b as int) - (a as int))
            == ((t as int) - (a as int)) * t.factor_spec(&a, &b).1,
{
    lemma_linear_factor_exact((t as int), (a as int), (b as int));
}

/// `u64` keys are ordered as numbers, and the factor of `t` in `[a, b]` is
/// zero at or below `a`, one at or above `b`, `(t - a) / (b - a)` in between,
/// and one half when `a == b`.
pub proof fn lemma_u64_order_and_factor(t: u64, a: u64, b: u64)
    requires
        (a as int) <= (b as int),
    ensures
        t.key_le(&a) <==> (t as int) <= (a as int),
        t.factor_spec(&a, &b).1 > 0,
        (a as int) == (b as int) ==> 2 * t.factor_spec(&a, &b).0 == t.factor_spec(&a, &b).1,
        (a as int) < (b as int) && (t as int) <= (a as int) ==> t.factor_spec(&a, &b).0 == 0,
        (a as int) < (b as int) && (t as int) >= (b as int) ==> t.factor_spec(&a, &b).0 == t.factor_spec(&a, &b).1,
        (a as int) < (b as int) && (a as int) <= (t as int) <= (b as int) ==> t.factor_spec(&a, &b).0 * ((b as int) - (a as int))
            == ((t as int) - (a as int)) * t.factor_spec(&a, &b).1,
{
    lemma_linear_factor_exact((t as int), (a as int), (b as int));
}

/// `u128` keys are ordered as numbers, and the factor of `t` in `[a, b]` is
/// zero at or below `a`, one at or above `b`, `(t - a) / (b - a)` in between,
/// and one half when `a == b`.
pub proof fn lemma_u128_order_and_factor(t: u128, a: u128, b: u128)
    requires
        (a as int) <= (b as int),
    ensures
        t.key_le(&a) <==> (t as int) <= (a as int),
        t.factor_spec(&a, &b).1 > 0,
        (a as int) == (b as int) ==> 2 * t.factor_spec(&a, &b).0 == t.factor_spec(&a, &b).1,
        (a as int) < (b as int) && (t as int) <= (a as int) ==> t.factor_spec(&a, &b).0 == 0,
        (a as int) < (b as int) && (t as int) >= (b as int) ==> t.factor_spec(&a, &b).0 == t.factor_spec(&a, &b).1,
        (a as int) < (b as int) && (a as int) <= (t as int) <= (b as int) ==> t.factor_spec(&a, &b).0 * ((b as int) - (a as int))
            == ((t as int) - (a as int)) * t.factor_spec(&a, &b).1,
{
    lemma_linear_factor_exact((t as int), (a as int), (b as int));
}

/// `usize` keys are ordered as numbers, and the factor of `t` in `[a, b]` is
/// zero at or below `a`, one at or above `b`, `(t - a) / (b - a)` in between,
/// and one half when `a == b`.
pub proof fn lemma_usize_order_and_factor(t: usize, a: usize, b: usize)
    requires
        (a as int) <= (b as int),
    ensures
        t.key_le(&a) <==> (t as int) <= (a as int),
        t.factor_spec(&a, &b).1 > 0,
        (a as int) == (b as int) ==> 2 * t.factor_spec(&a, &b).0 == t.factor_spec(&a, &b).1,
        (a as int) < (b as int) && (t as int) <= (a as int) ==> t.factor_spec(&a, &b).0 == 0,
        (a as int) < (b as int) && (t as int) >= (b as int) ==> t.factor_spec(&a, &b).0 == t.factor_spec(&a, &b).1,
        (a as int) < (b as int) && (a as int) <= (t as int) <= (b as int) ==> t.factor_spec(&a, &b).0 * ((b as int) - (a as int))
            == ((t as int) - (a as int)) * t.factor_spec(&a, &b).1,
{
    lemma_linear_factor_exact((t as int), (a as int), (b as int));
}

/// `i8` keys are ordered as numbers, and the factor of `t` in `[a, b]` is
/// zero at or below `a`, one at or above `b`, `(t - a) / (b - a)` in between,
/// and one half when `a == b`.
pub proof fn lemma_i8_order_and_factor(t: i8, a: i8, b: i8)
    requires
        (a as int) <= (b as int),
    ensures
        t.key_le(&a) <==> (t as int) <= (a as int),
        t.factor_spec(&a, &b).1 > 0,
        (a as int) == (b as int) ==> 2 * t.factor_spec(&a, &b).0 == t.factor_spec(&a, &b).1,
        (a as int) < (b as int) && (t as int) <= (a as int) ==> t.factor_spec(&a, &b).0 == 0,
        (a as int) < (b as int) && (t as int) >= (b as int) ==> t.factor_spec(&a, &b).0 == t.factor_spec(&a, &b).1,
        (a as int) < (b as int) && (a as int) <= (t as int) <= (b as int) ==> t.factor_spec(&a, &b).0 * ((b as int) - (a as int))
            == ((t as int) - (a as int)) * t.factor_spec(&a, &b).1,
{
    lemma_linear_factor_exact((t as int), (a as int), (b as int));
}

/// `i16` keys are ordered as numbers, and the factor of `t` in `[a, b]` is
/// zero at or below `a`, one at or above `b`, `(t - a) / (b - a)` in between,
/// and one half when `a == b`.
pub proof fn lemma_i16_order_and_factor(t: i16, a: i16, b: i16)
    requires
        (a as int) <= (b as int),
    ensures
        t.key_le(&a) <==> (t as int) <= (a as int),
        t.factor_spec(&a, &b).1 > 0,
        (a as int) == (b as int) ==> 2 * t.factor_spec(&a, &b).0 == t.factor_spec(&a, &b).1,
        (a as int) < (b as int) && (t as int) <= (a as int) ==> t.factor_spec(&a, &b).0 == 0,
        (a as int) < (b as int) && (t as int) >= (b as int) ==> t.factor_spec(&a, &b).0 == t.factor_spec(&a, &b).1,
        (a as int) < (b as int) && (a as int) <= (t as int) <= (b as int) ==> t.factor_spec(&a, &b).0 * ((b as int) - (a as int))
            == ((t as int) - (a as int)) * t.factor_spec(&a, &b).1,
{
    lemma_linear_factor_exact((t as int), (a as int), (b as int));
}

/// `i32` keys are ordered as numbers, and the factor of `t` in `[a, b]` is
/// zero at or below `a`, one at or above `b`, `(t - a) / (b - a)` in between,
/// and one half when `a == b`.
pub proof fn lemma_i32_order_and_factor(t: i32, a: i32, b: i32)
    requires
        (a as int) <= (b as int),
    ensures
        t.key_le(&a) <==> (t as int) <= (a as int),
        t.factor_spec(&a, &b).1 > 0,
        (a as int) == (b as int) ==> 2 * t.factor_spec(&a, &b).0 == t.factor_spec(&a, &b).1,
        (a as int) < (b as int) && (t as int) <= (a as int) ==> t.factor_spec(&a, &b).0 == 0,
        (a as int) < (b as int) && (t as int) >= (b as int) ==> t.factor_spec(&a, &b).0 == t.factor_spec(&a, &b).1,
        (a as int) < (b as int) && (a as int) <= (t as int) <= (b as int) ==> t.factor_spec(&a, &b).0 * ((b as int) - (a as int))
            == ((t as int) - (a as int)) * t.factor_spec(&a, &b).1,
{
    lemma_linear_factor_exact((t as int), (a as int), (b as int));
}

/// `i64` keys are ordered as numbers, and the factor of `t` in `[a, b]` is
/// zero at or below `a`, one at or above `b`, `(t - a) / (b - a)` in between,
/// and one half when `a == b`.
pub proof fn lemma_i64_order_and_factor(t: i64, a: i64, b: i64)
    requires
        (a as int) <= (b as int),
    ensures
        t.key_le(&a) <==> (t as int) <= (a as int),
        t.factor_spec(&a, &b).1 > 0,
        (a as int) == (b as int) ==> 2 * t.factor_spec(&a, &b).0 == t.factor_spec(&a, &b).1,
        (a as int) < (b as int) && (t as int) <= (a as int) ==> t.factor_spec(&a, &b).0 == 0,
        (a as int) < (b as int) && (t as int) >= (b as int) ==> t.factor_spec(&a, &b).0 == t.factor_spec(&a, &b).1,
        (a as int) < (b as int) && (a as int) <= (t as int) <= (b as int) ==> t.factor_spec(&a, &b).0 * ((b as int) - (a as int))
            == ((t as int) - (a as int)) * t.factor_spec(&a, &b).1,
{
    lemma_linear_factor_exact((t as int), (a as int), (b as int));
}

/// `i128` keys are ordered as numbers, and the factor of `t` in `[a, b]` is
/// zero at or below `a`, one at or above `b`, `(t - a) / (b - a)` in between,
/// and one half when `a == b`.
pub proof fn lemma_i128_order_and_factor(t: i128, a: i128, b: i128)
    requires
        (a as int) <= (b as int),
    ensures
        t.key_le(&a) <==> (t as int) <= (a as int),
        t.factor_spec(&a, &b).1 > 0,
        (a as int) == (b as int) ==> 2 * t.factor_spec(&a, &b).0 == t.factor_spec(&a, &b).1,
        (a as int) < (b as int) && (t as int) <= (a as int) ==> t.factor_spec(&a, &b).0 == 0,
        (a as int) < (b as int) && (t as int) >= (b as int) ==> t.factor_spec(&a, &b).0 == t.factor_spec(&a, &b).1,
        (a as int) < (b as int) && (a as int) <= (t as int) <= (b as int) ==> t.factor_spec(&a, &b).0 * ((b as int) - (a as int))
            == ((t as int) - (a as int)) * t.factor_spec(&a, &b).1,
{
    lemma_linear_factor_exact((t as int), (a as int), (b as int));
}

/// `isize` keys are ordered as numbers, and the factor of `t` in `[a, b]` is
/// zero at or below `a`, one at or above `b`, `(t - a) / (b - a)` in between,
/// and one half when `a == b`.
pub proof fn lemma_isize_order_and_factor(t: isize, a: isize, b: isize)
    requires
        (a as int) <= (b as int),
    ensures
        t.key_le(&a) <==> (t as int) <= (a as int),
        t.factor_spec(&a, &b).1 > 0,
        (a as int) == (b as int) ==> 2 * t.factor_spec(&a, &b).0 == t.factor_spec(&a, &b).1,
        (a as int) < (b as int) && (t as int) <= (a as int) ==> t.factor_spec(&a, &b).0 == 0,
        (a as int) < (b as int) && (t as int) >= (b as int) ==> t.factor_spec(&a, &b).0 == t.factor_spec(&a, &b).1,
        (a as int) < (b as int) && (a as int) <= (t as int) <= (b as int) ==> t.factor_spec(&a, &b).0 * ((b as int) - (a as int))
            == ((t as int) - (a as int)) * t.factor_spec(&a, &b).1,
{
    lemma_linear_factor_exact((t as int), (a as int), (b as int));
}

/// `char` keys are ordered as code points, and the factor of `t` in `[a, b]` is
/// zero at or below `a`, one at or above `b`, `(t - a) / (b - a)` in between,
/// and one half when `a == b`.
pub proof fn lemma_char_order_and_factor(t: char, a: char, b: char)
    requires
        (a as int) <= (b as int),
    ensures
        t.key_le(&a) <==> (t as int) <= (a as int),
        t.factor_spec(&a, &b).1 > 0,
        (a as int) == (b as int) ==> 2 * t.factor_spec(&a, &b).0 == t.factor_spec(&a, &b).1,
        (a as int) < (b as int) && (t as int) <= (a as int) ==> t.factor_spec(&a, &b).0 == 0,
        (a as int) < (b as int) && (t as int) >= (b as int) ==> t.factor_spec(&a, &b).0 == t.factor_spec(&a, &b).1,
        (a as int) < (b as int) && (a as int) <= (t as int) <= (b as int) ==> t.factor_spec(&a, &b).0 * ((b as int) - (a as int))
            == ((t as int) - (a as int)) * t.factor_spec(&a, &b).1,
{
    lemma_linear_factor_exact((t as int), (a as int), (b as int));
}

} // verus!
