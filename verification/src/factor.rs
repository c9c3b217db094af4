//! Exact interpolation factors and the probe position they select.
use vstd::prelude::*;
use vstd::arithmetic::div_mod::lemma_fundamental_div_mod_converse;

verus! {

/// A fraction `numerator / denominator` in the closed range `[0, 1]`.
///
/// It is the exact ratio from which a floating-point interpolation factor
/// is taken: the distance of a value from the start of a range over the
/// length of the range.
pub struct Factor {
    num: u128,
    den: u128,
}

impl Factor {
    #[verifier::type_invariant]
    spec fn inv(self) -> bool {
        self.num <= self.den && self.den > 0
    }

    /// The numerator of the fraction.
    pub closed spec fn numer(self) -> nat {
        self.num as nat
    }

    /// The denominator of the fraction.
    pub closed spec fn denom(self) -> nat {
        self.den as nat
    }

    /// Builds `numerator / denominator`; `None` unless the fraction lies in `[0, 1]`.
    pub fn new(numerator: u128, denominator: u128) -> (r: Option<Factor>)
        ensures
            r is Some <==> (numerator <= denominator && denominator > 0),
            r matches Some(f) ==> f.numer() == numerator && f.denom() == denominator,
    {
        if numerator <= denominator && denominator > 0 {
            Some(Factor { num: numerator, den: denominator })
        } else {
            None
        }
    }

    /// Builds `numerator / denominator` from parts known to lie in `[0, 1]`.
    pub fn from_parts(numerator: u128, denominator: u128) -> (f: Factor)
        requires
            numerator <= denominator,
            denominator > 0,
        ensures
            f.numer() == numerator,
            f.denom() == denominator,
    {
        Factor { num: numerator, den: denominator }
    }

    /// The factor `1 / 2`, the middle of a range.
    pub fn half() -> (r: Factor)
        ensures
            r.numer() == 1,
            r.denom() == 2,
    {
        Factor { num: 1, den: 2 }
    }

    /// The numerator of the fraction.
    pub fn numerator(&self) -> (r: u128)
        ensures
            r == self.numer(),
            r <= self.denom(),
    {
        proof {
            use_type_invariant(self);
        }
        self.num
    }

    /// The denominator of the fraction, which is never zero.
    pub fn denominator(&self) -> (r: u128)
        ensures
            r == self.denom(),
            r > 0,
            self.numer() <= r,
    {
        proof {
            use_type_invariant(self);
        }
        self.den
    }
}

/// The probe position that the factor `num / den` selects in the
/// half-open range `[first, last)`: `first` plus the factor's share of the
/// range's length, rounded down and kept below `last`; `first` itself when
/// the range is empty.
pub open spec fn lerp_position(first: int, last: int, num: nat, den: nat) -> int {
    if first >= last {
        first
    } else {
        let p = first + (last - first) * num / (den as int);
        if p < last - 1 {
            p
        } else {
            last - 1
        }
    }
}

/// A factor in `[0, 1]` selects a position inside a non-empty range.
pub proof fn lemma_lerp_position_in_range(first: int, last: int, num: nat, den: nat)
    requires
        first < last,
        num <= den,
        0 < den,
    ensures
        first <= lerp_position(first, last, num, den) < last,
{
    let n = last - first;
    assert(0 <= n * num) by (nonlinear_arith)
        requires
            n > 0,
    ;
    assert(0 <= (n * num) / (den as int)) by (nonlinear_arith)
        requires
            0 <= n * num,
            den > 0,
    ;
}

/// The selected index is the largest one whose offset from `first` is at
/// most the factor's share of the range, unless that would pass `last - 1`:
/// `(p - first) * den <= (last - first) * num`, and either
/// `(last - first) * num < (p - first + 1) * den` or `p == last - 1`.
pub proof fn lemma_lerp_position_exact(first: int, last: int, num: nat, den: nat)
    requires
        first < last,
        0 < den,
    ensures
        (lerp_position(first, last, num, den) - first) * den <= (last - first) * num,
        (last - first) * num < (lerp_position(first, last, num, den) - first + 1) * den
            || lerp_position(first, last, num, den) == last - 1,
{
    let n = last - first;
    let q = n * num / (den as int);
    let r = n * num % (den as int);
    assert(n * num == q * den + r && 0 <= r < den) by (nonlinear_arith)
        requires
            den > 0,
            q == n * num / (den as int),
            r == n * num % (den as int),
    ;
    let p = lerp_position(first, last, num, den);
    if first + q < last - 1 {
        assert(p - first == q);
        assert((q + 1) * den == q * den + den) by (nonlinear_arith);
    } else {
        assert(p == last - 1);
        assert((p - first) * den <= q * den) by (nonlinear_arith)
            requires
                p - first <= q,
                den > 0,
        ;
    }
}

/// A larger factor selects a position no lower in the same range.
pub proof fn lemma_lerp_position_monotone(
    first: int,
    last: int,
    num1: nat,
    den1: nat,
    num2: nat,
    den2: nat,
)
    requires
        0 < den1,
        0 < den2,
        num1 * den2 <= num2 * den1,
    ensures
        lerp_position(first, last, num1, den1) <= lerp_position(first, last, num2, den2),
{
    if first < last {
        let n = last - first;
        let q1 = n * num1 / (den1 as int);
        let q2 = n * num2 / (den2 as int);
        assert(q1 <= q2) by (nonlinear_arith)
            requires
                n > 0,
                den1 > 0,
                den2 > 0,
                num1 * den2 <= num2 * den1,
                q1 == n * num1 / (den1 as int),
                q2 == n * num2 / (den2 as int),
        {
            // q1 * den1 <= n * num1, so q1 * den1 * den2 <= n * num2 * den1, so q1 <= n * num2 / den2
            assert(q1 * den1 <= n * num1);
            assert(q1 * den1 * den2 <= n * num1 * den2);
            assert(n * num1 * den2 <= n * num2 * den1);
            assert(q1 * den2 <= n * num2);
        }
    }
}

/// `n * num` in the form `q * den + rem` with `0 <= rem < den`, worked out
/// one binary digit of `n` at a time so that nothing overflows.
fn share(n: usize, num: u128, den: u128) -> (qr: (usize, u128))
    requires
        num <= den,
        0 < den,
    ensures
        n * num == qr.0 * den + qr.1,
        qr.1 < den,
        qr.0 <= n,
    decreases n,
{
    if n == 0 {
        proof {
            assert(0 * num == 0) by (nonlinear_arith);
            assert(0 * den == 0) by (nonlinear_arith);
        }
        return (0, 0);
    }
    let half: usize = n / 2;
    let bit: usize = n % 2;
    let (q0, r0) = share(half, num, den);
    // doubled remainder, reduced below den
    let carry1: usize;
    let r1: u128;
    if r0 >= den - r0 {
        carry1 = 1;
        r1 = r0 - (den - r0);
    } else {
        carry1 = 0;
        r1 = r0 + r0;
    }
    // add num when the digit is one, reduced below den
    let carry2: usize;
    let r2: u128;
    if bit == 1 && r1 >= den - num {
        carry2 = 1;
        r2 = r1 - (den - num);
    } else if bit == 1 {
        carry2 = 0;
        r2 = r1 + num;
    } else {
        carry2 = 0;
        r2 = r1;
    }
    proof {
        assert(n == 2 * half + bit);
        assert(n * num == 2 * (half * num) + bit * num) by (nonlinear_arith)
            requires
                n == 2 * half + bit,
        ;
        assert(2 * r0 + bit * num == (carry1 + carry2) * den + r2) by (nonlinear_arith)
            requires
                bit == 0 || bit == 1,
                r1 == 2 * r0 - carry1 * den,
                r2 == r1 + bit * num - carry2 * den,
        ;
        assert(n * num == (2 * q0 + carry1 + carry2) * den + r2) by (nonlinear_arith)
            requires
                n * num == 2 * (half * num) + bit * num,
                half * num == q0 * den + r0,
                2 * r0 + bit * num == (carry1 + carry2) * den + r2,
        ;
        let q = 2 * q0 + carry1 + carry2;
        assert(q <= n) by (nonlinear_arith)
            requires
                n * num == q * den + r2,
                0 <= r2,
                num <= den,
                0 < den,
                0 <= q,
                0 <= n,
        {
            assert(q * den <= n * num);
            assert(n * num <= n * den);
            assert(q * den <= n * den);
        }
    }
    (2 * q0 + carry1 + carry2, r2)
}

/// Returns the index that `factor` selects in the half-open range
/// `[first, last)`, or `first` when the range is empty.
pub fn lerp_index(first: usize, last: usize, factor: &Factor) -> (r: usize)
    ensures
        r == lerp_position(first as int, last as int, factor.numer(), factor.denom()),
        first < last ==> first <= r < last,
        first >= last ==> r == first,
{
    if first >= last {
        return first;
    }
    let num = factor.numerator();
    let den = factor.denominator();
    let n: usize = last - first;
    let (q, rem) = share(n, num, den);
    proof {
        lemma_fundamental_div_mod_converse(n * num, den as int, q as int, rem as int);
        lemma_lerp_position_in_range(first as int, last as int, num as nat, den as nat);
    }
    let p: usize = first + q;
    if p < last - 1 {
        p
    } else {
        last - 1
    }
}

} // verus!
