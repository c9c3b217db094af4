//! The key order and interpolation factor of strings: keys are ordered
//! lexicographically by code point, and the factor is that of the first
//! character at which the range's ends differ.
use vstd::prelude::*;
use crate::factor::Factor;
use crate::interpolation_factor::InterpolationFactor;
use crate::interpolation_factor::KeyOrder;
use crate::interpolation_factor::linear_factor;
use crate::interpolation_factor::lemma_linear_factor_exact;
use crate::interpolation_factor::code_point;

verus! {

/// `s` comes no later than `t` in the lexicographic order of code points.
pub open spec fn lex_le(s: Seq<char>, t: Seq<char>) -> bool
    decreases s.len(),
{
    if s.len() == 0 {
        true
    } else if t.len() == 0 {
        false
    } else if s[0] != t[0] {
        (s[0] as int) < (t[0] as int)
    } else {
        lex_le(s.drop_first(), t.drop_first())
    }
}

pub proof fn lemma_lex_le_reflexive(s: Seq<char>)
    ensures
        lex_le(s, s),
    decreases s.len(),
{
    if s.len() > 0 {
        lemma_lex_le_reflexive(s.drop_first());
    }
}

pub proof fn lemma_lex_le_total(s: Seq<char>, t: Seq<char>)
    ensures
        lex_le(s, t) || lex_le(t, s),
    decreases s.len(),
{
    if s.len() > 0 && t.len() > 0 {
        if s[0] == t[0] {
            lemma_lex_le_total(s.drop_first(), t.drop_first());
        } else {
            assert((s[0] as int) != (t[0] as int));
        }
    }
}

pub proof fn lemma_lex_le_transitive(s: Seq<char>, t: Seq<char>, u: Seq<char>)
    requires
        lex_le(s, t),
        lex_le(t, u),
    ensures
        lex_le(s, u),
    decreases s.len(),
{
    if s.len() > 0 && t.len() > 0 && u.len() > 0 && s[0] == t[0] && t[0] == u[0] {
        lemma_lex_le_transitive(s.drop_first(), t.drop_first(), u.drop_first());
    }
}

/// Keys equal in both directions are the same string.
pub proof fn lemma_lex_le_antisymmetric(s: Seq<char>, t: Seq<char>)
    requires
        lex_le(s, t),
        lex_le(t, s),
    ensures
        s == t,
    decreases s.len(),
{
    if s.len() == 0 {
        assert(t.len() == 0);
        assert(s =~= t);
    } else {
        assert(t.len() > 0);
        if s[0] != t[0] {
            assert((s[0] as int) != (t[0] as int));
        }
        assert(s[0] == t[0]);
        lemma_lex_le_antisymmetric(s.drop_first(), t.drop_first());
        assert(s.drop_first().len() == t.drop_first().len());
        assert(s.len() == t.len());
        assert forall|i: int| 0 <= i < s.len() implies s[i] == t[i] by {
            if i > 0 {
                assert(s[i] == s.drop_first()[i - 1]);
                assert(t[i] == t.drop_first()[i - 1]);
            }
        }
        assert(s =~= t);
    }
}

/// A common prefix does not change the order.
proof fn lemma_lex_le_skip(s: Seq<char>, t: Seq<char>, i: int)
    requires
        0 <= i <= s.len(),
        i <= t.len(),
        s.take(i) == t.take(i),
    ensures
        lex_le(s, t) == lex_le(s.skip(i), t.skip(i)),
    decreases i,
{
    if i > 0 {
        assert(s[0] == s.take(i)[0]);
        assert(t[0] == t.take(i)[0]);
        assert(s.drop_first().take(i - 1) =~= s.take(i).drop_first());
        assert(t.drop_first().take(i - 1) =~= t.take(i).drop_first());
        lemma_lex_le_skip(s.drop_first(), t.drop_first(), i - 1);
        assert(s.drop_first().skip(i - 1) =~= s.skip(i));
        assert(t.drop_first().skip(i - 1) =~= t.skip(i));
    } else {
        assert(s.skip(0) =~= s);
        assert(t.skip(0) =~= t);
    }
}

/// The first index from `i` on, below the lengths of all three strings, at
/// which `a` and `b` differ.
pub open spec fn first_split(m: Seq<char>, a: Seq<char>, b: Seq<char>, i: int) -> Option<int>
    decreases m.len() - i,
{
    if i < 0 || i >= m.len() || i >= a.len() || i >= b.len() {
        None
    } else if a[i] != b[i] {
        Some(i)
    } else {
        first_split(m, a, b, i + 1)
    }
}

proof fn lemma_first_split(m: Seq<char>, a: Seq<char>, b: Seq<char>, i: int)
    requires
        0 <= i,
    ensures
        first_split(m, a, b, i) matches Some(j) ==> {
            &&& i <= j < m.len()
            &&& j < a.len()
            &&& j < b.len()
            &&& a[j] != b[j]
            &&& forall|k: int| i <= k < j ==> a[k] == b[k]
        },
    decreases m.len() - i,
{
    if 0 <= i < m.len() && i < a.len() && i < b.len() && a[i] == b[i] {
        lemma_first_split(m, a, b, i + 1);
    }
}

/// The factor of `m` in the range `[a, b]` of strings.
pub open spec fn text_factor(m: Seq<char>, a: Seq<char>, b: Seq<char>) -> (int, int) {
    match first_split(m, a, b, 0) {
        Some(i) => linear_factor(m[i] as int, a[i] as int, b[i] as int),
        None => (1, 2),
    }
}

/// The factor of `m` in `[a, b]` exists: at the first split, `a`'s character
/// comes no later than `b`'s.
pub open spec fn text_factor_defined(m: Seq<char>, a: Seq<char>, b: Seq<char>) -> bool {
    match first_split(m, a, b, 0) {
        Some(i) => (a[i] as int) <= (b[i] as int),
        None => true,
    }
}

proof fn lemma_text_factor_defined(t: Seq<char>, a: Seq<char>, b: Seq<char>)
    requires
        lex_le(a, t),
        lex_le(t, b),
    ensures
        text_factor_defined(t, a, b),
{
    lemma_first_split(t, a, b, 0);
    if let Some(i) = first_split(t, a, b, 0) {
        lemma_lex_le_transitive(a, t, b);
        assert(a.take(i) =~= b.take(i));
        lemma_lex_le_skip(a, b, i);
        assert(a.skip(i)[0] == a[i]);
        assert(b.skip(i)[0] == b[i]);
    }
}

/// Where it is defined, the factor of a string is a fraction in `[0, 1]`.
pub proof fn lemma_text_factor_unit(m: Seq<char>, a: Seq<char>, b: Seq<char>)
    requires
        text_factor_defined(m, a, b),
    ensures
        0 <= text_factor(m, a, b).0 <= text_factor(m, a, b).1,
        0 < text_factor(m, a, b).1,
{
}

/// Strings are ordered as std orders `str`: a string comes no later than
/// another when it is a prefix of it, or when at the first position where
/// they differ its character has the smaller code point.
pub proof fn lemma_lex_le_is_prefix_or_smaller(s: Seq<char>, t: Seq<char>)
    ensures
        lex_le(s, t) <==> ((s.len() <= t.len() && t.take(s.len() as int) == s) || exists|i: int|
            0 <= i < s.len() && i < t.len() && s.take(i) == t.take(i) && (#[trigger] s[i] as int) < (
            t[i] as int)),
    decreases s.len(),
{
    let prefix = s.len() <= t.len() && t.take(s.len() as int) == s;
    if s.len() == 0 {
        assert(t.take(0) =~= s);
    } else if t.len() == 0 {
    } else if s[0] != t[0] {
        assert((s[0] as int) != (t[0] as int));
        assert(s.take(0) =~= t.take(0));
        if prefix {
            assert(t.take(s.len() as int)[0] == t[0]);
        }
        assert forall|i: int|
            0 <= i < s.len() && i < t.len() && s.take(i) == t.take(i) && (#[trigger] s[i] as int) < (
                t[i] as int) implies i == 0 by {
            if i > 0 {
                assert(s.take(i)[0] == s[0]);
                assert(t.take(i)[0] == t[0]);
            }
        }
        if (s[0] as int) < (t[0] as int) {
            assert(0 <= 0 < s.len() && 0 < t.len() && s.take(0) == t.take(0) && (s[0] as int) < (
                t[0] as int));
        }
    } else {
        let s1 = s.drop_first();
        let t1 = t.drop_first();
        lemma_lex_le_is_prefix_or_smaller(s1, t1);
        // prefixes
        if prefix {
            assert forall|k: int| 0 <= k < s1.len() implies #[trigger] t1.take(s1.len() as int)[k] == s1[k] by {
                assert(t.take(s.len() as int)[k + 1] == s[k + 1]);
            }
            assert(t1.take(s1.len() as int) =~= s1);
        }
        if s1.len() <= t1.len() && t1.take(s1.len() as int) == s1 {
            assert forall|k: int| 0 <= k < s.len() implies #[trigger] t.take(s.len() as int)[k] == s[k] by {
                if k > 0 {
                    assert(t1.take(s1.len() as int)[k - 1] == s1[k - 1]);
                }
            }
            assert(t.take(s.len() as int) =~= s);
        }
        // first differences
        if exists|i: int|
            0 <= i < s1.len() && i < t1.len() && s1.take(i) == t1.take(i) && (#[trigger] s1[i] as int)
                < (t1[i] as int) {
            let i = choose|i: int|
                0 <= i < s1.len() && i < t1.len() && s1.take(i) == t1.take(i) && (#[trigger] s1[i] as int)
                    < (t1[i] as int);
            assert forall|k: int| 0 <= k < i + 1 implies #[trigger] s.take(i + 1)[k] == t.take(i + 1)[k] by {
                if k > 0 {
                    assert(s1.take(i)[k - 1] == t1.take(i)[k - 1]);
                }
            }
            assert(s.take(i + 1) =~= t.take(i + 1));
            assert(s[i + 1] == s1[i]);
        }
        if exists|i: int|
            0 <= i < s.len() && i < t.len() && s.take(i) == t.take(i) && (#[trigger] s[i] as int) < (
                t[i] as int) {
            let i = choose|i: int|
                0 <= i < s.len() && i < t.len() && s.take(i) == t.take(i) && (#[trigger] s[i] as int) < (
                    t[i] as int);
            assert(i > 0);
            assert forall|k: int| 0 <= k < i - 1 implies #[trigger] s1.take(i - 1)[k] == t1.take(i - 1)[k] by {
                assert(s.take(i)[k + 1] == t.take(i)[k + 1]);
            }
            assert(s1.take(i - 1) =~= t1.take(i - 1));
            assert(s1[i - 1] == s[i]);
            assert(0 <= i - 1 < s1.len() && i - 1 < t1.len() && s1.take(i - 1) == t1.take(i - 1) && (
                s1[i - 1] as int) < (t1[i - 1] as int));
        }
    }
}

/// A string comes no later than any string that extends it.
pub proof fn lemma_lex_le_prefix_first(s: Seq<char>, u: Seq<char>)
    ensures
        lex_le(s, s + u),
        u.len() > 0 ==> !lex_le(s + u, s),
{
    lemma_lex_le_is_prefix_or_smaller(s, s + u);
    assert((s + u).take(s.len() as int) =~= s);
    lemma_lex_le_is_prefix_or_smaller(s + u, s);
    if u.len() > 0 && lex_le(s + u, s) {
        let t = s + u;
        let i = choose|i: int|
            0 <= i < t.len() && i < s.len() && t.take(i) == s.take(i) && (#[trigger] t[i] as int) < (
                s[i] as int);
        assert(t[i] == s[i]);
    }
}

proof fn lemma_first_split_at(m: Seq<char>, a: Seq<char>, b: Seq<char>, k: int, i: int)
    requires
        0 <= k <= i < m.len(),
        i < a.len(),
        i < b.len(),
        a[i] != b[i],
        forall|j: int| k <= j < i ==> a[j] == b[j],
    ensures
        first_split(m, a, b, k) == Some(i),
    decreases i - k,
{
    if k < i {
        lemma_first_split_at(m, a, b, k + 1, i);
    }
}

proof fn lemma_first_split_none(m: Seq<char>, a: Seq<char>, b: Seq<char>, k: int)
    requires
        0 <= k,
        forall|j: int| k <= j < m.len() && j < a.len() && j < b.len() ==> a[j] == b[j],
    ensures
        first_split(m, a, b, k) is None,
    decreases m.len() - k,
{
    if k < m.len() && k < a.len() && k < b.len() {
        lemma_first_split_none(m, a, b, k + 1);
    }
}

/// The factor of a string `m` in `[a, b]` is that of its character at the
/// first position, within all three strings, where `a` and `b` differ: zero
/// at or below `a`'s character, one at or above `b`'s, and linear in
/// between. When there is no such position it is one half.
pub proof fn lemma_text_factor_exact(m: Seq<char>, a: Seq<char>, b: Seq<char>)
    ensures
        text_factor(m, a, b).1 > 0 || (exists|i: int|
            0 <= i < m.len() && i < a.len() && i < b.len() && #[trigger] a[i] != b[i] && (a[i] as int)
                > (b[i] as int)),
        forall|i: int|
            0 <= i < m.len() && i < a.len() && i < b.len() && (#[trigger] a[i] as int) < (b[i] as int)
                && (forall|j: int| 0 <= j < i ==> a[j] == b[j]) ==> {
                &&& text_factor(m, a, b).1 > 0
                &&& (m[i] as int) <= (a[i] as int) ==> text_factor(m, a, b).0 == 0
                &&& (m[i] as int) >= (b[i] as int) ==> text_factor(m, a, b).0 == text_factor(m, a, b).1
                &&& (a[i] as int) <= (m[i] as int) <= (b[i] as int) ==> text_factor(m, a, b).0 * ((
                    b[i] as int) - (a[i] as int)) == ((m[i] as int) - (a[i] as int)) * text_factor(
                    m,
                    a,
                    b,
                ).1
            },
        (forall|j: int| 0 <= j < m.len() && j < a.len() && j < b.len() ==> a[j] == b[j]) ==> 2
            * text_factor(m, a, b).0 == text_factor(m, a, b).1,
{
    lemma_first_split(m, a, b, 0);
    assert forall|i: int|
        0 <= i < m.len() && i < a.len() && i < b.len() && (#[trigger] a[i] as int) < (b[i] as int) && (
        forall|j: int| 0 <= j < i ==> a[j] == b[j]) implies {
        &&& text_factor(m, a, b).1 > 0
        &&& (m[i] as int) <= (a[i] as int) ==> text_factor(m, a, b).0 == 0
        &&& (m[i] as int) >= (b[i] as int) ==> text_factor(m, a, b).0 == text_factor(m, a, b).1
        &&& (a[i] as int) <= (m[i] as int) <= (b[i] as int) ==> text_factor(m, a, b).0 * ((
            b[i] as int) - (a[i] as int)) == ((m[i] as int) - (a[i] as int)) * text_factor(m, a, b).1
    } by {
        lemma_first_split_at(m, a, b, 0, i);
        lemma_linear_factor_exact(m[i] as int, a[i] as int, b[i] as int);
    }
    if forall|j: int| 0 <= j < m.len() && j < a.len() && j < b.len() ==> a[j] == b[j] {
        lemma_first_split_none(m, a, b, 0);
    }
    if let Some(i) = first_split(m, a, b, 0) {
        if (a[i] as int) > (b[i] as int) {
        } else {
            assert((a[i] as int) != (b[i] as int));
            lemma_linear_factor_exact(m[i] as int, a[i] as int, b[i] as int);
        }
    }
}

/// The characters of `s`.
fn chars_of(s: &str) -> (v: Vec<char>)
    ensures
        v@ == s@,
{
    broadcast use vstd::string::axiom_spec_iter;

    let mut v: Vec<char> = Vec::new();
    for c in it: s.chars()
        invariant
            v@ == it.seq().take(it.index() as int),
    {
        v.push(c);
    }
    v
}

/// Whether `s` comes no later than `t`.
fn lex_le_chars(s: &Vec<char>, t: &Vec<char>) -> (r: bool)
    ensures
        r == lex_le(s@, t@),
{
    let mut i: usize = 0;
    while i < s.len() && i < t.len()
        invariant
            0 <= i <= s@.len(),
            i <= t@.len(),
            s@.take(i as int) == t@.take(i as int),
        decreases s.len() - i,
    {
        if s[i] != t[i] {
            proof {
                lemma_lex_le_skip(s@, t@, i as int);
            }
            return code_point(s[i]) < code_point(t[i]);
        }
        proof {
            assert(s@.take(i + 1) =~= s@.take(i as int).push(s@[i as int]));
            assert(t@.take(i + 1) =~= t@.take(i as int).push(t@[i as int]));
        }
        i = i + 1;
    }
    proof {
        lemma_lex_le_skip(s@, t@, i as int);
    }
    i == s.len()
}

/// Compares two strings in the lexicographic order of code points.
fn compare_text(s: &str, t: &str) -> (o: KeyOrder)
    ensures
        o == KeyOrder::Less <==> (lex_le(s@, t@) && !lex_le(t@, s@)),
        o == KeyOrder::Equal <==> (lex_le(s@, t@) && lex_le(t@, s@)),
        o == KeyOrder::Greater <==> !lex_le(s@, t@),
{
    let sc = chars_of(s);
    let tc = chars_of(t);
    let le = lex_le_chars(&sc, &tc);
    let ge = lex_le_chars(&tc, &sc);
    if le && !ge {
        KeyOrder::Less
    } else if le {
        KeyOrder::Equal
    } else {
        KeyOrder::Greater
    }
}

/// The factor of `m` in the range `[a, b]` of strings.
fn factor_of_text(m: &str, a: &str, b: &str) -> (f: Factor)
    requires
        text_factor_defined(m@, a@, b@),
    ensures
        (f.numer() as int, f.denom() as int) == text_factor(m@, a@, b@),
{
    let mc = chars_of(m);
    let ac = chars_of(a);
    let bc = chars_of(b);
    let mut i: usize = 0;
    while i < mc.len() && i < ac.len() && i < bc.len()
        invariant
            mc@ == m@,
            ac@ == a@,
            bc@ == b@,
            0 <= i,
            text_factor_defined(m@, a@, b@),
            first_split(m@, a@, b@, 0) == first_split(m@, a@, b@, i as int),
        decreases mc.len() - i,
    {
        if ac[i] != bc[i] {
            assert(first_split(m@, a@, b@, i as int) == Some(i as int));
            return mc[i].interpolation_factor(&ac[i], &bc[i]);
        }
        i = i + 1;
    }
    Factor::half()
}

impl InterpolationFactor for &str {
    open spec fn key_le(&self, other: &Self) -> bool {
        lex_le((*self)@, (*other)@)
    }

    proof fn lemma_key_le_reflexive(x: Self) {
        lemma_lex_le_reflexive(x@);
    }

    proof fn lemma_key_le_transitive(x: Self, y: Self, z: Self) {
        lemma_lex_le_transitive(x@, y@, z@);
    }

    proof fn lemma_key_le_total(x: Self, y: Self) {
        lemma_lex_le_total(x@, y@);
    }

    fn compare_key(&self, other: &Self) -> (o: KeyOrder) {
        compare_text(*self, *other)
    }

    open spec fn factor_defined(&self, a: &Self, b: &Self) -> bool {
        text_factor_defined((*self)@, (*a)@, (*b)@)
    }

    proof fn lemma_factor_defined(t: Self, a: Self, b: Self) {
        lemma_text_factor_defined(t@, a@, b@);
    }

    open spec fn factor_spec(&self, a: &Self, b: &Self) -> (nat, nat) {
        (text_factor((*self)@, (*a)@, (*b)@).0 as nat, text_factor((*self)@, (*a)@, (*b)@).1 as nat)
    }

    proof fn lemma_factor_spec_unit(t: Self, a: Self, b: Self) {
        lemma_text_factor_unit(t@, a@, b@);
    }

    /// The factor of the characters at the first position, within the
    /// length of all three strings, where `a` and `b` differ; one half when
    /// there is none.
    fn interpolation_factor(&self, a: &Self, b: &Self) -> (f: Factor)
        ensures
            (f.numer() as int, f.denom() as int) == text_factor((*self)@, (*a)@, (*b)@),
    {
        factor_of_text(*self, *a, *b)
    }
}

impl InterpolationFactor for String {
    open spec fn key_le(&self, other: &Self) -> bool {
        lex_le(self@, other@)
    }

    proof fn lemma_key_le_reflexive(x: Self) {
        lemma_lex_le_reflexive(x@);
    }

    proof fn lemma_key_le_transitive(x: Self, y: Self, z: Self) {
        lemma_lex_le_transitive(x@, y@, z@);
    }

    proof fn lemma_key_le_total(x: Self, y: Self) {
        lemma_lex_le_total(x@, y@);
    }

    fn compare_key(&self, other: &Self) -> (o: KeyOrder) {
        compare_text(self.as_str(), other.as_str())
    }

    open spec fn factor_defined(&self, a: &Self, b: &Self) -> bool {
        text_factor_defined(self@, a@, b@)
    }

    proof fn lemma_factor_defined(t: Self, a: Self, b: Self) {
        lemma_text_factor_defined(t@, a@, b@);
    }

    open spec fn factor_spec(&self, a: &Self, b: &Self) -> (nat, nat) {
        (text_factor(self@, a@, b@).0 as nat, text_factor(self@, a@, b@).1 as nat)
    }

    proof fn lemma_factor_spec_unit(t: Self, a: Self, b: Self) {
        lemma_text_factor_unit(t@, a@, b@);
    }

    /// The factor of the characters at the first position, within the
    /// length of all three strings, where `a` and `b` differ; one half when
    /// there is none.
    fn interpolation_factor(&self, a: &Self, b: &Self) -> (f: Factor)
        ensures
            (f.numer() as int, f.denom() as int) == text_factor(self@, a@, b@),
    {
        factor_of_text(self.as_str(), a.as_str(), b.as_str())
    }
}

/// `&str` keys are ordered as std orders strings: `x` comes no later than
/// `y` when it is a prefix of `y`, or when at the first position where they
/// differ its character has the smaller code point.
pub proof fn lemma_str_key_order(x: &str, y: &str)
    ensures
        x.key_le(&y) <==> ((x@.len() <= y@.len() && y@.take(x@.len() as int) == x@) || exists|i: int|
            0 <= i < x@.len() && i < y@.len() && x@.take(i) == y@.take(i) && (#[trigger] x@[i] as int)
                < (y@[i] as int)),
{
    lemma_lex_le_is_prefix_or_smaller(x@, y@);
}

/// The factor of a `&str` key `m` in `[a, b]` is that of its character at
/// the first position, within all three strings, where `a` and `b` differ:
/// zero at or below `a`'s character, one at or above `b`'s, and linear in
/// between. When there is no such position it is one half.
pub proof fn lemma_str_factor(m: &str, a: &str, b: &str)
    ensures
        forall|i: int|
            0 <= i < m@.len() && i < a@.len() && i < b@.len() && (#[trigger] a@[i] as int) < (
            b@[i] as int) && (forall|j: int| 0 <= j < i ==> a@[j] == b@[j]) ==> {
                &&& m.factor_spec(&a, &b).1 > 0
                &&& (m@[i] as int) <= (a@[i] as int) ==> m.factor_spec(&a, &b).0 == 0
                &&& (m@[i] as int) >= (b@[i] as int) ==> m.factor_spec(&a, &b).0 == m.factor_spec(&a, &b).1
                &&& (a@[i] as int) <= (m@[i] as int) <= (b@[i] as int) ==> m.factor_spec(&a, &b).0 * ((b@[i] as int)
                    - (a@[i] as int)) == ((m@[i] as int) - (a@[i] as int)) * m.factor_spec(&a, &b).1
            },
        (forall|j: int| 0 <= j < m@.len() && j < a@.len() && j < b@.len() ==> a@[j] == b@[j]) ==> 2
            * m.factor_spec(&a, &b).0 == m.factor_spec(&a, &b).1,
{
    lemma_text_factor_exact(m@, a@, b@);
    assert forall|i: int|
        0 <= i < m@.len() && i < a@.len() && i < b@.len() && (#[trigger] a@[i] as int) < (
        b@[i] as int) && (forall|j: int| 0 <= j < i ==> a@[j] == b@[j]) implies m.factor_spec(&a, &b).0 == text_factor(
        m@,
        a@,
        b@,
    ).0 && m.factor_spec(&a, &b).1 == text_factor(m@, a@, b@).1 by {
        lemma_first_split_at(m@, a@, b@, 0, i);
        lemma_linear_factor_exact(m@[i] as int, a@[i] as int, b@[i] as int);
    }
    if forall|j: int| 0 <= j < m@.len() && j < a@.len() && j < b@.len() ==> a@[j] == b@[j] {
        lemma_first_split_none(m@, a@, b@, 0);
    }
}

/// `String` keys are ordered as std orders strings: `x` comes no later than
/// `y` when it is a prefix of `y`, or when at the first position where they
/// differ its character has the smaller code point.
pub proof fn lemma_string_key_order(x: String, y: String)
    ensures
        x.key_le(&y) <==> ((x@.len() <= y@.len() && y@.take(x@.len() as int) == x@) || exists|i: int|
            0 <= i < x@.len() && i < y@.len() && x@.take(i) == y@.take(i) && (#[trigger] x@[i] as int)
                < (y@[i] as int)),
{
    lemma_lex_le_is_prefix_or_smaller(x@, y@);
}

/// The factor of a `String` key `m` in `[a, b]` is that of its character at
/// the first position, within all three strings, where `a` and `b` differ:
/// zero at or below `a`'s character, one at or above `b`'s, and linear in
/// between. When there is no such position it is one half.
pub proof fn lemma_string_factor(m: String, a: String, b: String)
    ensures
        forall|i: int|
            0 <= i < m@.len() && i < a@.len() && i < b@.len() && (#[trigger] a@[i] as int) < (
            b@[i] as int) && (forall|j: int| 0 <= j < i ==> a@[j] == b@[j]) ==> {
                &&& m.factor_spec(&a, &b).1 > 0
                &&& (m@[i] as int) <= (a@[i] as int) ==> m.factor_spec(&a, &b).0 == 0
                &&& (m@[i] as int) >= (b@[i] as int) ==> m.factor_spec(&a, &b).0 == m.factor_spec(&a, &b).1
                &&& (a@[i] as int) <= (m@[i] as int) <= (b@[i] as int) ==> m.factor_spec(&a, &b).0 * ((b@[i] as int)
                    - (a@[i] as int)) == ((m@[i] as int) - (a@[i] as int)) * m.factor_spec(&a, &b).1
            },
        (forall|j: int| 0 <= j < m@.len() && j < a@.len() && j < b@.len() ==> a@[j] == b@[j]) ==> 2
            * m.factor_spec(&a, &b).0 == m.factor_spec(&a, &b).1,
{
    lemma_text_factor_exact(m@, a@, b@);
    assert forall|i: int|
        0 <= i < m@.len() && i < a@.len() && i < b@.len() && (#[trigger] a@[i] as int) < (
        b@[i] as int) && (forall|j: int| 0 <= j < i ==> a@[j] == b@[j]) implies m.factor_spec(&a, &b).0 == text_factor(
        m@,
        a@,
        b@,
    ).0 && m.factor_spec(&a, &b).1 == text_factor(m@, a@, b@).1 by {
        lemma_first_split_at(m@, a@, b@, 0, i);
        lemma_linear_factor_exact(m@[i] as int, a@[i] as int, b@[i] as int);
    }
    if forall|j: int| 0 <= j < m@.len() && j < a@.len() && j < b@.len() ==> a@[j] == b@[j] {
        lemma_first_split_none(m@, a@, b@, 0);
    }
}

} // verus!
