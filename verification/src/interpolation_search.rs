//! Interpolation search over slices.
use vstd::prelude::*;
use crate::factor::lerp_index;
use crate::factor::lerp_position;
use crate::factor::lemma_lerp_position_in_range;
use crate::interpolation_factor::InterpolationFactor;
use crate::interpolation_factor::KeyOrder;
use crate::interpolation_factor::key_eq;
use crate::interpolation_factor::key_lt;

verus! {

/// `s` is sorted in the key order.
pub open spec fn sorted<K: InterpolationFactor>(s: Seq<K>) -> bool {
    forall|i: int, j: int| 0 <= i <= j < s.len() ==> #[trigger] s[i].key_le(&#[trigger] s[j])
}

/// `s[i]` is a key equal to `t`.
pub open spec fn found_at<K: InterpolationFactor>(s: Seq<K>, t: K, i: int) -> bool {
    0 <= i < s.len() && key_eq(&s[i], &t)
}

/// `t` fits at index `i` of `s` and equals none of its keys: every key
/// before `i` is smaller than `t` and every key from `i` on is larger.
pub open spec fn insertion_point<K: InterpolationFactor>(s: Seq<K>, t: K, i: int) -> bool {
    &&& 0 <= i <= s.len()
    &&& forall|j: int| 0 <= j < i ==> key_lt(#[trigger] &s[j], &t)
    &&& forall|j: int| i <= j < s.len() ==> key_lt(&t, #[trigger] &s[j])
}

/// `k` is a key that `key` can return for `item`.
pub open spec fn key_of<T, K, F: FnMut(&T) -> &K>(key: F, item: T, k: K) -> bool {
    call_ensures(key, (&item,), &k)
}

/// The items of `s` are sorted by the keys that `rel` relates them to.
pub open spec fn sorted_by<T, K: InterpolationFactor>(s: Seq<T>, rel: spec_fn(T, K) -> bool) -> bool {
    forall|i: int, j: int, ki: K, kj: K|
        0 <= i <= j < s.len() && #[trigger] rel(s[i], ki) && #[trigger] rel(s[j], kj) ==> ki.key_le(
            &kj,
        )
}

/// A key that `rel` relates to `s[i]` equals `t`.
pub open spec fn found_by<T, K: InterpolationFactor>(
    s: Seq<T>,
    rel: spec_fn(T, K) -> bool,
    t: K,
    i: int,
) -> bool {
    0 <= i < s.len() && exists|k: K| #[trigger] rel(s[i], k) && key_eq(&k, &t)
}

/// Every key related to an item before `i` is smaller than `t`, and every
/// key related to an item from `i` on is larger.
pub open spec fn insertion_point_by<T, K: InterpolationFactor>(
    s: Seq<T>,
    rel: spec_fn(T, K) -> bool,
    t: K,
    i: int,
) -> bool {
    &&& 0 <= i <= s.len()
    &&& forall|j: int, k: K| 0 <= j < i && #[trigger] rel(s[j], k) ==> key_lt(&k, &t)
    &&& forall|j: int, k: K| i <= j < s.len() && #[trigger] rel(s[j], k) ==> key_lt(&t, &k)
}

/// Relates each item to the keys that `key` can return for it.
pub open spec fn key_relation<T, K, F: FnMut(&T) -> &K>(key: F) -> spec_fn(T, K) -> bool {
    |x: T, k: K| key_of(key, x, k)
}

/// The items of `s` are sorted by the keys that `key` returns for them.
pub open spec fn sorted_by_key<T, K: InterpolationFactor, F: FnMut(&T) -> &K>(s: Seq<T>, key: F) -> bool {
    sorted_by(s, key_relation(key))
}

/// The key of `s[i]` equals `t`.
pub open spec fn found_by_key<T, K: InterpolationFactor, F: FnMut(&T) -> &K>(
    s: Seq<T>,
    key: F,
    t: K,
    i: int,
) -> bool {
    found_by(s, key_relation(key), t, i)
}

/// Every key before `i` is smaller than `t` and every key from `i` on is larger.
pub open spec fn insertion_point_by_key<T, K: InterpolationFactor, F: FnMut(&T) -> &K>(
    s: Seq<T>,
    key: F,
    t: K,
    i: int,
) -> bool {
    insertion_point_by(s, key_relation(key), t, i)
}

/// `ks` lists the one key that `rel` relates each item of `s` to.
pub open spec fn keys_are<T, K>(s: Seq<T>, rel: spec_fn(T, K) -> bool, ks: Seq<K>) -> bool {
    &&& ks.len() == s.len()
    &&& forall|j: int, k: K| 0 <= j < s.len() ==> (#[trigger] rel(s[j], k) <==> k == ks[j])
}

/// `ks` lists the one key that `key` returns for each item of `s`.
pub open spec fn keys_by<T, K, F: FnMut(&T) -> &K>(s: Seq<T>, key: F, ks: Seq<K>) -> bool {
    keys_are(s, key_relation(key), ks)
}

/// A search result with its index as an integer.
pub open spec fn outcome_of(r: Result<usize, usize>) -> Result<int, int> {
    match r {
        Ok(i) => Ok(i as int),
        Err(i) => Err(i as int),
    }
}

/// What the search returns for the target `t` on the keys `ks[first..last)`.
///
/// It gives `Err(first)` on an empty range or when `t` comes before the
/// first key, `Ok(first)` when the range holds a single key equal to `t`,
/// and `Err(last)` when `t` comes after the last key. Otherwise it probes
/// the position that the factor of `t` between the first and the last key
/// selects: `Ok` there when the key equals `t`, and else it goes on below
/// or above the probe.
pub open spec fn search_outcome<K: InterpolationFactor>(
    ks: Seq<K>,
    t: K,
    first: int,
    last: int,
) -> Result<int, int>
    decreases last - first,
{
    if first >= last {
        Err(first)
    } else if key_lt(&t, &ks[first]) {
        Err(first)
    } else if last - first == 1 && key_eq(&ks[first], &t) {
        Ok(first)
    } else if key_lt(&ks[last - 1], &t) {
        Err(last)
    } else if last - first == 1 {
        Err(0)
    } else {
        let f = t.factor_spec(&ks[first], &ks[last - 1]);
        let mid = lerp_position(first, last, f.0, f.1);
        proof {
            K::lemma_factor_defined(t, ks[first], ks[last - 1]);
            K::lemma_factor_spec_unit(t, ks[first], ks[last - 1]);
            lemma_lerp_position_in_range(first, last, f.0, f.1);
        }
        if key_eq(&ks[mid], &t) {
            Ok(mid)
        } else if key_lt(&t, &ks[mid]) {
            search_outcome(ks, t, first, mid)
        } else {
            search_outcome(ks, t, mid + 1, last)
        }
    }
}

/// The key of an item that is its own key.
fn identity<T>(x: &T) -> (k: &T)
    ensures
        k == x,
{
    x
}

/// Interpolation search on a sequence of items.
pub trait InterpolationSearch<T> {
    /// The items searched.
    spec fn searched(&self) -> Seq<T>;

    /// Interpolation searches for `target`. `Ok(i)` holds the index of an
    /// item equal to `target`; with several, any one of them. `Err(i)` holds
    /// the index where `target` could be inserted while keeping the order.
    /// If the items are not sorted, an `Err` says nothing more. The result is
    /// chosen deterministically: it is `search_outcome` of the items and the
    /// target.
    fn interpolation_search(&self, target: &T) -> (r: Result<usize, usize>) where
        T: InterpolationFactor,
        ensures
            r matches Ok(i) ==> found_at(self.searched(), *target, i as int),
            r matches Err(i) ==> i <= self.searched().len(),
            sorted(self.searched()) ==> (r matches Err(i) ==> insertion_point(
                self.searched(),
                *target,
                i as int,
            )),
            sorted(self.searched()) ==> (r is Ok <==> exists|j: int|
                #[trigger] found_at(self.searched(), *target, j)),
            outcome_of(r) == search_outcome(
                self.searched(),
                *target,
                0,
                self.searched().len() as int,
            ),
    ;

    /// Interpolation searches for `target` among the keys that `key`
    /// extracts from the items. `Ok(i)` holds the index of an item whose key
    /// equals `target`. `Err(i)` holds the index where an item with that key
    /// could be inserted while keeping the items sorted by key. If the items
    /// are not sorted by key, an `Err` says nothing more. When `key` returns
    /// one key per item, the result is `search_outcome` of those keys and
    /// the target, so items with the same keys give the same result.
    fn interpolation_search_by_key<K, F>(&self, target: &K, key: F) -> (r: Result<usize, usize>) where
        K: InterpolationFactor,
        F: FnMut(&T) -> &K,
        requires
            forall|x: &T| #[trigger] key.requires((x,)),
        ensures
            r matches Ok(i) ==> found_by_key(self.searched(), key, *target, i as int),
            r matches Err(i) ==> i <= self.searched().len(),
            sorted_by_key(self.searched(), key) ==> (r matches Err(i) ==> insertion_point_by_key(
                self.searched(),
                key,
                *target,
                i as int,
            )),
            sorted_by_key(self.searched(), key) ==> (r is Ok <==> exists|j: int|
                #[trigger] found_by_key(self.searched(), key, *target, j)),
            forall|ks: Seq<K>|
                #[trigger] keys_by(self.searched(), key, ks) ==> outcome_of(r) == search_outcome(
                    ks,
                    *target,
                    0,
                    self.searched().len() as int,
                ),
    ;
}

/// The search itself: `rel` over-approximates what `key` returns, and the
/// result is stated over `rel`.
fn search_with<T, K, F>(
    items: &[T],
    target: &K,
    mut key: F,
    Ghost(rel): Ghost<spec_fn(T, K) -> bool>,
) -> (r: Result<usize, usize>) where K: InterpolationFactor, F: FnMut(&T) -> &K
    requires
        forall|x: &T| #[trigger] key.requires((x,)),
        forall|x: T, k: K| #[trigger] key_of(key, x, k) ==> rel(x, k),
    ensures
        r matches Ok(i) ==> found_by(items@, rel, *target, i as int),
        r matches Err(i) ==> i <= items@.len(),
        sorted_by(items@, rel) ==> (r matches Err(i) ==> insertion_point_by(
            items@,
            rel,
            *target,
            i as int,
        )),
        forall|ks: Seq<K>|
            #[trigger] keys_are(items@, rel, ks) ==> outcome_of(r) == search_outcome(
                ks,
                *target,
                0,
                items@.len() as int,
            ),
{
    let ghost s = items@;
    let ghost n = s.len() as int;
    let mut first: usize = 0;
    let mut last: usize = items.len();
    loop
        invariant
            s == items@,
            n == s.len(),
            0 <= first <= last <= s.len(),
            forall|x: &T| #[trigger] key.requires((x,)),
            forall|x: T, k: K| #[trigger] key_of(key, x, k) ==> rel(x, k),
            sorted_by(s, rel) ==> forall|j: int, k: K|
                0 <= j < first && #[trigger] rel(s[j], k) ==> key_lt(&k, target),
            sorted_by(s, rel) ==> forall|j: int, k: K|
                last <= j < s.len() && #[trigger] rel(s[j], k) ==> key_lt(target, &k),
            forall|ks: Seq<K>|
                #[trigger] keys_are(s, rel, ks) ==> search_outcome(ks, *target, 0, n)
                    == search_outcome(ks, *target, first as int, last as int),
        decreases last - first,
    {
        if first == last {
            return Err(first);
        }
        let key_first = key(&items[first]);
        proof {
            assert(key_of(key, s[first as int], *key_first));
            assert(rel(s[first as int], *key_first));
            K::lemma_key_le_total(*key_first, *target);
        }
        let to_first = target.compare_key(key_first);
        if to_first == KeyOrder::Less {
            proof {
                if sorted_by(s, rel) {
                    assert forall|j: int, k: K|
                        first <= j < s.len() && #[trigger] rel(s[j], k) implies key_lt(target, &k) by {
                        if k.key_le(target) {
                            K::lemma_key_le_transitive(*key_first, k, *target);
                        }
                    }
                }
                assert forall|ks: Seq<K>| #[trigger] keys_are(s, rel, ks) implies search_outcome(
                    ks,
                    *target,
                    first as int,
                    last as int,
                ) == Err::<int, int>(first as int) by {
                    assert(ks[first as int] == *key_first);
                }
            }
            return Err(first);
        }
        if last - first == 1 && to_first == KeyOrder::Equal {
            proof {
                assert forall|ks: Seq<K>| #[trigger] keys_are(s, rel, ks) implies search_outcome(
                    ks,
                    *target,
                    first as int,
                    last as int,
                ) == Ok::<int, int>(first as int) by {
                    assert(ks[first as int] == *key_first);
                }
            }
            return Ok(first);
        }
        let key_last = key(&items[last - 1]);
        proof {
            assert(key_of(key, s[last - 1], *key_last));
            assert(rel(s[last - 1], *key_last));
            K::lemma_key_le_total(*key_last, *target);
        }
        let from_last = key_last.compare_key(target);
        if from_last == KeyOrder::Less {
            proof {
                if sorted_by(s, rel) {
                    assert forall|j: int, k: K|
                        0 <= j < last && #[trigger] rel(s[j], k) implies key_lt(&k, target) by {
                        if target.key_le(&k) {
                            K::lemma_key_le_transitive(*target, k, *key_last);
                        }
                    }
                }
                assert forall|ks: Seq<K>| #[trigger] keys_are(s, rel, ks) implies search_outcome(
                    ks,
                    *target,
                    first as int,
                    last as int,
                ) == Err::<int, int>(last as int) by {
                    assert(ks[first as int] == *key_first);
                    assert(ks[last - 1] == *key_last);
                }
            }
            return Err(last);
        }
        if last - first == 1 {
            proof {
                if sorted_by(s, rel) {
                    K::lemma_key_le_transitive(*target, *key_last, *key_first);
                }
                assert forall|ks: Seq<K>| #[trigger] keys_are(s, rel, ks) implies search_outcome(
                    ks,
                    *target,
                    first as int,
                    last as int,
                ) == Err::<int, int>(0) by {
                    assert(ks[first as int] == *key_first);
                    assert(ks[last - 1] == *key_last);
                }
            }
            return Err(0);
        }
        proof {
            K::lemma_factor_defined(*target, *key_first, *key_last);
        }
        let factor = target.interpolation_factor(key_first, key_last);
        let mid = lerp_index(first, last, &factor);
        let key_mid = key(&items[mid]);
        proof {
            assert(key_of(key, s[mid as int], *key_mid));
            assert(rel(s[mid as int], *key_mid));
        }
        match key_mid.compare_key(target) {
            KeyOrder::Equal => {
                proof {
                    assert forall|ks: Seq<K>| #[trigger] keys_are(s, rel, ks) implies search_outcome(
                        ks,
                        *target,
                        first as int,
                        last as int,
                    ) == Ok::<int, int>(mid as int) by {
                        assert(ks[first as int] == *key_first);
                        assert(ks[last - 1] == *key_last);
                        assert(ks[mid as int] == *key_mid);
                    }
                }
                return Ok(mid);
            },
            KeyOrder::Greater => {
                proof {
                    if sorted_by(s, rel) {
                        assert forall|j: int, k: K|
                            mid <= j < s.len() && #[trigger] rel(s[j], k) implies key_lt(target, &k) by {
                            if k.key_le(target) {
                                K::lemma_key_le_transitive(*key_mid, k, *target);
                            }
                        }
                    }
                    assert forall|ks: Seq<K>| #[trigger] keys_are(s, rel, ks) implies search_outcome(
                        ks,
                        *target,
                        first as int,
                        last as int,
                    ) == search_outcome(ks, *target, first as int, mid as int) by {
                        assert(ks[first as int] == *key_first);
                        assert(ks[last - 1] == *key_last);
                        assert(ks[mid as int] == *key_mid);
                    }
                }
                last = mid;
            },
            KeyOrder::Less => {
                proof {
                    if sorted_by(s, rel) {
                        assert forall|j: int, k: K|
                            0 <= j <= mid && #[trigger] rel(s[j], k) implies key_lt(&k, target) by {
                            if target.key_le(&k) {
                                K::lemma_key_le_transitive(*target, k, *key_mid);
                            }
                        }
                    }
                    assert forall|ks: Seq<K>| #[trigger] keys_are(s, rel, ks) implies search_outcome(
                        ks,
                        *target,
                        first as int,
                        last as int,
                    ) == search_outcome(ks, *target, mid + 1, last as int) by {
                        assert(ks[first as int] == *key_first);
                        assert(ks[last - 1] == *key_last);
                        assert(ks[mid as int] == *key_mid);
                    }
                }
                first = mid + 1;
            },
        }
    }
}

/// Relates each item to itself.
pub open spec fn self_relation<T>() -> spec_fn(T, T) -> bool {
    |x: T, k: T| k == x
}

/// A target has no equal key in a sequence at any of its insertion points:
/// an `Err` from a search of sorted items means the target is absent.
pub proof fn lemma_insertion_point_excludes_target<K: InterpolationFactor>(s: Seq<K>, t: K, i: int)
    requires
        insertion_point(s, t, i),
    ensures
        forall|j: int| 0 <= j < s.len() ==> !found_at(s, t, j),
{
    assert forall|j: int| 0 <= j < s.len() implies !found_at(s, t, j) by {
        if j < i {
            assert(key_lt(&s[j], &t));
        } else {
            assert(key_lt(&t, &s[j]));
        }
    }
}

/// A target has at most one insertion point in a sequence, so an `Err`
/// index is the one that a binary search gives.
pub proof fn lemma_insertion_point_unique<K: InterpolationFactor>(s: Seq<K>, t: K, i1: int, i2: int)
    requires
        insertion_point(s, t, i1),
        insertion_point(s, t, i2),
    ensures
        i1 == i2,
{
    if i1 != i2 {
        let j = if i1 < i2 {
            i1
        } else {
            i2
        };
        assert(key_lt(&s[j], &t));
        assert(key_lt(&t, &s[j]));
        K::lemma_key_le_total(s[j], t);
    }
}

/// Inserting the target at its insertion point keeps a sorted sequence sorted.
pub proof fn lemma_insert_keeps_sorted<K: InterpolationFactor>(s: Seq<K>, t: K, i: int)
    requires
        sorted(s),
        insertion_point(s, t, i),
    ensures
        sorted(s.insert(i, t)),
{
    let u = s.insert(i, t);
    assert forall|a: int, b: int| 0 <= a <= b < u.len() implies #[trigger] u[a].key_le(&#[trigger] u[b]) by {
        if a == i && b == i {
            K::lemma_key_le_reflexive(t);
        } else if a == i {
            assert(u[b] == s[b - 1]);
            assert(key_lt(&t, &s[b - 1]));
            K::lemma_key_le_total(t, s[b - 1]);
        } else if b == i {
            assert(u[a] == s[a]);
            assert(key_lt(&s[a], &t));
            K::lemma_key_le_total(s[a], t);
        } else {
            let sa = if a < i {
                a
            } else {
                a - 1
            };
            let sb = if b < i {
                b
            } else {
                b - 1
            };
            assert(u[a] == s[sa]);
            assert(u[b] == s[sb]);
            assert(s[sa].key_le(&s[sb]));
        }
    }
}

/// No item related to a key equal to the target lies in a sequence at an
/// insertion point of the target.
pub proof fn lemma_insertion_point_by_excludes_target<T, K: InterpolationFactor>(
    s: Seq<T>,
    rel: spec_fn(T, K) -> bool,
    t: K,
    i: int,
)
    requires
        insertion_point_by(s, rel, t, i),
    ensures
        forall|j: int| 0 <= j < s.len() ==> !found_by(s, rel, t, j),
{
    assert forall|j: int| 0 <= j < s.len() implies !found_by(s, rel, t, j) by {
        if found_by(s, rel, t, j) {
            let k = choose|k: K| #[trigger] rel(s[j], k) && key_eq(&k, &t);
            if j < i {
                assert(key_lt(&k, &t));
            } else {
                assert(key_lt(&t, &k));
            }
        }
    }
}

/// `rel` relates `x` to some key.
pub open spec fn has_key<T, K>(rel: spec_fn(T, K) -> bool, x: T) -> bool {
    exists|k: K| #[trigger] rel(x, k)
}

/// When every item has a key, a target has at most one insertion point.
pub proof fn lemma_insertion_point_by_unique<T, K: InterpolationFactor>(
    s: Seq<T>,
    rel: spec_fn(T, K) -> bool,
    t: K,
    i1: int,
    i2: int,
)
    requires
        forall|j: int| 0 <= j < s.len() ==> #[trigger] has_key(rel, s[j]),
        insertion_point_by(s, rel, t, i1),
        insertion_point_by(s, rel, t, i2),
    ensures
        i1 == i2,
{
    if i1 != i2 {
        let j = if i1 < i2 {
            i1
        } else {
            i2
        };
        assert(has_key(rel, s[j]));
        let k = choose|k: K| #[trigger] rel(s[j], k);
        assert(key_lt(&k, &t));
        assert(key_lt(&t, &k));
        K::lemma_key_le_total(k, t);
    }
}

/// Searching items is searching them by the key that is the item itself.
pub proof fn lemma_self_relation<K: InterpolationFactor>(s: Seq<K>, t: K)
    ensures
        sorted(s) <==> sorted_by(s, self_relation::<K>()),
        forall|i: int| found_at(s, t, i) <==> #[trigger] found_by(s, self_relation::<K>(), t, i),
        forall|i: int|
            insertion_point(s, t, i) <==> #[trigger] insertion_point_by(s, self_relation::<K>(), t, i),
{
    let rel = self_relation::<K>();
    if sorted_by(s, rel) {
        assert forall|i: int, j: int| 0 <= i <= j < s.len() implies #[trigger] s[i].key_le(&#[trigger] s[j]) by {
            assert(rel(s[i], s[i]));
            assert(rel(s[j], s[j]));
        }
    }
    assert forall|i: int| found_at(s, t, i) implies #[trigger] found_by(s, rel, t, i) by {
        assert(rel(s[i], s[i]));
    }
    assert forall|i: int| insertion_point_by(s, rel, t, i) implies insertion_point(s, t, i) by {
        assert forall|j: int| 0 <= j < i implies key_lt(#[trigger] &s[j], &t) by {
            assert(rel(s[j], s[j]));
        }
        assert forall|j: int| i <= j < s.len() implies key_lt(&t, #[trigger] &s[j]) by {
            assert(rel(s[j], s[j]));
        }
    }
}

impl<T> InterpolationSearch<T> for [T] {
    open spec fn searched(&self) -> Seq<T> {
        self@
    }

    fn interpolation_search(&self, target: &T) -> (r: Result<usize, usize>) where
        T: InterpolationFactor,
    {
        let ghost rel = self_relation::<T>();
        let r = search_with(self, target, identity::<T>, Ghost(rel));
        proof {
            let s = self@;
            assert(keys_are(s, rel, s));
            lemma_self_relation(s, *target);
            if let Ok(i) = r {
                assert(found_by(s, rel, *target, i as int));
            }
            if let Err(i) = r {
                if sorted(s) {
                    assert(insertion_point_by(s, rel, *target, i as int));
                    lemma_insertion_point_by_excludes_target(s, rel, *target, i as int);
                }
            }
        }
        r
    }

    fn interpolation_search_by_key<K, F>(&self, target: &K, key: F) -> (r: Result<usize, usize>) where
        K: InterpolationFactor,
        F: FnMut(&T) -> &K,
    {
        let r = search_with(self, target, key, Ghost(key_relation(key)));
        proof {
            if let Ok(i) = r {
                assert(found_by_key(self@, key, *target, i as int));
            }
            if let Err(i) = r {
                if sorted_by_key(self@, key) {
                    lemma_insertion_point_by_excludes_target(self@, key_relation(key), *target, i as int);
                }
            }
        }
        r
    }
}

} // verus!
