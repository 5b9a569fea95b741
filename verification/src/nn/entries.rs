//! Sequences of key-value entries: the mathematical model of an
//! insertion-ordered map, and the facts about it that the genome relies on.

use vstd::prelude::*;

verus! {

/// Some entry of `s` has key `k`.
pub open spec fn has_key<K, V>(s: Seq<(K, V)>, k: K) -> bool {
    exists|i: int| 0 <= i < s.len() && (#[trigger] s[i]).0 == k
}

/// An index at which `s` holds key `k`; meaningful when `has_key(s, k)`.
pub open spec fn index_of<K, V>(s: Seq<(K, V)>, k: K) -> int {
    choose|i: int| 0 <= i < s.len() && (#[trigger] s[i]).0 == k
}

/// The value stored under `k`, if any.
pub open spec fn value_of<K, V>(s: Seq<(K, V)>, k: K) -> Option<V> {
    if has_key(s, k) {
        Some(s[index_of(s, k)].1)
    } else {
        None
    }
}

/// Key `k` stands at index `i` of `s` and at no other.
pub open spec fn only_at<K, V>(s: Seq<(K, V)>, k: K, i: int) -> bool {
    &&& 0 <= i < s.len()
    &&& s[i].0 == k
    &&& forall|j: int| 0 <= j < s.len() && (#[trigger] s[j]).0 == k ==> j == i
}

/// No key occurs twice.
pub open spec fn distinct_keys<K, V>(s: Seq<(K, V)>) -> bool {
    forall|i: int, j: int|
        0 <= i < j < s.len() ==> (#[trigger] s[i]).0 != (#[trigger] s[j]).0
}

/// The keys of `s`, in order.
pub open spec fn keys_of<K, V>(s: Seq<(K, V)>) -> Seq<K> {
    Seq::new(s.len(), |i: int| s[i].0)
}

/// `s` after storing `v` under `k`: an existing key keeps its place and gets
/// the new value, a new key goes last.
pub open spec fn inserted<K, V>(s: Seq<(K, V)>, k: K, v: V) -> Seq<(K, V)> {
    if has_key(s, k) {
        s.update(index_of(s, k), (k, v))
    } else {
        s.push((k, v))
    }
}

/// `s` after removing key `k` the way a swap-remove does: the last entry
/// moves into the freed place. Unchanged when `k` is absent.
pub open spec fn swap_removed<K, V>(s: Seq<(K, V)>, k: K) -> Seq<(K, V)> {
    if has_key(s, k) {
        s.update(index_of(s, k), s.last()).drop_last()
    } else {
        s
    }
}

/// `s` after swap-removing each key of `ks` in turn, first to last.
pub open spec fn swap_removed_all<K, V>(s: Seq<(K, V)>, ks: Seq<K>) -> Seq<(K, V)>
    decreases ks.len(),
{
    if ks.len() == 0 {
        s
    } else {
        swap_removed(swap_removed_all(s, ks.drop_last()), ks.last())
    }
}

/// The first `n` places of `s`, or all of them where it has fewer, are places
/// of `t` too and hold the same keys there.
pub open spec fn same_leading_keys<K, V>(s: Seq<(K, V)>, t: Seq<(K, V)>, n: int) -> bool {
    &&& n <= s.len() ==> n <= t.len()
    &&& s.len() <= n ==> s.len() <= t.len()
    &&& forall|i: int| 0 <= i < n && i < s.len() ==> (#[trigger] t[i]).0 == s[i].0
}

/// Keeping the leading keys carries over two changes in a row.
pub proof fn lemma_same_leading_keys_chain<K, V>(
    s: Seq<(K, V)>,
    t: Seq<(K, V)>,
    u: Seq<(K, V)>,
    n: int,
)
    requires
        same_leading_keys(s, t, n),
        same_leading_keys(t, u, n),
    ensures
        same_leading_keys(s, u, n),
{
    assert forall|i: int| 0 <= i < n && i < s.len() implies (#[trigger] u[i]).0 == s[i].0 by {
        assert(t[i].0 == s[i].0);
        assert(u[i].0 == t[i].0);
    }
}

/// A key that stands at one index only is looked up there.
pub proof fn lemma_only_at<K, V>(s: Seq<(K, V)>, k: K, i: int)
    requires
        only_at(s, k, i),
    ensures
        has_key(s, k),
        index_of(s, k) == i,
        value_of(s, k) == Some(s[i].1),
{
    assert(has_key(s, k));
    let j = index_of(s, k);
    assert(s[j].0 == k);
}

/// With distinct keys, a key is found at exactly one index.
pub proof fn lemma_index_of_unique<K, V>(s: Seq<(K, V)>, i: int)
    requires
        distinct_keys(s),
        0 <= i < s.len(),
    ensures
        has_key(s, s[i].0),
        index_of(s, s[i].0) == i,
        value_of(s, s[i].0) == Some(s[i].1),
{
    let k = s[i].0;
    assert(has_key(s, k));
    let j = index_of(s, k);
    assert(0 <= j < s.len() && s[j].0 == k);
    if j < i {
        assert(s[j].0 != s[i].0);
    } else if i < j {
        assert(s[i].0 != s[j].0);
    }
}

/// With distinct keys, all but the last entry look every key but the last
/// one up as the whole sequence does.
pub proof fn lemma_value_of_drop_last<K, V>(s: Seq<(K, V)>, k: K)
    requires
        distinct_keys(s),
        s.len() > 0,
    ensures
        distinct_keys(s.drop_last()),
        value_of(s, s.last().0) == Some(s.last().1),
        !has_key(s.drop_last(), s.last().0),
        k != s.last().0 ==> value_of(s.drop_last(), k) == value_of(s, k),
{
    let front = s.drop_last();
    let last = s.len() - 1;
    lemma_index_of_unique(s, last);
    assert(distinct_keys(front)) by {
        assert forall|i: int, j: int| 0 <= i < j < front.len() implies (#[trigger] front[i]).0 != (
        #[trigger] front[j]).0 by {
            assert(s[i].0 != s[j].0);
        }
    }
    if has_key(front, s.last().0) {
        let i = index_of(front, s.last().0);
        assert(s[i].0 != s[last].0);
    }
    if k != s.last().0 {
        if has_key(s, k) {
            let i = index_of(s, k);
            assert(front[i] == s[i]);
            lemma_index_of_unique(front, i);
        }
        if has_key(front, k) {
            let i = index_of(front, k);
            assert(s[i].0 == k);
        }
    }
}

/// Storing keeps keys distinct, adds at most the stored key, and leaves every
/// other key's value and every existing place alone.
pub proof fn lemma_inserted<K, V>(s: Seq<(K, V)>, k: K, v: V)
    requires
        distinct_keys(s),
    ensures
        distinct_keys(inserted(s, k, v)),
        has_key(inserted(s, k, v), k),
        value_of(inserted(s, k, v), k) == Some(v),
        inserted(s, k, v).len() == if has_key(s, k) { s.len() } else { s.len() + 1 },
        forall|k2: K| has_key(inserted(s, k, v), k2) <==> (has_key(s, k2) || k2 == k),
        forall|k2: K| k2 != k ==> value_of(inserted(s, k, v), k2) == value_of(s, k2),
        forall|i: int| 0 <= i < s.len() ==> (#[trigger] inserted(s, k, v)[i]).0 == s[i].0,
        forall|i: int|
            0 <= i < s.len() && s[i].0 != k ==> (#[trigger] inserted(s, k, v)[i]) == s[i],
        forall|i: int|
            0 <= i < inserted(s, k, v).len() ==> (#[trigger] inserted(s, k, v)[i]) == (k, v) || (i
                < s.len() && inserted(s, k, v)[i] == s[i]),
{
    let t = inserted(s, k, v);
    if has_key(s, k) {
        let p = index_of(s, k);
        assert(t.len() == s.len());
        assert forall|i: int| 0 <= i < s.len() implies (#[trigger] t[i]).0 == s[i].0 by {}
        assert(distinct_keys(t)) by {
            assert forall|i: int, j: int| 0 <= i < j < t.len() implies (#[trigger] t[i]).0 != (
            #[trigger] t[j]).0 by {
                assert(s[i].0 != s[j].0);
            }
        }
        assert(t[p].0 == k);
        lemma_index_of_unique(t, p);
        assert forall|k2: K| has_key(t, k2) <==> (has_key(s, k2) || k2 == k) by {
            if has_key(t, k2) {
                let i = index_of(t, k2);
                assert(s[i].0 == k2);
            }
            if has_key(s, k2) {
                let i = index_of(s, k2);
                assert(t[i].0 == k2);
            }
        }
        assert forall|k2: K| k2 != k implies value_of(t, k2) == value_of(s, k2) by {
            if has_key(s, k2) {
                let i = index_of(s, k2);
                assert(t[i] == s[i]);
                lemma_index_of_unique(t, i);
            }
        }
    } else {
        let p = s.len() as int;
        assert(t.len() == s.len() + 1);
        assert(t[p] == (k, v));
        assert forall|i: int| 0 <= i < s.len() implies (#[trigger] t[i]) == s[i] by {}
        assert(distinct_keys(t)) by {
            assert forall|i: int, j: int| 0 <= i < j < t.len() implies (#[trigger] t[i]).0 != (
            #[trigger] t[j]).0 by {
                if j < p {
                    assert(s[i].0 != s[j].0);
                } else {
                    assert(s[i].0 != k);
                }
            }
        }
        lemma_index_of_unique(t, p);
        assert forall|k2: K| has_key(t, k2) <==> (has_key(s, k2) || k2 == k) by {
            if has_key(t, k2) {
                let i = index_of(t, k2);
                if i < p {
                    assert(s[i].0 == k2);
                }
            }
            if has_key(s, k2) {
                let i = index_of(s, k2);
                assert(t[i].0 == k2);
            }
        }
        assert forall|k2: K| k2 != k implies value_of(t, k2) == value_of(s, k2) by {
            if has_key(s, k2) {
                let i = index_of(s, k2);
                assert(t[i] == s[i]);
                lemma_index_of_unique(t, i);
            }
        }
    }
}

/// Swap-removing keeps keys distinct, drops exactly the removed key, keeps
/// every other key's value, and leaves the places before the removed one
/// alone.
pub proof fn lemma_swap_removed<K, V>(s: Seq<(K, V)>, k: K)
    requires
        distinct_keys(s),
    ensures
        distinct_keys(swap_removed(s, k)),
        !has_key(swap_removed(s, k), k),
        swap_removed(s, k).len() == if has_key(s, k) { s.len() - 1 } else { s.len() as int },
        forall|k2: K| has_key(swap_removed(s, k), k2) <==> (has_key(s, k2) && k2 != k),
        forall|k2: K| k2 != k ==> value_of(swap_removed(s, k), k2) == value_of(s, k2),
        forall|i: int|
            0 <= i < swap_removed(s, k).len() && (has_key(s, k) ==> i < index_of(s, k))
                ==> (#[trigger] swap_removed(s, k)[i]) == s[i],
        forall|i: int|
            0 <= i < swap_removed(s, k).len() ==> (#[trigger] swap_removed(s, k)[i]) == s[i]
                || swap_removed(s, k)[i] == s.last(),
{
    let t = swap_removed(s, k);
    if has_key(s, k) {
        let p = index_of(s, k);
        let last = s.len() - 1;
        assert(t.len() == s.len() - 1);
        assert forall|i: int| 0 <= i < t.len() implies (#[trigger] t[i]) == (if i == p {
            s[last]
        } else {
            s[i]
        }) by {}
        assert(distinct_keys(t)) by {
            assert forall|i: int, j: int| 0 <= i < j < t.len() implies (#[trigger] t[i]).0 != (
            #[trigger] t[j]).0 by {
                if i == p {
                    assert(s[j].0 != s[last].0);
                } else if j == p {
                    assert(s[i].0 != s[last].0);
                } else {
                    assert(s[i].0 != s[j].0);
                }
            }
        }
        assert forall|k2: K| has_key(t, k2) <==> (has_key(s, k2) && k2 != k) by {
            if has_key(t, k2) {
                let i = index_of(t, k2);
                if i == p {
                    assert(s[last].0 == k2);
                    assert(s[p].0 != s[last].0);
                } else {
                    assert(s[i].0 == k2);
                    if i < p {
                        assert(s[i].0 != s[p].0);
                    } else {
                        assert(s[p].0 != s[i].0);
                    }
                }
            }
            if has_key(s, k2) && k2 != k {
                let i = index_of(s, k2);
                if i == last {
                    assert(t[p].0 == k2);
                } else {
                    assert(t[i].0 == k2);
                }
            }
        }
        assert forall|k2: K| k2 != k implies value_of(t, k2) == value_of(s, k2) by {
            if has_key(s, k2) {
                let i = index_of(s, k2);
                if i == last {
                    assert(t[p] == s[i]);
                    lemma_index_of_unique(t, p);
                } else {
                    assert(t[i] == s[i]);
                    lemma_index_of_unique(t, i);
                }
            }
        }
    } else {
        assert(t == s);
    }
}

/// Swap-removing a list of keys keeps keys distinct, drops exactly the
/// listed keys, keeps every other key's value, and brings in no new entry.
pub proof fn lemma_swap_removed_all<K, V>(s: Seq<(K, V)>, ks: Seq<K>)
    requires
        distinct_keys(s),
    ensures
        distinct_keys(swap_removed_all(s, ks)),
        swap_removed_all(s, ks).len() <= s.len(),
        forall|k2: K|
            has_key(swap_removed_all(s, ks), k2) <==> (has_key(s, k2) && !ks.contains(k2)),
        forall|k2: K| !ks.contains(k2) ==> value_of(swap_removed_all(s, ks), k2) == value_of(s, k2),
        forall|i: int|
            0 <= i < swap_removed_all(s, ks).len() ==> s.contains(
                #[trigger] swap_removed_all(s, ks)[i],
            ),
    decreases ks.len(),
{
    let r = swap_removed_all(s, ks);
    if ks.len() == 0 {
        assert forall|i: int| 0 <= i < r.len() implies s.contains(#[trigger] r[i]) by {
            assert(s[i] == r[i]);
        }
    } else {
        let front = ks.drop_last();
        let mid = swap_removed_all(s, front);
        lemma_swap_removed_all(s, front);
        lemma_swap_removed(mid, ks.last());
        assert forall|k2: K| ks.contains(k2) <==> (front.contains(k2) || k2 == ks.last()) by {
            if ks.contains(k2) {
                let i = choose|i: int| 0 <= i < ks.len() && ks[i] == k2;
                if i < ks.len() - 1 {
                    assert(front[i] == k2);
                }
            }
            if front.contains(k2) {
                let i = choose|i: int| 0 <= i < front.len() && front[i] == k2;
                assert(ks[i] == k2);
            }
            if k2 == ks.last() {
                assert(ks[ks.len() - 1] == k2);
            }
        }
        assert forall|i: int| 0 <= i < r.len() implies s.contains(#[trigger] r[i]) by {
            if r[i] == mid[i] {
                assert(s.contains(mid[i]));
            } else {
                assert(r[i] == mid.last());
                assert(s.contains(mid[mid.len() - 1]));
            }
        }
    }
}

} // verus!
