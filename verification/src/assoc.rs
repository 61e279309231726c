//! Keyed sequences: the storage model of the engine.
//!
//! Every store of the engine is a vector of entries with pairwise-distinct
//! keys. `klookup` is the specification-level lookup over such a sequence,
//! `kunique` the key-distinctness invariant, and the lemmas here say how
//! both behave under push, remove and update.

use vstd::prelude::*;

verus! {

/// The entry whose key is `k`, found walking from the back; `None` when no
/// entry has that key. Under [`kunique`] it is the one entry with that key.
pub open spec fn klookup<T, K>(s: Seq<T>, key: spec_fn(T) -> K, k: K) -> Option<T>
    decreases s.len(),
{
    if s.len() == 0 {
        None
    } else if key(s.last()) == k {
        Some(s.last())
    } else {
        klookup(s.drop_last(), key, k)
    }
}

/// No two entries share a key.
pub open spec fn kunique<T, K>(s: Seq<T>, key: spec_fn(T) -> K) -> bool {
    forall|i: int, j: int| 0 <= i < j < s.len() ==> key(s[i]) != key(s[j])
}

/// The index of the entry whose key is `k`; meaningful under [`kunique`]
/// when such an entry exists.
pub open spec fn kindex<T, K>(s: Seq<T>, key: spec_fn(T) -> K, k: K) -> int {
    choose|i: int| 0 <= i < s.len() && key(s[i]) == k
}

/// A lookup misses exactly when no entry has the key.
pub proof fn lemma_klookup_none<T, K>(s: Seq<T>, key: spec_fn(T) -> K, k: K)
    ensures
        (klookup(s, key, k) is None) <==> (forall|i: int| 0 <= i < s.len() ==> key(s[i]) != k),
    decreases s.len(),
{
    if s.len() > 0 {
        let s1 = s.drop_last();
        lemma_klookup_none(s1, key, k);
        assert(forall|i: int| 0 <= i < s1.len() ==> s1[i] == s[i]);
        if key(s.last()) == k {
            assert(key(s[s.len() - 1]) == k);
        } else {
            if forall|i: int| 0 <= i < s1.len() ==> key(s1[i]) != k {
                assert forall|i: int| 0 <= i < s.len() implies key(#[trigger] s[i]) != k by {
                    if i < s.len() - 1 {
                        assert(key(s1[i]) != k);
                    } else {
                        assert(s[i] == s.last());
                    }
                }
            } else {
                let w = choose|i: int| 0 <= i < s1.len() && key(s1[i]) == k;
                assert(key(s[w]) == k);
            }
        }
    }
}

/// Restricting a keyed sequence to its prefix keeps keys distinct.
pub proof fn lemma_kunique_drop_last<T, K>(s: Seq<T>, key: spec_fn(T) -> K)
    requires
        kunique(s, key),
        s.len() > 0,
    ensures
        kunique(s.drop_last(), key),
{
    let s1 = s.drop_last();
    assert forall|i: int, j: int| 0 <= i < j < s1.len() implies key(s1[i]) != key(s1[j]) by {
        assert(s1[i] == s[i] && s1[j] == s[j]);
    }
}

/// Under distinct keys, the lookup of an entry's own key finds that entry.
pub proof fn lemma_klookup_index<T, K>(s: Seq<T>, key: spec_fn(T) -> K, i: int)
    requires
        kunique(s, key),
        0 <= i < s.len(),
    ensures
        klookup(s, key, key(s[i])) == Some(s[i]),
    decreases s.len(),
{
    let k = key(s[i]);
    if i == s.len() - 1 {
        assert(key(s.last()) == k);
    } else {
        assert(key(s.last()) != k);
        lemma_kunique_drop_last(s, key);
        lemma_klookup_index(s.drop_last(), key, i);
        assert(s.drop_last()[i] == s[i]);
    }
}

/// The found index is the chosen index.
pub proof fn lemma_kindex<T, K>(s: Seq<T>, key: spec_fn(T) -> K, k: K)
    requires
        kunique(s, key),
        klookup(s, key, k) is Some,
    ensures
        0 <= kindex(s, key, k) < s.len(),
        key(s[kindex(s, key, k)]) == k,
        klookup(s, key, k) == Some(s[kindex(s, key, k)]),
{
    lemma_klookup_none(s, key, k);
    let w = choose|i: int| 0 <= i < s.len() && key(s[i]) == k;
    assert(0 <= w < s.len() && key(s[w]) == k);
    let x = kindex(s, key, k);
    assert(0 <= x < s.len() && key(s[x]) == k);
    lemma_klookup_index(s, key, x);
}

/// How a lookup behaves after appending an entry.
pub proof fn lemma_klookup_push<T, K>(s: Seq<T>, key: spec_fn(T) -> K, e: T, k: K)
    ensures
        klookup(s.push(e), key, k) == if key(e) == k {
            Some(e)
        } else {
            klookup(s, key, k)
        },
{
    assert(s.push(e).last() == e);
    assert(s.push(e).drop_last() =~= s);
}

/// Appending an entry with a fresh key keeps keys distinct.
pub proof fn lemma_kunique_push<T, K>(s: Seq<T>, key: spec_fn(T) -> K, e: T)
    requires
        kunique(s, key),
        klookup(s, key, key(e)) is None,
    ensures
        kunique(s.push(e), key),
{
    lemma_klookup_none(s, key, key(e));
    let s2 = s.push(e);
    assert forall|i: int, j: int| 0 <= i < j < s2.len() implies key(s2[i]) != key(s2[j]) by {
        if j < s.len() {
            assert(s2[i] == s[i] && s2[j] == s[j]);
        } else {
            assert(s2[j] == e && s2[i] == s[i]);
        }
    }
}

/// Removing an entry keeps keys distinct.
pub proof fn lemma_kunique_remove<T, K>(s: Seq<T>, key: spec_fn(T) -> K, i: int)
    requires
        kunique(s, key),
        0 <= i < s.len(),
    ensures
        kunique(s.remove(i), key),
{
    let r = s.remove(i);
    assert forall|a: int, b: int| 0 <= a < b < r.len() implies key(r[a]) != key(r[b]) by {
        let a2: int = if a < i {
            a
        } else {
            a + 1
        };
        let b2: int = if b < i {
            b
        } else {
            b + 1
        };
        assert(r[a] == s[a2] && r[b] == s[b2]);
        assert(0 <= a2 < b2 < s.len());
    }
}

/// How a lookup behaves after removing the entry at index `i`.
pub proof fn lemma_klookup_remove<T, K>(s: Seq<T>, key: spec_fn(T) -> K, i: int, k: K)
    requires
        kunique(s, key),
        0 <= i < s.len(),
    ensures
        klookup(s.remove(i), key, k) == if key(s[i]) == k {
            None::<T>
        } else {
            klookup(s, key, k)
        },
    decreases s.len(),
{
    let r = s.remove(i);
    if i == s.len() - 1 {
        assert(r =~= s.drop_last());
        if key(s[i]) == k {
            lemma_klookup_none(s.drop_last(), key, k);
            assert forall|a: int| 0 <= a < s.drop_last().len() implies key(
                #[trigger] s.drop_last()[a],
            ) != k by {
                assert(s.drop_last()[a] == s[a]);
                assert(key(s[a]) != key(s[i]));
            }
        }
    } else {
        assert(r.last() == s.last());
        assert(r.drop_last() =~= s.drop_last().remove(i));
        lemma_kunique_drop_last(s, key);
        lemma_klookup_remove(s.drop_last(), key, i, k);
        assert(s.drop_last()[i] == s[i]);
        if key(s.last()) == k {
            assert(key(s[i]) != key(s[s.len() - 1]));
        }
    }
}

/// How a lookup behaves after replacing the entry at index `i` by one with
/// the same key, and that keys stay distinct.
pub proof fn lemma_klookup_update<T, K>(s: Seq<T>, key: spec_fn(T) -> K, i: int, e: T, k: K)
    requires
        kunique(s, key),
        0 <= i < s.len(),
        key(e) == key(s[i]),
    ensures
        klookup(s.update(i, e), key, k) == if key(s[i]) == k {
            Some(e)
        } else {
            klookup(s, key, k)
        },
        kunique(s.update(i, e), key),
    decreases s.len(),
{
    let u = s.update(i, e);
    assert forall|a: int, b: int| 0 <= a < b < u.len() implies key(u[a]) != key(u[b]) by {
        assert(key(u[a]) == key(s[a]) && key(u[b]) == key(s[b]));
    }
    if i == s.len() - 1 {
        assert(u.last() == e);
        assert(u.drop_last() =~= s.drop_last());
    } else {
        assert(u.last() == s.last());
        assert(u.drop_last() =~= s.drop_last().update(i, e));
        lemma_kunique_drop_last(s, key);
        lemma_klookup_update(s.drop_last(), key, i, e, k);
        assert(s.drop_last()[i] == s[i]);
        if key(s.last()) == k {
            assert(key(s[i]) != key(s[s.len() - 1]));
        }
    }
}

} // verus!
