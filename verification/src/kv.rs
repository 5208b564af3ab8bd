//! A key-value view of an association vector.
//!
//! Every persistent table of the ledger is a `Vec<(K, V)>` whose keys are
//! kept pairwise distinct. `kv_find` reads such a vector as a partial map,
//! and the lemmas here say how that reading changes under `push`, `update`
//! and `remove` — the only ways the ledger ever edits a table.

use vstd::prelude::*;

verus! {

/// The value stored under key `k`, reading the entries back to front.
/// With distinct keys this is simply the value of the one entry for `k`.
pub open spec fn kv_find<K, V>(s: Seq<(K, V)>, k: K) -> Option<V>
    decreases s.len(),
{
    if s.len() == 0 {
        None
    } else if s.last().0 == k {
        Some(s.last().1)
    } else {
        kv_find(s.drop_last(), k)
    }
}

/// Whether some entry carries key `k`.
pub open spec fn kv_has<K, V>(s: Seq<(K, V)>, k: K) -> bool {
    kv_find(s, k) is Some
}

/// Whether `e` is one of the entries of the vector.
pub open spec fn kv_contains_entry<K, V>(s: Seq<(K, V)>, e: (K, V)) -> bool {
    exists|n: int| 0 <= n < s.len() && s[n] == e
}

/// All keys of the vector are pairwise distinct.
pub open spec fn kv_distinct<K, V>(s: Seq<(K, V)>) -> bool {
    forall|i: int, j: int| #![trigger s[i], s[j]] 0 <= i < j < s.len() ==> s[i].0 != s[j].0
}

/// `kv_find` succeeds exactly when some entry carries the key.
pub proof fn lemma_kv_find_exists<K, V>(s: Seq<(K, V)>, k: K)
    ensures
        kv_has(s, k) <==> exists|i: int| 0 <= i < s.len() && s[i].0 == k,
    decreases s.len(),
{
    if s.len() > 0 {
        lemma_kv_find_exists(s.drop_last(), k);
        if s.last().0 == k {
            assert(s[s.len() - 1].0 == k);
        } else if kv_has(s.drop_last(), k) {
            let i = choose|i: int| 0 <= i < s.drop_last().len() && s.drop_last()[i].0 == k;
            assert(s[i].0 == k);
        } else if exists|i: int| 0 <= i < s.len() && s[i].0 == k {
            let i = choose|i: int| 0 <= i < s.len() && s[i].0 == k;
            assert(i < s.len() - 1);
            assert(s.drop_last()[i].0 == k);
        }
    }
}

/// With distinct keys, the entry at any index is the one `kv_find` returns.
pub proof fn lemma_kv_find_index<K, V>(s: Seq<(K, V)>, i: int)
    requires
        kv_distinct(s),
        0 <= i < s.len(),
    ensures
        kv_find(s, s[i].0) == Some(s[i].1),
    decreases s.len(),
{
    if i == s.len() - 1 {
    } else {
        assert(s[i].0 != s[s.len() - 1].0);
        assert(kv_distinct(s.drop_last()));
        assert(s.drop_last()[i] == s[i]);
        lemma_kv_find_index(s.drop_last(), i);
    }
}

/// Appending an entry only changes the reading of its own key.
pub proof fn lemma_kv_find_push<K, V>(s: Seq<(K, V)>, e: (K, V), k: K)
    ensures
        kv_find(s.push(e), k) == if e.0 == k {
            Some(e.1)
        } else {
            kv_find(s, k)
        },
{
    assert(s.push(e).last() == e);
    assert(s.push(e).drop_last() =~= s);
}

/// Overwriting the entry at `i` with one of the same key only changes the
/// reading of that key.
pub proof fn lemma_kv_find_update<K, V>(s: Seq<(K, V)>, i: int, e: (K, V), k: K)
    requires
        kv_distinct(s),
        0 <= i < s.len(),
        s[i].0 == e.0,
    ensures
        kv_find(s.update(i, e), k) == if e.0 == k {
            Some(e.1)
        } else {
            kv_find(s, k)
        },
    decreases s.len(),
{
    let su = s.update(i, e);
    assert(su.len() == s.len());
    if i == s.len() - 1 {
        assert(su.last() == e);
        assert(su.drop_last() =~= s.drop_last());
        if e.0 != k && s.last().0 == k {
            assert(s[i].0 == e.0);
        }
    } else {
        assert(su.last() == s.last());
        assert(su.drop_last() =~= s.drop_last().update(i, e));
        assert(kv_distinct(s.drop_last()));
        assert(s.drop_last()[i] == s[i]);
        lemma_kv_find_update(s.drop_last(), i, e, k);
    }
}

/// Removing the entry at `i` erases the reading of its key and keeps all
/// others.
pub proof fn lemma_kv_find_remove<K, V>(s: Seq<(K, V)>, i: int, k: K)
    requires
        kv_distinct(s),
        0 <= i < s.len(),
    ensures
        kv_find(s.remove(i), k) == if s[i].0 == k {
            None::<V>
        } else {
            kv_find(s, k)
        },
    decreases s.len(),
{
    let sr = s.remove(i);
    s.remove_ensures(i);
    if i == s.len() - 1 {
        assert(sr =~= s.drop_last());
        if s[i].0 == k {
            lemma_kv_find_exists(s.drop_last(), k);
            if kv_has(s.drop_last(), k) {
                let j = choose|j: int|
                    0 <= j < s.drop_last().len() && s.drop_last()[j].0 == k;
                assert(s[j].0 == s[i].0);
                assert(false);
            }
        }
    } else {
        assert(sr.last() == s.last());
        assert(sr.drop_last() =~= s.drop_last().remove(i)) by {
            s.drop_last().remove_ensures(i);
            assert(sr.drop_last().len() == s.drop_last().remove(i).len());
            assert forall|j: int| 0 <= j < sr.len() - 1 implies sr.drop_last()[j]
                == s.drop_last().remove(i)[j] by {
                if j < i {
                    assert(sr[j] == s[j]);
                    assert(s.drop_last().remove(i)[j] == s.drop_last()[j]);
                } else {
                    assert(sr[j] == s[j + 1]);
                    assert(s.drop_last().remove(i)[j] == s.drop_last()[j + 1]);
                }
            }
        }
        assert(kv_distinct(s.drop_last()));
        assert(s.drop_last()[i] == s[i]);
        lemma_kv_find_remove(s.drop_last(), i, k);
    }
}

/// Appending an entry with a fresh key keeps the keys distinct.
pub proof fn lemma_kv_distinct_push<K, V>(s: Seq<(K, V)>, e: (K, V))
    requires
        kv_distinct(s),
        !kv_has(s, e.0),
    ensures
        kv_distinct(s.push(e)),
{
    lemma_kv_find_exists(s, e.0);
    let sp = s.push(e);
    assert forall|i: int, j: int| 0 <= i < j < sp.len() implies sp[i].0 != sp[j].0 by {
        if j < s.len() {
            assert(sp[i] == s[i] && sp[j] == s[j]);
        } else {
            assert(sp[i] == s[i] && sp[j] == e);
        }
    }
}

/// Overwriting an entry with one of the same key keeps the keys distinct.
pub proof fn lemma_kv_distinct_update<K, V>(s: Seq<(K, V)>, i: int, e: (K, V))
    requires
        kv_distinct(s),
        0 <= i < s.len(),
        s[i].0 == e.0,
    ensures
        kv_distinct(s.update(i, e)),
{
    let su = s.update(i, e);
    assert forall|x: int, y: int| 0 <= x < y < su.len() implies su[x].0 != su[y].0 by {
        assert(s[x].0 != s[y].0);
    }
}

/// Removing an entry keeps the keys distinct.
pub proof fn lemma_kv_distinct_remove<K, V>(s: Seq<(K, V)>, i: int)
    requires
        kv_distinct(s),
        0 <= i < s.len(),
    ensures
        kv_distinct(s.remove(i)),
{
    let sr = s.remove(i);
    s.remove_ensures(i);
    assert forall|x: int, y: int| 0 <= x < y < sr.len() implies sr[x].0 != sr[y].0 by {
        let xo: int = if x < i { x } else { x + 1 };
        let yo: int = if y < i { y } else { y + 1 };
        assert(sr[x] == s[xo] && sr[y] == s[yo]);
        assert(s[xo].0 != s[yo].0);
    }
}

} // verus!
