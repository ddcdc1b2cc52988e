//! Association sequences: a sequence of key/value pairs, read as a `Map`.
//!
//! Both shared-state components of the system — the status-code statistics
//! table and the key-value map — keep their entries in a vector of pairs with
//! pairwise-distinct keys.  The spec functions here give such a sequence its
//! mathematical reading, and the lemmas relate the executable edits (update
//! in place, insert, push) to `Map::insert`.

use vstd::prelude::*;

verus! {

/// The keys of an association sequence, in order.
pub open spec fn keys_of<K, V>(s: Seq<(K, V)>) -> Seq<K> {
    s.map_values(|p: (K, V)| p.0)
}

/// No two entries share a key.
pub open spec fn distinct_keys<K, V>(s: Seq<(K, V)>) -> bool {
    forall|i: int, j: int| 0 <= i < j < s.len() ==> s[i].0 != s[j].0
}

/// The map an association sequence denotes; later entries win.
pub open spec fn map_of<K, V>(s: Seq<(K, V)>) -> Map<K, V>
    decreases s.len(),
{
    if s.len() == 0 {
        Map::empty()
    } else {
        map_of(s.drop_last()).insert(s.last().0, s.last().1)
    }
}

/// The domain of the map is exactly the set of keys that occur.
pub proof fn lemma_map_of_dom<K, V>(s: Seq<(K, V)>)
    ensures
        forall|k: K| map_of(s).dom().contains(k) <==> keys_of(s).contains(k),
    decreases s.len(),
{
    if s.len() > 0 {
        let sd = s.drop_last();
        lemma_map_of_dom(sd);
        assert forall|k: K| map_of(s).dom().contains(k) implies keys_of(s).contains(k) by {
            if k == s.last().0 {
                assert(keys_of(s)[s.len() - 1] == s.last().0);
            } else {
                assert(map_of(sd).dom().contains(k));
                assert(keys_of(sd).contains(k));
                let i = choose|i: int| 0 <= i < keys_of(sd).len() && keys_of(sd)[i] == k;
                assert(keys_of(sd)[i] == sd[i].0);
                assert(sd[i] == s[i]);
                assert(keys_of(s)[i] == k);
            }
        }
        assert forall|k: K| keys_of(s).contains(k) implies map_of(s).dom().contains(k) by {
            let i = choose|i: int| 0 <= i < keys_of(s).len() && keys_of(s)[i] == k;
            if i < s.len() - 1 {
                assert(keys_of(sd)[i] == sd[i].0);
                assert(keys_of(sd)[i] == k);
                assert(keys_of(sd).contains(k));
                assert(map_of(sd).dom().contains(k));
            } else {
                assert(keys_of(s)[i] == s.last().0);
            }
        }
    }
}

/// Each entry of a distinct-keyed sequence is a pair of its map.
pub proof fn lemma_map_of_contains_pair<K, V>(s: Seq<(K, V)>, i: int)
    requires
        distinct_keys(s),
        0 <= i < s.len(),
    ensures
        map_of(s).contains_pair(s[i].0, s[i].1),
    decreases s.len(),
{
    if i < s.len() - 1 {
        lemma_map_of_contains_pair(s.drop_last(), i);
    }
}

/// Replacing the value at one index is `Map::insert` on that entry's key.
pub proof fn lemma_map_of_update<K, V>(s: Seq<(K, V)>, i: int, v: V)
    requires
        distinct_keys(s),
        0 <= i < s.len(),
    ensures
        map_of(s.update(i, (s[i].0, v))) == map_of(s).insert(s[i].0, v),
    decreases s.len(),
{
    let t = s.update(i, (s[i].0, v));
    if i == s.len() - 1 {
        assert(t.drop_last() =~= s.drop_last());
    } else {
        lemma_map_of_update(s.drop_last(), i, v);
        assert(t.drop_last() =~= s.drop_last().update(i, (s[i].0, v)));
        assert(t.last() == s.last());
        // the two inserts commute because the keys differ
        assert(map_of(s.drop_last()).insert(s[i].0, v).insert(s.last().0, s.last().1)
            =~= map_of(s.drop_last()).insert(s.last().0, s.last().1).insert(s[i].0, v));
    }
}

/// Appending a fresh entry is `Map::insert` on its key.
pub proof fn lemma_map_of_push<K, V>(s: Seq<(K, V)>, k: K, v: V)
    ensures
        map_of(s.push((k, v))) == map_of(s).insert(k, v),
{
    assert(s.push((k, v)).drop_last() =~= s);
}

/// Inserting a fresh key anywhere is `Map::insert` on that key.
pub proof fn lemma_map_of_insert<K, V>(s: Seq<(K, V)>, i: int, k: K, v: V)
    requires
        0 <= i <= s.len(),
        !keys_of(s).contains(k),
    ensures
        map_of(s.insert(i, (k, v))) == map_of(s).insert(k, v),
    decreases s.len(),
{
    let t = s.insert(i, (k, v));
    if i == s.len() {
        assert(t =~= s.push((k, v)));
        lemma_map_of_push(s, k, v);
    } else {
        assert(t.last() == s.last());
        assert(t.drop_last() =~= s.drop_last().insert(i, (k, v)));
        assert(!keys_of(s.drop_last()).contains(k)) by {
            let sd = s.drop_last();
            assert forall|j: int| 0 <= j < keys_of(sd).len() implies keys_of(sd)[j] != k by {
                assert(keys_of(sd)[j] == sd[j].0);
                assert(sd[j] == s[j]);
                assert(keys_of(s)[j] == s[j].0);
                assert(!keys_of(s).contains(k));
            }
        }
        lemma_map_of_insert(s.drop_last(), i, k, v);
        assert(keys_of(s)[s.len() - 1] == s.last().0);
        assert(k != s.last().0);
        assert(map_of(s.drop_last()).insert(k, v).insert(s.last().0, s.last().1)
            =~= map_of(s.drop_last()).insert(s.last().0, s.last().1).insert(k, v));
    }
}

} // verus!
