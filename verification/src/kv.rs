//! The key-value map: byte-sequence keys to byte-sequence values.
//!
//! Entries are kept as a vector of pairs with pairwise-distinct keys; the
//! map is read as a mathematical `Map<Seq<u8>, Seq<u8>>`.  `put` is an
//! unconditional upsert, `get` a point lookup.  Callers that share one map
//! across handler tasks guard it with a reader–writer lock; the operations
//! here are the critical sections those handlers run.

use vstd::prelude::*;
use crate::assoc::{map_of, keys_of, distinct_keys, lemma_map_of_contains_pair,
    lemma_map_of_update, lemma_map_of_push, lemma_map_of_dom};

verus! {

/// Compares two byte slices for equality, byte by byte.
pub fn bytes_eq(a: &[u8], b: &[u8]) -> (r: bool)
    ensures
        r <==> a@ =~= b@,
{
    if a.len() != b.len() {
        return false;
    }
    let mut i: usize = 0;
    while i < a.len()
        invariant
            a@.len() == b@.len(),
            i <= a@.len(),
            forall|j: int| 0 <= j < i ==> a@[j] == b@[j],
        decreases a@.len() - i,
    {
        if a[i] != b[i] {
            return false;
        }
        i = i + 1;
    }
    proof {
        assert(a@ =~= b@);
    }
    true
}

/// An in-memory map from byte-sequence keys to byte-sequence values.
pub struct KvMap {
    entries: Vec<(Vec<u8>, Vec<u8>)>,
}

/// The entries of the map with both columns read as byte sequences.
pub open spec fn viewed_entries(s: Seq<(Vec<u8>, Vec<u8>)>) -> Seq<(Seq<u8>, Seq<u8>)> {
    s.map_values(|p: (Vec<u8>, Vec<u8>)| (p.0@, p.1@))
}

impl KvMap {
    /// The map read as a mathematical map over byte sequences.
    pub closed spec fn view(&self) -> Map<Seq<u8>, Seq<u8>> {
        map_of(viewed_entries(self.entries@))
    }

    /// No two entries hold the same key.
    pub closed spec fn well_formed(&self) -> bool {
        distinct_keys(viewed_entries(self.entries@))
    }

    /// A fresh map holds nothing.
    pub fn new() -> (r: KvMap)
        ensures
            r@ == Map::<Seq<u8>, Seq<u8>>::empty(),
            r.well_formed(),
    {
        KvMap { entries: Vec::new() }
    }

    /// The stored value for `key`, or `None` when `key` is absent.
    pub fn get(&self, key: &Vec<u8>) -> (r: Option<&Vec<u8>>)
        requires
            self.well_formed(),
        ensures
            match r {
                Some(v) => self@.contains_key(key@) && v@ == self@[key@],
                None => !self@.contains_key(key@),
            },
    {
        let ghost s = viewed_entries(self.entries@);
        let mut i: usize = 0;
        while i < self.entries.len()
            invariant
                i <= self.entries.len(),
                s == viewed_entries(self.entries@),
                distinct_keys(s),
                self@ == map_of(s),
                forall|j: int| 0 <= j < i ==> s[j].0 != key@,
            decreases self.entries.len() - i,
        {
            proof {
                assert(s[i as int] == (self.entries@[i as int].0@, self.entries@[i as int].1@));
            }
            if bytes_eq(self.entries[i].0.as_slice(), key.as_slice()) {
                proof {
                    lemma_map_of_contains_pair(s, i as int);
                }
                return Some(&self.entries[i].1);
            }
            i = i + 1;
        }
        proof {
            lemma_map_of_dom(s);
            assert(!keys_of(s).contains(key@)) by {
                assert forall|j: int| 0 <= j < keys_of(s).len()
                    implies keys_of(s)[j] != key@ by {
                    assert(keys_of(s)[j] == s[j].0);
                }
            }
        }
        None
    }

    /// Stores `value` under `key`, replacing any prior value for `key`.
    pub fn put(&mut self, key: Vec<u8>, value: Vec<u8>)
        requires
            old(self).well_formed(),
        ensures
            final(self).well_formed(),
            final(self)@ == old(self)@.insert(key@, value@),
    {
        let ghost s = viewed_entries(self.entries@);
        let mut i: usize = 0;
        while i < self.entries.len()
            invariant
                i <= self.entries.len(),
                s == viewed_entries(self.entries@),
                old(self).entries@ == self.entries@,
                old(self)@ == map_of(s),
                distinct_keys(s),
                forall|j: int| 0 <= j < i ==> s[j].0 != key@,
            decreases self.entries.len() - i,
        {
            proof {
                assert(s[i as int] == (self.entries@[i as int].0@, self.entries@[i as int].1@));
            }
            if bytes_eq(self.entries[i].0.as_slice(), key.as_slice()) {
                proof {
                    lemma_map_of_update(s, i as int, value@);
                }
                self.entries.set(i, (key, value));
                proof {
                    let t = viewed_entries(self.entries@);
                    assert(t =~= s.update(i as int, (s[i as int].0, value@)));
                    assert forall|p: int, q: int| 0 <= p < q < t.len()
                        implies t[p].0 != t[q].0 by {
                        assert(t[p].0 == s[p].0 && t[q].0 == s[q].0);
                    }
                }
                return;
            }
            i = i + 1;
        }
        proof {
            lemma_map_of_push(s, key@, value@);
        }
        let ghost kview = key@;
        let ghost vview = value@;
        self.entries.push((key, value));
        proof {
            let t = viewed_entries(self.entries@);
            assert(t =~= s.push((kview, vview)));
            assert forall|p: int, q: int| 0 <= p < q < t.len()
                implies t[p].0 != t[q].0 by {
                if q < s.len() {
                    assert(t[p].0 == s[p].0 && t[q].0 == s[q].0);
                } else {
                    assert(t[p].0 == s[p].0 && t[q].0 == kview);
                }
            }
        }
    }
}

} // verus!
