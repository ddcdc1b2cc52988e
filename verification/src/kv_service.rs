//! The key-value service handlers: the four remote operations, written
//! against the in-memory map.
//!
//! The RPC transport — connection handling, framing, marshalling — is an
//! outside collaborator; it decodes each call into plain values, hands them
//! to the handler for that operation, and encodes the outcome.  The handlers
//! translate map outcomes into service-level success or error results.

use vstd::prelude::*;
use crate::kv::KvMap;

verus! {

/// The one error the key-value service can signal: the requested key is
/// not in the map.
#[derive(PartialEq, Eq, Structural, Clone, Copy, Debug)]
pub enum KvError {
    NotFound,
}

impl KvError {
    /// The human-readable message carried by the service-level error.
    pub fn message(&self) -> (r: String)
        ensures
            r@ == "Key does not exist."@,
    {
        "Key does not exist.".to_owned()
    }
}

/// The diagnostic increment operation: returns its input plus one.
pub fn example(input: u32) -> (r: u32)
    requires
        input < u32::MAX,
    ensures
        r == input + 1,
{
    input + 1
}

/// The diagnostic echo operation: returns its input unchanged.
pub fn echo(input: String) -> (r: String)
    ensures
        r@ == input@,
{
    input
}

/// The `put` operation: stores `value` under `key` in the shared map,
/// overwriting any prior value.  It always succeeds.
pub fn put(map: &mut KvMap, key: Vec<u8>, value: Vec<u8>)
    requires
        old(map).well_formed(),
    ensures
        final(map).well_formed(),
        final(map)@ == old(map)@.insert(key@, value@),
{
    map.put(key, value);
}

/// The `get` operation: returns the stored value for `key`, or the
/// service-level not-found error when `key` is absent.
pub fn get(map: &KvMap, key: &Vec<u8>) -> (r: Result<Vec<u8>, KvError>)
    requires
        map.well_formed(),
    ensures
        match r {
            Ok(v) => map@.contains_key(key@) && v@ == map@[key@],
            Err(e) => !map@.contains_key(key@) && e == KvError::NotFound,
        },
{
    match map.get(key) {
        Some(v) => Ok(v.clone()),
        None => Err(KvError::NotFound),
    }
}

/// Law: after `put(k, v)`, and any later `put`s on keys other than `k`,
/// `get(k)` succeeds and returns `v`.
pub proof fn lemma_put_then_get(m: Map<Seq<u8>, Seq<u8>>, k: Seq<u8>, v: Seq<u8>,
    k2: Seq<u8>, v2: Seq<u8>)
    requires
        k2 != k,
    ensures
        m.insert(k, v).contains_key(k),
        m.insert(k, v)[k] == v,
        m.insert(k, v).insert(k2, v2).contains_key(k),
        m.insert(k, v).insert(k2, v2)[k] == v,
{
}

/// Law: a key never the subject of a `put` is absent: it is not in the
/// fresh map, and no `put` on another key brings it in, so `get` on it
/// fails with the not-found error.
pub proof fn lemma_get_never_put(m: Map<Seq<u8>, Seq<u8>>, k: Seq<u8>,
    k2: Seq<u8>, v2: Seq<u8>)
    requires
        k2 != k,
    ensures
        !Map::<Seq<u8>, Seq<u8>>::empty().contains_key(k),
        !m.contains_key(k) ==> !m.insert(k2, v2).contains_key(k),
{
}

/// Law: a second `put(k, v2)` after `put(k, v1)` overwrites: a later
/// `get(k)` returns `v2`.
pub proof fn lemma_put_overwrites(m: Map<Seq<u8>, Seq<u8>>, k: Seq<u8>,
    v1: Seq<u8>, v2: Seq<u8>)
    ensures
        m.insert(k, v1).insert(k, v2).contains_key(k),
        m.insert(k, v1).insert(k, v2)[k] == v2,
{
}

/// Law: `put`s on distinct keys do not interfere: whichever order the
/// lock serialized them in, the map ends the same and both values are
/// visible to later `get`s.
pub proof fn lemma_distinct_puts_commute(m: Map<Seq<u8>, Seq<u8>>,
    k1: Seq<u8>, v1: Seq<u8>, k2: Seq<u8>, v2: Seq<u8>)
    requires
        k1 != k2,
    ensures
        m.insert(k1, v1).insert(k2, v2) == m.insert(k2, v2).insert(k1, v1),
        m.insert(k1, v1).insert(k2, v2)[k1] == v1,
        m.insert(k1, v1).insert(k2, v2)[k2] == v2,
{
    assert(m.insert(k1, v1).insert(k2, v2) =~= m.insert(k2, v2).insert(k1, v1));
}

} // verus!
