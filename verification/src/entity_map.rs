//! The hash map of bevy's platform layer, keyed by grid positions and
//! holding entity identifiers, as the chunk bookkeeping uses it.
use vstd::prelude::*;
use bevy::platform::collections::HashMap;
use bevy::platform::hash::FixedHasher;

verus! {

/// Grid position used as a map key: `(x, y, z)`.
pub type PosKey = (i32, i32, i32);

/// A map from chunk positions to entity identifiers (`Entity::to_bits`).
pub type EntityMap = HashMap<PosKey, u64, FixedHasher>;

#[verifier::external_type_specification]
#[verifier::external_body]
#[verifier::reject_recursive_types(K)]
#[verifier::reject_recursive_types(V)]
#[verifier::reject_recursive_types(S)]
pub struct ExBevyHashMap<K, V, S>(HashMap<K, V, S>);

#[verifier::external_type_specification]
#[verifier::external_body]
pub struct ExFixedHasher(FixedHasher);

/// The entries that a map holds. The wrappers below state, for each call the
/// library makes, what the call does to them and returns, as the map's
/// source (a thin layer over `hashbrown::HashMap`) shows.
pub uninterp spec fn entity_map_contents(m: EntityMap) -> Map<PosKey, u64>;

/// `HashMap::new`: an empty map.
#[verifier::external_body]
pub(crate) fn entity_map_new() -> (fresh: EntityMap)
    ensures
        entity_map_contents(fresh).dom() == Set::<PosKey>::empty(),
{
    HashMap::new()
}

/// `HashMap::insert`: maps `k` to `v`, replacing any earlier value, and
/// returns the value that `k` had before. (Growing the table allocates; an
/// allocation failure aborts the process, which no contract here covers.)
#[verifier::external_body]
pub(crate) fn entity_map_insert(m: &mut EntityMap, k: PosKey, v: u64) -> (prev: Option<u64>)
    ensures
        entity_map_contents(*final(m)) == entity_map_contents(*old(m)).insert(k, v),
        prev == entity_map_contents(*old(m)).get(k),
{
    m.insert(k, v)
}

/// `HashMap::get`: the value that `k` maps to, if any.
#[verifier::external_body]
pub(crate) fn entity_map_get(m: &EntityMap, k: PosKey) -> (r: Option<u64>)
    ensures
        r == entity_map_contents(*m).get(k),
{
    m.get(&k).copied()
}

/// `HashMap::contains_key`: whether `k` has a value.
#[verifier::external_body]
pub(crate) fn entity_map_contains_key(m: &EntityMap, k: PosKey) -> (r: bool)
    ensures
        r == entity_map_contents(*m).dom().contains(k),
{
    m.contains_key(&k)
}

/// `HashMap::remove`: removes `k` and returns its value, if it had one.
#[verifier::external_body]
pub(crate) fn entity_map_remove(m: &mut EntityMap, k: PosKey) -> (prev: Option<u64>)
    ensures
        entity_map_contents(*final(m)) == entity_map_contents(*old(m)).remove(k),
        prev == entity_map_contents(*old(m)).get(k),
{
    m.remove(&k)
}

/// `HashMap::iter`: every entry once, as a pair, in an order that the
/// map's hashing decides and that is left unstated here.
#[verifier::external_body]
pub(crate) fn entity_map_entries(m: &EntityMap) -> (r: Vec<(PosKey, u64)>)
    ensures
        forall|i: int| #![trigger r@[i]] 0 <= i < r@.len() ==>
            entity_map_contents(*m).get(r@[i].0) == Some(r@[i].1),
        forall|i: int, j: int| #![trigger r@[i], r@[j]]
            0 <= i < r@.len() && 0 <= j < r@.len() && i != j ==> r@[i].0 != r@[j].0,
        forall|k: PosKey| #[trigger] entity_map_contents(*m).dom().contains(k) ==>
            exists|i: int| 0 <= i < r@.len() && r@[i].0 == k,
{
    m.iter().map(|(k, v)| (*k, *v)).collect()
}

} // verus!
