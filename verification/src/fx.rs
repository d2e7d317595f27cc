//! What the hash-keyed variant takes on trust: a standard `HashMap` that
//! hashes with the Fx hasher of `rustc_hash`.
//!
//! `vstd` models a `HashMap` as a `Map` from key to value, but states what
//! `get` and `insert` do only for hasher builders that it knows to build
//! deterministic hashers. It does not know `FxBuildHasher`, so the two
//! operations are stated here for that builder.
use rustc_hash::{FxBuildHasher, FxHashMap};
use std::hash::Hash;
use vstd::prelude::*;
use vstd::std_specs::hash::obeys_key_model;

verus! {

/// `rustc_hash::FxBuildHasher`, the hasher builder of an `FxHashMap`. Nothing
/// is said of what is inside it.
#[verifier::external_type_specification]
#[verifier::external_body]
pub struct ExFxBuildHasher(FxBuildHasher);

/// `HashMap::get` on an `FxHashMap`.
///
/// Claims that the lookup finds the value stored under `key` exactly when the
/// map holds `key`. This rests on `FxBuildHasher::build_hasher`, which starts
/// every hasher from the same fixed state, and on `FxHasher`, whose result
/// depends on nothing but that state and what was written to it: so a key
/// type that meets `obeys_key_model` always hashes a given key to the same
/// value.
#[verifier::external_body]
pub(crate) fn fx_get<'a, K: Hash + Eq, V>(map: &'a FxHashMap<K, V>, key: &K) -> (found: Option<
    &'a V,
>)
    requires
        obeys_key_model::<K>(),
    ensures
        match found {
            Some(value) => map@.contains_key(*key) && *value == map@[*key],
            None => !map@.contains_key(*key),
        },
{
    map.get(key)
}

/// `HashMap::insert` on an `FxHashMap`.
///
/// Claims that afterwards the map holds `value` under `key` and is otherwise
/// unchanged, and that the value `key` had before, if any, is returned. It
/// rests on the same two facts about the Fx hasher as [`fx_get`].
#[verifier::external_body]
pub(crate) fn fx_insert<K: Hash + Eq, V>(map: &mut FxHashMap<K, V>, key: K, value: V) -> (previous:
    Option<V>)
    requires
        obeys_key_model::<K>(),
    ensures
        final(map)@ == old(map)@.insert(key, value),
        match previous {
            Some(before) => old(map)@.contains_key(key) && before == old(map)@[key],
            None => !old(map)@.contains_key(key),
        },
{
    map.insert(key, value)
}

} // verus!
