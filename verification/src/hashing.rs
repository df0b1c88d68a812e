//! Hashing of join keys and the hash tables of the join, both built on the
//! `ahash` crate.
//!
//! Nothing in this module is proved: every item states what is assumed of
//! `ahash` and of the standard hash tables that use its hasher.

use crate::tuple::values_view;
use crate::types::{Datum, ValueRef};
use ahash::{HashMapExt, HashSetExt};
use std::collections::{HashMap, HashSet};
use vstd::prelude::*;

verus! {

/// The state from which `ahash` builds its hashers.
#[verifier::external_type_specification]
#[verifier::external_body]
pub struct ExRandomState(ahash::RandomState);

/// A table from the hash of a join key to the positions of the rows that
/// have it.
pub type BucketMap = HashMap<u64, Vec<usize>, ahash::RandomState>;

/// A set of hashes of join keys.
pub type HashSetU64 = HashSet<u64, ahash::RandomState>;

/// The hash that one build of `ahash` computes for a list of values from a
/// state whose four seeds are all `seed`.
pub uninterp spec fn key_hash(seed: u64, values: Seq<Datum>) -> u64;

/// `ahash::RandomState::with_seeds` followed by `RandomState::hash_one`:
/// states made from the same seeds build identical hashers, and a hasher
/// is fed what the values write to it, so the hash is a function of the
/// seed and of the values hashed.
#[verifier::external_body]
pub(crate) fn seeded_hash(seed: u64, values: &Vec<ValueRef>) -> (h: u64)
    ensures
        h == key_hash(seed, values_view(values@)),
{
    ahash::RandomState::with_seeds(seed, seed, seed, seed).hash_one(values)
}

/// `ahash::HashMapExt::new`: an empty table.
#[verifier::external_body]
pub(crate) fn bucket_map_new() -> (m: BucketMap)
    ensures
        m@ == (Map::<u64, Vec<usize>>::empty()),
{
    BucketMap::new()
}

/// `HashMap::get` on a table that hashes with `ahash`: the entry of a key,
/// if the table has one.
#[verifier::external_body]
pub(crate) fn bucket_map_get<'a>(m: &'a BucketMap, h: u64) -> (r: Option<&'a Vec<usize>>)
    ensures
        match r {
            Some(v) => m@.contains_key(h) && m@[h] == *v,
            None => !m@.contains_key(h),
        },
{
    m.get(&h)
}

/// `HashMap::remove` on a table that hashes with `ahash`: takes the entry
/// of a key out of the table and returns it.
#[verifier::external_body]
pub(crate) fn bucket_map_remove(m: &mut BucketMap, h: u64) -> (r: Option<Vec<usize>>)
    ensures
        final(m)@ == old(m)@.remove(h),
        match r {
            Some(v) => old(m)@.contains_key(h) && old(m)@[h] == v,
            None => !old(m)@.contains_key(h),
        },
{
    m.remove(&h)
}

/// `HashMap::insert` on a table that hashes with `ahash`: the key maps to
/// the new value and every other entry is unchanged.
#[verifier::external_body]
pub(crate) fn bucket_map_insert(m: &mut BucketMap, h: u64, bucket: Vec<usize>)
    ensures
        final(m)@ == old(m)@.insert(h, bucket),
{
    m.insert(h, bucket);
}

/// `ahash::HashSetExt::new`: an empty set.
#[verifier::external_body]
pub(crate) fn hash_set_new() -> (s: HashSetU64)
    ensures
        s@ == (Set::<u64>::empty()),
{
    HashSetU64::new()
}

/// `HashSet::insert` on a set that hashes with `ahash`: the set gains the
/// value.
#[verifier::external_body]
pub(crate) fn hash_set_insert(s: &mut HashSetU64, h: u64)
    ensures
        final(s)@ == old(s)@.insert(h),
{
    s.insert(h);
}

/// `HashSet::contains` on a set that hashes with `ahash`.
#[verifier::external_body]
pub(crate) fn hash_set_contains(s: &HashSetU64, h: u64) -> (r: bool)
    ensures
        r == s@.contains(h),
{
    s.contains(&h)
}

} // verus!
