//! An insertion-ordered index from record identities to slots, kept in an
//! `IndexMap` with rustc-hash's fast hasher.

use vstd::prelude::*;
use indexmap::IndexMap;
use rustc_hash::FxBuildHasher;

verus! {

/// rustc-hash's `FxBuildHasher`, carried as an opaque value.
#[verifier::external_type_specification]
#[verifier::external_body]
pub struct ExFxBuildHasher(FxBuildHasher);

/// indexmap's `IndexMap`, opaque: what it holds is named by `index_entries`.
#[verifier::external_type_specification]
#[verifier::external_body]
#[verifier::reject_recursive_types(K)]
#[verifier::reject_recursive_types(V)]
#[verifier::reject_recursive_types(S)]
pub struct ExIndexMap<K, V, S>(IndexMap<K, V, S>);

/// An index from record identities to slots, in insertion order.
pub type IdIndex = IndexMap<u64, usize, FxBuildHasher>;

/// The identity-to-slot pairs that an identity index holds.
pub uninterp spec fn index_entries(m: IdIndex) -> Map<u64, usize>;

/// Relies on `IndexMap::with_hasher` with rustc-hash's `FxBuildHasher`: the
/// new map is empty.
#[verifier::external_body]
pub fn new_indexmap() -> (r: IdIndex)
    ensures
        index_entries(r).dom().is_empty(),
{
    IndexMap::with_hasher(FxBuildHasher)
}

/// Relies on `IndexMap::get`: the value stored under `key`, if any.
#[verifier::external_body]
pub(crate) fn index_get(m: &IdIndex, key: u64) -> (r: Option<usize>)
    ensures
        r == (if index_entries(*m).contains_key(key) {
            Some(index_entries(*m)[key])
        } else {
            None
        }),
{
    m.get(&key).copied()
}

/// Relies on `IndexMap::insert`: afterwards `key` maps to `value` and every
/// other entry is unchanged.
#[verifier::external_body]
pub(crate) fn index_insert(m: &mut IdIndex, key: u64, value: usize)
    ensures
        index_entries(*final(m)) == index_entries(*old(m)).insert(key, value),
{
    m.insert(key, value);
}

} // verus!
