//! Sparse indexes: hash maps with the FNV hasher, keyed by an integer.

use fnv::FnvHashMap;
use vstd::prelude::*;

verus! {

/// The hasher of the `fnv` crate. Nothing is read off it: it only stands in
/// the type of the maps below.
#[verifier::external_type_specification]
#[verifier::external_body]
pub struct ExFnvHasher(fnv::FnvHasher);

/// std's builder of default hashers, which makes the FNV hasher for a map.
/// Nothing is read off it either.
#[verifier::external_type_specification]
#[verifier::external_body]
#[verifier::reject_recursive_types(H)]
pub struct ExBuildHasherDefault<H>(std::hash::BuildHasherDefault<H>);

/// `FnvHashMap::default`, std's `Default` for a hash map with the FNV
/// hasher: a map that holds nothing.
#[verifier::external_body]
pub(crate) fn index_new<V>() -> (m: FnvHashMap<i64, V>)
    ensures
        forall|k: i64| !m@.contains_key(k),
{
    FnvHashMap::default()
}

/// `HashMap::get` on an FNV map: the value stored under `k`, if any.
#[verifier::external_body]
pub(crate) fn index_get<'a, V>(m: &'a FnvHashMap<i64, V>, k: i64) -> (r: Option<&'a V>)
    ensures
        r == (if m@.contains_key(k) { Some(&m@[k]) } else { None }),
{
    m.get(&k)
}

/// `HashMap::insert` on an FNV map: afterwards `k` maps to `v`, every other
/// key is as before.
#[verifier::external_body]
pub(crate) fn index_insert<V>(m: &mut FnvHashMap<i64, V>, k: i64, v: V)
    ensures
        final(m)@ == old(m)@.insert(k, v),
{
    m.insert(k, v);
}

/// `HashMap::remove` on an FNV map: hands out what was stored under `k`,
/// and `k` is gone afterwards.
#[verifier::external_body]
pub(crate) fn index_remove<V>(m: &mut FnvHashMap<i64, V>, k: i64) -> (r: Option<V>)
    ensures
        final(m)@ == old(m)@.remove(k),
        r == (if old(m)@.contains_key(k) { Some(old(m)@[k]) } else { None }),
{
    m.remove(&k)
}

/// `HashMap::keys` on an FNV map, collected: every key once, in no stated
/// order.
#[verifier::external_body]
pub(crate) fn index_keys<V>(m: &FnvHashMap<i64, V>) -> (ks: Vec<i64>)
    ensures
        ks@.no_duplicates(),
        forall|k: i64| ks@.contains(k) <==> m@.contains_key(k),
{
    m.keys().copied().collect()
}

} // verus!
