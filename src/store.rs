//! The persistent key-value store: named tables of byte keys and byte values,
//! held by the embedded `sled` database. A failure of the store is reported
//! as `Err(())`.

use vstd::prelude::*;


verus! {

#[verifier::external_type_specification]
#[verifier::external_body]
pub struct ExTree(sled::Tree);

#[verifier::external_type_specification]
#[verifier::external_body]
pub struct ExDb(sled::Db);

/// What a table holds: each key mapped to its value.
pub uninterp spec fn table_of(t: sled::Tree) -> Map<Seq<u8>, Seq<u8>>;

/// Relies on `sled::Tree::get`: the value stored under `key`, if any.
#[verifier::external_body]
pub(crate) fn tree_get(t: &sled::Tree, key: &[u8]) -> (r: Result<Option<Vec<u8>>, ()>)
    ensures
        r matches Ok(Some(v)) ==> table_of(*t).contains_key(key@) && table_of(*t)[key@] == v@,
        r matches Ok(None) ==> !table_of(*t).contains_key(key@),
{
    t.get(key).map(|v| v.map(|v| v.to_vec())).map_err(|_| ())
}

} // verus!

verus! {

/// Relies on `sled::Tree::contains_key`: whether `key` is stored.
#[verifier::external_body]
pub(crate) fn tree_contains(t: &sled::Tree, key: &[u8]) -> (r: Result<bool, ()>)
    ensures
        r matches Ok(b) ==> b == table_of(*t).contains_key(key@),
{
    t.contains_key(key).map_err(|_| ())
}

/// Relies on `sled::Tree::insert`: on success `key` maps to `value`, and
/// nothing else changed.
#[verifier::external_body]
pub(crate) fn tree_insert(t: &mut sled::Tree, key: &[u8], value: &[u8]) -> (r: Result<(), ()>)
    ensures
        r is Ok ==> table_of(*final(t)) == table_of(*old(t)).insert(key@, value@),
{
    t.insert(key, value).map(|_| ()).map_err(|_| ())
}

/// Relies on `sled::Tree::remove`: on success `key` is gone, and nothing
/// else changed.
#[verifier::external_body]
pub(crate) fn tree_remove(t: &mut sled::Tree, key: &[u8]) -> (r: Result<(), ()>)
    ensures
        r is Ok ==> table_of(*final(t)) == table_of(*old(t)).remove(key@),
{
    t.remove(key).map(|_| ()).map_err(|_| ())
}

/// Relies on `sled::Tree::iter` (keys only): every stored key, once each.
#[verifier::external_body]
pub(crate) fn tree_keys(t: &sled::Tree) -> (r: Result<Vec<Vec<u8>>, ()>)
    ensures
        r matches Ok(ks) ==> {
            &&& forall|i: int| 0 <= i < ks.len() ==> table_of(*t).contains_key(#[trigger] ks[i]@)
            &&& forall|k: Seq<u8>| table_of(*t).contains_key(k) ==> exists|i: int|
                0 <= i < ks.len() && #[trigger] ks[i]@ == k
            &&& forall|i: int, j: int| 0 <= i < j < ks.len() ==> ks[i]@ != ks[j]@
        },
{
    t.iter().keys().map(|k| k.map(|k| k.to_vec())).collect::<Result<Vec<Vec<u8>>, sled::Error>>().map_err(|_| ())
}

/// Relies on `sled::open`: the store at `path`, locked for this process
/// until every handle to it is dropped.
#[verifier::external_body]
pub(crate) fn open_store(path: &str) -> (r: Result<sled::Db, ()>) {
    sled::open(path).map_err(|_| ())
}

/// Relies on `sled::Db::open_tree`: the table of that name, with whatever it
/// already holds.
#[verifier::external_body]
pub(crate) fn open_table(db: &sled::Db, name: &str) -> (r: Result<sled::Tree, ()>) {
    db.open_tree(name).map_err(|_| ())
}

} // verus!
