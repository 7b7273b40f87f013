//! Records of numbers under texts, in the concurrent map of the `dashmap` crate.

use vstd::prelude::*;

verus! {

/// The concurrent map of the `dashmap` crate.
#[verifier::external_type_specification]
#[verifier::external_body]
#[verifier::reject_recursive_types(K)]
#[verifier::reject_recursive_types(V)]
#[verifier::reject_recursive_types(S)]
pub struct DashMapItem<K, V, S>(dashmap::DashMap<K, V, S>);

/// A map from texts to records of numbers.
pub type Table = dashmap::DashMap<String, Vec<u128>>;

/// The records that a table holds.
pub uninterp spec fn records(t: dashmap::DashMap<String, Vec<u128>>) -> Map<Seq<char>, Seq<u128>>;

/// `dashmap::DashMap::new`: a table without records.
#[verifier::external_body]
pub(crate) fn new_table() -> (t: Table)
    ensures
        records(t).is_empty(),
{
    dashmap::DashMap::new()
}

/// `dashmap::DashMap::get`: a copy of the record under a text.
#[verifier::external_body]
pub(crate) fn fetch(t: &Table, key: &str) -> (r: Option<Vec<u128>>)
    ensures
        match r {
            Some(v) => records(*t).contains_key(key@) && records(*t)[key@] == v@,
            None => !records(*t).contains_key(key@),
        },
{
    t.get(key).map(|e| e.value().clone())
}

/// `dashmap::DashMap::insert`: the record under a text becomes the given one.
#[verifier::external_body]
pub(crate) fn store(t: &mut Table, key: &str, record: Vec<u128>)
    ensures
        records(*final(t)) == records(*old(t)).insert(key@, record@),
{
    t.insert(key.to_string(), record);
}

/// `dashmap::DashMap::remove`: no record stands under a text afterwards.
#[verifier::external_body]
pub(crate) fn erase(t: &mut Table, key: &str)
    ensures
        records(*final(t)) == records(*old(t)).remove(key@),
{
    t.remove(key);
}

/// `dashmap::DashMap::iter`: the texts that have a record, each once, in an order
/// that is not fixed.
#[verifier::external_body]
pub(crate) fn keys(t: &Table) -> (r: Vec<String>)
    ensures
        r.deep_view().no_duplicates(),
        forall|k: Seq<char>| #[trigger]
            r.deep_view().contains(k) <==> records(*t).contains_key(k),
{
    t.iter().map(|e| e.key().clone()).collect()
}

} // verus!
