use vstd::prelude::*;
use fnv::FnvHashMap;

verus! {

/// A lookup table from configurations to small indices, backed by a hash
/// map with the Fowler-Noll-Vo hasher, as the sector tables of this engine
/// are: built once, then shared read-only across all bond evaluations.
#[verifier::external_body]
pub struct FnvTable {
    inner: FnvHashMap<u64, u32>,
}

/// What a table holds: its mathematical map from keys to values.
pub uninterp spec fn fnv_contents(t: FnvTable) -> Map<u64, u32>;

/// The contents of a table holding nothing.
pub open spec fn spec_empty_table() -> Map<u64, u32> {
    Map::empty()
}

/// Relies on std's `HashMap::default` (fnv only chooses the hasher): a new
/// map holds nothing.
#[verifier::external_body]
pub fn fnv_table_new() -> (t: FnvTable)
    ensures
        fnv_contents(t) == spec_empty_table(),
{
    FnvTable { inner: FnvHashMap::default() }
}

/// Relies on std's `HashMap::insert`: afterwards the map holds `v` at `k`
/// and is elsewhere unchanged.
#[verifier::external_body]
pub fn fnv_table_insert(t: &mut FnvTable, k: u64, v: u32)
    ensures
        fnv_contents(*final(t)) == fnv_contents(*old(t)).insert(k, v),
{
    t.inner.insert(k, v);
}

/// Relies on std's `HashMap::get`: the result reports exactly the entry at
/// `k`, or its absence.
#[verifier::external_body]
pub fn fnv_table_get(t: &FnvTable, k: u64) -> (r: Option<u32>)
    ensures
        r == (if fnv_contents(*t).dom().contains(k) {
            Some(fnv_contents(*t)[k])
        } else {
            None::<u32>
        }),
{
    match t.inner.get(&k) {
        Some(&v) => Some(v),
        None => None,
    }
}

} // verus!
