//! The hash map that backs a layout, and what is taken on trust about it.
//!
//! The map is `bevy`'s `HashMap` with the FNV hasher. Verus cannot look
//! inside it, so its contents are named by [`store_map`] and every call
//! into it goes through one of the wrappers below, whose contracts restate
//! the documented behavior of the method they call.

use vstd::prelude::*;
use bevy::platform::collections::HashMap;
use fnv::FnvBuildHasher;

verus! {

/// `bevy`'s hash map. The verifier sees nothing inside it.
#[verifier::external_type_specification]
#[verifier::external_body]
#[verifier::reject_recursive_types(K)]
#[verifier::reject_recursive_types(V)]
#[verifier::reject_recursive_types(S)]
pub struct ExHashMap<K, V, S>(HashMap<K, V, S>);

/// The standard hasher factory that `fnv` instantiates. The verifier sees
/// nothing inside it.
#[verifier::external_type_specification]
#[verifier::external_body]
#[verifier::reject_recursive_types(H)]
pub struct ExBuildHasherDefault<H>(std::hash::BuildHasherDefault<H>);

/// `fnv`'s hasher. The verifier sees nothing inside it.
#[verifier::external_type_specification]
#[verifier::external_body]
pub struct ExFnvHasher(fnv::FnvHasher);

/// Key of a cell in the store: its three axis values.
pub type CellKey = (u8, u8, u8);

/// The map type that holds a layout.
pub type CellStore = HashMap<CellKey, usize, FnvBuildHasher>;

/// The key-to-slot association that a store holds.
pub uninterp spec fn store_map(store: HashMap<(u8, u8, u8), usize, FnvBuildHasher>) -> Map<
    (u8, u8, u8),
    usize,
>;

/// The association without any key.
pub open spec fn empty_cells() -> Map<CellKey, usize> {
    Map::empty()
}

/// Whether `entries` lists every binding of `cells` exactly once.
pub open spec fn lists_cells(entries: Seq<(CellKey, usize)>, cells: Map<CellKey, usize>) -> bool {
    &&& forall|i: int|
        0 <= i < entries.len() ==> cells.contains_pair(
            (#[trigger] entries[i]).0,
            entries[i].1,
        )
    &&& forall|i: int, j: int|
        0 <= i < j < entries.len() ==> (#[trigger] entries[i]).0 != (#[trigger] entries[j]).0
    &&& forall|k: CellKey| #[trigger]
        cells.contains_key(k) ==> exists|i: int|
            0 <= i < entries.len() && (#[trigger] entries[i]).0 == k
}

/// `cells` with `key` rebound to `slot` where a slot is given.
pub open spec fn rebound(cells: Map<CellKey, usize>, key: CellKey, slot: Option<usize>) -> Map<
    CellKey,
    usize,
> {
    match slot {
        Some(s) => cells.insert(key, s),
        None => cells,
    }
}

/// Calls `HashMap::with_capacity_and_hasher` with a default FNV hasher.
/// Claims that the new map is empty. The capacity is kept small enough
/// that the size of the table cannot overflow, on which the call panics.
#[verifier::external_body]
pub(crate) fn store_with_capacity(capacity: usize) -> (store: CellStore)
    requires
        capacity <= 4096,
    ensures
        store_map(store) == empty_cells(),
{
    HashMap::with_capacity_and_hasher(capacity, FnvBuildHasher::default())
}

/// Calls `HashMap::insert`. Claims that afterwards the key is bound to the
/// new slot and every other key to what it was bound to before, and that
/// the slot the key had before, if any, is returned.
#[verifier::external_body]
pub(crate) fn store_insert(store: &mut CellStore, key: CellKey, slot: usize) -> (previous: Option<
    usize,
>)
    ensures
        store_map(*final(store)) == store_map(*old(store)).insert(key, slot),
        previous == rebound_from(store_map(*old(store)), key),
{
    store.insert(key, slot)
}

/// The slot that `key` is bound to in `cells`, if any.
pub open spec fn rebound_from(cells: Map<CellKey, usize>, key: CellKey) -> Option<usize> {
    if cells.contains_key(key) {
        Some(cells[key])
    } else {
        None
    }
}

/// Calls `HashMap::get` and copies the slot out. Claims that the slot of a
/// bound key is returned, and `None` for any other key.
#[verifier::external_body]
pub(crate) fn store_get(store: &CellStore, key: CellKey) -> (slot: Option<usize>)
    ensures
        slot == rebound_from(store_map(*store), key),
{
    store.get(&key).copied()
}

/// Calls `HashMap::iter` and copies every pair out. Claims that each
/// binding of the map is listed exactly once; the order is the map's own
/// and nothing is claimed of it.
#[verifier::external_body]
pub(crate) fn store_entries(store: &CellStore) -> (entries: Vec<(CellKey, usize)>)
    ensures
        lists_cells(entries@, store_map(*store)),
{
    store.iter().map(|(key, slot)| (*key, *slot)).collect()
}

/// Calls `HashMap::get_many_mut` on two keys, which must differ because the
/// call panics on overlapping keys. Claims that a mutable borrow of the
/// slot is handed out for each key that is bound, and that the map ends up
/// with whatever is written through those borrows, all else unchanged.
#[verifier::external_body]
pub(crate) fn store_pair_mut<'a>(store: &'a mut CellStore, a: CellKey, b: CellKey) -> (pair: (
    Option<&'a mut usize>,
    Option<&'a mut usize>,
))
    requires
        a != b,
    ensures
        pair.0 is Some <==> store_map(*old(store)).contains_key(a),
        pair.1 is Some <==> store_map(*old(store)).contains_key(b),
        pair.0 matches Some(slot) ==> *slot == store_map(*old(store))[a],
        pair.1 matches Some(slot) ==> *slot == store_map(*old(store))[b],
        store_map(*final(store)) == rebound(
            rebound(
                store_map(*old(store)),
                a,
                match pair.0 {
                    Some(slot) => Some(*final(slot)),
                    None => None,
                },
            ),
            b,
            match pair.1 {
                Some(slot) => Some(*final(slot)),
                None => None,
            },
        ),
{
    let [first, second] = store.get_many_mut([&a, &b]);
    (first, second)
}

} // verus!
