//! Hash tables with integer keys.

use rustc_hash::FxHashMap;
use vstd::prelude::*;

verus! {

/// The hasher of `rustc_hash`.
#[verifier::external_type_specification]
#[verifier::external_body]
pub struct ExFxHasher(rustc_hash::FxHasher);

/// The way std makes a hasher for each key.
#[verifier::external_type_specification]
#[verifier::external_body]
#[verifier::reject_recursive_types(H)]
pub struct ExBuildHasherDefault<H>(std::hash::BuildHasherDefault<H>);

/// `rustc_hash::FxHashMap::default`: an empty table.
#[verifier::external_body]
pub(crate) fn new_table<V>() -> (table: FxHashMap<u64, V>)
    ensures
        table@.dom() == Set::<u64>::empty(),
{
    FxHashMap::default()
}

/// `insert` on a `rustc_hash::FxHashMap`: the key leads to the value from now on. What it led
/// to before is dropped.
#[verifier::external_body]
pub(crate) fn insert<V>(table: &mut FxHashMap<u64, V>, key: u64, value: V)
    ensures
        final(table)@ == old(table)@.insert(key, value),
{
    let _ = table.insert(key, value);
}

/// `remove` on a `rustc_hash::FxHashMap`: the key and what it led to are taken out.
#[verifier::external_body]
pub(crate) fn remove<V>(table: &mut FxHashMap<u64, V>, key: u64) -> (value: Option<V>)
    ensures
        final(table)@ == old(table)@.remove(key),
        match value {
            Some(v) => old(table)@.dom().contains(key) && v == old(table)@[key],
            None => !old(table)@.dom().contains(key),
        },
{
    table.remove(&key)
}

/// `contains_key` on a `rustc_hash::FxHashMap`.
#[verifier::external_body]
pub(crate) fn contains<V>(table: &FxHashMap<u64, V>, key: u64) -> (found: bool)
    ensures
        found == table@.dom().contains(key),
{
    table.contains_key(&key)
}

/// `get_mut` on a `rustc_hash::FxHashMap`: a change of the value is a change of the table
/// under that key.
#[verifier::external_body]
pub(crate) fn get_mut<'a, V>(table: &'a mut FxHashMap<u64, V>, key: u64) -> (value: Option<
    &'a mut V,
>)
    ensures
        match value {
            Some(v) => old(table)@.dom().contains(key) && *v == old(table)@[key] && final(table)@
                == old(table)@.insert(key, *final(v)),
            None => !old(table)@.dom().contains(key) && final(table)@ == old(table)@,
        },
{
    table.get_mut(&key)
}

} // verus!
