//! The hash tables that the library keeps: the identity map from entity id
//! to runtime handle, and the two name-keyed template libraries. The tables
//! are `hashbrown` maps; what they hold is stated here, not proved.

use vstd::prelude::*;
use crate::entity::EditorBundle;
use crate::property::{BagView, DynamicProperties};

verus! {

/// `hashbrown::HashMap`, taken as it is: nothing inside it is visible to
/// the proofs.
#[verifier::external_type_specification]
#[verifier::external_body]
#[verifier::reject_recursive_types(K)]
#[verifier::reject_recursive_types(V)]
#[verifier::reject_recursive_types(S)]
pub struct ExHashMap<K, V, S>(hashbrown::HashMap<K, V, S>);

/// `hashbrown::hash_map::DefaultHashBuilder`, the hasher that the tables
/// are made with; it is never looked at.
#[verifier::external_type_specification]
#[verifier::external_body]
pub struct ExDefaultHashBuilder(hashbrown::hash_map::DefaultHashBuilder);

/// The entries of a table from integer to integer.
pub uninterp spec fn pair_entries(m: hashbrown::HashMap<u64, u64>) -> Map<u64, u64>;

/// `hashbrown::HashMap::new`: a table without entries.
#[verifier::external_body]
pub(crate) fn pairs_new() -> (r: hashbrown::HashMap<u64, u64>)
    ensures
        forall|key: u64| !pair_entries(r).contains_key(key),
{
    hashbrown::HashMap::new()
}

/// `hashbrown::HashMap::insert`: afterwards the table holds `value` for
/// `key`, in place of what it held for `key` before, and its other entries
/// as before. Returns what it held for `key` before.
#[verifier::external_body]
pub(crate) fn pairs_insert(table: &mut hashbrown::HashMap<u64, u64>, key: u64, value: u64) -> (r:
    Option<u64>)
    ensures
        pair_entries(*final(table)) == pair_entries(*old(table)).insert(key, value),
        r == if pair_entries(*old(table)).contains_key(key) {
            Some(pair_entries(*old(table))[key])
        } else {
            None
        },
{
    table.insert(key, value)
}

/// `hashbrown::HashMap::get`: what the table holds for `key`, if anything.
#[verifier::external_body]
pub(crate) fn pairs_get(table: &hashbrown::HashMap<u64, u64>, key: u64) -> (r: Option<u64>)
    ensures
        r == if pair_entries(*table).contains_key(key) {
            Some(pair_entries(*table)[key])
        } else {
            None
        },
{
    table.get(&key).copied()
}

/// `hashbrown::HashMap::remove`: afterwards the table holds nothing for
/// `key`, and its other entries as before. Returns what it held for `key`
/// before.
#[verifier::external_body]
pub(crate) fn pairs_remove(table: &mut hashbrown::HashMap<u64, u64>, key: u64) -> (r: Option<u64>)
    ensures
        pair_entries(*final(table)) == pair_entries(*old(table)).remove(key),
        r == if pair_entries(*old(table)).contains_key(key) {
            Some(pair_entries(*old(table))[key])
        } else {
            None
        },
{
    table.remove(&key)
}

/// The bags that a library of bundles holds under each name.
pub uninterp spec fn bundle_entries(m: hashbrown::HashMap<String, EditorBundle>) -> Map<
    Seq<char>,
    Seq<BagView>,
>;

/// `hashbrown::HashMap::new`: a table without entries.
#[verifier::external_body]
pub(crate) fn bundles_new() -> (r: hashbrown::HashMap<String, EditorBundle>)
    ensures
        forall|name: Seq<char>| !bundle_entries(r).contains_key(name),
{
    hashbrown::HashMap::new()
}

/// `hashbrown::HashMap::insert`: afterwards the table holds `bundle` under
/// `name`, in place of what it held under `name` before, and its other
/// entries as before.
#[verifier::external_body]
pub(crate) fn bundles_insert(
    table: &mut hashbrown::HashMap<String, EditorBundle>,
    name: String,
    bundle: EditorBundle,
)
    ensures
        bundle_entries(*final(table)) == bundle_entries(*old(table)).insert(name@, bundle@),
{
    table.insert(name, bundle);
}

/// `hashbrown::HashMap::get`: the bundle held under `name`, if any.
#[verifier::external_body]
pub(crate) fn bundles_get<'a>(
    table: &'a hashbrown::HashMap<String, EditorBundle>,
    name: &str,
) -> (r: Option<&'a EditorBundle>)
    ensures
        match r {
            Some(bundle) => bundle_entries(*table).contains_key(name@) && bundle@
                == bundle_entries(*table)[name@],
            None => !bundle_entries(*table).contains_key(name@),
        },
{
    table.get(name)
}

/// `hashbrown::HashMap::iter`, collected: every entry of the table once, in
/// an order that is not stated.
#[verifier::external_body]
pub(crate) fn bundles_iter<'a>(table: &'a hashbrown::HashMap<String, EditorBundle>) -> (r: Vec<
    (&'a String, &'a EditorBundle),
>)
    ensures
        forall|i: int|
            0 <= i < r.len() ==> bundle_entries(*table).contains_key(#[trigger] r[i].0@)
                && r[i].1@ == bundle_entries(*table)[r[i].0@],
        forall|i: int, j: int| 0 <= i < j < r.len() ==> r[i].0@ != r[j].0@,
        forall|name: Seq<char>|
            bundle_entries(*table).contains_key(name) ==> exists|i: int|
                0 <= i < r.len() && #[trigger] r[i].0@ == name,
{
    table.iter().collect()
}

/// The bag that a library of properties holds under each name.
pub uninterp spec fn property_entries(m: hashbrown::HashMap<String, DynamicProperties>) -> Map<
    Seq<char>,
    BagView,
>;

/// `hashbrown::HashMap::new`: a table without entries.
#[verifier::external_body]
pub(crate) fn properties_new() -> (r: hashbrown::HashMap<String, DynamicProperties>)
    ensures
        forall|name: Seq<char>| !property_entries(r).contains_key(name),
{
    hashbrown::HashMap::new()
}

/// `hashbrown::HashMap::insert`: afterwards the table holds `bag` under
/// `name`, in place of what it held under `name` before, and its other
/// entries as before.
#[verifier::external_body]
pub(crate) fn properties_insert(
    table: &mut hashbrown::HashMap<String, DynamicProperties>,
    name: String,
    bag: DynamicProperties,
)
    ensures
        property_entries(*final(table)) == property_entries(*old(table)).insert(name@, bag@),
{
    table.insert(name, bag);
}

/// `hashbrown::HashMap::get`: the bag held under `name`, if any.
#[verifier::external_body]
pub(crate) fn properties_get<'a>(
    table: &'a hashbrown::HashMap<String, DynamicProperties>,
    name: &str,
) -> (r: Option<&'a DynamicProperties>)
    ensures
        match r {
            Some(bag) => property_entries(*table).contains_key(name@) && bag@ == property_entries(
                *table,
            )[name@],
            None => !property_entries(*table).contains_key(name@),
        },
{
    table.get(name)
}

/// `hashbrown::HashMap::iter`, collected: every entry of the table once, in
/// an order that is not stated.
#[verifier::external_body]
pub(crate) fn properties_iter<'a>(table: &'a hashbrown::HashMap<String, DynamicProperties>) -> (r:
    Vec<(&'a String, &'a DynamicProperties)>)
    ensures
        forall|i: int|
            0 <= i < r.len() ==> property_entries(*table).contains_key(#[trigger] r[i].0@)
                && r[i].1@ == property_entries(*table)[r[i].0@],
        forall|i: int, j: int| 0 <= i < j < r.len() ==> r[i].0@ != r[j].0@,
        forall|name: Seq<char>|
            property_entries(*table).contains_key(name) ==> exists|i: int|
                0 <= i < r.len() && #[trigger] r[i].0@ == name,
{
    table.iter().collect()
}

} // verus!
