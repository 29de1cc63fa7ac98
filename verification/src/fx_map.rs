//! `FxHashMap` with string keys: what its methods do, over the texts of the keys.
use rustc_hash::FxHashMap;
use vstd::prelude::*;

use crate::text::texts;

verus! {

/// The builder of the hashers of an `FxHashMap`. Nothing is said of it.
#[verifier::external_type_specification]
#[verifier::external_body]
pub struct ExFxBuildHasher(rustc_hash::FxBuildHasher);

/// The entries of a map, by the text of their keys.
pub open spec fn entries<V>(m: FxHashMap<String, V>) -> Map<Seq<char>, V> {
    Map::new(
        |text: Seq<char>| exists|k: String| #[trigger] m@.contains_key(k) && k@ == text,
        |text: Seq<char>| m@[choose|k: String| #[trigger] m@.contains_key(k) && k@ == text],
    )
}

/// An empty map.
pub(crate) fn fx_new<V>() -> (m: FxHashMap<String, V>)
    ensures
        entries(m) == Map::<Seq<char>, V>::empty(),
{
    let m: FxHashMap<String, V> = FxHashMap::default();
    assert(entries(m) =~= Map::<Seq<char>, V>::empty());
    m
}

/// `FxHashMap::insert` sets the value of one key and leaves every other entry.
#[verifier::external_body]
pub(crate) fn fx_insert<V>(m: &mut FxHashMap<String, V>, key: String, value: V)
    ensures
        entries(*final(m)) == entries(*old(m)).insert(key@, value),
{
    m.insert(key, value);
}

/// `FxHashMap::remove` takes one key out, hands back the value that it had, and leaves every
/// other entry.
#[verifier::external_body]
pub(crate) fn fx_remove<V>(m: &mut FxHashMap<String, V>, key: &str) -> (value: Option<V>)
    ensures
        entries(*final(m)) == entries(*old(m)).remove(key@),
        value == (if entries(*old(m)).contains_key(key@) {
            Some(entries(*old(m))[key@])
        } else {
            None
        }),
{
    m.remove(key)
}

/// `FxHashMap::get` finds the value of a key.
#[verifier::external_body]
pub(crate) fn fx_get<'a, V>(m: &'a FxHashMap<String, V>, key: &str) -> (value: Option<&'a V>)
    ensures
        match value {
            Some(v) => entries(*m).contains_key(key@) && *v == entries(*m)[key@],
            None => !entries(*m).contains_key(key@),
        },
{
    m.get(key)
}

/// `FxHashMap::get_mut` lends out the value of a key: what is written through the loan is
/// the key's value afterwards, and every other entry stays.
#[verifier::external_body]
pub(crate) fn fx_get_mut<'a, V>(m: &'a mut FxHashMap<String, V>, key: &str) -> (value: Option<
    &'a mut V,
>)
    ensures
        match value {
            Some(v) => {
                &&& entries(*old(m)).contains_key(key@)
                &&& *v == entries(*old(m))[key@]
                &&& entries(*final(m)) == entries(*old(m)).insert(key@, *final(v))
            },
            None => {
                &&& !entries(*old(m)).contains_key(key@)
                &&& entries(*final(m)) == entries(*old(m))
            },
        },
{
    m.get_mut(key)
}

/// `FxHashMap::len` counts the entries.
#[verifier::external_body]
pub(crate) fn fx_len<V>(m: &FxHashMap<String, V>) -> (n: usize)
    ensures
        n == entries(*m).dom().len(),
{
    m.len()
}

/// `FxHashMap::keys` hands out every key once. The order is left unsaid: it depends on how
/// the map came to hold its entries.
#[verifier::external_body]
pub(crate) fn fx_keys<V>(m: &FxHashMap<String, V>) -> (keys: Vec<String>)
    ensures
        texts(keys@).no_duplicates(),
        texts(keys@).to_set() == entries(*m).dom(),
{
    m.keys().cloned().collect()
}

} // verus!
